use polyrag::extraction::html_extractor::HtmlExtractor;
use polyrag::extraction::registry::{BytesExtraction, Extractor, ExtractorRegistry};
use polyrag::extraction::text_extractor::TextExtractor;
use polyrag::extraction::youtube_extractor::YoutubeExtractor;
use polyrag::extraction::{DocumentExtractionError, ExtractionOptions};

fn kind(e: &Extractor) -> &'static str {
    match e {
        Extractor::Html(_) => "html",
        Extractor::Pdf(_) => "pdf",
        Extractor::Youtube(_) => "youtube",
        Extractor::Docx(_) => "docx",
        Extractor::Pptx(_) => "pptx",
        Extractor::Text(_) => "text",
    }
}

#[test]
fn text_extractor_accepts_plain_text_aliases() {
    let t = TextExtractor::new();
    for ft in ["text/plain", "TEXT/PLAIN", "text/txt", "txt", "plain"] {
        assert!(t.can_extract(ft), "{}", ft);
    }
    assert!(!t.can_extract("text/html"));
}

#[test]
fn text_bytes_become_the_document_text() {
    let doc = TextExtractor::new()
        .extract_text_from_bytes("héllo".as_bytes(), "text/plain", ExtractionOptions::default())
        .expect("utf-8");
    assert_eq!(doc.full_text, "héllo");
    assert!(doc.pages.is_empty());
    assert!(doc.pending_assets.is_empty());
}

#[test]
fn text_bytes_must_be_utf8() {
    let r = TextExtractor::new().extract_text_from_bytes(&[0xff, 0xfe], "txt", ExtractionOptions::default());
    match r {
        Err(DocumentExtractionError::ExtractionFailed(m)) => assert!(m.starts_with("invalid UTF-8: ")),
        _ => panic!("expected a UTF-8 failure"),
    }
    let r = TextExtractor::new().extract_text_from_bytes(b"x", "image/png", ExtractionOptions::default());
    assert!(matches!(r, Err(DocumentExtractionError::UnsupportedFormat(m)) if m == "image/png"));
}

#[test]
fn html_bytes_are_checked_and_decoded() {
    let h = HtmlExtractor::new();
    assert!(h.can_extract("text/HTML"));
    assert!(h.can_extract("text/htm"));
    assert_eq!(h.content_from_bytes(b"https://example.com", "text/html").expect("ok"), "https://example.com");
    assert!(matches!(h.content_from_bytes(b"x", "text/htm"), Err(DocumentExtractionError::UnsupportedFormat(_))));
    assert!(matches!(h.page_address("not a url"), Err(DocumentExtractionError::ExtractionFailed(m)) if m.starts_with("Invalid URL: ")));
}

#[test]
fn html_pages_render_to_text() {
    let h = HtmlExtractor::new();
    let doc = h.document_from_html("<html><body><p>Hello <b>world</b></p></body></html>").expect("render");
    assert!(doc.full_text.contains("Hello"));
    assert!(doc.full_text.contains("world"));
    assert!(doc.pages.is_empty());
}

#[test]
fn youtube_video_ids_are_found() {
    let y = YoutubeExtractor::new();
    assert_eq!(y.video_id_from_url("https://www.youtube.com/watch?v=abc123&t=5").expect("id"), "abc123");
    assert_eq!(y.video_id_from_url("https://youtu.be/xyz789").expect("id"), "xyz789");
    match y.video_id_from_url("https://example.com/watch?v=1") {
        Err(DocumentExtractionError::ExtractionFailed(m)) => assert_eq!(m, "Not a valid YouTube URL"),
        _ => panic!("expected an error"),
    }
    match y.video_id_from_url("https://youtube.com/watch?x=1") {
        Err(DocumentExtractionError::ExtractionFailed(m)) => assert_eq!(m, "Could not extract video ID from YouTube URL"),
        _ => panic!("expected an error"),
    }
    assert!(matches!(y.video_id_from_url("::"), Err(DocumentExtractionError::ExtractionFailed(m)) if m.starts_with("Invalid YouTube URL: ")));
}

#[test]
fn youtube_url_bytes_are_trimmed() {
    let y = YoutubeExtractor::new();
    assert_eq!(y.url_from_bytes(b"  https://youtu.be/q \n", "text/youtube-url").expect("ok"), "https://youtu.be/q");
    assert!(matches!(y.url_from_bytes(b"x", "application/youtube"), Err(DocumentExtractionError::UnsupportedFormat(_))));
}

#[test]
fn transcripts_join_their_lines() {
    let y = YoutubeExtractor::new();
    let lines = vec!["[0.0-1.5s] hi".to_string(), "[1.5-3.0s] there".to_string()];
    assert_eq!(y.transcript_document(&lines).expect("doc").full_text, "[0.0-1.5s] hi\n[1.5-3.0s] there");
    match y.transcript_document(&Vec::new()) {
        Err(DocumentExtractionError::ExtractionFailed(m)) => assert_eq!(m, "Video has no available transcripts"),
        _ => panic!("expected an error"),
    }
}

#[test]
fn default_registry_dispatches_by_mime_type() {
    let reg = ExtractorRegistry::with_defaults().expect("registry");
    assert_eq!(kind(reg.get_extractor_for_type("text/html").unwrap()), "html");
    assert_eq!(kind(reg.get_extractor_for_type("application/PDF").unwrap()), "pdf");
    assert_eq!(kind(reg.get_extractor_for_type("text/youtube-url").unwrap()), "youtube");
    assert_eq!(
        kind(reg.get_extractor_for_type("application/vnd.openxmlformats-officedocument.wordprocessingml.document").unwrap()),
        "docx"
    );
    assert_eq!(
        kind(reg.get_extractor_for_type("application/vnd.openxmlformats-officedocument.presentationml.presentation").unwrap()),
        "pptx"
    );
    assert_eq!(kind(reg.get_extractor_for_type("text/plain").unwrap()), "text");
    assert!(reg.get_extractor_for_type("image/png").is_none());
    assert!(reg.can_extract("txt"));
    assert!(!reg.can_extract("image/png"));
}

#[test]
fn the_first_registered_extractor_wins() {
    let reg = ExtractorRegistry::new(vec![
        Extractor::Youtube(YoutubeExtractor::new()),
        Extractor::Text(TextExtractor::new()),
    ]);
    assert_eq!(kind(reg.get_extractor_for_type("TXT").unwrap()), "text");
    let empty = ExtractorRegistry::new(Vec::new());
    assert!(!empty.can_extract("text/plain"));
}

#[test]
fn registry_bytes_extraction_outcomes() {
    let reg = ExtractorRegistry::default();
    match reg.extract_text_from_bytes(b"plain words", "text/plain", ExtractionOptions::default()) {
        Ok(BytesExtraction::Document(d)) => assert_eq!(d.full_text, "plain words"),
        _ => panic!("expected a document"),
    }
    match reg.extract_text_from_bytes(b"https://example.com/a", "text/html", ExtractionOptions::default()) {
        Ok(BytesExtraction::FetchPage(a)) => assert_eq!(a, "https://example.com/a"),
        _ => panic!("expected a page to fetch"),
    }
    match reg.extract_text_from_bytes(b" https://youtu.be/vid42 ", "text/youtube-url", ExtractionOptions::default()) {
        Ok(BytesExtraction::FetchTranscript { url, video_id }) => {
            assert_eq!(url, "https://youtu.be/vid42");
            assert_eq!(video_id, "vid42");
        }
        _ => panic!("expected a transcript to fetch"),
    }
    match reg.extract_text_from_bytes(b"x", "image/png", ExtractionOptions::default()) {
        Err(DocumentExtractionError::UnsupportedFormat(m)) => assert_eq!(m, "image/png"),
        _ => panic!("expected unsupported"),
    }
}
