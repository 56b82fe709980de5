use polyrag::extraction::docx_extractor::{DocxExtractor, DOCX_MIME, UNREADABLE_ENTRY};
use polyrag::extraction::docx_parts::{all_parts_safe, part_is_safe};
use polyrag::extraction::pptx_extractor::{slide_index, unescape_xml_entities, PptxExtractor, PPTX_MIME};
use polyrag::extraction::{DocumentExtractionError, ExtractionOptions};
use std::io::Write;
use zip::write::SimpleFileOptions;

fn build_minimal_docx(paragraphs: &[&str]) -> Vec<u8> {
    let mut doc = docx_rs::Docx::new();
    for p in paragraphs {
        doc = doc.add_paragraph(
            docx_rs::Paragraph::new().add_run(docx_rs::Run::new().add_text(p.to_string())),
        );
    }
    let mut buf = std::io::Cursor::new(Vec::new());
    doc.build().pack(&mut buf).expect("failed to pack docx");
    buf.into_inner()
}

fn build_minimal_pptx(slides: &[&[&str]]) -> Vec<u8> {
    let mut zip_buf = Vec::new();
    {
        let mut w = zip::ZipWriter::new(std::io::Cursor::new(&mut zip_buf));
        let opts = SimpleFileOptions::default();
        w.start_file("[Content_Types].xml", opts).unwrap();
        w.write_all(br#"<?xml version="1.0" encoding="UTF-8"?><Types/>"#).unwrap();
        for (i, lines) in slides.iter().enumerate() {
            let name = format!("ppt/slides/slide{}.xml", i + 1);
            w.start_file(&name, opts).unwrap();
            let body: String = lines.iter().map(|l| format!(r#"<a:t>{}</a:t>"#, l)).collect();
            let xml = format!(
                r#"<?xml version="1.0" encoding="UTF-8"?>
<p:sld xmlns:a="http://schemas.openxmlformats.org/drawingml/2006/main" xmlns:p="http://schemas.openxmlformats.org/presentationml/2006/main">
  <p:cSld><p:spTree>{}</p:spTree></p:cSld>
</p:sld>"#,
                body
            );
            w.write_all(xml.as_bytes())
            .unwrap();
        }
        w.finish().unwrap();
    }
    zip_buf
}

#[test]
fn extracts_paragraphs_in_order() {
    let buf = build_minimal_docx(&["Hello", "World", "From docx-rs"]);
    let text = DocxExtractor::text_from_docx(&buf).expect("extract ok");
    assert!(text.contains("Hello"));
    assert!(text.contains("World"));
    assert!(text.contains("From docx-rs"));
    let order_pos = text.find("Hello").unwrap();
    let world_pos = text.find("World").unwrap();
    let from_pos = text.find("From docx-rs").unwrap();
    assert!(order_pos < world_pos);
    assert!(world_pos < from_pos);
}

#[test]
fn docx_extractor_can_extract_matches_canonical_mime() {
    assert!(DocxExtractor::new().can_extract(DOCX_MIME));
    assert!(!DocxExtractor::new().can_extract("application/pdf"));
    assert!(!DocxExtractor::new().can_extract("text/plain"));
}

#[test]
fn rejects_wrong_mime() {
    let result = DocxExtractor::new().extract_text_from_bytes(
        b"not a docx",
        "application/pdf",
        ExtractionOptions::default(),
    );
    assert!(matches!(result, Err(DocumentExtractionError::UnsupportedFormat(_))));
}

#[test]
fn docx_document_is_one_page_with_the_text() {
    let buf = build_minimal_docx(&["Alpha", "Beta"]);
    let doc = DocxExtractor::document_from_bytes(&buf).expect("extract ok");
    assert_eq!(doc.pages.len(), 1);
    assert_eq!(doc.pages[0].page_number, 0);
    assert_eq!(doc.pages[0].text, doc.full_text);
    assert!(doc.pending_assets.is_empty());
    assert!(doc.full_text.contains("Alpha"));
}

#[test]
fn docx_mime_match_ignores_case() {
    assert!(DocxExtractor::can_extract_str(&DOCX_MIME.to_uppercase()));
}

#[test]
fn docx_bytes_that_are_not_a_package_fail() {
    let result = DocxExtractor::new().extract_text_from_bytes(b"not a docx", DOCX_MIME, ExtractionOptions::default());
    assert!(matches!(result, Err(DocumentExtractionError::ExtractionFailed(_))));
}

#[test]
fn extracts_slides_in_numerical_order() {
    let buf = build_minimal_pptx(&[
        &["first slide", "second line"],
        &["second slide"],
        &["third slide", "with detail"],
    ]);
    let text = PptxExtractor::document_from_bytes(&buf).expect("extract ok").full_text;
    assert!(text.contains("first slide"));
    assert!(text.contains("second slide"));
    assert!(text.contains("third slide"));

    let p1 = text.find("first slide").unwrap();
    let p2 = text.find("second slide").unwrap();
    let p3 = text.find("third slide").unwrap();
    assert!(p1 < p2);
    assert!(p2 < p3);
}

#[test]
fn unescapes_xml_entities() {
    assert_eq!(unescape_xml_entities("a &amp; b"), "a & b");
    assert_eq!(unescape_xml_entities("&lt;tag&gt;"), "<tag>");
    assert_eq!(unescape_xml_entities("&quot;hi&quot;"), "\"hi\"");
}

#[test]
fn slide_index_parser() {
    assert_eq!(slide_index("ppt/slides/slide1.xml"), 1);
    assert_eq!(slide_index("ppt/slides/slide12.xml"), 12);
    assert_eq!(slide_index("ppt/slides/slide.xml"), u32::MAX);
}

#[test]
fn pptx_extractor_can_extract_matches_canonical_mime() {
    assert!(PptxExtractor::new().can_extract(PPTX_MIME));
    assert!(!PptxExtractor::new().can_extract("application/pdf"));
    assert!(!PptxExtractor::new().can_extract("text/plain"));
}

#[test]
fn rejects_non_pptx_bytes() {
    let result = PptxExtractor::new().extract_text_from_bytes(b"not a zip", PPTX_MIME, ExtractionOptions::default());
    assert!(matches!(result, Err(DocumentExtractionError::CorruptedFile(_))));
}

#[test]
fn slides_ten_and_up_sort_after_two() {
    let mut slides: Vec<&[&str]> = Vec::new();
    let names: Vec<String> = (1..=11).map(|i| format!("slide text {}", i)).collect();
    let refs: Vec<[&str; 1]> = names.iter().map(|n| [n.as_str()]).collect();
    for r in &refs {
        slides.push(r);
    }
    let buf = build_minimal_pptx(&slides);
    let doc = PptxExtractor::document_from_bytes(&buf).expect("extract ok");
    let numbers: Vec<u32> = doc.pages.iter().map(|p| p.page_number).collect();
    assert_eq!(numbers, (1..=11).collect::<Vec<u32>>());
    assert_eq!(doc.pages[10].text, "slide text 11");
    assert_eq!(doc.full_text, names.join("\n"));
}

#[test]
fn slide_text_runs_are_joined_and_unescaped() {
    let buf = build_minimal_pptx(&[&["a &amp; b", "c"]]);
    let doc = PptxExtractor::document_from_bytes(&buf).expect("extract ok");
    assert_eq!(doc.pages.len(), 1);
    assert_eq!(doc.pages[0].text, "a & bc");
}

#[test]
fn docx_tables_and_hyperlinks_contribute_text() {
    let cell = |t: &str| {
        docx_rs::TableCell::new()
            .add_paragraph(docx_rs::Paragraph::new().add_run(docx_rs::Run::new().add_text(t)))
    };
    let table = docx_rs::Table::new(vec![
        docx_rs::TableRow::new(vec![cell("a1"), cell("b1")]),
        docx_rs::TableRow::new(vec![cell("a2"), cell("b2")]),
    ]);
    let link = docx_rs::Hyperlink::new("https://example.com", docx_rs::HyperlinkType::External)
        .add_run(docx_rs::Run::new().add_text("the link"));
    let doc = docx_rs::Docx::new()
        .add_paragraph(
            docx_rs::Paragraph::new()
                .add_run(docx_rs::Run::new().add_text("see "))
                .add_hyperlink(link),
        )
        .add_table(table);
    let mut buf = std::io::Cursor::new(Vec::new());
    doc.build().pack(&mut buf).expect("pack");
    let text = DocxExtractor::text_from_docx(&buf.into_inner()).expect("extract ok");
    assert!(text.contains("see the link\n"), "{:?}", text);
    assert!(text.contains("a1\tb1\t\na2\tb2\t\n"), "{:?}", text);
    assert!(text.find("see").unwrap() < text.find("a1").unwrap());
}

/// A docx package whose document part is stored uncompressed and then has
/// one byte of its data changed, so the entry no longer passes its check.
fn docx_with_corrupt_entry() -> Vec<u8> {
    let buf = build_minimal_docx(&["intact"]);
    let mut zip_buf = Vec::new();
    {
        let mut archive = zip::ZipArchive::new(std::io::Cursor::new(&buf[..])).unwrap();
        let mut w = zip::ZipWriter::new(std::io::Cursor::new(&mut zip_buf));
        let opts = SimpleFileOptions::default().compression_method(zip::CompressionMethod::Stored);
        for i in 0..archive.len() {
            let mut entry = archive.by_index(i).unwrap();
            let name = entry.name().to_string();
            let mut data = Vec::new();
            std::io::Read::read_to_end(&mut entry, &mut data).unwrap();
            w.start_file(&name, opts).unwrap();
            w.write_all(&data).unwrap();
        }
        w.finish().unwrap();
    }
    let marker = b"intact";
    let at = zip_buf.windows(marker.len()).position(|w| w == marker).expect("stored text");
    zip_buf[at] = b'X';
    zip_buf
}

#[test]
fn docx_with_an_entry_that_does_not_read_is_refused() {
    let bytes = docx_with_corrupt_entry();
    let result = DocxExtractor::new().extract_text_from_bytes(&bytes, DOCX_MIME, ExtractionOptions::default());
    match result {
        Err(DocumentExtractionError::ExtractionFailed(m)) => assert_eq!(m, UNREADABLE_ENTRY),
        other => panic!("expected an unreadable-entry failure, got {:?}", other.map(|d| d.full_text)),
    }
}

/// A minimal docx package with `extra` added as the entry `name`.
fn docx_with_extra_entry(name: &str, extra: &str) -> Vec<u8> {
    let buf = build_minimal_docx(&["body text"]);
    let mut zip_buf = Vec::new();
    {
        let mut archive = zip::ZipArchive::new(std::io::Cursor::new(&buf[..])).unwrap();
        let mut w = zip::ZipWriter::new(std::io::Cursor::new(&mut zip_buf));
        let opts = SimpleFileOptions::default();
        for i in 0..archive.len() {
            let mut entry = archive.by_index(i).unwrap();
            let entry_name = entry.name().to_string();
            let mut data = Vec::new();
            std::io::Read::read_to_end(&mut entry, &mut data).unwrap();
            w.start_file(&entry_name, opts).unwrap();
            w.write_all(&data).unwrap();
        }
        w.start_file(name, opts).unwrap();
        w.write_all(extra.as_bytes()).unwrap();
        w.finish().unwrap();
    }
    zip_buf
}

#[test]
fn a_plain_docx_passes_the_part_check() {
    let buf = build_minimal_docx(&["one", "two"]);
    assert!(all_parts_safe(&buf));
    let doc = DocxExtractor::new()
        .extract_text_from_bytes(&buf, DOCX_MIME, ExtractionOptions::default())
        .expect("extract ok");
    assert_eq!(doc.full_text, "one\ntwo\n");
}

#[test]
fn a_comment_without_an_id_is_refused() {
    let bytes = docx_with_extra_entry(
        "word/extra.xml",
        r#"<w:comments xmlns:w="urn:w"><w:comment w:author="a"><w:p/></w:comment></w:comments>"#,
    );
    assert!(!all_parts_safe(&bytes));
    match DocxExtractor::new().extract_text_from_bytes(&bytes, DOCX_MIME, ExtractionOptions::default()) {
        Err(DocumentExtractionError::ExtractionFailed(m)) => assert_eq!(m, UNREADABLE_ENTRY),
        other => panic!("expected a refusal, got {:?}", other.map(|d| d.full_text)),
    }
}

#[test]
fn part_check_looks_at_the_attributes_the_reader_takes() {
    let name: Vec<char> = "word/document.xml".chars().collect();
    assert!(part_is_safe(&name, br#"<w:p><w:pPr><w:jc w:val="center"/></w:pPr></w:p>"#));
    assert!(!part_is_safe(&name, br#"<w:p><w:pPr><w:jc/></w:pPr></w:p>"#));
    assert!(part_is_safe(&name, br#"<w:comment w:id="3" w:author="x>y"/>"#));
    assert!(!part_is_safe(&name, br#"<w:comment w:author=" w:id=3"/>"#));
    assert!(!part_is_safe(&name, br#"<w15:commentEx w15:done="0"/>"#));
    assert!(part_is_safe(&name, br#"<w15:commentEx w15:paraId="0A1B"/>"#));
    let ct: Vec<char> = "[Content_Types].xml".chars().collect();
    assert!(part_is_safe(&ct, br#"<Types xmlns="urn:t"><Default Extension="xml" ContentType="application/xml"/></Types>"#));
    assert!(!part_is_safe(&ct, br#"<Types xmlns="urn:t"><Default Extension="xml"/></Types>"#));
    assert!(!part_is_safe(&name, &[0xFF, 0xFE, b'<', 0]));
}
