use lopdf::content::{Content, Operation};
use lopdf::{Dictionary, Document, Object, Stream};
use polyrag::extraction::pdf_extractor::{
    assemble, encode_png, page_lines, strip_layout_keys, PdfExtractor, CMAP_RANGE_ARRAY, EMPTY_COLOR_SPACE, PDF_MIME, SHORT_USER_ENTRY,
};
use polyrag::extraction::PendingAsset;
use polyrag::extraction::{DocumentExtractionError, ExtractionOptions};

const PNG_MAGIC: &[u8] = &[0x89, b'P', b'N', b'G'];

/// A PDF with one page per text; page `i` also shows one JPEG image when
/// `jpeg_on[i]` is set.
fn pdf_with_pages(texts: &[&str], jpeg_on: &[bool]) -> Vec<u8> {
    let mut doc = Document::with_version("1.5");
    let pages_id = doc.new_object_id();
    let mut font = Dictionary::new();
    font.set("Type", "Font");
    font.set("Subtype", "Type1");
    font.set("BaseFont", "Helvetica");
    let font_id = doc.add_object(font);
    let mut kids: Vec<Object> = Vec::new();
    for (i, text) in texts.iter().enumerate() {
        let mut fonts = Dictionary::new();
        fonts.set("F1", font_id);
        let mut resources = Dictionary::new();
        resources.set("Font", fonts);
        if jpeg_on.get(i).copied().unwrap_or(false) {
            let mut img = Dictionary::new();
            img.set("Type", "XObject");
            img.set("Subtype", "Image");
            img.set("Width", 2);
            img.set("Height", 2);
            img.set("ColorSpace", "DeviceRGB");
            img.set("BitsPerComponent", 8);
            img.set("Filter", "DCTDecode");
            let img_id = doc.add_object(Stream::new(img, vec![0xff, 0xd8, 0xff, 0xe0, 1, 2, 3]));
            let mut xobjects = Dictionary::new();
            xobjects.set("Im1", img_id);
            resources.set("XObject", xobjects);
        }
        let resources_id = doc.add_object(resources);
        let content = Content {
            operations: vec![
                Operation::new("BT", vec![]),
                Operation::new("Tf", vec!["F1".into(), 24.into()]),
                Operation::new("Td", vec![100.into(), 600.into()]),
                Operation::new("Tj", vec![Object::string_literal(*text)]),
                Operation::new("ET", vec![]),
            ],
        };
        let content_id = doc.add_object(Stream::new(Dictionary::new(), content.encode().expect("encode content")));
        let mut page = Dictionary::new();
        page.set("Type", "Page");
        page.set("Parent", pages_id);
        page.set("Contents", content_id);
        page.set("Resources", resources_id);
        page.set("MediaBox", vec![0.into(), 0.into(), 612.into(), 792.into()]);
        let page_id = doc.add_object(page);
        kids.push(page_id.into());
    }
    let count = kids.len() as i64;
    let mut pages = Dictionary::new();
    pages.set("Type", "Pages");
    pages.set("Kids", kids);
    pages.set("Count", count);
    doc.objects.insert(pages_id, Object::Dictionary(pages));
    let mut catalog = Dictionary::new();
    catalog.set("Type", "Catalog");
    catalog.set("Pages", pages_id);
    let catalog_id = doc.add_object(catalog);
    doc.trailer.set("Root", catalog_id);
    let mut bytes = Vec::new();
    doc.save_to(&mut bytes).expect("serialize pdf");
    bytes
}

#[test]
fn encodes_rgb8_samples_to_png() {
    let samples = vec![0u8; 2 * 2 * 3];
    let png = encode_png(&samples, 2, 2, Some("DeviceRGB"), Some(8)).expect("rgb png");
    assert!(png.starts_with(PNG_MAGIC));
}

#[test]
fn encodes_gray8_samples_to_png() {
    let samples = vec![128u8; 4 * 4];
    let png = encode_png(&samples, 4, 4, Some("DeviceGray"), Some(8)).expect("gray png");
    assert!(png.starts_with(PNG_MAGIC));
}

#[test]
fn rejects_unsupported_depth_and_colorspace() {
    let samples = vec![0u8; 64];
    assert!(encode_png(&samples, 2, 2, Some("DeviceRGB"), Some(16)).is_none());
    assert!(encode_png(&samples, 2, 2, Some("DeviceCMYK"), Some(8)).is_none());
}

#[test]
fn rejects_truncated_sample_buffer() {
    let samples = vec![0u8; 10];
    assert!(encode_png(&samples, 4, 4, Some("DeviceRGB"), Some(8)).is_none());
}

#[test]
fn png_encoding_uses_only_the_needed_samples() {
    let samples = vec![7u8; 100];
    let png = encode_png(&samples, 3, 3, Some("G"), Some(8)).expect("gray png");
    assert!(png.starts_with(PNG_MAGIC));
    assert!(encode_png(&samples, 0, 3, Some("G"), Some(8)).is_none());
    assert!(encode_png(&samples, 3, -1, Some("G"), Some(8)).is_none());
    assert!(encode_png(&samples, 3, 3, None, Some(8)).is_none());
    assert!(encode_png(&samples, 3, 3, Some("G"), None).is_none());
}

#[test]
fn sanitizing_drops_nul_and_unprintable_characters() {
    assert_eq!(PdfExtractor::sanitize_pdf_text("a\0b\u{1}c"), "abc");
    assert_eq!(PdfExtractor::sanitize_pdf_text("Grüße, 東京! ~"), "Grüße, 東京! ~");
    assert_eq!(PdfExtractor::sanitize_pdf_text("tab\tnew\nline"), "tab\tnew\nline");
    assert_eq!(PdfExtractor::sanitize_pdf_text("\u{7f}\u{80}x\u{a0}"), "x\u{a0}");
}

#[test]
fn page_lines_are_trimmed_and_non_empty() {
    let lines = page_lines(3, "first  \n\n  second\t\nthird");
    assert_eq!(lines, vec!["first".to_string(), "  second".to_string(), "third".to_string()]);
}

#[test]
fn blank_page_reads_as_a_notice() {
    let lines = page_lines(7, " \0 \n ");
    assert_eq!(
        lines,
        vec!["[Page 7: No extractable text found - may contain images or corrupted text]".to_string()]
    );
}

#[test]
fn extracts_text_from_pdf_bytes() {
    let bytes = pdf_with_pages(&["Hello from the bytes path"], &[]);
    let doc = PdfExtractor::new()
        .extract_text_from_bytes(&bytes, "application/pdf", ExtractionOptions::default())
        .expect("extract from bytes");
    assert!(doc.full_text.contains("Hello from the bytes path"));
    assert_eq!(doc.pages.len(), 1);
    assert_eq!(doc.pages[0].page_number, 1);
}

#[test]
fn pages_are_numbered_and_limited_by_max_pages() {
    let bytes = pdf_with_pages(&["Page one", "Page two", "Page three"], &[]);
    let all = PdfExtractor::new()
        .extract_text_from_bytes(&bytes, PDF_MIME, ExtractionOptions::default())
        .expect("all pages");
    let numbers: Vec<u32> = all.pages.iter().map(|p| p.page_number).collect();
    assert_eq!(numbers, vec![1, 2, 3]);
    assert!(all.pages[1].text.contains("Page two"));
    let options = ExtractionOptions { extract_metadata: false, max_pages: Some(2) };
    let two = PdfExtractor::new().extract_text_from_bytes(&bytes, PDF_MIME, options).expect("two pages");
    assert_eq!(two.pages.len(), 2);
    assert!(!two.full_text.contains("Page three"));
}

#[test]
fn page_images_travel_with_their_page() {
    let bytes = pdf_with_pages(&["Text one", "Text two"], &[false, true]);
    let doc = PdfExtractor::new()
        .extract_text_from_bytes(&bytes, PDF_MIME, ExtractionOptions::default())
        .expect("extract");
    assert!(doc.pages[0].pending_assets.is_empty());
    assert_eq!(doc.pages[1].pending_assets.len(), 1);
    let a = &doc.pages[1].pending_assets[0];
    assert_eq!(a.content_type, "image/jpeg");
    assert_eq!(a.page_number, Some(2));
    assert_eq!(a.label.as_deref(), Some("page2-image1.jpg"));
    assert_eq!(a.bytes, vec![0xff, 0xd8, 0xff, 0xe0, 1, 2, 3]);
    assert!(doc.pending_assets.is_empty());
}

#[test]
fn images_of_pages_beyond_the_limit_stay_at_document_level() {
    let bytes = pdf_with_pages(&["Text one", "Text two"], &[false, true]);
    let options = ExtractionOptions { extract_metadata: false, max_pages: Some(1) };
    let doc = PdfExtractor::new().extract_text_from_bytes(&bytes, PDF_MIME, options).expect("extract");
    assert_eq!(doc.pages.len(), 1);
    assert_eq!(doc.pending_assets.len(), 1);
    assert_eq!(doc.pending_assets[0].page_number, Some(2));
    let all = doc.into_all_pending_assets();
    assert_eq!(all.len(), 1);
}

#[test]
fn bytes_that_are_not_a_pdf_are_corrupted() {
    let result = PdfExtractor::new().extract_text_from_bytes(b"not a pdf", PDF_MIME, ExtractionOptions::default());
    assert!(matches!(result, Err(DocumentExtractionError::CorruptedFile(_))));
}

#[test]
fn pdf_mime_match_ignores_case() {
    assert!(PdfExtractor::new().can_extract("Application/PDF"));
    assert!(!PdfExtractor::new().can_extract("application/pdfx"));
}

fn image(label: &str, page: u32) -> PendingAsset {
    PendingAsset {
        content_type: "image/jpeg".to_string(),
        bytes: vec![1],
        page_number: Some(page),
        label: Some(label.to_string()),
    }
}

#[test]
fn assembling_attaches_images_to_text_pages_and_keeps_the_rest() {
    let tp = vec![(1u32, vec!["a".to_string(), "b".to_string()]), (3u32, vec!["c".to_string()])];
    let groups = vec![
        (1u32, vec![image("x", 1)]),
        (2u32, vec![image("y", 2), image("z", 2)]),
        (3u32, Vec::new()),
    ];
    let doc = assemble(&tp, &groups);
    assert_eq!(doc.full_text, "a\nb\nc");
    assert_eq!(doc.pages.len(), 2);
    assert_eq!(doc.pages[0].text, "a\nb");
    assert_eq!(doc.pages[0].pending_assets[0].label.as_deref(), Some("x"));
    assert!(doc.pages[1].pending_assets.is_empty());
    let left: Vec<&str> = doc.pending_assets.iter().map(|a| a.label.as_deref().unwrap()).collect();
    assert_eq!(left, vec!["y", "z"]);
}

#[test]
fn a_pdf_without_text_says_so() {
    let doc = assemble(&Vec::new(), &Vec::new());
    assert_eq!(
        doc.full_text,
        "No text could be extracted from this PDF. This might be an image-based PDF (scanned document) that requires OCR processing."
    );
}

#[test]
fn pages_without_images_get_no_image_entry() {
    let bytes = pdf_with_pages(&["first", "second", "third"], &[false, true, false]);
    let by_page = PdfExtractor::extract_images_by_page(&bytes);
    assert_eq!(by_page.keys().copied().collect::<Vec<u32>>(), vec![2]);
    assert_eq!(by_page[&2].len(), 1);
    let groups = PdfExtractor::image_groups(&bytes);
    assert_eq!(groups.len(), 1);
    assert_eq!(groups[0].0, 2);
}

#[test]
fn text_only_pdf_has_no_image_entries() {
    let bytes = pdf_with_pages(&["only text"], &[false]);
    assert!(PdfExtractor::extract_images_by_page(&bytes).is_empty());
    assert!(PdfExtractor::extract_images_by_page(b"not a pdf").is_empty());
}

#[test]
fn layout_keys_are_stripped_from_dictionaries() {
    let mut dict = Dictionary::new();
    dict.set("Type", "XObject");
    dict.set("Length", 12);
    dict.set("MediaBox", vec![0.into(), 0.into(), 1.into(), 1.into()]);
    dict.set("Font", "F1");
    let mut obj = Object::Dictionary(dict);
    let kept = strip_layout_keys((7, 0), &mut obj).expect("object kept");
    assert_eq!(kept.0, (7, 0));
    let d = kept.1.as_dict().expect("still a dictionary");
    assert!(d.has(b"Type"));
    assert!(d.has(b"Font"));
    assert!(!d.has(b"Length"));
    assert!(!d.has(b"MediaBox"));
    let mut n = Object::Integer(3);
    let kept = strip_layout_keys((1, 0), &mut n).expect("object kept");
    assert_eq!(kept.1, Object::Integer(3));
}

/// A one-page PDF whose page shows an image with the given colour space.
fn pdf_with_image_color_space(color_space: Object) -> Vec<u8> {
    let mut doc = Document::with_version("1.5");
    let pages_id = doc.new_object_id();
    let mut img = Dictionary::new();
    img.set("Type", "XObject");
    img.set("Subtype", "Image");
    img.set("Width", 1);
    img.set("Height", 1);
    img.set("ColorSpace", color_space);
    img.set("BitsPerComponent", 8);
    let img_id = doc.add_object(Stream::new(img, vec![0, 0, 0]));
    let mut xobjects = Dictionary::new();
    xobjects.set("Im1", img_id);
    let mut resources = Dictionary::new();
    resources.set("XObject", xobjects);
    let resources_id = doc.add_object(resources);
    let content_id = doc.add_object(Stream::new(Dictionary::new(), b"q Q".to_vec()));
    let mut page = Dictionary::new();
    page.set("Type", "Page");
    page.set("Parent", pages_id);
    page.set("Contents", content_id);
    page.set("Resources", resources_id);
    let page_id = doc.add_object(page);
    let mut pages = Dictionary::new();
    pages.set("Type", "Pages");
    pages.set("Kids", vec![Object::from(page_id)]);
    pages.set("Count", 1);
    doc.objects.insert(pages_id, Object::Dictionary(pages));
    let mut catalog = Dictionary::new();
    catalog.set("Type", "Catalog");
    catalog.set("Pages", pages_id);
    let catalog_id = doc.add_object(catalog);
    doc.trailer.set("Root", catalog_id);
    let mut bytes = Vec::new();
    doc.save_to(&mut bytes).expect("serialize pdf");
    bytes
}

#[test]
fn an_image_with_an_empty_color_space_array_is_refused() {
    let bytes = pdf_with_image_color_space(Object::Array(vec![]));
    assert!(!PdfExtractor::images_listable(&bytes));
    match PdfExtractor::new().extract_text_from_bytes(&bytes, PDF_MIME, ExtractionOptions::default()) {
        Err(DocumentExtractionError::ExtractionFailed(m)) => assert_eq!(m, EMPTY_COLOR_SPACE),
        other => panic!("expected a refusal, got {:?}", other.map(|d| d.full_text)),
    }
    let fine = pdf_with_image_color_space(Object::Array(vec![Object::Name(b"DeviceRGB".to_vec())]));
    assert!(PdfExtractor::images_listable(&fine));
    assert!(PdfExtractor::new().extract_text_from_bytes(&fine, PDF_MIME, ExtractionOptions::default()).is_ok());
}

#[test]
fn an_encrypted_pdf_with_a_short_user_entry_is_refused() {
    let plain = pdf_with_pages(&["secret"], &[false]);
    let mut doc = Document::load_mem(&plain).expect("reload");
    let mut enc = Dictionary::new();
    enc.set("Filter", "Standard");
    enc.set("V", 1);
    enc.set("R", 2);
    enc.set("O", Object::string_literal(vec![0u8; 32]));
    enc.set("U", Object::string_literal(vec![0u8; 4]));
    enc.set("P", -4);
    let enc_id = doc.add_object(enc);
    doc.trailer.set("Encrypt", enc_id);
    let mut bytes = Vec::new();
    doc.save_to(&mut bytes).expect("serialize pdf");
    assert!(!PdfExtractor::decrypt_is_safe(&bytes));
    match PdfExtractor::new().extract_text_from_bytes(&bytes, PDF_MIME, ExtractionOptions::default()) {
        Err(DocumentExtractionError::ExtractionFailed(m)) => assert_eq!(m, SHORT_USER_ENTRY),
        other => panic!("expected a refusal, got {:?}", other.map(|d| d.full_text)),
    }
    assert!(PdfExtractor::decrypt_is_safe(&plain));
}

#[test]
fn stripping_keeps_the_other_values_and_returns_the_new_object() {
    let mut dict = Dictionary::new();
    dict.set("Length", 12);
    dict.set("Count", 7);
    let mut obj = Object::Dictionary(dict);
    let kept = strip_layout_keys((3, 0), &mut obj).expect("object kept");
    assert_eq!(kept.1, obj);
    let d = obj.as_dict().expect("a dictionary");
    assert_eq!(d.get(b"Count").unwrap().as_i64().unwrap(), 7);
    assert!(d.get(b"Length").is_err());
}

#[test]
fn a_cmap_range_mapped_to_an_array_is_refused() {
    let plain = pdf_with_pages(&["text"], &[false]);
    let mut doc = Document::load_mem(&plain).expect("reload");
    let cmap = b"1 begincodespacerange <0000> <FFFF> endcodespacerange\n1 beginbfrange <0001> <0005> [<0041> <0042>] endbfrange\n".to_vec();
    doc.add_object(Stream::new(Dictionary::new(), cmap));
    let mut bytes = Vec::new();
    doc.save_to(&mut bytes).expect("serialize pdf");
    assert!(!PdfExtractor::new().text_is_safe(&bytes));
    match PdfExtractor::new().extract_text_from_bytes(&bytes, PDF_MIME, ExtractionOptions::default()) {
        Err(DocumentExtractionError::ExtractionFailed(m)) => assert_eq!(m, CMAP_RANGE_ARRAY),
        other => panic!("expected a refusal, got {:?}", other.map(|d| d.full_text)),
    }
    assert!(PdfExtractor::new().text_is_safe(&plain));
}
