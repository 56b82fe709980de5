use polyrag::extraction::ooxml_media::{content_type_for, extract_media_assets};
use std::io::Write;
use zip::write::SimpleFileOptions;

fn zip_with(entries: &[(&str, &[u8])]) -> Vec<u8> {
    let mut buf = Vec::new();
    {
        let mut w = zip::ZipWriter::new(std::io::Cursor::new(&mut buf));
        let opts = SimpleFileOptions::default();
        for (name, bytes) in entries {
            w.start_file(*name, opts).unwrap();
            w.write_all(bytes).unwrap();
        }
        w.finish().unwrap();
    }
    buf
}

#[test]
fn content_type_by_extension() {
    assert_eq!(content_type_for("image1.png"), "image/png");
    assert_eq!(content_type_for("photo.JPEG"), "image/jpeg");
    assert_eq!(content_type_for("logo.svg"), "image/svg+xml");
    assert_eq!(content_type_for("mystery.dat"), "application/octet-stream");
}

#[test]
fn extracts_only_media_under_prefix() {
    let buf = zip_with(&[
        ("word/document.xml", b"<w:document/>"),
        ("word/media/image1.png", b"\x89PNG\r\nfake"),
        ("word/media/image2.jpeg", b"\xff\xd8\xfffake"),
        ("word/media/empty.png", b""),
    ]);

    let assets = extract_media_assets(&buf, "word/media/").expect("ok");
    assert_eq!(assets.len(), 2);
    assert_eq!(assets[0].label.as_deref(), Some("image1.png"));
    assert_eq!(assets[0].content_type, "image/png");
    assert_eq!(assets[1].content_type, "image/jpeg");
    assert!(assets.iter().all(|a| !a.bytes.is_empty()));
}

#[test]
fn no_media_yields_empty() {
    let buf = zip_with(&[("ppt/slides/slide1.xml", b"<p:sld/>")]);
    let assets = extract_media_assets(&buf, "ppt/media/").expect("ok");
    assert!(assets.is_empty());
}

#[test]
fn media_assets_carry_their_bytes_and_no_page() {
    let buf = zip_with(&[("ppt/media/a.gif", b"GIF89a"), ("ppt/media/sub/", b"")]);
    let assets = extract_media_assets(&buf, "ppt/media/").expect("ok");
    assert_eq!(assets.len(), 1);
    assert_eq!(assets[0].bytes, b"GIF89a".to_vec());
    assert_eq!(assets[0].content_type, "image/gif");
    assert_eq!(assets[0].page_number, None);
}

#[test]
fn media_of_bytes_that_are_not_a_zip_is_an_error() {
    assert!(extract_media_assets(b"not a zip", "word/media/").is_err());
}

#[test]
fn content_type_of_names_without_extension() {
    assert_eq!(content_type_for("README"), "application/octet-stream");
    assert_eq!(content_type_for("a.JPG"), "image/jpeg");
}
