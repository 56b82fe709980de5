//! PDF documents, read with `lopdf`: the text of each page, cleaned of
//! characters that do not survive storage and split into trimmed lines, and
//! the images embedded in each page as assets (JPEG and JPEG 2000 streams as
//! they are stored, raw 8-bit RGB or gray samples re-encoded as PNG).

use vstd::prelude::*;
use image::ImageEncoder;
use std::collections::BTreeMap;
use crate::chunking::string_views;
use crate::extraction::ooxml_media::DocumentExtractionErrorView;
use crate::extraction::pptx_extractor::doc_result_view;
use crate::extraction::{
    asset_views, copy_asset, opt_view, page_views, AssetView, DocView, DocumentExtractionError, ExtractedDocument,
    ExtractionOptions, PageContent, PageView, PendingAsset,
};
use crate::text::{
    all_whitespace, has_suffix, ascii_bytes, bytes_spell, char_is_alphanumeric, char_is_whitespace, chars_of, concat2, decimal, is_blank, owned,
    u64_decimal,
    is_unicode_alphanumeric, is_unicode_whitespace, join, lowercase, str_eq, to_lowercase, string_from_chars, trim_end_chars,
    trim_end_ws,
};

verus! {

broadcast use vstd::seq_lib::group_seq_properties;

/// MIME type of PDF documents.
pub const PDF_MIME: &'static str = "application/pdf";

#[verifier::external_type_specification]
#[verifier::external_body]
pub struct ExLopdfDocument(lopdf::Document);

#[verifier::external_type_specification]
#[verifier::external_body]
pub struct ExLopdfObject(lopdf::Object);

/// What a parsed PDF stands for: the bytes it was parsed from, whether its
/// objects went through [`strip_layout_keys`] as they were read, and the
/// password it was decrypted with, if it was.
///
/// `lopdf` is built without its `rayon` feature, so its reader walks the
/// cross-reference table in order and the document it builds depends on
/// the bytes alone.
pub struct PdfState {
    pub source: Seq<u8>,
    pub filtered: bool,
    pub key: Option<Seq<char>>,
}

/// A PDF parsed by `lopdf`.
pub struct PdfDocument {
    doc: lopdf::Document,
    state: Ghost<PdfState>,
}

impl View for PdfDocument {
    type V = PdfState;

    closed spec fn view(&self) -> PdfState {
        self.state@
    }
}

/// An image XObject of a page, as `lopdf`'s `get_page_images` describes it.
#[derive(Debug)]
pub struct PdfImageInfo {
    pub id: (u32, u16),
    pub width: i64,
    pub height: i64,
    pub color_space: Option<String>,
    pub filters: Option<Vec<String>>,
    pub bits_per_component: Option<i64>,
    pub content: Vec<u8>,
}

/// Mathematical view of a [`PdfImageInfo`].
pub struct PdfImageView {
    pub id: (u32, u16),
    pub width: i64,
    pub height: i64,
    pub color_space: Option<Seq<char>>,
    pub filters: Option<Seq<Seq<char>>>,
    pub bits_per_component: Option<i64>,
    pub content: Seq<u8>,
}

pub open spec fn opt_strings_view(o: Option<Vec<String>>) -> Option<Seq<Seq<char>>> {
    match o {
        Some(v) => Some(v@.map_values(|s: String| s@)),
        None => None,
    }
}

impl View for PdfImageInfo {
    type V = PdfImageView;

    open spec fn view(&self) -> PdfImageView {
        PdfImageView {
            id: self.id,
            width: self.width,
            height: self.height,
            color_space: opt_view(self.color_space),
            filters: opt_strings_view(self.filters),
            bits_per_component: self.bits_per_component,
            content: self.content@,
        }
    }
}

pub open spec fn image_views(v: Seq<PdfImageInfo>) -> Seq<PdfImageView> {
    v.map_values(|i: PdfImageInfo| i@)
}

/// The pixel layouts written to PNG.
#[derive(Debug, Clone, Copy, PartialEq, Eq, Structural)]
pub enum PngColor {
    /// Three 8-bit samples per pixel.
    Rgb8,
    /// One 8-bit gray sample per pixel.
    L8,
}

/// `None` when `lopdf::Reader::read` parses `src`; otherwise the text of the
/// error it reports. The reader settles this from the header, the
/// cross-reference tables and the trailer (reading cross-reference streams
/// without the filter) before it reads any object; the filter runs only in
/// the loop over the objects, whose failures drop an object and never fail
/// the read. So it is the same with and without an object filter.
pub uninterp spec fn pdf_load_failure(src: Seq<u8>) -> Option<Seq<char>>;

/// Whether the document `st` (not decrypted) is encrypted (`is_encrypted`).
pub uninterp spec fn pdf_encrypted(st: PdfState) -> bool;

/// Whether `decrypt(password)` succeeds on the document `st` (not
/// decrypted).
pub uninterp spec fn pdf_decrypts(st: PdfState, password: Seq<char>) -> bool;

/// When the object `id` is a stream, its content once its filters are
/// undone (`get_plain_content`); `None` when it is not a stream or the
/// filters fail.
pub uninterp spec fn pdf_plain_content(st: PdfState, id: (u32, u16)) -> Option<Seq<u8>>;

/// Bytes that could be a `ToUnicode` CMap mapping a code range to an array
/// of strings: `lopdf` indexes such an array by the code's place in the
/// range without looking whether the array is that long, and panics when
/// it is shorter. Any content holding `beginbfrange` and a `[` counts.
pub open spec fn cmap_range_array_risk(c: Seq<u8>) -> bool {
    (exists|i: int| 0 <= i && i + 12 <= c.len() && #[trigger] c.subrange(i, i + 12) == ascii_bytes(
        "beginbfrange"@,
    )) && c.contains(0x5B)
}

/// No stream of the document is a [`cmap_range_array_risk`].
pub open spec fn cmaps_safe(st: PdfState) -> bool {
    forall|i: int|
        0 <= i < pdf_object_ids(st).len() ==> match pdf_plain_content(st, #[trigger] pdf_object_ids(st)[i]) {
            Some(c) => !cmap_range_array_risk(c),
            None => true,
        }
}

/// When the document's encryption dictionary gives its `U` entry as a
/// string, the length of that string.
pub uninterp spec fn pdf_user_entry_len(st: PdfState) -> Option<nat>;

/// `decrypt` can be called on the document `st` without a panic: it was read
/// through [`strip_layout_keys`], so its encryption dictionary has no
/// `Length` and the key is five bytes long (a `Length` under 8 would make
/// the key empty, and the RC4 cipher asserts a non-empty key), and a `U`
/// string, which the password check compares on its first 16 bytes, has
/// at least 16 bytes.
pub open spec fn decrypt_safe(st: PdfState) -> bool {
    st.filtered && match pdf_user_entry_len(st) {
        Some(n) => n >= 16,
        None => true,
    }
}

/// The keys of a dictionary object, in the dictionary's order; none for an
/// object that is not a dictionary.
pub uninterp spec fn pdf_dict_keys(o: lopdf::Object) -> Seq<Seq<u8>>;

/// The entries of a dictionary object, key to value; `None` for an object
/// that is not a dictionary.
pub uninterp spec fn pdf_dict_entries(o: lopdf::Object) -> Option<Map<Seq<u8>, lopdf::Object>>;

/// The pages of a document (`get_pages`): page number and page object id,
/// in the order the map yields them.
pub uninterp spec fn pdf_pages(st: PdfState) -> Seq<(u32, (u32, u16))>;

/// The text of page `page` (`extract_text(&[page])`), or the text of the
/// error it reports.
pub uninterp spec fn pdf_page_text(st: PdfState, page: u32) -> Result<Seq<char>, Seq<char>>;

/// The image XObjects of the page object `id` (`get_page_images`), or
/// `None` when they cannot be listed.
pub uninterp spec fn pdf_page_images(st: PdfState, id: (u32, u16)) -> Option<Seq<PdfImageView>>;

/// The ids of the objects of a document (the keys of `Document::objects`,
/// in increasing order).
pub uninterp spec fn pdf_object_ids(st: PdfState) -> Seq<(u32, u16)>;

/// When the object `id` is a stream whose dictionary gives `ColorSpace` as
/// an array (not through a reference), the length of that array.
pub uninterp spec fn pdf_color_space_array_len(st: PdfState, id: (u32, u16)) -> Option<nat>;

/// No stream of the document gives its `ColorSpace` as an empty array:
/// `get_page_images` reads the first element of such an array and panics
/// when there is none.
pub open spec fn color_spaces_nonempty(st: PdfState) -> bool {
    forall|i: int|
        0 <= i < pdf_object_ids(st).len() ==> pdf_color_space_array_len(st, #[trigger] pdf_object_ids(st)[i])
            != Some(0nat)
}

/// The decompressed content of the stream object `id`, or `None` when there
/// is no such stream or it does not decompress.
pub uninterp spec fn pdf_stream_content(st: PdfState, id: (u32, u16)) -> Option<Seq<u8>>;

/// The PNG that `image`'s `PngEncoder` writes for the samples, or `None`
/// when encoding fails.
pub uninterp spec fn png_encoding(samples: Seq<u8>, width: u32, height: u32, color: PngColor) -> Option<
    Seq<u8>,
>;

/// `lopdf::Document::load_mem` (`Reader::read` with no object filter).
/// Success and the error text are named by `pdf_load_failure(buf@)`; the
/// document stands for `buf@`, unfiltered and not decrypted.
///
/// The reader checks every offset against the buffer before it slices
/// (`startxref`, `Prev`, `XRefStm`, object offsets, stream lengths, object
/// stream offsets), `unwrap`s only the UTF-8 of digit and hex runs its
/// parser has just matched, and locks no mutex that could be poisoned,
/// since nothing runs in parallel. Left unsaid: its parser reads nested
/// arrays and dictionaries by recursion with no depth limit, so input
/// nested deeply enough exhausts the stack; how deep depends on the
/// machine's stack, and no input is left out for it (the same holds of
/// [`pdf_load_filtered`]).
#[verifier::external_body]
fn pdf_load(buf: &[u8]) -> (r: Result<PdfDocument, String>)
    ensures
        match r {
            Ok(d) => pdf_load_failure(buf@) is None && d@ == (PdfState { source: buf@, filtered: false, key: None }),
            Err(m) => pdf_load_failure(buf@) == Some(m@),
        },
{
    match lopdf::Document::load_mem(buf) {
        Ok(doc) => Ok(PdfDocument { doc, state: Ghost(PdfState { source: buf@, filtered: false, key: None }) }),
        Err(e) => Err(e.to_string()),
    }
}

/// `lopdf::Reader::read` over the bytes with [`strip_layout_keys`] as its
/// object filter: every object read, those in object streams too, passes
/// through it first. Success and the error text are named by
/// `pdf_load_failure(buf@)`; the document stands for `buf@`, filtered and
/// not decrypted.
#[verifier::external_body]
fn pdf_load_filtered(buf: &[u8]) -> (r: Result<PdfDocument, String>)
    ensures
        match r {
            Ok(d) => pdf_load_failure(buf@) is None && d@ == (PdfState { source: buf@, filtered: true, key: None }),
            Err(m) => pdf_load_failure(buf@) == Some(m@),
        },
{
    let reader = lopdf::Reader { buffer: buf, document: lopdf::Document::new() };
    match reader.read(Some(strip_layout_keys)) {
        Ok(doc) => Ok(PdfDocument { doc, state: Ghost(PdfState { source: buf@, filtered: true, key: None }) }),
        Err(e) => Err(e.to_string()),
    }
}

/// `Document::is_encrypted` of a document that was not decrypted; named
/// `pdf_encrypted`.
#[verifier::external_body]
fn pdf_is_encrypted(d: &PdfDocument) -> (b: bool)
    requires
        d@.key is None,
    ensures
        b == pdf_encrypted(d@),
{
    d.doc.is_encrypted()
}

/// `Document::decrypt(password)`; whether it succeeds is named
/// `pdf_decrypts`. Afterwards the document stands for the same document
/// decrypted with `password`.
#[verifier::external_body]
fn pdf_decrypt(d: &mut PdfDocument, password: &str) -> (ok: bool)
    requires
        old(d)@.key is None,
        decrypt_safe(old(d)@),
    ensures
        ok == pdf_decrypts(old(d)@, password@),
        final(d)@ == (PdfState { source: old(d)@.source, filtered: old(d)@.filtered, key: Some(password@) }),
{
    let ok = d.doc.decrypt(password).is_ok();
    d.state = Ghost(PdfState { source: d.state@.source, filtered: d.state@.filtered, key: Some(password@) });
    ok
}

/// `get_encrypted` and its `U` entry: the length of that entry when it is
/// a string; named `pdf_user_entry_len`.
#[verifier::external_body]
fn pdf_user_entry(d: &PdfDocument) -> (r: Option<usize>)
    ensures
        match r {
            Some(n) => pdf_user_entry_len(d@) == Some(n as nat),
            None => pdf_user_entry_len(d@) is None,
        },
{
    match d.doc.get_encrypted() {
        Ok(dict) => match dict.get(b"U") {
            Ok(lopdf::Object::String(bytes, _)) => Some(bytes.len()),
            _ => None,
        },
        Err(_) => None,
    }
}

/// The keys of the object `o` when it is a dictionary (`Dictionary::iter`),
/// none otherwise; named `pdf_dict_keys`. A dictionary holds each key once,
/// and its keys are those of its entries.
#[verifier::external_body]
fn dict_keys(o: &lopdf::Object) -> (r: Vec<Vec<u8>>)
    ensures
        r@.map_values(|k: Vec<u8>| k@) == pdf_dict_keys(*o),
        r@.map_values(|k: Vec<u8>| k@).no_duplicates(),
        match pdf_dict_entries(*o) {
            Some(m) => r@.map_values(|k: Vec<u8>| k@).to_set() == m.dom(),
            None => r@.len() == 0,
        },
{
    match o {
        lopdf::Object::Dictionary(d) => d.iter().map(|(k, _)| k.clone()).collect(),
        _ => Vec::new(),
    }
}

/// `Dictionary::remove(key)` when `o` is a dictionary; any other object is
/// left as it is. Afterwards the entries are the old ones without `key`,
/// each other key keeping its value; the removal swaps the last entry into
/// the freed place, so the order of the keys left is not stated.
#[verifier::external_body]
fn dict_remove(o: &mut lopdf::Object, key: &[u8])
    ensures
        pdf_dict_keys(*final(o)).to_set() == pdf_dict_keys(*old(o)).to_set().remove(key@),
        pdf_dict_keys(*final(o)).no_duplicates(),
        match pdf_dict_entries(*old(o)) {
            Some(m) => pdf_dict_entries(*final(o)) == Some(m.remove(key@)),
            None => *final(o) == *old(o),
        },
{
    if let lopdf::Object::Dictionary(d) = o {
        d.remove(key);
    }
}

/// `Object::to_owned`: a clone of the object, equal to it.
#[verifier::external_body]
fn object_copy(o: &lopdf::Object) -> (c: lopdf::Object)
    ensures
        c == *o,
{
    o.to_owned()
}

/// The dictionary keys dropped before PDF text is read: lengths, boxes,
/// matrices, filters, colour spaces, image sizes and depth, the `PTEX`
/// entries, font descriptors, graphics states and media boxes.
pub open spec fn layout_key(k: Seq<u8>) -> bool {
    k == ascii_bytes("Length"@) || k == ascii_bytes("BBox"@) || k == ascii_bytes("Matrix"@) || k
        == ascii_bytes("Filter"@) || k == ascii_bytes("ColorSpace"@) || k == ascii_bytes("Width"@) || k
        == ascii_bytes("Height"@) || k == ascii_bytes("BitsPerComponent"@) || k == ascii_bytes(
        "PTEX.FileName"@,
    ) || k == ascii_bytes("PTEX.PageNumber"@) || k == ascii_bytes("PTEX.InfoDict"@) || k
        == ascii_bytes("FontDescriptor"@) || k == ascii_bytes("ExtGState"@) || k == ascii_bytes(
        "MediaBox"@,
    )
}

fn is_layout_key(k: &[u8]) -> (b: bool)
    ensures
        b == layout_key(k@),
{
    bytes_spell(k, "Length") || bytes_spell(k, "BBox") || bytes_spell(k, "Matrix") || bytes_spell(
        k,
        "Filter",
    ) || bytes_spell(k, "ColorSpace") || bytes_spell(k, "Width") || bytes_spell(k, "Height")
        || bytes_spell(k, "BitsPerComponent") || bytes_spell(k, "PTEX.FileName") || bytes_spell(
        k,
        "PTEX.PageNumber",
    ) || bytes_spell(k, "PTEX.InfoDict") || bytes_spell(k, "FontDescriptor") || bytes_spell(
        k,
        "ExtGState",
    ) || bytes_spell(k, "MediaBox")
}

/// The object filter PDF text is read with: the keys of a dictionary object
/// that are [`layout_key`]s are removed, in the dictionary's order; any
/// other object is kept as it is. Every object is kept, under its own id.
pub fn strip_layout_keys(object_id: (u32, u16), object: &mut lopdf::Object) -> (r: Option<
    ((u32, u16), lopdf::Object),
>)
    ensures
        match pdf_dict_entries(*old(object)) {
            Some(m) => pdf_dict_entries(*final(object)) == Some(
                m.restrict(m.dom().filter(|k: Seq<u8>| !layout_key(k))),
            ),
            None => *final(object) == *old(object),
        },
        pdf_dict_keys(*final(object)).to_set() == pdf_dict_keys(*old(object)).to_set().filter(
            |k: Seq<u8>| !layout_key(k),
        ),
        r == Some((object_id, *final(object))),
{
    let ghost start_obj = *object;
    let keys = dict_keys(object);
    let ghost kv = keys@.map_values(|k: Vec<u8>| k@);
    let ghost start = pdf_dict_keys(*object);
    let mut i: usize = 0;
    proof {
        assert(kv.take(0) =~= Seq::<Seq<u8>>::empty());
        assert(pdf_dict_keys(*object).to_set() =~= kv.to_set().filter(
            |k: Seq<u8>| !layout_key(k) || !kv.take(0).contains(k),
        ));
        if let Some(m) = pdf_dict_entries(start_obj) {
            assert(m.restrict(m.dom().filter(|x: Seq<u8>| !layout_key(x) || !kv.take(0).contains(x))) =~= m);
        }
    }
    while i < keys.len()
        invariant
            i <= keys@.len(),
            kv == keys@.map_values(|k: Vec<u8>| k@),
            kv == start,
            start == pdf_dict_keys(start_obj),
            pdf_dict_keys(*object).to_set() == kv.to_set().filter(
                |k: Seq<u8>| !layout_key(k) || !kv.take(i as int).contains(k),
            ),
            match pdf_dict_entries(start_obj) {
                Some(m) => kv.to_set() == m.dom() && pdf_dict_entries(*object) == Some(
                    m.restrict(m.dom().filter(|x: Seq<u8>| !layout_key(x) || !kv.take(i as int).contains(x))),
                ),
                None => kv.len() == 0 && *object == start_obj,
            },
        decreases keys@.len() - i,
    {
        let k = &keys[i];
        proof {
            assert(kv[i as int] == k@);
            assert(kv.take(i as int + 1) =~= kv.take(i as int).push(k@));
        }
        if is_layout_key(k.as_slice()) {
            dict_remove(object, k.as_slice());
            proof {
                assert(pdf_dict_keys(*object).to_set() =~= kv.to_set().filter(
                    |x: Seq<u8>| !layout_key(x) || !kv.take(i as int + 1).contains(x),
                ));
                if let Some(m) = pdf_dict_entries(start_obj) {
                    let before = m.restrict(m.dom().filter(|x: Seq<u8>| !layout_key(x) || !kv.take(i as int).contains(x)));
                    assert(before.remove(k@) =~= m.restrict(
                        m.dom().filter(|x: Seq<u8>| !layout_key(x) || !kv.take(i as int + 1).contains(x)),
                    ));
                }
            }
        } else {
            proof {
                assert(pdf_dict_keys(*object).to_set() =~= kv.to_set().filter(
                    |x: Seq<u8>| !layout_key(x) || !kv.take(i as int + 1).contains(x),
                ));
                if let Some(m) = pdf_dict_entries(start_obj) {
                    assert(m.restrict(m.dom().filter(|x: Seq<u8>| !layout_key(x) || !kv.take(i as int).contains(x)))
                        =~= m.restrict(
                        m.dom().filter(|x: Seq<u8>| !layout_key(x) || !kv.take(i as int + 1).contains(x)),
                    ));
                }
            }
        }
        i = i + 1;
    }
    proof {
        assert(kv.take(kv.len() as int) =~= kv);
        assert(pdf_dict_keys(*object).to_set() =~= start.to_set().filter(|k: Seq<u8>| !layout_key(k)));
        if let Some(m) = pdf_dict_entries(start_obj) {
            assert(m.restrict(m.dom().filter(|x: Seq<u8>| !layout_key(x) || !kv.take(kv.len() as int).contains(x)))
                =~= m.restrict(m.dom().filter(|x: Seq<u8>| !layout_key(x))));
        }
    }
    let copy = object_copy(object);
    Some((object_id, copy))
}

/// `Document::get_pages`, as a list of its entries; named `pdf_pages`.
/// The entries come out of a `BTreeMap` in increasing page-number order.
#[verifier::external_body]
fn pdf_page_list(d: &PdfDocument) -> (r: Vec<(u32, (u32, u16))>)
    ensures
        r@ == pdf_pages(d@),
        forall|a: int, b: int| 0 <= a < b < r@.len() ==> r@[a].0 < r@[b].0,
{
    d.doc.get_pages().into_iter().collect()
}

/// `Document::extract_text(&[page])`, the error as its text; named
/// `pdf_page_text`.
///
/// `extract_text` indexes a CMap's array of strings by a code's place in
/// its range without a length check; `requires` leaves out every document
/// with a stream that could hold such an array ([`cmaps_safe`]). Its
/// other `unwrap`s are on strings its CMap parser never leaves empty. Left
/// unsaid, and no input left out for it: a content stream whose predictor
/// parameters describe rows too large to allocate, or that inflates beyond
/// the memory at hand, and nesting deep enough to exhaust the stack, which
/// depend on the machine; and, in builds that check integer overflow, a
/// CMap range whose destination's last unit plus a code's offset in the
/// range passes `0xFFFF` (release builds wrap there).
#[verifier::external_body]
fn pdf_extract_page_text(d: &PdfDocument, page: u32) -> (r: Result<String, String>)
    requires
        cmaps_safe(d@),
    ensures
        match r {
            Ok(t) => pdf_page_text(d@, page) == Ok::<Seq<char>, Seq<char>>(t@),
            Err(m) => pdf_page_text(d@, page) == Err::<Seq<char>, Seq<char>>(m@),
        },
{
    d.doc.extract_text(&[page]).map_err(|e| e.to_string())
}

/// The keys of `Document::objects`; named `pdf_object_ids`.
#[verifier::external_body]
fn pdf_object_id_list(d: &PdfDocument) -> (r: Vec<(u32, u16)>)
    ensures
        r@ == pdf_object_ids(d@),
{
    d.doc.objects.keys().copied().collect()
}

/// `get_object(id)` and, for a stream, its dictionary's `ColorSpace` entry:
/// the length of that entry when it is an array; named
/// `pdf_color_space_array_len`.
#[verifier::external_body]
fn pdf_color_space_len(d: &PdfDocument, id: (u32, u16)) -> (r: Option<usize>)
    ensures
        match r {
            Some(n) => pdf_color_space_array_len(d@, id) == Some(n as nat),
            None => pdf_color_space_array_len(d@, id) is None,
        },
{
    match d.doc.get_object(id) {
        Ok(lopdf::Object::Stream(stream)) => match stream.dict.get(b"ColorSpace") {
            Ok(lopdf::Object::Array(items)) => Some(items.len()),
            _ => None,
        },
        _ => None,
    }
}

/// Whether no stream of `d` gives its `ColorSpace` as an empty array.
fn check_color_spaces(d: &PdfDocument) -> (b: bool)
    ensures
        b == color_spaces_nonempty(d@),
{
    let ids = pdf_object_id_list(d);
    let mut i: usize = 0;
    while i < ids.len()
        invariant
            i <= ids@.len(),
            ids@ == pdf_object_ids(d@),
            forall|j: int| 0 <= j < i ==> pdf_color_space_array_len(d@, #[trigger] ids@[j]) != Some(0nat),
        decreases ids@.len() - i,
    {
        match pdf_color_space_len(d, ids[i]) {
            Some(n) => {
                if n == 0 {
                    return false;
                }
            },
            None => {},
        }
        i = i + 1;
    }
    true
}

/// `get_object(id)` and, for a stream, `get_plain_content`; named
/// `pdf_plain_content`.
#[verifier::external_body]
fn pdf_stream_plain(d: &PdfDocument, id: (u32, u16)) -> (r: Option<Vec<u8>>)
    ensures
        match r {
            Some(c) => pdf_plain_content(d@, id) == Some(c@),
            None => pdf_plain_content(d@, id) is None,
        },
{
    match d.doc.get_object(id) {
        Ok(lopdf::Object::Stream(stream)) => stream.get_plain_content().ok(),
        _ => None,
    }
}

/// Whether `c` is a [`cmap_range_array_risk`].
fn has_cmap_range_array(c: &[u8]) -> (b: bool)
    ensures
        b == cmap_range_array_risk(c@),
{
    let mut has_open: bool = false;
    let mut k: usize = 0;
    while k < c.len()
        invariant
            k <= c@.len(),
            has_open == (exists|j: int| 0 <= j < k && c@[j] == 0x5B),
        decreases c@.len() - k,
    {
        if c[k] == 0x5B {
            has_open = true;
        }
        k = k + 1;
    }
    proof {
        if has_open {
            let j = choose|j: int| 0 <= j < c@.len() && c@[j] == 0x5B;
            assert(c@.contains(0x5B));
        } else {
            assert(!c@.contains(0x5B));
        }
    }
    if !has_open {
        return false;
    }
    let mut i: usize = 0;
    while i < c.len() && c.len() - i >= 12
        invariant
            i <= c@.len(),
            c@.contains(0x5B),
            forall|j: int| 0 <= j < i && j + 12 <= c@.len() ==> #[trigger] c@.subrange(j, j + 12) != ascii_bytes(
                "beginbfrange"@,
            ),
        decreases c@.len() - i,
    {
        let piece = &c[i..i + 12];
        proof {
            assert(piece@ =~= c@.subrange(i as int, i + 12));
        }
        if bytes_spell(piece, "beginbfrange") {
            proof {
                assert(c@.subrange(i as int, i + 12) == ascii_bytes("beginbfrange"@));
            }
            return true;
        }
        i = i + 1;
    }
    false
}

/// Whether `d` is [`cmaps_safe`].
fn check_cmaps(d: &PdfDocument) -> (b: bool)
    ensures
        b == cmaps_safe(d@),
{
    let ids = pdf_object_id_list(d);
    let mut i: usize = 0;
    while i < ids.len()
        invariant
            i <= ids@.len(),
            ids@ == pdf_object_ids(d@),
            forall|j: int|
                0 <= j < i ==> match pdf_plain_content(d@, #[trigger] ids@[j]) {
                    Some(c) => !cmap_range_array_risk(c),
                    None => true,
                },
        decreases ids@.len() - i,
    {
        match pdf_stream_plain(d, ids[i]) {
            Some(c) => {
                if has_cmap_range_array(c.as_slice()) {
                    return false;
                }
            },
            None => {},
        }
        i = i + 1;
    }
    true
}

/// `Document::get_page_images(id)`, each image's fields copied into a
/// [`PdfImageInfo`]; named `pdf_page_images`.
#[verifier::external_body]
fn pdf_images_of_page(d: &PdfDocument, id: (u32, u16)) -> (r: Option<Vec<PdfImageInfo>>)
    requires
        color_spaces_nonempty(d@),
    ensures
        match r {
            Some(v) => pdf_page_images(d@, id) == Some(image_views(v@)),
            None => pdf_page_images(d@, id) is None,
        },
{
    let images = d.doc.get_page_images(id).ok()?;
    Some(images.iter().map(|i| PdfImageInfo {
        id: i.id,
        width: i.width,
        height: i.height,
        color_space: i.color_space.clone(),
        filters: i.filters.clone(),
        bits_per_component: i.bits_per_component,
        content: i.content.to_vec(),
    }).collect())
}

/// `get_object(id)`, `as_stream` and `decompressed_content`; named
/// `pdf_stream_content`. Left unsaid, as for [`pdf_extract_page_text`]:
/// predictor rows or inflated data too large to allocate.
#[verifier::external_body]
fn pdf_stream_samples(d: &PdfDocument, id: (u32, u16)) -> (r: Option<Vec<u8>>)
    ensures
        match r {
            Some(v) => pdf_stream_content(d@, id) == Some(v@),
            None => pdf_stream_content(d@, id) is None,
        },
{
    d.doc.get_object(id).ok()?.as_stream().ok()?.decompressed_content().ok()
}

/// `PngEncoder::write_image` into a fresh buffer; named `png_encoding`. The
/// encoder panics unless the buffer holds exactly `width * height` pixels,
/// which `requires` states.
#[verifier::external_body]
fn png_encode(samples: &[u8], width: u32, height: u32, color: PngColor) -> (r: Option<Vec<u8>>)
    requires
        samples@.len() == width * height * (if color == PngColor::Rgb8 { 3int } else { 1int }),
    ensures
        match r {
            Some(v) => png_encoding(samples@, width, height, color) == Some(v@),
            None => png_encoding(samples@, width, height, color) is None,
        },
{
    let color_type = match color {
        PngColor::Rgb8 => image::ExtendedColorType::Rgb8,
        PngColor::L8 => image::ExtendedColorType::L8,
    };
    let mut out = Vec::new();
    image::codecs::png::PngEncoder::new(&mut out).write_image(samples, width, height, color_type).ok()?;
    Some(out)
}

/// Characters kept in stored PDF text: no NUL, and only letters, digits,
/// whitespace, printable ASCII and the printable Latin-1 range.
pub open spec fn keeps_pdf_char(c: char) -> bool {
    c != '\0' && (is_unicode_alphanumeric(c) || is_unicode_whitespace(c) || ('!' <= c && c <= '~') || (
    '\u{a1}' <= c && c <= '\u{ff}'))
}

pub open spec fn pdf_char_filter() -> spec_fn(char) -> bool {
    |c: char| keeps_pdf_char(c)
}

/// The text with every character that is not kept removed.
pub open spec fn sanitize_spec(s: Seq<char>) -> Seq<char> {
    s.filter(pdf_char_filter())
}

fn keeps_char(c: char) -> (b: bool)
    ensures
        b == keeps_pdf_char(c),
{
    c != '\0' && (char_is_alphanumeric(c) || char_is_whitespace(c) || ('!' <= c && c <= '~') || (
    '\u{a1}' <= c && c <= '\u{ff}'))
}

impl PdfExtractor {
    /// Removes NUL bytes and characters outside letters, digits, whitespace,
    /// printable ASCII and printable Latin-1, so the text can be stored safely.
    pub fn sanitize_pdf_text(text: &str) -> (r: String)
        ensures
            r@ == sanitize_spec(text@),
    {
        let cs = chars_of(text);
        let mut out: Vec<char> = Vec::new();
        let mut i: usize = 0;
        while i < cs.len()
            invariant
                i <= cs@.len(),
                cs@ == text@,
                out@ == cs@.take(i as int).filter(pdf_char_filter()),
            decreases cs@.len() - i,
        {
            proof {
                assert(cs@.take(i + 1) =~= cs@.take(i as int).push(cs@[i as int]));
                cs@.take(i as int).lemma_filter_push(cs@[i as int], pdf_char_filter());
            }
            if keeps_char(cs[i]) {
                out.push(cs[i]);
            }
            i = i + 1;
        }
        proof {
            assert(cs@.take(cs@.len() as int) =~= cs@);
        }
        string_from_chars(out.as_slice())
    }
}

/// The pieces of `s` between occurrences of `sep` (`str::split`): one more
/// piece than there are separators, empty pieces included.
pub open spec fn split_on(s: Seq<char>, sep: char) -> Seq<Seq<char>>
    decreases s.len(),
{
    if s.len() == 0 {
        seq![Seq::empty()]
    } else {
        let prev = split_on(s.drop_last(), sep);
        if s.last() == sep {
            prev.push(Seq::empty())
        } else {
            prev.update(prev.len() - 1, prev.last().push(s.last()))
        }
    }
}

pub proof fn lemma_split_on_len(s: Seq<char>, sep: char)
    ensures
        split_on(s, sep).len() >= 1,
    decreases s.len(),
{
    if s.len() > 0 {
        lemma_split_on_len(s.drop_last(), sep);
    }
}

pub open spec fn nonempty_line() -> spec_fn(Seq<char>) -> bool {
    |l: Seq<char>| l.len() > 0
}

pub open spec fn trim_end_all(lines: Seq<Seq<char>>) -> Seq<Seq<char>> {
    lines.map_values(|l: Seq<char>| trim_end_ws(l))
}

/// The lines of `s` (split at `'\n'`), each without trailing whitespace,
/// the empty ones dropped.
pub open spec fn trimmed_lines(s: Seq<char>) -> Seq<Seq<char>> {
    trim_end_all(split_on(s, '\n')).filter(nonempty_line())
}

/// What a page whose text is blank reads as.
pub open spec fn no_text_notice(page: u32) -> Seq<char> {
    "[Page "@ + decimal(page as nat) + ": No extractable text found - may contain images or corrupted text]"@
}

/// The lines a page contributes: its sanitized text, or the notice when
/// that is blank, as trimmed non-empty lines.
pub open spec fn page_lines_spec(page: u32, raw: Seq<char>) -> Seq<Seq<char>> {
    let s = sanitize_spec(raw);
    trimmed_lines(if all_whitespace(s) { no_text_notice(page) } else { s })
}

/// The trimmed non-empty lines of `s`.
pub fn trimmed_lines_of(s: &[char]) -> (r: Vec<String>)
    ensures
        string_views(r@) == trimmed_lines(s@),
{
    let ghost mut done: Seq<Seq<char>> = Seq::empty();
    let mut cur: Vec<char> = Vec::new();
    let mut out: Vec<String> = Vec::new();
    let mut i: usize = 0;
    proof {
        assert(s@.take(0) =~= Seq::<char>::empty());
        assert(done.push(cur@) =~= seq![Seq::<char>::empty()]);
        assert(trim_end_all(done) =~= Seq::<Seq<char>>::empty());
        reveal(Seq::filter);
        assert(string_views(out@) =~= trim_end_all(done).filter(nonempty_line()));
    }
    while i < s.len()
        invariant
            i <= s@.len(),
            split_on(s@.take(i as int), '\n') == done.push(cur@),
            string_views(out@) == trim_end_all(done).filter(nonempty_line()),
        decreases s@.len() - i,
    {
        let ghost pre = s@.take(i as int);
        proof {
            assert(s@.take(i + 1).drop_last() =~= pre);
            assert(s@.take(i + 1).last() == s@[i as int]);
        }
        if s[i] == '\n' {
            let t = trim_end_chars(cur.as_slice());
            let ghost old_out = out@;
            proof {
                assert(trim_end_all(done.push(cur@)) =~= trim_end_all(done).push(t@));
                trim_end_all(done).lemma_filter_push(t@, nonempty_line());
            }
            if t.len() > 0 {
                let line = string_from_chars(t.as_slice());
                out.push(line);
                proof {
                    assert(string_views(out@) =~= string_views(old_out).push(t@));
                }
            }
            proof {
                done = done.push(cur@);
            }
            cur = Vec::new();
            proof {
                assert(done.push(cur@) =~= split_on(pre, '\n').push(Seq::empty()));
            }
        } else {
            proof {
                assert(done.push(cur@.push(s@[i as int])) =~= done.push(cur@).update(
                    done.len() as int,
                    done.push(cur@).last().push(s@[i as int]),
                ));
            }
            cur.push(s[i]);
        }
        i = i + 1;
    }
    let t = trim_end_chars(cur.as_slice());
    let ghost old_out = out@;
    proof {
        assert(s@.take(s@.len() as int) =~= s@);
        assert(trim_end_all(done.push(cur@)) =~= trim_end_all(done).push(t@));
        trim_end_all(done).lemma_filter_push(t@, nonempty_line());
    }
    if t.len() > 0 {
        let line = string_from_chars(t.as_slice());
        out.push(line);
        proof {
            assert(string_views(out@) =~= string_views(old_out).push(t@));
        }
    }
    out
}

fn no_text_notice_chars(page: u32) -> (r: Vec<char>)
    ensures
        r@ == no_text_notice(page),
{
    let mut v = chars_of("[Page ");
    let mut d = u64_decimal(page as u64);
    let mut tail = chars_of(": No extractable text found - may contain images or corrupted text]");
    v.append(&mut d);
    v.append(&mut tail);
    v
}

/// The lines page `page` contributes, from the text `raw` extracted from it.
pub fn page_lines(page: u32, raw: &str) -> (r: Vec<String>)
    ensures
        string_views(r@) == page_lines_spec(page, raw@),
{
    let clean = PdfExtractor::sanitize_pdf_text(raw);
    let cs = chars_of(clean.as_str());
    if is_blank(cs.as_slice()) {
        let notice = no_text_notice_chars(page);
        trimmed_lines_of(notice.as_slice())
    } else {
        trimmed_lines_of(cs.as_slice())
    }
}

pub open spec fn opt_str_view(o: Option<&str>) -> Option<Seq<char>> {
    match o {
        Some(s) => Some(s@),
        None => None,
    }
}

pub open spec fn opt_bytes_view(o: Option<Vec<u8>>) -> Option<Seq<u8>> {
    match o {
        Some(v) => Some(v@),
        None => None,
    }
}

/// The pixel layout of a colorspace name: the RGB family, the gray family,
/// or none that is supported.
pub open spec fn png_color_of(cs: Option<Seq<char>>) -> Option<PngColor> {
    match cs {
        Some(n) => if n == "DeviceRGB"@ || n == "RGB"@ || n == "CalRGB"@ {
            Some(PngColor::Rgb8)
        } else if n == "DeviceGray"@ || n == "CalGray"@ || n == "G"@ {
            Some(PngColor::L8)
        } else {
            None
        },
        None => None,
    }
}

pub open spec fn bytes_per_pixel(c: PngColor) -> int {
    if c == PngColor::Rgb8 { 3 } else { 1 }
}

/// What `encode_png` returns: `None` unless the samples are 8 bits deep,
/// the size is positive, the colorspace is RGB or gray, the sample count
/// fits in `usize` and enough samples are given; otherwise the PNG of the
/// leading `width * height` pixels (the dimensions taken as `u32`).
pub open spec fn encode_png_spec(
    samples: Seq<u8>,
    width: i64,
    height: i64,
    cs: Option<Seq<char>>,
    bpc: Option<i64>,
) -> Option<Seq<u8>> {
    if bpc != Some(8i64) || width <= 0 || height <= 0 {
        None
    } else {
        let w = width as u32;
        let h = height as u32;
        let pixels = w * h;
        if pixels > usize::MAX {
            None
        } else {
            match png_color_of(cs) {
                None => None,
                Some(color) => {
                    let needed = pixels * bytes_per_pixel(color);
                    if needed > usize::MAX || samples.len() < needed {
                        None
                    } else {
                        png_encoding(samples.take(needed), w, h, color)
                    }
                },
            }
        }
    }
}

fn png_color_for(color_space: Option<&str>) -> (r: Option<PngColor>)
    ensures
        r == png_color_of(opt_str_view(color_space)),
{
    match color_space {
        Some(n) => {
            if str_eq(n, "DeviceRGB") || str_eq(n, "RGB") || str_eq(n, "CalRGB") {
                Some(PngColor::Rgb8)
            } else if str_eq(n, "DeviceGray") || str_eq(n, "CalGray") || str_eq(n, "G") {
                Some(PngColor::L8)
            } else {
                None
            }
        },
        None => None,
    }
}

/// Encodes raw 8-bit DeviceRGB or DeviceGray samples as a PNG; `None` for
/// other bit depths or colorspaces, a non-positive size, or too few samples.
pub fn encode_png(
    samples: &[u8],
    width: i64,
    height: i64,
    color_space: Option<&str>,
    bits_per_component: Option<i64>,
) -> (r: Option<Vec<u8>>)
    ensures
        opt_bytes_view(r) == encode_png_spec(samples@, width, height, opt_str_view(color_space), bits_per_component),
{
    let eight = match bits_per_component {
        Some(b) => b == 8,
        None => false,
    };
    if !eight || width <= 0 || height <= 0 {
        return None;
    }
    let w: u32 = #[verifier::truncate] (width as u32);
    let h: u32 = #[verifier::truncate] (height as u32);
    let pixels = match (w as usize).checked_mul(h as usize) {
        Some(p) => p,
        None => {
            return None;
        },
    };
    let color = match png_color_for(color_space) {
        Some(c) => c,
        None => {
            return None;
        },
    };
    let needed = match color {
        PngColor::Rgb8 => match pixels.checked_mul(3) {
            Some(n) => n,
            None => {
                return None;
            },
        },
        PngColor::L8 => pixels,
    };
    if samples.len() < needed {
        return None;
    }
    let part = &samples[0..needed];
    png_encode(part, w, h, color)
}

/// Whether the image's stream declares the filter `name`.
pub open spec fn has_filter(img: PdfImageView, name: Seq<char>) -> bool {
    match img.filters {
        Some(f) => f.contains(name),
        None => false,
    }
}

/// The bytes, file extension and content type an image is stored with:
/// JPEG and JPEG 2000 streams as they are, other streams decompressed and
/// re-encoded as PNG (`None` when that fails).
pub open spec fn image_payload(st: PdfState, img: PdfImageView) -> Option<(Seq<u8>, Seq<char>, Seq<char>)> {
    if has_filter(img, "DCTDecode"@) {
        Some((img.content, "jpg"@, "image/jpeg"@))
    } else if has_filter(img, "JPXDecode"@) {
        Some((img.content, "jp2"@, "image/jp2"@))
    } else {
        match pdf_stream_content(st, img.id) {
            None => None,
            Some(samples) => match encode_png_spec(
                samples,
                img.width,
                img.height,
                img.color_space,
                img.bits_per_component,
            ) {
                None => None,
                Some(png) => Some((png, "png"@, "image/png"@)),
            },
        }
    }
}

/// `page{page}-image{idx + 1}.{ext}`.
pub open spec fn image_label(page: u32, idx: nat, ext: Seq<char>) -> Seq<char> {
    "page"@ + decimal(page as nat) + "-image"@ + decimal(idx + 1) + "."@ + ext
}

/// The asset made of image `idx` of page `page`: none when its payload
/// cannot be produced or is empty.
pub open spec fn image_asset_spec(st: PdfState, img: PdfImageView, page: u32, idx: nat) -> Option<AssetView> {
    match image_payload(st, img) {
        None => None,
        Some(p) => if p.0.len() == 0 {
            None
        } else {
            Some(
                AssetView {
                    content_type: p.2,
                    bytes: p.0,
                    page_number: Some(page),
                    label: Some(image_label(page, idx, p.1)),
                },
            )
        },
    }
}

proof fn lemma_label_ends_with_extension(page: u32, idx: nat, ext: Seq<char>, suffix: Seq<char>)
    requires
        suffix == "."@ + ext,
    ensures
        has_suffix(image_label(page, idx, ext), suffix),
{
    let l = image_label(page, idx, ext);
    let x = "page"@ + decimal(page as nat) + "-image"@ + decimal(idx + 1);
    assert(l == x + "."@ + ext);
    assert(l.subrange(l.len() - suffix.len(), l.len() as int) =~= suffix);
}

/// `r` is an asset of page `page` with content type `ct` whose label ends
/// with `suffix`.
pub open spec fn stored_as(r: Option<AssetView>, page: u32, ct: Seq<char>, suffix: Seq<char>) -> bool {
    match r {
        Some(a) => a.content_type == ct && a.page_number == Some(page) && match a.label {
            Some(l) => has_suffix(l, suffix),
            None => false,
        },
        None => false,
    }
}

/// The codec of a stored image matches the filter its stream declares, and
/// the file extension of its label matches its content type: a `DCTDecode`
/// stream is stored as it is, as `image/jpeg` with extension `.jpg`; a
/// `JPXDecode` stream (that is not also `DCTDecode`) as it is, as
/// `image/jp2` with extension `.jp2`; anything else only re-encoded, as
/// `image/png` with extension `.png`.
pub proof fn lemma_image_codec_matches_filter(st: PdfState, img: PdfImageView, page: u32, idx: nat)
    ensures
        has_filter(img, "DCTDecode"@) && img.content.len() > 0 ==> stored_as(
            image_asset_spec(st, img, page, idx),
            page,
            "image/jpeg"@,
            ".jpg"@,
        ) && image_asset_spec(st, img, page, idx)->0.bytes == img.content,
        !has_filter(img, "DCTDecode"@) && has_filter(img, "JPXDecode"@) && img.content.len() > 0
            ==> stored_as(image_asset_spec(st, img, page, idx), page, "image/jp2"@, ".jp2"@)
            && image_asset_spec(st, img, page, idx)->0.bytes == img.content,
        (has_filter(img, "DCTDecode"@) || has_filter(img, "JPXDecode"@)) && img.content.len() == 0
            ==> image_asset_spec(st, img, page, idx) is None,
        !has_filter(img, "DCTDecode"@) && !has_filter(img, "JPXDecode"@) && image_asset_spec(
            st,
            img,
            page,
            idx,
        ) is Some ==> stored_as(image_asset_spec(st, img, page, idx), page, "image/png"@, ".png"@),
{
    reveal_strlit(".");
    reveal_strlit("jpg");
    reveal_strlit("jp2");
    reveal_strlit("png");
    reveal_strlit(".jpg");
    reveal_strlit(".jp2");
    reveal_strlit(".png");
    assert("."@ + "jpg"@ =~= ".jpg"@);
    assert("."@ + "jp2"@ =~= ".jp2"@);
    assert("."@ + "png"@ =~= ".png"@);
    lemma_label_ends_with_extension(page, idx, "jpg"@, ".jpg"@);
    lemma_label_ends_with_extension(page, idx, "jp2"@, ".jp2"@);
    lemma_label_ends_with_extension(page, idx, "png"@, ".png"@);
}

fn has_filter_named(filters: &Option<Vec<String>>, name: &str) -> (b: bool)
    ensures
        b == match opt_strings_view(*filters) {
            Some(f) => f.contains(name@),
            None => false,
        },
{
    match filters {
        None => false,
        Some(v) => {
            let ghost fv = opt_strings_view(*filters)->0;
            proof {
                assert(fv.len() == v@.len());
                assert(forall|j: int| 0 <= j < fv.len() ==> fv[j] == v@[j]@);
            }
            let mut k: usize = 0;
            while k < v.len()
                invariant
                    k <= v@.len(),
                    opt_strings_view(*filters) == Some(fv),
                    fv.len() == v@.len(),
                    forall|j: int| 0 <= j < fv.len() ==> fv[j] == v@[j]@,
                    forall|j: int| 0 <= j < k ==> fv[j] != name@,
                decreases v@.len() - k,
            {
                if str_eq(v[k].as_str(), name) {
                    proof {
                        assert(fv[k as int] == name@);
                        assert(fv.contains(name@));
                    }
                    return true;
                }
                k = k + 1;
            }
            proof {
                assert(!fv.contains(name@));
            }
            false
        },
    }
}

fn decimal_string(n: u64) -> (r: String)
    ensures
        r@ == decimal(n as nat),
{
    let d = u64_decimal(n);
    string_from_chars(d.as_slice())
}

/// Turns image `idx` of page `page_num` into a pending asset, or `None` when
/// it is skipped.
fn pdf_image_to_asset(d: &PdfDocument, image: &PdfImageInfo, page_num: u32, idx: usize) -> (r: Option<
    PendingAsset,
>)
    requires
        idx < usize::MAX,
    ensures
        match r {
            Some(a) => image_asset_spec(d@, image@, page_num, idx as nat) == Some(a@),
            None => image_asset_spec(d@, image@, page_num, idx as nat) is None,
        },
{
    let (bytes, ext, content_type): (Vec<u8>, &str, &str) = if has_filter_named(&image.filters, "DCTDecode") {
        (image.content.clone(), "jpg", "image/jpeg")
    } else if has_filter_named(&image.filters, "JPXDecode") {
        (image.content.clone(), "jp2", "image/jp2")
    } else {
        let samples = match pdf_stream_samples(d, image.id) {
            Some(s) => s,
            None => {
                return None;
            },
        };
        let cs: Option<&str> = match &image.color_space {
            Some(c) => Some(c.as_str()),
            None => None,
        };
        let png = match encode_png(samples.as_slice(), image.width, image.height, cs, image.bits_per_component) {
            Some(p) => p,
            None => {
                return None;
            },
        };
        (png, "png", "image/png")
    };
    if bytes.len() == 0 {
        return None;
    }
    let mut label = owned("page");
    label.append(decimal_string(page_num as u64).as_str());
    label.append("-image");
    label.append(decimal_string(idx as u64 + 1).as_str());
    label.append(".");
    label.append(ext);
    Some(PendingAsset { content_type: owned(content_type), bytes, page_number: Some(page_num), label: Some(label) })
}

/// The assets of the first `n` images of page `page`, in image order.
pub open spec fn page_assets_upto(st: PdfState, imgs: Seq<PdfImageView>, page: u32, n: nat) -> Seq<AssetView>
    decreases n,
{
    if n == 0 {
        Seq::empty()
    } else {
        let prev = page_assets_upto(st, imgs, page, (n - 1) as nat);
        match image_asset_spec(st, imgs[n - 1], page, (n - 1) as nat) {
            Some(a) => prev.push(a),
            None => prev,
        }
    }
}

/// The assets of the page with number `page` and object id `id` (none when
/// its images cannot be listed).
pub open spec fn page_image_assets(st: PdfState, page: u32, id: (u32, u16)) -> Seq<AssetView> {
    match pdf_page_images(st, id) {
        None => Seq::empty(),
        Some(imgs) => page_assets_upto(st, imgs, page, imgs.len()),
    }
}

/// Page number and assets of each of the first `n` pages that has at least
/// one asset, in page order; a page without assets gets no group.
pub open spec fn image_groups_upto(st: PdfState, pages: Seq<(u32, (u32, u16))>, n: nat) -> Seq<
    (u32, Seq<AssetView>),
>
    decreases n,
{
    if n == 0 {
        Seq::empty()
    } else {
        let prev = image_groups_upto(st, pages, (n - 1) as nat);
        let assets = page_image_assets(st, pages[n - 1].0, pages[n - 1].1);
        if assets.len() == 0 {
            prev
        } else {
            prev.push((pages[n - 1].0, assets))
        }
    }
}

/// The embedded images of the PDF in `buf`, grouped by page in increasing
/// page order, one group per page that has at least one image that
/// converts; nothing when the bytes do not parse.
pub open spec fn images_by_page_spec(buf: Seq<u8>) -> Seq<(u32, Seq<AssetView>)> {
    if pdf_load_failure(buf) is Some {
        Seq::empty()
    } else {
        let st = PdfState { source: buf, filtered: false, key: None };
        image_groups_upto(st, pdf_pages(st), pdf_pages(st).len())
    }
}

/// Whether the PDF in `buf` can be decrypted without a panic: the bytes do
/// not parse, the document is not encrypted, or it is [`decrypt_safe`].
pub open spec fn pdf_decrypt_safe(buf: Seq<u8>) -> bool {
    let st = PdfState { source: buf, filtered: true, key: None };
    pdf_load_failure(buf) is Some || !pdf_encrypted(st) || decrypt_safe(st)
}

/// Whether the text of the PDF in `buf` can be read with the password
/// `password` without a panic: the bytes do not parse, the password does not
/// open the document, or the document it gives is [`cmaps_safe`].
pub open spec fn pdf_text_safe(buf: Seq<u8>, password: Seq<char>) -> bool {
    let loaded = PdfState { source: buf, filtered: true, key: None };
    pdf_load_failure(buf) is Some || (pdf_encrypted(loaded) && !pdf_decrypts(loaded, password)) || cmaps_safe(
        if pdf_encrypted(loaded) {
            PdfState { source: buf, filtered: true, key: Some(password) }
        } else {
            loaded
        },
    )
}

/// Whether the images of the PDF in `buf` can be listed without a panic:
/// the bytes do not parse (nothing is listed then), or no stream of the
/// document gives its `ColorSpace` as an empty array.
pub open spec fn pdf_images_listable(buf: Seq<u8>) -> bool {
    pdf_load_failure(buf) is Some || color_spaces_nonempty(PdfState { source: buf, filtered: false, key: None })
}

/// The groups come in strictly increasing page order.
pub open spec fn keys_increasing(groups: Seq<(u32, Seq<AssetView>)>) -> bool {
    forall|a: int, b: int| 0 <= a < b < groups.len() ==> groups[a].0 < groups[b].0
}

/// No group is empty.
pub open spec fn groups_nonempty(groups: Seq<(u32, Seq<AssetView>)>) -> bool {
    forall|i: int| 0 <= i < groups.len() ==> (#[trigger] groups[i]).1.len() > 0
}

/// The map from page number to assets that the groups stand for.
pub open spec fn groups_map(groups: Seq<(u32, Seq<AssetView>)>) -> Map<u32, Seq<AssetView>>
    decreases groups.len(),
{
    if groups.len() == 0 {
        Map::empty()
    } else {
        groups_map(groups.drop_first()).insert(groups[0].0, groups[0].1)
    }
}

/// The assets of each entry of a map of pending assets.
pub open spec fn map_asset_views(m: Map<u32, Vec<PendingAsset>>) -> Map<u32, Seq<AssetView>> {
    m.map_values(|v: Vec<PendingAsset>| asset_views(v@))
}

pub open spec fn group_views(v: Seq<(u32, Vec<PendingAsset>)>) -> Seq<(u32, Seq<AssetView>)> {
    v.map_values(|g: (u32, Vec<PendingAsset>)| (g.0, asset_views(g.1@)))
}

fn page_assets(d: &PdfDocument, page: u32, id: (u32, u16)) -> (r: Vec<PendingAsset>)
    requires
        color_spaces_nonempty(d@),
    ensures
        asset_views(r@) == page_image_assets(d@, page, id),
{
    let images = match pdf_images_of_page(d, id) {
        Some(v) => v,
        None => {
            proof {
                assert(asset_views(Seq::<PendingAsset>::empty()) =~= Seq::<AssetView>::empty());
            }
            return Vec::new();
        },
    };
    let ghost iv = image_views(images@);
    let mut out: Vec<PendingAsset> = Vec::new();
    let mut k: usize = 0;
    proof {
        assert(asset_views(out@) =~= Seq::<AssetView>::empty());
    }
    while k < images.len()
        invariant
            k <= images@.len(),
            iv == image_views(images@),
            pdf_page_images(d@, id) == Some(iv),
            color_spaces_nonempty(d@),
            asset_views(out@) == page_assets_upto(d@, iv, page, k as nat),
        decreases images@.len() - k,
    {
        let a = pdf_image_to_asset(d, &images[k], page, k);
        proof {
            assert(iv[k as int] == images@[k as int]@);
        }
        match a {
            Some(asset) => {
                let ghost before = out@;
                out.push(asset);
                proof {
                    assert(asset_views(out@) =~= asset_views(before).push(asset@));
                }
            },
            None => {},
        }
        k = k + 1;
    }
    out
}


proof fn lemma_image_group_keys(st: PdfState, pages: Seq<(u32, (u32, u16))>, n: nat)
    requires
        0 < n <= pages.len(),
        forall|a: int, b: int| 0 <= a < b < pages.len() ==> pages[a].0 < pages[b].0,
    ensures
        forall|i: int|
            0 <= i < image_groups_upto(st, pages, n).len() ==> (#[trigger] image_groups_upto(
                st,
                pages,
                n,
            )[i]).0 <= pages[n - 1].0,
        keys_increasing(image_groups_upto(st, pages, n)),
        groups_nonempty(image_groups_upto(st, pages, n)),
    decreases n,
{
    let g = image_groups_upto(st, pages, n);
    if n == 1 {
        let prev = image_groups_upto(st, pages, 0);
        assert(prev.len() == 0);
    } else {
        lemma_image_group_keys(st, pages, (n - 1) as nat);
        let prev = image_groups_upto(st, pages, (n - 1) as nat);
        assert(pages[n - 2].0 < pages[n - 1].0);
        assert forall|i: int| 0 <= i < g.len() implies (#[trigger] g[i]).0 <= pages[n - 1].0 by {
            if i < prev.len() {
                assert(g[i] == prev[i]);
            }
        }
        assert forall|i: int| 0 <= i < g.len() implies (#[trigger] g[i]).1.len() > 0 by {
            if i < prev.len() {
                assert(g[i] == prev[i]);
            }
        }
        assert forall|a: int, b: int| 0 <= a < b < g.len() implies g[a].0 < g[b].0 by {
            assert(g[a] == prev[a]);
            if b < prev.len() {
                assert(g[b] == prev[b]);
            } else {
                assert(prev[a].0 <= pages[n - 2].0);
            }
        }
    }
}

proof fn lemma_increasing_distinct(groups: Seq<(u32, Seq<AssetView>)>)
    requires
        keys_increasing(groups),
    ensures
        keys_distinct(groups),
{
}

/// The map of a list of groups in increasing page order has the groups'
/// pages as its keys and each group's assets as the value of its page.
pub proof fn lemma_groups_map(groups: Seq<(u32, Seq<AssetView>)>)
    requires
        keys_increasing(groups),
    ensures
        forall|i: int|
            0 <= i < groups.len() ==> #[trigger] groups_map(groups).contains_key(groups[i].0)
                && groups_map(groups)[groups[i].0] == groups[i].1,
        forall|p: u32|
            #[trigger] groups_map(groups).contains_key(p) ==> exists|i: int|
                0 <= i < groups.len() && groups[i].0 == p,
        groups_nonempty(groups) ==> forall|p: u32|
            #[trigger] groups_map(groups).contains_key(p) ==> groups_map(groups)[p].len() > 0,
    decreases groups.len(),
{
    if groups.len() > 0 {
        let rest = groups.drop_first();
        lemma_groups_map(rest);
        let m = groups_map(groups);
        assert forall|i: int| 0 <= i < groups.len() implies #[trigger] m.contains_key(groups[i].0)
            && m[groups[i].0] == groups[i].1 by {
            if i > 0 {
                assert(rest[i - 1] == groups[i]);
                assert(groups[0].0 < groups[i].0);
                assert(groups_map(rest).contains_key(rest[i - 1].0));
            }
        }
        assert forall|p: u32| #[trigger] m.contains_key(p) implies exists|i: int|
            0 <= i < groups.len() && groups[i].0 == p by {
            if p != groups[0].0 {
                assert(groups_map(rest).contains_key(p));
                let j = choose|j: int| 0 <= j < rest.len() && rest[j].0 == p;
                assert(groups[j + 1].0 == p);
            }
        }
        if groups_nonempty(groups) {
            assert(groups_nonempty(rest)) by {
                assert forall|i: int| 0 <= i < rest.len() implies (#[trigger] rest[i]).1.len() > 0 by {
                    assert(rest[i] == groups[i + 1]);
                }
            }
            assert(groups[0].1.len() > 0);
        }
    }
}

/// Page numbers (`u32`) are ordered as std documents, which the map of
/// assets relies on.
proof fn lemma_page_numbers_ordered()
    ensures
        vstd::laws_cmp::obeys_cmp::<u32>(),
{
    broadcast use vstd::laws_cmp::group_laws_cmp;
}

impl PdfExtractor {
    /// The embedded images of the PDF in `buf`, one group per page that has
    /// at least one image that converts, in increasing page order. A PDF that
    /// does not parse, or a page whose images cannot be listed, contributes
    /// nothing; an image that cannot be converted is skipped.
    pub fn image_groups(buf: &[u8]) -> (r: Vec<(u32, Vec<PendingAsset>)>)
        requires
            pdf_images_listable(buf@),
        ensures
            group_views(r@) == images_by_page_spec(buf@),
            keys_increasing(images_by_page_spec(buf@)),
            groups_nonempty(images_by_page_spec(buf@)),
            keys_distinct(images_by_page_spec(buf@)),
    {
        let d = match pdf_load(buf) {
            Ok(d) => d,
            Err(_) => {
                proof {
                    assert(group_views(Seq::<(u32, Vec<PendingAsset>)>::empty()) =~= Seq::<
                        (u32, Seq<AssetView>),
                    >::empty());
                }
                return Vec::new();
            },
        };
        let pages = pdf_page_list(&d);
        let mut groups: Vec<(u32, Vec<PendingAsset>)> = Vec::new();
        let mut k: usize = 0;
        proof {
            assert(group_views(groups@) =~= Seq::<(u32, Seq<AssetView>)>::empty());
        }
        while k < pages.len()
            invariant
                k <= pages@.len(),
                pages@ == pdf_pages(d@),
                d@ == (PdfState { source: buf@, filtered: false, key: None }),
                color_spaces_nonempty(d@),
                group_views(groups@) == image_groups_upto(d@, pages@, k as nat),
                forall|a: int, b: int| 0 <= a < b < pages@.len() ==> pages@[a].0 < pages@[b].0,
            decreases pages@.len() - k,
        {
            let (page, id) = pages[k];
            let assets = page_assets(&d, page, id);
            if assets.len() > 0 {
                let ghost before = groups@;
                groups.push((page, assets));
                proof {
                    assert(group_views(groups@) =~= group_views(before).push((page, asset_views(assets@))));
                }
            }
            k = k + 1;
        }
        proof {
            if pages@.len() > 0 {
                lemma_image_group_keys(d@, pages@, pages@.len());
            }
            lemma_increasing_distinct(image_groups_upto(d@, pages@, pages@.len()));
        }
        groups
    }

    /// The embedded images of the PDF in `buf` by page number: an entry for
    /// each page with at least one image that converts, holding its assets in
    /// the order the page lists its images. A PDF that does not parse, or a
    /// page whose images cannot be listed, contributes nothing; an image that
    /// cannot be converted is skipped. The entries, taken in key order, are
    /// [`PdfExtractor::image_groups`].
    pub fn extract_images_by_page(buf: &[u8]) -> (r: BTreeMap<u32, Vec<PendingAsset>>)
        requires
            pdf_images_listable(buf@),
        ensures
            map_asset_views(r@) == groups_map(images_by_page_spec(buf@)),
            forall|p: u32| #[trigger] r@.contains_key(p) ==> r@[p]@.len() > 0,
    {
        broadcast use vstd::std_specs::btree::group_btree_axioms;
        proof {
            lemma_page_numbers_ordered();
        }
        let mut rest = PdfExtractor::image_groups(buf);
        let ghost gv = group_views(rest@);
        let mut m: BTreeMap<u32, Vec<PendingAsset>> = BTreeMap::new();
        proof {
            assert(gv.skip(rest@.len() as int) =~= Seq::<(u32, Seq<AssetView>)>::empty());
            assert(map_asset_views(m@) =~= groups_map(gv.skip(rest@.len() as int)));
        }
        while rest.len() > 0
            invariant
                rest@.len() <= gv.len(),
                forall|i: int| 0 <= i < rest@.len() ==> (#[trigger] group_views(rest@)[i]) == gv[i],
                map_asset_views(m@) == groups_map(gv.skip(rest@.len() as int)),
                gv == images_by_page_spec(buf@),
            decreases rest@.len(),
        {
            let ghost n = rest@.len() as int;
            let ghost old_rest = rest@;
            proof {
                assert(group_views(rest@)[n - 1] == gv[n - 1]);
            }
            let (p, assets) = rest.pop().unwrap();
            m.insert(p, assets);
            proof {
                assert(gv.skip(n - 1).drop_first() =~= gv.skip(n));
                assert(gv.skip(n - 1)[0] == gv[n - 1]);
                assert(map_asset_views(m@) =~= groups_map(gv.skip(n - 1)));
                assert forall|i: int| 0 <= i < rest@.len() implies (#[trigger] group_views(rest@)[i]) == gv[i] by {
                    assert(rest@[i] == old_rest[i]);
                    assert(group_views(old_rest)[i] == gv[i]);
                    assert(group_views(rest@)[i] == (rest@[i].0, asset_views(rest@[i].1@)));
                }
            }
        }
        proof {
            assert(gv.skip(0) =~= gv);
            lemma_groups_map(gv);
            assert forall|p: u32| #[trigger] m@.contains_key(p) implies m@[p]@.len() > 0 by {
                assert(map_asset_views(m@).contains_key(p));
                assert(map_asset_views(m@)[p] == asset_views(m@[p]@));
            }
        }
        m
    }
}

/// The first `max` pages when a maximum is given, else all of them.
pub open spec fn limit_pages(pages: Seq<(u32, (u32, u16))>, max: Option<u32>) -> Seq<(u32, (u32, u16))> {
    match max {
        Some(m) => if m < pages.len() {
            pages.take(m as int)
        } else {
            pages
        },
        None => pages,
    }
}

/// Page number and lines of each of the first `n` pages whose text could be
/// extracted, in order; the others are left out.
pub open spec fn text_pages_upto(st: PdfState, pages: Seq<(u32, (u32, u16))>, n: nat) -> Seq<
    (u32, Seq<Seq<char>>),
>
    decreases n,
{
    if n == 0 {
        Seq::empty()
    } else {
        let prev = text_pages_upto(st, pages, (n - 1) as nat);
        let p = pages[n - 1].0;
        match pdf_page_text(st, p) {
            Ok(raw) => prev.push((p, page_lines_spec(p, raw))),
            Err(_) => prev,
        }
    }
}

/// The message recorded for page `page` whose text extraction failed with
/// `e`.
pub open spec fn page_error_text(page: u32, e: Seq<char>) -> Seq<char> {
    "Failed to extract text from page "@ + decimal(page as nat) + ": "@ + e
}

/// The messages of the pages among the first `n` whose text extraction
/// failed, in page order.
pub open spec fn text_errors_upto(st: PdfState, pages: Seq<(u32, (u32, u16))>, n: nat) -> Seq<Seq<char>>
    decreases n,
{
    if n == 0 {
        Seq::empty()
    } else {
        let prev = text_errors_upto(st, pages, (n - 1) as nat);
        let p = pages[n - 1].0;
        match pdf_page_text(st, p) {
            Ok(_) => prev,
            Err(e) => prev.push(page_error_text(p, e)),
        }
    }
}

/// All lines of the text pages, in order.
pub open spec fn all_lines(tp: Seq<(u32, Seq<Seq<char>>)>) -> Seq<Seq<char>> {
    tp.map_values(|t: (u32, Seq<Seq<char>>)| t.1).flatten()
}

/// The full text of a PDF from which no text could be read.
pub open spec fn no_text_in_pdf() -> Seq<char> {
    "No text could be extracted from this PDF. This might be an image-based PDF (scanned document) that requires OCR processing."@
}

/// All lines joined by newlines, or the notice when that is blank.
pub open spec fn pdf_full_text(tp: Seq<(u32, Seq<Seq<char>>)>) -> Seq<char> {
    let c = join(all_lines(tp), "\n"@);
    if all_whitespace(c) {
        no_text_in_pdf()
    } else {
        c
    }
}

/// The assets of the first group of page `p` at or after `k` (none if
/// there is no such group).
pub open spec fn group_assets_from(groups: Seq<(u32, Seq<AssetView>)>, p: u32, k: int) -> Seq<AssetView>
    decreases groups.len() - k,
{
    if k < 0 || k >= groups.len() {
        Seq::empty()
    } else if groups[k].0 == p {
        groups[k].1
    } else {
        group_assets_from(groups, p, k + 1)
    }
}

pub open spec fn text_page_numbers(tp: Seq<(u32, Seq<Seq<char>>)>) -> Seq<u32> {
    tp.map_values(|t: (u32, Seq<Seq<char>>)| t.0)
}

/// The assets of the first `n` groups whose page is not a text page, in
/// group order.
pub open spec fn leftover_upto(tp: Seq<(u32, Seq<Seq<char>>)>, groups: Seq<(u32, Seq<AssetView>)>, n: nat) -> Seq<
    AssetView,
>
    decreases n,
{
    if n == 0 {
        Seq::empty()
    } else {
        let prev = leftover_upto(tp, groups, (n - 1) as nat);
        if text_page_numbers(tp).contains(groups[n - 1].0) {
            prev
        } else {
            prev + groups[n - 1].1
        }
    }
}

/// The page of a text page, with the images of its page.
pub open spec fn text_page_view(t: (u32, Seq<Seq<char>>), groups: Seq<(u32, Seq<AssetView>)>) -> PageView {
    PageView { page_number: t.0, text: join(t.1, "\n"@), assets: group_assets_from(groups, t.0, 0) }
}

/// The document made of the text pages and the image groups: one page per
/// text page, carrying the images of that page; the images of the other
/// pages at the document level.
pub open spec fn assemble_spec(tp: Seq<(u32, Seq<Seq<char>>)>, groups: Seq<(u32, Seq<AssetView>)>) -> DocView {
    DocView {
        full_text: pdf_full_text(tp),
        pages: tp.map_values(|t: (u32, Seq<Seq<char>>)| text_page_view(t, groups)),
        assets: leftover_upto(tp, groups, groups.len()),
    }
}

/// What `PdfExtractor::document_from_bytes` returns for the PDF in `buf`,
/// the extractor's `password` and at most `max_pages` pages.
pub open spec fn pdf_document_spec(buf: Seq<u8>, password: Seq<char>, max_pages: Option<u32>) -> Result<
    DocView,
    DocumentExtractionErrorView,
> {
    match pdf_load_failure(buf) {
        Some(m) => Err(DocumentExtractionErrorView::CorruptedFile(m)),
        None => {
            let loaded = PdfState { source: buf, filtered: true, key: None };
            if pdf_encrypted(loaded) && !pdf_decrypts(loaded, password) {
                Err(DocumentExtractionErrorView::ExtractionFailed("Failed to decrypt PDF - invalid password"@))
            } else {
                let st = if pdf_encrypted(loaded) {
                    PdfState { source: buf, filtered: true, key: Some(password) }
                } else {
                    loaded
                };
            let pages = limit_pages(pdf_pages(st), max_pages);
                Ok(assemble_spec(text_pages_upto(st, pages, pages.len()), images_by_page_spec(buf)))
            }
        },
    }
}

pub open spec fn text_page_views(v: Seq<(u32, Vec<String>)>) -> Seq<(u32, Seq<Seq<char>>)> {
    v.map_values(|t: (u32, Vec<String>)| (t.0, string_views(t.1@)))
}

/// The lines of each page among `pages` (at most `max_pages` of them) whose
/// text can be extracted, in page order, and for each page whose
/// extraction fails a message naming the page and the error.
pub fn read_text_pages(d: &PdfDocument, pages: &Vec<(u32, (u32, u16))>, max_pages: Option<u32>) -> (r: (
    Vec<(u32, Vec<String>)>,
    Vec<String>,
))
    requires
        cmaps_safe(d@),
    ensures
        ({
            let lp = limit_pages(pages@, max_pages);
            &&& text_page_views(r.0@) == text_pages_upto(d@, lp, lp.len())
            &&& string_views(r.1@) == text_errors_upto(d@, lp, lp.len())
        }),
{
    let ghost lp = limit_pages(pages@, max_pages);
    let n: usize = match max_pages {
        Some(m) => if (m as usize) < pages.len() {
            m as usize
        } else {
            pages.len()
        },
        None => pages.len(),
    };
    let mut out: Vec<(u32, Vec<String>)> = Vec::new();
    let mut errors: Vec<String> = Vec::new();
    let mut k: usize = 0;
    proof {
        assert(lp.len() == n);
        assert(text_page_views(out@) =~= Seq::<(u32, Seq<Seq<char>>)>::empty());
        assert(string_views(errors@) =~= Seq::<Seq<char>>::empty());
    }
    while k < n
        invariant
            k <= n <= pages@.len(),
            lp == limit_pages(pages@, max_pages),
            lp.len() == n,
            forall|j: int| 0 <= j < n ==> lp[j] == pages@[j],
            text_page_views(out@) == text_pages_upto(d@, lp, k as nat),
            cmaps_safe(d@),
            string_views(errors@) == text_errors_upto(d@, lp, k as nat),
        decreases n - k,
    {
        let page = pages[k].0;
        proof {
            assert(lp[k as int] == pages@[k as int]);
        }
        match pdf_extract_page_text(d, page) {
            Ok(raw) => {
                let lines = page_lines(page, raw.as_str());
                let ghost before = out@;
                out.push((page, lines));
                proof {
                    assert(text_page_views(out@) =~= text_page_views(before).push(
                        (page, string_views(lines@)),
                    ));
                }
            },
            Err(e) => {
                let digits = u64_decimal(page as u64);
                let number = string_from_chars(digits.as_slice());
                let head = concat2("Failed to extract text from page ", number.as_str());
                let head = concat2(head.as_str(), ": ");
                let message = concat2(head.as_str(), e.as_str());
                let ghost before = errors@;
                errors.push(message);
                proof {
                    assert(string_views(errors@) =~= string_views(before).push(message@));
                }
            },
        }
        k = k + 1;
    }
    (out, errors)
}

/// Appends copies of `src` to `out`.
fn append_assets(out: &mut Vec<PendingAsset>, src: &Vec<PendingAsset>)
    ensures
        asset_views(final(out)@) == asset_views(old(out)@) + asset_views(src@),
{
    let ghost start = asset_views(out@);
    let mut k: usize = 0;
    while k < src.len()
        invariant
            k <= src@.len(),
            start == asset_views(old(out)@),
            asset_views(out@) == start + asset_views(src@).take(k as int),
        decreases src@.len() - k,
    {
        let a = copy_asset(&src[k]);
        let ghost before = out@;
        out.push(a);
        proof {
            assert(asset_views(out@) =~= asset_views(before).push(a@));
            assert(asset_views(src@).take(k + 1) =~= asset_views(src@).take(k as int).push(src@[k as int]@));
        }
        k = k + 1;
    }
    proof {
        assert(asset_views(src@).take(src@.len() as int) =~= asset_views(src@));
    }
}

/// Copies of the assets of the first group of page `p`.
fn group_assets(groups: &Vec<(u32, Vec<PendingAsset>)>, p: u32) -> (r: Vec<PendingAsset>)
    ensures
        asset_views(r@) == group_assets_from(group_views(groups@), p, 0),
{
    let ghost gv = group_views(groups@);
    let mut k: usize = 0;
    while k < groups.len()
        invariant
            k <= groups@.len(),
            gv == group_views(groups@),
            group_assets_from(gv, p, 0) == group_assets_from(gv, p, k as int),
        decreases groups@.len() - k,
    {
        if groups[k].0 == p {
            let mut out: Vec<PendingAsset> = Vec::new();
            append_assets(&mut out, &groups[k].1);
            proof {
                assert(asset_views(Seq::<PendingAsset>::empty()) =~= Seq::<AssetView>::empty());
                assert(Seq::<AssetView>::empty() + asset_views(groups@[k as int].1@) =~= asset_views(
                    groups@[k as int].1@,
                ));
            }
            return out;
        }
        k = k + 1;
    }
    proof {
        assert(asset_views(Seq::<PendingAsset>::empty()) =~= Seq::<AssetView>::empty());
    }
    Vec::new()
}

/// Whether `p` is the number of one of the text pages.
fn is_text_page(tp: &Vec<(u32, Vec<String>)>, p: u32) -> (b: bool)
    ensures
        b == text_page_numbers(text_page_views(tp@)).contains(p),
{
    let ghost nums = text_page_numbers(text_page_views(tp@));
    let mut k: usize = 0;
    while k < tp.len()
        invariant
            k <= tp@.len(),
            nums == text_page_numbers(text_page_views(tp@)),
            nums.len() == tp@.len(),
            forall|j: int| 0 <= j < k ==> nums[j] != p,
        decreases tp@.len() - k,
    {
        if tp[k].0 == p {
            proof {
                assert(nums[k as int] == p);
            }
            return true;
        }
        k = k + 1;
    }
    false
}

/// The document made of the text pages `tp` (page number and lines) and
/// the image groups `groups` (page number and images): see
/// [`assemble_spec`].
pub fn assemble(tp: &Vec<(u32, Vec<String>)>, groups: &Vec<(u32, Vec<PendingAsset>)>) -> (d: ExtractedDocument)
    ensures
        d@ == assemble_spec(text_page_views(tp@), group_views(groups@)),
{
    let ghost tpv = text_page_views(tp@);
    let ghost gv = group_views(groups@);
    let mut all: Vec<String> = Vec::new();
    let mut k: usize = 0;
    proof {
        assert(string_views(all@) =~= all_lines(tpv.take(0)));
    }
    while k < tp.len()
        invariant
            k <= tp@.len(),
            tpv == text_page_views(tp@),
            string_views(all@) == all_lines(tpv.take(k as int)),
        decreases tp@.len() - k,
    {
        let lines = &tp[k].1;
        let ghost before = string_views(all@);
        let mut j: usize = 0;
        while j < lines.len()
            invariant
                j <= lines@.len(),
                *lines == tp@[k as int].1,
                string_views(all@) == before + string_views(lines@).take(j as int),
            decreases lines@.len() - j,
        {
            let ghost b2 = all@;
            all.push(lines[j].clone());
            proof {
                assert(string_views(all@) =~= string_views(b2).push(lines@[j as int]@));
                assert(string_views(lines@).take(j + 1) =~= string_views(lines@).take(j as int).push(
                    lines@[j as int]@,
                ));
            }
            j = j + 1;
        }
        proof {
            assert(string_views(lines@).take(lines@.len() as int) =~= string_views(lines@));
            let m = tpv.take(k as int).map_values(|t: (u32, Seq<Seq<char>>)| t.1);
            assert(tpv.take(k + 1).map_values(|t: (u32, Seq<Seq<char>>)| t.1) =~= m.push(
                string_views(lines@),
            ));
            m.lemma_flatten_push(string_views(lines@));
        }
        k = k + 1;
    }
    proof {
        assert(tpv.take(tp@.len() as int) =~= tpv);
    }
    let combined = crate::text::join_strings(&all, "\n");
    let full_text = if is_blank(chars_of(combined.as_str()).as_slice()) {
        owned(
            "No text could be extracted from this PDF. This might be an image-based PDF (scanned document) that requires OCR processing.",
        )
    } else {
        combined
    };
    let mut pages: Vec<PageContent> = Vec::new();
    let mut k: usize = 0;
    proof {
        assert(page_views(pages@) =~= tpv.take(0).map_values(
            |t: (u32, Seq<Seq<char>>)| text_page_view(t, gv),
        ));
    }
    while k < tp.len()
        invariant
            k <= tp@.len(),
            tpv == text_page_views(tp@),
            gv == group_views(groups@),
            page_views(pages@) == tpv.take(k as int).map_values(
                |t: (u32, Seq<Seq<char>>)| text_page_view(t, gv),
            ),
        decreases tp@.len() - k,
    {
        let page_number = tp[k].0;
        let text = crate::text::join_strings(&tp[k].1, "\n");
        let pending_assets = group_assets(groups, page_number);
        let page = PageContent { page_number, text, pending_assets };
        let ghost before = pages@;
        pages.push(page);
        proof {
            assert(page_views(pages@) =~= page_views(before).push(page@));
            assert(tpv.take(k + 1) =~= tpv.take(k as int).push(tpv[k as int]));
            assert(page@ == text_page_view(tpv[k as int], gv));
            assert(tpv.take(k + 1).map_values(|t: (u32, Seq<Seq<char>>)| text_page_view(t, gv))
                =~= tpv.take(k as int).map_values(|t: (u32, Seq<Seq<char>>)| text_page_view(t, gv)).push(
                text_page_view(tpv[k as int], gv),
            ));
        }
        k = k + 1;
    }
    proof {
        assert(tpv.take(tp@.len() as int) =~= tpv);
    }
    let mut leftover: Vec<PendingAsset> = Vec::new();
    let mut k: usize = 0;
    proof {
        assert(asset_views(leftover@) =~= Seq::<AssetView>::empty());
    }
    while k < groups.len()
        invariant
            k <= groups@.len(),
            tpv == text_page_views(tp@),
            gv == group_views(groups@),
            asset_views(leftover@) == leftover_upto(tpv, gv, k as nat),
        decreases groups@.len() - k,
    {
        if !is_text_page(tp, groups[k].0) {
            append_assets(&mut leftover, &groups[k].1);
        }
        k = k + 1;
    }
    let d = ExtractedDocument { full_text, pages, pending_assets: leftover };
    proof {
        assert(d@.pages =~= assemble_spec(tpv, gv).pages);
    }
    d
}

/// Stored PDF text holds only kept characters; in particular no NUL.
pub proof fn lemma_sanitized_text_is_clean(s: Seq<char>)
    ensures
        forall|i: int|
            0 <= i < sanitize_spec(s).len() ==> keeps_pdf_char(#[trigger] sanitize_spec(s)[i]),
        forall|i: int| 0 <= i < sanitize_spec(s).len() ==> #[trigger] sanitize_spec(s)[i] != '\0',
{
    assert forall|i: int| 0 <= i < sanitize_spec(s).len() implies keeps_pdf_char(
        #[trigger] sanitize_spec(s)[i],
    ) by {
        s.lemma_filter_pred(pdf_char_filter(), i);
    }
}

/// Cleaning text twice changes nothing more than cleaning it once.
pub proof fn lemma_sanitize_idempotent(s: Seq<char>)
    ensures
        sanitize_spec(sanitize_spec(s)) == sanitize_spec(s),
    decreases s.len(),
{
    reveal(Seq::filter);
    if s.len() > 0 {
        lemma_sanitize_idempotent(s.drop_last());
        let f = pdf_char_filter();
        let t = s.drop_last().filter(f);
        if f(s.last()) {
            t.lemma_filter_push(s.last(), f);
        }
    }
}

/// Every line a page contributes is non-empty and has no trailing
/// whitespace.
pub proof fn lemma_page_lines_are_trimmed(page: u32, raw: Seq<char>)
    ensures
        forall|i: int|
            0 <= i < page_lines_spec(page, raw).len() ==> (#[trigger] page_lines_spec(page, raw)[i]).len()
                > 0 && !is_unicode_whitespace(page_lines_spec(page, raw)[i].last()),
{
    let s0 = sanitize_spec(raw);
    let s = if all_whitespace(s0) {
        no_text_notice(page)
    } else {
        s0
    };
    let t = trim_end_all(split_on(s, '\n'));
    let lines = t.filter(nonempty_line());
    assert(lines == page_lines_spec(page, raw));
    assert forall|i: int| 0 <= i < lines.len() implies (#[trigger] lines[i]).len() > 0
        && !is_unicode_whitespace(lines[i].last()) by {
        t.lemma_filter_pred(nonempty_line(), i);
        assert(lines.contains(lines[i]));
        t.lemma_filter_contains_rev(nonempty_line(), lines[i]);
        let j = choose|j: int| 0 <= j < t.len() && t[j] == lines[i];
        crate::text::lemma_trim_end_ws_last(split_on(s, '\n')[j]);
    }
}

/// The full text of a PDF is never blank: when the pages hold no text it is
/// the notice that none could be extracted.
pub proof fn lemma_pdf_full_text_not_blank(tp: Seq<(u32, Seq<Seq<char>>)>)
    ensures
        !all_whitespace(pdf_full_text(tp)),
{
    reveal_strlit(
        "No text could be extracted from this PDF. This might be an image-based PDF (scanned document) that requires OCR processing.",
    );
    assert(!is_unicode_whitespace(no_text_in_pdf()[0]));
}

/// Whether the document holds the asset, on a page or at document level.
pub open spec fn holds_asset(d: DocView, x: AssetView) -> bool {
    d.assets.contains(x) || exists|i: int| 0 <= i < d.pages.len() && (#[trigger] d.pages[i]).assets.contains(x)
}

/// No two image groups are for the same page.
pub open spec fn keys_distinct(groups: Seq<(u32, Seq<AssetView>)>) -> bool {
    forall|a: int, b: int| 0 <= a < b < groups.len() ==> groups[a].0 != groups[b].0
}

proof fn lemma_group_assets_found(groups: Seq<(u32, Seq<AssetView>)>, j: int, k: int)
    requires
        keys_distinct(groups),
        0 <= k <= j < groups.len(),
    ensures
        group_assets_from(groups, groups[j].0, k) == groups[j].1,
    decreases j - k,
{
    if k < j {
        lemma_group_assets_found(groups, j, k + 1);
    }
}

proof fn lemma_leftover_keeps(
    tp: Seq<(u32, Seq<Seq<char>>)>,
    groups: Seq<(u32, Seq<AssetView>)>,
    j: int,
    n: nat,
)
    requires
        0 <= j < n <= groups.len(),
        !text_page_numbers(tp).contains(groups[j].0),
    ensures
        forall|x: AssetView| groups[j].1.contains(x) ==> #[trigger] leftover_upto(tp, groups, n).contains(x),
    decreases n,
{
    if n > j + 1 {
        lemma_leftover_keeps(tp, groups, j, (n - 1) as nat);
        assert forall|x: AssetView| groups[j].1.contains(x) implies #[trigger] leftover_upto(
            tp,
            groups,
            n,
        ).contains(x) by {
            let prev = leftover_upto(tp, groups, (n - 1) as nat);
            assert(prev.contains(x));
            let k = choose|k: int| 0 <= k < prev.len() && prev[k] == x;
            if !text_page_numbers(tp).contains(groups[n - 1].0) {
                assert((prev + groups[n - 1].1)[k] == x);
            }
        }
    } else {
        assert forall|x: AssetView| groups[j].1.contains(x) implies #[trigger] leftover_upto(
            tp,
            groups,
            n,
        ).contains(x) by {
            let prev = leftover_upto(tp, groups, j as nat);
            let k = choose|k: int| 0 <= k < groups[j].1.len() && groups[j].1[k] == x;
            assert((prev + groups[j].1)[prev.len() + k] == x);
        }
    }
}

/// No image is lost when a document is assembled: the images of a page
/// that is a text page are that page's assets, and every image of any
/// other page is among the document-level assets.
pub proof fn lemma_no_image_is_lost(tp: Seq<(u32, Seq<Seq<char>>)>, groups: Seq<(u32, Seq<AssetView>)>)
    requires
        keys_distinct(groups),
    ensures
        forall|i: int, j: int|
            0 <= i < tp.len() && 0 <= j < groups.len() && tp[i].0 == groups[j].0 ==> (
            #[trigger] assemble_spec(tp, groups).pages[i]).assets == (#[trigger] groups[j]).1,
        forall|j: int, x: AssetView|
            0 <= j < groups.len() && !text_page_numbers(tp).contains(groups[j].0) && (
            #[trigger] groups[j]).1.contains(x) ==> #[trigger] assemble_spec(tp, groups).assets.contains(x),
{
    assert forall|i: int, j: int|
        0 <= i < tp.len() && 0 <= j < groups.len() && tp[i].0 == groups[j].0 implies (
        #[trigger] assemble_spec(tp, groups).pages[i]).assets == (#[trigger] groups[j]).1 by {
        lemma_group_assets_found(groups, j, 0);
    }
    assert forall|j: int, x: AssetView|
        0 <= j < groups.len() && !text_page_numbers(tp).contains(groups[j].0) && (
        #[trigger] groups[j]).1.contains(x) implies #[trigger] assemble_spec(tp, groups).assets.contains(
        x,
    ) by {
        lemma_leftover_keeps(tp, groups, j, groups.len());
    }
}

/// Error text for a PDF whose images cannot be listed.
pub const EMPTY_COLOR_SPACE: &'static str = "PDF has an image stream whose ColorSpace is an empty array";

/// Error text for a PDF with a stream that could be a CMap mapping a range
/// to an array.
pub const CMAP_RANGE_ARRAY: &'static str = "PDF has a CMap that maps a code range to an array of strings";

/// Error text for an encrypted PDF whose `U` entry is too short.
pub const SHORT_USER_ENTRY: &'static str = "PDF encryption dictionary has a U entry shorter than 16 bytes";

/// What `PdfExtractor::extract_text_from_bytes` returns: the document, once
/// it can be decrypted and its images listed.
pub open spec fn pdf_checked_document_spec(buf: Seq<u8>, password: Seq<char>, max_pages: Option<u32>) -> Result<
    DocView,
    DocumentExtractionErrorView,
> {
    if !pdf_decrypt_safe(buf) {
        Err(DocumentExtractionErrorView::ExtractionFailed(SHORT_USER_ENTRY@))
    } else if !pdf_text_safe(buf, password) {
        Err(DocumentExtractionErrorView::ExtractionFailed(CMAP_RANGE_ARRAY@))
    } else if pdf_images_listable(buf) {
        pdf_document_spec(buf, password, max_pages)
    } else {
        Err(DocumentExtractionErrorView::ExtractionFailed(EMPTY_COLOR_SPACE@))
    }
}

/// Extractor for PDF documents.
pub struct PdfExtractor {
    password: String,
}

impl PdfExtractor {
    /// The password tried on encrypted documents.
    pub closed spec fn password_spec(&self) -> Seq<char> {
        self.password@
    }

    /// An extractor that tries the empty password on encrypted documents.
    pub fn new() -> (e: Self)
        ensures
            e.password_spec() == Seq::<char>::empty(),
    {
        PdfExtractor { password: String::new() }
    }

    /// Whether `file_type` (in any letter case) is the PDF MIME type.
    pub fn can_extract(&self, file_type: &str) -> (b: bool)
        ensures
            b == (lowercase(file_type@) == PDF_MIME@),
    {
        let lowered = to_lowercase(file_type);
        str_eq(lowered.as_str(), PDF_MIME)
    }

    /// The document in the PDF bytes `buf`: `CorruptedFile` when they do not
    /// parse, `ExtractionFailed` when the document is encrypted and the
    /// password does not open it; otherwise one page per page (at most
    /// `max_pages`) whose text could be read, with its lines and images, the
    /// lines of all those pages as the full text, and the images of the
    /// other pages at the document level. The text is read from the document
    /// loaded through [`strip_layout_keys`]; the images from the document
    /// loaded as it is, since the filter drops the keys that decode them.
    pub fn document_from_bytes(&self, buf: &[u8], options: &ExtractionOptions) -> (r: Result<
        ExtractedDocument,
        DocumentExtractionError,
    >)
        requires
            pdf_decrypt_safe(buf@),
            pdf_text_safe(buf@, self.password_spec()),
            pdf_images_listable(buf@),
        ensures
            doc_result_view(r) == pdf_document_spec(buf@, self.password_spec(), options.max_pages),
            r matches Ok(doc) ==> forall|j: int, x: AssetView|
                0 <= j < images_by_page_spec(buf@).len() && #[trigger] images_by_page_spec(
                    buf@,
                )[j].1.contains(x) ==> holds_asset(doc@, x),
    {
        let mut d = match pdf_load_filtered(buf) {
            Ok(d) => d,
            Err(e) => {
                return Err(DocumentExtractionError::CorruptedFile(e));
            },
        };
        if pdf_is_encrypted(&d) {
            if !pdf_decrypt(&mut d, self.password.as_str()) {
                return Err(
                    DocumentExtractionError::ExtractionFailed(
                        owned("Failed to decrypt PDF - invalid password"),
                    ),
                );
            }
        }
        let pages = pdf_page_list(&d);
        let (text_pages, _page_errors) = read_text_pages(&d, &pages, options.max_pages);
        let groups = PdfExtractor::image_groups(buf);
        let doc = assemble(&text_pages, &groups);
        proof {
            let tp = text_page_views(text_pages@);
            let gv = images_by_page_spec(buf@);
            lemma_no_image_is_lost(tp, gv);
            assert forall|j: int, x: AssetView|
                0 <= j < gv.len() && #[trigger] gv[j].1.contains(x) implies holds_asset(doc@, x) by {
                if text_page_numbers(tp).contains(gv[j].0) {
                    let i = choose|i: int| 0 <= i < text_page_numbers(tp).len() && text_page_numbers(tp)[i] == gv[j].0;
                    assert(tp[i].0 == gv[j].0);
                    assert(doc@.pages[i] == assemble_spec(tp, gv).pages[i]);
                    assert(doc@.pages[i].assets.contains(x));
                }
            }
        }
        Ok(doc)
    }

    /// Whether the PDF in `buf` can be decrypted: see [`pdf_decrypt_safe`].
    pub fn decrypt_is_safe(buf: &[u8]) -> (b: bool)
        ensures
            b == pdf_decrypt_safe(buf@),
    {
        match pdf_load_filtered(buf) {
            Err(_) => true,
            Ok(d) => {
                if !pdf_is_encrypted(&d) {
                    return true;
                }
                match pdf_user_entry(&d) {
                    Some(n) => n >= 16,
                    None => true,
                }
            },
        }
    }

    /// Whether the text of the PDF in `buf` can be read with this
    /// extractor's password: see [`pdf_text_safe`].
    pub fn text_is_safe(&self, buf: &[u8]) -> (b: bool)
        requires
            pdf_decrypt_safe(buf@),
        ensures
            b == pdf_text_safe(buf@, self.password_spec()),
    {
        let mut d = match pdf_load_filtered(buf) {
            Err(_) => {
                return true;
            },
            Ok(d) => d,
        };
        if pdf_is_encrypted(&d) {
            if !pdf_decrypt(&mut d, self.password.as_str()) {
                return true;
            }
        }
        check_cmaps(&d)
    }

    /// Whether the images of the PDF in `buf` can be listed: see
    /// [`pdf_images_listable`].
    pub fn images_listable(buf: &[u8]) -> (b: bool)
        ensures
            b == pdf_images_listable(buf@),
    {
        match pdf_load(buf) {
            Err(_) => true,
            Ok(d) => check_color_spaces(&d),
        }
    }

    /// The document held in the PDF bytes `data` (see
    /// [`PdfExtractor::document_from_bytes`]); the file type is not looked at.
    /// Three checks come first, each on what `lopdf` would panic on: an
    /// encrypted PDF whose `U` entry is shorter than 16 bytes, a PDF with a
    /// stream that could be a CMap mapping a range to an array, and a PDF
    /// with a stream whose `ColorSpace` is an empty array are refused with
    /// `ExtractionFailed`.
    pub fn extract_text_from_bytes(&self, data: &[u8], file_type: &str, options: ExtractionOptions) -> (r: Result<
        ExtractedDocument,
        DocumentExtractionError,
    >)
        ensures
            doc_result_view(r) == pdf_checked_document_spec(data@, self.password_spec(), options.max_pages),
            r matches Ok(doc) ==> forall|j: int, x: AssetView|
                0 <= j < images_by_page_spec(data@).len() && #[trigger] images_by_page_spec(
                    data@,
                )[j].1.contains(x) ==> holds_asset(doc@, x),
    {
        if !PdfExtractor::decrypt_is_safe(data) {
            return Err(DocumentExtractionError::ExtractionFailed(owned(SHORT_USER_ENTRY)));
        }
        if !self.text_is_safe(data) {
            return Err(DocumentExtractionError::ExtractionFailed(owned(CMAP_RANGE_ARRAY)));
        }
        if !PdfExtractor::images_listable(data) {
            return Err(DocumentExtractionError::ExtractionFailed(owned(EMPTY_COLOR_SPACE)));
        }
        self.document_from_bytes(data, &options)
    }
}

impl Default for PdfExtractor {
    fn default() -> (e: Self)
        ensures
            e.password_spec() == Seq::<char>::empty(),
    {
        PdfExtractor::new()
    }
}

} // verus!
