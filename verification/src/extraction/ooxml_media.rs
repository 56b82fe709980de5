//! Embedded media of OOXML packages (docx/pptx): both are ZIP archives that
//! keep binary assets under a media folder (`word/media/`, `ppt/media/`).
//! Every non-empty entry under the folder becomes a pending asset whose
//! content type is guessed from its file extension.

use std::io::Read;
use vstd::prelude::*;
use crate::chunking::views;
use crate::extraction::{asset_views, AssetView, DocumentExtractionError, PendingAsset};
use crate::sorting::{lex_order, sort_by, sort_lex};
use crate::text::{
    after_last, after_last_char, chars_of, has_prefix, has_suffix, lowercase, str_eq,
    string_from_chars, to_lowercase,
};

verus! {

broadcast use vstd::seq_lib::group_seq_properties;

/// The entry names of the ZIP archive `buf` in archive order (`None` for an
/// entry whose header cannot be read), or `None` when `buf` is not a ZIP
/// archive that the `zip` crate opens.
pub uninterp spec fn zip_entry_names(buf: Seq<u8>) -> Option<Seq<Option<Seq<char>>>>;

/// The text of the error the `zip` crate reports when it cannot open `buf`.
pub uninterp spec fn zip_open_error(buf: Seq<u8>) -> Seq<char>;

/// The bytes of the entry `name` of archive `buf`, or `None` when the entry
/// cannot be found or read.
pub uninterp spec fn zip_entry_bytes(buf: Seq<u8>, name: Seq<char>) -> Option<Seq<u8>>;

/// The text of the error the `zip` crate reports when reading entry `name`.
pub uninterp spec fn zip_read_error(buf: Seq<u8>, name: Seq<char>) -> Seq<char>;

/// The contents of entry `name` of archive `buf` as UTF-8 text
/// (`Read::read_to_string`), or `None` when it cannot be read or is not UTF-8.
pub uninterp spec fn zip_entry_text(buf: Seq<u8>, name: Seq<char>) -> Option<Seq<char>>;

/// The text of the error reported when reading entry `name` as text fails.
pub uninterp spec fn zip_text_error(buf: Seq<u8>, name: Seq<char>) -> Seq<char>;

pub open spec fn opt_char_views(v: Seq<Option<Vec<char>>>) -> Seq<Option<Seq<char>>> {
    v.map_values(|o: Option<Vec<char>>| match o {
        Some(n) => Some(n@),
        None => None,
    })
}

/// `zip::ZipArchive::new` over the bytes, then `by_index(i).name()` for
/// every entry. The listing is named `zip_entry_names(buf@)`.
#[verifier::external_body]
pub(crate) fn zip_list_entries(buf: &[u8]) -> (r: Result<Vec<Option<Vec<char>>>, String>)
    ensures
        match r {
            Ok(v) => zip_entry_names(buf@) == Some(opt_char_views(v@)),
            Err(m) => zip_entry_names(buf@) is None && m@ == zip_open_error(buf@),
        },
{
    let mut archive = zip::ZipArchive::new(std::io::Cursor::new(buf)).map_err(|e| e.to_string())?;
    Ok((0..archive.len()).map(|i| archive.by_index(i).ok().map(|e| e.name().chars().collect())).collect())
}

/// `zip::ZipArchive::by_name` followed by `read_to_end`. The bytes are
/// named `zip_entry_bytes(buf@, name@)`.
#[verifier::external_body]
pub(crate) fn zip_read_entry(buf: &[u8], name: &str) -> (r: Result<Vec<u8>, String>)
    ensures
        match r {
            Ok(b) => zip_entry_bytes(buf@, name@) == Some(b@),
            Err(m) => zip_entry_bytes(buf@, name@) is None && m@ == zip_read_error(buf@, name@),
        },
{
    let mut archive = zip::ZipArchive::new(std::io::Cursor::new(buf)).map_err(|e| e.to_string())?;
    let mut entry = archive.by_name(name).map_err(|e| e.to_string())?;
    let mut bytes = Vec::new();
    entry.read_to_end(&mut bytes).map_err(|e| e.to_string())?;
    Ok(bytes)
}

/// `zip::ZipArchive::by_name` followed by `read_to_string`. The text is
/// named `zip_entry_text(buf@, name@)`.
#[verifier::external_body]
pub(crate) fn zip_read_entry_text(buf: &[u8], name: &str) -> (r: Result<String, String>)
    ensures
        match r {
            Ok(t) => zip_entry_text(buf@, name@) == Some(t@),
            Err(m) => zip_entry_text(buf@, name@) is None && m@ == zip_text_error(buf@, name@),
        },
{
    let mut archive = zip::ZipArchive::new(std::io::Cursor::new(buf)).map_err(|e| e.to_string())?;
    let mut entry = archive.by_name(name).map_err(|e| e.to_string())?;
    let mut text = String::new();
    entry.read_to_string(&mut text).map_err(|e| e.to_string())?;
    Ok(text)
}

/// MIME type for a (lowercased) file extension.
pub open spec fn mime_for_extension(ext: Seq<char>) -> Seq<char> {
    if ext == "png"@ {
        "image/png"@
    } else if ext == "jpg"@ || ext == "jpeg"@ {
        "image/jpeg"@
    } else if ext == "gif"@ {
        "image/gif"@
    } else if ext == "bmp"@ {
        "image/bmp"@
    } else if ext == "webp"@ {
        "image/webp"@
    } else if ext == "tif"@ || ext == "tiff"@ {
        "image/tiff"@
    } else if ext == "svg"@ {
        "image/svg+xml"@
    } else if ext == "emf"@ {
        "image/emf"@
    } else if ext == "wmf"@ {
        "image/wmf"@
    } else {
        "application/octet-stream"@
    }
}

/// The content type guessed for a file name from its extension (the part
/// after the last `.`, in any letter case).
pub open spec fn content_type_of(name: Seq<char>) -> Seq<char> {
    mime_for_extension(lowercase(after_last(name, '.')))
}

/// The MIME type for an already lowercased extension.
pub fn mime_for_lowered_extension(ext: &str) -> (m: String)
    ensures
        m@ == mime_for_extension(ext@),
{
    let mime = if str_eq(ext, "png") {
        "image/png"
    } else if str_eq(ext, "jpg") || str_eq(ext, "jpeg") {
        "image/jpeg"
    } else if str_eq(ext, "gif") {
        "image/gif"
    } else if str_eq(ext, "bmp") {
        "image/bmp"
    } else if str_eq(ext, "webp") {
        "image/webp"
    } else if str_eq(ext, "tif") || str_eq(ext, "tiff") {
        "image/tiff"
    } else if str_eq(ext, "svg") {
        "image/svg+xml"
    } else if str_eq(ext, "emf") {
        "image/emf"
    } else if str_eq(ext, "wmf") {
        "image/wmf"
    } else {
        "application/octet-stream"
    };
    mime.to_owned()
}

/// The image extensions that have a registered MIME type.
pub open spec fn is_image_extension(ext: Seq<char>) -> bool {
    ||| ext == "png"@
    ||| ext == "jpg"@
    ||| ext == "jpeg"@
    ||| ext == "gif"@
    ||| ext == "bmp"@
    ||| ext == "webp"@
    ||| ext == "tif"@
    ||| ext == "tiff"@
    ||| ext == "svg"@
    ||| ext == "emf"@
    ||| ext == "wmf"@
}

/// The media subtype registered for an image extension: the extension's own
/// name, spelled out for the short forms `jpg` and `tif`, and with the
/// `+xml` structured suffix for SVG.
pub open spec fn image_subtype(ext: Seq<char>) -> Seq<char> {
    if ext == "jpg"@ {
        "jpeg"@
    } else if ext == "tif"@ {
        "tiff"@
    } else if ext == "svg"@ {
        "svg+xml"@
    } else {
        ext
    }
}

/// Two extensions name the same image format: they are equal, or both are
/// spellings of JPEG, or both are spellings of TIFF.
pub open spec fn same_image_format(a: Seq<char>, b: Seq<char>) -> bool {
    ||| a == b
    ||| (a == "jpg"@ || a == "jpeg"@) && (b == "jpg"@ || b == "jpeg"@)
    ||| (a == "tif"@ || a == "tiff"@) && (b == "tif"@ || b == "tiff"@)
}


/// The content type of a known image extension is `image/` followed by the
/// subtype named after that extension (`webp` gives `image/webp`, `tif`
/// gives `image/tiff`, `svg` gives `image/svg+xml`); every other extension
/// gives `application/octet-stream`.
pub proof fn lemma_mime_names_its_format(ext: Seq<char>)
    ensures
        is_image_extension(ext) ==> mime_for_extension(ext) == "image/"@ + image_subtype(ext),
        !is_image_extension(ext) ==> mime_for_extension(ext) == "application/octet-stream"@,
{
    reveal_strlit("png");
    reveal_strlit("jpg");
    reveal_strlit("jpeg");
    reveal_strlit("gif");
    reveal_strlit("bmp");
    reveal_strlit("webp");
    reveal_strlit("tif");
    reveal_strlit("tiff");
    reveal_strlit("svg");
    reveal_strlit("svg+xml");
    reveal_strlit("emf");
    reveal_strlit("wmf");
    reveal_strlit("image/");
    reveal_strlit("image/png");
    reveal_strlit("image/jpeg");
    reveal_strlit("image/gif");
    reveal_strlit("image/bmp");
    reveal_strlit("image/webp");
    reveal_strlit("image/tiff");
    reveal_strlit("image/svg+xml");
    reveal_strlit("image/emf");
    reveal_strlit("image/wmf");
    assert("png"@[0] == 'p');
    assert("jpg"@[0] == 'j');
    assert("jpeg"@[0] == 'j');
    assert("gif"@[0] == 'g');
    assert("bmp"@[0] == 'b');
    assert("webp"@[0] == 'w');
    assert("tif"@[0] == 't');
    assert("tiff"@[0] == 't');
    assert("svg"@[0] == 's');
    assert("emf"@[0] == 'e');
    assert("wmf"@[0] == 'w');
    let img = "image/"@;
    if ext == "png"@ {
        assert(mime_for_extension(ext) =~= img + image_subtype(ext));
    } else if ext == "jpg"@ {
        assert(mime_for_extension(ext) =~= img + image_subtype(ext));
    } else if ext == "jpeg"@ {
        assert(mime_for_extension(ext) =~= img + image_subtype(ext));
    } else if ext == "gif"@ {
        assert(mime_for_extension(ext) =~= img + image_subtype(ext));
    } else if ext == "bmp"@ {
        assert(mime_for_extension(ext) =~= img + image_subtype(ext));
    } else if ext == "webp"@ {
        assert(mime_for_extension(ext) =~= img + image_subtype(ext));
    } else if ext == "tif"@ {
        assert(mime_for_extension(ext) =~= img + image_subtype(ext));
    } else if ext == "tiff"@ {
        assert(mime_for_extension(ext) =~= img + image_subtype(ext));
    } else if ext == "svg"@ {
        assert(mime_for_extension(ext) =~= img + image_subtype(ext));
    } else if ext == "emf"@ {
        assert(mime_for_extension(ext) =~= img + image_subtype(ext));
    } else if ext == "wmf"@ {
        assert(mime_for_extension(ext) =~= img + image_subtype(ext));
    }
}

/// Distinct image formats get distinct content types: two known extensions
/// share a content type only when they spell the same format.
pub proof fn lemma_mime_distinguishes_formats(a: Seq<char>, b: Seq<char>)
    requires
        is_image_extension(a),
        is_image_extension(b),
        mime_for_extension(a) == mime_for_extension(b),
    ensures
        same_image_format(a, b),
{
    lemma_mime_names_its_format(a);
    lemma_mime_names_its_format(b);
    reveal_strlit("png");
    reveal_strlit("jpg");
    reveal_strlit("jpeg");
    reveal_strlit("gif");
    reveal_strlit("bmp");
    reveal_strlit("webp");
    reveal_strlit("tif");
    reveal_strlit("tiff");
    reveal_strlit("svg");
    reveal_strlit("svg+xml");
    reveal_strlit("emf");
    reveal_strlit("wmf");
    reveal_strlit("image/");
    reveal_strlit("image/png");
    reveal_strlit("image/jpeg");
    reveal_strlit("image/gif");
    reveal_strlit("image/bmp");
    reveal_strlit("image/webp");
    reveal_strlit("image/tiff");
    reveal_strlit("image/svg+xml");
    reveal_strlit("image/emf");
    reveal_strlit("image/wmf");
    let sa = image_subtype(a);
    let sb = image_subtype(b);
    assert(sa =~= ("image/"@ + sa).subrange(6, 6 + sa.len() as int));
    assert(sb =~= ("image/"@ + sb).subrange(6, 6 + sb.len() as int));
    assert(sa == sb);
    assert(sa[0] == sb[0]);
    if sa.len() > 1 {
        assert(sa[1] == sb[1]);
    }
    if sa.len() > 3 {
        assert(sa[3] == sb[3]);
    }
}

/// The content type for a file name, from its extension.
pub fn content_type_for(name: &str) -> (m: String)
    ensures
        m@ == content_type_of(name@),
{
    let chars = chars_of(name);
    let ext = after_last_char(chars.as_slice(), '.');
    let ext_str = string_from_chars(ext.as_slice());
    let lowered = to_lowercase(ext_str.as_str());
    mime_for_lowered_extension(lowered.as_str())
}

/// The entries of a listing that lie under `prefix` and are not folders,
/// in archive order.
pub open spec fn media_candidates(listing: Seq<Option<Seq<char>>>, prefix: Seq<char>) -> Seq<
    Seq<char>,
>
    decreases listing.len(),
{
    if listing.len() == 0 {
        Seq::empty()
    } else {
        let rest = media_candidates(listing.drop_last(), prefix);
        match listing.last() {
            Some(n) => if has_prefix(n, prefix) && !has_suffix(n, seq!['/']) {
                rest.push(n)
            } else {
                rest
            },
            None => rest,
        }
    }
}

/// The asset made of entry `name` with contents `bytes`: labelled with the
/// name's last path component, typed from its extension.
pub open spec fn media_asset(name: Seq<char>, bytes: Seq<u8>) -> AssetView {
    AssetView {
        content_type: content_type_of(after_last(name, '/')),
        bytes: bytes,
        page_number: None,
        label: Some(after_last(name, '/')),
    }
}

/// The assets read from entries `names[k..]` (empty entries skipped), or
/// the message of the first read that fails.
pub open spec fn media_assets_from(buf: Seq<u8>, names: Seq<Seq<char>>, k: int) -> Result<
    Seq<AssetView>,
    Seq<char>,
>
    decreases names.len() - k,
{
    if k < 0 || k >= names.len() {
        Ok(Seq::empty())
    } else {
        match zip_entry_bytes(buf, names[k]) {
            None => Err("reading "@ + names[k] + ": "@ + zip_read_error(buf, names[k])),
            Some(b) => match media_assets_from(buf, names, k + 1) {
                Err(e) => Err(e),
                Ok(rest) => Ok(
                    if b.len() == 0 {
                        rest
                    } else {
                        seq![media_asset(names[k], b)] + rest
                    },
                ),
            },
        }
    }
}

/// What `extract_media_assets` returns for archive `buf` and folder
/// `prefix`: the media entries in name order, or the failure.
pub open spec fn media_assets_spec(buf: Seq<u8>, prefix: Seq<char>) -> Result<
    Seq<AssetView>,
    DocumentExtractionErrorView,
> {
    match zip_entry_names(buf) {
        None => Err(DocumentExtractionErrorView::CorruptedFile("invalid OOXML zip: "@ + zip_open_error(buf))),
        Some(listing) => match media_assets_from(
            buf,
            sort_by(media_candidates(listing, prefix), lex_order()),
            0,
        ) {
            Ok(a) => Ok(a),
            Err(m) => Err(DocumentExtractionErrorView::ExtractionFailed(m)),
        },
    }
}

proof fn lemma_media_assets_from_nonempty(buf: Seq<u8>, names: Seq<Seq<char>>, k: int)
    ensures
        media_assets_from(buf, names, k) matches Ok(assets) ==> forall|i: int|
            0 <= i < assets.len() ==> (#[trigger] assets[i]).bytes.len() > 0 && assets[i].page_number is None,
    decreases names.len() - k,
{
    if 0 <= k < names.len() {
        lemma_media_assets_from_nonempty(buf, names, k + 1);
        match media_assets_from(buf, names, k) {
            Ok(assets) => {
                let rest = media_assets_from(buf, names, k + 1)->Ok_0;
                let b = zip_entry_bytes(buf, names[k])->Some_0;
                assert forall|i: int| 0 <= i < assets.len() implies (#[trigger] assets[i]).bytes.len() > 0
                    && assets[i].page_number is None by {
                    if b.len() != 0 && i > 0 {
                        assert(assets[i] == rest[i - 1]);
                    }
                }
            },
            Err(_) => {},
        }
    }
}

/// Media assets are never empty and belong to no page: entries without
/// bytes are skipped.
pub proof fn lemma_media_assets_nonempty(buf: Seq<u8>, prefix: Seq<char>)
    ensures
        media_assets_spec(buf, prefix) matches Ok(assets) ==> forall|i: int|
            0 <= i < assets.len() ==> (#[trigger] assets[i]).bytes.len() > 0 && assets[i].page_number is None,
{
    match zip_entry_names(buf) {
        Some(listing) => {
            lemma_media_assets_from_nonempty(buf, sort_by(media_candidates(listing, prefix), lex_order()), 0);
        },
        None => {},
    }
}

/// Mathematical view of a [`DocumentExtractionError`].
pub enum DocumentExtractionErrorView {
    UnsupportedFormat(Seq<char>),
    ExtractionFailed(Seq<char>),
    CorruptedFile(Seq<char>),
}

impl View for DocumentExtractionError {
    type V = DocumentExtractionErrorView;

    open spec fn view(&self) -> DocumentExtractionErrorView {
        match self {
            DocumentExtractionError::UnsupportedFormat(m) => DocumentExtractionErrorView::UnsupportedFormat(m@),
            DocumentExtractionError::ExtractionFailed(m) => DocumentExtractionErrorView::ExtractionFailed(m@),
            DocumentExtractionError::CorruptedFile(m) => DocumentExtractionErrorView::CorruptedFile(m@),
        }
    }
}

/// View of a result of extraction steps that produce assets.
pub open spec fn assets_result_view(r: Result<Vec<PendingAsset>, DocumentExtractionError>) -> Result<
    Seq<AssetView>,
    DocumentExtractionErrorView,
> {
    match r {
        Ok(v) => Ok(asset_views(v@)),
        Err(e) => Err(e@),
    }
}

/// The non-folder entries of `listing` under `prefix`, in archive order.
pub fn select_media_names(listing: &Vec<Option<Vec<char>>>, prefix: &[char]) -> (r: Vec<Vec<char>>)
    ensures
        views(r@) == media_candidates(opt_char_views(listing@), prefix@),
{
    let mut r: Vec<Vec<char>> = Vec::new();
    let mut k: usize = 0;
    let slash = ['/'];
    proof {
        assert(slash@ =~= seq!['/']);
    }
    while k < listing.len()
        invariant
            k <= listing@.len(),
            slash@ == seq!['/'],
            views(r@) == media_candidates(opt_char_views(listing@).take(k as int), prefix@),
        decreases listing@.len() - k,
    {
        let ghost taken = opt_char_views(listing@).take(k + 1);
        proof {
            assert(taken.drop_last() =~= opt_char_views(listing@).take(k as int));
        }
        match &listing[k] {
            Some(name) => {
                if crate::text::starts_with(name.as_slice(), prefix) && !crate::text::ends_with(
                    name.as_slice(),
                    slash.as_slice(),
                ) {
                    let copy = crate::text::copy_range(name.as_slice(), 0, name.len());
                    proof {
                        assert(name@.subrange(0, name@.len() as int) =~= name@);
                        assert(views(r@.push(copy)) =~= views(r@).push(copy@));
                    }
                    r.push(copy);
                }
            },
            None => {},
        }
        k = k + 1;
    }
    proof {
        assert(opt_char_views(listing@).take(listing@.len() as int) =~= opt_char_views(listing@));
    }
    r
}

/// Every non-empty entry of the OOXML package `buf` under `prefix`, as a
/// pending asset, in name order.
pub fn extract_media_assets(buf: &[u8], prefix: &str) -> (r: Result<
    Vec<PendingAsset>,
    DocumentExtractionError,
>)
    ensures
        assets_result_view(r) == media_assets_spec(buf@, prefix@),
{
    let listing = match zip_list_entries(buf) {
        Ok(l) => l,
        Err(e) => {
            return Err(
                DocumentExtractionError::CorruptedFile(
                    crate::text::concat2("invalid OOXML zip: ", e.as_str()),
                ),
            );
        },
    };
    let prefix_chars = chars_of(prefix);
    let candidates = select_media_names(&listing, prefix_chars.as_slice());
    let names = sort_lex(&candidates);
    let ghost nv = views(names@);
    let mut assets: Vec<PendingAsset> = Vec::new();
    let mut k: usize = 0;
    while k < names.len()
        invariant
            k <= names@.len(),
            nv == views(names@),
            nv == sort_by(media_candidates(opt_char_views(listing@), prefix@), lex_order()),
            zip_entry_names(buf@) == Some(opt_char_views(listing@)),
            media_assets_from(buf@, nv, 0) == match media_assets_from(buf@, nv, k as int) {
                Ok(rest) => Ok(asset_views(assets@) + rest),
                Err(e) => Err(e),
            },
        decreases names@.len() - k,
    {
        let name = string_from_chars(names[k].as_slice());
        proof {
            assert(name@ == nv[k as int]);
        }
        let bytes = match zip_read_entry(buf, name.as_str()) {
            Ok(b) => b,
            Err(e) => {
                let mut msg = crate::text::concat2("reading ", name.as_str());
                msg.append(": ");
                msg.append(e.as_str());
                return Err(DocumentExtractionError::ExtractionFailed(msg));
            },
        };
        if bytes.len() > 0 {
            let label_chars = after_last_char(names[k].as_slice(), '/');
            let label = string_from_chars(label_chars.as_slice());
            let content_type = content_type_for(label.as_str());
            let asset = PendingAsset {
                content_type,
                bytes,
                page_number: None,
                label: Some(label),
            };
            proof {
                assert(asset@ == media_asset(nv[k as int], zip_entry_bytes(buf@, nv[k as int])->0));
                assert(asset_views(assets@.push(asset)) =~= asset_views(assets@).push(asset@));
                match media_assets_from(buf@, nv, k + 1) {
                    Ok(rest) => {
                        assert(asset_views(assets@).push(asset@) + rest =~= asset_views(assets@)
                            + (seq![asset@] + rest));
                    },
                    Err(_) => {},
                }
            }
            assets.push(asset);
        }
        k = k + 1;
    }
    proof {
        assert(asset_views(assets@) + Seq::<AssetView>::empty() =~= asset_views(assets@));
    }
    Ok(assets)
}

} // verus!
