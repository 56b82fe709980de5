//! HTML sources. Fetching and rendering the page happens outside the
//! library; here the extractor decides which inputs it takes and turns the
//! submitted bytes into the address it will fetch.

use vstd::prelude::*;
use vstd::utf8::decode_utf8;
use vstd::utf8::valid_utf8;
use crate::extraction::ooxml_media::DocumentExtractionErrorView;
use crate::extraction::youtube_extractor::{parse_url, url_parse, url_parse_error};
use crate::extraction::pptx_extractor::doc_result_view;
use crate::extraction::{AssetView, DocView, DocumentExtractionError, ExtractedDocument, PageView};
use crate::text::{concat2, lowercase, owned, str_eq, to_lowercase, utf8_decode, utf8_error_text};

verus! {

/// Extractor for HTML pages.
pub struct HtmlExtractor;

/// The (lowercased) MIME types the HTML extractor answers to.
pub open spec fn is_html_type(lowered: Seq<char>) -> bool {
    lowered == "text/html"@ || lowered == "application/html"@ || lowered == "text/htm"@
}

/// The exact MIME types the HTML extractor takes as bytes.
pub open spec fn is_html_bytes_type(file_type: Seq<char>) -> bool {
    file_type == "text/html"@ || file_type == "application/html"@
}

/// The content submitted as bytes declared as `file_type`, decoded.
pub open spec fn html_content_spec(data: Seq<u8>, file_type: Seq<char>) -> Result<
    Seq<char>,
    DocumentExtractionErrorView,
> {
    if !is_html_bytes_type(file_type) {
        Err(DocumentExtractionErrorView::UnsupportedFormat(file_type))
    } else if !valid_utf8(data) {
        Err(DocumentExtractionErrorView::ExtractionFailed("Invalid UTF-8: "@ + utf8_error_text(data)))
    } else {
        Ok(decode_utf8(data))
    }
}

/// The address the HTML extractor fetches for `content`: the content
/// itself, once it parses as a URL.
pub open spec fn html_address_spec(content: Seq<char>) -> Result<Seq<char>, DocumentExtractionErrorView> {
    match url_parse(content) {
        None => Err(DocumentExtractionErrorView::ExtractionFailed("Invalid URL: "@ + url_parse_error(content))),
        Some(_) => Ok(content),
    }
}

impl HtmlExtractor {
    pub fn new() -> (e: Self) {
        HtmlExtractor
    }

    pub fn can_extract(&self, file_type: &str) -> (b: bool)
        ensures
            b == is_html_type(lowercase(file_type@)),
    {
        let lowered = to_lowercase(file_type);
        let l = lowered.as_str();
        str_eq(l, "text/html") || str_eq(l, "application/html") || str_eq(l, "text/htm")
    }

    /// The content submitted as bytes, checked and decoded; this text is
    /// what the extractor then fetches and renders.
    pub fn content_from_bytes(&self, data: &[u8], file_type: &str) -> (r: Result<
        String,
        DocumentExtractionError,
    >)
        ensures
            match r {
                Ok(s) => html_content_spec(data@, file_type@) == Ok::<Seq<char>, DocumentExtractionErrorView>(s@),
                Err(e) => html_content_spec(data@, file_type@) == Err::<Seq<char>, DocumentExtractionErrorView>(e@),
            },
    {
        if !str_eq(file_type, "text/html") && !str_eq(file_type, "application/html") {
            return Err(DocumentExtractionError::UnsupportedFormat(file_type.to_owned()));
        }
        match utf8_decode(data) {
            Ok(text) => Ok(text),
            Err(e) => Err(
                DocumentExtractionError::ExtractionFailed(concat2("Invalid UTF-8: ", e.as_str())),
            ),
        }
    }
}

/// Column width the rendered text is wrapped to.
pub const HTML_TEXT_WIDTH: usize = 80;

/// The plain text `html2text` renders for `html` wrapped at `width`
/// columns, or `None` when rendering fails.
pub uninterp spec fn html_rendering(html: Seq<char>, width: usize) -> Option<Seq<char>>;

/// The text of the error `html2text` reports when rendering fails.
pub uninterp spec fn html_render_error(html: Seq<char>, width: usize) -> Seq<char>;

/// `html2text::from_read` over the bytes of `html`. The text is named
/// `html_rendering(html@, width)`, the error text `html_render_error`.
/// The renderer's hash maps and sets are only looked up, never walked, so
/// its output depends on its arguments alone. Its `unwrap`s hold on every
/// input: a table's column sizes are set on each row before its cells are
/// taken apart, the column map holds every position a cell can reach once
/// `colspan="0"` has been replaced, and heading levels come from the tag
/// names `h1` to `h6`. Left unsaid, and no input left out for it: in builds
/// that check integer overflow, colspans whose sum passes `usize::MAX`
/// panic (release builds wrap, consistently); and nesting deep enough to
/// exhaust the stack depends on the machine.
#[verifier::external_body]
fn render_html(html: &str, width: usize) -> (r: Result<String, String>)
    ensures
        match r {
            Ok(t) => html_rendering(html@, width) == Some(t@),
            Err(m) => html_rendering(html@, width) is None && m@ == html_render_error(html@, width),
        },
{
    html2text::from_read(html.as_bytes(), width).map_err(|e| e.to_string())
}

/// The document made of a fetched HTML page: its rendered text only.
pub open spec fn html_document_spec(html: Seq<char>) -> Result<DocView, DocumentExtractionErrorView> {
    match html_rendering(html, HTML_TEXT_WIDTH) {
        Some(t) => Ok(DocView { full_text: t, pages: Seq::empty(), assets: Seq::empty() }),
        None => Err(
            DocumentExtractionErrorView::ExtractionFailed(
                "Failed to convert HTML to text: "@ + html_render_error(html, HTML_TEXT_WIDTH),
            ),
        ),
    }
}

impl HtmlExtractor {
    /// The document of a fetched HTML page: the page rendered as plain text
    /// wrapped at [`HTML_TEXT_WIDTH`] columns, without pages or assets.
    pub fn document_from_html(&self, html: &str) -> (r: Result<ExtractedDocument, DocumentExtractionError>)
        ensures
            doc_result_view(r) == html_document_spec(html@),
    {
        match render_html(html, HTML_TEXT_WIDTH) {
            Ok(t) => {
                let d = ExtractedDocument::text_only(t);
                proof {
                    assert(d@.pages =~= Seq::<PageView>::empty());
                    assert(d@.assets =~= Seq::<AssetView>::empty());
                }
                Ok(d)
            },
            Err(e) => Err(
                DocumentExtractionError::ExtractionFailed(
                    concat2("Failed to convert HTML to text: ", e.as_str()),
                ),
            ),
        }
    }

    /// Checks that `content` is a URL before it is fetched.
    pub fn page_address(&self, content: &str) -> (r: Result<String, DocumentExtractionError>)
        ensures
            match r {
                Ok(s) => html_address_spec(content@) == Ok::<Seq<char>, DocumentExtractionErrorView>(s@),
                Err(e) => html_address_spec(content@) == Err::<Seq<char>, DocumentExtractionErrorView>(e@),
            },
    {
        match parse_url(content) {
            Ok(_) => Ok(owned(content)),
            Err(e) => Err(DocumentExtractionError::ExtractionFailed(concat2("Invalid URL: ", e.as_str()))),
        }
    }
}

impl Default for HtmlExtractor {
    fn default() -> (e: Self) {
        HtmlExtractor
    }
}

} // verus!
