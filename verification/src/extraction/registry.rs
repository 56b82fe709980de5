//! Dispatch over the extractors: the first registered extractor that takes
//! a MIME type handles it.

use vstd::prelude::*;
use vstd::utf8::decode_utf8;
use crate::extraction::docx_extractor::{docx_checked_document_spec, DocxExtractor, DOCX_MIME};
use crate::extraction::html_extractor::{html_address_spec, html_content_spec, is_html_type, HtmlExtractor};
use crate::extraction::ooxml_media::DocumentExtractionErrorView;
use crate::extraction::pdf_extractor::{pdf_checked_document_spec, PdfExtractor, PDF_MIME};
use crate::extraction::pptx_extractor::{pptx_document_spec, PptxExtractor, PPTX_MIME};
use crate::extraction::text_extractor::{is_plain_text_type, text_document_spec, TextExtractor};
use crate::extraction::youtube_extractor::{
    is_youtube_type, url_parse, url_parse_error, video_id_of, youtube_url_spec, YoutubeExtractor,
};
use crate::extraction::{DocView, DocumentExtractionError, ExtractedDocument, ExtractionOptions};
use crate::text::lowercase;

verus! {

/// One of the extractors the registry can hold.
pub enum Extractor {
    Html(HtmlExtractor),
    Pdf(PdfExtractor),
    Youtube(YoutubeExtractor),
    Docx(DocxExtractor),
    Pptx(PptxExtractor),
    Text(TextExtractor),
}

/// Whether extractor `e` takes the MIME type `file_type`.
pub open spec fn accepts(e: Extractor, file_type: Seq<char>) -> bool {
    let lowered = lowercase(file_type);
    match e {
        Extractor::Html(_) => is_html_type(lowered),
        Extractor::Pdf(_) => lowered == PDF_MIME@,
        Extractor::Youtube(_) => is_youtube_type(lowered),
        Extractor::Docx(_) => lowered == DOCX_MIME@,
        Extractor::Pptx(_) => lowered == PPTX_MIME@,
        Extractor::Text(_) => is_plain_text_type(lowered),
    }
}

impl Extractor {
    /// Whether this extractor takes the MIME type `file_type`.
    pub fn can_extract(&self, file_type: &str) -> (b: bool)
        ensures
            b == accepts(*self, file_type@),
    {
        match self {
            Extractor::Html(e) => e.can_extract(file_type),
            Extractor::Pdf(e) => e.can_extract(file_type),
            Extractor::Youtube(e) => e.can_extract(file_type),
            Extractor::Docx(e) => e.can_extract(file_type),
            Extractor::Pptx(e) => e.can_extract(file_type),
            Extractor::Text(e) => e.can_extract(file_type),
        }
    }
}

/// What extracting bytes leads to: a document, or the page or transcript
/// that still has to be fetched.
pub enum BytesExtraction {
    /// The document, read from the bytes alone.
    Document(ExtractedDocument),
    /// An HTML page to fetch from this address and render.
    FetchPage(String),
    /// A YouTube transcript to fetch for this URL and video id.
    FetchTranscript { url: String, video_id: String },
}

/// Mathematical view of a [`BytesExtraction`].
pub enum BytesExtractionView {
    Document(DocView),
    FetchPage(Seq<char>),
    FetchTranscript { url: Seq<char>, video_id: Seq<char> },
}

impl View for BytesExtraction {
    type V = BytesExtractionView;

    open spec fn view(&self) -> BytesExtractionView {
        match self {
            BytesExtraction::Document(d) => BytesExtractionView::Document(d@),
            BytesExtraction::FetchPage(a) => BytesExtractionView::FetchPage(a@),
            BytesExtraction::FetchTranscript { url, video_id } => BytesExtractionView::FetchTranscript {
                url: url@,
                video_id: video_id@,
            },
        }
    }
}

pub open spec fn outcome_view(r: Result<BytesExtraction, DocumentExtractionError>) -> Result<
    BytesExtractionView,
    DocumentExtractionErrorView,
> {
    match r {
        Ok(o) => Ok(o@),
        Err(e) => Err(e@),
    }
}

pub open spec fn as_document(r: Result<DocView, DocumentExtractionErrorView>) -> Result<
    BytesExtractionView,
    DocumentExtractionErrorView,
> {
    match r {
        Ok(d) => Ok(BytesExtractionView::Document(d)),
        Err(e) => Err(e),
    }
}

/// The document of an office package whose type must be `mime`.
pub open spec fn typed_package_spec(
    file_type: Seq<char>,
    mime: Seq<char>,
    doc: Result<DocView, DocumentExtractionErrorView>,
) -> Result<BytesExtractionView, DocumentExtractionErrorView> {
    if lowercase(file_type) != mime {
        Err(DocumentExtractionErrorView::UnsupportedFormat(file_type))
    } else {
        as_document(doc)
    }
}

/// What extractor `e` makes of the bytes `data` declared as `file_type`.
pub open spec fn extraction_spec(e: Extractor, data: Seq<u8>, file_type: Seq<char>, options: ExtractionOptions) -> Result<
    BytesExtractionView,
    DocumentExtractionErrorView,
> {
    match e {
        Extractor::Pdf(p) => as_document(pdf_checked_document_spec(data, p.password_spec(), options.max_pages)),
        Extractor::Docx(_) => typed_package_spec(file_type, DOCX_MIME@, docx_checked_document_spec(data)),
        Extractor::Pptx(_) => typed_package_spec(file_type, PPTX_MIME@, pptx_document_spec(data)),
        Extractor::Text(_) => as_document(text_document_spec(data, file_type)),
        Extractor::Html(_) => match html_content_spec(data, file_type) {
            Err(err) => Err(err),
            Ok(content) => match html_address_spec(content) {
                Err(err) => Err(err),
                Ok(a) => Ok(BytesExtractionView::FetchPage(a)),
            },
        },
        Extractor::Youtube(_) => match youtube_url_spec(data, file_type) {
            Err(err) => Err(err),
            Ok(u) => match url_parse(u) {
                None => Err(
                    DocumentExtractionErrorView::ExtractionFailed("Invalid YouTube URL: "@ + url_parse_error(u)),
                ),
                Some(parts) => match video_id_of(parts) {
                    Ok(id) => Ok(BytesExtractionView::FetchTranscript { url: u, video_id: id }),
                    Err(m) => Err(DocumentExtractionErrorView::ExtractionFailed(m)),
                },
            },
        },
    }
}

impl Extractor {
    /// The outcome of handing the bytes `data`, declared as `file_type`, to
    /// this extractor.
    pub fn extract_text_from_bytes(&self, data: &[u8], file_type: &str, options: ExtractionOptions) -> (r: Result<
        BytesExtraction,
        DocumentExtractionError,
    >)
        ensures
            outcome_view(r) == extraction_spec(*self, data@, file_type@, options),
    {
        match self {
            Extractor::Pdf(e) => match e.extract_text_from_bytes(data, file_type, options) {
                Ok(d) => Ok(BytesExtraction::Document(d)),
                Err(err) => Err(err),
            },
            Extractor::Docx(e) => match e.extract_text_from_bytes(data, file_type, options) {
                Ok(d) => Ok(BytesExtraction::Document(d)),
                Err(err) => Err(err),
            },
            Extractor::Pptx(e) => match e.extract_text_from_bytes(data, file_type, options) {
                Ok(d) => Ok(BytesExtraction::Document(d)),
                Err(err) => Err(err),
            },
            Extractor::Text(e) => match e.extract_text_from_bytes(data, file_type, options) {
                Ok(d) => Ok(BytesExtraction::Document(d)),
                Err(err) => Err(err),
            },
            Extractor::Html(e) => {
                let content = match e.content_from_bytes(data, file_type) {
                    Ok(c) => c,
                    Err(err) => {
                        return Err(err);
                    },
                };
                match e.page_address(content.as_str()) {
                    Ok(a) => Ok(BytesExtraction::FetchPage(a)),
                    Err(err) => Err(err),
                }
            },
            Extractor::Youtube(e) => {
                let url = match e.url_from_bytes(data, file_type) {
                    Ok(u) => u,
                    Err(err) => {
                        return Err(err);
                    },
                };
                match e.video_id_from_url(url.as_str()) {
                    Ok(video_id) => Ok(BytesExtraction::FetchTranscript { url, video_id }),
                    Err(err) => Err(err),
                }
            },
        }
    }
}

/// Index of the first extractor among `es[k..]` that takes `file_type`.
pub open spec fn first_accepting(es: Seq<Extractor>, file_type: Seq<char>, k: int) -> Option<int>
    decreases es.len() - k,
{
    if k < 0 || k >= es.len() {
        None
    } else if accepts(es[k], file_type) {
        Some(k)
    } else {
        first_accepting(es, file_type, k + 1)
    }
}

pub proof fn lemma_first_accepting(es: Seq<Extractor>, file_type: Seq<char>, k: int)
    requires
        0 <= k,
    ensures
        match first_accepting(es, file_type, k) {
            Some(i) => k <= i < es.len() && accepts(es[i], file_type) && forall|j: int|
                k <= j < i ==> !accepts(#[trigger] es[j], file_type),
            None => forall|j: int| k <= j < es.len() ==> !accepts(#[trigger] es[j], file_type),
        },
    decreases es.len() - k,
{
    if k < es.len() && !accepts(es[k], file_type) {
        lemma_first_accepting(es, file_type, k + 1);
    }
}

/// The built-in lineup: HTML, PDF (trying the empty password), YouTube,
/// docx, pptx and plain text, in that order.
pub open spec fn default_lineup(es: Seq<Extractor>) -> bool {
    &&& es.len() == 6
    &&& es[0] is Html
    &&& (es[1] matches Extractor::Pdf(p) ==> p.password_spec() == Seq::<char>::empty())
    &&& es[1] is Pdf
    &&& es[2] is Youtube
    &&& es[3] is Docx
    &&& es[4] is Pptx
    &&& es[5] is Text
}

/// Dispatch table of extractors. The first registered extractor that takes
/// a MIME type handles it.
pub struct ExtractorRegistry {
    extractors: Vec<Extractor>,
}

impl ExtractorRegistry {
    /// The registered extractors, in order.
    pub closed spec fn extractors_spec(&self) -> Seq<Extractor> {
        self.extractors@
    }

    pub fn new(extractors: Vec<Extractor>) -> (r: Self)
        ensures
            r.extractors_spec() == extractors@,
    {
        ExtractorRegistry { extractors }
    }

    /// The built-in extractors: HTML, PDF, YouTube, docx, pptx and plain
    /// text, in that order.
    pub fn with_defaults() -> (r: Result<Self, DocumentExtractionError>)
        ensures
            r is Ok,
            r matches Ok(reg) ==> default_lineup(reg.extractors_spec()),
    {
        let mut v: Vec<Extractor> = Vec::new();
        v.push(Extractor::Html(HtmlExtractor::new()));
        v.push(Extractor::Pdf(PdfExtractor::new()));
        v.push(Extractor::Youtube(YoutubeExtractor::new()));
        v.push(Extractor::Docx(DocxExtractor::new()));
        v.push(Extractor::Pptx(PptxExtractor::new()));
        v.push(Extractor::Text(TextExtractor::new()));
        Ok(Self::new(v))
    }

    /// The first registered extractor that takes `file_type`.
    pub fn get_extractor_for_type(&self, file_type: &str) -> (r: Option<&Extractor>)
        ensures
            match first_accepting(self.extractors_spec(), file_type@, 0) {
                Some(i) => r matches Some(e) && *e == self.extractors_spec()[i],
                None => r is None,
            },
    {
        let mut k: usize = 0;
        while k < self.extractors.len()
            invariant
                k <= self.extractors@.len(),
                first_accepting(self.extractors@, file_type@, 0) == first_accepting(
                    self.extractors@,
                    file_type@,
                    k as int,
                ),
            decreases self.extractors@.len() - k,
        {
            if self.extractors[k].can_extract(file_type) {
                return Some(&self.extractors[k]);
            }
            k = k + 1;
        }
        None
    }

    /// Whether some registered extractor takes `file_type`.
    pub fn can_extract(&self, file_type: &str) -> (b: bool)
        ensures
            b == exists|i: int| 0 <= i < self.extractors_spec().len() && accepts(
                #[trigger] self.extractors_spec()[i],
                file_type@,
            ),
    {
        proof {
            lemma_first_accepting(self.extractors@, file_type@, 0);
        }
        self.get_extractor_for_type(file_type).is_some()
    }

    /// Hands the bytes `data`, declared as `file_type`, to the first
    /// extractor that takes that type; `UnsupportedFormat` when none does.
    pub fn extract_text_from_bytes(&self, data: &[u8], file_type: &str, options: ExtractionOptions) -> (r: Result<
        BytesExtraction,
        DocumentExtractionError,
    >)
        ensures
            match first_accepting(self.extractors_spec(), file_type@, 0) {
                Some(i) => outcome_view(r) == extraction_spec(self.extractors_spec()[i], data@, file_type@, options),
                None => r matches Err(DocumentExtractionError::UnsupportedFormat(m)) && m@ == file_type@,
            },
    {
        match self.get_extractor_for_type(file_type) {
            Some(e) => e.extract_text_from_bytes(data, file_type, options),
            None => Err(DocumentExtractionError::UnsupportedFormat(file_type.to_owned())),
        }
    }
}

impl Default for ExtractorRegistry {
    fn default() -> (r: Self)
        ensures
            default_lineup(r.extractors_spec()),
    {
        match Self::with_defaults() {
            Ok(r) => r,
            Err(_) => vstd::pervasive::unreached(),
        }
    }
}

} // verus!
