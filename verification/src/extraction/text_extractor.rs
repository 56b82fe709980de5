//! Plain-text documents: the bytes are the text, decoded as UTF-8.

use vstd::prelude::*;
use vstd::utf8::decode_utf8;
use vstd::utf8::valid_utf8;
use crate::extraction::ooxml_media::DocumentExtractionErrorView;
use crate::extraction::pptx_extractor::doc_result_view;
use crate::extraction::{
    AssetView, DocView, DocumentExtractionError, ExtractedDocument, ExtractionOptions, PageView,
};
use crate::text::{concat2, lowercase, str_eq, to_lowercase, utf8_decode, utf8_error_text};

verus! {

/// Extractor for `text/plain` and its aliases.
pub struct TextExtractor;

/// The (already lowercased) MIME types the text extractor answers to.
pub open spec fn is_plain_text_type(lowered: Seq<char>) -> bool {
    lowered == "text/plain"@ || lowered == "text/txt"@ || lowered == "txt"@ || lowered == "plain"@
}

/// What the text extractor makes of the bytes `data` declared as
/// `file_type`: the decoded text as a document without pages or assets.
pub open spec fn text_document_spec(data: Seq<u8>, file_type: Seq<char>) -> Result<
    DocView,
    DocumentExtractionErrorView,
> {
    if !is_plain_text_type(lowercase(file_type)) {
        Err(DocumentExtractionErrorView::UnsupportedFormat(file_type))
    } else if !valid_utf8(data) {
        Err(DocumentExtractionErrorView::ExtractionFailed("invalid UTF-8: "@ + utf8_error_text(data)))
    } else {
        Ok(DocView { full_text: decode_utf8(data), pages: Seq::empty(), assets: Seq::empty() })
    }
}

impl TextExtractor {
    pub fn new() -> (e: Self) {
        TextExtractor
    }

    /// Whether a lowercased MIME type names plain text.
    pub fn plain_text_type(lowered: &str) -> (b: bool)
        ensures
            b == is_plain_text_type(lowered@),
    {
        str_eq(lowered, "text/plain") || str_eq(lowered, "text/txt") || str_eq(lowered, "txt")
            || str_eq(lowered, "plain")
    }

    /// Whether `file_type` (in any letter case) names plain text.
    pub fn can_extract_str(file_type: &str) -> (b: bool)
        ensures
            b == is_plain_text_type(lowercase(file_type@)),
    {
        let lowered = to_lowercase(file_type);
        Self::plain_text_type(lowered.as_str())
    }

    pub fn can_extract(&self, file_type: &str) -> (b: bool)
        ensures
            b == is_plain_text_type(lowercase(file_type@)),
    {
        Self::can_extract_str(file_type)
    }

    /// The text of a plain-text document given as bytes.
    pub fn extract_text_from_bytes(
        &self,
        data: &[u8],
        file_type: &str,
        _options: ExtractionOptions,
    ) -> (r: Result<ExtractedDocument, DocumentExtractionError>)
        ensures
            doc_result_view(r) == text_document_spec(data@, file_type@),
    {
        if !Self::can_extract_str(file_type) {
            return Err(DocumentExtractionError::UnsupportedFormat(file_type.to_owned()));
        }
        match utf8_decode(data) {
            Ok(text) => {
                let d = ExtractedDocument::text_only(text);
                proof {
                    assert(d@.pages =~= Seq::<PageView>::empty());
                    assert(d@.assets =~= Seq::<AssetView>::empty());
                }
                Ok(d)
            },
            Err(e) => Err(
                DocumentExtractionError::ExtractionFailed(concat2("invalid UTF-8: ", e.as_str())),
            ),
        }
    }
}

impl Default for TextExtractor {
    fn default() -> (e: Self) {
        TextExtractor
    }
}

} // verus!
