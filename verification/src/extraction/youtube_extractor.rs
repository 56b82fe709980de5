//! YouTube transcripts. Fetching the transcript happens outside the
//! library; here the extractor decides which inputs it takes, turns the
//! submitted bytes into a URL and finds the video id in it.

use vstd::prelude::*;
use vstd::utf8::decode_utf8;
use vstd::utf8::valid_utf8;
use crate::extraction::ooxml_media::DocumentExtractionErrorView;
use crate::chunking::string_views;
use crate::extraction::pptx_extractor::doc_result_view;
use crate::extraction::{AssetView, DocView, DocumentExtractionError, ExtractedDocument, PageView};
use crate::text::{
    chars_of, concat2, join, join_strings, lowercase, owned, str_eq, string_from_chars, to_lowercase, trim_chars,
    trim_ws, utf8_decode, utf8_error_text,
};

verus! {

/// The parts of a parsed URL that video-id extraction reads.
pub struct UrlParts {
    /// Host name, when the URL has one.
    pub host: Option<String>,
    /// Percent-decoded `key=value` pairs of the query, in order.
    pub query_pairs: Vec<(String, String)>,
    /// Path segments, when the URL can have a path.
    pub path_segments: Option<Vec<String>>,
}

/// Mathematical view of [`UrlParts`].
pub struct UrlPartsView {
    pub host: Option<Seq<char>>,
    pub query_pairs: Seq<(Seq<char>, Seq<char>)>,
    pub path_segments: Option<Seq<Seq<char>>>,
}

impl View for UrlParts {
    type V = UrlPartsView;

    open spec fn view(&self) -> UrlPartsView {
        UrlPartsView {
            host: crate::extraction::opt_view(self.host),
            query_pairs: self.query_pairs@.map_values(|p: (String, String)| (p.0@, p.1@)),
            path_segments: match self.path_segments {
                Some(v) => Some(v@.map_values(|s: String| s@)),
                None => None,
            },
        }
    }
}

/// What `url::Url::parse` makes of a string: its host, query pairs and
/// path segments, or `None` when it is not a URL.
pub uninterp spec fn url_parse(s: Seq<char>) -> Option<UrlPartsView>;

/// The text of the error `url::Url::parse` reports for `s`.
pub uninterp spec fn url_parse_error(s: Seq<char>) -> Seq<char>;

/// `url::Url::parse` followed by `host_str`, `query_pairs` and
/// `path_segments`. The parts are named `url_parse(s@)` and the error text
/// `url_parse_error(s@)`; the WHATWG parsing rules are not restated.
#[verifier::external_body]
pub(crate) fn parse_url(s: &str) -> (r: Result<UrlParts, String>)
    ensures
        match r {
            Ok(p) => url_parse(s@) == Some(p@),
            Err(m) => url_parse(s@) is None && m@ == url_parse_error(s@),
        },
{
    let u = url::Url::parse(s).map_err(|e| e.to_string())?;
    Ok(UrlParts {
        host: u.host_str().map(|h| h.to_string()),
        query_pairs: u.query_pairs().map(|(k, v)| (k.into_owned(), v.into_owned())).collect(),
        path_segments: u.path_segments().map(|p| p.map(|x| x.to_string()).collect()),
    })
}

/// Extractor for YouTube video transcripts.
pub struct YoutubeExtractor;

/// The (lowercased) MIME types the YouTube extractor answers to.
pub open spec fn is_youtube_type(lowered: Seq<char>) -> bool {
    lowered == "text/youtube-url"@ || lowered == "text/youtube-transcript"@ || lowered
        == "application/youtube"@
}

/// The exact MIME types the YouTube extractor takes as bytes.
pub open spec fn is_youtube_bytes_type(file_type: Seq<char>) -> bool {
    file_type == "text/youtube-url"@ || file_type == "text/youtube-transcript"@ || file_type
        == "text/plain"@
}

/// Index of the first query pair whose key is `v`.
pub open spec fn first_v_pair(pairs: Seq<(Seq<char>, Seq<char>)>) -> Option<int>
    decreases pairs.len(),
{
    if pairs.len() == 0 {
        None
    } else if pairs[0].0 == "v"@ {
        Some(0)
    } else {
        match first_v_pair(pairs.drop_first()) {
            Some(i) => Some(i + 1),
            None => None,
        }
    }
}

/// The video id found in a parsed URL, or the message explaining why none is.
pub open spec fn video_id_of(p: UrlPartsView) -> Result<Seq<char>, Seq<char>> {
    if p.host == Some("www.youtube.com"@) || p.host == Some("youtube.com"@) {
        match first_v_pair(p.query_pairs) {
            Some(i) => Ok(p.query_pairs[i].1),
            None => Err("Could not extract video ID from YouTube URL"@),
        }
    } else if p.host == Some("youtu.be"@) {
        match p.path_segments {
            Some(segs) => if segs.len() > 0 {
                Ok(segs.last())
            } else {
                Err("Could not extract video ID from short YouTube URL"@)
            },
            None => Err("Could not extract video ID from short YouTube URL"@),
        }
    } else {
        Err("Not a valid YouTube URL"@)
    }
}

/// The URL submitted as bytes declared as `file_type`: decoded and trimmed.
pub open spec fn youtube_url_spec(data: Seq<u8>, file_type: Seq<char>) -> Result<
    Seq<char>,
    DocumentExtractionErrorView,
> {
    if !is_youtube_bytes_type(file_type) {
        Err(DocumentExtractionErrorView::UnsupportedFormat(file_type))
    } else if !valid_utf8(data) {
        Err(DocumentExtractionErrorView::ExtractionFailed("Invalid UTF-8: "@ + utf8_error_text(data)))
    } else {
        Ok(trim_ws(decode_utf8(data)))
    }
}

/// The document made of a video's transcript lines: their text joined by
/// newlines; an error when there are none.
pub open spec fn transcript_document_spec(lines: Seq<Seq<char>>) -> Result<DocView, DocumentExtractionErrorView> {
    if lines.len() == 0 {
        Err(DocumentExtractionErrorView::ExtractionFailed("Video has no available transcripts"@))
    } else {
        Ok(DocView { full_text: join(lines, "\n"@), pages: Seq::empty(), assets: Seq::empty() })
    }
}

impl YoutubeExtractor {
    /// The document of a fetched transcript, given one line per snippet
    /// (`[start-end s] text`).
    pub fn transcript_document(&self, lines: &Vec<String>) -> (r: Result<
        ExtractedDocument,
        DocumentExtractionError,
    >)
        ensures
            doc_result_view(r) == transcript_document_spec(string_views(lines@)),
    {
        if lines.len() == 0 {
            return Err(
                DocumentExtractionError::ExtractionFailed(owned("Video has no available transcripts")),
            );
        }
        let text = join_strings(lines, "\n");
        let d = ExtractedDocument::text_only(text);
        proof {
            assert(lines@.map_values(|p: String| p@) =~= string_views(lines@));
            assert(d@.pages =~= Seq::<PageView>::empty());
            assert(d@.assets =~= Seq::<AssetView>::empty());
        }
        Ok(d)
    }

    pub fn new() -> (e: Self) {
        YoutubeExtractor
    }

    pub fn can_extract(&self, file_type: &str) -> (b: bool)
        ensures
            b == is_youtube_type(lowercase(file_type@)),
    {
        let lowered = to_lowercase(file_type);
        let l = lowered.as_str();
        str_eq(l, "text/youtube-url") || str_eq(l, "text/youtube-transcript") || str_eq(
            l,
            "application/youtube",
        )
    }

    /// The video URL submitted as bytes: type-checked, decoded and trimmed.
    pub fn url_from_bytes(&self, data: &[u8], file_type: &str) -> (r: Result<
        String,
        DocumentExtractionError,
    >)
        ensures
            match r {
                Ok(s) => youtube_url_spec(data@, file_type@) == Ok::<Seq<char>, DocumentExtractionErrorView>(s@),
                Err(e) => youtube_url_spec(data@, file_type@) == Err::<Seq<char>, DocumentExtractionErrorView>(e@),
            },
    {
        if !str_eq(file_type, "text/youtube-url") && !str_eq(file_type, "text/youtube-transcript")
            && !str_eq(file_type, "text/plain") {
            return Err(DocumentExtractionError::UnsupportedFormat(file_type.to_owned()));
        }
        match utf8_decode(data) {
            Ok(text) => {
                let chars = chars_of(text.as_str());
                let trimmed = trim_chars(chars.as_slice());
                Ok(string_from_chars(trimmed.as_slice()))
            },
            Err(e) => Err(
                DocumentExtractionError::ExtractionFailed(concat2("Invalid UTF-8: ", e.as_str())),
            ),
        }
    }

    /// The video id carried by a parsed YouTube URL.
    pub fn extract_video_id(&self, url: &UrlParts) -> (r: Result<String, DocumentExtractionError>)
        ensures
            match video_id_of(url@) {
                Ok(id) => r matches Ok(s) && s@ == id,
                Err(msg) => r matches Err(DocumentExtractionError::ExtractionFailed(m)) && m@
                    == msg,
            },
    {
        let short_msg = "Could not extract video ID from short YouTube URL";
        match &url.host {
            Some(h) => {
                if str_eq(h.as_str(), "www.youtube.com") || str_eq(h.as_str(), "youtube.com") {
                    let mut i: usize = 0;
                    proof {
                        assert(url@.query_pairs.subrange(0, url@.query_pairs.len() as int)
                            =~= url@.query_pairs);
                    }
                    while i < url.query_pairs.len()
                        invariant
                            url@.host == Some(h@),
                            h@ == "www.youtube.com"@ || h@ == "youtube.com"@,
                            i <= url.query_pairs@.len(),
                            url@.query_pairs.len() == url.query_pairs@.len(),
                            forall|j: int| 0 <= j < i ==> url@.query_pairs[j].0 != "v"@,
                            first_v_pair(url@.query_pairs) == match first_v_pair(
                                url@.query_pairs.subrange(i as int, url@.query_pairs.len() as int),
                            ) {
                                Some(k) => Some(k + i),
                                None => None,
                            },
                        decreases url.query_pairs@.len() - i,
                    {
                        let ghost rest = url@.query_pairs.subrange(
                            i as int,
                            url@.query_pairs.len() as int,
                        );
                        proof {
                            assert(rest[0] == url@.query_pairs[i as int]);
                        }
                        if str_eq(url.query_pairs[i].0.as_str(), "v") {
                            proof {
                                assert(url@.query_pairs[i as int] == (
                                    url.query_pairs@[i as int].0@,
                                    url.query_pairs@[i as int].1@,
                                ));
                                assert(first_v_pair(rest) == Some(0int));
                                assert(first_v_pair(url@.query_pairs) == Some(i as int));
                            }
                            return Ok(url.query_pairs[i].1.clone());
                        }
                        proof {
                            assert(rest.drop_first() =~= url@.query_pairs.subrange(
                                i + 1,
                                url@.query_pairs.len() as int,
                            ));
                        }
                        i = i + 1;
                    }
                    proof {
                        assert(url@.query_pairs.subrange(i as int, url@.query_pairs.len() as int)
                            =~= Seq::<(Seq<char>, Seq<char>)>::empty());
                    }
                    return Err(
                        DocumentExtractionError::ExtractionFailed(
                            owned("Could not extract video ID from YouTube URL"),
                        ),
                    );
                }
                if str_eq(h.as_str(), "youtu.be") {
                    match &url.path_segments {
                        Some(segs) => {
                            if segs.len() > 0 {
                                return Ok(segs[segs.len() - 1].clone());
                            }
                            return Err(DocumentExtractionError::ExtractionFailed(owned(short_msg)));
                        },
                        None => {
                            return Err(DocumentExtractionError::ExtractionFailed(owned(short_msg)));
                        },
                    }
                }
                Err(DocumentExtractionError::ExtractionFailed(owned("Not a valid YouTube URL")))
            },
            None => Err(DocumentExtractionError::ExtractionFailed(owned("Not a valid YouTube URL"))),
        }
    }

    /// The video id of a URL given as text.
    pub fn video_id_from_url(&self, youtube_url: &str) -> (r: Result<String, DocumentExtractionError>)
        ensures
            match url_parse(youtube_url@) {
                None => r matches Err(DocumentExtractionError::ExtractionFailed(m)) && m@
                    == "Invalid YouTube URL: "@ + url_parse_error(youtube_url@),
                Some(p) => match video_id_of(p) {
                    Ok(id) => r matches Ok(s) && s@ == id,
                    Err(msg) => r matches Err(DocumentExtractionError::ExtractionFailed(m)) && m@
                        == msg,
                },
            },
    {
        match parse_url(youtube_url) {
            Ok(parts) => self.extract_video_id(&parts),
            Err(e) => Err(
                DocumentExtractionError::ExtractionFailed(
                    concat2("Invalid YouTube URL: ", e.as_str()),
                ),
            ),
        }
    }
}

} // verus!
