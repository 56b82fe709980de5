//! Requests to a text-embeddings inference (TEI) service: the request
//! bodies, the endpoint, the error messages, and when a failed request is
//! retried. The HTTP exchange and the vectors themselves stay outside.

use vstd::prelude::*;
use crate::text::{concat2, owned};

verus! {

/// The texts to embed: one, or a batch.
#[derive(Debug, Clone)]
pub enum TeiInput {
    Single(String),
    Multiple(Vec<String>),
}

/// Mathematical view of a [`TeiInput`].
pub enum TeiInputView {
    Single(Seq<char>),
    Multiple(Seq<Seq<char>>),
}

impl View for TeiInput {
    type V = TeiInputView;

    open spec fn view(&self) -> TeiInputView {
        match self {
            TeiInput::Single(s) => TeiInputView::Single(s@),
            TeiInput::Multiple(v) => TeiInputView::Multiple(v@.map_values(|s: String| s@)),
        }
    }
}

/// The body of an `/embed` request.
#[derive(Debug, Clone)]
pub struct TeiEmbedRequest {
    pub inputs: TeiInput,
    pub normalize: Option<bool>,
    pub truncate: Option<bool>,
    pub truncation_direction: Option<String>,
    pub prompt_name: Option<String>,
    pub dimensions: Option<u32>,
}

/// The body of an error answer of the service.
#[derive(Debug, Clone)]
pub struct TeiErrorResponse {
    pub error: String,
    pub error_type: String,
}

/// Why an embeddings request failed.
#[derive(Debug)]
pub enum EmbeddingsError {
    /// The request could not be sent or answered.
    RequestError(String),
    /// The answer could not be read.
    ParseError(String),
    /// The service answered with an error.
    ApiError(String),
}

/// The request options every request carries: normalized vectors, and an
/// error rather than truncation of long inputs.
pub open spec fn standard_options(r: TeiEmbedRequest) -> bool {
    &&& r.normalize == Some(true)
    &&& r.truncate == Some(false)
    &&& r.truncation_direction is None
    &&& r.prompt_name is None
    &&& r.dimensions is None
}

impl TeiEmbedRequest {
    /// The request for the embedding of one text.
    pub fn single(text: &str) -> (r: Self)
        ensures
            r.inputs@ == TeiInputView::Single(text@),
            standard_options(r),
    {
        TeiEmbedRequest {
            inputs: TeiInput::Single(owned(text)),
            normalize: Some(true),
            truncate: Some(false),
            truncation_direction: None,
            prompt_name: None,
            dimensions: None,
        }
    }

    /// The request for the embeddings of a batch of texts, in order.
    pub fn batch(texts: &Vec<String>) -> (r: Self)
        ensures
            r.inputs@ == TeiInputView::Multiple(texts@.map_values(|s: String| s@)),
            standard_options(r),
    {
        let mut v: Vec<String> = Vec::new();
        let mut k: usize = 0;
        while k < texts.len()
            invariant
                k <= texts@.len(),
                v@.map_values(|s: String| s@) == texts@.take(k as int).map_values(|s: String| s@),
            decreases texts@.len() - k,
        {
            let ghost before = v@;
            v.push(texts[k].clone());
            proof {
                assert(v@.map_values(|s: String| s@) =~= before.map_values(|s: String| s@).push(texts@[k as int]@));
                assert(texts@.take(k + 1).map_values(|s: String| s@) =~= texts@.take(k as int).map_values(
                    |s: String| s@,
                ).push(texts@[k as int]@));
            }
            k = k + 1;
        }
        proof {
            assert(texts@.take(texts@.len() as int) =~= texts@);
        }
        TeiEmbedRequest {
            inputs: TeiInput::Multiple(v),
            normalize: Some(true),
            truncate: Some(false),
            truncation_direction: None,
            prompt_name: None,
            dimensions: None,
        }
    }
}

impl TeiErrorResponse {
    /// The error reported for an error answer:
    /// `TEI API error: {error} (type: {error_type})`.
    pub fn to_error(&self) -> (e: EmbeddingsError)
        ensures
            e matches EmbeddingsError::ApiError(m) && m@ == "TEI API error: "@ + self.error@ + " (type: "@
                + self.error_type@ + ")"@,
    {
        let mut m = concat2("TEI API error: ", self.error.as_str());
        m.append(" (type: ");
        m.append(self.error_type.as_str());
        m.append(")");
        EmbeddingsError::ApiError(m)
    }
}

/// The error reported for an unsuccessful answer whose body is not an error
/// description: `HTTP error: {status}`.
pub fn http_status_error(status: &str) -> (e: EmbeddingsError)
    ensures
        e matches EmbeddingsError::ApiError(m) && m@ == "HTTP error: "@ + status@,
{
    EmbeddingsError::ApiError(concat2("HTTP error: ", status))
}

/// The embedding endpoint of a service: `{service_url}/embed`.
pub fn embed_url(service_url: &str) -> (r: String)
    ensures
        r@ == service_url@ + "/embed"@,
{
    concat2(service_url, "/embed")
}

/// What to do after a failed attempt.
#[derive(Debug, Clone, Copy, PartialEq, Eq, Structural)]
pub enum RetryStep {
    /// Report the failure.
    GiveUp,
    /// Wait `backoff_factor ^ exponent` seconds, then try again.
    Retry { exponent: u32 },
}

/// After the `attempts`-th failed attempt: give up once more than
/// `max_retries` attempts failed, else wait with the exponent
/// `attempts - 1` and try again. So a request is tried at most
/// `max_retries + 1` times.
pub fn after_failed_attempt(attempts: u32, max_retries: u32) -> (s: RetryStep)
    requires
        attempts >= 1,
    ensures
        attempts > max_retries ==> s == RetryStep::GiveUp,
        attempts <= max_retries ==> s == (RetryStep::Retry { exponent: (attempts - 1) as u32 }),
{
    if attempts > max_retries {
        RetryStep::GiveUp
    } else {
        RetryStep::Retry { exponent: attempts - 1 }
    }
}

/// The model behind the embeddings and its version.
pub fn model_info() -> (r: (String, Option<String>))
    ensures
        r.0@ == "Qwen/Qwen3-Embedding-0.6B"@,
        r.1 matches Some(v) && v@ == "0.6B"@,
{
    (owned("Qwen/Qwen3-Embedding-0.6B"), Some(owned("0.6B")))
}

/// The model name reported for a batch: the requested one, by default
/// `qwen-embedding`.
pub fn batch_model_name(requested: Option<String>) -> (r: String)
    ensures
        match requested {
            Some(n) => r@ == n@,
            None => r@ == "qwen-embedding"@,
        },
{
    match requested {
        Some(n) => n,
        None => owned("qwen-embedding"),
    }
}

} // verus!
