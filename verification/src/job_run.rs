//! The course of one processing job, as a state machine: from the job's
//! state and what the last action came to, the next state and the next
//! action. Whoever runs a job performs the actions (storage, extraction,
//! embedding) and feeds their outcomes back as events.

use vstd::prelude::*;
use crate::chunking::{chunk_drafts_spec, draft_views, ChunkDraft, RTSplitter};
use crate::jobs::{opt_str_view, JobWork};
use crate::numbers::{parse_unsigned, parse_unsigned_chars};
use crate::storage::{uuid_text, uuid_text_spec};
use crate::text::{chars_of, concat2, trim_chars, trim_ws};

verus! {

/// What a finished job is recorded with.
#[derive(Debug, Clone, Copy, PartialEq, Eq, Structural)]
pub struct JobCounts {
    pub chunks_created: usize,
    pub embeddings_created: usize,
    pub assets_created: usize,
    pub extracted_text_length: usize,
}

/// How a job ends.
#[derive(Debug, Clone)]
pub enum JobOutcome {
    Completed(JobCounts),
    /// Failed, with the cause recorded on the job and its file.
    Failed(String),
}

/// What to do next for a job.
#[derive(Debug)]
pub enum JobAction {
    /// Move the job to processing and store it.
    Start,
    /// Move the job's file to processing.
    MarkFileProcessing,
    /// Record the job's progress (in percent) with a message, and store it.
    ReportProgress { percent: u32, message: String },
    /// Wait before going on.
    Pause { millis: u64 },
    /// Look up the job's file.
    FindFile,
    /// Extract, chunk and embed the job's file.
    ProcessFile,
    /// Hand `data` to the extractors as `file_type`.
    Extract { data: String, file_type: String },
    /// Store these chunks of the job's file.
    SaveChunks(Vec<ChunkDraft>),
    /// Embed the stored chunks.
    GenerateEmbeddings,
    /// Store the embeddings.
    SaveEmbeddings,
    /// Complete or fail the job, give its file the same end, and store
    /// the job.
    Finish(JobOutcome),
    /// Nothing more to do.
    Stop,
}

/// What an action came to.
#[derive(Debug)]
pub enum JobEvent {
    /// The job is handed to a worker.
    Begin,
    /// The job moved to processing and was stored.
    Started,
    /// The job could not move to processing, or could not be stored so.
    NotStarted,
    /// An action whose outcome the job does not look at is done.
    Done,
    FileFound,
    FileMissing,
    FindFailed(String),
    FileProcessed { chunks: usize, embeddings: usize, assets: usize },
    ProcessFailed(String),
    /// The extracted text.
    Extracted(String),
    ExtractFailed(String),
    /// The chunks were stored under this many ids.
    ChunksSaved(usize),
    ChunksSaveFailed(String),
    /// This many embeddings were made.
    EmbeddingsGenerated(usize),
    EmbeddingsFailed(String),
    EmbeddingsSaved,
    EmbeddingsSaveFailed(String),
}

/// Where a job is.
#[derive(Debug)]
pub enum JobRun {
    /// Not started yet.
    Idle { work: JobWork, file_id: [u8; 16] },
    /// Moving to processing.
    Starting { work: JobWork, file_id: [u8; 16] },
    /// Moving its file to processing.
    MarkingFile { work: JobWork, file_id: [u8; 16] },
    /// Recording the first progress of its work.
    Reporting { work: JobWork, file_id: [u8; 16] },
    /// Waiting before looking up its file.
    Pausing { file_id: [u8; 16] },
    FindingFile { file_id: [u8; 16] },
    ProcessingFile,
    Extracting { failure_prefix: String },
    /// Recording progress before chunking the extracted text.
    Chunking { text: String },
    SavingChunks { drafted: usize, text_len: usize },
    /// Recording progress before embedding the stored chunks.
    Embedding { chunks: usize, text_len: usize },
    Generating { chunks: usize, text_len: usize },
    SavingEmbeddings { chunks: usize, embeddings: usize, text_len: usize },
    /// Recording the end of the job.
    Finishing,
    Stopped,
}

/// The failure `prefix` followed by the error `e`.
pub open spec fn failed_with(act: JobAction, prefix: Seq<char>, e: String) -> bool {
    act matches JobAction::Finish(JobOutcome::Failed(m)) && m@ == prefix + e@
}

/// One step of a job whose chunks are made with separators `seps`: the
/// state `next` and the action `act` that follow state `s` on event `e`.
/// An event the state does not expect stops the job.
pub open spec fn job_step_spec(seps: Seq<Seq<char>>, s: JobRun, e: JobEvent, next: JobRun, act: JobAction) -> bool {
    match s {
        JobRun::Idle { work, file_id } => match e {
            JobEvent::Begin => next == (JobRun::Starting { work, file_id }) && act is Start,
            _ => next is Stopped && act is Stop,
        },
        JobRun::Starting { work, file_id } => match e {
            JobEvent::Started => next == (JobRun::MarkingFile { work, file_id }) && act is MarkFileProcessing,
            _ => next is Stopped && act is Stop,
        },
        JobRun::MarkingFile { work, file_id } => match e {
            JobEvent::Done => next == (JobRun::Reporting { work, file_id }) && match work {
                JobWork::ProcessFile => act matches JobAction::ReportProgress { percent, message }
                    && percent == 20 && message@ == "Processing document..."@,
                JobWork::IngestFetched { progress_message, .. } => act matches JobAction::ReportProgress {
                    percent,
                    message,
                } && percent == 10 && message == progress_message,
            },
            _ => next is Stopped && act is Stop,
        },
        JobRun::Reporting { work, file_id } => match e {
            JobEvent::Done => match work {
                JobWork::ProcessFile => next == (JobRun::Pausing { file_id }) && act == (JobAction::Pause {
                    millis: 50,
                }),
                JobWork::IngestFetched { data, file_type, failure_prefix, .. } => next == (
                JobRun::Extracting { failure_prefix }) && act == (JobAction::Extract { data, file_type }),
            },
            _ => next is Stopped && act is Stop,
        },
        JobRun::Pausing { file_id } => match e {
            JobEvent::Done => next == (JobRun::FindingFile { file_id }) && act is FindFile,
            _ => next is Stopped && act is Stop,
        },
        JobRun::FindingFile { file_id } => match e {
            JobEvent::FileFound => next is ProcessingFile && act is ProcessFile,
            JobEvent::FileMissing => next is Finishing && (act matches JobAction::Finish(JobOutcome::Failed(m))
                && m@ == "File not found in database: "@ + uuid_text_spec(file_id@)),
            JobEvent::FindFailed(err) => next is Finishing && failed_with(act, "Failed to find file: "@, err),
            _ => next is Stopped && act is Stop,
        },
        JobRun::ProcessingFile => match e {
            JobEvent::FileProcessed { chunks, embeddings, assets } => next is Finishing && act == (
            JobAction::Finish(
                JobOutcome::Completed(
                    JobCounts {
                        chunks_created: chunks,
                        embeddings_created: embeddings,
                        assets_created: assets,
                        extracted_text_length: 0,
                    },
                ),
            )),
            JobEvent::ProcessFailed(err) => next is Finishing && failed_with(act, "Document processing failed: "@, err),
            _ => next is Stopped && act is Stop,
        },
        JobRun::Extracting { failure_prefix } => match e {
            JobEvent::Extracted(text) => next == (JobRun::Chunking { text }) && (act matches JobAction::ReportProgress {
                percent,
                message,
            } && percent == 30 && message@ == "Creating chunks..."@),
            JobEvent::ExtractFailed(err) => next is Finishing && failed_with(act, failure_prefix@, err),
            _ => next is Stopped && act is Stop,
        },
        JobRun::Chunking { text } => match e {
            JobEvent::Done => act matches JobAction::SaveChunks(d) && draft_views(d@) == chunk_drafts_spec(seps, text@)
                && next == (JobRun::SavingChunks {
                drafted: d.len(),
                text_len: (crate::text::byte_len(text@) as usize),
            }),
            _ => next is Stopped && act is Stop,
        },
        JobRun::SavingChunks { drafted, text_len } => match e {
            JobEvent::ChunksSaved(ids) => next == (JobRun::Embedding {
                chunks: if ids < drafted {
                    ids
                } else {
                    drafted
                },
                text_len,
            }) && (act matches JobAction::ReportProgress { percent, message } && percent == 60 && message@
                == "Generating embeddings..."@),
            JobEvent::ChunksSaveFailed(err) => next is Finishing && failed_with(act, "Failed to save chunks: "@, err),
            _ => next is Stopped && act is Stop,
        },
        JobRun::Embedding { chunks, text_len } => match e {
            JobEvent::Done => next == (JobRun::Generating { chunks, text_len }) && act is GenerateEmbeddings,
            _ => next is Stopped && act is Stop,
        },
        JobRun::Generating { chunks, text_len } => match e {
            JobEvent::EmbeddingsGenerated(embeddings) => next == (JobRun::SavingEmbeddings {
                chunks,
                embeddings,
                text_len,
            }) && act is SaveEmbeddings,
            JobEvent::EmbeddingsFailed(err) => next is Finishing && failed_with(act, "Embedding generation failed: "@, err),
            _ => next is Stopped && act is Stop,
        },
        JobRun::SavingEmbeddings { chunks, embeddings, text_len } => match e {
            JobEvent::EmbeddingsSaved => next is Finishing && act == (JobAction::Finish(
                JobOutcome::Completed(
                    JobCounts {
                        chunks_created: chunks,
                        embeddings_created: embeddings,
                        assets_created: 0,
                        extracted_text_length: text_len,
                    },
                ),
            )),
            JobEvent::EmbeddingsSaveFailed(err) => next is Finishing && failed_with(act, "Failed to save embeddings: "@, err),
            _ => next is Stopped && act is Stop,
        },
        JobRun::Finishing => next is Stopped && act is Stop,
        JobRun::Stopped => next is Stopped && act is Stop,
    }
}

fn failure(prefix: &str, e: String) -> (act: JobAction)
    ensures
        failed_with(act, prefix@, e),
{
    JobAction::Finish(JobOutcome::Failed(concat2(prefix, e.as_str())))
}

impl JobRun {
    /// A job that is yet to start on `work` for the file `file_id`.
    pub fn new(work: JobWork, file_id: [u8; 16]) -> (r: JobRun)
        ensures
            r == (JobRun::Idle { work, file_id }),
    {
        JobRun::Idle { work, file_id }
    }

    /// The state and action that follow this state on `event`.
    pub fn step(self, splitter: &RTSplitter, event: JobEvent) -> (r: (JobRun, JobAction))
        ensures
            job_step_spec(splitter.seps(), self, event, r.0, r.1),
    {
        match self {
            JobRun::Idle { work, file_id } => match event {
                JobEvent::Begin => (JobRun::Starting { work, file_id }, JobAction::Start),
                _ => (JobRun::Stopped, JobAction::Stop),
            },
            JobRun::Starting { work, file_id } => match event {
                JobEvent::Started => (JobRun::MarkingFile { work, file_id }, JobAction::MarkFileProcessing),
                _ => (JobRun::Stopped, JobAction::Stop),
            },
            JobRun::MarkingFile { work, file_id } => match event {
                JobEvent::Done => {
                    let act = match &work {
                        JobWork::ProcessFile => JobAction::ReportProgress {
                            percent: 20,
                            message: crate::text::owned("Processing document..."),
                        },
                        JobWork::IngestFetched { progress_message, .. } => JobAction::ReportProgress {
                            percent: 10,
                            message: progress_message.clone(),
                        },
                    };
                    (JobRun::Reporting { work, file_id }, act)
                },
                _ => (JobRun::Stopped, JobAction::Stop),
            },
            JobRun::Reporting { work, file_id } => match event {
                JobEvent::Done => match work {
                    JobWork::ProcessFile => (JobRun::Pausing { file_id }, JobAction::Pause { millis: 50 }),
                    JobWork::IngestFetched { data, file_type, failure_prefix, .. } => (
                        JobRun::Extracting { failure_prefix },
                        JobAction::Extract { data, file_type },
                    ),
                },
                _ => (JobRun::Stopped, JobAction::Stop),
            },
            JobRun::Pausing { file_id } => match event {
                JobEvent::Done => (JobRun::FindingFile { file_id }, JobAction::FindFile),
                _ => (JobRun::Stopped, JobAction::Stop),
            },
            JobRun::FindingFile { file_id } => match event {
                JobEvent::FileFound => (JobRun::ProcessingFile, JobAction::ProcessFile),
                JobEvent::FileMissing => {
                    let id = uuid_text(&file_id);
                    (
                        JobRun::Finishing,
                        JobAction::Finish(JobOutcome::Failed(concat2("File not found in database: ", id.as_str()))),
                    )
                },
                JobEvent::FindFailed(err) => (JobRun::Finishing, failure("Failed to find file: ", err)),
                _ => (JobRun::Stopped, JobAction::Stop),
            },
            JobRun::ProcessingFile => match event {
                JobEvent::FileProcessed { chunks, embeddings, assets } => (
                    JobRun::Finishing,
                    JobAction::Finish(
                        JobOutcome::Completed(
                            JobCounts {
                                chunks_created: chunks,
                                embeddings_created: embeddings,
                                assets_created: assets,
                                extracted_text_length: 0,
                            },
                        ),
                    ),
                ),
                JobEvent::ProcessFailed(err) => (JobRun::Finishing, failure("Document processing failed: ", err)),
                _ => (JobRun::Stopped, JobAction::Stop),
            },
            JobRun::Extracting { failure_prefix } => match event {
                JobEvent::Extracted(text) => (
                    JobRun::Chunking { text },
                    JobAction::ReportProgress { percent: 30, message: crate::text::owned("Creating chunks...") },
                ),
                JobEvent::ExtractFailed(err) => (JobRun::Finishing, failure(failure_prefix.as_str(), err)),
                _ => (JobRun::Stopped, JobAction::Stop),
            },
            JobRun::Chunking { text } => match event {
                JobEvent::Done => {
                    let drafts = splitter.create_chunks_from_text(text.as_str());
                    let text_len = text.as_str().len();
                    proof {
                        crate::text::lemma_byte_len_is_encoding_len(text@);
                    }
                    let drafted = drafts.len();
                    (JobRun::SavingChunks { drafted, text_len }, JobAction::SaveChunks(drafts))
                },
                _ => (JobRun::Stopped, JobAction::Stop),
            },
            JobRun::SavingChunks { drafted, text_len } => match event {
                JobEvent::ChunksSaved(ids) => {
                    let chunks = if ids < drafted {
                        ids
                    } else {
                        drafted
                    };
                    (
                        JobRun::Embedding { chunks, text_len },
                        JobAction::ReportProgress {
                            percent: 60,
                            message: crate::text::owned("Generating embeddings..."),
                        },
                    )
                },
                JobEvent::ChunksSaveFailed(err) => (JobRun::Finishing, failure("Failed to save chunks: ", err)),
                _ => (JobRun::Stopped, JobAction::Stop),
            },
            JobRun::Embedding { chunks, text_len } => match event {
                JobEvent::Done => (JobRun::Generating { chunks, text_len }, JobAction::GenerateEmbeddings),
                _ => (JobRun::Stopped, JobAction::Stop),
            },
            JobRun::Generating { chunks, text_len } => match event {
                JobEvent::EmbeddingsGenerated(embeddings) => (
                    JobRun::SavingEmbeddings { chunks, embeddings, text_len },
                    JobAction::SaveEmbeddings,
                ),
                JobEvent::EmbeddingsFailed(err) => (JobRun::Finishing, failure("Embedding generation failed: ", err)),
                _ => (JobRun::Stopped, JobAction::Stop),
            },
            JobRun::SavingEmbeddings { chunks, embeddings, text_len } => match event {
                JobEvent::EmbeddingsSaved => (
                    JobRun::Finishing,
                    JobAction::Finish(
                        JobOutcome::Completed(
                            JobCounts {
                                chunks_created: chunks,
                                embeddings_created: embeddings,
                                assets_created: 0,
                                extracted_text_length: text_len,
                            },
                        ),
                    ),
                ),
                JobEvent::EmbeddingsSaveFailed(err) => (JobRun::Finishing, failure("Failed to save embeddings: ", err)),
                _ => (JobRun::Stopped, JobAction::Stop),
            },
            JobRun::Finishing => (JobRun::Stopped, JobAction::Stop),
            JobRun::Stopped => (JobRun::Stopped, JobAction::Stop),
        }
    }
}

/// How many jobs run at once for the `WORKER_COUNT` setting: the number it
/// gives (spaces around it ignored) when that is at least 1, else 3.
pub open spec fn worker_count_spec(setting: Option<Seq<char>>) -> nat {
    match setting {
        None => 3,
        Some(s) => match parse_unsigned(trim_ws(s), usize::MAX as nat) {
            Some(n) => if n >= 1 {
                n
            } else {
                3
            },
            None => 3,
        },
    }
}

/// The number of workers for the `WORKER_COUNT` setting.
pub fn worker_count_from(setting: Option<&str>) -> (r: usize)
    ensures
        r == worker_count_spec(opt_str_view(setting)),
{
    match setting {
        None => 3,
        Some(s) => {
            let cs = chars_of(s);
            let t = trim_chars(cs.as_slice());
            match parse_unsigned_chars(t.as_slice(), usize::MAX as u64) {
                Some(n) => if n >= 1 {
                    n as usize
                } else {
                    3
                },
                None => 3,
            }
        },
    }
}

} // verus!
