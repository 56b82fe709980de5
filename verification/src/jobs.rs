//! Processing jobs as they are stored: the job type with the URL its data
//! carries, and the status column (with the error message column for
//! failures, and the older `failed:<message>` form).

use vstd::prelude::*;
use crate::text::{chars_of, concat2, has_prefix, owned, str_eq, string_from_chars};

verus! {

/// What a processing job does.
#[derive(Debug, Clone)]
pub enum JobType {
    /// Extract, chunk and embed an uploaded file.
    FileProcessing,
    /// Fetch and ingest the page at `url`.
    UrlExtraction { url: String },
    /// Fetch and ingest the transcript of the video at `url`.
    YoutubeExtraction { url: String },
}

/// Mathematical view of a [`JobType`].
pub enum JobTypeView {
    FileProcessing,
    UrlExtraction { url: Seq<char> },
    YoutubeExtraction { url: Seq<char> },
}

impl View for JobType {
    type V = JobTypeView;

    open spec fn view(&self) -> JobTypeView {
        match self {
            JobType::FileProcessing => JobTypeView::FileProcessing,
            JobType::UrlExtraction { url } => JobTypeView::UrlExtraction { url: url@ },
            JobType::YoutubeExtraction { url } => JobTypeView::YoutubeExtraction { url: url@ },
        }
    }
}

/// Where a job (or file) is in its processing.
#[derive(Debug, Clone)]
pub enum ProcessingStatus {
    Pending,
    Processing,
    Completed,
    /// Failed, with the reason.
    Failed(String),
}

/// Mathematical view of a [`ProcessingStatus`].
pub enum StatusView {
    Pending,
    Processing,
    Completed,
    Failed(Seq<char>),
}

impl View for ProcessingStatus {
    type V = StatusView;

    open spec fn view(&self) -> StatusView {
        match self {
            ProcessingStatus::Pending => StatusView::Pending,
            ProcessingStatus::Processing => StatusView::Processing,
            ProcessingStatus::Completed => StatusView::Completed,
            ProcessingStatus::Failed(m) => StatusView::Failed(m@),
        }
    }
}

/// The job type named by the `job_type` column, with the URL found in the
/// job data (if any).
pub open spec fn job_type_spec(job_type: Seq<char>, url: Option<Seq<char>>) -> Result<JobTypeView, Seq<char>> {
    if job_type == "file_processing"@ {
        Ok(JobTypeView::FileProcessing)
    } else if job_type == "url_extraction"@ || job_type == "youtube_extraction"@ {
        match url {
            None => Err("Missing URL in job data"@),
            Some(u) => if job_type == "url_extraction"@ {
                Ok(JobTypeView::UrlExtraction { url: u })
            } else {
                Ok(JobTypeView::YoutubeExtraction { url: u })
            },
        }
    } else {
        Err("Unknown job type: "@ + job_type)
    }
}

/// The status named by the `status` column; `failed` takes its reason from
/// the error message column (`Unknown error` when empty), the older
/// `failed:<reason>` form carries it inline.
pub open spec fn status_spec(status: Seq<char>, error_message: Option<Seq<char>>) -> Result<StatusView, Seq<char>> {
    if status == "pending"@ {
        Ok(StatusView::Pending)
    } else if status == "processing"@ {
        Ok(StatusView::Processing)
    } else if status == "completed"@ {
        Ok(StatusView::Completed)
    } else if status == "failed"@ {
        Ok(
            StatusView::Failed(
                match error_message {
                    Some(m) => m,
                    None => "Unknown error"@,
                },
            ),
        )
    } else if has_prefix(status, "failed:"@) {
        Ok(StatusView::Failed(status.skip(7)))
    } else {
        Err("Unknown status: "@ + status)
    }
}

pub open spec fn opt_str_view(o: Option<&str>) -> Option<Seq<char>> {
    match o {
        Some(s) => Some(s@),
        None => None,
    }
}

pub open spec fn job_type_result_view(r: Result<JobType, String>) -> Result<JobTypeView, Seq<char>> {
    match r {
        Ok(t) => Ok(t@),
        Err(m) => Err(m@),
    }
}

pub open spec fn status_result_view(r: Result<ProcessingStatus, String>) -> Result<StatusView, Seq<char>> {
    match r {
        Ok(s) => Ok(s@),
        Err(m) => Err(m@),
    }
}

/// The job type stored in the `job_type` column, given the `url` field of
/// the job data.
pub fn job_type_from_columns(job_type: &str, url: Option<&str>) -> (r: Result<JobType, String>)
    ensures
        job_type_result_view(r) == job_type_spec(job_type@, opt_str_view(url)),
{
    if str_eq(job_type, "file_processing") {
        Ok(JobType::FileProcessing)
    } else if str_eq(job_type, "url_extraction") || str_eq(job_type, "youtube_extraction") {
        match url {
            None => Err(owned("Missing URL in job data")),
            Some(u) => if str_eq(job_type, "url_extraction") {
                Ok(JobType::UrlExtraction { url: owned(u) })
            } else {
                Ok(JobType::YoutubeExtraction { url: owned(u) })
            },
        }
    } else {
        Err(concat2("Unknown job type: ", job_type))
    }
}

/// The status stored in the `status` column, given the error message
/// column.
pub fn status_from_columns(status: &str, error_message: Option<&str>) -> (r: Result<ProcessingStatus, String>)
    ensures
        status_result_view(r) == status_spec(status@, opt_str_view(error_message)),
{
    if str_eq(status, "pending") {
        Ok(ProcessingStatus::Pending)
    } else if str_eq(status, "processing") {
        Ok(ProcessingStatus::Processing)
    } else if str_eq(status, "completed") {
        Ok(ProcessingStatus::Completed)
    } else if str_eq(status, "failed") {
        match error_message {
            Some(m) => Ok(ProcessingStatus::Failed(owned(m))),
            None => Ok(ProcessingStatus::Failed(owned("Unknown error"))),
        }
    } else {
        let cs = chars_of(status);
        let tag = chars_of("failed:");
        proof {
            reveal_strlit("failed:");
        }
        if crate::text::starts_with(cs.as_slice(), tag.as_slice()) {
            let rest = crate::text::copy_range(cs.as_slice(), 7, cs.len());
            proof {
                assert(rest@ =~= status@.skip(7));
            }
            Ok(ProcessingStatus::Failed(string_from_chars(rest.as_slice())))
        } else {
            Err(concat2("Unknown status: ", status))
        }
    }
}

/// The job type and status of a stored job, the job type checked first.
pub fn decode_job_columns(job_type: &str, url: Option<&str>, status: &str, error_message: Option<&str>) -> (r:
    Result<(JobType, ProcessingStatus), String>)
    ensures
        match job_type_spec(job_type@, opt_str_view(url)) {
            Err(m) => r matches Err(e) && e@ == m,
            Ok(t) => match status_spec(status@, opt_str_view(error_message)) {
                Err(m) => r matches Err(e) && e@ == m,
                Ok(s) => r matches Ok(p) && p.0@ == t && p.1@ == s,
            },
        },
{
    let t = match job_type_from_columns(job_type, url) {
        Ok(t) => t,
        Err(e) => {
            return Err(e);
        },
    };
    let s = match status_from_columns(status, error_message) {
        Ok(s) => s,
        Err(e) => {
            return Err(e);
        },
    };
    Ok((t, s))
}

/// The `job_type` column and the URL stored in the job data for a job
/// type.
pub open spec fn job_type_columns_spec(t: JobTypeView) -> (Seq<char>, Option<Seq<char>>) {
    match t {
        JobTypeView::FileProcessing => ("file_processing"@, None),
        JobTypeView::UrlExtraction { url } => ("url_extraction"@, Some(url)),
        JobTypeView::YoutubeExtraction { url } => ("youtube_extraction"@, Some(url)),
    }
}

/// How a job type is stored: its `job_type` column and the URL put in the
/// job data.
pub fn job_type_columns(t: &JobType) -> (r: (String, Option<String>))
    ensures
        r.0@ == job_type_columns_spec(t@).0,
        match (r.1, job_type_columns_spec(t@).1) {
            (Some(u), Some(v)) => u@ == v,
            (None, None) => true,
            _ => false,
        },
{
    match t {
        JobType::FileProcessing => (owned("file_processing"), None),
        JobType::UrlExtraction { url } => (owned("url_extraction"), Some(url.clone())),
        JobType::YoutubeExtraction { url } => (owned("youtube_extraction"), Some(url.clone())),
    }
}

/// Storing a job type and reading it back gives the same job type.
pub proof fn lemma_job_type_round_trip(t: JobTypeView)
    ensures
        job_type_spec(job_type_columns_spec(t).0, job_type_columns_spec(t).1) == Ok::<
            JobTypeView,
            Seq<char>,
        >(t),
{
    reveal_strlit("file_processing");
    reveal_strlit("url_extraction");
    reveal_strlit("youtube_extraction");
    assert("url_extraction"@ != "file_processing"@) by {
        assert("url_extraction"@[0] != "file_processing"@[0]);
    }
    assert("youtube_extraction"@ != "file_processing"@) by {
        assert("youtube_extraction"@[0] != "file_processing"@[0]);
    }
    assert("youtube_extraction"@ != "url_extraction"@) by {
        assert("youtube_extraction"@[0] != "url_extraction"@[0]);
    }
}

/// The error message stored with a job: the reason of a failure, else the
/// job's own message.
pub open spec fn stored_error_spec(status: StatusView, error_message: Option<Seq<char>>) -> Option<Seq<char>> {
    match status {
        StatusView::Failed(m) => Some(m),
        _ => error_message,
    }
}

/// The error message column written for a job.
pub fn stored_error_message(status: &ProcessingStatus, error_message: Option<&str>) -> (r: Option<String>)
    ensures
        crate::extraction::opt_view(r) == stored_error_spec(status@, opt_str_view(error_message)),
{
    match status {
        ProcessingStatus::Failed(m) => Some(m.clone()),
        _ => match error_message {
            Some(e) => Some(owned(e)),
            None => None,
        },
    }
}

/// The columns written when a job is first stored: no id (the database
/// assigns it), the job's file, its type with the URL put in the job data,
/// and the error message column.
#[derive(Debug, Clone)]
pub struct NewJobRow {
    pub id: Option<[u8; 16]>,
    pub file_id: [u8; 16],
    pub job_type: String,
    pub url: Option<String>,
    pub error_message: Option<String>,
}

/// Mathematical view of a [`NewJobRow`].
pub struct NewJobRowView {
    pub id: Option<[u8; 16]>,
    pub file_id: [u8; 16],
    pub job_type: Seq<char>,
    pub url: Option<Seq<char>>,
    pub error_message: Option<Seq<char>>,
}

impl View for NewJobRow {
    type V = NewJobRowView;

    open spec fn view(&self) -> NewJobRowView {
        NewJobRowView {
            id: self.id,
            file_id: self.file_id,
            job_type: self.job_type@,
            url: crate::extraction::opt_view(self.url),
            error_message: crate::extraction::opt_view(self.error_message),
        }
    }
}

/// The row written for a job of file `file_id` with type `t`, status
/// `status` and error message `error_message`.
pub open spec fn new_job_row_spec(
    file_id: [u8; 16],
    t: JobTypeView,
    status: StatusView,
    error_message: Option<Seq<char>>,
) -> NewJobRowView {
    NewJobRowView {
        id: None,
        file_id: file_id,
        job_type: job_type_columns_spec(t).0,
        url: job_type_columns_spec(t).1,
        error_message: stored_error_spec(status, error_message),
    }
}

/// The row to insert for a job: see [`new_job_row_spec`].
pub fn new_job_row(
    file_id: &[u8; 16],
    job_type: &JobType,
    status: &ProcessingStatus,
    error_message: Option<&str>,
) -> (r: NewJobRow)
    ensures
        r@ == new_job_row_spec(*file_id, job_type@, status@, opt_str_view(error_message)),
{
    let (t, url) = job_type_columns(job_type);
    let err = stored_error_message(status, error_message);
    let r = NewJobRow { id: None, file_id: *file_id, job_type: t, url, error_message: err };
    proof {
        assert(crate::extraction::opt_view(r.url) == job_type_columns_spec(job_type@).1);
    }
    r
}

/// A job as read back from its row: the row's id and file, and the job
/// type, status and error message decoded from the columns.
#[derive(Debug, Clone)]
pub struct StoredJob {
    pub id: [u8; 16],
    pub file_id: [u8; 16],
    pub job_type: JobType,
    pub status: ProcessingStatus,
    pub error_message: Option<String>,
}

/// What reading a stored row gives: the id and file as stored, the job
/// type and status decoded (the job type checked first), the error message
/// column as it is.
pub open spec fn stored_job_spec(
    id: [u8; 16],
    file_id: [u8; 16],
    job_type: Seq<char>,
    url: Option<Seq<char>>,
    status: Seq<char>,
    error_message: Option<Seq<char>>,
) -> Result<([u8; 16], [u8; 16], JobTypeView, StatusView, Option<Seq<char>>), Seq<char>> {
    match job_type_spec(job_type, url) {
        Err(m) => Err(m),
        Ok(t) => match status_spec(status, error_message) {
            Err(m) => Err(m),
            Ok(s) => Ok((id, file_id, t, s, error_message)),
        },
    }
}

pub open spec fn stored_job_view(r: Result<StoredJob, String>) -> Result<
    ([u8; 16], [u8; 16], JobTypeView, StatusView, Option<Seq<char>>),
    Seq<char>,
> {
    match r {
        Ok(j) => Ok((j.id, j.file_id, j.job_type@, j.status@, crate::extraction::opt_view(j.error_message))),
        Err(m) => Err(m@),
    }
}

/// Reads a stored job row back into a job.
pub fn stored_job_from_row(
    id: &[u8; 16],
    file_id: &[u8; 16],
    job_type: &str,
    url: Option<&str>,
    status: &str,
    error_message: Option<&str>,
) -> (r: Result<StoredJob, String>)
    ensures
        stored_job_view(r) == stored_job_spec(
            *id,
            *file_id,
            job_type@,
            opt_str_view(url),
            status@,
            opt_str_view(error_message),
        ),
{
    match decode_job_columns(job_type, url, status, error_message) {
        Err(e) => Err(e),
        Ok((t, s)) => {
            let err = match error_message {
                Some(m) => Some(owned(m)),
                None => None,
            };
            Ok(StoredJob { id: *id, file_id: *file_id, job_type: t, status: s, error_message: err })
        },
    }
}

/// Storing a job and reading its row back, once the database has given it
/// the id `id`, gives that id, the job's file and its job type; the status
/// comes back as the status column `status_column` reads, and a failure
/// written as `failed` comes back with its reason.
pub proof fn lemma_job_row_round_trip(
    id: [u8; 16],
    file_id: [u8; 16],
    t: JobTypeView,
    status: StatusView,
    error_message: Option<Seq<char>>,
    status_column: Seq<char>,
)
    requires
        status_spec(status_column, stored_error_spec(status, error_message)) is Ok,
    ensures
        ({
            let row = new_job_row_spec(file_id, t, status, error_message);
            &&& row.id is None
            &&& row.file_id == file_id
            &&& stored_job_spec(id, row.file_id, row.job_type, row.url, status_column, row.error_message)
                matches Ok(j) && j.0 == id && j.1 == file_id && j.2 == t
                && j.3 == status_spec(status_column, row.error_message)->Ok_0
        }),
        (status is Failed && status_column == "failed"@) ==> (stored_job_spec(
            id,
            file_id,
            new_job_row_spec(file_id, t, status, error_message).job_type,
            new_job_row_spec(file_id, t, status, error_message).url,
            status_column,
            new_job_row_spec(file_id, t, status, error_message).error_message,
        ) matches Ok(j) && j.3 == status),
{
    lemma_job_type_round_trip(t);
    reveal_strlit("failed");
    reveal_strlit("pending");
    reveal_strlit("processing");
    reveal_strlit("completed");
    if status_column == "failed"@ {
        assert("failed"@ != "pending"@) by {
            assert("failed"@[0] != "pending"@[0]);
        }
        assert("failed"@ != "processing"@) by {
            assert("failed"@[0] != "processing"@[0]);
        }
        assert("failed"@ != "completed"@) by {
            assert("failed"@[0] != "completed"@[0]);
        }
    }
}

/// What running a job involves: processing its stored file, or fetching
/// and ingesting the content its URL points to.
#[derive(Debug, Clone)]
pub enum JobWork {
    /// Extract, chunk and embed the job's file.
    ProcessFile,
    /// Hand `data` to the extractors as `file_type`, reporting
    /// `progress_message` meanwhile and prefixing a failure with
    /// `failure_prefix`; then ingest the text.
    IngestFetched { data: String, file_type: String, progress_message: String, failure_prefix: String },
}

/// The work of a job type: URLs are extracted as HTML pages, YouTube URLs
/// as transcripts.
pub open spec fn job_work_spec(t: JobTypeView) -> Option<(Seq<char>, Seq<char>, Seq<char>, Seq<char>)> {
    match t {
        JobTypeView::FileProcessing => None,
        JobTypeView::UrlExtraction { url } => Some(
            (url, "text/html"@, "Extracting content from URL..."@, "URL extraction failed: "@),
        ),
        JobTypeView::YoutubeExtraction { url } => Some(
            (url, "text/youtube-url"@, "Fetching transcript..."@, "YouTube extraction failed: "@),
        ),
    }
}

impl JobType {
    /// The work a job of this type does.
    pub fn work(&self) -> (w: JobWork)
        ensures
            match job_work_spec(self@) {
                None => w is ProcessFile,
                Some(p) => w matches JobWork::IngestFetched { data, file_type, progress_message, failure_prefix }
                    && data@ == p.0 && file_type@ == p.1 && progress_message@ == p.2 && failure_prefix@ == p.3,
            },
    {
        match self {
            JobType::FileProcessing => JobWork::ProcessFile,
            JobType::UrlExtraction { url } => JobWork::IngestFetched {
                data: url.clone(),
                file_type: owned("text/html"),
                progress_message: owned("Extracting content from URL..."),
                failure_prefix: owned("URL extraction failed: "),
            },
            JobType::YoutubeExtraction { url } => JobWork::IngestFetched {
                data: url.clone(),
                file_type: owned("text/youtube-url"),
                progress_message: owned("Fetching transcript..."),
                failure_prefix: owned("YouTube extraction failed: "),
            },
        }
    }
}

/// A job that is waiting or running (`pending` or `processing`).
pub open spec fn is_active_spec(status: Seq<char>) -> bool {
    status == "pending"@ || status == "processing"@
}

/// A job that will not change any more: `completed`, or a failure in the
/// `failed:<reason>` form.
pub open spec fn is_terminal_spec(status: Seq<char>) -> bool {
    status == "completed"@ || has_prefix(status, "failed:"@)
}

/// Whether the status column names an active job.
pub fn is_active_status(status: &str) -> (b: bool)
    ensures
        b == is_active_spec(status@),
{
    str_eq(status, "pending") || str_eq(status, "processing")
}

/// Whether the status column names a terminal job.
pub fn is_terminal_status(status: &str) -> (b: bool)
    ensures
        b == is_terminal_spec(status@),
{
    if str_eq(status, "completed") {
        return true;
    }
    let cs = chars_of(status);
    let tag = chars_of("failed:");
    crate::text::starts_with(cs.as_slice(), tag.as_slice())
}

} // verus!
