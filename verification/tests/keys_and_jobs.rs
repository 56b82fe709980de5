use polyrag::auth::{api_key_from_bytes, generate_api_key, hash_key, hex_encode};
use polyrag::chunking::RTSplitter;
use polyrag::database::DatabaseError;
use polyrag::job_run::{JobAction, JobCounts, JobEvent, JobOutcome, JobRun};
use polyrag::jobs::{
    decode_job_columns, is_active_status, is_terminal_status, job_type_columns, job_type_from_columns,
    status_from_columns, stored_error_message, new_job_row, stored_job_from_row, JobType, JobWork, ProcessingStatus,
};

#[test]
fn hex_encoding_is_lowercase_two_digits_per_byte() {
    assert_eq!(hex_encode(&[]), "");
    assert_eq!(hex_encode(&[0x00, 0x0f, 0xa0, 0xff]), "000fa0ff");
}

#[test]
fn key_hash_is_sha256_hex() {
    assert_eq!(hash_key("abc"), "ba7816bf8f01cfea414140de5dae2223b00361a396177a9cb410ff61f20015ad");
    assert_eq!(hash_key("").len(), 64);
}

#[test]
fn keys_are_built_from_their_bytes() {
    let k = api_key_from_bytes(&[0xab; 4]);
    assert_eq!(k.raw, "pk_live_abababab");
    assert_eq!(k.prefix, "pk_live_abababab");
    assert_eq!(k.hash, hash_key("pk_live_abababab"));
    let short = api_key_from_bytes(&[1]);
    assert_eq!(short.prefix, "pk_live_01");
}

#[test]
fn generated_keys_have_the_documented_shape() {
    let k = generate_api_key();
    assert_eq!(k.raw.len(), 72);
    assert!(k.raw.starts_with("pk_live_"));
    assert!(k.raw[8..].chars().all(|c| c.is_ascii_digit() || ('a'..='f').contains(&c)));
    assert_eq!(k.prefix, &k.raw[..16]);
    assert_eq!(k.hash, hash_key(&k.raw));
    assert_ne!(generate_api_key().raw, k.raw);
}

#[test]
fn job_types_are_read_from_their_columns() {
    assert!(matches!(job_type_from_columns("file_processing", None), Ok(JobType::FileProcessing)));
    match job_type_from_columns("url_extraction", Some("https://a")) {
        Ok(JobType::UrlExtraction { url }) => assert_eq!(url, "https://a"),
        _ => panic!("expected a URL job"),
    }
    assert_eq!(job_type_from_columns("youtube_extraction", None).err().unwrap(), "Missing URL in job data");
    assert_eq!(job_type_from_columns("bogus", None).err().unwrap(), "Unknown job type: bogus");
}

#[test]
fn job_types_round_trip_through_their_columns() {
    for t in [
        JobType::FileProcessing,
        JobType::UrlExtraction { url: "https://x".to_string() },
        JobType::YoutubeExtraction { url: "https://youtu.be/y".to_string() },
    ] {
        let (name, url) = job_type_columns(&t);
        let back = job_type_from_columns(&name, url.as_deref()).expect("round trip");
        assert_eq!(format!("{:?}", back), format!("{:?}", t));
    }
}

#[test]
fn statuses_are_read_from_their_columns() {
    assert!(matches!(status_from_columns("pending", None), Ok(ProcessingStatus::Pending)));
    assert!(matches!(status_from_columns("processing", Some("x")), Ok(ProcessingStatus::Processing)));
    assert!(matches!(status_from_columns("completed", None), Ok(ProcessingStatus::Completed)));
    assert!(matches!(status_from_columns("failed", Some("boom")), Ok(ProcessingStatus::Failed(m)) if m == "boom"));
    assert!(matches!(status_from_columns("failed", None), Ok(ProcessingStatus::Failed(m)) if m == "Unknown error"));
    assert!(matches!(status_from_columns("failed:legacy reason", None), Ok(ProcessingStatus::Failed(m)) if m == "legacy reason"));
    assert_eq!(status_from_columns("Pending", None).err().unwrap(), "Unknown status: Pending");
}

#[test]
fn job_type_is_checked_before_status() {
    assert_eq!(decode_job_columns("bogus", None, "nope", None).err().unwrap(), "Unknown job type: bogus");
    assert_eq!(decode_job_columns("file_processing", None, "nope", None).err().unwrap(), "Unknown status: nope");
    assert!(decode_job_columns("file_processing", None, "pending", None).is_ok());
}

#[test]
fn active_and_terminal_statuses() {
    assert!(is_active_status("pending"));
    assert!(is_active_status("processing"));
    assert!(!is_active_status("completed"));
    assert!(is_terminal_status("completed"));
    assert!(is_terminal_status("failed:x"));
    assert!(!is_terminal_status("failed"));
    assert!(!is_terminal_status("pending"));
}

#[test]
fn database_errors_name_their_kind() {
    assert_eq!(DatabaseError::missing_database_url().message(), "Configuration error: DATABASE_URL not set");
    assert_eq!(DatabaseError::PoolError("full".to_string()).message(), "Pool error: full");
    assert_eq!(DatabaseError::ConnectionError("down".to_string()).message(), "Connection error: down");
}

#[test]
fn stored_error_message_prefers_the_failure_reason() {
    assert_eq!(stored_error_message(&ProcessingStatus::Failed("boom".to_string()), Some("old")), Some("boom".to_string()));
    assert_eq!(stored_error_message(&ProcessingStatus::Completed, Some("note")), Some("note".to_string()));
    assert_eq!(stored_error_message(&ProcessingStatus::Pending, None), None);
}

#[test]
fn job_types_say_what_work_they_do() {
    assert!(matches!(JobType::FileProcessing.work(), JobWork::ProcessFile));
    match (JobType::UrlExtraction { url: "https://a".to_string() }).work() {
        JobWork::IngestFetched { data, file_type, progress_message, failure_prefix } => {
            assert_eq!(data, "https://a");
            assert_eq!(file_type, "text/html");
            assert_eq!(progress_message, "Extracting content from URL...");
            assert_eq!(failure_prefix, "URL extraction failed: ");
        }
        _ => panic!("expected fetched content"),
    }
    match (JobType::YoutubeExtraction { url: "https://youtu.be/v".to_string() }).work() {
        JobWork::IngestFetched { file_type, .. } => assert_eq!(file_type, "text/youtube-url"),
        _ => panic!("expected fetched content"),
    }
}

#[test]
fn a_stored_job_row_reads_back() {
    let file = [7u8; 16];
    let t = JobType::YoutubeExtraction { url: "https://youtu.be/abc".to_string() };
    let status = ProcessingStatus::Failed("boom".to_string());
    let row = new_job_row(&file, &t, &status, None);
    assert_eq!(row.id, None);
    assert_eq!(row.file_id, file);
    assert_eq!(row.job_type, "youtube_extraction");
    assert_eq!(row.url.as_deref(), Some("https://youtu.be/abc"));
    assert_eq!(row.error_message.as_deref(), Some("boom"));
    let id = [9u8; 16];
    let back = stored_job_from_row(&id, &row.file_id, &row.job_type, row.url.as_deref(), "failed", row.error_message.as_deref())
        .expect("row decodes");
    assert_eq!(back.id, id);
    assert_eq!(back.file_id, file);
    assert!(matches!(back.job_type, JobType::YoutubeExtraction { ref url } if url == "https://youtu.be/abc"));
    assert!(matches!(back.status, ProcessingStatus::Failed(ref m) if m == "boom"));
}

#[test]
fn a_stored_job_row_with_an_unknown_type_is_refused() {
    let e = stored_job_from_row(&[0u8; 16], &[1u8; 16], "mystery", None, "pending", None).unwrap_err();
    assert_eq!(e, "Unknown job type: mystery");
}

fn step(run: JobRun, splitter: &RTSplitter, event: JobEvent) -> (JobRun, JobAction) {
    run.step(splitter, event)
}

#[test]
fn a_url_job_runs_extract_chunk_embed_then_completes() {
    let splitter = RTSplitter::default();
    let work = JobType::UrlExtraction { url: "https://example.com".to_string() }.work();
    let run = JobRun::new(work, [1u8; 16]);
    let (run, a) = step(run, &splitter, JobEvent::Begin);
    assert!(matches!(a, JobAction::Start));
    let (run, a) = step(run, &splitter, JobEvent::Started);
    assert!(matches!(a, JobAction::MarkFileProcessing));
    let (run, a) = step(run, &splitter, JobEvent::Done);
    assert!(matches!(a, JobAction::ReportProgress { percent: 10, ref message } if message == "Extracting content from URL..."));
    let (run, a) = step(run, &splitter, JobEvent::Done);
    assert!(matches!(a, JobAction::Extract { ref data, ref file_type } if data == "https://example.com" && file_type == "text/html"));
    let text = "A page about chunking, long enough to keep.".to_string();
    let (run, a) = step(run, &splitter, JobEvent::Extracted(text.clone()));
    assert!(matches!(a, JobAction::ReportProgress { percent: 30, ref message } if message == "Creating chunks..."));
    let (run, a) = step(run, &splitter, JobEvent::Done);
    match a {
        JobAction::SaveChunks(ref d) => {
            assert_eq!(d.len(), 1);
            assert_eq!(d[0].text, text);
        }
        _ => panic!("expected chunks to save"),
    }
    let (run, a) = step(run, &splitter, JobEvent::ChunksSaved(1));
    assert!(matches!(a, JobAction::ReportProgress { percent: 60, .. }));
    let (run, a) = step(run, &splitter, JobEvent::Done);
    assert!(matches!(a, JobAction::GenerateEmbeddings));
    let (run, a) = step(run, &splitter, JobEvent::EmbeddingsGenerated(1));
    assert!(matches!(a, JobAction::SaveEmbeddings));
    let (run, a) = step(run, &splitter, JobEvent::EmbeddingsSaved);
    match a {
        JobAction::Finish(JobOutcome::Completed(c)) => assert_eq!(
            c,
            JobCounts { chunks_created: 1, embeddings_created: 1, assets_created: 0, extracted_text_length: text.len() }
        ),
        _ => panic!("expected completion"),
    }
    let (_, a) = step(run, &splitter, JobEvent::Done);
    assert!(matches!(a, JobAction::Stop));
}

#[test]
fn a_file_job_whose_file_is_missing_fails_with_its_id() {
    let splitter = RTSplitter::default();
    let run = JobRun::new(JobType::FileProcessing.work(), [0u8; 16]);
    let (run, _) = step(run, &splitter, JobEvent::Begin);
    let (run, _) = step(run, &splitter, JobEvent::Started);
    let (run, a) = step(run, &splitter, JobEvent::Done);
    assert!(matches!(a, JobAction::ReportProgress { percent: 20, ref message } if message == "Processing document..."));
    let (run, a) = step(run, &splitter, JobEvent::Done);
    assert!(matches!(a, JobAction::Pause { millis: 50 }));
    let (run, a) = step(run, &splitter, JobEvent::Done);
    assert!(matches!(a, JobAction::FindFile));
    let (_, a) = step(run, &splitter, JobEvent::FileMissing);
    match a {
        JobAction::Finish(JobOutcome::Failed(m)) => {
            assert_eq!(m, "File not found in database: 00000000-0000-0000-0000-000000000000")
        }
        _ => panic!("expected failure"),
    }
}

#[test]
fn a_job_that_cannot_start_stops_and_an_extraction_failure_is_prefixed() {
    let splitter = RTSplitter::default();
    let run = JobRun::new(JobType::FileProcessing.work(), [0u8; 16]);
    let (run, _) = step(run, &splitter, JobEvent::Begin);
    let (_, a) = step(run, &splitter, JobEvent::NotStarted);
    assert!(matches!(a, JobAction::Stop));
    let work = JobType::YoutubeExtraction { url: "https://youtu.be/x".to_string() }.work();
    let run = JobRun::new(work, [0u8; 16]);
    let (run, _) = step(run, &splitter, JobEvent::Begin);
    let (run, _) = step(run, &splitter, JobEvent::Started);
    let (run, _) = step(run, &splitter, JobEvent::Done);
    let (run, _) = step(run, &splitter, JobEvent::Done);
    let (_, a) = step(run, &splitter, JobEvent::ExtractFailed("no captions".to_string()));
    match a {
        JobAction::Finish(JobOutcome::Failed(m)) => assert_eq!(m, "YouTube extraction failed: no captions"),
        _ => panic!("expected failure"),
    }
}
