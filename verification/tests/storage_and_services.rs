use polyrag::extraction::{ExtractedDocument, PageContent, PendingAsset};
use polyrag::embeddings::{after_failed_attempt, embed_url, http_status_error, EmbeddingsError, RetryStep, TeiEmbedRequest, TeiErrorResponse, TeiInput};
use polyrag::janitor::{count_requeued, requeue_job_type, requeued_after_lookup, DanglingSweep, JanitorSummary, StorageJanitor, SweepAction};
use polyrag::job_run::worker_count_from;
use polyrag::jobs::JobType;
use polyrag::storage::cloudinary::CloudinaryConfig;
use polyrag::storage::local::LocalFileStorage;
use polyrag::storage::s3::S3Config;
use polyrag::storage::{setting_u64, uuid_text, StorageBackend, StorageConfig, StorageSettings};
use uuid::Uuid;

fn settings() -> StorageSettings {
    StorageSettings {
        storage_backend: None,
        upload_dir: None,
        s3_bucket: None,
        s3_region: None,
        s3_access_key_id: None,
        s3_secret_access_key: None,
        s3_endpoint: None,
        s3_force_path_style: None,
        cloudinary_cloud_name: None,
        cloudinary_api_key: None,
        cloudinary_api_secret: None,
        cloudinary_folder: None,
        presigned_upload_ttl_secs: None,
        presigned_download_ttl_secs: None,
    }
}

#[test]
fn backend_names_ignore_case_and_whitespace() {
    assert_eq!(StorageBackend::from_setting(None), Ok(StorageBackend::Local));
    assert_eq!(StorageBackend::from_setting(Some(" S3 ")), Ok(StorageBackend::S3));
    assert_eq!(StorageBackend::from_setting(Some("Cloudinary")), Ok(StorageBackend::Cloudinary));
    assert_eq!(
        StorageBackend::from_setting(Some(" GCS ")),
        Err("Unknown STORAGE_BACKEND='gcs'. Expected one of: local, s3, cloudinary".to_string())
    );
}

#[test]
fn default_storage_config() {
    let c = StorageConfig::from_settings(&settings()).expect("config");
    assert_eq!(c.backend, StorageBackend::Local);
    assert_eq!(c.upload_dir, "./uploads");
    assert!(c.s3.is_none() && c.cloudinary.is_none());
    assert_eq!(c.presigned_upload_ttl_secs(), 900);
    assert_eq!(c.presigned_download_ttl_secs(), 300);
}

#[test]
fn ttl_settings_fall_back_when_not_numbers() {
    let mut s = settings();
    s.presigned_upload_ttl_secs = Some("60".to_string());
    s.presigned_download_ttl_secs = Some("-5".to_string());
    let c = StorageConfig::from_settings(&s).expect("config");
    assert_eq!(c.presigned_upload_ttl_secs(), 60);
    assert_eq!(c.presigned_download_ttl_secs(), 300);
    assert_eq!(setting_u64(Some("+7"), 1), 7);
    assert_eq!(setting_u64(Some(" 7"), 1), 1);
    assert_eq!(setting_u64(Some("18446744073709551616"), 1), 1);
}

#[test]
fn s3_settings_are_required_in_order() {
    let mut s = settings();
    s.storage_backend = Some("s3".to_string());
    assert_eq!(StorageConfig::from_settings(&s).err().unwrap(), "STORAGE_BACKEND=s3 requires env var 'S3_BUCKET'");
    s.s3_bucket = Some("b".to_string());
    s.s3_region = Some("".to_string());
    assert_eq!(S3Config::from_settings(&s).err().unwrap(), "STORAGE_BACKEND=s3 requires env var 'S3_REGION'");
    s.s3_region = Some("eu".to_string());
    s.s3_access_key_id = Some("id".to_string());
    s.s3_secret_access_key = Some("secret".to_string());
    s.s3_force_path_style = Some(" YES ".to_string());
    s.s3_endpoint = Some("".to_string());
    let c = StorageConfig::from_settings(&s).expect("config");
    let s3 = c.s3.expect("s3 config");
    assert_eq!(s3.bucket, "b");
    assert!(s3.force_path_style);
    assert!(s3.endpoint.is_none());
}

#[test]
fn cloudinary_settings_and_urls() {
    let mut s = settings();
    s.storage_backend = Some("cloudinary".to_string());
    s.cloudinary_cloud_name = Some("demo".to_string());
    assert_eq!(
        StorageConfig::from_settings(&s).err().unwrap(),
        "STORAGE_BACKEND=cloudinary requires env var 'CLOUDINARY_API_KEY'"
    );
    s.cloudinary_api_key = Some("key".to_string());
    s.cloudinary_api_secret = Some("secret".to_string());
    s.cloudinary_folder = Some("rag".to_string());
    let c = CloudinaryConfig::from_settings(&s).expect("config");
    assert_eq!(c.upload_url(), "https://api.cloudinary.com/v1_1/demo/image/upload");
    assert_eq!(c.destroy_url(), "https://api.cloudinary.com/v1_1/demo/image/destroy");
    assert_eq!(c.cdn_url("a/b"), "https://res.cloudinary.com/demo/image/upload/a/b");
    assert_eq!(c.basic_auth_header(), "Basic a2V5OnNlY3JldA==");
    let t = Uuid::from_u128(0x0123_4567_89ab_cdef_0123_4567_89ab_cdef);
    let f = Uuid::from_u128(1);
    assert_eq!(c.public_id(t.as_bytes(), f.as_bytes()), format!("rag/{}/{}", t, f));
}

#[test]
fn cloudinary_signature_sorts_parameters() {
    let c = CloudinaryConfig {
        cloud_name: "demo".to_string(),
        api_key: "key".to_string(),
        api_secret: "abcd".to_string(),
        folder: None,
    };
    let params = vec![
        ("timestamp".to_string(), "1315060510".to_string()),
        ("public_id".to_string(), "sample".to_string()),
    ];
    // SHA-1 of "public_id=sample&timestamp=1315060510abcd".
    assert_eq!(c.sign_params(&params), "c3470533147774275dd37996cc4d0e68fd03cd4f");
    let fields = c.presigned_form_fields("sample", "1315060510");
    let names: Vec<&str> = fields.iter().map(|(k, _)| k.as_str()).collect();
    assert_eq!(names, vec!["api_key", "timestamp", "signature", "public_id", "overwrite"]);
    assert_eq!(fields[0].1, "key");
    assert_eq!(fields[4].1, "true");
}

#[test]
fn uuid_text_matches_the_uuid_crate() {
    for n in [0u128, 1, 0xffff_ffff_ffff_ffff_ffff_ffff_ffff_ffff, 0x67e5_5044_10b1_426f_9247_bb68_0e5f_e0c8] {
        let u = Uuid::from_u128(n);
        assert_eq!(uuid_text(u.as_bytes()), u.to_string());
    }
}

#[test]
fn local_keys_and_paths() {
    let t = Uuid::from_u128(7);
    let f = Uuid::from_u128(9);
    let key = LocalFileStorage::key(t.as_bytes(), f.as_bytes());
    assert_eq!(key, format!("{}/{}", t, f));
    let s = LocalFileStorage::new("./uploads".to_string());
    assert_eq!(s.path_for(&key), format!("./uploads/{}", key));
    assert_eq!(LocalFileStorage::new("/data/".to_string()).path_for("a/b"), "/data/a/b");
    assert_eq!(LocalFileStorage::new(String::new()).path_for("a"), "a");
    assert_eq!(s.path_for("/abs/x"), "/abs/x");
    let joined = std::path::PathBuf::from("./uploads").join(&key);
    assert_eq!(s.path_for(&key), joined.to_str().unwrap());
    assert_eq!(LocalFileStorage::download_path(f.as_bytes()), format!("/files/{}/content", f));
}

#[test]
fn janitor_thresholds() {
    let j = StorageJanitor::from_settings(900, None, None, None);
    assert_eq!(j.interval_secs, 300);
    assert_eq!(j.dangling_intent_threshold_secs, 1800);
    assert_eq!(j.stale_processing_threshold_secs, 1800);
    let j = StorageJanitor::from_settings(3600, Some("60"), Some("100"), Some("-3"));
    assert_eq!(j.interval_secs, 60);
    assert_eq!(j.dangling_intent_threshold_secs, 1800);
    assert_eq!(j.stale_processing_threshold_secs, -3);
    let j = StorageJanitor::from_settings(3600, None, Some("x"), None);
    assert_eq!(j.dangling_intent_threshold_secs, 7200);
    let j = StorageJanitor::new(1, 2, 3);
    assert_eq!((j.interval_secs, j.dangling_intent_threshold_secs, j.stale_processing_threshold_secs), (1, 2, 3));
}

#[test]
fn dangling_sweep_deletes_rows_only_after_objects() {
    let (mut sweep, first) = DanglingSweep::start(3);
    assert_eq!(first, SweepAction::DeleteObject(0));
    assert_eq!(sweep.on_outcome(true), SweepAction::DeleteRow(0));
    assert_eq!(sweep.on_outcome(true), SweepAction::DeleteObject(1));
    assert_eq!(sweep.on_outcome(false), SweepAction::DeleteObject(2));
    assert_eq!(sweep.on_outcome(true), SweepAction::DeleteRow(2));
    assert_eq!(sweep.on_outcome(false), SweepAction::Finished(1));
    let (_, none) = DanglingSweep::start(0);
    assert_eq!(none, SweepAction::Finished(0));
}

#[test]
fn janitor_summaries() {
    let s = JanitorSummary::default();
    assert!(!s.is_noteworthy());
    let s = JanitorSummary::of_pass(2, 0);
    assert_eq!(s.errors, 0);
    assert!(s.is_noteworthy());
}

#[test]
fn embed_requests_and_errors() {
    let r = TeiEmbedRequest::single("hello");
    assert!(matches!(&r.inputs, TeiInput::Single(t) if t == "hello"));
    assert_eq!(r.normalize, Some(true));
    assert_eq!(r.truncate, Some(false));
    assert!(r.dimensions.is_none());
    let texts = vec!["a".to_string(), "b".to_string()];
    let b = TeiEmbedRequest::batch(&texts);
    assert!(matches!(&b.inputs, TeiInput::Multiple(v) if *v == texts));
    assert_eq!(embed_url("http://localhost:8080"), "http://localhost:8080/embed");
    let e = TeiErrorResponse { error: "too long".to_string(), error_type: "Validation".to_string() }.to_error();
    assert!(matches!(e, EmbeddingsError::ApiError(m) if m == "TEI API error: too long (type: Validation)"));
    assert!(matches!(http_status_error("503 Service Unavailable"), EmbeddingsError::ApiError(m) if m == "HTTP error: 503 Service Unavailable"));
}

#[test]
fn failed_requests_are_retried_up_to_the_limit() {
    assert_eq!(after_failed_attempt(1, 3), RetryStep::Retry { exponent: 0 });
    assert_eq!(after_failed_attempt(3, 3), RetryStep::Retry { exponent: 2 });
    assert_eq!(after_failed_attempt(4, 3), RetryStep::GiveUp);
    assert_eq!(after_failed_attempt(1, 0), RetryStep::GiveUp);
}

#[test]
fn model_names() {
    assert_eq!(polyrag::embeddings::model_info(), ("Qwen/Qwen3-Embedding-0.6B".to_string(), Some("0.6B".to_string())));
    assert_eq!(polyrag::embeddings::batch_model_name(None), "qwen-embedding");
    assert_eq!(polyrag::embeddings::batch_model_name(Some("m".to_string())), "m");
}

#[test]
fn all_pending_assets_take_their_page_number() {
    let asset = |label: &str, page: Option<u32>| PendingAsset {
        content_type: "image/png".to_string(),
        bytes: vec![1, 2, 3],
        page_number: page,
        label: Some(label.to_string()),
    };
    let doc = ExtractedDocument {
        full_text: "t".to_string(),
        pages: vec![
            PageContent { page_number: 0, text: "t".to_string(), pending_assets: vec![asset("a", None)] },
            PageContent { page_number: 4, text: "u".to_string(), pending_assets: vec![asset("b", Some(9)), asset("c", None)] },
        ],
        pending_assets: vec![asset("d", None)],
    };
    let all = doc.into_all_pending_assets();
    let got: Vec<(Option<String>, Option<u32>)> = all.iter().map(|a| (a.label.clone(), a.page_number)).collect();
    assert_eq!(
        got,
        vec![
            (Some("a".to_string()), Some(0)),
            (Some("b".to_string()), Some(9)),
            (Some("c".to_string()), Some(4)),
            (Some("d".to_string()), None),
        ]
    );
}

#[test]
fn requeued_files_are_the_successful_ones() {
    assert_eq!(count_requeued(&vec![]), 0);
    assert_eq!(count_requeued(&vec![true, false, true, true]), 3);
}

#[test]
fn cloudinary_store_form_fields() {
    let mut c = CloudinaryConfig {
        cloud_name: "demo".to_string(),
        api_key: "key".to_string(),
        api_secret: "s".to_string(),
        folder: None,
    };
    let f = c.store_form_fields("pid");
    assert_eq!(
        f,
        vec![
            ("public_id".to_string(), "pid".to_string()),
            ("resource_type".to_string(), "image".to_string()),
            ("overwrite".to_string(), "true".to_string()),
        ]
    );
    c.folder = Some("rag".to_string());
    assert_eq!(c.store_form_fields("pid").len(), 4);
    let p = c.presigned_form_fields("pid", "17");
    assert_eq!(p.last().unwrap(), &("folder".to_string(), "rag".to_string()));
}

#[test]
fn s3_and_local_keys_agree() {
    let nil = [0u8; 16];
    let expected = "00000000-0000-0000-0000-000000000000/00000000-0000-0000-0000-000000000000";
    assert_eq!(S3Config::key(&nil, &nil), expected);
    assert_eq!(LocalFileStorage::key(&nil, &nil), expected);
    let t = Uuid::from_u128(0x0123_4567_89ab_cdef_0123_4567_89ab_cdef);
    let f = Uuid::from_u128(5);
    assert_eq!(S3Config::key(t.as_bytes(), f.as_bytes()), format!("{}/{}", t, f));
}

#[test]
fn worker_count_falls_back_to_three() {
    assert_eq!(worker_count_from(None), 3);
    assert_eq!(worker_count_from(Some(" 8 ")), 8);
    assert_eq!(worker_count_from(Some("0")), 3);
    assert_eq!(worker_count_from(Some("many")), 3);
    assert_eq!(worker_count_from(Some("+2")), 2);
}

#[test]
fn a_failed_lookup_sweeps_and_requeues_nothing() {
    let (_, a) = DanglingSweep::after_lookup(None);
    assert_eq!(a, SweepAction::Finished(0));
    let (_, a) = DanglingSweep::after_lookup(Some(2));
    assert_eq!(a, SweepAction::DeleteObject(0));
    assert_eq!(requeued_after_lookup(None), 0);
    assert_eq!(requeued_after_lookup(Some(&vec![true, false, true])), 2);
    assert!(matches!(requeue_job_type(), JobType::FileProcessing));
}
