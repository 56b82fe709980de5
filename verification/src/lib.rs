//! Document-ingestion core of a retrieval-augmented-generation backend:
//! text chunking, document text extraction, API keys, storage keys and
//! configuration, job bookkeeping.

pub mod text;
pub mod chunking;
pub mod numbers;
pub mod sorting;
pub mod extraction;
pub mod auth;
pub mod jobs;
pub mod job_run;
pub mod storage;
pub mod janitor;
pub mod embeddings;
pub mod database;
