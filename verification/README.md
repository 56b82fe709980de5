# polyrag

The document-ingestion core of a retrieval-augmented-generation backend,
verified with Verus.

- `src/` — the library, with its contracts and proofs:
  - `text`, `numbers`, `sorting`: character-sequence utilities, integer
    parsing with the standard library's rules, stable sorting;
  - `chunking`: recursive text splitting (lossless, size-bounded chunks) and
    the chunks stored for ingested text;
  - `extraction`: text and embedded images of PDF, docx, pptx, HTML, plain
    text and YouTube sources, and the registry that picks an extractor;
  - `auth`: API keys and their SHA-256 fingerprints;
  - `jobs`: processing jobs as stored in the database;
  - `storage`: storage backend settings, object keys, Cloudinary signing;
  - `janitor`: thresholds and bookkeeping of the storage janitor;
  - `embeddings`: requests to the embeddings service and retries;
  - `database`: connection errors.
- `tests/` — tests of the library on concrete inputs.
- `app/` — the program around the library: configuration from the
  environment, file, network and database I/O.
