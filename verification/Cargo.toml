[package]
name = "polyrag"
version = "0.1.0"
edition = "2021"
publish = false

[dependencies]
zip = { version = "=2.6.1", default-features = false, features = ["deflate"] }
docx-rs = { version = "=0.4.22", default-features = false }
lopdf = { version = "=0.34.0", default-features = false, features = ["nom_parser"] }
image = { version = "=0.25.10", default-features = false, features = ["png"] }
html2text = "=0.14.4"
sha2 = "=0.10.9"
sha1 = "=0.10.7"
uuid = { version = "=1.29.0", features = ["v4"] }
base64 = "=0.22.1"
url = "=2.5.8"
tokio = { version = "=1.54.1", features = ["full"] }
reqwest = { version = "=0.12.28", default-features = false, features = ["json", "multipart", "rustls-tls"] }
serde = { version = "=1.0.229", features = ["derive"] }
serde_json = "=1.0.154"
chrono = { version = "=0.4.45", features = ["serde"] }
async-trait = "=0.1.92"
tempfile = "=3.27.0"
yt-transcript-rs = "=0.1.8"
diesel = { version = "=2.3.14", features = ["postgres", "r2d2", "chrono", "uuid", "serde_json"] }
diesel_migrations = "=2.3.2"
pgvector = { version = "=0.4.2", features = ["diesel"] }
tracing = "=0.1.44"
tracing-subscriber = { version = "=0.3.23", features = ["env-filter"] }
dotenv = "=0.15.0"
rayon = "=1.12.0"
regex = "=1.13.1"
