//! Where uploaded files are kept: the choice of backend and its settings,
//! object keys, and the configurations of the local, S3 and Cloudinary
//! backends.

pub mod cloudinary;
pub mod local;
pub mod s3;

use vstd::prelude::*;
use crate::auth::{hex_encode, hex_spec};
use crate::extraction::opt_view;
use crate::numbers::{parse_u64, parse_u64_spec};
use crate::storage::cloudinary::{cloudinary_config_spec, CloudinaryConfig, CloudinaryConfigView};
use crate::storage::s3::{s3_config_spec, S3Config, S3ConfigView};
use crate::text::{chars_of, concat2, owned, str_eq, string_from_chars, trim_chars, trim_ws};

verus! {

broadcast use vstd::seq_lib::group_seq_properties;

/// The storage backends.
#[derive(Debug, Clone, Copy, PartialEq, Eq, Structural)]
pub enum StorageBackend {
    Local,
    S3,
    Cloudinary,
}

/// ASCII letters lowercased, every other character kept.
pub open spec fn ascii_lower_char(c: char) -> char {
    if 'A' <= c && c <= 'Z' {
        ((c as u8) + 32) as char
    } else {
        c
    }
}

/// `to_ascii_lowercase`.
pub open spec fn ascii_lower(s: Seq<char>) -> Seq<char> {
    s.map_values(|c: char| ascii_lower_char(c))
}

/// `s` lowercased in ASCII.
pub fn to_ascii_lower(s: &[char]) -> (r: Vec<char>)
    ensures
        r@ == ascii_lower(s@),
{
    let mut out: Vec<char> = Vec::new();
    let mut i: usize = 0;
    while i < s.len()
        invariant
            i <= s@.len(),
            out@ == ascii_lower(s@.take(i as int)),
        decreases s@.len() - i,
    {
        let c = s[i];
        let d = if 'A' <= c && c <= 'Z' {
            ((c as u8) + 32) as char
        } else {
            c
        };
        out.push(d);
        proof {
            assert(ascii_lower(s@.take(i + 1)) =~= ascii_lower(s@.take(i as int)).push(ascii_lower_char(c)));
        }
        i = i + 1;
    }
    proof {
        assert(s@.take(s@.len() as int) =~= s@);
    }
    out
}

/// A setting value trimmed and lowercased in ASCII.
pub open spec fn normalized(s: Seq<char>) -> Seq<char> {
    ascii_lower(trim_ws(s))
}

/// `s.trim().to_ascii_lowercase()`.
pub fn normalize_setting(s: &str) -> (r: String)
    ensures
        r@ == normalized(s@),
{
    let cs = chars_of(s);
    let t = trim_chars(cs.as_slice());
    let l = to_ascii_lower(t.as_slice());
    string_from_chars(l.as_slice())
}

/// The backend named by a `STORAGE_BACKEND` value (absent means `local`).
pub open spec fn backend_spec(raw: Option<Seq<char>>) -> Result<StorageBackend, Seq<char>> {
    let n = match raw {
        Some(s) => normalized(s),
        None => "local"@,
    };
    if n == "local"@ {
        Ok(StorageBackend::Local)
    } else if n == "s3"@ {
        Ok(StorageBackend::S3)
    } else if n == "cloudinary"@ {
        Ok(StorageBackend::Cloudinary)
    } else {
        Err("Unknown STORAGE_BACKEND='"@ + n + "'. Expected one of: local, s3, cloudinary"@)
    }
}

impl StorageBackend {
    /// The backend named by the `STORAGE_BACKEND` setting: `local`, `s3` or
    /// `cloudinary`, ignoring surrounding whitespace and ASCII case;
    /// `local` when the setting is absent.
    pub fn from_setting(raw: Option<&str>) -> (r: Result<Self, String>)
        ensures
            match r {
                Ok(b) => backend_spec(opt_str_view(raw)) == Ok::<StorageBackend, Seq<char>>(b),
                Err(m) => backend_spec(opt_str_view(raw)) == Err::<StorageBackend, Seq<char>>(m@),
            },
    {
        let n = match raw {
            Some(s) => normalize_setting(s),
            None => owned("local"),
        };
        if str_eq(n.as_str(), "local") {
            Ok(StorageBackend::Local)
        } else if str_eq(n.as_str(), "s3") {
            Ok(StorageBackend::S3)
        } else if str_eq(n.as_str(), "cloudinary") {
            Ok(StorageBackend::Cloudinary)
        } else {
            let mut m = concat2("Unknown STORAGE_BACKEND='", n.as_str());
            m.append("'. Expected one of: local, s3, cloudinary");
            Err(m)
        }
    }
}

pub open spec fn opt_str_view(o: Option<&str>) -> Option<Seq<char>> {
    match o {
        Some(s) => Some(s@),
        None => None,
    }
}

/// A numeric setting: the value when it parses as a `u64`, else `default`.
pub open spec fn setting_u64_spec(raw: Option<Seq<char>>, default: u64) -> u64 {
    match raw {
        Some(s) => match parse_u64_spec(s) {
            Some(v) => v,
            None => default,
        },
        None => default,
    }
}

/// `raw.parse::<u64>()`, or `default` when absent or not a number.
pub fn setting_u64(raw: Option<&str>, default: u64) -> (r: u64)
    ensures
        r == setting_u64_spec(opt_str_view(raw), default),
{
    match raw {
        Some(s) => {
            let cs = chars_of(s);
            match parse_u64(cs.as_slice()) {
                Some(v) => v,
                None => default,
            }
        },
        None => default,
    }
}

/// A setting that must be present and non-empty.
pub open spec fn required(v: Option<Seq<char>>) -> Option<Seq<char>> {
    match v {
        Some(s) => if s.len() > 0 {
            Some(s)
        } else {
            None
        },
        None => None,
    }
}

/// The storage settings as read from the environment; each is absent when
/// its variable is not set.
#[derive(Debug, Clone)]
pub struct StorageSettings {
    pub storage_backend: Option<String>,
    pub upload_dir: Option<String>,
    pub s3_bucket: Option<String>,
    pub s3_region: Option<String>,
    pub s3_access_key_id: Option<String>,
    pub s3_secret_access_key: Option<String>,
    pub s3_endpoint: Option<String>,
    pub s3_force_path_style: Option<String>,
    pub cloudinary_cloud_name: Option<String>,
    pub cloudinary_api_key: Option<String>,
    pub cloudinary_api_secret: Option<String>,
    pub cloudinary_folder: Option<String>,
    pub presigned_upload_ttl_secs: Option<String>,
    pub presigned_download_ttl_secs: Option<String>,
}

/// The storage configuration.
#[derive(Debug, Clone)]
pub struct StorageConfig {
    pub backend: StorageBackend,
    pub upload_dir: String,
    pub s3: Option<S3Config>,
    pub cloudinary: Option<CloudinaryConfig>,
    pub presigned_upload_ttl_secs: u64,
    pub presigned_download_ttl_secs: u64,
}

/// Mathematical view of a [`StorageConfig`].
pub struct StorageConfigView {
    pub backend: StorageBackend,
    pub upload_dir: Seq<char>,
    pub s3: Option<S3ConfigView>,
    pub cloudinary: Option<CloudinaryConfigView>,
    pub presigned_upload_ttl_secs: u64,
    pub presigned_download_ttl_secs: u64,
}

impl View for StorageConfig {
    type V = StorageConfigView;

    open spec fn view(&self) -> StorageConfigView {
        StorageConfigView {
            backend: self.backend,
            upload_dir: self.upload_dir@,
            s3: match self.s3 {
                Some(c) => Some(c@),
                None => None,
            },
            cloudinary: match self.cloudinary {
                Some(c) => Some(c@),
                None => None,
            },
            presigned_upload_ttl_secs: self.presigned_upload_ttl_secs,
            presigned_download_ttl_secs: self.presigned_download_ttl_secs,
        }
    }
}

/// The configuration the settings describe: the backend (with the settings
/// of S3 or Cloudinary when that backend is chosen), the upload directory
/// (`./uploads` by default) and the presigned-URL lifetimes (900 s for
/// uploads and 300 s for downloads by default).
pub open spec fn storage_config_spec(st: StorageSettings) -> Result<StorageConfigView, Seq<char>> {
    match backend_spec(opt_view(st.storage_backend)) {
        Err(m) => Err(m),
        Ok(backend) => {
            let s3 = if backend == StorageBackend::S3 {
                match s3_config_spec(st) {
                    Ok(c) => Ok(Some(c)),
                    Err(m) => Err(m),
                }
            } else {
                Ok(None)
            };
            let cl = if backend == StorageBackend::Cloudinary {
                match cloudinary_config_spec(st) {
                    Ok(c) => Ok(Some(c)),
                    Err(m) => Err(m),
                }
            } else {
                Ok(None)
            };
            match (s3, cl) {
                (Err(m), _) => Err(m),
                (_, Err(m)) => Err(m),
                (Ok(s3), Ok(cl)) => Ok(
                    StorageConfigView {
                        backend,
                        upload_dir: match opt_view(st.upload_dir) {
                            Some(d) => d,
                            None => "./uploads"@,
                        },
                        s3,
                        cloudinary: cl,
                        presigned_upload_ttl_secs: setting_u64_spec(
                            opt_view(st.presigned_upload_ttl_secs),
                            900,
                        ),
                        presigned_download_ttl_secs: setting_u64_spec(
                            opt_view(st.presigned_download_ttl_secs),
                            300,
                        ),
                    },
                ),
            }
        },
    }
}

/// The text of an optional string.
pub fn as_opt_str(o: &Option<String>) -> (r: Option<&str>)
    ensures
        opt_str_view(r) == opt_view(*o),
{
    match o {
        Some(s) => Some(s.as_str()),
        None => None,
    }
}

impl StorageConfig {
    /// The configuration described by the settings.
    pub fn from_settings(st: &StorageSettings) -> (r: Result<Self, String>)
        ensures
            match r {
                Ok(c) => storage_config_spec(*st) == Ok::<StorageConfigView, Seq<char>>(c@),
                Err(m) => storage_config_spec(*st) == Err::<StorageConfigView, Seq<char>>(m@),
            },
    {
        let backend = match StorageBackend::from_setting(as_opt_str(&st.storage_backend)) {
            Ok(b) => b,
            Err(m) => {
                return Err(m);
            },
        };
        let upload_dir = match &st.upload_dir {
            Some(d) => d.clone(),
            None => owned("./uploads"),
        };
        let s3 = if backend == StorageBackend::S3 {
            match S3Config::from_settings(st) {
                Ok(c) => Some(c),
                Err(m) => {
                    return Err(m);
                },
            }
        } else {
            None
        };
        let cloudinary = if backend == StorageBackend::Cloudinary {
            match CloudinaryConfig::from_settings(st) {
                Ok(c) => Some(c),
                Err(m) => {
                    return Err(m);
                },
            }
        } else {
            None
        };
        let presigned_upload_ttl_secs = setting_u64(as_opt_str(&st.presigned_upload_ttl_secs), 900);
        let presigned_download_ttl_secs = setting_u64(as_opt_str(&st.presigned_download_ttl_secs), 300);
        Ok(StorageConfig {
            backend,
            upload_dir,
            s3,
            cloudinary,
            presigned_upload_ttl_secs,
            presigned_download_ttl_secs,
        })
    }

    /// How long a presigned upload URL stays valid, in seconds.
    pub fn presigned_upload_ttl_secs(&self) -> (r: u64)
        ensures
            r == self.presigned_upload_ttl_secs,
    {
        self.presigned_upload_ttl_secs
    }

    /// How long a presigned download URL stays valid, in seconds.
    pub fn presigned_download_ttl_secs(&self) -> (r: u64)
        ensures
            r == self.presigned_download_ttl_secs,
    {
        self.presigned_download_ttl_secs
    }
}

/// The text of a UUID given by its 16 bytes: lowercase hex in groups of
/// 8-4-4-4-12 digits joined by hyphens.
pub open spec fn uuid_text_spec(b: Seq<u8>) -> Seq<char> {
    hex_spec(b.subrange(0, 4)) + seq!['-'] + hex_spec(b.subrange(4, 6)) + seq!['-'] + hex_spec(
        b.subrange(6, 8),
    ) + seq!['-'] + hex_spec(b.subrange(8, 10)) + seq!['-'] + hex_spec(b.subrange(10, 16))
}

/// The hyphenated text of a UUID (as `Uuid`'s `Display` writes it).
pub fn uuid_text(id: &[u8; 16]) -> (r: String)
    ensures
        r@ == uuid_text_spec(id@),
{
    let b = vstd::array::array_as_slice(id);
    let mut s = hex_encode(&b[0..4]);
    s.append("-");
    s.append(hex_encode(&b[4..6]).as_str());
    s.append("-");
    s.append(hex_encode(&b[6..8]).as_str());
    s.append("-");
    s.append(hex_encode(&b[8..10]).as_str());
    s.append("-");
    s.append(hex_encode(&b[10..16]).as_str());
    proof {
        reveal_strlit("-");
        assert("-"@ =~= seq!['-']);
    }
    s
}

/// The key of a file's object: `{tenant_id}/{file_id}`.
pub open spec fn object_key_spec(tenant_id: Seq<u8>, file_id: Seq<u8>) -> Seq<char> {
    uuid_text_spec(tenant_id) + seq!['/'] + uuid_text_spec(file_id)
}

/// The key of a file's object: `{tenant_id}/{file_id}`.
pub fn object_key(tenant_id: &[u8; 16], file_id: &[u8; 16]) -> (r: String)
    ensures
        r@ == object_key_spec(tenant_id@, file_id@),
{
    let mut s = uuid_text(tenant_id);
    s.append("/");
    s.append(uuid_text(file_id).as_str());
    proof {
        reveal_strlit("/");
        assert("/"@ =~= seq!['/']);
    }
    s
}

} // verus!
