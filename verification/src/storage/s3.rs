//! Settings of the S3 backend.

use vstd::prelude::*;
use crate::extraction::opt_view;
use crate::storage::{as_opt_str, normalize_setting, normalized, object_key, object_key_spec, required, uuid_text_spec, StorageSettings};
use crate::text::{concat2, str_eq};

verus! {

/// Connection settings of an S3 bucket.
#[derive(Debug, Clone)]
pub struct S3Config {
    pub bucket: String,
    pub region: String,
    pub endpoint: Option<String>,
    pub force_path_style: bool,
    pub access_key_id: String,
    pub secret_access_key: String,
}

/// Mathematical view of an [`S3Config`].
pub struct S3ConfigView {
    pub bucket: Seq<char>,
    pub region: Seq<char>,
    pub endpoint: Option<Seq<char>>,
    pub force_path_style: bool,
    pub access_key_id: Seq<char>,
    pub secret_access_key: Seq<char>,
}

impl View for S3Config {
    type V = S3ConfigView;

    open spec fn view(&self) -> S3ConfigView {
        S3ConfigView {
            bucket: self.bucket@,
            region: self.region@,
            endpoint: opt_view(self.endpoint),
            force_path_style: self.force_path_style,
            access_key_id: self.access_key_id@,
            secret_access_key: self.secret_access_key@,
        }
    }
}

/// The message for a required S3 variable that is missing or empty.
pub open spec fn s3_missing(name: Seq<char>) -> Seq<char> {
    "STORAGE_BACKEND=s3 requires env var '"@ + name + "'"@
}

/// Whether a flag setting is on: `1`, `true` or `yes`, ignoring surrounding
/// whitespace and ASCII case.
pub open spec fn flag_on(raw: Option<Seq<char>>) -> bool {
    match raw {
        Some(v) => normalized(v) == "1"@ || normalized(v) == "true"@ || normalized(v) == "yes"@,
        None => false,
    }
}

/// The S3 settings: bucket, region, access key id and secret are required
/// (checked in that order), the endpoint is kept when non-empty.
pub open spec fn s3_config_spec(st: StorageSettings) -> Result<S3ConfigView, Seq<char>> {
    match required(opt_view(st.s3_bucket)) {
        None => Err(s3_missing("S3_BUCKET"@)),
        Some(bucket) => match required(opt_view(st.s3_region)) {
            None => Err(s3_missing("S3_REGION"@)),
            Some(region) => match required(opt_view(st.s3_access_key_id)) {
                None => Err(s3_missing("S3_ACCESS_KEY_ID"@)),
                Some(access_key_id) => match required(opt_view(st.s3_secret_access_key)) {
                    None => Err(s3_missing("S3_SECRET_ACCESS_KEY"@)),
                    Some(secret_access_key) => Ok(
                        S3ConfigView {
                            bucket,
                            region,
                            endpoint: required(opt_view(st.s3_endpoint)),
                            force_path_style: flag_on(opt_view(st.s3_force_path_style)),
                            access_key_id,
                            secret_access_key,
                        },
                    ),
                },
            },
        },
    }
}

/// A required setting, or the message naming its variable.
fn require_s3(v: &Option<String>, name: &str) -> (r: Result<String, String>)
    ensures
        match r {
            Ok(s) => required(opt_view(*v)) == Some(s@),
            Err(m) => required(opt_view(*v)) is None && m@ == s3_missing(name@),
        },
{
    match v {
        Some(s) => if s.as_str().unicode_len() > 0 {
            return Ok(s.clone());
        },
        None => {},
    }
    let mut m = concat2("STORAGE_BACKEND=s3 requires env var '", name);
    m.append("'");
    Err(m)
}

fn flag_setting(raw: Option<&str>) -> (b: bool)
    ensures
        b == flag_on(crate::storage::opt_str_view(raw)),
{
    match raw {
        Some(v) => {
            let n = normalize_setting(v);
            str_eq(n.as_str(), "1") || str_eq(n.as_str(), "true") || str_eq(n.as_str(), "yes")
        },
        None => false,
    }
}

impl S3Config {
    /// The S3 configuration described by the settings.
    pub fn from_settings(st: &StorageSettings) -> (r: Result<Self, String>)
        ensures
            match r {
                Ok(c) => s3_config_spec(*st) == Ok::<S3ConfigView, Seq<char>>(c@),
                Err(m) => s3_config_spec(*st) == Err::<S3ConfigView, Seq<char>>(m@),
            },
    {
        let bucket = require_s3(&st.s3_bucket, "S3_BUCKET")?;
        let region = require_s3(&st.s3_region, "S3_REGION")?;
        let access_key_id = require_s3(&st.s3_access_key_id, "S3_ACCESS_KEY_ID")?;
        let secret_access_key = require_s3(&st.s3_secret_access_key, "S3_SECRET_ACCESS_KEY")?;
        let endpoint = match &st.s3_endpoint {
            Some(e) => if e.as_str().unicode_len() > 0 {
                Some(e.clone())
            } else {
                None
            },
            None => None,
        };
        let force_path_style = flag_setting(as_opt_str(&st.s3_force_path_style));
        Ok(S3Config { bucket, region, endpoint, force_path_style, access_key_id, secret_access_key })
    }

    /// The key of a file's object in the bucket: `{tenant_id}/{file_id}`,
    /// the same shape as the local backend's.
    pub fn key(tenant_id: &[u8; 16], file_id: &[u8; 16]) -> (r: String)
        ensures
            r@ == object_key_spec(tenant_id@, file_id@),
    {
        object_key(tenant_id, file_id)
    }
}

/// Both backends key a file as `{tenant_id}/{file_id}`: the S3 key and the
/// local key of the same file are one text, the two ids' hyphenated forms
/// joined by `/`.
pub proof fn lemma_backends_share_keys(tenant_id: [u8; 16], file_id: [u8; 16], s3_key: Seq<char>, local_key: Seq<char>)
    requires
        s3_key == object_key_spec(tenant_id@, file_id@),
        local_key == object_key_spec(tenant_id@, file_id@),
    ensures
        s3_key == local_key,
        s3_key == uuid_text_spec(tenant_id@) + seq!['/'] + uuid_text_spec(file_id@),
{
}

} // verus!