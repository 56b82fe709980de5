//! Settings of the Cloudinary backend: public ids, endpoint URLs, the basic
//! authorization header and the signature of presigned upload forms.

use vstd::prelude::*;
use vstd::utf8::encode_utf8;
use base64::Engine;
use sha1::Digest;
use crate::auth::{hex_encode, hex_spec};
use crate::extraction::opt_view;
use crate::sorting::{first_after, lex_le, lex_le_chars, sort_by};
use crate::storage::{required, uuid_text, uuid_text_spec, StorageSettings};
use crate::text::{chars_of, concat2, join, join_strings, owned};

verus! {

broadcast use vstd::seq_lib::group_seq_properties;

/// Credentials and target folder of a Cloudinary account.
#[derive(Debug, Clone)]
pub struct CloudinaryConfig {
    pub cloud_name: String,
    pub api_key: String,
    pub api_secret: String,
    pub folder: Option<String>,
}

/// Mathematical view of a [`CloudinaryConfig`].
pub struct CloudinaryConfigView {
    pub cloud_name: Seq<char>,
    pub api_key: Seq<char>,
    pub api_secret: Seq<char>,
    pub folder: Option<Seq<char>>,
}

impl View for CloudinaryConfig {
    type V = CloudinaryConfigView;

    open spec fn view(&self) -> CloudinaryConfigView {
        CloudinaryConfigView {
            cloud_name: self.cloud_name@,
            api_key: self.api_key@,
            api_secret: self.api_secret@,
            folder: opt_view(self.folder),
        }
    }
}

/// The message for a required Cloudinary variable that is missing or empty.
pub open spec fn cloudinary_missing(name: Seq<char>) -> Seq<char> {
    "STORAGE_BACKEND=cloudinary requires env var '"@ + name + "'"@
}

/// The Cloudinary settings: cloud name, API key and secret are required
/// (checked in that order), the folder is kept when non-empty.
pub open spec fn cloudinary_config_spec(st: StorageSettings) -> Result<CloudinaryConfigView, Seq<char>> {
    match required(opt_view(st.cloudinary_cloud_name)) {
        None => Err(cloudinary_missing("CLOUDINARY_CLOUD_NAME"@)),
        Some(cloud_name) => match required(opt_view(st.cloudinary_api_key)) {
            None => Err(cloudinary_missing("CLOUDINARY_API_KEY"@)),
            Some(api_key) => match required(opt_view(st.cloudinary_api_secret)) {
                None => Err(cloudinary_missing("CLOUDINARY_API_SECRET"@)),
                Some(api_secret) => Ok(
                    CloudinaryConfigView {
                        cloud_name,
                        api_key,
                        api_secret,
                        folder: required(opt_view(st.cloudinary_folder)),
                    },
                ),
            },
        },
    }
}

fn require_cloudinary(v: &Option<String>, name: &str) -> (r: Result<String, String>)
    ensures
        match r {
            Ok(s) => required(opt_view(*v)) == Some(s@),
            Err(m) => required(opt_view(*v)) is None && m@ == cloudinary_missing(name@),
        },
{
    match v {
        Some(s) => if s.as_str().unicode_len() > 0 {
            return Ok(s.clone());
        },
        None => {},
    }
    let mut m = concat2("STORAGE_BACKEND=cloudinary requires env var '", name);
    m.append("'");
    Err(m)
}

/// The character of the standard base64 alphabet for the 6-bit value `v`
/// (RFC 4648, table 1): `A`-`Z`, `a`-`z`, `0`-`9`, `+`, `/`.
pub open spec fn base64_digit(v: int) -> char {
    if v < 26 {
        ('A' as int + v) as char
    } else if v < 52 {
        ('a' as int + (v - 26)) as char
    } else if v < 62 {
        ('0' as int + (v - 52)) as char
    } else if v == 62 {
        '+'
    } else {
        '/'
    }
}

/// The standard base64 encoding of `bytes` (RFC 4648, section 4): each
/// group of three bytes becomes four digits of six bits each, and a last
/// group of one or two bytes is completed with `=`.
pub open spec fn base64_standard(bytes: Seq<u8>) -> Seq<char>
    decreases bytes.len(),
{
    if bytes.len() == 0 {
        Seq::empty()
    } else if bytes.len() == 1 {
        let b0 = bytes[0] as int;
        seq![base64_digit(b0 / 4), base64_digit((b0 % 4) * 16), '=', '=']
    } else if bytes.len() == 2 {
        let b0 = bytes[0] as int;
        let b1 = bytes[1] as int;
        seq![base64_digit(b0 / 4), base64_digit((b0 % 4) * 16 + b1 / 16), base64_digit((b1 % 16) * 4), '=']
    } else {
        let b0 = bytes[0] as int;
        let b1 = bytes[1] as int;
        let b2 = bytes[2] as int;
        seq![
            base64_digit(b0 / 4),
            base64_digit((b0 % 4) * 16 + b1 / 16),
            base64_digit((b1 % 16) * 4 + b2 / 64),
            base64_digit(b2 % 64),
        ] + base64_standard(bytes.skip(3))
    }
}

/// `base64::engine::general_purpose::STANDARD.encode`: the standard
/// alphabet with padding, as `base64_standard` states it.
#[verifier::external_body]
fn base64_encode(bytes: &[u8]) -> (s: String)
    ensures
        s@ == base64_standard(bytes@),
{
    base64::engine::general_purpose::STANDARD.encode(bytes)
}

/// The SHA-1 digest of `data`.
pub uninterp spec fn sha1_digest(data: Seq<u8>) -> Seq<u8>;

/// `sha1::Sha1`: `update` with the data, then `finalize`. The digest is
/// named `sha1_digest(data@)`; it is 20 bytes long (the hash's output size).
#[verifier::external_body]
fn sha1(data: &[u8]) -> (d: Vec<u8>)
    ensures
        d@ == sha1_digest(data@),
        d@.len() == 20,
{
    let mut hasher = sha1::Sha1::new();
    hasher.update(data);
    hasher.finalize().to_vec()
}

/// Parameters ordered by name (code-point order of the names).
pub open spec fn name_order() -> spec_fn((Seq<char>, Seq<char>), (Seq<char>, Seq<char>)) -> bool {
    |a: (Seq<char>, Seq<char>), b: (Seq<char>, Seq<char>)| lex_le(a.0, b.0)
}

/// `name=value`.
pub open spec fn param_text(p: (Seq<char>, Seq<char>)) -> Seq<char> {
    p.0 + seq!['='] + p.1
}

/// The text that is signed: the parameters sorted by name (stably), as
/// `name=value` joined by `&`.
pub open spec fn signature_base(params: Seq<(Seq<char>, Seq<char>)>) -> Seq<char> {
    join(sort_by(params, name_order()).map_values(|p: (Seq<char>, Seq<char>)| param_text(p)), seq!['&'])
}

/// The signature of the parameters: the SHA-1, in lowercase hex, of the
/// signed text followed by the API secret.
pub open spec fn signature_spec(params: Seq<(Seq<char>, Seq<char>)>, api_secret: Seq<char>) -> Seq<char> {
    hex_spec(sha1_digest(encode_utf8(signature_base(params) + api_secret)))
}

pub open spec fn pair_views(v: Seq<(String, String)>) -> Seq<(Seq<char>, Seq<char>)> {
    v.map_values(|p: (String, String)| (p.0@, p.1@))
}

/// The parameters sorted by name, stably.
fn sort_params(params: &Vec<(String, String)>) -> (r: Vec<(String, String)>)
    ensures
        pair_views(r@) == sort_by(pair_views(params@), name_order()),
{
    let mut r: Vec<(String, String)> = Vec::new();
    let mut k: usize = 0;
    while k < params.len()
        invariant
            k <= params@.len(),
            pair_views(r@) == sort_by(pair_views(params@).take(k as int), name_order()),
        decreases params@.len() - k,
    {
        let x = &params[k];
        let xk = chars_of(x.0.as_str());
        let ghost xv = (x.0@, x.1@);
        let mut p: usize = 0;
        let ghost rv = pair_views(r@);
        while p < r.len() && lex_le_chars(chars_of(r[p].0.as_str()).as_slice(), xk.as_slice())
            invariant
                p <= r@.len(),
                rv == pair_views(r@),
                xk@ == xv.0,
                first_after(rv, xv, name_order()) == p + first_after(rv.skip(p as int), xv, name_order()),
            decreases r@.len() - p,
        {
            proof {
                assert(rv.skip(p as int)[0] == rv[p as int]);
                assert(rv.skip(p as int).drop_first() =~= rv.skip(p + 1));
            }
            p = p + 1;
        }
        proof {
            if p < r.len() {
                assert(rv.skip(p as int)[0] == rv[p as int]);
            } else {
                assert(rv.skip(p as int) =~= Seq::<(Seq<char>, Seq<char>)>::empty());
            }
            assert(rv.skip(0) =~= rv);
            let taken = pair_views(params@).take(k + 1);
            assert(taken.drop_last() =~= pair_views(params@).take(k as int));
            assert(taken.last() == xv);
        }
        let copy = (x.0.clone(), x.1.clone());
        proof {
            assert(pair_views(r@.insert(p as int, copy)) =~= pair_views(r@).insert(p as int, xv));
        }
        r.insert(p, copy);
        k = k + 1;
    }
    proof {
        assert(pair_views(params@).take(params@.len() as int) =~= pair_views(params@));
    }
    r
}

impl CloudinaryConfig {
    /// The Cloudinary configuration described by the settings.
    pub fn from_settings(st: &StorageSettings) -> (r: Result<Self, String>)
        ensures
            match r {
                Ok(c) => cloudinary_config_spec(*st) == Ok::<CloudinaryConfigView, Seq<char>>(c@),
                Err(m) => cloudinary_config_spec(*st) == Err::<CloudinaryConfigView, Seq<char>>(m@),
            },
    {
        let cloud_name = require_cloudinary(&st.cloudinary_cloud_name, "CLOUDINARY_CLOUD_NAME")?;
        let api_key = require_cloudinary(&st.cloudinary_api_key, "CLOUDINARY_API_KEY")?;
        let api_secret = require_cloudinary(&st.cloudinary_api_secret, "CLOUDINARY_API_SECRET")?;
        let folder = match &st.cloudinary_folder {
            Some(f) => if f.as_str().unicode_len() > 0 {
                Some(f.clone())
            } else {
                None
            },
            None => None,
        };
        Ok(CloudinaryConfig { cloud_name, api_key, api_secret, folder })
    }

    /// `Basic ` and the base64 of `api_key:api_secret`.
    pub fn basic_auth_header(&self) -> (r: String)
        ensures
            r@ == "Basic "@ + base64_standard(encode_utf8(self.api_key@ + ":"@ + self.api_secret@)),
    {
        let mut raw = concat2(self.api_key.as_str(), ":");
        raw.append(self.api_secret.as_str());
        concat2("Basic ", base64_encode(raw.as_str().as_bytes()).as_str())
    }

    /// The public id of a file: `{folder}/{tenant_id}/{file_id}`, or
    /// `{tenant_id}/{file_id}` without a folder.
    pub open spec fn public_id_spec(&self, tenant_id: Seq<u8>, file_id: Seq<u8>) -> Seq<char> {
        let ids = uuid_text_spec(tenant_id) + seq!['/'] + uuid_text_spec(file_id);
        match self.folder {
            Some(f) => f@ + seq!['/'] + ids,
            None => ids,
        }
    }

    /// The public id of a file.
    pub fn public_id(&self, tenant_id: &[u8; 16], file_id: &[u8; 16]) -> (r: String)
        ensures
            r@ == self.public_id_spec(tenant_id@, file_id@),
    {
        let ids = crate::storage::object_key(tenant_id, file_id);
        match &self.folder {
            Some(f) => {
                let mut s = concat2(f.as_str(), "/");
                s.append(ids.as_str());
                proof {
                    reveal_strlit("/");
                    assert(s@ =~= f@ + seq!['/'] + ids@);
                }
                s
            },
            None => ids,
        }
    }

    /// `https://api.cloudinary.com/v1_1/{cloud_name}/image/upload`.
    pub fn upload_url(&self) -> (r: String)
        ensures
            r@ == "https://api.cloudinary.com/v1_1/"@ + self.cloud_name@ + "/image/upload"@,
    {
        let mut s = concat2("https://api.cloudinary.com/v1_1/", self.cloud_name.as_str());
        s.append("/image/upload");
        s
    }

    /// `https://api.cloudinary.com/v1_1/{cloud_name}/image/destroy`.
    pub fn destroy_url(&self) -> (r: String)
        ensures
            r@ == "https://api.cloudinary.com/v1_1/"@ + self.cloud_name@ + "/image/destroy"@,
    {
        let mut s = concat2("https://api.cloudinary.com/v1_1/", self.cloud_name.as_str());
        s.append("/image/destroy");
        s
    }

    /// `https://res.cloudinary.com/{cloud_name}/image/upload/{public_id}`.
    pub fn cdn_url(&self, public_id: &str) -> (r: String)
        ensures
            r@ == "https://res.cloudinary.com/"@ + self.cloud_name@ + "/image/upload/"@ + public_id@,
    {
        let mut s = concat2("https://res.cloudinary.com/", self.cloud_name.as_str());
        s.append("/image/upload/");
        s.append(public_id);
        s
    }

    /// The signature of upload parameters under this account's secret.
    pub fn sign_params(&self, params: &Vec<(String, String)>) -> (r: String)
        ensures
            r@ == signature_spec(pair_views(params@), self.api_secret@),
    {
        let sorted = sort_params(params);
        let mut parts: Vec<String> = Vec::new();
        let mut k: usize = 0;
        let ghost sv = pair_views(sorted@);
        while k < sorted.len()
            invariant
                k <= sorted@.len(),
                sv == pair_views(sorted@),
                parts@.map_values(|p: String| p@) == sv.take(k as int).map_values(
                    |p: (Seq<char>, Seq<char>)| param_text(p),
                ),
            decreases sorted@.len() - k,
        {
            let mut t = concat2(sorted[k].0.as_str(), "=");
            t.append(sorted[k].1.as_str());
            let ghost before = parts@;
            proof {
                reveal_strlit("=");
                assert(t@ =~= param_text(sv[k as int]));
            }
            parts.push(t);
            proof {
                assert(parts@.map_values(|p: String| p@) =~= before.map_values(|p: String| p@).push(t@));
                assert(sv.take(k + 1).map_values(|p: (Seq<char>, Seq<char>)| param_text(p)) =~= sv.take(
                    k as int,
                ).map_values(|p: (Seq<char>, Seq<char>)| param_text(p)).push(param_text(sv[k as int])));
            }
            k = k + 1;
        }
        let body = join_strings(&parts, "&");
        let mut to_hash = body;
        to_hash.append(self.api_secret.as_str());
        let digest = sha1(to_hash.as_str().as_bytes());
        proof {
            reveal_strlit("&");
            assert("&"@ =~= seq!['&']);
            assert(sv.take(sorted@.len() as int) =~= sv);
        }
        hex_encode(digest.as_slice())
    }

    /// The text fields of a direct upload of `public_id` (the file itself
    /// is sent beside them): public id, resource type, overwrite flag, and
    /// the folder when there is one.
    pub fn store_form_fields(&self, public_id: &str) -> (r: Vec<(String, String)>)
        ensures
            pair_views(r@) == ({
                let base = seq![("public_id"@, public_id@), ("resource_type"@, "image"@), ("overwrite"@, "true"@)];
                match self.folder {
                    Some(f) => base.push(("folder"@, f@)),
                    None => base,
                }
            }),
    {
        let mut fields: Vec<(String, String)> = Vec::new();
        fields.push((owned("public_id"), owned(public_id)));
        fields.push((owned("resource_type"), owned("image")));
        fields.push((owned("overwrite"), owned("true")));
        match &self.folder {
            Some(f) => fields.push((owned("folder"), f.clone())),
            None => {},
        }
        proof {
            let base = seq![("public_id"@, public_id@), ("resource_type"@, "image"@), ("overwrite"@, "true"@)];
            assert(pair_views(fields@) =~= match self.folder {
                Some(f) => base.push(("folder"@, f@)),
                None => base,
            });
        }
        fields
    }

    /// The signed parameters of a presigned upload: overwrite, public id,
    /// timestamp, and the folder when there is one.
    pub open spec fn upload_params_spec(&self, public_id: Seq<char>, timestamp: Seq<char>) -> Seq<
        (Seq<char>, Seq<char>),
    > {
        let base = seq![("overwrite"@, "true"@), ("public_id"@, public_id), ("timestamp"@, timestamp)];
        match self.folder {
            Some(f) => base.push(("folder"@, f@)),
            None => base,
        }
    }

    /// The form fields of a presigned upload: API key, timestamp, signature,
    /// public id, overwrite flag, and the folder when there is one.
    pub open spec fn upload_form_spec(&self, public_id: Seq<char>, timestamp: Seq<char>) -> Seq<
        (Seq<char>, Seq<char>),
    > {
        let signature = signature_spec(self.upload_params_spec(public_id, timestamp), self.api_secret@);
        let base = seq![
            ("api_key"@, self.api_key@),
            ("timestamp"@, timestamp),
            ("signature"@, signature),
            ("public_id"@, public_id),
            ("overwrite"@, "true"@),
        ];
        match self.folder {
            Some(f) => base.push(("folder"@, f@)),
            None => base,
        }
    }

    /// The form fields a client posts with a presigned upload of
    /// `public_id` made at `timestamp` (seconds, as text).
    pub fn presigned_form_fields(&self, public_id: &str, timestamp: &str) -> (r: Vec<(String, String)>)
        ensures
            pair_views(r@) == self.upload_form_spec(public_id@, timestamp@),
    {
        let mut params: Vec<(String, String)> = Vec::new();
        params.push((owned("overwrite"), owned("true")));
        params.push((owned("public_id"), owned(public_id)));
        params.push((owned("timestamp"), owned(timestamp)));
        match &self.folder {
            Some(f) => params.push((owned("folder"), f.clone())),
            None => {},
        }
        proof {
            assert(pair_views(params@) =~= self.upload_params_spec(public_id@, timestamp@));
        }
        let signature = self.sign_params(&params);
        let mut fields: Vec<(String, String)> = Vec::new();
        fields.push((owned("api_key"), self.api_key.clone()));
        fields.push((owned("timestamp"), owned(timestamp)));
        fields.push((owned("signature"), signature));
        fields.push((owned("public_id"), owned(public_id)));
        fields.push((owned("overwrite"), owned("true")));
        match &self.folder {
            Some(f) => fields.push((owned("folder"), f.clone())),
            None => {},
        }
        proof {
            assert(pair_views(fields@) =~= self.upload_form_spec(public_id@, timestamp@));
        }
        fields
    }
}

} // verus!
