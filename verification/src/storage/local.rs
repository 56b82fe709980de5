//! The local-disk backend: objects live under a base directory, one file
//! per key.

use vstd::prelude::*;
use crate::storage::{object_key, object_key_spec, uuid_text, uuid_text_spec};
use crate::text::{chars_of, concat2, owned, string_from_chars};

verus! {

/// Files kept under a base directory.
#[derive(Debug, Clone)]
pub struct LocalFileStorage {
    base_path: String,
}

/// `base` joined with `path` as `PathBuf::join` does on Unix: an absolute
/// `path` replaces `base`; otherwise a `/` is put between them unless
/// `base` is empty or already ends with one.
pub open spec fn path_join(base: Seq<char>, path: Seq<char>) -> Seq<char> {
    if path.len() > 0 && path[0] == '/' {
        path
    } else if base.len() > 0 && base.last() != '/' {
        base + seq!['/'] + path
    } else {
        base + path
    }
}

impl LocalFileStorage {
    /// The base directory.
    pub closed spec fn base_path_spec(&self) -> Seq<char> {
        self.base_path@
    }

    pub fn new(base_path: String) -> (s: Self)
        ensures
            s.base_path_spec() == base_path@,
    {
        LocalFileStorage { base_path }
    }

    /// The base directory.
    pub fn base_path(&self) -> (r: &str)
        ensures
            r@ == self.base_path_spec(),
    {
        self.base_path.as_str()
    }

    /// The key of a file: `{tenant_id}/{file_id}`.
    pub fn key(tenant_id: &[u8; 16], file_id: &[u8; 16]) -> (r: String)
        ensures
            r@ == object_key_spec(tenant_id@, file_id@),
    {
        object_key(tenant_id, file_id)
    }

    /// Where the object with key `key` is stored.
    pub fn path_for(&self, key: &str) -> (r: String)
        ensures
            r@ == path_join(self.base_path_spec(), key@),
    {
        let k = chars_of(key);
        if k.len() > 0 && k[0] == '/' {
            return owned(key);
        }
        let b = chars_of(self.base_path.as_str());
        if b.len() > 0 && b[b.len() - 1] != '/' {
            let mut s = concat2(self.base_path.as_str(), "/");
            s.append(key);
            proof {
                reveal_strlit("/");
                assert(s@ =~= self.base_path@ + seq!['/'] + key@);
            }
            s
        } else {
            concat2(self.base_path.as_str(), key)
        }
    }

    /// The address a stored file is served from: `/files/{file_id}/content`.
    pub fn download_path(file_id: &[u8; 16]) -> (r: String)
        ensures
            r@ == "/files/"@ + uuid_text_spec(file_id@) + "/content"@,
    {
        let mut s = concat2("/files/", uuid_text(file_id).as_str());
        s.append("/content");
        s
    }
}

} // verus!
