//! API keys: random `pk_live_` keys, the SHA-256 fingerprint under which a
//! key is stored (lowercase hex), and the short prefix shown to users.

use vstd::prelude::*;
use vstd::utf8::encode_utf8;
use sha2::Digest;
use crate::text::{chars_of, concat2, string_from_chars};

verus! {

broadcast use vstd::seq_lib::group_seq_properties;

/// A freshly generated API key: the key itself, its stored fingerprint and
/// its display prefix.
pub struct GeneratedKey {
    pub raw: String,
    pub hash: String,
    pub prefix: String,
}

/// The lowercase hexadecimal digit for `n < 16`.
pub open spec fn hex_digit(n: nat) -> char {
    if n < 10 {
        ((n + 48) as u8) as char
    } else {
        ((n + 87) as u8) as char
    }
}

/// Two lowercase hex digits per byte, most significant digit first.
pub open spec fn hex_spec(bytes: Seq<u8>) -> Seq<char>
    decreases bytes.len(),
{
    if bytes.len() == 0 {
        Seq::empty()
    } else {
        hex_spec(bytes.drop_last()) + seq![
            hex_digit((bytes.last() / 16) as nat),
            hex_digit((bytes.last() % 16) as nat),
        ]
    }
}

/// A lowercase hexadecimal digit.
pub open spec fn is_hex_digit(c: char) -> bool {
    ('0' <= c && c <= '9') || ('a' <= c && c <= 'f')
}

/// Hex encoding doubles the length and uses lowercase hex digits only.
pub proof fn lemma_hex_spec(bytes: Seq<u8>)
    ensures
        hex_spec(bytes).len() == 2 * bytes.len(),
        forall|i: int| 0 <= i < hex_spec(bytes).len() ==> is_hex_digit(#[trigger] hex_spec(bytes)[i]),
    decreases bytes.len(),
{
    if bytes.len() > 0 {
        lemma_hex_spec(bytes.drop_last());
        let b = bytes.last();
        let hi = (b / 16) as nat;
        let lo = (b % 16) as nat;
        assert(is_hex_digit(hex_digit(hi)) && is_hex_digit(hex_digit(lo))) by {
            assert(hi < 16 && lo < 16);
        }
    }
}

fn hex_char(n: u8) -> (c: char)
    requires
        n < 16,
    ensures
        c == hex_digit(n as nat),
{
    if n < 10 {
        (n + 48) as char
    } else {
        (n + 87) as char
    }
}

/// Lowercase hex encoding (`{:02x}` per byte).
pub fn hex_encode(bytes: &[u8]) -> (s: String)
    ensures
        s@ == hex_spec(bytes@),
{
    let mut out: Vec<char> = Vec::new();
    let mut i: usize = 0;
    while i < bytes.len()
        invariant
            i <= bytes@.len(),
            out@ == hex_spec(bytes@.take(i as int)),
        decreases bytes@.len() - i,
    {
        let b = bytes[i];
        out.push(hex_char(b / 16));
        out.push(hex_char(b % 16));
        proof {
            assert(bytes@.take(i + 1).drop_last() =~= bytes@.take(i as int));
            assert(bytes@.take(i + 1).last() == b);
            assert(out@ =~= hex_spec(bytes@.take(i + 1)));
        }
        i = i + 1;
    }
    proof {
        assert(bytes@.take(bytes@.len() as int) =~= bytes@);
    }
    string_from_chars(out.as_slice())
}

/// The SHA-256 digest of `data`.
pub uninterp spec fn sha256_digest(data: Seq<u8>) -> Seq<u8>;

/// `sha2::Sha256`: `update` with the data, then `finalize`. The digest is
/// named `sha256_digest(data@)`; it is 32 bytes long (the hash's output
/// size).
#[verifier::external_body]
fn sha256(data: &[u8]) -> (d: Vec<u8>)
    ensures
        d@ == sha256_digest(data@),
        d@.len() == 32,
{
    let mut hasher = sha2::Sha256::new();
    hasher.update(data);
    hasher.finalize().to_vec()
}

/// The fingerprint a key is stored under: the SHA-256 of its UTF-8 bytes,
/// in lowercase hex.
pub open spec fn key_hash_spec(raw: Seq<char>) -> Seq<char> {
    hex_spec(sha256_digest(encode_utf8(raw)))
}

/// The fingerprint of an API key.
pub fn hash_key(raw: &str) -> (h: String)
    ensures
        h@ == key_hash_spec(raw@),
        h@.len() == 64,
{
    let d = sha256(raw.as_bytes());
    proof {
        lemma_hex_spec(d@);
    }
    hex_encode(d.as_slice())
}

/// The tag every key starts with.
pub open spec fn key_tag() -> Seq<char> {
    "pk_live_"@
}

/// The key made of the random bytes `bytes`.
pub open spec fn raw_key_spec(bytes: Seq<u8>) -> Seq<char> {
    key_tag() + hex_spec(bytes)
}

/// The first 16 characters of a key (all of it when shorter).
pub open spec fn key_prefix_spec(raw: Seq<char>) -> Seq<char> {
    if raw.len() <= 16 {
        raw
    } else {
        raw.take(16)
    }
}

/// The key, fingerprint and prefix made of the random bytes `bytes`.
pub open spec fn key_from_bytes_spec(k: GeneratedKey, bytes: Seq<u8>) -> bool {
    &&& k.raw@ == raw_key_spec(bytes)
    &&& k.hash@ == key_hash_spec(k.raw@)
    &&& k.prefix@ == key_prefix_spec(k.raw@)
}

/// The key made of the given random bytes: `pk_live_` and the bytes in
/// hex, with its fingerprint and its 16-character prefix.
pub fn api_key_from_bytes(bytes: &[u8]) -> (k: GeneratedKey)
    ensures
        key_from_bytes_spec(k, bytes@),
        k.hash@.len() == 64,
{
    let body = hex_encode(bytes);
    let raw = concat2("pk_live_", body.as_str());
    let hash = hash_key(raw.as_str());
    let cs = chars_of(raw.as_str());
    let n: usize = if cs.len() <= 16 {
        cs.len()
    } else {
        16
    };
    let prefix = string_from_chars(crate::text::copy_range(cs.as_slice(), 0, n).as_slice());
    proof {
        if cs@.len() <= 16 {
            assert(cs@.subrange(0, n as int) =~= cs@);
        }
    }
    GeneratedKey { raw, hash, prefix }
}

/// The 16 bytes of a random version-4 UUID (`Uuid::new_v4`). Nothing is
/// claimed of their values, which come from the system's randomness.
#[verifier::external_body]
fn random_uuid_bytes() -> (b: Vec<u8>)
    ensures
        b@.len() == 16,
{
    uuid::Uuid::new_v4().as_bytes().to_vec()
}

/// A new random API key: `pk_live_` followed by 32 random bytes (two v4
/// UUIDs) in lowercase hex, its SHA-256 fingerprint and its 16-character
/// display prefix.
pub fn generate_api_key() -> (k: GeneratedKey)
    ensures
        exists|b: Seq<u8>| b.len() == 32 && #[trigger] key_from_bytes_spec(k, b),
        k.raw@.len() == 72,
        k.raw@.take(8) == key_tag(),
        k.hash@.len() == 64,
        k.prefix@ == k.raw@.take(16),
{
    let mut bytes = random_uuid_bytes();
    let mut more = random_uuid_bytes();
    bytes.append(&mut more);
    let k = api_key_from_bytes(bytes.as_slice());
    proof {
        lemma_hex_spec(bytes@);
        reveal_strlit("pk_live_");
        assert(k.raw@.take(8) =~= key_tag());
    }
    k
}

} // verus!
