//! The check a docx package passes before `docx_rs` reads it. The reader of
//! `docx_rs` takes the first attribute of some elements without looking
//! whether there is one, expects an id on every comment and a paragraph id
//! on every extended comment, and unwraps the reading of every part it
//! opens. A package passes when every archive entry reads to its end and,
//! in every entry, every start tag of those elements carries what the
//! reader takes from it.

use vstd::prelude::*;
use crate::extraction::ooxml_media::{opt_char_views, zip_entry_bytes, zip_entry_names, zip_list_entries, zip_read_entry};
use crate::text::{ascii_bytes, bytes_spell, chars_eq, chars_of, string_from_chars};

verus! {

/// Space, tab, line feed or carriage return.
pub open spec fn is_space(c: u8) -> bool {
    c == 0x20 || c == 0x09 || c == 0x0A || c == 0x0D
}

/// A byte that ends an element name: a space, `/` or `>`.
pub open spec fn is_name_delim(c: u8) -> bool {
    is_space(c) || c == 0x2F || c == 0x3E
}

/// Quoting after byte `c` in quoting state `q` (0 outside quotes, 1 inside
/// `"..."`, 2 inside `'...'`).
pub open spec fn next_quote(q: u8, c: u8) -> u8 {
    if q == 0 {
        if c == 0x22 {
            1
        } else if c == 0x27 {
            2
        } else {
            0
        }
    } else if q == 1 {
        if c == 0x22 {
            0
        } else {
            1
        }
    } else {
        if c == 0x27 {
            0
        } else {
            2
        }
    }
}

/// The end of the element name that starts at `j`.
pub open spec fn name_end(b: Seq<u8>, j: int) -> int
    decreases b.len() - j,
{
    if j < 0 || j >= b.len() || is_name_delim(b[j]) {
        j
    } else {
        name_end(b, j + 1)
    }
}

/// The first `:` in `b[j..e]`, or `e` when there is none.
pub open spec fn first_colon(b: Seq<u8>, j: int, e: int) -> int
    decreases e - j,
{
    if j >= e {
        e
    } else if b[j] == 0x3A {
        j
    } else {
        first_colon(b, j + 1, e)
    }
}

/// The local part of the name `n`, as the reader splits it: what follows
/// its first `:`, or all of it.
pub open spec fn local_part(n: Seq<u8>) -> Seq<u8> {
    let c = first_colon(n, 0, n.len() as int);
    if c < n.len() {
        n.subrange(c + 1, n.len() as int)
    } else {
        n
    }
}

/// The first `>` at or after `j` that is outside quotes (the length of `b`
/// when there is none), starting in quoting state `q`.
pub open spec fn tag_end(b: Seq<u8>, j: int, q: u8) -> int
    decreases b.len() - j,
{
    if j < 0 || j >= b.len() {
        b.len() as int
    } else if q == 0 && b[j] == 0x3E {
        j
    } else {
        tag_end(b, j + 1, next_quote(q, b[j]))
    }
}

/// Where the attribute name that ends at `j` starts: after the last space
/// before `j`, but not before `lo`.
pub open spec fn attr_name_start(b: Seq<u8>, lo: int, j: int) -> int
    decreases j - lo,
{
    if j <= lo || is_space(b[j - 1]) {
        j
    } else {
        attr_name_start(b, lo, j - 1)
    }
}

/// The `=` signs in `b[j..end]` outside quotes, starting in quoting state
/// `q`: one for each attribute of a tag whose attributes run over
/// `b[j..end]`.
pub open spec fn attr_count(b: Seq<u8>, j: int, end: int, q: u8) -> nat
    decreases end - j,
{
    if j < 0 || j >= end || j >= b.len() {
        0
    } else {
        let here: nat = if q == 0 && b[j] == 0x3D {
            1
        } else {
            0
        };
        here + attr_count(b, j + 1, end, next_quote(q, b[j]))
    }
}

/// The tag whose attributes start at `lo` has, in `b[j..end]` outside
/// quotes, an `=` right after a name whose local part is `a`.
pub open spec fn has_named_attr(b: Seq<u8>, lo: int, j: int, end: int, q: u8, a: Seq<u8>) -> bool
    decreases end - j,
{
    if j < 0 || j >= end || j >= b.len() {
        false
    } else {
        (q == 0 && b[j] == 0x3D && local_part(b.subrange(attr_name_start(b, lo, j), j)) == a)
            || has_named_attr(b, lo, j + 1, end, next_quote(q, b[j]), a)
    }
}

/// The elements whose first attribute `docx_rs` reads unchecked.
pub open spec fn needs_attribute(l: Seq<u8>) -> bool {
    ||| l == ascii_bytes("pStyle"@)
    ||| l == ascii_bytes("start"@)
    ||| l == ascii_bytes("numFmt"@)
    ||| l == ascii_bytes("suff"@)
    ||| l == ascii_bytes("lvlText"@)
    ||| l == ascii_bytes("lvlRestart"@)
    ||| l == ascii_bytes("lvlJc"@)
    ||| l == ascii_bytes("startOverride"@)
    ||| l == ascii_bytes("lvlOverride"@)
    ||| l == ascii_bytes("ilvl"@)
    ||| l == ascii_bytes("numId"@)
    ||| l == ascii_bytes("styleLink"@)
    ||| l == ascii_bytes("numStyleLink"@)
    ||| l == ascii_bytes("abstractNumId"@)
    ||| l == ascii_bytes("jc"@)
    ||| l == ascii_bytes("textAlignment"@)
    ||| l == ascii_bytes("highlight"@)
    ||| l == ascii_bytes("vertAlign"@)
    ||| l == ascii_bytes("sz"@)
    ||| l == ascii_bytes("u"@)
    ||| l == ascii_bytes("name"@)
}

/// `b[i]` opens a start tag: `<` not followed by `/`, `!` or `?`.
pub open spec fn is_start_tag(b: Seq<u8>, i: int) -> bool {
    0 <= i && i + 1 < b.len() && b[i] == 0x3C && b[i + 1] != 0x2F && b[i + 1] != 0x21 && b[i + 1] != 0x3F
}

/// The start tag at `i` of the entry named `entry` carries what the reader
/// takes from it: an attribute on the elements of [`needs_attribute`], an
/// `id` on a comment, a `paraId` on an extended comment, and two
/// attributes on every element of the content types part but its root.
pub open spec fn tag_ok(entry: Seq<char>, b: Seq<u8>, i: int) -> bool {
    let ne = name_end(b, i + 1);
    let l = local_part(b.subrange(i + 1, ne));
    let te = tag_end(b, ne, 0);
    &&& needs_attribute(l) ==> attr_count(b, ne, te, 0) >= 1
    &&& l == ascii_bytes("comment"@) ==> has_named_attr(b, ne, ne, te, 0, ascii_bytes("id"@))
    &&& l == ascii_bytes("commentEx"@) ==> has_named_attr(b, ne, ne, te, 0, ascii_bytes("paraId"@))
    &&& (entry == "[Content_Types].xml"@ && l != ascii_bytes("Types"@)) ==> attr_count(b, ne, te, 0) >= 2
}

/// Every start tag at or after `i` is [`tag_ok`].
pub open spec fn tags_ok_from(entry: Seq<char>, b: Seq<u8>, i: int) -> bool
    decreases b.len() - i,
{
    if i < 0 || i >= b.len() {
        true
    } else {
        (is_start_tag(b, i) ==> tag_ok(entry, b, i)) && tags_ok_from(entry, b, i + 1)
    }
}

/// The entry starts as UTF-16 text would (a byte-order mark, or `<` next
/// to a zero byte); its tags cannot be read byte by byte.
pub open spec fn utf16_marked(b: Seq<u8>) -> bool {
    b.len() >= 2 && ((b[0] == 0xFE && b[1] == 0xFF) || (b[0] == 0xFF && b[1] == 0xFE) || (b[0] == 0
        && b[1] == 0x3C) || (b[0] == 0x3C && b[1] == 0))
}

/// The entry named `entry`, with bytes `b`, passes.
pub open spec fn part_safe(entry: Seq<char>, b: Seq<u8>) -> bool {
    !utf16_marked(b) && tags_ok_from(entry, b, 0)
}

/// The package in `buf` passes: every named entry reads to its end and
/// is [`part_safe`] (an archive that does not open passes: `docx_rs` then
/// reports the error itself).
pub open spec fn docx_parts_safe(buf: Seq<u8>) -> bool {
    match zip_entry_names(buf) {
        None => true,
        Some(names) => forall|i: int|
            0 <= i < names.len() ==> match #[trigger] names[i] {
                Some(n) => match zip_entry_bytes(buf, n) {
                    Some(b) => part_safe(n, b),
                    None => false,
                },
                None => true,
            },
    }
}

fn is_space_byte(c: u8) -> (r: bool)
    ensures
        r == is_space(c),
{
    c == 0x20 || c == 0x09 || c == 0x0A || c == 0x0D
}

fn quote_after(q: u8, c: u8) -> (r: u8)
    ensures
        r == next_quote(q, c),
{
    if q == 0 {
        if c == 0x22 {
            1
        } else if c == 0x27 {
            2
        } else {
            0
        }
    } else if q == 1 {
        if c == 0x22 {
            0
        } else {
            1
        }
    } else {
        if c == 0x27 {
            0
        } else {
            2
        }
    }
}

fn find_name_end(b: &[u8], j: usize) -> (r: usize)
    requires
        j <= b@.len(),
    ensures
        r == name_end(b@, j as int),
        j <= r <= b@.len(),
{
    let mut k = j;
    while k < b.len() && !(is_space_byte(b[k]) || b[k] == 0x2F || b[k] == 0x3E)
        invariant
            j <= k <= b@.len(),
            name_end(b@, j as int) == name_end(b@, k as int),
        decreases b@.len() - k,
    {
        k = k + 1;
    }
    k
}

fn find_first_colon(b: &[u8], j: usize, e: usize) -> (r: usize)
    requires
        j <= e <= b@.len(),
    ensures
        r == first_colon(b@, j as int, e as int),
        j <= r <= e,
{
    let mut k = j;
    while k < e && b[k] != 0x3A
        invariant
            j <= k <= e,
            e <= b@.len(),
            first_colon(b@, j as int, e as int) == first_colon(b@, k as int, e as int),
        decreases e - k,
    {
        k = k + 1;
    }
    k
}

proof fn lemma_first_colon_shift(b: Seq<u8>, lo: int, j: int, e: int)
    requires
        0 <= lo <= j <= e <= b.len(),
    ensures
        first_colon(b.subrange(lo, e), j - lo, e - lo) == first_colon(b, j, e) - lo,
    decreases e - j,
{
    if j < e {
        lemma_first_colon_shift(b, lo, j + 1, e);
    }
}

/// Where the local part of the name `b[lo..e]` starts (see [`local_part`]).
fn find_local_start(b: &[u8], lo: usize, e: usize) -> (r: usize)
    requires
        lo <= e <= b@.len(),
    ensures
        lo <= r <= e,
        b@.subrange(r as int, e as int) == local_part(b@.subrange(lo as int, e as int)),
{
    let c = find_first_colon(b, lo, e);
    proof {
        lemma_first_colon_shift(b@, lo as int, lo as int, e as int);
        let n = b@.subrange(lo as int, e as int);
        if c < e {
            assert(n.subrange(c - lo + 1, n.len() as int) =~= b@.subrange(c + 1, e as int));
        }
    }
    if c < e {
        c + 1
    } else {
        lo
    }
}

fn find_tag_end(b: &[u8], j: usize) -> (r: usize)
    requires
        j <= b@.len(),
    ensures
        r == tag_end(b@, j as int, 0),
        j <= r <= b@.len(),
{
    let mut k = j;
    let mut q: u8 = 0;
    while k < b.len() && !(q == 0 && b[k] == 0x3E)
        invariant
            j <= k <= b@.len(),
            tag_end(b@, j as int, 0) == tag_end(b@, k as int, q),
        decreases b@.len() - k,
    {
        q = quote_after(q, b[k]);
        k = k + 1;
    }
    k
}

fn find_attr_name_start(b: &[u8], lo: usize, j: usize) -> (r: usize)
    requires
        lo <= j <= b@.len(),
    ensures
        r == attr_name_start(b@, lo as int, j as int),
        lo <= r <= j,
{
    let mut k = j;
    while k > lo && !is_space_byte(b[k - 1])
        invariant
            lo <= k <= j,
            j <= b@.len(),
            attr_name_start(b@, lo as int, j as int) == attr_name_start(b@, lo as int, k as int),
        decreases k - lo,
    {
        k = k - 1;
    }
    k
}

/// The attributes of a tag whose attributes run over `b[lo..end]`.
fn count_attrs(b: &[u8], lo: usize, end: usize) -> (r: usize)
    requires
        lo <= end <= b@.len(),
    ensures
        r == attr_count(b@, lo as int, end as int, 0),
{
    let mut j = lo;
    let mut q: u8 = 0;
    let mut n: usize = 0;
    while j < end
        invariant
            lo <= j <= end <= b@.len(),
            n <= j - lo,
            attr_count(b@, lo as int, end as int, 0) == n + attr_count(b@, j as int, end as int, q),
        decreases end - j,
    {
        if q == 0 && b[j] == 0x3D {
            n = n + 1;
        }
        q = quote_after(q, b[j]);
        j = j + 1;
    }
    n
}

/// Whether the tag whose attributes run over `b[lo..end]` has an attribute
/// whose local name is `a`.
fn has_attr_named(b: &[u8], lo: usize, end: usize, a: &str) -> (r: bool)
    requires
        lo <= end <= b@.len(),
    ensures
        r == has_named_attr(b@, lo as int, lo as int, end as int, 0, ascii_bytes(a@)),
{
    let mut j = lo;
    let mut q: u8 = 0;
    while j < end
        invariant
            lo <= j <= end <= b@.len(),
            has_named_attr(b@, lo as int, lo as int, end as int, 0, ascii_bytes(a@)) == has_named_attr(
                b@,
                lo as int,
                j as int,
                end as int,
                q,
                ascii_bytes(a@),
            ),
        decreases end - j,
    {
        if q == 0 && b[j] == 0x3D {
            let s = find_attr_name_start(b, lo, j);
            let ls = find_local_start(b, s, j);
            let local = &b[ls..j];
            proof {
                assert(local@ =~= b@.subrange(ls as int, j as int));
            }
            if bytes_spell(local, a) {
                return true;
            }
        }
        q = quote_after(q, b[j]);
        j = j + 1;
    }
    false
}

fn is_needs_attribute(l: &[u8]) -> (r: bool)
    ensures
        r == needs_attribute(l@),
{
    bytes_spell(l, "pStyle") || bytes_spell(l, "start") || bytes_spell(l, "numFmt") || bytes_spell(l, "suff")
        || bytes_spell(l, "lvlText") || bytes_spell(l, "lvlRestart") || bytes_spell(l, "lvlJc")
        || bytes_spell(l, "startOverride") || bytes_spell(l, "lvlOverride") || bytes_spell(l, "ilvl")
        || bytes_spell(l, "numId") || bytes_spell(l, "styleLink") || bytes_spell(l, "numStyleLink")
        || bytes_spell(l, "abstractNumId") || bytes_spell(l, "jc") || bytes_spell(l, "textAlignment")
        || bytes_spell(l, "highlight") || bytes_spell(l, "vertAlign") || bytes_spell(l, "sz")
        || bytes_spell(l, "u") || bytes_spell(l, "name")
}

fn start_tag_ok(entry_is_content_types: bool, Ghost(e): Ghost<Seq<char>>, b: &[u8], i: usize) -> (r: bool)
    requires
        i + 1 < b@.len(),
        entry_is_content_types == (e == "[Content_Types].xml"@),
    ensures
        r == tag_ok(e, b@, i as int),
{
    proof {
        assert(b@.len() == b.len());
    }
    let ne = find_name_end(b, i + 1);
    let ls = find_local_start(b, i + 1, ne);
    let te = find_tag_end(b, ne);
    let l = &b[ls..ne];
    proof {
        assert(l@ =~= b@.subrange(ls as int, ne as int));
        reveal_strlit("[Content_Types].xml");
    }
    if is_needs_attribute(l) && count_attrs(b, ne, te) < 1 {
        return false;
    }
    if bytes_spell(l, "comment") && !has_attr_named(b, ne, te, "id") {
        return false;
    }
    if bytes_spell(l, "commentEx") && !has_attr_named(b, ne, te, "paraId") {
        return false;
    }
    if entry_is_content_types && !bytes_spell(l, "Types") && count_attrs(b, ne, te) < 2 {
        return false;
    }
    true
}

/// Whether the entry named `entry` with bytes `b` is [`part_safe`].
pub fn part_is_safe(entry: &[char], b: &[u8]) -> (r: bool)
    ensures
        r == part_safe(entry@, b@),
{
    if b.len() >= 2 && ((b[0] == 0xFE && b[1] == 0xFF) || (b[0] == 0xFF && b[1] == 0xFE) || (b[0] == 0
        && b[1] == 0x3C) || (b[0] == 0x3C && b[1] == 0)) {
        return false;
    }
    let ct = chars_of("[Content_Types].xml");
    let is_ct = chars_eq(entry, ct.as_slice());
    let ghost e = entry@;
    let mut i: usize = 0;
    while i < b.len()
        invariant
            i <= b@.len(),
            is_ct == (e == "[Content_Types].xml"@),
            e == entry@,
            tags_ok_from(e, b@, 0) == tags_ok_from(e, b@, i as int),
        decreases b@.len() - i,
    {
        if i + 1 < b.len() && b[i] == 0x3C && b[i + 1] != 0x2F && b[i + 1] != 0x21 && b[i + 1] != 0x3F {
            let ok = start_tag_ok(is_ct, Ghost(e), b, i);
            if !ok {
                return false;
            }
        }
        i = i + 1;
    }
    true
}

/// Whether the package in `buf` is [`docx_parts_safe`].
pub fn all_parts_safe(buf: &[u8]) -> (ok: bool)
    ensures
        ok == docx_parts_safe(buf@),
{
    let names = match zip_list_entries(buf) {
        Ok(v) => v,
        Err(_) => {
            return true;
        },
    };
    let ghost nv = opt_char_views(names@);
    let mut i: usize = 0;
    while i < names.len()
        invariant
            i <= names@.len(),
            nv == opt_char_views(names@),
            zip_entry_names(buf@) == Some(nv),
            forall|j: int|
                0 <= j < i ==> match #[trigger] nv[j] {
                    Some(n) => match zip_entry_bytes(buf@, n) {
                        Some(b) => part_safe(n, b),
                        None => false,
                    },
                    None => true,
                },
        decreases names@.len() - i,
    {
        match &names[i] {
            Some(n) => {
                let name = string_from_chars(n.as_slice());
                proof {
                    assert(nv[i as int] == Some(n@));
                }
                match zip_read_entry(buf, name.as_str()) {
                    Err(_) => {
                        return false;
                    },
                    Ok(bytes) => {
                        if !part_is_safe(n.as_slice(), bytes.as_slice()) {
                            return false;
                        }
                    },
                }
            },
            None => {
                proof {
                    assert(nv[i as int] is None);
                }
            },
        }
        i = i + 1;
    }
    true
}

} // verus!
