//! Character-level helpers shared by the extractors and the splitter: UTF-8
//! byte lengths of character sequences, conversions between `&str`/`String`
//! and `Vec<char>`, and small searching utilities over `Seq<char>`.

use vstd::prelude::*;
use vstd::utf8::*;

verus! {

broadcast use vstd::string::group_string_axioms;

/// Number of bytes of the UTF-8 encoding of one character.
pub open spec fn utf8_width(c: char) -> nat {
    if (c as u32) <= 0x7F {
        1
    } else if (c as u32) <= 0x7FF {
        2
    } else if (c as u32) <= 0xFFFF {
        3
    } else {
        4
    }
}

/// Number of bytes of the UTF-8 encoding of a character sequence
/// (what `str::len` reports for a string with these characters).
pub open spec fn byte_len(s: Seq<char>) -> nat
    decreases s.len(),
{
    if s.len() == 0 {
        0
    } else {
        utf8_width(s[0]) + byte_len(s.drop_first())
    }
}

/// A character is ASCII when its code point is at most 0x7F.
pub open spec fn is_ascii_char(c: char) -> bool {
    (c as u32) <= 0x7F
}

/// Every character of `s` is ASCII.
pub open spec fn all_ascii(s: Seq<char>) -> bool {
    forall|i: int| 0 <= i < s.len() ==> is_ascii_char(#[trigger] s[i])
}

pub proof fn lemma_byte_len_concat(a: Seq<char>, b: Seq<char>)
    ensures
        byte_len(a + b) == byte_len(a) + byte_len(b),
    decreases a.len(),
{
    if a.len() == 0 {
        assert(a + b =~= b);
    } else {
        assert((a + b).drop_first() =~= a.drop_first() + b);
        assert((a + b)[0] == a[0]);
        lemma_byte_len_concat(a.drop_first(), b);
    }
}

pub proof fn lemma_byte_len_ge_len(s: Seq<char>)
    ensures
        byte_len(s) >= s.len(),
        all_ascii(s) ==> byte_len(s) == s.len(),
    decreases s.len(),
{
    if s.len() > 0 {
        lemma_byte_len_ge_len(s.drop_first());
        if all_ascii(s) {
            assert forall|i: int| 0 <= i < s.drop_first().len() implies is_ascii_char(
                #[trigger] s.drop_first()[i],
            ) by {
                assert(s.drop_first()[i] == s[i + 1]);
            }
            assert(is_ascii_char(s[0]));
        }
    }
}

/// `byte_len` is the length of vstd's UTF-8 encoding of the sequence.
pub proof fn lemma_byte_len_is_encoding_len(s: Seq<char>)
    ensures
        byte_len(s) == encode_utf8(s).len(),
    decreases s.len(),
{
    if s.len() > 0 {
        char_is_scalar(s[0]);
        lemma_byte_len_is_encoding_len(s.drop_first());
    }
}

pub proof fn lemma_byte_len_subrange(s: Seq<char>, a: int, b: int)
    requires
        0 <= a <= b <= s.len(),
    ensures
        byte_len(s.subrange(a, b)) <= byte_len(s),
        byte_len(s.subrange(a, b)) >= b - a,
{
    assert(s =~= s.subrange(0, a) + s.subrange(a, b) + s.subrange(b, s.len() as int));
    lemma_byte_len_concat(s.subrange(0, a) + s.subrange(a, b), s.subrange(b, s.len() as int));
    lemma_byte_len_concat(s.subrange(0, a), s.subrange(a, b));
    lemma_byte_len_ge_len(s.subrange(a, b));
}

/// Byte width of one character, as `char::len_utf8` reports it.
pub fn char_width(c: char) -> (w: usize)
    ensures
        w == utf8_width(c),
        1 <= w <= 4,
{
    let u = c as u32;
    if u <= 0x7F {
        1
    } else if u <= 0x7FF {
        2
    } else if u <= 0xFFFF {
        3
    } else {
        4
    }
}

/// Whether the UTF-8 encoding of `s` is shorter than `limit` bytes.
pub(crate) fn byte_len_below(s: &[char], limit: usize) -> (b: bool)
    requires
        limit <= 1024,
    ensures
        b == (byte_len(s@) < limit),
{
    if limit == 0 {
        return false;
    }
    let mut n: usize = 0;
    let mut i: usize = s.len();
    proof {
        assert(s@.subrange(s@.len() as int, s@.len() as int) =~= Seq::<char>::empty());
    }
    while i > 0
        invariant
            i <= s.len(),
            n == byte_len(s@.subrange(i as int, s@.len() as int)),
            n < limit,
            limit <= 1024,
        decreases i,
    {
        let ghost tail = s@.subrange(i as int, s@.len() as int);
        let ghost longer = s@.subrange(i - 1, s@.len() as int);
        proof {
            assert(longer.drop_first() =~= tail);
            assert(longer[0] == s@[i - 1]);
        }
        n = n + char_width(s[i - 1]);
        i = i - 1;
        if n >= limit {
            proof {
                lemma_byte_len_subrange(s@, i as int, s@.len() as int);
            }
            return false;
        }
    }
    proof {
        assert(s@.subrange(0, s@.len() as int) =~= s@);
    }
    true
}

/// UTF-8 byte length of a character slice.
pub fn byte_len_of(s: &[char]) -> (n: usize)
    requires
        byte_len(s@) <= usize::MAX,
    ensures
        n == byte_len(s@),
{
    let mut n: usize = 0;
    let mut i: usize = s.len();
    // Walk from the end so that the suffix `s[i..]` is always measured.
    while i > 0
        invariant
            i <= s.len(),
            n == byte_len(s@.subrange(i as int, s@.len() as int)),
            byte_len(s@) <= usize::MAX,
        decreases i,
    {
        let ghost tail = s@.subrange(i as int, s@.len() as int);
        let ghost longer = s@.subrange(i - 1, s@.len() as int);
        proof {
            assert(longer.drop_first() =~= tail);
            assert(longer[0] == s@[i - 1]);
            lemma_byte_len_subrange(s@, i - 1, s@.len() as int);
        }
        n = n + char_width(s[i - 1]);
        i = i - 1;
    }
    proof {
        assert(s@.subrange(0, s@.len() as int) =~= s@);
    }
    n
}

/// The characters of a string slice, in order.
pub fn chars_of(s: &str) -> (v: Vec<char>)
    ensures
        v@ == s@,
{
    let mut v: Vec<char> = Vec::new();
    for c in it: s.chars()
        invariant
            it.seq() == s@,
            v@ == s@.take(it.index() as int),
    {
        v.push(c);
    }
    proof {
        assert(v@ =~= s@.take(s@.len() as int));
    }
    v
}

/// The bytes of the characters of `s`, each taken as its low byte (the
/// ASCII encoding, for ASCII text).
pub open spec fn ascii_bytes(s: Seq<char>) -> Seq<u8> {
    s.map_values(|c: char| (c as u32) as u8)
}

/// Whether the bytes `k` spell `s` in ASCII.
pub fn bytes_spell(k: &[u8], s: &str) -> (b: bool)
    ensures
        b == (k@ == ascii_bytes(s@)),
{
    let cs = chars_of(s);
    if k.len() != cs.len() {
        return false;
    }
    let mut i: usize = 0;
    while i < k.len()
        invariant
            i <= k@.len(),
            k@.len() == cs@.len(),
            cs@ == s@,
            forall|j: int| 0 <= j < i ==> k@[j] == #[trigger] ascii_bytes(s@)[j],
        decreases k@.len() - i,
    {
        let c = cs[i];
        let byte: u8 = (c as u32) as u8;
        if k[i] != byte {
            proof {
                assert(ascii_bytes(s@)[i as int] == byte);
            }
            return false;
        }
        i = i + 1;
    }
    proof {
        assert(k@ =~= ascii_bytes(s@));
    }
    true
}

/// Builds a `String` from a character slice (`String: FromIterator<char>`).
#[verifier::external_body]
pub(crate) fn string_from_chars(cs: &[char]) -> (s: String)
    ensures
        s@ == cs@,
{
    cs.iter().collect()
}

/// Copy of `t[a..b]`.
pub fn copy_range(t: &[char], a: usize, b: usize) -> (r: Vec<char>)
    requires
        a <= b <= t@.len(),
    ensures
        r@ == t@.subrange(a as int, b as int),
{
    let mut r: Vec<char> = Vec::new();
    let mut i = a;
    while i < b
        invariant
            a <= i <= b <= t@.len(),
            r@ == t@.subrange(a as int, i as int),
        decreases b - i,
    {
        r.push(t[i]);
        i = i + 1;
        proof {
            assert(r@ =~= t@.subrange(a as int, i as int));
        }
    }
    r
}

/// Appends `t[a..b]` to `out`.
pub fn push_range(out: &mut Vec<char>, t: &[char], a: usize, b: usize)
    requires
        a <= b <= t@.len(),
    ensures
        final(out)@ == old(out)@ + t@.subrange(a as int, b as int),
{
    let mut i = a;
    while i < b
        invariant
            a <= i <= b <= t@.len(),
            out@ == old(out)@ + t@.subrange(a as int, i as int),
        decreases b - i,
    {
        out.push(t[i]);
        i = i + 1;
        proof {
            assert(out@ =~= old(out)@ + t@.subrange(a as int, i as int));
        }
    }
}

/// `sub` occurs in `t` at position `i`.
pub open spec fn occurs_at(t: Seq<char>, sub: Seq<char>, i: int) -> bool {
    0 <= i && i + sub.len() <= t.len() && t.subrange(i, i + sub.len()) == sub
}

/// Whether `sub` occurs in `t` at position `i`.
pub fn matches_at(t: &[char], sub: &[char], i: usize) -> (b: bool)
    ensures
        b == occurs_at(t@, sub@, i as int),
{
    if i > t.len() || sub.len() > t.len() - i {
        return false;
    }
    let mut k: usize = 0;
    while k < sub.len()
        invariant
            i + sub@.len() <= t@.len(),
            t@.len() == t.len(),
            sub@.len() == sub.len(),
            k <= sub@.len(),
            forall|j: int| 0 <= j < k ==> t@[i + j] == sub@[j],
        decreases sub@.len() - k,
    {
        if t[i + k] != sub[k] {
            proof {
                assert(t@.subrange(i as int, i + sub@.len())[k as int] != sub@[k as int]);
            }
            return false;
        }
        k = k + 1;
    }
    proof {
        assert(t@.subrange(i as int, i + sub@.len()) =~= sub@);
    }
    true
}

/// Leftmost position at or after `i` where `sub` occurs in `t`
/// (the search that `str::find` performs from that offset).
pub open spec fn find_from(t: Seq<char>, sub: Seq<char>, i: int) -> Option<int>
    decreases t.len() - i,
{
    if i < 0 || i + sub.len() > t.len() {
        None
    } else if t.subrange(i, i + sub.len()) == sub {
        Some(i)
    } else {
        proof {
            if sub.len() == 0 {
                assert(t.subrange(i, i + sub.len()) =~= sub);
            }
        }
        find_from(t, sub, i + 1)
    }
}

pub proof fn lemma_find_from_bounds(t: Seq<char>, sub: Seq<char>, i: int)
    requires
        0 <= i,
    ensures
        find_from(t, sub, i) matches Some(p) ==> i <= p && p + sub.len() <= t.len() && occurs_at(
            t,
            sub,
            p,
        ) && (forall|q: int| i <= q < p ==> !occurs_at(t, sub, q)),
        find_from(t, sub, i) is None ==> (forall|q: int| i <= q ==> !occurs_at(t, sub, q)),
    decreases t.len() - i,
{
    if i + sub.len() > t.len() {
    } else if t.subrange(i, i + sub.len()) == sub {
    } else {
        if sub.len() == 0 {
            assert(t.subrange(i, i + sub.len()) =~= sub);
        }
        lemma_find_from_bounds(t, sub, i + 1);
    }
}

/// Unicode lowercase mapping of a character sequence, as `str::to_lowercase`
/// computes it from the Unicode tables.
pub uninterp spec fn lowercase(s: Seq<char>) -> Seq<char>;

/// ASCII lowercase of one character: `A` to `Z` become `a` to `z`, every
/// other character stays as it is.
pub open spec fn ascii_lower(c: char) -> char {
    if 'A' <= c && c <= 'Z' {
        ((c as u32) + 32) as char
    } else {
        c
    }
}

/// `str::to_lowercase`. The result is named `lowercase(s@)`; the Unicode
/// case tables it follows are not restated here, except that on ASCII text
/// the mapping is the ASCII one (letters lowered, everything else kept).
#[verifier::external_body]
pub(crate) fn to_lowercase(s: &str) -> (r: String)
    ensures
        r@ == lowercase(s@),
        all_ascii(s@) ==> r@ == s@.map_values(|c: char| ascii_lower(c)),
{
    s.to_lowercase()
}

/// Whether a character has the Unicode `White_Space` property, which is what
/// `char::is_whitespace` (and so `trim`, `split_whitespace`) tests: the
/// controls U+0009 to U+000D, space, U+0085, no-break space, U+1680, the
/// spaces U+2000 to U+200A, the line and paragraph separators, U+202F,
/// U+205F and the ideographic space.
pub open spec fn is_unicode_whitespace(c: char) -> bool {
    let u = c as u32;
    (0x9 <= u && u <= 0xd) || u == 0x20 || u == 0x85 || u == 0xa0 || u == 0x1680 || (0x2000 <= u
        && u <= 0x200a) || u == 0x2028 || u == 0x2029 || u == 0x202f || u == 0x205f || u == 0x3000
}

/// `char::is_whitespace`.
pub fn char_is_whitespace(c: char) -> (b: bool)
    ensures
        b == is_unicode_whitespace(c),
{
    let u = c as u32;
    (0x9 <= u && u <= 0xd) || u == 0x20 || u == 0x85 || u == 0xa0 || u == 0x1680 || (0x2000 <= u
        && u <= 0x200a) || u == 0x2028 || u == 0x2029 || u == 0x202f || u == 0x205f || u == 0x3000
}

/// Whether a character is alphabetic or numeric in the Unicode sense
/// (`char::is_alphanumeric`).
pub uninterp spec fn is_unicode_alphanumeric(c: char) -> bool;

/// `char::is_alphanumeric`; the result is named `is_unicode_alphanumeric(c)`.
#[verifier::external_body]
pub(crate) fn char_is_alphanumeric(c: char) -> (b: bool)
    ensures
        b == is_unicode_alphanumeric(c),
{
    c.is_alphanumeric()
}

/// Element-wise equality of two character slices.
pub fn chars_eq(a: &[char], b: &[char]) -> (r: bool)
    ensures
        r == (a@ == b@),
{
    if a.len() != b.len() {
        return false;
    }
    let mut i: usize = 0;
    while i < a.len()
        invariant
            a@.len() == b@.len(),
            a@.len() == a.len(),
            i <= a@.len(),
            forall|j: int| 0 <= j < i ==> a@[j] == b@[j],
        decreases a@.len() - i,
    {
        if a[i] != b[i] {
            return false;
        }
        i = i + 1;
    }
    proof {
        assert(a@ =~= b@);
    }
    true
}

/// Equality of two string slices (by characters).
pub fn str_eq(a: &str, b: &str) -> (r: bool)
    ensures
        r == (a@ == b@),
{
    let x = chars_of(a);
    let y = chars_of(b);
    chars_eq(x.as_slice(), y.as_slice())
}

/// `t` begins with `p`.
pub open spec fn has_prefix(t: Seq<char>, p: Seq<char>) -> bool {
    p.len() <= t.len() && t.subrange(0, p.len() as int) == p
}

/// `t` ends with `p`.
pub open spec fn has_suffix(t: Seq<char>, p: Seq<char>) -> bool {
    p.len() <= t.len() && t.subrange(t.len() - p.len(), t.len() as int) == p
}

/// `p` occurs somewhere in `t`.
pub open spec fn has_infix(t: Seq<char>, p: Seq<char>) -> bool {
    exists|i: int| occurs_at(t, p, i)
}

/// `str::starts_with` on characters.
pub fn starts_with(t: &[char], p: &[char]) -> (b: bool)
    ensures
        b == has_prefix(t@, p@),
{
    matches_at(t, p, 0)
}

/// `str::ends_with` on characters.
pub fn ends_with(t: &[char], p: &[char]) -> (b: bool)
    ensures
        b == has_suffix(t@, p@),
{
    if p.len() > t.len() {
        return false;
    }
    matches_at(t, p, t.len() - p.len())
}

/// `str::contains` on characters.
pub fn contains(t: &[char], p: &[char]) -> (b: bool)
    ensures
        b == has_infix(t@, p@),
{
    if p.len() > t.len() {
        proof {
            assert forall|i: int| !occurs_at(t@, p@, i) by {}
        }
        return false;
    }
    if p.len() == 0 {
        proof {
            assert(t@.subrange(0, 0) =~= p@);
            assert(occurs_at(t@, p@, 0));
        }
        return true;
    }
    let mut i: usize = 0;
    while i <= t.len() - p.len()
        invariant
            p@.len() > 0,
            p@.len() <= t@.len(),
            t@.len() == t.len(),
            p@.len() == p.len(),
            i <= t@.len() - p@.len() + 1,
            forall|j: int| 0 <= j < i ==> !occurs_at(t@, p@, j),
        decreases t@.len() - p@.len() + 1 - i,
    {
        if matches_at(t, p, i) {
            return true;
        }
        i = i + 1;
    }
    proof {
        assert forall|j: int| !occurs_at(t@, p@, j) by {
            if 0 <= j < i {
            }
        }
    }
    false
}

/// Position of the last occurrence of `c` in `s`, if any.
pub open spec fn last_index_of(s: Seq<char>, c: char) -> Option<int>
    decreases s.len(),
{
    if s.len() == 0 {
        None
    } else if s.last() == c {
        Some(s.len() - 1)
    } else {
        last_index_of(s.drop_last(), c)
    }
}

/// What `s.rsplit(c).next()` yields: the part after the last `c`, or all of
/// `s` when it holds no `c`.
pub open spec fn after_last(s: Seq<char>, c: char) -> Seq<char> {
    match last_index_of(s, c) {
        Some(i) => s.subrange(i + 1, s.len() as int),
        None => s,
    }
}

pub proof fn lemma_last_index_of(s: Seq<char>, c: char)
    ensures
        last_index_of(s, c) matches Some(i) ==> 0 <= i < s.len() && s[i] == c && forall|j: int|
            i < j < s.len() ==> s[j] != c,
        last_index_of(s, c) is None ==> forall|j: int| 0 <= j < s.len() ==> s[j] != c,
    decreases s.len(),
{
    if s.len() > 0 && s.last() != c {
        lemma_last_index_of(s.drop_last(), c);
        assert forall|j: int| 0 <= j < s.len() - 1 implies s[j] == s.drop_last()[j] by {}
    }
}

/// The part of `s` after its last `c` (all of `s` if there is none).
pub fn after_last_char(s: &[char], c: char) -> (r: Vec<char>)
    ensures
        r@ == after_last(s@, c),
{
    let mut i: usize = s.len();
    proof {
        assert(s@.subrange(0, s@.len() as int) =~= s@);
    }
    while i > 0
        invariant
            i <= s@.len(),
            s@.len() == s.len(),
            forall|j: int| i <= j < s@.len() ==> s@[j] != c,
            last_index_of(s@, c) == last_index_of(s@.subrange(0, i as int), c),
        decreases i,
    {
        if s[i - 1] == c {
            proof {
                assert(s@.subrange(0, i as int).last() == c);
            }
            return copy_range(s, i, s.len());
        }
        proof {
            assert(s@.subrange(0, i as int).drop_last() =~= s@.subrange(0, i - 1));
        }
        i = i - 1;
    }
    proof {
        assert(s@.subrange(0, 0) =~= Seq::<char>::empty());
    }
    copy_range(s, 0, s.len())
}

/// Decimal digits of a natural number, most significant first.
pub open spec fn decimal(n: nat) -> Seq<char>
    decreases n,
{
    if n < 10 {
        seq![digit_char(n)]
    } else {
        decimal(n / 10).push(digit_char(n % 10))
    }
}

/// The ASCII digit for `d < 10`.
pub open spec fn digit_char(d: nat) -> char {
    ((d + 48) as u8) as char
}

/// `n.to_string()` for a `u64`.
pub fn u64_decimal(n: u64) -> (s: Vec<char>)
    ensures
        s@ == decimal(n as nat),
    decreases n,
{
    if n < 10 {
        let d = ((n as u8) + 48) as char;
        let mut v: Vec<char> = Vec::new();
        v.push(d);
        proof {
            assert(v@ =~= seq![digit_char(n as nat)]);
        }
        v
    } else {
        let mut v = u64_decimal(n / 10);
        let d = (((n % 10) as u8) + 48) as char;
        v.push(d);
        v
    }
}

/// Concatenation of a sequence of character sequences with `sep` between
/// consecutive ones (`join`).
pub open spec fn join(parts: Seq<Seq<char>>, sep: Seq<char>) -> Seq<char>
    decreases parts.len(),
{
    if parts.len() == 0 {
        Seq::empty()
    } else if parts.len() == 1 {
        parts[0]
    } else {
        join(parts.drop_last(), sep) + sep + parts.last()
    }
}

/// Every character of `s` is Unicode whitespace, so `s.trim()` is empty.
pub open spec fn all_whitespace(s: Seq<char>) -> bool {
    forall|i: int| 0 <= i < s.len() ==> is_unicode_whitespace(#[trigger] s[i])
}

/// Whether `s.trim().is_empty()`.
pub fn is_blank(s: &[char]) -> (b: bool)
    ensures
        b == all_whitespace(s@),
{
    let mut i: usize = 0;
    while i < s.len()
        invariant
            i <= s@.len(),
            s@.len() == s.len(),
            forall|j: int| 0 <= j < i ==> is_unicode_whitespace(#[trigger] s@[j]),
        decreases s@.len() - i,
    {
        if !char_is_whitespace(s[i]) {
            return false;
        }
        i = i + 1;
    }
    true
}

/// `String` holding the characters of a literal or other `&str`.
pub fn owned(s: &str) -> (r: String)
    ensures
        r@ == s@,
{
    s.to_owned()
}

/// Concatenation of two strings.
pub fn concat2(a: &str, b: &str) -> (r: String)
    ensures
        r@ == a@ + b@,
{
    let mut r = a.to_owned();
    r.append(b);
    r
}

/// The text of the error `String::from_utf8` reports for invalid bytes.
pub uninterp spec fn utf8_error_text(bytes: Seq<u8>) -> Seq<char>;

/// `String::from_utf8`: succeeds exactly on valid UTF-8, decoding it; on
/// failure the error's text is named `utf8_error_text(bytes@)`.
#[verifier::external_body]
pub(crate) fn utf8_decode(bytes: &[u8]) -> (r: Result<String, String>)
    ensures
        match r {
            Ok(s) => valid_utf8(bytes@) && s@ == decode_utf8(bytes@),
            Err(m) => !valid_utf8(bytes@) && m@ == utf8_error_text(bytes@),
        },
{
    String::from_utf8(bytes.to_vec()).map_err(|e| e.to_string())
}

/// `s` without its leading whitespace (`trim_start`).
pub open spec fn trim_start_ws(s: Seq<char>) -> Seq<char>
    decreases s.len(),
{
    if s.len() > 0 && is_unicode_whitespace(s[0]) {
        trim_start_ws(s.drop_first())
    } else {
        s
    }
}

/// `s` without its trailing whitespace (`trim_end`).
pub open spec fn trim_end_ws(s: Seq<char>) -> Seq<char>
    decreases s.len(),
{
    if s.len() > 0 && is_unicode_whitespace(s.last()) {
        trim_end_ws(s.drop_last())
    } else {
        s
    }
}

/// A non-empty string without its trailing whitespace ends in a
/// non-whitespace character.
pub proof fn lemma_trim_end_ws_last(s: Seq<char>)
    ensures
        trim_end_ws(s).len() > 0 ==> !is_unicode_whitespace(trim_end_ws(s).last()),
        trim_end_ws(s).len() <= s.len(),
    decreases s.len(),
{
    if s.len() > 0 && is_unicode_whitespace(s.last()) {
        lemma_trim_end_ws_last(s.drop_last());
    }
}

/// `s` without leading and trailing whitespace (`trim`).
pub open spec fn trim_ws(s: Seq<char>) -> Seq<char> {
    trim_end_ws(trim_start_ws(s))
}

/// `s[..]` with trailing whitespace removed.
pub fn trim_end_chars(s: &[char]) -> (r: Vec<char>)
    ensures
        r@ == trim_end_ws(s@),
{
    let mut j: usize = s.len();
    proof {
        assert(s@.subrange(0, s@.len() as int) =~= s@);
    }
    while j > 0 && char_is_whitespace(s[j - 1])
        invariant
            j <= s@.len(),
            s@.len() == s.len(),
            trim_end_ws(s@) == trim_end_ws(s@.subrange(0, j as int)),
        decreases j,
    {
        proof {
            assert(s@.subrange(0, j as int).drop_last() =~= s@.subrange(0, j - 1));
        }
        j = j - 1;
    }
    copy_range(s, 0, j)
}

/// `s[..]` with leading whitespace removed.
pub fn trim_start_chars(s: &[char]) -> (r: Vec<char>)
    ensures
        r@ == trim_start_ws(s@),
{
    let mut i: usize = 0;
    proof {
        assert(s@.subrange(0, s@.len() as int) =~= s@);
    }
    while i < s.len() && char_is_whitespace(s[i])
        invariant
            i <= s@.len(),
            s@.len() == s.len(),
            trim_start_ws(s@) == trim_start_ws(s@.subrange(i as int, s@.len() as int)),
        decreases s@.len() - i,
    {
        proof {
            assert(s@.subrange(i as int, s@.len() as int).drop_first() =~= s@.subrange(
                i + 1,
                s@.len() as int,
            ));
        }
        i = i + 1;
    }
    copy_range(s, i, s.len())
}

/// `s.trim()`.
pub fn trim_chars(s: &[char]) -> (r: Vec<char>)
    ensures
        r@ == trim_ws(s@),
{
    let a = trim_start_chars(s);
    trim_end_chars(a.as_slice())
}

/// `s[start..]` with every (leftmost, non-overlapping) occurrence of the
/// non-empty `from` replaced by `to`.
pub open spec fn replace_from(s: Seq<char>, from: Seq<char>, to: Seq<char>, start: int) -> Seq<char>
    decreases s.len() - start,
{
    if from.len() == 0 || start < 0 || start > s.len() {
        s.subrange(start, s.len() as int)
    } else {
        match find_from(s, from, start) {
            None => s.subrange(start, s.len() as int),
            Some(p) => {
                proof {
                    lemma_find_from_bounds(s, from, start);
                }
                s.subrange(start, p) + to + replace_from(s, from, to, p + from.len())
            },
        }
    }
}

/// `str::replace(from, to)` for a non-empty `from`.
pub open spec fn replace_all(s: Seq<char>, from: Seq<char>, to: Seq<char>) -> Seq<char> {
    replace_from(s, from, to, 0)
}

/// `g` occurs nowhere in `t` at or after position `start`.
pub open spec fn absent_from(t: Seq<char>, g: Seq<char>, start: int) -> bool {
    forall|q: int| start <= q ==> !occurs_at(t, g, q)
}

/// No character of `t` is a character of `g`.
pub open spec fn shares_no_char(t: Seq<char>, g: Seq<char>) -> bool {
    forall|k: int, j: int| 0 <= k < t.len() && 0 <= j < g.len() ==> t[k] != g[j]
}

/// An occurrence of `g` in `a + t + b` cannot touch `t` when `t` shares no
/// character with `g`: it lies inside `a` or inside `b`.
pub proof fn lemma_occurrence_avoids_middle(a: Seq<char>, t: Seq<char>, b: Seq<char>, g: Seq<char>, i: int)
    requires
        g.len() > 0,
        t.len() > 0,
        shares_no_char(t, g),
        occurs_at(a + t + b, g, i),
    ensures
        occurs_at(a, g, i) || occurs_at(b, g, i - a.len() - t.len()),
{
    let s = a + t + b;
    let sub = s.subrange(i, i + g.len());
    if i + g.len() <= a.len() {
        assert(a.subrange(i, i + g.len()) =~= sub);
    } else if i >= a.len() + t.len() {
        let j = i - a.len() - t.len();
        assert(b.subrange(j, j + g.len()) =~= sub);
    } else {
        let pos = if i >= a.len() {
            i
        } else {
            a.len() as int
        };
        assert(sub[pos - i] == g[pos - i]);
        assert(s[pos] == t[pos - a.len()]);
    }
}

/// Replacing the non-empty `f` by a non-empty `t` that shares no character
/// with `g` leaves no occurrence of `g` when `g` is `f` itself, or when `g`
/// did not occur in `s[start..]` to begin with.
pub proof fn lemma_replace_from_leaves_none(
    s: Seq<char>,
    f: Seq<char>,
    t: Seq<char>,
    g: Seq<char>,
    start: int,
)
    requires
        f.len() > 0,
        g.len() > 0,
        t.len() > 0,
        shares_no_char(t, g),
        0 <= start <= s.len(),
        g == f || absent_from(s, g, start),
    ensures
        absent_from(replace_from(s, f, t, start), g, 0),
    decreases s.len() - start,
{
    lemma_find_from_bounds(s, f, start);
    match find_from(s, f, start) {
        None => {
            let out = s.subrange(start, s.len() as int);
            assert forall|i: int| 0 <= i implies !occurs_at(out, g, i) by {
                if occurs_at(out, g, i) {
                    assert(s.subrange(start + i, start + i + g.len()) =~= out.subrange(i, i + g.len()));
                    assert(occurs_at(s, g, start + i));
                }
            }
        },
        Some(p) => {
            lemma_replace_from_leaves_none(s, f, t, g, p + f.len());
            let a = s.subrange(start, p);
            let rest = replace_from(s, f, t, p + f.len());
            assert(replace_from(s, f, t, start) == a + t + rest);
            assert forall|i: int| 0 <= i implies !occurs_at(a + t + rest, g, i) by {
                if occurs_at(a + t + rest, g, i) {
                    lemma_occurrence_avoids_middle(a, t, rest, g, i);
                    if occurs_at(a, g, i) {
                        assert(s.subrange(start + i, start + i + g.len()) =~= a.subrange(i, i + g.len()));
                        assert(occurs_at(s, g, start + i));
                    } else {
                        assert(!occurs_at(rest, g, i - a.len() - t.len()));
                    }
                }
            }
        },
    }
}

/// `s` with every occurrence of the non-empty `from` replaced by `to`.
pub fn replace_chars(s: &[char], from: &[char], to: &[char]) -> (r: Vec<char>)
    requires
        from@.len() > 0,
    ensures
        r@ == replace_all(s@, from@, to@),
{
    let mut out: Vec<char> = Vec::new();
    let mut start: usize = 0;
    let mut i: usize = 0;
    while from.len() <= s.len() - i
        invariant
            start <= i <= s@.len(),
            s@.len() == s.len(),
            from@.len() == from.len(),
            from@.len() > 0,
            replace_all(s@, from@, to@) == out@ + replace_from(s@, from@, to@, start as int),
            find_from(s@, from@, start as int) == find_from(s@, from@, i as int),
        decreases s@.len() - i,
    {
        if matches_at(s, from, i) {
            let ghost before = out@;
            push_range(&mut out, s, start, i);
            push_range(&mut out, to, 0, to.len());
            proof {
                assert(to@.subrange(0, to@.len() as int) =~= to@);
                assert(find_from(s@, from@, i as int) == Some(i as int));
                let rest = replace_from(s@, from@, to@, i + from@.len());
                assert(before + (s@.subrange(start as int, i as int) + to@ + rest) =~= out@ + rest);
            }
            start = i + from.len();
            i = start;
        } else {
            i = i + 1;
        }
    }
    push_range(&mut out, s, start, s.len());
    proof {
        assert(find_from(s@, from@, i as int) is None);
    }
    out
}

/// `s` with the non-empty prefix `p` removed as often as it occurs
/// (`trim_start_matches`).
pub open spec fn strip_prefixes(s: Seq<char>, p: Seq<char>) -> Seq<char>
    decreases s.len(),
{
    if p.len() > 0 && has_prefix(s, p) {
        strip_prefixes(s.subrange(p.len() as int, s.len() as int), p)
    } else {
        s
    }
}

/// `s` with the non-empty suffix `p` removed as often as it occurs
/// (`trim_end_matches`).
pub open spec fn strip_suffixes(s: Seq<char>, p: Seq<char>) -> Seq<char>
    decreases s.len(),
{
    if p.len() > 0 && has_suffix(s, p) {
        strip_suffixes(s.subrange(0, s.len() - p.len()), p)
    } else {
        s
    }
}

/// `s.trim_start_matches(p)`.
pub fn strip_prefixes_chars(s: &[char], p: &[char]) -> (r: Vec<char>)
    ensures
        r@ == strip_prefixes(s@, p@),
{
    let mut i: usize = 0;
    proof {
        assert(s@.subrange(0, s@.len() as int) =~= s@);
    }
    while p.len() > 0 && matches_at(s, p, i)
        invariant
            i <= s@.len(),
            s@.len() == s.len(),
            p@.len() == p.len(),
            strip_prefixes(s@, p@) == strip_prefixes(s@.subrange(i as int, s@.len() as int), p@),
        decreases s@.len() - i,
    {
        let ghost rest = s@.subrange(i as int, s@.len() as int);
        proof {
            assert(rest.subrange(0, p@.len() as int) =~= s@.subrange(i as int, i + p@.len()));
            assert(rest.subrange(p@.len() as int, rest.len() as int) =~= s@.subrange(
                i + p@.len(),
                s@.len() as int,
            ));
        }
        i = i + p.len();
    }
    proof {
        let rest = s@.subrange(i as int, s@.len() as int);
        if p@.len() > 0 && has_prefix(rest, p@) {
            assert(rest.subrange(0, p@.len() as int) =~= s@.subrange(i as int, i + p@.len()));
        }
    }
    copy_range(s, i, s.len())
}

/// `s.trim_end_matches(p)`.
pub fn strip_suffixes_chars(s: &[char], p: &[char]) -> (r: Vec<char>)
    ensures
        r@ == strip_suffixes(s@, p@),
{
    let mut j: usize = s.len();
    proof {
        assert(s@.subrange(0, s@.len() as int) =~= s@);
    }
    while p.len() > 0 && p.len() <= j && matches_at(s, p, j - p.len())
        invariant
            j <= s@.len(),
            s@.len() == s.len(),
            p@.len() == p.len(),
            strip_suffixes(s@, p@) == strip_suffixes(s@.subrange(0, j as int), p@),
        decreases j,
    {
        let ghost head = s@.subrange(0, j as int);
        proof {
            assert(head.subrange(head.len() - p@.len(), head.len() as int) =~= s@.subrange(
                j - p@.len(),
                j as int,
            ));
            assert(head.subrange(0, head.len() - p@.len()) =~= s@.subrange(0, j - p@.len()));
        }
        j = j - p.len();
    }
    proof {
        let head = s@.subrange(0, j as int);
        if p@.len() > 0 && has_suffix(head, p@) {
            assert(head.subrange(head.len() - p@.len(), head.len() as int) =~= s@.subrange(
                j - p@.len(),
                j as int,
            ));
        }
    }
    copy_range(s, 0, j)
}

/// `str::find` from offset `i`: the leftmost occurrence of `sub` at or after
/// `i`.
pub fn find_chars_from(t: &[char], sub: &[char], i: usize) -> (r: Option<usize>)
    ensures
        match r {
            Some(p) => find_from(t@, sub@, i as int) == Some(p as int),
            None => find_from(t@, sub@, i as int) is None,
        },
{
    let mut k: usize = i;
    while k <= t.len() && sub.len() <= t.len() - k
        invariant
            i <= k,
            t@.len() == t.len(),
            sub@.len() == sub.len(),
            find_from(t@, sub@, i as int) == find_from(t@, sub@, k as int),
        decreases t@.len() - k,
    {
        if matches_at(t, sub, k) {
            return Some(k);
        }
        proof {
            if sub@.len() == 0 {
                assert(t@.subrange(k as int, k as int) =~= sub@);
            }
        }
        k = k + 1;
    }
    None
}

/// `parts.join(sep)`.
pub fn join_strings(parts: &Vec<String>, sep: &str) -> (r: String)
    ensures
        r@ == join(parts@.map_values(|p: String| p@), sep@),
{
    let ghost pv = parts@.map_values(|p: String| p@);
    let mut out = String::new();
    let mut k: usize = 0;
    while k < parts.len()
        invariant
            k <= parts@.len(),
            pv == parts@.map_values(|p: String| p@),
            out@ == join(pv.take(k as int), sep@),
        decreases parts@.len() - k,
    {
        proof {
            assert(pv.take(k + 1).drop_last() =~= pv.take(k as int));
            assert(pv.take(k + 1).last() == parts@[k as int]@);
            if k == 0 {
                assert(pv.take(1).len() == 1);
                assert(out@ =~= Seq::<char>::empty());
            }
        }
        if k > 0 {
            out.append(sep);
        }
        out.append(parts[k].as_str());
        proof {
            if k == 0 {
                assert(out@ =~= pv.take(1)[0]);
            }
        }
        k = k + 1;
    }
    proof {
        assert(pv.take(parts@.len() as int) =~= pv);
    }
    out
}

} // verus!
