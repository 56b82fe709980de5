//! Decimal integer parsing with the rules of the standard `FromStr` impls
//! (`u32`, `u64`, `i64`): an optional sign, then one or more ASCII digits,
//! no surrounding whitespace, and a value within the type's range.

use vstd::prelude::*;

verus! {

/// `c` is an ASCII decimal digit.
pub open spec fn is_digit(c: char) -> bool {
    '0' <= c && c <= '9'
}

/// Every character of `s` is an ASCII decimal digit.
pub open spec fn all_digits(s: Seq<char>) -> bool {
    forall|i: int| 0 <= i < s.len() ==> is_digit(#[trigger] s[i])
}

/// The number written by the digits `s`, most significant first.
pub open spec fn digits_value(s: Seq<char>) -> nat
    decreases s.len(),
{
    if s.len() == 0 {
        0
    } else {
        digits_value(s.drop_last()) * 10 + ((s.last() as u32) - 48) as nat
    }
}

/// The unsigned value written in `s` (an optional `+`, then at least one
/// digit), if it is at most `limit`.
pub open spec fn parse_unsigned(s: Seq<char>, limit: nat) -> Option<nat> {
    let d = if s.len() > 0 && s[0] == '+' {
        s.drop_first()
    } else {
        s
    };
    if d.len() > 0 && all_digits(d) && digits_value(d) <= limit {
        Some(digits_value(d))
    } else {
        None
    }
}

/// What `s.parse::<u32>()` yields.
pub open spec fn parse_u32_spec(s: Seq<char>) -> Option<u32> {
    match parse_unsigned(s, u32::MAX as nat) {
        Some(v) => Some(v as u32),
        None => None,
    }
}

/// What `s.parse::<u64>()` yields.
pub open spec fn parse_u64_spec(s: Seq<char>) -> Option<u64> {
    match parse_unsigned(s, u64::MAX as nat) {
        Some(v) => Some(v as u64),
        None => None,
    }
}

/// What `s.parse::<i64>()` yields: an optional `+` or `-`, then at least
/// one digit, within `i64`'s range.
pub open spec fn parse_i64_spec(s: Seq<char>) -> Option<i64> {
    if s.len() > 0 && s[0] == '-' {
        let d = s.drop_first();
        if d.len() > 0 && all_digits(d) && digits_value(d) <= 0x8000_0000_0000_0000 {
            Some((0 - digits_value(d)) as i64)
        } else {
            None
        }
    } else {
        match parse_unsigned(s, i64::MAX as nat) {
            Some(v) => Some(v as i64),
            None => None,
        }
    }
}

pub proof fn lemma_digits_value_grows(s: Seq<char>, k: int)
    requires
        0 <= k <= s.len(),
        all_digits(s),
    ensures
        digits_value(s.take(k)) <= digits_value(s),
    decreases s.len() - k,
{
    if k < s.len() {
        lemma_digits_value_grows(s, k + 1);
        assert(s.take(k + 1).drop_last() =~= s.take(k));
        assert(is_digit(s[k]));
    } else {
        assert(s.take(k) =~= s);
    }
}

/// The value of the digits `s[start..]` if every character there is a digit
/// and the value is at most `limit`.
pub fn digits_up_to(s: &[char], start: usize, limit: u64) -> (r: Option<u64>)
    requires
        start <= s@.len(),
    ensures
        ({
            let d = s@.subrange(start as int, s@.len() as int);
            match r {
                Some(v) => all_digits(d) && digits_value(d) <= limit && v == digits_value(d),
                None => !(all_digits(d) && digits_value(d) <= limit),
            }
        }),
{
    let ghost d = s@.subrange(start as int, s@.len() as int);
    let mut v: u128 = 0;
    let mut i: usize = start;
    while i < s.len()
        invariant
            start <= i <= s@.len(),
            s@.len() == s.len(),
            d == s@.subrange(start as int, s@.len() as int),
            all_digits(d.take(i - start)),
            v == digits_value(d.take(i - start)),
            v <= limit,
        decreases s@.len() - i,
    {
        let c = s[i];
        if !('0' <= c && c <= '9') {
            proof {
                assert(d[i - start] == c);
            }
            return None;
        }
        let next = v * 10 + ((c as u32) - 48) as u128;
        proof {
            assert(d.take(i - start + 1).drop_last() =~= d.take(i - start));
            assert(d.take(i - start + 1).last() == c);
            assert(all_digits(d.take(i - start + 1))) by {
                assert forall|j: int| 0 <= j < d.take(i - start + 1).len() implies is_digit(
                    #[trigger] d.take(i - start + 1)[j],
                ) by {
                    if j < i - start {
                        assert(d.take(i - start + 1)[j] == d.take(i - start)[j]);
                    }
                }
            }
        }
        if next > limit as u128 {
            proof {
                if all_digits(d) {
                    lemma_digits_value_grows(d, i - start + 1);
                }
            }
            return None;
        }
        v = next;
        i = i + 1;
    }
    proof {
        assert(d.take(i - start) =~= d);
    }
    Some(v as u64)
}

/// The unsigned value written in `s`, if at most `limit`.
pub fn parse_unsigned_chars(s: &[char], limit: u64) -> (r: Option<u64>)
    ensures
        match parse_unsigned(s@, limit as nat) {
            Some(v) => r == Some(v as u64),
            None => r is None,
        },
{
    let start: usize = if s.len() > 0 && s[0] == '+' {
        1
    } else {
        0
    };
    proof {
        if start == 1 {
            assert(s@.drop_first() =~= s@.subrange(1, s@.len() as int));
        } else {
            assert(s@ =~= s@.subrange(0, s@.len() as int));
        }
    }
    if start >= s.len() {
        return None;
    }
    digits_up_to(s, start, limit)
}

/// `s.parse::<u32>().ok()`.
pub fn parse_u32(s: &[char]) -> (r: Option<u32>)
    ensures
        r == parse_u32_spec(s@),
{
    match parse_unsigned_chars(s, 0xFFFF_FFFF) {
        Some(v) => Some(v as u32),
        None => None,
    }
}

/// `s.parse::<u64>().ok()`.
pub fn parse_u64(s: &[char]) -> (r: Option<u64>)
    ensures
        r == parse_u64_spec(s@),
{
    parse_unsigned_chars(s, 0xFFFF_FFFF_FFFF_FFFF)
}

/// `s.parse::<i64>().ok()`.
pub fn parse_i64(s: &[char]) -> (r: Option<i64>)
    ensures
        r == parse_i64_spec(s@),
{
    if s.len() > 0 && s[0] == '-' {
        proof {
            assert(s@.drop_first() =~= s@.subrange(1, s@.len() as int));
        }
        if s.len() == 1 {
            return None;
        }
        match digits_up_to(s, 1, 0x8000_0000_0000_0000) {
            Some(m) => {
                if m == 0x8000_0000_0000_0000 {
                    Some(i64::MIN)
                } else {
                    Some(0 - (m as i64))
                }
            },
            None => None,
        }
    } else {
        match parse_unsigned_chars(s, 0x7FFF_FFFF_FFFF_FFFF) {
            Some(v) => Some(v as i64),
            None => None,
        }
    }
}

} // verus!
