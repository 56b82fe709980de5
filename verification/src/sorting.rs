//! Stable insertion sorting of character sequences, by code-point order or
//! by a numeric key, with the proof that the result is an ordered
//! permutation of the input.

use vstd::prelude::*;
use vstd::seq_lib::*;
use crate::chunking::views;

verus! {

broadcast use vstd::seq_lib::group_seq_properties;

/// Lexicographic order of character sequences by code point (the order of
/// `String`s: UTF-8 byte order agrees with code-point order).
pub open spec fn lex_le(a: Seq<char>, b: Seq<char>) -> bool
    decreases a.len(),
{
    if a.len() == 0 {
        true
    } else if b.len() == 0 {
        false
    } else if (a[0] as u32) < (b[0] as u32) {
        true
    } else if (a[0] as u32) > (b[0] as u32) {
        false
    } else {
        lex_le(a.drop_first(), b.drop_first())
    }
}

/// Index of the first element of `r` that must come after `x` (the first
/// one not `le` `x`); `r.len()` when there is none.
pub open spec fn first_after<T>(r: Seq<T>, x: T, le: spec_fn(T, T) -> bool) -> int
    decreases r.len(),
{
    if r.len() == 0 {
        0
    } else if !le(r[0], x) {
        0
    } else {
        1 + first_after(r.drop_first(), x, le)
    }
}

/// `x` inserted into `r` after every element that is `le` it.
pub open spec fn insert_by<T>(r: Seq<T>, x: T, le: spec_fn(T, T) -> bool) -> Seq<T> {
    r.insert(first_after(r, x, le), x)
}

/// Stable sort of `s` by the preorder `le` (insertion sort).
pub open spec fn sort_by<T>(s: Seq<T>, le: spec_fn(T, T) -> bool) -> Seq<T>
    decreases s.len(),
{
    if s.len() == 0 {
        s
    } else {
        insert_by(sort_by(s.drop_last(), le), s.last(), le)
    }
}

/// `le` is a total preorder.
pub open spec fn total_preorder<T>(le: spec_fn(T, T) -> bool) -> bool {
    &&& forall|a: T, b: T| #[trigger] le(a, b) || #[trigger] le(b, a)
    &&& forall|a: T, b: T, c: T| #[trigger] le(a, b) && #[trigger] le(b, c) ==> le(a, c)
}

/// `s` is ordered by `le`.
pub open spec fn sorted_by<T>(s: Seq<T>, le: spec_fn(T, T) -> bool) -> bool {
    forall|i: int, j: int| 0 <= i < j < s.len() ==> le(#[trigger] s[i], #[trigger] s[j])
}

pub proof fn lemma_first_after<T>(r: Seq<T>, x: T, le: spec_fn(T, T) -> bool)
    ensures
        0 <= first_after(r, x, le) <= r.len(),
        forall|j: int| 0 <= j < first_after(r, x, le) ==> le(#[trigger] r[j], x),
        first_after(r, x, le) < r.len() ==> !le(r[first_after(r, x, le)], x),
    decreases r.len(),
{
    if r.len() > 0 && le(r[0], x) {
        lemma_first_after(r.drop_first(), x, le);
        assert forall|j: int| 0 <= j < first_after(r, x, le) implies le(#[trigger] r[j], x) by {
            if j > 0 {
                assert(r[j] == r.drop_first()[j - 1]);
            }
        }
    }
}

/// Sorting yields an ordered permutation of the input.
pub proof fn lemma_sort_by<T>(s: Seq<T>, le: spec_fn(T, T) -> bool)
    requires
        total_preorder(le),
    ensures
        sorted_by(sort_by(s, le), le),
        sort_by(s, le).to_multiset() == s.to_multiset(),
        sort_by(s, le).len() == s.len(),
    decreases s.len(),
{
    if s.len() > 0 {
        let r = sort_by(s.drop_last(), le);
        let x = s.last();
        lemma_sort_by(s.drop_last(), le);
        lemma_first_after(r, x, le);
        let p = first_after(r, x, le);
        let out = r.insert(p, x);
        to_multiset_insert(r, p, x);
        assert(s =~= s.drop_last().push(x));
        to_multiset_build(s.drop_last(), x);
        assert forall|i: int, j: int| 0 <= i < j < out.len() implies le(
            #[trigger] out[i],
            #[trigger] out[j],
        ) by {
            if i < p && j < p {
                assert(out[i] == r[i] && out[j] == r[j]);
            } else if i < p && j == p {
                assert(out[i] == r[i]);
            } else if i < p && j > p {
                assert(out[i] == r[i] && out[j] == r[j - 1]);
            } else if i == p {
                assert(out[j] == r[j - 1]);
                assert(le(r[p], r[j - 1]) || p == j - 1);
                assert(!le(r[p], x));
                assert(le(x, r[p]));
            } else {
                assert(out[i] == r[i - 1] && out[j] == r[j - 1]);
            }
        }
    }
}

/// Code-point order of two character slices.
pub fn lex_le_chars(a: &[char], b: &[char]) -> (r: bool)
    ensures
        r == lex_le(a@, b@),
{
    let mut i: usize = 0;
    while i < a.len() && i < b.len()
        invariant
            i <= a@.len(),
            i <= b@.len(),
            a@.len() == a.len(),
            b@.len() == b.len(),
            lex_le(a@, b@) == lex_le(a@.skip(i as int), b@.skip(i as int)),
        decreases a@.len() - i,
    {
        let x = a[i] as u32;
        let y = b[i] as u32;
        proof {
            assert(a@.skip(i as int)[0] == a@[i as int]);
            assert(b@.skip(i as int)[0] == b@[i as int]);
        }
        if x < y {
            return true;
        }
        if x > y {
            return false;
        }
        proof {
            assert(a@.skip(i as int).drop_first() =~= a@.skip(i + 1));
            assert(b@.skip(i as int).drop_first() =~= b@.skip(i + 1));
        }
        i = i + 1;
    }
    i == a.len()
}

/// The code-point order as a spec closure.
pub open spec fn lex_order() -> spec_fn(Seq<char>, Seq<char>) -> bool {
    |a: Seq<char>, b: Seq<char>| lex_le(a, b)
}

pub proof fn lemma_lex_total_preorder()
    ensures
        total_preorder(lex_order()),
{
    assert forall|a: Seq<char>, b: Seq<char>| #[trigger] lex_le(a, b) || #[trigger] lex_le(
        b,
        a,
    ) by {
        lemma_lex_total(a, b);
    }
    assert forall|a: Seq<char>, b: Seq<char>, c: Seq<char>| #[trigger] lex_le(a, b)
        && #[trigger] lex_le(b, c) implies lex_le(a, c) by {
        lemma_lex_trans(a, b, c);
    }
}

pub proof fn lemma_lex_total(a: Seq<char>, b: Seq<char>)
    ensures
        lex_le(a, b) || lex_le(b, a),
    decreases a.len(),
{
    if a.len() > 0 && b.len() > 0 && (a[0] as u32) == (b[0] as u32) {
        lemma_lex_total(a.drop_first(), b.drop_first());
    }
}

pub proof fn lemma_lex_trans(a: Seq<char>, b: Seq<char>, c: Seq<char>)
    requires
        lex_le(a, b),
        lex_le(b, c),
    ensures
        lex_le(a, c),
    decreases a.len(),
{
    if a.len() > 0 && b.len() > 0 && c.len() > 0 && (a[0] as u32) == (b[0] as u32) && (b[0] as u32)
        == (c[0] as u32) {
        lemma_lex_trans(a.drop_first(), b.drop_first(), c.drop_first());
    }
}

/// `names` sorted by code-point order (`Vec<String>::sort`).
pub fn sort_lex(names: &Vec<Vec<char>>) -> (r: Vec<Vec<char>>)
    ensures
        views(r@) == sort_by(views(names@), lex_order()),
{
    let mut r: Vec<Vec<char>> = Vec::new();
    let mut k: usize = 0;
    while k < names.len()
        invariant
            k <= names@.len(),
            views(r@) == sort_by(views(names@).take(k as int), lex_order()),
        decreases names@.len() - k,
    {
        let x = &names[k];
        let mut p: usize = 0;
        let ghost rv = views(r@);
        while p < r.len() && lex_le_chars(r[p].as_slice(), x.as_slice())
            invariant
                p <= r@.len(),
                rv == views(r@),
                first_after(rv, x@, lex_order()) == p + first_after(
                    rv.skip(p as int),
                    x@,
                    lex_order(),
                ),
            decreases r@.len() - p,
        {
            proof {
                assert(rv.skip(p as int)[0] == r@[p as int]@);
                assert(rv.skip(p as int).drop_first() =~= rv.skip(p + 1));
            }
            p = p + 1;
        }
        proof {
            if p < r.len() {
                assert(rv.skip(p as int)[0] == r@[p as int]@);
            } else {
                assert(rv.skip(p as int) =~= Seq::<Seq<char>>::empty());
            }
            assert(rv.skip(0) =~= rv);
            let taken = views(names@).take(k + 1);
            assert(taken.drop_last() =~= views(names@).take(k as int));
            assert(taken.last() == x@);
        }
        let copy = crate::text::copy_range(x.as_slice(), 0, x.len());
        proof {
            assert(x@.subrange(0, x@.len() as int) =~= x@);
            assert(views(r@.insert(p as int, copy)) =~= views(r@).insert(p as int, copy@));
        }
        r.insert(p, copy);
        k = k + 1;
    }
    proof {
        assert(views(names@).take(names@.len() as int) =~= views(names@));
    }
    r
}

} // verus!
