//! Recursive text splitting: a text is cut into chunks of at most
//! `max_chunk_size` bytes by trying, in order, paragraph breaks, line breaks,
//! spaces and finally fixed-width character windows. Separators are kept on
//! the leading edge of the chunk that follows them, so concatenating the
//! chunks gives back the text exactly.

use vstd::prelude::*;
use vstd::seq_lib::*;
use crate::text::{
    all_ascii, byte_len, byte_len_of, chars_of, copy_range, find_from, is_ascii_char,
    lemma_byte_len_concat, lemma_byte_len_ge_len, lemma_byte_len_is_encoding_len,
    lemma_find_from_bounds, matches_at, push_range, string_from_chars, all_whitespace,
    char_is_whitespace, is_blank, is_unicode_whitespace, trim_chars, trim_ws,
};

verus! {

broadcast use vstd::seq_lib::group_seq_properties;

/// Views of a vector of character vectors.
pub open spec fn views(v: Seq<Vec<char>>) -> Seq<Seq<char>> {
    v.map_values(|c: Vec<char>| c@)
}

/// Views of a vector of strings.
pub open spec fn string_views(v: Seq<String>) -> Seq<Seq<char>> {
    v.map_values(|c: String| c@)
}

/// The separators of the default splitter: paragraph break, line break,
/// space, and the empty separator that means "cut by length".
pub open spec fn default_separators() -> Seq<Seq<char>> {
    seq![seq!['\n', '\n'], seq!['\n'], seq![' '], Seq::<char>::empty()]
}

/// The parts of `t[start..]` between occurrences of `sep` (leftmost,
/// non-overlapping, as `str::split` finds them), each part after the first
/// carrying the separator that preceded it; `lead` is put in front of the
/// first part.
pub open spec fn pieces_from(t: Seq<char>, sep: Seq<char>, start: int, lead: Seq<char>) -> Seq<
    Seq<char>,
>
    decreases t.len() - start,
{
    if sep.len() == 0 || start < 0 || start > t.len() {
        seq![lead + t.subrange(start, t.len() as int)]
    } else {
        match find_from(t, sep, start) {
            None => seq![lead + t.subrange(start, t.len() as int)],
            Some(p) => {
                proof {
                    lemma_find_from_bounds(t, sep, start);
                }
                seq![lead + t.subrange(start, p)] + pieces_from(t, sep, p + sep.len(), sep)
            },
        }
    }
}

/// `t` split at `sep`, separators reattached to the following part.
pub open spec fn pieces(t: Seq<char>, sep: Seq<char>) -> Seq<Seq<char>> {
    pieces_from(t, sep, 0, Seq::empty())
}

/// Consecutive windows of `max` characters of `t[start..]` (the last one
/// possibly shorter).
pub open spec fn by_length_from(t: Seq<char>, max: nat, start: int) -> Seq<Seq<char>>
    decreases t.len() - start,
{
    if max == 0 || start < 0 || start >= t.len() {
        seq![]
    } else {
        let end = if start + max < t.len() {
            start + max
        } else {
            t.len() as int
        };
        seq![t.subrange(start, end)] + by_length_from(t, max, end)
    }
}

/// The chunks of `text` produced with separator `idx` and the finer ones.
pub open spec fn rsplit(seps: Seq<Seq<char>>, text: Seq<char>, max: nat, idx: nat) -> Seq<
    Seq<char>,
>
    decreases seps.len() - idx, 1int, 0int,
{
    if byte_len(text) <= max {
        seq![text]
    } else if idx >= seps.len() || seps[idx as int].len() == 0 {
        by_length_from(text, max, 0)
    } else {
        let pcs = pieces(text, seps[idx as int]);
        if pcs.len() == 1 {
            rsplit(seps, text, max, idx + 1)
        } else {
            let st = fold_pieces(seps, pcs, max, idx, pcs.len());
            if st.1.len() > 0 {
                st.0.push(st.1)
            } else {
                st.0
            }
        }
    }
}

/// The state (finished chunks, chunk being built) after the first `n`
/// pieces have been packed greedily: a piece joins the current chunk while
/// the byte total stays within `max`; a current chunk that still exceeds
/// `max` is split with the next finer separator.
pub open spec fn fold_pieces(
    seps: Seq<Seq<char>>,
    pcs: Seq<Seq<char>>,
    max: nat,
    idx: nat,
    n: nat,
) -> (Seq<Seq<char>>, Seq<char>)
    decreases seps.len() - idx, 0int, n,
{
    if n == 0 || idx >= seps.len() {
        (seq![], seq![])
    } else {
        let prev = fold_pieces(seps, pcs, max, idx, (n - 1) as nat);
        let chunks = prev.0;
        let cur = prev.1;
        let piece = pcs[n - 1];
        let next: (Seq<Seq<char>>, Seq<char>) = if cur.len() == 0 {
            (chunks, piece)
        } else if byte_len(cur) + byte_len(piece) <= max {
            (chunks, cur + piece)
        } else {
            (chunks.push(cur), piece)
        };
        if byte_len(next.1) > max {
            (next.0 + rsplit(seps, next.1, max, idx + 1), seq![])
        } else {
            next
        }
    }
}

pub proof fn lemma_flatten_cons(x: Seq<char>, rest: Seq<Seq<char>>)
    ensures
        (seq![x] + rest).flatten() == x + rest.flatten(),
{
    let s = seq![x] + rest;
    assert(s.first() == x);
    assert(s.drop_first() =~= rest);
}

pub proof fn lemma_flatten_single(x: Seq<char>)
    ensures
        seq![x].flatten() == x,
{
    lemma_flatten_cons(x, seq![]);
    assert(x + Seq::<Seq<char>>::empty().flatten() =~= x);
    assert(seq![x] + Seq::<Seq<char>>::empty() =~= seq![x]);
}

/// Every part of a flattened sequence is no longer (in bytes) than the
/// whole, and is ASCII when the whole is.
pub proof fn lemma_flatten_parts(s: Seq<Seq<char>>)
    ensures
        forall|k: int|
            0 <= k < s.len() ==> byte_len(#[trigger] s[k]) <= byte_len(s.flatten()) && (all_ascii(
                s.flatten(),
            ) ==> all_ascii(s[k])),
    decreases s.len(),
{
    if s.len() > 0 {
        lemma_flatten_parts(s.drop_first());
        lemma_byte_len_concat(s.first(), s.drop_first().flatten());
        let f = s.flatten();
        assert(f == s.first() + s.drop_first().flatten());
        assert forall|k: int| 0 <= k < s.len() implies byte_len(#[trigger] s[k]) <= byte_len(
            s.flatten(),
        ) && (all_ascii(s.flatten()) ==> all_ascii(s[k])) by {
            if k == 0 {
                if all_ascii(f) {
                    assert forall|i: int| 0 <= i < s[0].len() implies is_ascii_char(
                        #[trigger] s[0][i],
                    ) by {
                        assert(f[i] == s[0][i]);
                    }
                }
            } else {
                assert(s[k] == s.drop_first()[k - 1]);
                if all_ascii(f) {
                    let g = s.drop_first().flatten();
                    assert forall|i: int| 0 <= i < g.len() implies is_ascii_char(
                        #[trigger] g[i],
                    ) by {
                        assert(f[s.first().len() + i] == g[i]);
                    }
                }
            }
        }
    }
}

pub proof fn lemma_pieces_flatten(t: Seq<char>, sep: Seq<char>, start: int, lead: Seq<char>)
    requires
        0 <= start <= t.len(),
        sep.len() > 0,
    ensures
        pieces_from(t, sep, start, lead).flatten() == lead + t.subrange(start, t.len() as int),
        pieces_from(t, sep, start, lead).len() >= 1,
        (pieces_from(t, sep, start, lead).len() == 1) == (find_from(t, sep, start) is None),
    decreases t.len() - start,
{
    lemma_find_from_bounds(t, sep, start);
    match find_from(t, sep, start) {
        None => {
            lemma_flatten_single(lead + t.subrange(start, t.len() as int));
        },
        Some(p) => {
            let rest = pieces_from(t, sep, p + sep.len(), sep);
            lemma_pieces_flatten(t, sep, p + sep.len(), sep);
            lemma_flatten_cons(lead + t.subrange(start, p), rest);
            assert(t.subrange(p, p + sep.len()) == sep);
            assert(lead + t.subrange(start, p) + (sep + t.subrange(p + sep.len(), t.len() as int))
                =~= lead + t.subrange(start, t.len() as int));
        },
    }
}

pub proof fn lemma_by_length(t: Seq<char>, max: nat, start: int)
    requires
        max >= 1,
        0 <= start <= t.len(),
    ensures
        by_length_from(t, max, start).flatten() == t.subrange(start, t.len() as int),
        forall|k: int|
            0 <= k < by_length_from(t, max, start).len() ==> 0 < (#[trigger] by_length_from(
                t,
                max,
                start,
            )[k]).len() <= max,
    decreases t.len() - start,
{
    if start >= t.len() {
        assert(t.subrange(start, t.len() as int) =~= Seq::<char>::empty());
    } else {
        let end = if start + max < t.len() {
            start + max
        } else {
            t.len() as int
        };
        lemma_by_length(t, max, end);
        lemma_flatten_cons(t.subrange(start, end), by_length_from(t, max, end));
        assert(t.subrange(start, end) + t.subrange(end, t.len() as int) =~= t.subrange(
            start,
            t.len() as int,
        ));
        let r = by_length_from(t, max, start);
        assert forall|k: int| 0 <= k < r.len() implies 0 < (#[trigger] r[k]).len() <= max by {
            if k > 0 {
                assert(r[k] == by_length_from(t, max, end)[k - 1]);
            }
        }
    }
}

/// Facts about `rsplit`: the chunks concatenate back to the text, none is
/// longer than `max` characters, and none is empty unless the text is.
pub proof fn lemma_rsplit(seps: Seq<Seq<char>>, text: Seq<char>, max: nat, idx: nat)
    requires
        max >= 1,
    ensures
        rsplit(seps, text, max, idx).flatten() == text,
        forall|k: int|
            0 <= k < rsplit(seps, text, max, idx).len() ==> (#[trigger] rsplit(
                seps,
                text,
                max,
                idx,
            )[k]).len() <= max && (text.len() > 0 ==> rsplit(seps, text, max, idx)[k].len() > 0),
    decreases seps.len() - idx, 1int, 0int,
{
    let r = rsplit(seps, text, max, idx);
    if byte_len(text) <= max {
        lemma_byte_len_ge_len(text);
        lemma_flatten_single(text);
    } else if idx >= seps.len() || seps[idx as int].len() == 0 {
        lemma_by_length(text, max, 0);
        assert(text.subrange(0, text.len() as int) =~= text);
    } else {
        let sep = seps[idx as int];
        let pcs = pieces(text, sep);
        lemma_pieces_flatten(text, sep, 0, Seq::empty());
        if pcs.len() == 1 {
            lemma_rsplit(seps, text, max, idx + 1);
        } else {
            lemma_fold(seps, pcs, max, idx, pcs.len());
            assert(pcs.take(pcs.len() as int) =~= pcs);
            assert(Seq::<char>::empty() + text.subrange(0, text.len() as int) =~= text);
            let st = fold_pieces(seps, pcs, max, idx, pcs.len());
            if st.1.len() > 0 {
                st.0.lemma_flatten_push(st.1);
                lemma_byte_len_ge_len(st.1);
                assert forall|k: int| 0 <= k < r.len() implies (#[trigger] r[k]).len() <= max && (
                text.len() > 0 ==> r[k].len() > 0) by {
                    if k < st.0.len() {
                        assert(r[k] == st.0[k]);
                    }
                }
            } else {
                assert(st.0.flatten() + st.1 =~= st.0.flatten());
            }
        }
    }
}

/// Facts about the packing state after `n` pieces.
pub proof fn lemma_fold(seps: Seq<Seq<char>>, pcs: Seq<Seq<char>>, max: nat, idx: nat, n: nat)
    requires
        max >= 1,
        idx < seps.len(),
        n <= pcs.len(),
    ensures
        ({
            let st = fold_pieces(seps, pcs, max, idx, n);
            &&& st.0.flatten() + st.1 == pcs.take(n as int).flatten()
            &&& forall|k: int| 0 <= k < st.0.len() ==> 0 < (#[trigger] st.0[k]).len() <= max
            &&& (st.1.len() == 0 || byte_len(st.1) <= max)
        }),
    decreases seps.len() - idx, 0int, n,
{
    if n == 0 {
        assert(pcs.take(0) =~= Seq::<Seq<char>>::empty());
        assert(Seq::<Seq<char>>::empty().flatten() + Seq::<char>::empty() =~= Seq::<
            Seq<char>,
        >::empty().flatten());
    } else {
        lemma_fold(seps, pcs, max, idx, (n - 1) as nat);
        let prev = fold_pieces(seps, pcs, max, idx, (n - 1) as nat);
        let chunks = prev.0;
        let cur = prev.1;
        let piece = pcs[n - 1];
        assert(pcs.take(n as int) =~= pcs.take(n - 1).push(piece));
        pcs.take(n - 1).lemma_flatten_push(piece);
        let next: (Seq<Seq<char>>, Seq<char>) = if cur.len() == 0 {
            (chunks, piece)
        } else if byte_len(cur) + byte_len(piece) <= max {
            (chunks, cur + piece)
        } else {
            (chunks.push(cur), piece)
        };
        if cur.len() == 0 {
            assert(chunks.flatten() + cur =~= chunks.flatten());
        } else if byte_len(cur) + byte_len(piece) <= max {
            lemma_byte_len_concat(cur, piece);
            assert(chunks.flatten() + (cur + piece) =~= chunks.flatten() + cur + piece);
        } else {
            chunks.lemma_flatten_push(cur);
            lemma_byte_len_ge_len(cur);
            assert forall|k: int| 0 <= k < next.0.len() implies 0 < (#[trigger] next.0[k]).len()
                <= max by {
                if k < chunks.len() {
                    assert(next.0[k] == chunks[k]);
                }
            }
        }
        // here: next.0.flatten() + next.1 == pcs.take(n).flatten()
        assert(next.0.flatten() + next.1 == pcs.take(n as int).flatten());
        if byte_len(next.1) > max {
            lemma_rsplit(seps, next.1, max, idx + 1);
            let sub = rsplit(seps, next.1, max, idx + 1);
            lemma_flatten_concat(next.0, sub);
            assert(next.1.len() > 0);
            assert(next.0.flatten() + sub.flatten() + Seq::<char>::empty() =~= next.0.flatten()
                + next.1);
            let res = next.0 + sub;
            assert forall|k: int| 0 <= k < res.len() implies 0 < (#[trigger] res[k]).len()
                <= max by {
                if k < next.0.len() {
                    assert(res[k] == next.0[k]);
                } else {
                    assert(res[k] == sub[k - next.0.len()]);
                }
            }
        }
    }
}

/// The chunks `split_text` returns for `text`: the text itself when it fits
/// in `max` bytes, else its recursive split starting at the first separator.
pub open spec fn split_text_spec(seps: Seq<Seq<char>>, text: Seq<char>, max: nat) -> Seq<Seq<char>> {
    if byte_len(text) <= max {
        seq![text]
    } else {
        rsplit(seps, text, max, 0)
    }
}

/// Splitting loses nothing and adds nothing: the chunks, concatenated in
/// order with no separator, are exactly the text; and no chunk of a
/// non-empty text is empty.
pub proof fn lemma_split_text_is_lossless(seps: Seq<Seq<char>>, text: Seq<char>, max: nat)
    requires
        max >= 1 || text.len() == 0,
    ensures
        split_text_spec(seps, text, max).flatten() == text,
        text.len() > 0 ==> forall|k: int|
            0 <= k < split_text_spec(seps, text, max).len() ==> (#[trigger] split_text_spec(
                seps,
                text,
                max,
            )[k]).len() > 0,
{
    if byte_len(text) <= max {
        lemma_flatten_single(text);
    } else {
        lemma_rsplit(seps, text, max, 0);
    }
}

/// Size bounds of the chunks: none holds more than `max` characters, and
/// when the text is ASCII none holds more than `max` bytes.
pub proof fn lemma_split_text_chunk_bounds(seps: Seq<Seq<char>>, text: Seq<char>, max: nat)
    requires
        max >= 1,
    ensures
        forall|k: int|
            0 <= k < split_text_spec(seps, text, max).len() ==> (#[trigger] split_text_spec(
                seps,
                text,
                max,
            )[k]).len() <= max,
        all_ascii(text) ==> forall|k: int|
            0 <= k < split_text_spec(seps, text, max).len() ==> byte_len(
                #[trigger] split_text_spec(seps, text, max)[k],
            ) <= max,
{
    let r = split_text_spec(seps, text, max);
    if byte_len(text) <= max {
        lemma_byte_len_ge_len(text);
    } else {
        lemma_rsplit(seps, text, max, 0);
    }
    lemma_split_text_is_lossless(seps, text, max);
    lemma_flatten_parts(r);
    if all_ascii(text) {
        assert forall|k: int| 0 <= k < r.len() implies byte_len(#[trigger] r[k]) <= max by {
            lemma_byte_len_ge_len(r[k]);
        }
    }
}

/// The packing state after `n` pieces when every piece fits in `max` bytes:
/// the chunk being built fits; no finished chunk could take the next one
/// and still fit; and the last finished chunk could not take the chunk being
/// built.
proof fn lemma_fold_greedy(seps: Seq<Seq<char>>, pcs: Seq<Seq<char>>, max: nat, idx: nat, n: nat)
    requires
        idx < seps.len(),
        n <= pcs.len(),
        forall|k: int| 0 <= k < pcs.len() ==> byte_len(#[trigger] pcs[k]) <= max,
    ensures
        ({
            let st = fold_pieces(seps, pcs, max, idx, n);
            &&& byte_len(st.1) <= max
            &&& forall|k: int|
                0 <= k < st.0.len() - 1 ==> byte_len(#[trigger] st.0[k]) + byte_len(st.0[k + 1]) > max
            &&& st.0.len() > 0 ==> st.1.len() > 0 && byte_len(st.0.last()) + byte_len(st.1) > max
        }),
    decreases n,
{
    if n > 0 {
        lemma_fold_greedy(seps, pcs, max, idx, (n - 1) as nat);
        let prev = fold_pieces(seps, pcs, max, idx, (n - 1) as nat);
        let chunks = prev.0;
        let cur = prev.1;
        let piece = pcs[n - 1];
        assert(byte_len(piece) <= max);
        if cur.len() == 0 {
        } else if byte_len(cur) + byte_len(piece) <= max {
            lemma_byte_len_concat(cur, piece);
        } else {
            let next = chunks.push(cur);
            assert(byte_len(piece) > 0);
            assert forall|k: int| 0 <= k < next.len() - 1 implies byte_len(#[trigger] next[k]) + byte_len(
                next[k + 1],
            ) > max by {
                assert(next[k] == chunks[k]);
                if k < chunks.len() - 1 {
                    assert(next[k + 1] == chunks[k + 1]);
                }
            }
        }
    }
}

/// Greedy packing at one separator level whose pieces all fit: no chunk
/// could be joined with the chunk after it and still fit in `max` bytes.
proof fn lemma_rsplit_greedy(seps: Seq<Seq<char>>, text: Seq<char>, max: nat, idx: nat)
    requires
        idx < seps.len(),
        seps[idx as int].len() > 0,
        pieces(text, seps[idx as int]).len() > 1,
        forall|k: int|
            0 <= k < pieces(text, seps[idx as int]).len() ==> byte_len(
                #[trigger] pieces(text, seps[idx as int])[k],
            ) <= max,
    ensures
        ({
            let r = rsplit(seps, text, max, idx);
            forall|k: int| 0 <= k < r.len() - 1 ==> byte_len(#[trigger] r[k]) + byte_len(r[k + 1]) > max
        }),
{
    let r = rsplit(seps, text, max, idx);
    if byte_len(text) > max {
        let pcs = pieces(text, seps[idx as int]);
        lemma_fold_greedy(seps, pcs, max, idx, pcs.len());
        let st = fold_pieces(seps, pcs, max, idx, pcs.len());
        if st.1.len() > 0 {
            assert(r == st.0.push(st.1));
            assert forall|k: int| 0 <= k < r.len() - 1 implies byte_len(#[trigger] r[k]) + byte_len(
                r[k + 1],
            ) > max by {
                assert(r[k] == st.0[k]);
                if k < st.0.len() - 1 {
                    assert(r[k + 1] == st.0[k + 1]);
                }
            }
        }
    }
}

/// Every separator before level `lvl` is non-empty and absent from `text`
/// (it cuts the text into a single piece).
pub open spec fn coarser_levels_absent(seps: Seq<Seq<char>>, text: Seq<char>, lvl: nat) -> bool {
    forall|i: int| 0 <= i < lvl ==> seps[i].len() > 0 && #[trigger] pieces(text, seps[i]).len() == 1
}

/// A text that no separator from level `j` up to `lvl` splits is split as
/// level `lvl` splits it.
proof fn lemma_rsplit_skips_levels(seps: Seq<Seq<char>>, text: Seq<char>, max: nat, j: nat, lvl: nat)
    requires
        j <= lvl < seps.len(),
        coarser_levels_absent(seps, text, lvl),
    ensures
        rsplit(seps, text, max, j) == rsplit(seps, text, max, lvl),
    decreases lvl - j,
{
    if j < lvl {
        assert(pieces(text, seps[j as int]).len() == 1);
        lemma_rsplit_skips_levels(seps, text, max, j + 1, lvl);
    }
}

/// Greedy packing: pieces join the chunk being built as long as it stays
/// within `max` bytes. When the first separator that splits the text (at
/// level `lvl`, every coarser separator being absent from it) cuts it into
/// pieces that each fit, no two consecutive chunks of the result could be
/// joined and still fit: each chunk after the first would have overflowed
/// `max` had it been appended to its predecessor.
pub proof fn lemma_split_text_packs_greedily(seps: Seq<Seq<char>>, text: Seq<char>, max: nat, lvl: nat)
    requires
        lvl < seps.len(),
        coarser_levels_absent(seps, text, lvl),
        seps[lvl as int].len() > 0,
        pieces(text, seps[lvl as int]).len() > 1,
        forall|k: int|
            0 <= k < pieces(text, seps[lvl as int]).len() ==> byte_len(
                #[trigger] pieces(text, seps[lvl as int])[k],
            ) <= max,
    ensures
        forall|k: int|
            0 <= k < split_text_spec(seps, text, max).len() - 1 ==> byte_len(
                #[trigger] split_text_spec(seps, text, max)[k],
            ) + byte_len(split_text_spec(seps, text, max)[k + 1]) > max,
{
    if byte_len(text) > max {
        lemma_rsplit_skips_levels(seps, text, max, 0, lvl);
        lemma_rsplit_greedy(seps, text, max, lvl);
    }
}

/// Splits `t` at every occurrence of the non-empty `sep`, keeping each
/// separator at the front of the part that follows it.
pub fn split_keep_separator(t: &[char], sep: &[char]) -> (r: Vec<Vec<char>>)
    requires
        sep@.len() > 0,
    ensures
        views(r@) == pieces(t@, sep@),
{
    let mut out: Vec<Vec<char>> = Vec::new();
    let mut lead: Vec<char> = Vec::new();
    let mut start: usize = 0;
    let mut i: usize = 0;
    while sep.len() <= t.len() - i
        invariant
            start <= i <= t@.len(),
            t@.len() == t.len(),
            sep@.len() == sep.len(),
            sep@.len() > 0,
            pieces(t@, sep@) == views(out@) + pieces_from(t@, sep@, start as int, lead@),
            find_from(t@, sep@, start as int) == find_from(t@, sep@, i as int),
        decreases t@.len() - i,
    {
        if matches_at(t, sep, i) {
            let mut piece = copy_range(&lead, 0, lead.len());
            push_range(&mut piece, t, start, i);
            proof {
                assert(lead@.subrange(0, lead@.len() as int) =~= lead@);
                assert(find_from(t@, sep@, i as int) == Some(i as int));
                let rest = pieces_from(t@, sep@, i + sep@.len(), sep@);
                assert(pieces_from(t@, sep@, start as int, lead@) == seq![piece@] + rest);
                assert(views(out@.push(piece)) =~= views(out@).push(piece@));
                assert(views(out@).push(piece@) + rest =~= views(out@) + (seq![piece@] + rest));
            }
            out.push(piece);
            start = i + sep.len();
            i = start;
            lead = copy_range(sep, 0, sep.len());
            proof {
                assert(sep@.subrange(0, sep@.len() as int) =~= sep@);
            }
        } else {
            proof {
                assert(!occurs_at_plain(t@, sep@, i as int));
            }
            i = i + 1;
        }
    }
    let mut piece = copy_range(&lead, 0, lead.len());
    push_range(&mut piece, t, start, t.len());
    proof {
        assert(lead@.subrange(0, lead@.len() as int) =~= lead@);
        assert(find_from(t@, sep@, i as int) is None);
        assert(views(out@.push(piece)) =~= views(out@) + seq![piece@]);
    }
    out.push(piece);
    out
}

/// Helper view of "no occurrence at `i`" that unfolds `find_from` one step.
pub open spec fn occurs_at_plain(t: Seq<char>, sub: Seq<char>, i: int) -> bool {
    0 <= i && i + sub.len() <= t.len() && t.subrange(i, i + sub.len()) == sub
}

/// Splits text on separators, from the coarsest to the finest, into chunks
/// of bounded size.
pub trait RecursiveTextSplitter {
    /// Cuts `text` into chunks of at most `max_chunk_size` bytes where the
    /// separators allow it.
    fn split_text(&self, text: &str, max_chunk_size: usize) -> (chunks: Vec<String>)
        requires
            max_chunk_size >= 1 || text@.len() == 0,
    ;
}

/// The recursive splitter with a fixed list of separators.
#[derive(Debug, Clone)]
pub struct RTSplitter {
    separators: Vec<Vec<char>>,
}

impl RTSplitter {
    /// The separators this splitter tries, coarsest first.
    pub closed spec fn seps(&self) -> Seq<Seq<char>> {
        views(self.separators@)
    }

    /// Consecutive windows of `max_chunk_size` characters of `text`.
    pub fn split_by_length(&self, text: &[char], max_chunk_size: usize) -> (chunks: Vec<Vec<char>>)
        requires
            max_chunk_size >= 1,
        ensures
            views(chunks@) == by_length_from(text@, max_chunk_size as nat, 0),
    {
        let mut chunks: Vec<Vec<char>> = Vec::new();
        let mut start: usize = 0;
        while start < text.len()
            invariant
                start <= text@.len(),
                text@.len() == text.len(),
                max_chunk_size >= 1,
                views(chunks@) + by_length_from(text@, max_chunk_size as nat, start as int)
                    == by_length_from(text@, max_chunk_size as nat, 0),
            decreases text@.len() - start,
        {
            let end = if max_chunk_size < text.len() - start {
                start + max_chunk_size
            } else {
                text.len()
            };
            let chunk = copy_range(text, start, end);
            proof {
                let rest = by_length_from(text@, max_chunk_size as nat, end as int);
                assert(by_length_from(text@, max_chunk_size as nat, start as int) == seq![chunk@]
                    + rest);
                assert(views(chunks@.push(chunk)) =~= views(chunks@).push(chunk@));
                assert(views(chunks@).push(chunk@) + rest =~= views(chunks@) + (seq![chunk@]
                    + rest));
            }
            chunks.push(chunk);
            start = end;
        }
        proof {
            assert(views(chunks@) + Seq::<Seq<char>>::empty() =~= views(chunks@));
        }
        chunks
    }

    /// Splits `text` with separator `separator_index` and, where pieces are
    /// still too large, with the finer separators.
    pub fn recursive_split(&self, text: &[char], max_chunk_size: usize, separator_index: usize) -> (chunks: Vec<Vec<char>>)
        requires
            max_chunk_size >= 1,
            byte_len(text@) <= usize::MAX,
        ensures
            views(chunks@) == rsplit(self.seps(), text@, max_chunk_size as nat, separator_index as nat),
        decreases self.seps().len() - separator_index,
    {
        let ghost seps = self.seps();
        let ghost max = max_chunk_size as nat;
        let ghost idx = separator_index as nat;
        let text_len = byte_len_of(text);
        if text_len <= max_chunk_size {
            let whole = copy_range(text, 0, text.len());
            proof {
                assert(text@.subrange(0, text@.len() as int) =~= text@);
                assert(views(seq![whole]) =~= seq![whole@]);
            }
            return vec![whole];
        }
        let nseps = self.separators.len();
        if separator_index >= nseps {
            return self.split_by_length(text, max_chunk_size);
        }
        let sep = &self.separators[separator_index];
        proof {
            assert(seps[idx as int] == sep@);
        }
        if sep.len() == 0 {
            return self.split_by_length(text, max_chunk_size);
        }
        let pcs = split_keep_separator(text, sep.as_slice());
        let ghost pv = views(pcs@);
        proof {
            lemma_pieces_flatten(text@, sep@, 0, Seq::empty());
            assert(Seq::<char>::empty() + text@.subrange(0, text@.len() as int) =~= text@);
            lemma_flatten_parts(pv);
        }
        if pcs.len() == 1 {
            return self.recursive_split(text, max_chunk_size, separator_index + 1);
        }
        let mut chunks: Vec<Vec<char>> = Vec::new();
        let mut cur: Vec<char> = Vec::new();
        let mut cur_len: usize = 0;
        let mut i: usize = 0;
        while i < pcs.len()
            invariant
                0 <= i <= pcs@.len(),
                pv == views(pcs@),
                pv == pieces(text@, sep@),
                pv.flatten() == text@,
                byte_len(text@) <= usize::MAX,
                forall|k: int| 0 <= k < pv.len() ==> byte_len(#[trigger] pv[k]) <= byte_len(pv.flatten()),
                max == max_chunk_size as nat,
                max_chunk_size >= 1,
                idx == separator_index as nat,
                idx < seps.len(),
                separator_index < nseps,
                seps == self.seps(),
                (views(chunks@), cur@) == fold_pieces(seps, pv, max, idx, i as nat),
                cur_len == byte_len(cur@),
            decreases pcs@.len() - i,
        {
            proof {
                lemma_fold(seps, pv, max, idx, i as nat);
            }
            let piece = &pcs[i];
            proof {
                assert(pv[i as int] == piece@);
            }
            let piece_len = byte_len_of(piece.as_slice());
            let ghost old_chunks = views(chunks@);
            let ghost old_cur = cur@;
            if cur.len() == 0 {
                cur = copy_range(piece.as_slice(), 0, piece.len());
                cur_len = piece_len;
                proof {
                    assert(piece@.subrange(0, piece@.len() as int) =~= piece@);
                }
            } else if piece_len <= max_chunk_size - cur_len {
                push_range(&mut cur, piece.as_slice(), 0, piece.len());
                proof {
                    assert(piece@.subrange(0, piece@.len() as int) =~= piece@);
                    lemma_byte_len_concat(old_cur, piece@);
                }
                cur_len = cur_len + piece_len;
            } else {
                let full = cur;
                proof {
                    assert(views(chunks@.push(full)) =~= views(chunks@).push(full@));
                }
                chunks.push(full);
                cur = copy_range(piece.as_slice(), 0, piece.len());
                cur_len = piece_len;
                proof {
                    assert(piece@.subrange(0, piece@.len() as int) =~= piece@);
                }
            }
            if cur_len > max_chunk_size {
                let mut sub = self.recursive_split(&cur, max_chunk_size, separator_index + 1);
                proof {
                    assert(views(chunks@ + sub@) =~= views(chunks@) + views(sub@));
                }
                chunks.append(&mut sub);
                cur = Vec::new();
                cur_len = 0;
            }
            i = i + 1;
        }
        proof {
            assert(pcs@.len() == pv.len());
        }
        if cur.len() > 0 {
            proof {
                assert(views(chunks@.push(cur)) =~= views(chunks@).push(cur@));
            }
            chunks.push(cur);
        }
        chunks
    }
}

impl Default for RTSplitter {
    fn default() -> (s: Self)
        ensures
            s.seps() == default_separators(),
    {
        let mut para: Vec<char> = Vec::new();
        para.push('\n');
        para.push('\n');
        let mut line: Vec<char> = Vec::new();
        line.push('\n');
        let mut space: Vec<char> = Vec::new();
        space.push(' ');
        let none: Vec<char> = Vec::new();
        let mut separators: Vec<Vec<char>> = Vec::new();
        separators.push(para);
        separators.push(line);
        separators.push(space);
        separators.push(none);
        let s = RTSplitter { separators };
        proof {
            assert(separators@[0]@ =~= seq!['\n', '\n']);
            assert(separators@[1]@ =~= seq!['\n']);
            assert(separators@[2]@ =~= seq![' ']);
            assert(separators@[3]@ =~= Seq::<char>::empty());
            assert(s.seps() =~= default_separators());
        }
        s
    }
}

impl RecursiveTextSplitter for RTSplitter {
    fn split_text(&self, text: &str, max_chunk_size: usize) -> (chunks: Vec<String>)
        ensures
            string_views(chunks@) == split_text_spec(self.seps(), text@, max_chunk_size as nat),
    {
        let chars = chars_of(text);
        let text_len = text.as_bytes().len();
        proof {
            lemma_byte_len_is_encoding_len(text@);
        }
        if text_len <= max_chunk_size {
            let whole = string_from_chars(chars.as_slice());
            proof {
                assert(string_views(seq![whole]) =~= seq![text@]);
            }
            return vec![whole];
        }
        let parts = self.recursive_split(chars.as_slice(), max_chunk_size, 0);
        let mut out: Vec<String> = Vec::new();
        let mut k: usize = 0;
        while k < parts.len()
            invariant
                k <= parts@.len(),
                string_views(out@) == views(parts@).take(k as int),
            decreases parts@.len() - k,
        {
            let s = string_from_chars(parts[k].as_slice());
            proof {
                assert(s@ == views(parts@)[k as int]);
                assert(views(parts@).take(k + 1) =~= views(parts@).take(k as int).push(s@));
                assert(string_views(out@.push(s)) =~= string_views(out@).push(s@));
            }
            out.push(s);
            k = k + 1;
        }
        proof {
            assert(views(parts@).take(parts@.len() as int) =~= views(parts@));
        }
        out
    }
}

/// Largest chunk, in bytes, cut from text being ingested.
pub const INGEST_CHUNK_SIZE: usize = 2000;

/// A chunk of ingested text, before it is stored: its text, its position
/// among the chunks of the split, and its number of words.
#[derive(Debug, Clone)]
pub struct ChunkDraft {
    pub text: String,
    pub chunk_index: i32,
    pub word_count: i32,
}

/// Mathematical view of a [`ChunkDraft`].
pub struct ChunkDraftView {
    pub text: Seq<char>,
    pub chunk_index: i32,
    pub word_count: i32,
}

impl View for ChunkDraft {
    type V = ChunkDraftView;

    open spec fn view(&self) -> ChunkDraftView {
        ChunkDraftView { text: self.text@, chunk_index: self.chunk_index, word_count: self.word_count }
    }
}

pub open spec fn draft_views(v: Seq<ChunkDraft>) -> Seq<ChunkDraftView> {
    v.map_values(|d: ChunkDraft| d@)
}

/// The number of words of `s`: maximal runs of non-whitespace characters
/// (`split_whitespace().count()`).
pub open spec fn word_count(s: Seq<char>) -> nat
    decreases s.len(),
{
    if s.len() == 0 {
        0
    } else {
        word_count(s.drop_last()) + if !is_unicode_whitespace(s.last()) && (s.len() == 1
            || is_unicode_whitespace(s[s.len() - 2])) {
            1nat
        } else {
            0nat
        }
    }
}

pub proof fn lemma_word_count_le(s: Seq<char>)
    ensures
        word_count(s) <= s.len(),
    decreases s.len(),
{
    if s.len() > 0 {
        lemma_word_count_le(s.drop_last());
    }
}

/// The number of words of `s`.
pub fn count_words(s: &[char]) -> (n: usize)
    ensures
        n == word_count(s@),
{
    let mut n: usize = 0;
    let mut i: usize = 0;
    while i < s.len()
        invariant
            i <= s@.len(),
            n == word_count(s@.take(i as int)),
            n <= i,
        decreases s@.len() - i,
    {
        let ghost t = s@.take(i + 1);
        proof {
            assert(t.drop_last() =~= s@.take(i as int));
            assert(t.last() == s@[i as int]);
            if i > 0 {
                assert(t[t.len() - 2] == s@[i - 1]);
            }
        }
        if !char_is_whitespace(s[i]) && (i == 0 || char_is_whitespace(s[i - 1])) {
            n = n + 1;
        }
        i = i + 1;
    }
    proof {
        assert(s@.take(s@.len() as int) =~= s@);
    }
    n
}

/// The drafts made of the first `n` pieces: pieces whose trimmed text is
/// shorter than 10 bytes are skipped, the others keep their position.
pub open spec fn drafts_upto(pieces: Seq<Seq<char>>, n: nat) -> Seq<ChunkDraftView>
    decreases n,
{
    if n == 0 {
        Seq::empty()
    } else {
        let prev = drafts_upto(pieces, (n - 1) as nat);
        let p = pieces[n - 1];
        if byte_len(trim_ws(p)) < 10 {
            prev
        } else {
            prev.push(
                ChunkDraftView { text: p, chunk_index: (n - 1) as i32, word_count: word_count(p) as i32 },
            )
        }
    }
}

/// The chunks ingested text is stored as: none for blank text; otherwise
/// the pieces of its split into chunks of at most [`INGEST_CHUNK_SIZE`]
/// bytes, without the very small ones.
pub open spec fn chunk_drafts_spec(seps: Seq<Seq<char>>, text: Seq<char>) -> Seq<ChunkDraftView> {
    if all_whitespace(text) {
        Seq::empty()
    } else {
        let pieces = split_text_spec(seps, text, INGEST_CHUNK_SIZE as nat);
        drafts_upto(pieces, pieces.len())
    }
}

impl RTSplitter {
    /// The chunks ingested text is stored as.
    pub fn create_chunks_from_text(&self, text: &str) -> (r: Vec<ChunkDraft>)
        ensures
            draft_views(r@) == chunk_drafts_spec(self.seps(), text@),
    {
        let cs = chars_of(text);
        if is_blank(cs.as_slice()) {
            proof {
                assert(draft_views(Seq::<ChunkDraft>::empty()) =~= Seq::<ChunkDraftView>::empty());
            }
            return Vec::new();
        }
        let pieces = self.split_text(text, INGEST_CHUNK_SIZE);
        let ghost pv = string_views(pieces@);
        let mut out: Vec<ChunkDraft> = Vec::new();
        let mut k: usize = 0;
        proof {
            assert(draft_views(out@) =~= Seq::<ChunkDraftView>::empty());
        }
        while k < pieces.len()
            invariant
                k <= pieces@.len(),
                pv == string_views(pieces@),
                draft_views(out@) == drafts_upto(pv, k as nat),
            decreases pieces@.len() - k,
        {
            let pc = chars_of(pieces[k].as_str());
            let trimmed = trim_chars(pc.as_slice());
            proof {
                assert(pv[k as int] == pieces@[k as int]@);
            }
            if !crate::text::byte_len_below(trimmed.as_slice(), 10) {
                let words = count_words(pc.as_slice());
                let draft = ChunkDraft {
                    text: pieces[k].clone(),
                    chunk_index: #[verifier::truncate] (k as i32),
                    word_count: #[verifier::truncate] (words as i32),
                };
                let ghost before = out@;
                out.push(draft);
                proof {
                    assert(draft_views(out@) =~= draft_views(before).push(draft@));
                }
            }
            k = k + 1;
        }
        out
    }
}

} // verus!
