//! PowerPoint (pptx) documents: one page per slide, in slide-number order,
//! the slide text being the DrawingML text runs (`<a:t>...</a:t>`) with XML
//! entities unescaped; embedded media become document-level assets.

use vstd::prelude::*;
use crate::chunking::views;
use crate::extraction::ooxml_media::{
    assets_result_view, extract_media_assets, media_assets_spec, opt_char_views,
    zip_entry_names, zip_list_entries, zip_open_error, zip_read_entry_text, zip_entry_text,
    zip_text_error, DocumentExtractionErrorView,
};
use crate::extraction::{
    asset_views, page_views, AssetView, DocView, DocumentExtractionError, ExtractedDocument,
    ExtractionOptions, PageContent, PageView,
};
use crate::numbers::{parse_u32, parse_u32_spec};
use crate::sorting::{first_after, insert_by, lemma_sort_by, sort_by, sorted_by, total_preorder};
use crate::text::{
    absent_from, chars_of, concat2, contains, ends_with, find_from, lemma_replace_from_leaves_none, replace_from, shares_no_char, has_infix, has_prefix, has_suffix, join,
    find_chars_from, lemma_find_from_bounds, lowercase, matches_at, occurs_at, push_range, replace_all,
    replace_chars, starts_with, str_eq, string_from_chars, strip_prefixes, strip_prefixes_chars,
    strip_suffixes, strip_suffixes_chars, to_lowercase,
};

verus! {

broadcast use vstd::seq_lib::group_seq_properties;

/// MIME type of pptx presentations.
pub const PPTX_MIME: &'static str = "application/vnd.openxmlformats-officedocument.presentationml.presentation";

/// The slide number in an entry name such as `ppt/slides/slide12.xml`
/// (`u32::MAX` when there is none).
pub open spec fn slide_index_spec(name: Seq<char>) -> u32 {
    match parse_u32_spec(strip_suffixes(strip_prefixes(name, "ppt/slides/slide"@), ".xml"@)) {
        Some(v) => v,
        None => u32::MAX,
    }
}

/// The slide number in an entry name such as `ppt/slides/slide12.xml`.
pub fn slide_index(name: &str) -> (n: u32)
    ensures
        n == slide_index_spec(name@),
{
    let chars = chars_of(name);
    let prefix = chars_of("ppt/slides/slide");
    let suffix = chars_of(".xml");
    let a = strip_prefixes_chars(chars.as_slice(), prefix.as_slice());
    let b = strip_suffixes_chars(a.as_slice(), suffix.as_slice());
    match parse_u32(b.as_slice()) {
        Some(v) => v,
        None => u32::MAX,
    }
}

/// XML entity unescaping as the pptx reader applies it: `&amp;`, `&lt;`,
/// `&gt;`, `&quot;`, `&apos;`, replaced one after the other.
pub open spec fn unescape_xml(s: Seq<char>) -> Seq<char> {
    replace_all(
        replace_all(
            replace_all(replace_all(replace_all(s, "&amp;"@, "&"@), "&lt;"@, "<"@), "&gt;"@, ">"@),
            "&quot;"@,
            "\""@,
        ),
        "&apos;"@,
        "'"@,
    )
}

fn replace_literal(s: &[char], from: &str, to: &str) -> (r: Vec<char>)
    requires
        from@.len() > 0,
    ensures
        r@ == replace_all(s@, from@, to@),
{
    let f = chars_of(from);
    let t = chars_of(to);
    replace_chars(s, f.as_slice(), t.as_slice())
}

/// `s` with the five predefined XML entities unescaped.
pub fn unescape_xml_entities(s: &str) -> (r: String)
    ensures
        r@ == unescape_xml(s@),
{
    let c = chars_of(s);
    let f = unescape_chars(c.as_slice());
    string_from_chars(f.as_slice())
}

/// The characters `c` with the five predefined XML entities unescaped.
pub fn unescape_chars(c: &[char]) -> (r: Vec<char>)
    ensures
        r@ == unescape_xml(c@),
{
    proof {
        reveal_strlit("&amp;");
        reveal_strlit("&lt;");
        reveal_strlit("&gt;");
        reveal_strlit("&quot;");
        reveal_strlit("&apos;");
    }
    let a = replace_literal(c, "&amp;", "&");
    let b = replace_literal(a.as_slice(), "&lt;", "<");
    let d = replace_literal(b.as_slice(), "&gt;", ">");
    let e = replace_literal(d.as_slice(), "&quot;", "\"");
    replace_literal(e.as_slice(), "&apos;", "'")
}

/// After unescaping, none of the entities `&lt;`, `&gt;`, `&quot;` and
/// `&apos;` is left in the text, whatever the input. (`&amp;` is undone
/// once, so an `&amp;` in the result comes from `&amp;amp;` in the input.)
pub proof fn lemma_unescape_leaves_no_entity(s: Seq<char>)
    ensures
        absent_from(unescape_xml(s), "&lt;"@, 0),
        absent_from(unescape_xml(s), "&gt;"@, 0),
        absent_from(unescape_xml(s), "&quot;"@, 0),
        absent_from(unescape_xml(s), "&apos;"@, 0),
{
    reveal_strlit("&amp;");
    reveal_strlit("&lt;");
    reveal_strlit("&gt;");
    reveal_strlit("&quot;");
    reveal_strlit("&apos;");
    reveal_strlit("<");
    reveal_strlit(">");
    reveal_strlit("\"");
    reveal_strlit("'");
    let lt = "&lt;"@;
    let gt = "&gt;"@;
    let quot = "&quot;"@;
    let apos = "&apos;"@;
    assert(shares_no_char("<"@, lt));
    assert(shares_no_char(">"@, lt));
    assert(shares_no_char(">"@, gt));
    assert(shares_no_char("\""@, lt));
    assert(shares_no_char("\""@, gt));
    assert(shares_no_char("\""@, quot));
    assert(shares_no_char("'"@, lt));
    assert(shares_no_char("'"@, gt));
    assert(shares_no_char("'"@, quot));
    assert(shares_no_char("'"@, apos));
    let s1 = replace_all(s, "&amp;"@, "&"@);
    let s2 = replace_all(s1, lt, "<"@);
    let s3 = replace_all(s2, gt, ">"@);
    let s4 = replace_all(s3, quot, "\""@);
    lemma_replace_from_leaves_none(s1, lt, "<"@, lt, 0);
    lemma_replace_from_leaves_none(s2, gt, ">"@, lt, 0);
    lemma_replace_from_leaves_none(s2, gt, ">"@, gt, 0);
    lemma_replace_from_leaves_none(s3, quot, "\""@, lt, 0);
    lemma_replace_from_leaves_none(s3, quot, "\""@, gt, 0);
    lemma_replace_from_leaves_none(s3, quot, "\""@, quot, 0);
    lemma_replace_from_leaves_none(s4, apos, "'"@, lt, 0);
    lemma_replace_from_leaves_none(s4, apos, "'"@, gt, 0);
    lemma_replace_from_leaves_none(s4, apos, "'"@, quot, 0);
    lemma_replace_from_leaves_none(s4, apos, "'"@, apos, 0);
}

/// Text that can take no part in an entity: it holds neither `&` nor `;`.
pub open spec fn entity_free(s: Seq<char>) -> bool {
    forall|i: int| 0 <= i < s.len() ==> s[i] != '&' && s[i] != ';'
}

/// A non-empty text with `&` at most at its start and `;` at most at its
/// end: an entity, or a single character.
spec fn entity_shaped(m: Seq<char>) -> bool {
    &&& m.len() > 0
    &&& forall|j: int| 0 < j < m.len() ==> m[j] != '&'
    &&& forall|j: int| 0 <= j < m.len() - 1 ==> m[j] != ';'
}

/// Replacing the entity `f` in `p + m + q`, where only `m` can hold an
/// entity, replaces `m` when it is `f` and changes nothing otherwise.
proof fn lemma_replace_around(p: Seq<char>, m: Seq<char>, q: Seq<char>, f: Seq<char>, t: Seq<char>)
    requires
        entity_free(p),
        entity_free(q),
        entity_shaped(m),
        f.len() >= 2,
        f[0] == '&',
        f[f.len() - 1] == ';',
    ensures
        replace_all(p + m + q, f, t) == p + (if m == f {
            t
        } else {
            m
        }) + q,
{
    let s = p + m + q;
    assert forall|i: int| occurs_at(s, f, i) implies i == p.len() && m == f by {
        let sub = s.subrange(i, i + f.len());
        assert(sub[0] == f[0]);
        assert(s[i] == '&');
        if i < p.len() {
            assert(s[i] == p[i]);
        } else if i >= p.len() + m.len() {
            assert(s[i] == q[i - p.len() - m.len()]);
        } else {
            assert(s[i] == m[i - p.len()]);
        }
        let e = i + f.len() - 1;
        assert(sub[f.len() - 1] == f[f.len() - 1]);
        assert(s[e] == ';');
        if e >= p.len() + m.len() {
            assert(s[e] == q[e - p.len() - m.len()]);
        } else {
            assert(s[e] == m[e - p.len()]);
        }
        assert(m =~= sub);
    }
    lemma_find_from_bounds(s, f, 0);
    if m == f {
        assert(s.subrange(p.len() as int, p.len() + m.len() as int) =~= m);
        assert(occurs_at(s, f, p.len() as int));
        assert(find_from(s, f, 0) == Some(p.len() as int));
        let after: int = p.len() + f.len() as int;
        lemma_find_from_bounds(s, f, after);
        assert(find_from(s, f, after) is None);
        assert(s.subrange(after, s.len() as int) =~= q);
        assert(s.subrange(0, p.len() as int) =~= p);
        assert(replace_from(s, f, t, after) == q);
        assert(replace_from(s, f, t, 0) == p + t + q);
    } else {
        assert(find_from(s, f, 0) is None);
        assert(s.subrange(0, s.len() as int) =~= s);
        assert(replace_from(s, f, t, 0) == s);
    }
}

/// The entity `m` after the five replacement steps of `unescape_xml`.
spec fn entity_after_steps(m: Seq<char>) -> Seq<char> {
    let m1 = if m == "&amp;"@ {
        "&"@
    } else {
        m
    };
    let m2 = if m1 == "&lt;"@ {
        "<"@
    } else {
        m1
    };
    let m3 = if m2 == "&gt;"@ {
        ">"@
    } else {
        m2
    };
    let m4 = if m3 == "&quot;"@ {
        "\""@
    } else {
        m3
    };
    if m4 == "&apos;"@ {
        "'"@
    } else {
        m4
    }
}

proof fn lemma_unescape_around(p: Seq<char>, m: Seq<char>, q: Seq<char>)
    requires
        entity_free(p),
        entity_free(q),
        entity_shaped(m),
    ensures
        unescape_xml(p + m + q) == p + entity_after_steps(m) + q,
{
    reveal_strlit("&amp;");
    reveal_strlit("&lt;");
    reveal_strlit("&gt;");
    reveal_strlit("&quot;");
    reveal_strlit("&apos;");
    reveal_strlit("&");
    reveal_strlit("<");
    reveal_strlit(">");
    reveal_strlit("\"");
    reveal_strlit("'");
    let m1 = if m == "&amp;"@ {
        "&"@
    } else {
        m
    };
    let m2 = if m1 == "&lt;"@ {
        "<"@
    } else {
        m1
    };
    let m3 = if m2 == "&gt;"@ {
        ">"@
    } else {
        m2
    };
    let m4 = if m3 == "&quot;"@ {
        "\""@
    } else {
        m3
    };
    lemma_replace_around(p, m, q, "&amp;"@, "&"@);
    lemma_replace_around(p, m1, q, "&lt;"@, "<"@);
    lemma_replace_around(p, m2, q, "&gt;"@, ">"@);
    lemma_replace_around(p, m3, q, "&quot;"@, "\""@);
    lemma_replace_around(p, m4, q, "&apos;"@, "'"@);
}

proof fn lemma_steps_amp()
    ensures
        entity_shaped("&amp;"@),
        entity_after_steps("&amp;"@) == "&"@,
{
    reveal_strlit("&amp;");
    reveal_strlit("&lt;");
    reveal_strlit("&gt;");
    reveal_strlit("&quot;");
    reveal_strlit("&apos;");
    reveal_strlit("&");
    assert("&lt;"@[1] == 'l' && "&gt;"@[1] == 'g');
    assert("&quot;"@[1] == 'q' && "&apos;"@[1] == 'a');
}

proof fn lemma_steps_lt()
    ensures
        entity_shaped("&lt;"@),
        entity_after_steps("&lt;"@) == "<"@,
{
    reveal_strlit("&amp;");
    reveal_strlit("&lt;");
    reveal_strlit("&gt;");
    reveal_strlit("&quot;");
    reveal_strlit("&apos;");
    reveal_strlit("<");
    assert("&lt;"@[1] == 'l' && "&gt;"@[1] == 'g');
    assert("&quot;"@[1] == 'q' && "&apos;"@[1] == 'a');
}

proof fn lemma_steps_gt()
    ensures
        entity_shaped("&gt;"@),
        entity_after_steps("&gt;"@) == ">"@,
{
    reveal_strlit("&amp;");
    reveal_strlit("&lt;");
    reveal_strlit("&gt;");
    reveal_strlit("&quot;");
    reveal_strlit("&apos;");
    reveal_strlit(">");
    assert("&lt;"@[1] == 'l' && "&gt;"@[1] == 'g');
    assert("&quot;"@[1] == 'q' && "&apos;"@[1] == 'a');
}

proof fn lemma_steps_quot()
    ensures
        entity_shaped("&quot;"@),
        entity_after_steps("&quot;"@) == "\""@,
{
    reveal_strlit("&amp;");
    reveal_strlit("&lt;");
    reveal_strlit("&gt;");
    reveal_strlit("&quot;");
    reveal_strlit("&apos;");
    reveal_strlit("\"");
    assert("&lt;"@[1] == 'l' && "&gt;"@[1] == 'g');
    assert("&quot;"@[1] == 'q' && "&apos;"@[1] == 'a');
}

proof fn lemma_steps_apos()
    ensures
        entity_shaped("&apos;"@),
        entity_after_steps("&apos;"@) == "'"@,
{
    reveal_strlit("&amp;");
    reveal_strlit("&lt;");
    reveal_strlit("&gt;");
    reveal_strlit("&quot;");
    reveal_strlit("&apos;");
    reveal_strlit("'");
    assert("&lt;"@[1] == 'l' && "&gt;"@[1] == 'g');
    assert("&quot;"@[1] == 'q' && "&apos;"@[1] == 'a');
}

/// Each of the five predefined entities, standing in text that holds no
/// `&` and no `;` around it, is replaced by the character it names, and the
/// text around it is kept as it is: `&amp;` by `&`, `&lt;` by `<`, `&gt;`
/// by `>`, `&quot;` by `"` and `&apos;` by `'`.
pub proof fn lemma_unescape_entity_in_text(p: Seq<char>, q: Seq<char>)
    requires
        entity_free(p),
        entity_free(q),
    ensures
        unescape_xml(p + "&amp;"@ + q) == p + "&"@ + q,
        unescape_xml(p + "&lt;"@ + q) == p + "<"@ + q,
        unescape_xml(p + "&gt;"@ + q) == p + ">"@ + q,
        unescape_xml(p + "&quot;"@ + q) == p + "\""@ + q,
        unescape_xml(p + "&apos;"@ + q) == p + "'"@ + q,
{
    lemma_steps_amp();
    lemma_unescape_around(p, "&amp;"@, q);
    lemma_steps_lt();
    lemma_unescape_around(p, "&lt;"@, q);
    lemma_steps_gt();
    lemma_unescape_around(p, "&gt;"@, q);
    lemma_steps_quot();
    lemma_unescape_around(p, "&quot;"@, q);
    lemma_steps_apos();
    lemma_unescape_around(p, "&apos;"@, q);
}

/// A DrawingML text run starting at `p`: `<a:t`, any characters but `>`,
/// `>`, the content, and the first `</a:t>` after it. Returns (content
/// start, content end, end of the run).
pub open spec fn a_t_match(s: Seq<char>, p: int) -> Option<(int, int, int)> {
    if occurs_at(s, "<a:t"@, p) {
        match find_from(s, seq!['>'], p + 4) {
            None => None,
            Some(q) => match find_from(s, "</a:t>"@, q + 1) {
                None => None,
                Some(e) => Some((q + 1, e, e + 6)),
            },
        }
    } else {
        None
    }
}

/// The unescaped contents of the text runs of `s` from position `from` on,
/// concatenated (leftmost, non-overlapping matches, as the pattern
/// `(?s)<a:t[^>]*>(.*?)</a:t>` finds them).
pub open spec fn a_t_text_from(s: Seq<char>, from: int) -> Seq<char>
    decreases s.len() - from,
{
    if from < 0 || from >= s.len() {
        Seq::empty()
    } else {
        match a_t_match(s, from) {
            Some(m) => {
                proof {
                    reveal_strlit("<a:t");
                    reveal_strlit("</a:t>");
                    lemma_a_t_match(s, from);
                }
                unescape_xml(s.subrange(m.0, m.1)) + a_t_text_from(s, m.2)
            },
            None => a_t_text_from(s, from + 1),
        }
    }
}

/// The text of the slide XML `s`.
pub open spec fn a_t_text(s: Seq<char>) -> Seq<char> {
    a_t_text_from(s, 0)
}

pub proof fn lemma_a_t_match(s: Seq<char>, p: int)
    requires
        0 <= p,
    ensures
        a_t_match(s, p) matches Some(m) ==> p + 5 <= m.0 <= m.1 && m.2 == m.1 + 6 && m.2 <= s.len(),
{
    reveal_strlit("<a:t");
    reveal_strlit("</a:t>");
    if occurs_at(s, "<a:t"@, p) {
        lemma_find_from_bounds(s, seq!['>'], p + 4);
        match find_from(s, seq!['>'], p + 4) {
            Some(q) => {
                lemma_find_from_bounds(s, "</a:t>"@, q + 1);
            },
            None => {},
        }
    }
}

/// When a run start at `p` lacks its `>` or its closing tag, no position at
/// or after `p` starts a run.
pub proof fn lemma_a_t_dead_after(s: Seq<char>, p: int)
    requires
        0 <= p,
        find_from(s, seq!['>'], p + 4) is None || (find_from(s, seq!['>'], p + 4) matches Some(q)
            && find_from(s, "</a:t>"@, q + 1) is None),
    ensures
        forall|k: int| p <= k ==> a_t_match(s, k) is None,
{
    lemma_find_from_bounds(s, seq!['>'], p + 4);
    assert forall|k: int| p <= k implies a_t_match(s, k) is None by {
        lemma_find_from_bounds(s, seq!['>'], k + 4);
        match find_from(s, seq!['>'], p + 4) {
            None => {},
            Some(q) => {
                lemma_find_from_bounds(s, "</a:t>"@, q + 1);
                match find_from(s, seq!['>'], k + 4) {
                    None => {},
                    Some(q2) => {
                        if q2 < q {
                            assert(occurs_at(s, seq!['>'], q2));
                        }
                        lemma_find_from_bounds(s, "</a:t>"@, q2 + 1);
                    },
                }
            },
        }
    }
}

/// With no run starting at or after `p`, nothing more is collected.
pub proof fn lemma_a_t_empty_from(s: Seq<char>, p: int)
    requires
        0 <= p,
        forall|k: int| p <= k ==> a_t_match(s, k) is None,
    ensures
        a_t_text_from(s, p) == Seq::<char>::empty(),
    decreases s.len() - p,
{
    if p < s.len() {
        lemma_a_t_empty_from(s, p + 1);
    }
}

/// The text of a slide: its DrawingML text runs, unescaped, concatenated.
pub fn extract_a_t_text(xml: &str) -> (r: String)
    ensures
        r@ == a_t_text(xml@),
{
    let s = chars_of(xml);
    let open = chars_of("<a:t");
    let close = chars_of("</a:t>");
    let gt = ['>'];
    proof {
        reveal_strlit("<a:t");
        reveal_strlit("</a:t>");
        assert(gt@ =~= seq!['>']);
    }
    let mut out: Vec<char> = Vec::new();
    let mut i: usize = 0;
    while i < s.len()
        invariant
            i <= s@.len(),
            s@.len() == s.len(),
            s@ == xml@,
            open@ == "<a:t"@,
            close@ == "</a:t>"@,
            gt@ == seq!['>'],
            open@.len() == 4,
            close@.len() == 6,
            a_t_text(s@) == out@ + a_t_text_from(s@, i as int),
        decreases s@.len() - i,
    {
        if matches_at(s.as_slice(), open.as_slice(), i) {
            match find_chars_from(s.as_slice(), gt.as_slice(), i + 4) {
                None => {
                    proof {
                        lemma_a_t_dead_after(s@, i as int);
                        lemma_a_t_empty_from(s@, i as int);
                        assert(out@ + Seq::<char>::empty() =~= out@);
                    }
                    return string_from_chars(out.as_slice());
                },
                Some(q) => {
                    proof {
                        lemma_find_from_bounds(s@, seq!['>'], i + 4);
                    }
                    match find_chars_from(s.as_slice(), close.as_slice(), q + 1) {
                        None => {
                            proof {
                                lemma_a_t_dead_after(s@, i as int);
                                lemma_a_t_empty_from(s@, i as int);
                                assert(out@ + Seq::<char>::empty() =~= out@);
                            }
                            return string_from_chars(out.as_slice());
                        },
                        Some(e) => {
                            proof {
                                lemma_find_from_bounds(s@, "</a:t>"@, q + 1);
                                lemma_a_t_match(s@, i as int);
                            }
                            let inner = crate::text::copy_range(s.as_slice(), q + 1, e);
                            let text = unescape_chars(inner.as_slice());
                            let ghost before = out@;
                            push_range(&mut out, text.as_slice(), 0, text.len());
                            proof {
                                assert(text@.subrange(0, text@.len() as int) =~= text@);
                                assert(before + (text@ + a_t_text_from(s@, e + 6)) =~= out@
                                    + a_t_text_from(s@, e + 6));
                            }
                            i = e + 6;
                        },
                    }
                },
            }
        } else {
            i = i + 1;
        }
    }
    proof {
        assert(out@ + Seq::<char>::empty() =~= out@);
    }
    string_from_chars(out.as_slice())
}

/// The slide number in an entry name given as characters.
pub fn slide_index_chars(name: &[char]) -> (n: u32)
    ensures
        n == slide_index_spec(name@),
{
    let prefix = chars_of("ppt/slides/slide");
    let suffix = chars_of(".xml");
    let a = strip_prefixes_chars(name, prefix.as_slice());
    let b = strip_suffixes_chars(a.as_slice(), suffix.as_slice());
    match parse_u32(b.as_slice()) {
        Some(v) => v,
        None => u32::MAX,
    }
}

/// An archive entry that holds a slide.
pub open spec fn is_slide_entry(n: Seq<char>) -> bool {
    has_prefix(n, "ppt/slides/slide"@) && has_suffix(n, ".xml"@) && !has_infix(n, "_rels"@)
}

/// The slide entries of a listing, in archive order.
pub open spec fn slide_candidates(listing: Seq<Option<Seq<char>>>) -> Seq<Seq<char>>
    decreases listing.len(),
{
    if listing.len() == 0 {
        Seq::empty()
    } else {
        let rest = slide_candidates(listing.drop_last());
        match listing.last() {
            Some(n) => if is_slide_entry(n) {
                rest.push(n)
            } else {
                rest
            },
            None => rest,
        }
    }
}

/// Slides are ordered by their number.
pub open spec fn slide_order() -> spec_fn(Seq<char>, Seq<char>) -> bool {
    |a: Seq<char>, b: Seq<char>| slide_index_spec(a) <= slide_index_spec(b)
}

/// The pages of slides `names[k..]`, or the message of the first slide that
/// cannot be read.
pub open spec fn slide_pages_from(buf: Seq<u8>, names: Seq<Seq<char>>, k: int) -> Result<
    Seq<PageView>,
    Seq<char>,
>
    decreases names.len() - k,
{
    if k < 0 || k >= names.len() {
        Ok(Seq::empty())
    } else {
        match zip_entry_text(buf, names[k]) {
            None => Err("reading "@ + names[k] + ": "@ + zip_text_error(buf, names[k])),
            Some(xml) => match slide_pages_from(buf, names, k + 1) {
                Err(e) => Err(e),
                Ok(rest) => Ok(
                    seq![PageView { page_number: slide_index_spec(names[k]), text: a_t_text(xml), assets: Seq::empty() }]
                        + rest,
                ),
            },
        }
    }
}

/// The page texts of a sequence of pages.
pub open spec fn page_texts(pages: Seq<PageView>) -> Seq<Seq<char>> {
    pages.map_values(|p: PageView| p.text)
}

/// What `PptxExtractor::document_from_bytes` returns for archive `buf`.
pub open spec fn pptx_document_spec(buf: Seq<u8>) -> Result<DocView, DocumentExtractionErrorView> {
    match zip_entry_names(buf) {
        None => Err(DocumentExtractionErrorView::CorruptedFile("invalid pptx zip: "@ + zip_open_error(buf))),
        Some(listing) => match slide_pages_from(buf, sort_by(slide_candidates(listing), slide_order()), 0) {
            Err(m) => Err(DocumentExtractionErrorView::ExtractionFailed(m)),
            Ok(pages) => match media_assets_spec(buf, "ppt/media/"@) {
                Err(e) => Err(e),
                Ok(assets) => Ok(DocView { full_text: join(page_texts(pages), "\n"@), pages: pages, assets: assets }),
            },
        },
    }
}

/// The pages read from slides `names[k..]` are numbered by those slides, in
/// that order.
proof fn lemma_slide_pages_numbers(buf: Seq<u8>, names: Seq<Seq<char>>, k: int)
    requires
        0 <= k <= names.len(),
    ensures
        slide_pages_from(buf, names, k) matches Ok(pages) ==> pages.len() == names.len() - k && forall|i: int|
            0 <= i < pages.len() ==> (#[trigger] pages[i]).page_number == slide_index_spec(names[k + i]),
    decreases names.len() - k,
{
    if k < names.len() {
        lemma_slide_pages_numbers(buf, names, k + 1);
        match slide_pages_from(buf, names, k) {
            Ok(pages) => {
                let rest = slide_pages_from(buf, names, k + 1)->Ok_0;
                assert forall|i: int| 0 <= i < pages.len() implies (#[trigger] pages[i]).page_number
                    == slide_index_spec(names[k + i]) by {
                    if i > 0 {
                        assert(pages[i] == rest[i - 1]);
                    }
                }
            },
            Err(_) => {},
        }
    }
}

/// A presentation's pages come in slide-number order (slide 2 before
/// slide 10), one per slide entry.
pub proof fn lemma_slides_in_number_order(buf: Seq<u8>)
    ensures
        pptx_document_spec(buf) matches Ok(doc) ==> forall|i: int, j: int|
            0 <= i < j < doc.pages.len() ==> (#[trigger] doc.pages[i]).page_number <= (#[trigger] doc.pages[j]).page_number,
{
    match zip_entry_names(buf) {
        Some(listing) => {
            let names = sort_by(slide_candidates(listing), slide_order());
            assert(total_preorder(slide_order()));
            lemma_sort_by(slide_candidates(listing), slide_order());
            lemma_slide_pages_numbers(buf, names, 0);
            match pptx_document_spec(buf) {
                Ok(doc) => {
                    assert forall|i: int, j: int| 0 <= i < j < doc.pages.len() implies (
                    #[trigger] doc.pages[i]).page_number <= (#[trigger] doc.pages[j]).page_number by {
                        assert(doc.pages[i].page_number == slide_index_spec(names[i]));
                        assert(doc.pages[j].page_number == slide_index_spec(names[j]));
                        assert(sorted_by(names, slide_order()));
                        assert((slide_order())(names[i], names[j]));
                    }
                },
                Err(_) => {},
            }
        },
        None => {},
    }
}

/// View of a document extraction result.
pub open spec fn doc_result_view(r: Result<ExtractedDocument, DocumentExtractionError>) -> Result<
    DocView,
    DocumentExtractionErrorView,
> {
    match r {
        Ok(d) => Ok(d@),
        Err(e) => Err(e@),
    }
}

/// The slide entries of a listing, in archive order.
pub fn select_slide_names(listing: &Vec<Option<Vec<char>>>) -> (r: Vec<Vec<char>>)
    ensures
        views(r@) == slide_candidates(opt_char_views(listing@)),
{
    let prefix = chars_of("ppt/slides/slide");
    let suffix = chars_of(".xml");
    let rels = chars_of("_rels");
    let mut r: Vec<Vec<char>> = Vec::new();
    let mut k: usize = 0;
    while k < listing.len()
        invariant
            k <= listing@.len(),
            prefix@ == "ppt/slides/slide"@,
            suffix@ == ".xml"@,
            rels@ == "_rels"@,
            views(r@) == slide_candidates(opt_char_views(listing@).take(k as int)),
        decreases listing@.len() - k,
    {
        let ghost taken = opt_char_views(listing@).take(k + 1);
        proof {
            assert(taken.drop_last() =~= opt_char_views(listing@).take(k as int));
        }
        match &listing[k] {
            Some(name) => {
                let n = name.as_slice();
                if starts_with(n, prefix.as_slice()) && ends_with(n, suffix.as_slice()) && !contains(
                    n,
                    rels.as_slice(),
                ) {
                    let copy = crate::text::copy_range(n, 0, name.len());
                    proof {
                        assert(name@.subrange(0, name@.len() as int) =~= name@);
                        assert(views(r@.push(copy)) =~= views(r@).push(copy@));
                    }
                    r.push(copy);
                }
            },
            None => {},
        }
        k = k + 1;
    }
    proof {
        assert(opt_char_views(listing@).take(listing@.len() as int) =~= opt_char_views(listing@));
    }
    r
}

/// `names` stably sorted by slide number (`sort_by_key(slide_index)`).
pub fn sort_by_slide_index(names: &Vec<Vec<char>>) -> (r: Vec<Vec<char>>)
    ensures
        views(r@) == sort_by(views(names@), slide_order()),
{
    let mut r: Vec<Vec<char>> = Vec::new();
    let mut keys: Vec<u32> = Vec::new();
    let mut k: usize = 0;
    while k < names.len()
        invariant
            k <= names@.len(),
            keys@.len() == r@.len(),
            forall|j: int| 0 <= j < r@.len() ==> keys@[j] == slide_index_spec(#[trigger] r@[j]@),
            views(r@) == sort_by(views(names@).take(k as int), slide_order()),
        decreases names@.len() - k,
    {
        let x = &names[k];
        let key = slide_index_chars(x.as_slice());
        let mut p: usize = 0;
        let ghost rv = views(r@);
        while p < r.len() && keys[p] <= key
            invariant
                p <= r@.len(),
                keys@.len() == r@.len(),
                forall|j: int| 0 <= j < r@.len() ==> keys@[j] == slide_index_spec(#[trigger] r@[j]@),
                rv == views(r@),
                key == slide_index_spec(x@),
                first_after(rv, x@, slide_order()) == p + first_after(
                    rv.skip(p as int),
                    x@,
                    slide_order(),
                ),
            decreases r@.len() - p,
        {
            proof {
                assert(rv.skip(p as int)[0] == r@[p as int]@);
                assert(rv.skip(p as int).drop_first() =~= rv.skip(p + 1));
            }
            p = p + 1;
        }
        proof {
            if p < r.len() {
                assert(rv.skip(p as int)[0] == r@[p as int]@);
            } else {
                assert(rv.skip(p as int) =~= Seq::<Seq<char>>::empty());
            }
            assert(rv.skip(0) =~= rv);
            let taken = views(names@).take(k + 1);
            assert(taken.drop_last() =~= views(names@).take(k as int));
            assert(taken.last() == x@);
        }
        let copy = crate::text::copy_range(x.as_slice(), 0, x.len());
        proof {
            assert(x@.subrange(0, x@.len() as int) =~= x@);
            assert(views(r@.insert(p as int, copy)) =~= views(r@).insert(p as int, copy@));
        }
        let ghost old_r = r@;
        let ghost old_keys = keys@;
        r.insert(p, copy);
        keys.insert(p, key);
        proof {
            assert forall|j: int| 0 <= j < r@.len() implies keys@[j] == slide_index_spec(
                #[trigger] r@[j]@,
            ) by {
                if j < p {
                    assert(r@[j] == old_r[j] && keys@[j] == old_keys[j]);
                } else if j > p {
                    assert(r@[j] == old_r[j - 1] && keys@[j] == old_keys[j - 1]);
                }
            }
        }
        k = k + 1;
    }
    proof {
        assert(views(names@).take(names@.len() as int) =~= views(names@));
    }
    r
}

/// Extractor for pptx presentations.
pub struct PptxExtractor;

impl PptxExtractor {
    pub fn new() -> (e: Self) {
        PptxExtractor
    }

    /// Whether `file_type` (in any letter case) is the pptx MIME type.
    pub fn can_extract_str(file_type: &str) -> (b: bool)
        ensures
            b == (lowercase(file_type@) == PPTX_MIME@),
    {
        let lowered = to_lowercase(file_type);
        str_eq(lowered.as_str(), PPTX_MIME)
    }

    pub fn can_extract(&self, file_type: &str) -> (b: bool)
        ensures
            b == (lowercase(file_type@) == PPTX_MIME@),
    {
        Self::can_extract_str(file_type)
    }

    /// One page per slide (numbered by the slide number, in that order),
    /// the slide texts joined by newlines as the full text, and the
    /// package's media as document-level assets.
    pub fn document_from_bytes(buf: &[u8]) -> (r: Result<ExtractedDocument, DocumentExtractionError>)
        ensures
            doc_result_view(r) == pptx_document_spec(buf@),
    {
        let listing = match zip_list_entries(buf) {
            Ok(l) => l,
            Err(e) => {
                return Err(
                    DocumentExtractionError::CorruptedFile(concat2("invalid pptx zip: ", e.as_str())),
                );
            },
        };
        let candidates = select_slide_names(&listing);
        let names = sort_by_slide_index(&candidates);
        let ghost nv = views(names@);
        let mut pages: Vec<PageContent> = Vec::new();
        let mut texts: Vec<String> = Vec::new();
        let mut k: usize = 0;
        while k < names.len()
            invariant
                k <= names@.len(),
                nv == views(names@),
                nv == sort_by(slide_candidates(opt_char_views(listing@)), slide_order()),
                zip_entry_names(buf@) == Some(opt_char_views(listing@)),
                texts@.map_values(|p: String| p@) == page_texts(page_views(pages@)),
                slide_pages_from(buf@, nv, 0) == match slide_pages_from(buf@, nv, k as int) {
                    Ok(rest) => Ok(page_views(pages@) + rest),
                    Err(e) => Err(e),
                },
            decreases names@.len() - k,
        {
            let name = string_from_chars(names[k].as_slice());
            proof {
                assert(name@ == nv[k as int]);
            }
            let xml = match zip_read_entry_text(buf, name.as_str()) {
                Ok(x) => x,
                Err(e) => {
                    let mut msg = concat2("reading ", name.as_str());
                    msg.append(": ");
                    msg.append(e.as_str());
                    return Err(DocumentExtractionError::ExtractionFailed(msg));
                },
            };
            let text = extract_a_t_text(xml.as_str());
            let page_number = slide_index_chars(names[k].as_slice());
            let page = PageContent { page_number, text: text.clone(), pending_assets: Vec::new() };
            proof {
                assert(page@.assets =~= Seq::<AssetView>::empty());
                assert(page_views(pages@.push(page)) =~= page_views(pages@).push(page@));
                assert(texts@.push(text).map_values(|p: String| p@) =~= texts@.map_values(
                    |p: String| p@,
                ).push(text@));
                assert(page_texts(page_views(pages@).push(page@)) =~= page_texts(
                    page_views(pages@),
                ).push(page@.text));
                match slide_pages_from(buf@, nv, k + 1) {
                    Ok(rest) => {
                        assert(page_views(pages@).push(page@) + rest =~= page_views(pages@) + (
                        seq![page@] + rest));
                    },
                    Err(_) => {},
                }
            }
            pages.push(page);
            texts.push(text);
            k = k + 1;
        }
        proof {
            assert(page_views(pages@) + Seq::<PageView>::empty() =~= page_views(pages@));
        }
        let full_text = crate::text::join_strings(&texts, "\n");
        let pending_assets = match extract_media_assets(buf, "ppt/media/") {
            Ok(a) => a,
            Err(e) => {
                return Err(e);
            },
        };
        Ok(ExtractedDocument { full_text, pages, pending_assets })
    }

    /// The document held in the pptx bytes `data`.
    pub fn extract_text_from_bytes(
        &self,
        data: &[u8],
        file_type: &str,
        _options: ExtractionOptions,
    ) -> (r: Result<ExtractedDocument, DocumentExtractionError>)
        ensures
            lowercase(file_type@) != PPTX_MIME@ ==> (r matches Err(
                DocumentExtractionError::UnsupportedFormat(m),
            ) && m@ == file_type@),
            lowercase(file_type@) == PPTX_MIME@ ==> doc_result_view(r) == pptx_document_spec(data@),
    {
        if !Self::can_extract_str(file_type) {
            return Err(DocumentExtractionError::UnsupportedFormat(file_type.to_owned()));
        }
        Self::document_from_bytes(data)
    }
}

impl Default for PptxExtractor {
    fn default() -> (e: Self) {
        PptxExtractor
    }
}

} // verus!
