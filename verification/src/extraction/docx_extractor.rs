//! Word (docx) documents: the text of the body's paragraphs and tables in
//! document order, as one page that also carries the package's embedded
//! media. The document is read with `docx_rs`; the library walks the parsed
//! body through small accessors, each naming what it reads by the bytes the
//! document came from and the position of the element in the body.

use vstd::prelude::*;
use crate::extraction::docx_parts::{all_parts_safe, docx_parts_safe};
use crate::extraction::ooxml_media::{extract_media_assets, media_assets_spec, DocumentExtractionErrorView};
use crate::extraction::pptx_extractor::doc_result_view;
use crate::extraction::{
    asset_views, AssetView, DocView, DocumentExtractionError, ExtractedDocument,
    ExtractionOptions, PageContent, PageView,
};
use crate::text::{chars_of, concat2, lowercase, owned, push_range, str_eq, string_from_chars, to_lowercase};

verus! {

/// MIME type of docx documents.
pub const DOCX_MIME: &'static str = "application/vnd.openxmlformats-officedocument.wordprocessingml.document";

#[verifier::external_type_specification]
#[verifier::external_body]
pub struct ExDocx(docx_rs::Docx);

#[verifier::external_type_specification]
#[verifier::external_body]
pub struct ExDocxParagraph(docx_rs::Paragraph);

#[verifier::external_type_specification]
#[verifier::external_body]
pub struct ExDocxRun(docx_rs::Run);

/// What a child of the body is.
#[derive(Debug, Clone, Copy, PartialEq, Eq, Structural)]
pub enum BlockKind {
    Paragraph,
    Table,
    Other,
}

/// What a child of a paragraph is.
#[derive(Debug, Clone, Copy, PartialEq, Eq, Structural)]
pub enum ItemKind {
    Run,
    Hyperlink,
    Other,
}

/// Where a paragraph sits: child `i` of the body, or content `k` of cell
/// `c` of row `r` of the table that is child `b` of the body.
pub enum ParLoc {
    Body(nat),
    Cell(nat, nat, nat, nat),
}

/// Where a run sits: child `j` of a paragraph, or child `h` of the
/// hyperlink that is child `j` of a paragraph.
pub enum RunLoc {
    Direct(ParLoc, nat),
    InLink(ParLoc, nat, nat),
}

/// `None` when `docx_rs::read_docx` reads `src`, else the text of its error.
pub uninterp spec fn docx_read_failure(src: Seq<u8>) -> Option<Seq<char>>;

/// The kinds of the body's children, in order.
pub uninterp spec fn docx_block_kinds(src: Seq<u8>) -> Seq<BlockKind>;

/// For the table that is child `block` of the body: for each row, for each
/// cell, for each content whether it is a paragraph.
pub uninterp spec fn docx_table_shape(src: Seq<u8>, block: nat) -> Seq<Seq<Seq<bool>>>;

/// The kinds of the children of the paragraph at `at`.
pub uninterp spec fn docx_item_kinds(src: Seq<u8>, at: ParLoc) -> Seq<ItemKind>;

/// For the hyperlink that is child `item` of the paragraph at `at`: for
/// each of its children whether it is a run.
pub uninterp spec fn docx_link_runs(src: Seq<u8>, at: ParLoc, item: nat) -> Seq<bool>;

/// The children of the run at `at`: the text of each text child, `None`
/// for the others.
pub uninterp spec fn docx_run_texts(src: Seq<u8>, at: RunLoc) -> Seq<Option<Seq<char>>>;

/// A docx document read by `docx_rs`.
pub struct DocxDocument {
    doc: docx_rs::Docx,
    source: Ghost<Seq<u8>>,
}

impl View for DocxDocument {
    type V = Seq<u8>;

    closed spec fn view(&self) -> Seq<u8> {
        self.source@
    }
}

/// A paragraph of a document, with where it sits.
pub struct ParagraphRef<'a> {
    p: &'a docx_rs::Paragraph,
    source: Ghost<Seq<u8>>,
    at: Ghost<ParLoc>,
}

impl<'a> View for ParagraphRef<'a> {
    type V = (Seq<u8>, ParLoc);

    closed spec fn view(&self) -> (Seq<u8>, ParLoc) {
        (self.source@, self.at@)
    }
}

/// A run of a document, with where it sits.
pub struct RunRef<'a> {
    r: &'a docx_rs::Run,
    source: Ghost<Seq<u8>>,
    at: Ghost<RunLoc>,
}

impl<'a> View for RunRef<'a> {
    type V = (Seq<u8>, RunLoc);

    closed spec fn view(&self) -> (Seq<u8>, RunLoc) {
        (self.source@, self.at@)
    }
}

pub open spec fn shape_view(v: Seq<Vec<Vec<bool>>>) -> Seq<Seq<Seq<bool>>> {
    v.map_values(|row: Vec<Vec<bool>>| row@.map_values(|cell: Vec<bool>| cell@))
}

pub open spec fn texts_view(v: Seq<Option<String>>) -> Seq<Option<Seq<char>>> {
    v.map_values(|t: Option<String>| match t {
        Some(s) => Some(s@),
        None => None,
    })
}

/// `docx_rs::read_docx`; success and the error text are named by
/// `docx_read_failure(buf@)`.
///
/// `read_docx` panics on some packages, which `requires` leaves out (see
/// [`docx_parts_safe`]): a part found by name that does not decompress
/// (`read_to_end(..).unwrap()` in its zip reader), a comment without an
/// `id` or an extended comment without a `paraId` (`expect`), an element
/// whose first attribute its reader takes unchecked (`attributes[0]` on
/// `pStyle`, `jc`, `numId`, `lvlOverride` and the others listed there),
/// and an entry of the content types part with fewer than two attributes.
/// Its other `unwrap`s and `expect`s do not depend on the input: paths
/// built from `&str` always convert back, `from_str` of element names and
/// graphic data types never fails, and a bookmark's or hyperlink's values
/// are unwrapped only after a check. The crate is built without its
/// `image` feature, so it makes no image previews.
#[verifier::external_body]
fn docx_open(buf: &[u8]) -> (r: Result<DocxDocument, String>)
    requires
        docx_parts_safe(buf@),
    ensures
        match r {
            Ok(d) => docx_read_failure(buf@) is None && d@ == buf@,
            Err(m) => docx_read_failure(buf@) == Some(m@),
        },
{
    match docx_rs::read_docx(buf) {
        Ok(doc) => Ok(DocxDocument { doc, source: Ghost(buf@) }),
        Err(e) => Err(e.to_string()),
    }
}

/// The kinds of `document.children`; named `docx_block_kinds`.
#[verifier::external_body]
fn block_kinds(d: &DocxDocument) -> (r: Vec<BlockKind>)
    ensures
        r@ == docx_block_kinds(d@),
{
    d.doc.document.children.iter().map(|c| match c {
        docx_rs::DocumentChild::Paragraph(_) => BlockKind::Paragraph,
        docx_rs::DocumentChild::Table(_) => BlockKind::Table,
        _ => BlockKind::Other,
    }).collect()
}

/// The rows, cells and contents of the table that is body child `b`,
/// marking the contents that are paragraphs; named `docx_table_shape`.
#[verifier::external_body]
fn table_shape(d: &DocxDocument, b: usize) -> (r: Vec<Vec<Vec<bool>>>)
    requires
        b < docx_block_kinds(d@).len(),
        docx_block_kinds(d@)[b as int] == BlockKind::Table,
    ensures
        shape_view(r@) == docx_table_shape(d@, b as nat),
{
    match &d.doc.document.children[b] {
        docx_rs::DocumentChild::Table(t) => t.rows.iter().map(|docx_rs::TableChild::TableRow(row)| {
            row.cells.iter().map(|docx_rs::TableRowChild::TableCell(cell)| {
                cell.children.iter().map(|c| matches!(c, docx_rs::TableCellContent::Paragraph(_))).collect()
            }).collect()
        }).collect(),
        _ => Vec::new(),
    }
}

/// The paragraph that is body child `i`, if that child is a paragraph.
#[verifier::external_body]
fn body_paragraph<'a>(d: &'a DocxDocument, i: usize) -> (r: Option<ParagraphRef<'a>>)
    requires
        i < docx_block_kinds(d@).len(),
    ensures
        r is Some <==> docx_block_kinds(d@)[i as int] == BlockKind::Paragraph,
        r matches Some(p) ==> p@ == (d@, ParLoc::Body(i as nat)),
{
    match &d.doc.document.children[i] {
        docx_rs::DocumentChild::Paragraph(p) => Some(ParagraphRef { p, source: Ghost(d@), at: Ghost(ParLoc::Body(i as nat)) }),
        _ => None,
    }
}

/// Content `k` of cell `c` of row `r` of the table that is body child `b`,
/// if it is a paragraph.
#[verifier::external_body]
fn cell_paragraph<'a>(d: &'a DocxDocument, b: usize, r: usize, c: usize, k: usize) -> (p: Option<ParagraphRef<'a>>)
    requires
        b < docx_block_kinds(d@).len(),
        docx_block_kinds(d@)[b as int] == BlockKind::Table,
        r < docx_table_shape(d@, b as nat).len(),
        c < docx_table_shape(d@, b as nat)[r as int].len(),
        k < docx_table_shape(d@, b as nat)[r as int][c as int].len(),
    ensures
        p is Some <==> docx_table_shape(d@, b as nat)[r as int][c as int][k as int],
        p matches Some(q) ==> q@ == (d@, ParLoc::Cell(b as nat, r as nat, c as nat, k as nat)),
{
    let docx_rs::DocumentChild::Table(t) = &d.doc.document.children[b] else { return None };
    let docx_rs::TableChild::TableRow(row) = &t.rows[r];
    let docx_rs::TableRowChild::TableCell(cell) = &row.cells[c];
    match &cell.children[k] {
        docx_rs::TableCellContent::Paragraph(p) => Some(ParagraphRef { p, source: Ghost(d@), at: Ghost(ParLoc::Cell(b as nat, r as nat, c as nat, k as nat)) }),
        _ => None,
    }
}

/// The kinds of a paragraph's children; named `docx_item_kinds`.
#[verifier::external_body]
fn item_kinds(p: &ParagraphRef) -> (r: Vec<ItemKind>)
    ensures
        r@ == docx_item_kinds(p@.0, p@.1),
{
    p.p.children.iter().map(|c| match c {
        docx_rs::ParagraphChild::Run(_) => ItemKind::Run,
        docx_rs::ParagraphChild::Hyperlink(_) => ItemKind::Hyperlink,
        _ => ItemKind::Other,
    }).collect()
}

/// Child `j` of a paragraph, if it is a run.
#[verifier::external_body]
fn item_run<'a>(p: &ParagraphRef<'a>, j: usize) -> (r: Option<RunRef<'a>>)
    requires
        j < docx_item_kinds(p@.0, p@.1).len(),
    ensures
        r is Some <==> docx_item_kinds(p@.0, p@.1)[j as int] == ItemKind::Run,
        r matches Some(x) ==> x@ == (p@.0, RunLoc::Direct(p@.1, j as nat)),
{
    match &p.p.children[j] {
        docx_rs::ParagraphChild::Run(r) => Some(RunRef { r, source: Ghost(p@.0), at: Ghost(RunLoc::Direct(p@.1, j as nat)) }),
        _ => None,
    }
}

/// For the hyperlink that is child `j` of a paragraph, which of its
/// children are runs; named `docx_link_runs`.
#[verifier::external_body]
fn link_runs(p: &ParagraphRef, j: usize) -> (r: Vec<bool>)
    requires
        j < docx_item_kinds(p@.0, p@.1).len(),
        docx_item_kinds(p@.0, p@.1)[j as int] == ItemKind::Hyperlink,
    ensures
        r@ == docx_link_runs(p@.0, p@.1, j as nat),
{
    match &p.p.children[j] {
        docx_rs::ParagraphChild::Hyperlink(h) => h.children.iter().map(|c| matches!(c, docx_rs::ParagraphChild::Run(_))).collect(),
        _ => Vec::new(),
    }
}

/// Child `h` of the hyperlink that is child `j` of a paragraph, if it is a
/// run.
#[verifier::external_body]
fn link_run<'a>(p: &ParagraphRef<'a>, j: usize, h: usize) -> (r: Option<RunRef<'a>>)
    requires
        j < docx_item_kinds(p@.0, p@.1).len(),
        docx_item_kinds(p@.0, p@.1)[j as int] == ItemKind::Hyperlink,
        h < docx_link_runs(p@.0, p@.1, j as nat).len(),
    ensures
        r is Some <==> docx_link_runs(p@.0, p@.1, j as nat)[h as int],
        r matches Some(x) ==> x@ == (p@.0, RunLoc::InLink(p@.1, j as nat, h as nat)),
{
    let docx_rs::ParagraphChild::Hyperlink(l) = &p.p.children[j] else { return None };
    match &l.children[h] {
        docx_rs::ParagraphChild::Run(r) => Some(RunRef { r, source: Ghost(p@.0), at: Ghost(RunLoc::InLink(p@.1, j as nat, h as nat)) }),
        _ => None,
    }
}

/// The text of each text child of a run (`None` for the others); named
/// `docx_run_texts`.
#[verifier::external_body]
fn run_texts(r: &RunRef) -> (v: Vec<Option<String>>)
    ensures
        texts_view(v@) == docx_run_texts(r@.0, r@.1),
{
    r.r.children.iter().map(|c| match c {
        docx_rs::RunChild::Text(t) => Some(t.text.clone()),
        _ => None,
    }).collect()
}

/// The text pieces of a run's children, concatenated.
pub open spec fn texts_concat(v: Seq<Option<Seq<char>>>) -> Seq<char>
    decreases v.len(),
{
    if v.len() == 0 {
        Seq::empty()
    } else {
        texts_concat(v.drop_last()) + match v.last() {
            Some(t) => t,
            None => Seq::empty(),
        }
    }
}

/// The text of the run at `at`.
pub open spec fn run_text_at(src: Seq<u8>, at: RunLoc) -> Seq<char> {
    texts_concat(docx_run_texts(src, at))
}

/// The text of the first `n` children of the hyperlink that is child `j`
/// of the paragraph at `at`: that of the runs among them.
pub open spec fn link_text_upto(src: Seq<u8>, at: ParLoc, j: nat, runs: Seq<bool>, n: nat) -> Seq<char>
    decreases n,
{
    if n == 0 {
        Seq::empty()
    } else {
        link_text_upto(src, at, j, runs, (n - 1) as nat) + if runs[n - 1] {
            run_text_at(src, RunLoc::InLink(at, j, (n - 1) as nat))
        } else {
            Seq::empty()
        }
    }
}

/// The text of the hyperlink that is child `j` of the paragraph at `at`.
pub open spec fn link_text_at(src: Seq<u8>, at: ParLoc, j: nat) -> Seq<char> {
    let runs = docx_link_runs(src, at, j);
    link_text_upto(src, at, j, runs, runs.len())
}

/// The text of the first `n` children of the paragraph at `at`: its runs
/// and the runs of its hyperlinks.
pub open spec fn paragraph_text_upto(src: Seq<u8>, at: ParLoc, kinds: Seq<ItemKind>, n: nat) -> Seq<char>
    decreases n,
{
    if n == 0 {
        Seq::empty()
    } else {
        paragraph_text_upto(src, at, kinds, (n - 1) as nat) + match kinds[n - 1] {
            ItemKind::Run => run_text_at(src, RunLoc::Direct(at, (n - 1) as nat)),
            ItemKind::Hyperlink => link_text_at(src, at, (n - 1) as nat),
            ItemKind::Other => Seq::empty(),
        }
    }
}

/// The text of the paragraph at `at`.
pub open spec fn paragraph_text_at(src: Seq<u8>, at: ParLoc) -> Seq<char> {
    let kinds = docx_item_kinds(src, at);
    paragraph_text_upto(src, at, kinds, kinds.len())
}

/// The text of the first `n` contents of cell `c` of row `r` of the table
/// that is body child `b`: each paragraph's text followed by a tab.
pub open spec fn cell_text_upto(src: Seq<u8>, b: nat, r: nat, c: nat, contents: Seq<bool>, n: nat) -> Seq<char>
    decreases n,
{
    if n == 0 {
        Seq::empty()
    } else {
        cell_text_upto(src, b, r, c, contents, (n - 1) as nat) + if contents[n - 1] {
            paragraph_text_at(src, ParLoc::Cell(b, r, c, (n - 1) as nat)).push('\t')
        } else {
            Seq::empty()
        }
    }
}

/// The text of the first `n` cells of row `r` of the table that is body
/// child `b`.
pub open spec fn row_text_upto(src: Seq<u8>, b: nat, r: nat, cells: Seq<Seq<bool>>, n: nat) -> Seq<char>
    decreases n,
{
    if n == 0 {
        Seq::empty()
    } else {
        row_text_upto(src, b, r, cells, (n - 1) as nat) + cell_text_upto(
            src,
            b,
            r,
            (n - 1) as nat,
            cells[n - 1],
            cells[n - 1].len(),
        )
    }
}

/// The text of the first `n` rows of the table that is body child `b`:
/// each row's text followed by a newline.
pub open spec fn table_text_upto(src: Seq<u8>, b: nat, rows: Seq<Seq<Seq<bool>>>, n: nat) -> Seq<char>
    decreases n,
{
    if n == 0 {
        Seq::empty()
    } else {
        table_text_upto(src, b, rows, (n - 1) as nat) + row_text_upto(
            src,
            b,
            (n - 1) as nat,
            rows[n - 1],
            rows[n - 1].len(),
        ).push('\n')
    }
}

/// The text of the table that is body child `b`.
pub open spec fn table_text_at(src: Seq<u8>, b: nat) -> Seq<char> {
    let rows = docx_table_shape(src, b);
    table_text_upto(src, b, rows, rows.len())
}

/// The text of the first `n` children of the body: each paragraph and each
/// table followed by a newline; other children contribute nothing.
pub open spec fn document_text_upto(src: Seq<u8>, kinds: Seq<BlockKind>, n: nat) -> Seq<char>
    decreases n,
{
    if n == 0 {
        Seq::empty()
    } else {
        document_text_upto(src, kinds, (n - 1) as nat) + match kinds[n - 1] {
            BlockKind::Paragraph => paragraph_text_at(src, ParLoc::Body((n - 1) as nat)).push('\n'),
            BlockKind::Table => table_text_at(src, (n - 1) as nat).push('\n'),
            BlockKind::Other => Seq::empty(),
        }
    }
}

/// The text of the body of the document read from `src`.
pub open spec fn document_text_of(src: Seq<u8>) -> Seq<char> {
    let kinds = docx_block_kinds(src);
    document_text_upto(src, kinds, kinds.len())
}

/// Appends the text of a run to `out`.
fn push_run_text(out: &mut Vec<char>, r: &RunRef)
    ensures
        final(out)@ == old(out)@ + run_text_at(r@.0, r@.1),
{
    let texts = run_texts(r);
    let ghost tv = texts_view(texts@);
    let mut k: usize = 0;
    while k < texts.len()
        invariant
            k <= texts@.len(),
            tv == texts_view(texts@),
            tv == docx_run_texts(r@.0, r@.1),
            out@ == old(out)@ + texts_concat(tv.take(k as int)),
        decreases texts@.len() - k,
    {
        proof {
            assert(tv.take(k + 1).drop_last() =~= tv.take(k as int));
        }
        match &texts[k] {
            Some(t) => {
                let c = chars_of(t.as_str());
                push_range(out, c.as_slice(), 0, c.len());
                proof {
                    assert(c@.subrange(0, c@.len() as int) =~= c@);
                }
            },
            None => {},
        }
        proof {
            assert(out@ =~= old(out)@ + texts_concat(tv.take(k + 1)));
        }
        k = k + 1;
    }
    proof {
        assert(tv.take(tv.len() as int) =~= tv);
    }
}

/// Appends the text of the hyperlink that is child `j` of `p` to `out`.
fn push_link_text(out: &mut Vec<char>, p: &ParagraphRef, j: usize)
    requires
        j < docx_item_kinds(p@.0, p@.1).len(),
        docx_item_kinds(p@.0, p@.1)[j as int] == ItemKind::Hyperlink,
    ensures
        final(out)@ == old(out)@ + link_text_at(p@.0, p@.1, j as nat),
{
    let runs = link_runs(p, j);
    let mut h: usize = 0;
    while h < runs.len()
        invariant
            h <= runs@.len(),
            j < docx_item_kinds(p@.0, p@.1).len(),
            docx_item_kinds(p@.0, p@.1)[j as int] == ItemKind::Hyperlink,
            runs@ == docx_link_runs(p@.0, p@.1, j as nat),
            out@ == old(out)@ + link_text_upto(p@.0, p@.1, j as nat, runs@, h as nat),
        decreases runs@.len() - h,
    {
        if runs[h] {
            match link_run(p, j, h) {
                Some(r) => {
                    push_run_text(out, &r);
                },
                None => {},
            }
        }
        proof {
            assert(out@ =~= old(out)@ + link_text_upto(p@.0, p@.1, j as nat, runs@, (h + 1) as nat));
        }
        h = h + 1;
    }
}

/// Appends the text of a paragraph to `out`.
fn push_paragraph_text(out: &mut Vec<char>, p: &ParagraphRef)
    ensures
        final(out)@ == old(out)@ + paragraph_text_at(p@.0, p@.1),
{
    let kinds = item_kinds(p);
    let mut j: usize = 0;
    while j < kinds.len()
        invariant
            j <= kinds@.len(),
            kinds@ == docx_item_kinds(p@.0, p@.1),
            out@ == old(out)@ + paragraph_text_upto(p@.0, p@.1, kinds@, j as nat),
        decreases kinds@.len() - j,
    {
        match kinds[j] {
            ItemKind::Run => match item_run(p, j) {
                Some(r) => {
                    push_run_text(out, &r);
                },
                None => {},
            },
            ItemKind::Hyperlink => {
                push_link_text(out, p, j);
            },
            ItemKind::Other => {},
        }
        proof {
            assert(out@ =~= old(out)@ + paragraph_text_upto(p@.0, p@.1, kinds@, (j + 1) as nat));
        }
        j = j + 1;
    }
}

/// Appends the text of the table that is body child `b` to `out`.
fn push_table_text(out: &mut Vec<char>, d: &DocxDocument, b: usize)
    requires
        b < docx_block_kinds(d@).len(),
        docx_block_kinds(d@)[b as int] == BlockKind::Table,
    ensures
        final(out)@ == old(out)@ + table_text_at(d@, b as nat),
{
    let shape = table_shape(d, b);
    let ghost sv = shape_view(shape@);
    let mut r: usize = 0;
    while r < shape.len()
        invariant
            r <= shape@.len(),
            b < docx_block_kinds(d@).len(),
            docx_block_kinds(d@)[b as int] == BlockKind::Table,
            sv == shape_view(shape@),
            sv == docx_table_shape(d@, b as nat),
            out@ == old(out)@ + table_text_upto(d@, b as nat, sv, r as nat),
        decreases shape@.len() - r,
    {
        let row = &shape[r];
        let ghost row_start = out@;
        proof {
            assert(sv[r as int] == row@.map_values(|cell: Vec<bool>| cell@));
        }
        let mut c: usize = 0;
        while c < row.len()
            invariant
                c <= row@.len(),
                r < shape@.len(),
                *row == shape@[r as int],
                b < docx_block_kinds(d@).len(),
                docx_block_kinds(d@)[b as int] == BlockKind::Table,
                sv == docx_table_shape(d@, b as nat),
                sv.len() == shape@.len(),
                sv[r as int] == row@.map_values(|cell: Vec<bool>| cell@),
                out@ == row_start + row_text_upto(d@, b as nat, r as nat, sv[r as int], c as nat),
            decreases row@.len() - c,
        {
            let cell = &row[c];
            let ghost cell_start = out@;
            proof {
                assert(sv[r as int][c as int] == cell@);
            }
            let mut k: usize = 0;
            while k < cell.len()
                invariant
                    k <= cell@.len(),
                    r < shape@.len(),
                    c < row@.len(),
                    b < docx_block_kinds(d@).len(),
                    docx_block_kinds(d@)[b as int] == BlockKind::Table,
                    sv == docx_table_shape(d@, b as nat),
                    sv.len() == shape@.len(),
                    sv[r as int].len() == row@.len(),
                    sv[r as int][c as int] == cell@,
                    out@ == cell_start + cell_text_upto(d@, b as nat, r as nat, c as nat, cell@, k as nat),
                decreases cell@.len() - k,
            {
                if cell[k] {
                    match cell_paragraph(d, b, r, c, k) {
                        Some(p) => {
                            push_paragraph_text(out, &p);
                            out.push('\t');
                        },
                        None => {},
                    }
                }
                proof {
                    assert(out@ =~= cell_start + cell_text_upto(
                        d@,
                        b as nat,
                        r as nat,
                        c as nat,
                        cell@,
                        (k + 1) as nat,
                    ));
                }
                k = k + 1;
            }
            proof {
                assert(out@ =~= row_start + row_text_upto(d@, b as nat, r as nat, sv[r as int], (c + 1) as nat));
            }
            c = c + 1;
        }
        out.push('\n');
        proof {
            assert(out@ =~= old(out)@ + table_text_upto(d@, b as nat, sv, (r + 1) as nat));
        }
        r = r + 1;
    }
}

/// The text of a paragraph: its runs and the runs of its hyperlinks.
pub fn paragraph_text(p: &ParagraphRef) -> (s: String)
    ensures
        s@ == paragraph_text_at(p@.0, p@.1),
{
    let mut out: Vec<char> = Vec::new();
    push_paragraph_text(&mut out, p);
    proof {
        assert(out@ =~= paragraph_text_at(p@.0, p@.1));
    }
    string_from_chars(out.as_slice())
}

/// The text of the table that is body child `b` (each cell paragraph
/// followed by a tab, each row followed by a newline); `None` when that
/// child is not a table.
pub fn table_text(d: &DocxDocument, b: usize) -> (s: Option<String>)
    ensures
        match s {
            Some(t) => b < docx_block_kinds(d@).len() && docx_block_kinds(d@)[b as int] == BlockKind::Table
                && t@ == table_text_at(d@, b as nat),
            None => !(b < docx_block_kinds(d@).len() && docx_block_kinds(d@)[b as int] == BlockKind::Table),
        },
{
    let kinds = block_kinds(d);
    if b >= kinds.len() || kinds[b] != BlockKind::Table {
        return None;
    }
    let mut out: Vec<char> = Vec::new();
    push_table_text(&mut out, d, b);
    proof {
        assert(out@ =~= table_text_at(d@, b as nat));
    }
    Some(string_from_chars(out.as_slice()))
}

/// The text of the document body, in document order.
pub fn collect_document_children(d: &DocxDocument) -> (s: String)
    ensures
        s@ == document_text_of(d@),
{
    let kinds = block_kinds(d);
    let mut out: Vec<char> = Vec::new();
    let mut i: usize = 0;
    while i < kinds.len()
        invariant
            i <= kinds@.len(),
            kinds@ == docx_block_kinds(d@),
            out@ == document_text_upto(d@, kinds@, i as nat),
        decreases kinds@.len() - i,
    {
        match kinds[i] {
            BlockKind::Paragraph => match body_paragraph(d, i) {
                Some(p) => {
                    push_paragraph_text(&mut out, &p);
                    out.push('\n');
                },
                None => {},
            },
            BlockKind::Table => {
                push_table_text(&mut out, d, i);
                out.push('\n');
            },
            BlockKind::Other => {},
        }
        proof {
            assert(out@ =~= document_text_upto(d@, kinds@, (i + 1) as nat));
        }
        i = i + 1;
    }
    string_from_chars(out.as_slice())
}

/// What `DocxExtractor::text_from_docx` returns for `buf`.
pub open spec fn docx_text_spec(buf: Seq<u8>) -> Result<Seq<char>, DocumentExtractionErrorView> {
    match docx_read_failure(buf) {
        None => Ok(document_text_of(buf)),
        Some(m) => Err(DocumentExtractionErrorView::ExtractionFailed("invalid docx: "@ + m)),
    }
}

/// What `DocxExtractor::document_from_bytes` returns for `buf`: the text as
/// one page numbered 0 that carries the package's media.
pub open spec fn docx_document_spec(buf: Seq<u8>) -> Result<DocView, DocumentExtractionErrorView> {
    match docx_text_spec(buf) {
        Err(e) => Err(e),
        Ok(text) => match media_assets_spec(buf, "word/media/"@) {
            Err(e) => Err(e),
            Ok(assets) => Ok(DocView {
                full_text: text,
                pages: seq![PageView { page_number: 0, text: text, assets: assets }],
                assets: Seq::empty(),
            }),
        },
    }
}

/// Error text for a package that does not pass [`docx_parts_safe`].
pub const UNREADABLE_ENTRY: &'static str =
    "invalid docx: a part does not read, or holds an element without the attributes it needs";

/// What `DocxExtractor::extract_text_from_bytes` returns for docx bytes:
/// the document, once the package passes [`docx_parts_safe`].
pub open spec fn docx_checked_document_spec(buf: Seq<u8>) -> Result<DocView, DocumentExtractionErrorView> {
    if docx_parts_safe(buf) {
        docx_document_spec(buf)
    } else {
        Err(DocumentExtractionErrorView::ExtractionFailed(UNREADABLE_ENTRY@))
    }
}

/// Extractor for docx documents.
pub struct DocxExtractor;

impl DocxExtractor {
    pub fn new() -> (e: Self) {
        DocxExtractor
    }

    /// Whether `file_type` (in any letter case) is the docx MIME type.
    pub fn can_extract_str(file_type: &str) -> (b: bool)
        ensures
            b == (lowercase(file_type@) == DOCX_MIME@),
    {
        let lowered = to_lowercase(file_type);
        str_eq(lowered.as_str(), DOCX_MIME)
    }

    pub fn can_extract(&self, file_type: &str) -> (b: bool)
        ensures
            b == (lowercase(file_type@) == DOCX_MIME@),
    {
        Self::can_extract_str(file_type)
    }

    /// The text of the docx document `buf`, which passes
    /// [`docx_parts_safe`] (see [`DocxExtractor::extract_text_from_bytes`]
    /// for the check).
    pub fn text_from_docx(buf: &[u8]) -> (r: Result<String, DocumentExtractionError>)
        requires
            docx_parts_safe(buf@),
        ensures
            match r {
                Ok(s) => docx_text_spec(buf@) == Ok::<Seq<char>, DocumentExtractionErrorView>(s@),
                Err(e) => docx_text_spec(buf@) == Err::<Seq<char>, DocumentExtractionErrorView>(e@),
            },
    {
        match docx_open(buf) {
            Ok(d) => Ok(collect_document_children(&d)),
            Err(e) => Err(DocumentExtractionError::ExtractionFailed(concat2("invalid docx: ", e.as_str()))),
        }
    }

    /// The document held in the docx bytes `buf`, which passes
    /// [`docx_parts_safe`] (see [`DocxExtractor::extract_text_from_bytes`]
    /// for the check).
    pub fn document_from_bytes(buf: &[u8]) -> (r: Result<ExtractedDocument, DocumentExtractionError>)
        requires
            docx_parts_safe(buf@),
        ensures
            doc_result_view(r) == docx_document_spec(buf@),
    {
        let text = match Self::text_from_docx(buf) {
            Ok(t) => t,
            Err(e) => {
                return Err(e);
            },
        };
        let pending_assets = match extract_media_assets(buf, "word/media/") {
            Ok(a) => a,
            Err(e) => {
                return Err(e);
            },
        };
        let page = PageContent { page_number: 0, text: text.clone(), pending_assets };
        let mut pages: Vec<PageContent> = Vec::new();
        pages.push(page);
        let d = ExtractedDocument { full_text: text, pages, pending_assets: Vec::new() };
        proof {
            assert(d@.pages =~= seq![page@]);
            assert(d@.assets =~= Seq::<AssetView>::empty());
        }
        Ok(d)
    }

    /// The document held in the docx bytes `data`. The package is checked
    /// first: when it does not pass [`docx_parts_safe`], on which `docx_rs`
    /// would panic, it is refused with `ExtractionFailed` before `docx_rs`
    /// sees it.
    pub fn extract_text_from_bytes(
        &self,
        data: &[u8],
        file_type: &str,
        _options: ExtractionOptions,
    ) -> (r: Result<ExtractedDocument, DocumentExtractionError>)
        ensures
            lowercase(file_type@) != DOCX_MIME@ ==> (r matches Err(
                DocumentExtractionError::UnsupportedFormat(m),
            ) && m@ == file_type@),
            lowercase(file_type@) == DOCX_MIME@ ==> doc_result_view(r) == docx_checked_document_spec(data@),
    {
        if !Self::can_extract_str(file_type) {
            return Err(DocumentExtractionError::UnsupportedFormat(file_type.to_owned()));
        }
        if !all_parts_safe(data) {
            return Err(DocumentExtractionError::ExtractionFailed(owned(UNREADABLE_ENTRY)));
        }
        Self::document_from_bytes(data)
    }
}

impl Default for DocxExtractor {
    fn default() -> (e: Self) {
        DocxExtractor
    }
}

} // verus!
