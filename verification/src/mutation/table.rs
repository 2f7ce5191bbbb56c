use vstd::prelude::*;
use vstd::string::StringSliceAdditionalSpecFns;

use crate::bytes::{bytes_equal, copy_bytes, push_bytes, push_str};
use crate::document::spec_body;
use crate::escape::{escape, escaped};
use crate::numbers::{decimal_digits, format_u64};
use crate::protocol::{CreateTable, FailureCode, OperationFailure};
use crate::source::{NodeId, SourceDocument, SourceSpan};
use crate::wordml::{children_named, collect_text, is_word, named_among, word};

use crate::mutation::common::{
    apply_single_patch, attr_prefix, body_blocks, body_insertion, close_tag, direct_body_blocks,
    document_invalid, needs_space_preservation, placement_index, push_close, qualified,
    qualify, requires_space_preservation, resolve_paragraph_placement, spec_body_insertion,
    spec_placement_index, spec_resolved_placement, spec_word_prefix, word_prefix_for, Patch,
};
use crate::mutation::page_break::{
    block_text, body_block_signatures, signature_view, signatures, BlockKind,
};
use crate::mutation::page_setup::{attr_prefix_of, attribute_markup};

verus! {

/// The width of a new table, in twips.
pub const TABLE_WIDTH_TWIPS: usize = 9360usize;

/// The width of column `i` of a new table with `n` columns: the table width shared out
/// evenly, the first columns taking one twip more until the remainder is used up.
pub open spec fn grid_width(n: int, i: int) -> int {
    9360int / n + (if i < 9360int % n {
        1int
    } else {
        0int
    })
}

/// The widths of the first `k` columns, added up.
pub open spec fn grid_sum(n: int, k: int) -> int
    decreases k,
{
    if k <= 0 {
        0
    } else {
        grid_sum(n, k - 1) + grid_width(n, k - 1)
    }
}

proof fn lemma_grid_prefix(n: int, k: int)
    requires
        n > 0,
        0 <= k <= n,
    ensures
        grid_sum(n, k) == k * (9360int / n) + (if k < 9360int % n {
            k
        } else {
            9360int % n
        }),
    decreases k,
{
    assert(0 <= 9360int % n) by (nonlinear_arith)
        requires
            n > 0,
    ;
    if k > 0 {
        lemma_grid_prefix(n, k - 1);
        let q = 9360int / n;
        let r = 9360int % n;
        assert(k * q == (k - 1) * q + q) by (nonlinear_arith);
        assert(grid_sum(n, k) == grid_sum(n, k - 1) + grid_width(n, k - 1));
        if k - 1 < r {
            assert(grid_width(n, k - 1) == q + 1);
            assert(grid_sum(n, k - 1) == (k - 1) * q + (k - 1));
            assert(grid_sum(n, k) == k * q + k);
            assert(grid_sum(n, k) == k * q + (if k < r { k } else { r }));
        } else {
            assert(grid_width(n, k - 1) == q);
            assert(grid_sum(n, k - 1) == (k - 1) * q + r);
            assert(grid_sum(n, k) == k * q + r);
            assert(grid_sum(n, k) == k * q + (if k < r { k } else { r }));
        }
    } else {
        assert(grid_sum(n, 0) == 0);
        assert(0 * (9360int / n) == 0);
    }
}

/// The columns of a new table fill its width exactly, and none is empty while there are
/// no more columns than twips.
pub proof fn lemma_grid_widths(n: int)
    requires
        n > 0,
    ensures
        grid_sum(n, n) == 9360,
        n <= 9360 ==> forall|i: int| 0 <= i < n ==> grid_width(n, i) >= 1,
{
    lemma_grid_prefix(n, n);
    assert(9360int % n < n) by (nonlinear_arith)
        requires
            n > 0,
    ;
    assert(n * (9360int / n) + 9360int % n == 9360) by (nonlinear_arith)
        requires
            n > 0,
    ;
    if n <= 9360 {
        assert(9360int / n >= 1) by (nonlinear_arith)
            requires
                0 < n <= 9360,
        ;
    }
}

/// `<q(local) attrs/>`.
pub open spec fn empty_element(prefix: Seq<u8>, local: Seq<u8>, attrs: Seq<u8>) -> Seq<u8> {
    seq![0x3cu8] + qualified(prefix, local) + attrs + seq![0x2fu8, 0x3eu8]
}

/// A table border: single, four eighths of a point, automatic colour.
pub open spec fn border_markup(prefix: Seq<u8>, side: Seq<u8>) -> Seq<u8> {
    let a = attr_prefix_of(prefix);
    empty_element(prefix, side, attribute_markup(a, "val".spec_bytes(), "single".spec_bytes())
        + attribute_markup(a, "sz".spec_bytes(), "4".spec_bytes()) + attribute_markup(a, "space".spec_bytes(), "0".spec_bytes())
        + attribute_markup(a, "color".spec_bytes(), "auto".spec_bytes()))
}

/// A width in twips: `w` and `type="dxa"`.
pub open spec fn dxa_markup(prefix: Seq<u8>, local: Seq<u8>, w: Seq<u8>) -> Seq<u8> {
    let a = attr_prefix_of(prefix);
    empty_element(prefix, local, attribute_markup(a, "w".spec_bytes(), w) + attribute_markup(a, "type".spec_bytes(), "dxa".spec_bytes()))
}

/// The properties of a new table: full text width, single borders, cell margins.
pub open spec fn table_properties_markup(prefix: Seq<u8>) -> Seq<u8> {
    let q = |l: Seq<u8>| qualified(prefix, l);
    seq![0x3cu8] + q("tblPr".spec_bytes()) + seq![0x3eu8] + dxa_markup(prefix, "tblW".spec_bytes(), "9360".spec_bytes())
        + seq![0x3cu8] + q("tblBorders".spec_bytes()) + seq![0x3eu8]
        + border_markup(prefix, "top".spec_bytes()) + border_markup(prefix, "bottom".spec_bytes())
        + border_markup(prefix, "left".spec_bytes()) + border_markup(prefix, "right".spec_bytes())
        + border_markup(prefix, "insideH".spec_bytes()) + border_markup(prefix, "insideV".spec_bytes())
        + close_tag(q("tblBorders".spec_bytes())) + seq![0x3cu8] + q("tblCellMar".spec_bytes()) + seq![0x3eu8]
        + dxa_markup(prefix, "top".spec_bytes(), "100".spec_bytes()) + dxa_markup(prefix, "left".spec_bytes(), "140".spec_bytes())
        + dxa_markup(prefix, "bottom".spec_bytes(), "100".spec_bytes()) + dxa_markup(prefix, "right".spec_bytes(), "140".spec_bytes())
        + close_tag(q("tblCellMar".spec_bytes())) + close_tag(q("tblPr".spec_bytes()))
}

/// The grid columns `0..k` of a new table with `n` columns.
pub open spec fn grid_markup(prefix: Seq<u8>, n: int, k: int) -> Seq<u8>
    decreases k,
{
    if k <= 0 {
        seq![]
    } else {
        grid_markup(prefix, n, k - 1) + empty_element(prefix, "gridCol".spec_bytes(), attribute_markup(
            attr_prefix_of(prefix),
            "w".spec_bytes(),
            decimal_digits(grid_width(n, k - 1) as nat),
        ))
    }
}

/// The markup of a cell up to its text element's name.
pub open spec fn cell_head(prefix: Seq<u8>) -> Seq<u8> {
    let q = |l: Seq<u8>| qualified(prefix, l);
    let a = attr_prefix_of(prefix);
    seq![0x3cu8] + q("tc".spec_bytes()) + seq![0x3eu8] + seq![0x3cu8] + q("p".spec_bytes()) + seq![0x3eu8]
        + seq![0x3cu8] + q("pPr".spec_bytes()) + seq![0x3eu8]
        + empty_element(prefix, "spacing".spec_bytes(), attribute_markup(a, "before".spec_bytes(), "0".spec_bytes()) + attribute_markup(a, "after".spec_bytes(), "0".spec_bytes()))
        + close_tag(q("pPr".spec_bytes())) + seq![0x3cu8] + q("r".spec_bytes()) + seq![0x3eu8]
        + seq![0x3cu8] + q("t".spec_bytes())
}

/// The markup of a cell's text: space preserved where needed, markup characters escaped.
pub open spec fn cell_text(text: Seq<char>) -> Seq<u8> {
    let space = if needs_space_preservation(text) {
        " xml:space=\"preserve\"".spec_bytes()
    } else {
        seq![]
    };
    space + seq![0x3eu8] + escaped(vstd::utf8::encode_utf8(text))
}

/// A cell's text that begins or ends with white space is written with
/// `xml:space="preserve"`.
pub proof fn law_cell_text_space(text: Seq<char>)
    requires
        text.len() > 0,
        crate::mutation::common::plain_white_space(text[0]) || crate::mutation::common::plain_white_space(text.last()),
    ensures
        cell_text(text) == " xml:space=\"preserve\"".spec_bytes() + seq![0x3eu8] + escaped(vstd::utf8::encode_utf8(text)),
{
}

/// The markup that closes a cell.
pub open spec fn cell_tail(prefix: Seq<u8>) -> Seq<u8> {
    let q = |l: Seq<u8>| qualified(prefix, l);
    close_tag(q("t".spec_bytes())) + close_tag(q("r".spec_bytes())) + close_tag(q("p".spec_bytes()))
        + close_tag(q("tc".spec_bytes()))
}

/// One cell of a new table: a paragraph without spacing holding the cell's text.
pub open spec fn cell_markup(prefix: Seq<u8>, text: Seq<char>) -> Seq<u8> {
    cell_head(prefix) + cell_text(text) + cell_tail(prefix)
}

pub open spec fn cells_markup(prefix: Seq<u8>, row: Seq<String>, k: int) -> Seq<u8>
    decreases k,
{
    if k <= 0 {
        seq![]
    } else {
        cells_markup(prefix, row, k - 1) + cell_markup(prefix, row[k - 1]@)
    }
}

pub open spec fn rows_markup(prefix: Seq<u8>, rows: Seq<Vec<String>>, k: int) -> Seq<u8>
    decreases k,
{
    if k <= 0 {
        seq![]
    } else {
        rows_markup(prefix, rows, k - 1) + seq![0x3cu8] + qualified(prefix, "tr".spec_bytes()) + seq![0x3eu8]
            + cells_markup(prefix, rows[k - 1]@, rows[k - 1]@.len() as int) + close_tag(qualified(prefix, "tr".spec_bytes()))
    }
}

/// The markup of a new table holding `rows`, with `n` columns.
pub open spec fn table_markup(prefix: Seq<u8>, rows: Seq<Vec<String>>, n: int) -> Seq<u8> {
    seq![0x3cu8] + qualified(prefix, "tbl".spec_bytes()) + seq![0x3eu8] + table_properties_markup(prefix)
        + seq![0x3cu8] + qualified(prefix, "tblGrid".spec_bytes()) + seq![0x3eu8] + grid_markup(prefix, n, n)
        + close_tag(qualified(prefix, "tblGrid".spec_bytes())) + rows_markup(prefix, rows, rows.len() as int)
        + close_tag(qualified(prefix, "tbl".spec_bytes()))
}

fn push_attr(out: &mut Vec<u8>, a: &[u8], name: &str, value: &str)
    ensures
        final(out)@ == old(out)@ + attribute_markup(a@, name.spec_bytes(), value.spec_bytes()),
{
    out.push(0x20u8);
    push_bytes(out, a);
    push_str(out, name);
    out.push(0x3du8);
    out.push(0x22u8);
    push_str(out, value);
    out.push(0x22u8);
    assert(out@ =~= old(out)@ + attribute_markup(a@, name.spec_bytes(), value.spec_bytes()));
}

fn push_start(out: &mut Vec<u8>, prefix: &[u8], local: &str)
    ensures
        final(out)@ == old(out)@ + seq![0x3cu8] + qualified(prefix@, local.spec_bytes()),
{
    out.push(0x3cu8);
    push_bytes(out, qualify(prefix, local).as_slice());
}

fn push_open_named(out: &mut Vec<u8>, prefix: &[u8], local: &str)
    ensures
        final(out)@ == old(out)@ + seq![0x3cu8] + qualified(prefix@, local.spec_bytes()) + seq![0x3eu8],
{
    push_start(out, prefix, local);
    out.push(0x3eu8);
}

fn push_close_named(out: &mut Vec<u8>, prefix: &[u8], local: &str)
    ensures
        final(out)@ == old(out)@ + close_tag(qualified(prefix@, local.spec_bytes())),
{
    push_close(out, qualify(prefix, local).as_slice());
}

fn push_border(out: &mut Vec<u8>, prefix: &[u8], side: &str)
    ensures
        final(out)@ == old(out)@ + border_markup(prefix@, side.spec_bytes()),
{
    let a = attr_prefix(prefix);
    let ghost start = out@;
    push_start(out, prefix, side);
    push_attr(out, a.as_slice(), "val", "single");
    push_attr(out, a.as_slice(), "sz", "4");
    push_attr(out, a.as_slice(), "space", "0");
    push_attr(out, a.as_slice(), "color", "auto");
    out.push(0x2fu8);
    out.push(0x3eu8);
    assert(out@ =~= start + border_markup(prefix@, side.spec_bytes()));
}

fn push_dxa(out: &mut Vec<u8>, prefix: &[u8], local: &str, w: &str)
    ensures
        final(out)@ == old(out)@ + dxa_markup(prefix@, local.spec_bytes(), w.spec_bytes()),
{
    let a = attr_prefix(prefix);
    let ghost start = out@;
    push_start(out, prefix, local);
    push_attr(out, a.as_slice(), "w", w);
    push_attr(out, a.as_slice(), "type", "dxa");
    out.push(0x2fu8);
    out.push(0x3eu8);
    assert(out@ =~= start + dxa_markup(prefix@, local.spec_bytes(), w.spec_bytes()));
}

#[verifier::spinoff_prover]
#[verifier::rlimit(100)]
fn push_table_properties(out: &mut Vec<u8>, prefix: &[u8])
    ensures
        final(out)@ == old(out)@ + table_properties_markup(prefix@),
{
    let ghost start = out@;
    push_open_named(out, prefix, "tblPr");
    push_dxa(out, prefix, "tblW", "9360");
    push_open_named(out, prefix, "tblBorders");
    push_border(out, prefix, "top");
    push_border(out, prefix, "bottom");
    push_border(out, prefix, "left");
    push_border(out, prefix, "right");
    push_border(out, prefix, "insideH");
    push_border(out, prefix, "insideV");
    push_close_named(out, prefix, "tblBorders");
    push_open_named(out, prefix, "tblCellMar");
    push_dxa(out, prefix, "top", "100");
    push_dxa(out, prefix, "left", "140");
    push_dxa(out, prefix, "bottom", "100");
    push_dxa(out, prefix, "right", "140");
    push_close_named(out, prefix, "tblCellMar");
    push_close_named(out, prefix, "tblPr");
    assert(out@ =~= start + table_properties_markup(prefix@));
}

fn cell_head_fragment(prefix: &[u8]) -> (r: Vec<u8>)
    ensures
        r@ == cell_head(prefix@),
{
    let a = attr_prefix(prefix);
    let mut out: Vec<u8> = Vec::new();
    push_open_named(&mut out, prefix, "tc");
    push_open_named(&mut out, prefix, "p");
    push_open_named(&mut out, prefix, "pPr");
    push_start(&mut out, prefix, "spacing");
    push_attr(&mut out, a.as_slice(), "before", "0");
    push_attr(&mut out, a.as_slice(), "after", "0");
    out.push(0x2fu8);
    out.push(0x3eu8);
    push_close_named(&mut out, prefix, "pPr");
    push_open_named(&mut out, prefix, "r");
    push_start(&mut out, prefix, "t");
    assert(out@ =~= cell_head(prefix@));
    out
}

fn cell_text_fragment(text: &str) -> (r: Vec<u8>)
    ensures
        r@ == cell_text(text@),
{
    let mut out: Vec<u8> = Vec::new();
    if requires_space_preservation(text) {
        push_str(&mut out, " xml:space=\"preserve\"");
    }
    out.push(0x3eu8);
    push_bytes(&mut out, escape(text.as_bytes()).as_slice());
    assert(out@ =~= cell_text(text@));
    out
}

fn cell_tail_fragment(prefix: &[u8]) -> (r: Vec<u8>)
    ensures
        r@ == cell_tail(prefix@),
{
    let mut out: Vec<u8> = Vec::new();
    push_close_named(&mut out, prefix, "t");
    push_close_named(&mut out, prefix, "r");
    push_close_named(&mut out, prefix, "p");
    push_close_named(&mut out, prefix, "tc");
    assert(out@ =~= cell_tail(prefix@));
    out
}

fn push_cell(out: &mut Vec<u8>, prefix: &[u8], text: &str)
    ensures
        final(out)@ == old(out)@ + cell_markup(prefix@, text@),
{
    let head = cell_head_fragment(prefix);
    let body = cell_text_fragment(text);
    let tail = cell_tail_fragment(prefix);
    push_bytes(out, head.as_slice());
    push_bytes(out, body.as_slice());
    push_bytes(out, tail.as_slice());
    assert(out@ =~= old(out)@ + cell_markup(prefix@, text@));
}

/// Writes a new table in the namespace of the body: its properties, an even grid over
/// the text width, and one plain paragraph per cell.
#[verifier::spinoff_prover]
#[verifier::rlimit(100)]
pub fn table_fragment_for_body(source: &SourceDocument, body: NodeId, rows: &Vec<Vec<String>>) -> (r: Result<Vec<u8>, OperationFailure>)
    requires
        source.wf(),
        source.valid_id(body),
        rows@.len() > 0,
        rows@[0]@.len() > 0,
    ensures
        match r {
            Ok(v) => spec_word_prefix(source, body.0 as int, "body".spec_bytes()) matches Some(prefix)
                && v@ == table_markup(prefix, rows@, rows@[0]@.len() as int),
            Err(e) => spec_word_prefix(source, body.0 as int, "body".spec_bytes()) is None
                && e.code == FailureCode::UnsupportedOperation,
        },
{
    let prefix = word_prefix_for(source, body, "body")?;
    let p = prefix.as_slice();
    let n = rows[0].len();
    let column_width = TABLE_WIDTH_TWIPS / n;
    let remainder = TABLE_WIDTH_TWIPS % n;
    let a = attr_prefix(p);
    let mut out: Vec<u8> = Vec::new();
    push_open_named(&mut out, p, "tbl");
    push_table_properties(&mut out, p);
    push_open_named(&mut out, p, "tblGrid");
    let ghost head = out@;
    let mut i: usize = 0;
    while i < n
        invariant
            n == rows@[0]@.len(),
            n > 0,
            column_width == 9360int / (n as int),
            remainder == 9360int % (n as int),
            a@ == attr_prefix_of(prefix@),
            p@ == prefix@,
            i <= n,
            out@ == head + grid_markup(prefix@, n as int, i as int),
        decreases n - i,
    {
        let width: usize = if i < remainder {
            column_width + 1
        } else {
            column_width
        };
        push_start(&mut out, p, "gridCol");
        let digits = format_u64(width as u64);
        crate::mutation::page_setup::push_attribute(&mut out, a.as_slice(), "w", digits.as_slice());
        out.push(0x2fu8);
        out.push(0x3eu8);
        proof {
            assert(width as int == grid_width(n as int, i as int));
            assert(out@ =~= head + grid_markup(prefix@, n as int, i as int + 1));
        }
        i += 1;
    }
    push_close_named(&mut out, p, "tblGrid");
    let ghost grid_done = out@;
    let mut k: usize = 0;
    while k < rows.len()
        invariant
            p@ == prefix@,
            k <= rows@.len(),
            out@ == grid_done + rows_markup(prefix@, rows@, k as int),
        decreases rows@.len() - k,
    {
        let ghost row_start = out@;
        push_open_named(&mut out, p, "tr");
        let ghost cells_start = out@;
        let row = &rows[k];
        let mut c: usize = 0;
        while c < row.len()
            invariant
                p@ == prefix@,
                c <= row@.len(),
                out@ == cells_start + cells_markup(prefix@, row@, c as int),
            decreases row@.len() - c,
        {
            push_cell(&mut out, p, row[c].as_str());
            proof {
                assert(out@ =~= cells_start + cells_markup(prefix@, row@, c as int + 1));
            }
            c += 1;
        }
        push_close_named(&mut out, p, "tr");
        proof {
            assert(out@ =~= grid_done + rows_markup(prefix@, rows@, k as int + 1));
        }
        k += 1;
    }
    push_close_named(&mut out, p, "tbl");
    proof {
        assert(out@ =~= table_markup(prefix@, rows@, n as int));
    }
    Ok(out)
}

/// The texts of all cells, row by row, one after the other.
pub open spec fn rows_text(rows: Seq<Vec<String>>) -> Seq<u8>
    decreases rows.len(),
{
    if rows.len() == 0 {
        seq![]
    } else {
        rows_text(rows.drop_last()) + row_text(rows.last()@)
    }
}

pub open spec fn row_text(row: Seq<String>) -> Seq<u8>
    decreases row.len(),
{
    if row.len() == 0 {
        seq![]
    } else {
        row_text(row.drop_last()) + vstd::utf8::encode_utf8(row.last()@)
    }
}

/// The table's rows and cells hold exactly the given texts.
pub open spec fn table_rows_match(d: &SourceDocument, tbl: NodeId, rows: Seq<Vec<String>>) -> bool {
    let trs = named_among(d, d.spec_children(tbl.0 as int), "tr".spec_bytes(), "tr".spec_bytes());
    &&& trs.len() == rows.len()
    &&& forall|i: int| 0 <= i < rows.len() ==> {
        let tcs = named_among(d, d.spec_children((#[trigger] trs[i]).0 as int), "tc".spec_bytes(), "tc".spec_bytes());
        &&& tcs.len() == rows[i]@.len()
        &&& forall|j: int| 0 <= j < tcs.len() ==> block_text(d, #[trigger] tcs[j]) == Some(vstd::utf8::encode_utf8(rows[i]@[j]@))
    }
}

/// Reading an edited part back finds the new table at `index`, holding the given rows,
/// and every block with the expected signature.
pub open spec fn table_reads_back(out: Seq<u8>, index: int, rows: Seq<Vec<String>>, expected: Seq<(BlockKind, Seq<u8>)>) -> bool {
    exists|d2: SourceDocument| #![trigger d2.bytes] d2.wf() && d2.bytes@ == out && d2.faithful() && table_matches(&d2, index, rows, expected)
}

pub open spec fn table_matches(d: &SourceDocument, index: int, rows: Seq<Vec<String>>, expected: Seq<(BlockKind, Seq<u8>)>) -> bool {
    match spec_body(d) {
        Ok(body) => {
            &&& 0 <= index < body_blocks(d, body).len()
            &&& is_word(d, body_blocks(d, body)[index].0 as int, "tbl".spec_bytes())
            &&& table_rows_match(d, body_blocks(d, body)[index], rows)
            &&& signatures(d, body_blocks(d, body)) == Some(expected)
        },
        Err(_) => false,
    }
}

fn check_row(d: &SourceDocument, tr: NodeId, row: &Vec<String>) -> (r: bool)
    requires
        d.wf(),
        d.valid_id(tr),
    ensures
        r <==> ({
            let tcs = named_among(d, d.spec_children(tr.0 as int), "tc".spec_bytes(), "tc".spec_bytes());
            &&& tcs.len() == row@.len()
            &&& forall|j: int| 0 <= j < tcs.len() ==> block_text(d, #[trigger] tcs[j]) == Some(vstd::utf8::encode_utf8(row@[j]@))
        }),
{
    let tcs = children_named(d, tr, "tc", "tc");
    if tcs.len() != row.len() {
        return false;
    }
    let mut j: usize = 0;
    while j < tcs.len()
        invariant
            d.wf(),
            tcs@.len() == row@.len(),
            tcs@ == named_among(d, d.spec_children(tr.0 as int), "tc".spec_bytes(), "tc".spec_bytes()),
            forall|m: int| 0 <= m < tcs@.len() ==> d.valid_id(#[trigger] tcs@[m]),
            j <= tcs@.len(),
            forall|m: int| 0 <= m < j ==> block_text(d, #[trigger] tcs@[m]) == Some(vstd::utf8::encode_utf8(row@[m]@)),
        decreases tcs@.len() - j,
    {
        let span = d.span(tcs[j]);
        let text = match collect_text(d, "t", span.start, span.end, false) {
            Ok(t) => t,
            Err(_) => {
                assert(block_text(d, tcs@[j as int]) is None);
                return false;
            },
        };
        if !bytes_equal(text.as_slice(), row[j].as_str().as_bytes()) {
            assert(block_text(d, tcs@[j as int]) != Some(vstd::utf8::encode_utf8(row@[j as int]@)));
            return false;
        }
        j += 1;
    }
    true
}

/// The edited part parses, and every reading of it has the new table at `index` with
/// the given rows, and every block with the expected signature.
pub open spec fn table_reads_back_all(out: Seq<u8>, index: int, rows: Seq<Vec<String>>, expected: Seq<(BlockKind, Seq<u8>)>) -> bool {
    &&& crate::source::accepts(out)
    &&& forall|d2: SourceDocument| #![trigger d2.bytes] d2.wf() && d2.bytes@ == out && d2.faithful() ==> table_matches(&d2, index, rows, expected)
}

fn check_table(out: &Vec<u8>, index: usize, rows: &Vec<Vec<String>>, expected: &Vec<(BlockKind, Vec<u8>)>) -> (r: Result<(), OperationFailure>)
    ensures
        r is Ok ==> table_reads_back(out@, index as int, rows@, signature_view(expected@)),
        r is Err ==> !table_reads_back_all(out@, index as int, rows@, signature_view(expected@)),
{
    let reread = match SourceDocument::parse(copy_bytes(out.as_slice())) {
        Ok(d) => d,
        Err(_) => return Err(document_invalid()),
    };
    assert(reread.bytes == reread.bytes);
    let (_body, blocks) = match direct_body_blocks(&reread) {
        Ok(x) => x,
        Err(e) => {
            assert(!table_matches(&reread, index as int, rows@, signature_view(expected@)));
            return Err(e);
        },
    };
    let mismatch = OperationFailure::failed(FailureCode::DocumentInvalid, "output table rows do not match the requested insertion");
    if index >= blocks.len() || !word(&reread, blocks[index], "tbl") {
        assert(!table_matches(&reread, index as int, rows@, signature_view(expected@)));
        return Err(mismatch);
    }
    let tbl = blocks[index];
    let trs = children_named(&reread, tbl, "tr", "tr");
    if trs.len() != rows.len() {
        assert(!table_matches(&reread, index as int, rows@, signature_view(expected@)));
        return Err(mismatch);
    }
    let mut i: usize = 0;
    while i < trs.len()
        invariant
            reread.wf(),
            trs@ == named_among(&reread, reread.spec_children(tbl.0 as int), "tr".spec_bytes(), "tr".spec_bytes()),
            trs@.len() == rows@.len(),
            forall|m: int| 0 <= m < trs@.len() ==> reread.valid_id(#[trigger] trs@[m]),
            i <= trs@.len(),
            forall|m: int| 0 <= m < i ==> ({
                let tcs = named_among(&reread, reread.spec_children((#[trigger] trs@[m]).0 as int), "tc".spec_bytes(), "tc".spec_bytes());
                &&& tcs.len() == rows@[m]@.len()
                &&& forall|j: int| 0 <= j < tcs.len() ==> block_text(&reread, #[trigger] tcs[j]) == Some(vstd::utf8::encode_utf8(rows@[m]@[j]@))
            }),
            reread.bytes@ == out@,
            reread.faithful(),
            spec_body(&reread) matches Ok(b) && 0 <= index < body_blocks(&reread, b).len() && body_blocks(&reread, b)[index as int] == tbl,
        decreases trs@.len() - i,
    {
        if !check_row(&reread, trs[i], &rows[i]) {
            proof {
                if table_matches(&reread, index as int, rows@, signature_view(expected@)) {
                    assert(table_rows_match(&reread, tbl, rows@));
                    let m = i as int;
                    assert(named_among(&reread, reread.spec_children(trs@[m].0 as int), "tc".spec_bytes(), "tc".spec_bytes()).len() == rows@[m]@.len());
                }
            }
            return Err(mismatch);
        }
        i += 1;
    }
    let after = match body_block_signatures(&reread) {
        Ok(a) => a,
        Err(e) => {
            assert(!table_matches(&reread, index as int, rows@, signature_view(expected@)));
            return Err(e);
        },
    };
    if !crate::mutation::page_break::same_signatures(&after, expected) {
        assert(!table_matches(&reread, index as int, rows@, signature_view(expected@)));
        return Err(OperationFailure::failed(FailureCode::DocumentInvalid, "output body ordering changed"));
    }
    proof {
        assert(table_matches(&reread, index as int, rows@, signature_view(expected@)));
        assert(reread.bytes == reread.bytes);
    }
    Ok(())
}

/// The concatenated cell texts of rows, as bytes.
fn all_rows_text(rows: &Vec<Vec<String>>) -> (r: Vec<u8>)
    ensures
        r@ == rows_text(rows@),
{
    let mut out: Vec<u8> = Vec::new();
    let mut i: usize = 0;
    while i < rows.len()
        invariant
            i <= rows@.len(),
            out@ == rows_text(rows@.take(i as int)),
        decreases rows@.len() - i,
    {
        let ghost before = out@;
        let row = &rows[i];
        let mut j: usize = 0;
        while j < row.len()
            invariant
                j <= row@.len(),
                out@ == before + row_text(row@.take(j as int)),
            decreases row@.len() - j,
        {
            push_bytes(&mut out, row[j].as_str().as_bytes());
            proof {
                assert(row@.take(j as int + 1).drop_last() =~= row@.take(j as int));
                assert(out@ =~= before + row_text(row@.take(j as int + 1)));
            }
            j += 1;
        }
        proof {
            assert(row@.take(row@.len() as int) =~= row@);
            assert(rows@.take(i as int + 1).drop_last() =~= rows@.take(i as int));
            assert(out@ =~= rows_text(rows@.take(i as int + 1)));
        }
        i += 1;
    }
    proof {
        assert(rows@.take(rows@.len() as int) =~= rows@);
    }
    out
}

/// The rows form a non-empty rectangle.
pub open spec fn rectangular(rows: Seq<Vec<String>>) -> bool {
    rows.len() > 0 && rows[0]@.len() > 0 && forall|i: int| 0 <= i < rows.len() ==> (#[trigger] rows[i])@.len() == rows[0]@.len()
}

/// Creates a table with the given cell texts at a direct body placement and returns the
/// edited main part, which is read back and must hold the table there with every other
/// block unchanged.
/// Every step of a table creation can be taken, and every reading of the edited part
/// holds the new table in place with the other blocks as they were.
pub open spec fn table_creatable(source: &SourceDocument, operation: CreateTable) -> bool {
    &&& rectangular(operation.rows@)
    &&& spec_resolved_placement(source, operation.placement) matches Some(placement)
    &&& spec_body(source) matches Ok(body)
    &&& spec_placement_index(body_blocks(source, body), placement) matches Some(index)
    &&& spec_body_insertion(source, body, body_blocks(source, body), index) matches Ok(at)
    &&& spec_word_prefix(source, body.0 as int, "body".spec_bytes()) matches Some(prefix)
    &&& signatures(source, body_blocks(source, body)) matches Some(before)
    &&& table_reads_back_all(
        source.bytes@.subrange(0, at) + table_markup(prefix, operation.rows@, operation.rows@[0]@.len() as int)
            + source.bytes@.subrange(at, source.bytes@.len() as int),
        index,
        operation.rows@,
        before.insert(index, (BlockKind::Table, rows_text(operation.rows@))),
    )
}

pub fn create_table_to_vec(source: &SourceDocument, operation: &CreateTable) -> (r: Result<Vec<u8>, OperationFailure>)
    requires
        source.wf(),
    ensures
        !rectangular(operation.rows@) ==> match r {
            Err(e) => e.code == FailureCode::InvalidOperation && e.reason_code == Some("INVALID_TABLE_DIMENSIONS"),
            Ok(_) => false,
        },
        r matches Ok(out) ==> {
            &&& rectangular(operation.rows@)
            &&& spec_resolved_placement(source, operation.placement) matches Some(placement)
            &&& spec_body(source) matches Ok(body)
            &&& spec_placement_index(body_blocks(source, body), placement) matches Some(index)
            &&& spec_body_insertion(source, body, body_blocks(source, body), index) matches Ok(at)
            &&& spec_word_prefix(source, body.0 as int, "body".spec_bytes()) matches Some(prefix)
            &&& signatures(source, body_blocks(source, body)) matches Some(before)
            &&& out@ == source.bytes@.subrange(0, at) + table_markup(prefix, operation.rows@, operation.rows@[0]@.len() as int)
                + source.bytes@.subrange(at, source.bytes@.len() as int)
            &&& table_reads_back(out@, index, operation.rows@, before.insert(index, (BlockKind::Table, rows_text(operation.rows@))))
        },
        r is Err ==> !table_creatable(source, *operation),
{
    let rows = &operation.rows;
    let dimensions = OperationFailure::failed(FailureCode::InvalidOperation, "create_table requires a non-empty rectangular cell matrix").with_reason_code("INVALID_TABLE_DIMENSIONS");
    if rows.len() == 0 || rows[0].len() == 0 {
        return Err(dimensions);
    }
    let width = rows[0].len();
    let mut i: usize = 0;
    while i < rows.len()
        invariant
            rows@ == operation.rows@,
            dimensions.code == FailureCode::InvalidOperation,
            dimensions.reason_code == Some("INVALID_TABLE_DIMENSIONS"),
            rows@.len() > 0,
            width == rows@[0]@.len(),
            i <= rows@.len(),
            forall|m: int| 0 <= m < i ==> (#[trigger] rows@[m])@.len() == width,
        decreases rows@.len() - i,
    {
        if rows[i].len() != width {
            proof {
                assert(rows@[i as int]@.len() != rows@[0]@.len());
            }
            return Err(dimensions);
        }
        i += 1;
    }
    let placement = resolve_paragraph_placement(source, &operation.placement)?;
    let (body, blocks) = direct_body_blocks(source)?;
    let index = placement_index(&blocks, placement)?;
    let before = body_block_signatures(source)?;
    let at = body_insertion(source, body, &blocks, index)?;
    let fragment = table_fragment_for_body(source, body, rows)?;
    let out = apply_single_patch(source, Patch { span: SourceSpan { start: at, end: at }, replacement: fragment });
    let mut expected = before;
    let ghost old_expected = expected@;
    let text = all_rows_text(rows);
    let ghost text_view = text@;
    expected.insert(index, (BlockKind::Table, text));
    proof {
        assert(signature_view(expected@) =~= signature_view(old_expected).insert(index as int, (BlockKind::Table, text_view)));
    }
    check_table(&out, index, rows, &expected)?;
    Ok(out)
}

} // verus!
