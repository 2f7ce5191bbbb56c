use vstd::prelude::*;
use vstd::string::StringSliceAdditionalSpecFns;

use crate::bytes::{copy_range, push_bytes};
use crate::document::spec_body;
use crate::mutation::common::{
    apply_single_patch, close_tag, open_tag, push_close, push_open, qualified, qualify,
    spec_word_prefix, word_prefix_for, Patch,
};
use crate::mutation::header_footer_markup::{push_text_element, text_element_markup};
use crate::mutation::page_break::block_text;
use crate::mutation::paragraph::{all_children, safe_run_child};
use crate::mutation::table_edit::{
    ResolvedTable,
    all_table_rows, body_tables, label_matches, cell_label_matches, parse_row_handle, resolve_table, row_cells, rows_view, spec_parse_row_handle, spec_resolve_table, spec_select,
    spec_table_reason, table_mutation_reason, table_rows, table_texts, tables_read_back,
    tables_texts, tables_view, texts_view, check_tables, };
use crate::protocol::{
    unsupported, FailureCode, InsertTableRowAfter, InsertTableRowsAfter, OperationFailure,
    TableRowTarget, TableTarget,
};
use crate::source::{NodeId, SourceDocument, SourceNodeKind, SourceSpan};
use crate::wordml::{child, children_named, is_word, named_among, spec_child, word};

verus! {

/// The most rows one insertion takes.
pub const MAX_TABLE_ROWS_PER_OPERATION: usize = 100;

// ---------------------------------------------------------------------------
// Which rows can serve as templates
// ---------------------------------------------------------------------------

pub open spec fn is_text_node(d: &SourceDocument, i: int) -> bool {
    d.nodes@[i].kind is Text
}

/// Some child of `i` is named `local`.
pub open spec fn has_child_word(d: &SourceDocument, i: int, local: Seq<u8>) -> bool {
    exists|k: int| 0 <= k < d.spec_children(i).len() && is_word(d, (#[trigger] d.spec_children(i)[k]).0 as int, local)
}

/// A child a table paragraph may hold: text, properties without section properties or
/// a property change, or a run of plain run content.
pub open spec fn safe_table_paragraph_child(d: &SourceDocument, c: int) -> bool {
    is_text_node(d, c) || (is_word(d, c, "pPr".spec_bytes()) && !has_child_word(d, c, "sectPr".spec_bytes())
        && !has_child_word(d, c, "pPrChange".spec_bytes())) || (is_word(d, c, "r".spec_bytes()) && all_children(
        d,
        c,
        |x: int| safe_run_child(d, x),
    ))
}

/// A cell that can serve as a template: one paragraph and cell properties, the paragraph
/// holding only properties, runs and text.
pub open spec fn safe_template_cell(d: &SourceDocument, cell: NodeId) -> bool {
    let ps = named_among(d, d.spec_children(cell.0 as int), "p".spec_bytes(), "p".spec_bytes());
    &&& ps.len() == 1
    &&& all_children(d, cell.0 as int, |c: int| is_word(d, c, "tcPr".spec_bytes()) || is_word(d, c, "p".spec_bytes()))
    &&& all_children(d, ps[0].0 as int, |c: int| safe_table_paragraph_child(d, c))
    &&& all_children(d, ps[0].0 as int, |c: int| is_word(d, c, "pPr".spec_bytes()) || is_word(d, c, "r".spec_bytes()) || is_text_node(d, c))
}

/// Content a template row may not hold: fields, content controls, links, drawings,
/// bookmarks, comment marks and run property changes.
pub open spec fn row_payload(d: &SourceDocument, i: int) -> bool {
    is_word(d, i, "fldChar".spec_bytes()) || is_word(d, i, "fldSimple".spec_bytes()) || is_word(d, i, "instrText".spec_bytes())
        || is_word(d, i, "sdt".spec_bytes()) || is_word(d, i, "hyperlink".spec_bytes()) || is_word(d, i, "drawing".spec_bytes())
        || is_word(d, i, "pict".spec_bytes()) || is_word(d, i, "bookmarkStart".spec_bytes()) || is_word(d, i, "bookmarkEnd".spec_bytes())
        || is_word(d, i, "commentRangeStart".spec_bytes()) || is_word(d, i, "commentRangeEnd".spec_bytes())
        || is_word(d, i, "commentReference".spec_bytes()) || is_word(d, i, "rPrChange".spec_bytes())
}

/// A row that can serve as a template for new rows.
pub open spec fn safe_table_row(d: &SourceDocument, row: NodeId) -> bool {
    &&& all_children(d, row.0 as int, |c: int| is_word(d, c, "trPr".spec_bytes()) || is_word(d, c, "tc".spec_bytes()))
    &&& forall|k: int| 0 <= k < row_cells(d, row).len() ==> safe_template_cell(d, #[trigger] row_cells(d, row)[k])
    &&& !(exists|i: int| row.0 < i < d.subtree_ends@[row.0 as int] && #[trigger] row_payload(d, i))
}

fn children_all(source: &SourceDocument, id: NodeId, a: &str, b: &str, text_ok: bool) -> (r: bool)
    requires
        source.wf(),
        source.valid_id(id),
    ensures
        r == all_children(source, id.0 as int, |c: int| is_word(source, c, a.spec_bytes()) || is_word(source, c, b.spec_bytes()) || (text_ok && is_text_node(source, c))),
{
    let kids = source.children(id);
    let _end = source.subtree_end(id);
    proof {
        crate::source::lemma_children(source, id.0 as int);
    }
    let mut k: usize = 0;
    while k < kids.len()
        invariant
            source.wf(),
            kids@ == source.spec_children(id.0 as int),
            forall|j: int| 0 <= j < kids@.len() ==> source.valid_id(#[trigger] kids@[j]),
            k <= kids@.len(),
            forall|j: int| 0 <= j < k ==> ({
                let c = (#[trigger] kids@[j]).0 as int;
                is_word(source, c, a.spec_bytes()) || is_word(source, c, b.spec_bytes()) || (text_ok && is_text_node(source, c))
            }),
        decreases kids@.len() - k,
    {
        let c = kids[k];
        let is_text = match &source.nodes[c.0].kind {
            SourceNodeKind::Text => true,
            _ => false,
        };
        if !(word(source, c, a) || word(source, c, b) || (text_ok && is_text)) {
            return false;
        }
        k += 1;
    }
    true
}

fn has_child_named(source: &SourceDocument, id: NodeId, local: &str) -> (r: bool)
    requires
        source.wf(),
        source.valid_id(id),
    ensures
        r == has_child_word(source, id.0 as int, local.spec_bytes()),
{
    let kids = source.children(id);
    let _end = source.subtree_end(id);
    let mut k: usize = 0;
    while k < kids.len()
        invariant
            source.wf(),
            kids@ == source.spec_children(id.0 as int),
            forall|j: int| 0 <= j < kids@.len() ==> source.valid_id(#[trigger] kids@[j]),
            k <= kids@.len(),
            forall|j: int| 0 <= j < k ==> !is_word(source, (#[trigger] kids@[j]).0 as int, local.spec_bytes()),
        decreases kids@.len() - k,
    {
        if word(source, kids[k], local) {
            assert(is_word(source, kids@[k as int].0 as int, local.spec_bytes()));
            return true;
        }
        k += 1;
    }
    false
}

fn is_safe_run_content(source: &SourceDocument, id: NodeId) -> (r: bool)
    requires
        source.wf(),
        source.valid_id(id),
    ensures
        r == all_children(source, id.0 as int, |x: int| safe_run_child(source, x)),
{
    let kids = source.children(id);
    let _end = source.subtree_end(id);
    let mut k: usize = 0;
    while k < kids.len()
        invariant
            source.wf(),
            kids@ == source.spec_children(id.0 as int),
            forall|j: int| 0 <= j < kids@.len() ==> source.valid_id(#[trigger] kids@[j]),
            k <= kids@.len(),
            forall|j: int| 0 <= j < k ==> safe_run_child(source, (#[trigger] kids@[j]).0 as int),
        decreases kids@.len() - k,
    {
        let c = kids[k];
        let ok = word(source, c, "rPr") || word(source, c, "t") || word(source, c, "tab") || word(source, c, "br")
            || word(source, c, "cr") || word(source, c, "noBreakHyphen") || word(source, c, "softHyphen")
            || word(source, c, "lastRenderedPageBreak");
        if !ok {
            return false;
        }
        k += 1;
    }
    true
}

pub(crate) fn is_safe_table_paragraph(source: &SourceDocument, p: NodeId) -> (r: bool)
    requires
        source.wf(),
        source.valid_id(p),
    ensures
        r == all_children(source, p.0 as int, |c: int| safe_table_paragraph_child(source, c)),
{
    let kids = source.children(p);
    let _end = source.subtree_end(p);
    proof {
        crate::source::lemma_children(source, p.0 as int);
    }
    let mut k: usize = 0;
    while k < kids.len()
        invariant
            source.wf(),
            kids@ == source.spec_children(p.0 as int),
            forall|j: int| 0 <= j < kids@.len() ==> source.valid_id(#[trigger] kids@[j]),
            k <= kids@.len(),
            forall|j: int| 0 <= j < k ==> safe_table_paragraph_child(source, (#[trigger] kids@[j]).0 as int),
        decreases kids@.len() - k,
    {
        let c = kids[k];
        let is_text = match &source.nodes[c.0].kind {
            SourceNodeKind::Text => true,
            _ => false,
        };
        let ok = is_text || (word(source, c, "pPr") && !has_child_named(source, c, "sectPr")
            && !has_child_named(source, c, "pPrChange")) || (word(source, c, "r") && is_safe_run_content(source, c));
        if !ok {
            return false;
        }
        k += 1;
    }
    true
}

pub fn is_safe_template_cell(source: &SourceDocument, cell: NodeId) -> (r: bool)
    requires
        source.wf(),
        source.valid_id(cell),
    ensures
        r == safe_template_cell(source, cell),
{
    let ps = children_named(source, cell, "p", "p");
    if ps.len() != 1 {
        return false;
    }
    children_all(source, cell, "tcPr", "p", false) && is_safe_table_paragraph(source, ps[0]) && children_all(
        source,
        ps[0],
        "pPr",
        "r",
        true,
    )
}

fn holds_payload(source: &SourceDocument, row: NodeId) -> (r: bool)
    requires
        source.wf(),
        source.valid_id(row),
    ensures
        r == exists|i: int| row.0 < i < source.subtree_ends@[row.0 as int] && #[trigger] row_payload(source, i),
{
    let end = source.subtree_end(row);
    let mut i = row.0 + 1;
    while i < end
        invariant
            source.wf(),
            row.0 < i <= end <= source.nodes@.len(),
            end == source.subtree_ends@[row.0 as int],
            forall|j: int| row.0 < j < i ==> !#[trigger] row_payload(source, j),
        decreases end - i,
    {
        let id = NodeId(i);
        if word(source, id, "fldChar") || word(source, id, "fldSimple") || word(source, id, "instrText")
            || word(source, id, "sdt") || word(source, id, "hyperlink") || word(source, id, "drawing")
            || word(source, id, "pict") || word(source, id, "bookmarkStart") || word(source, id, "bookmarkEnd")
            || word(source, id, "commentRangeStart") || word(source, id, "commentRangeEnd")
            || word(source, id, "commentReference") || word(source, id, "rPrChange") {
            assert(row_payload(source, i as int));
            return true;
        }
        i += 1;
    }
    false
}

pub fn is_safe_table_row(source: &SourceDocument, row: NodeId) -> (r: bool)
    requires
        source.wf(),
        source.valid_id(row),
    ensures
        r == safe_table_row(source, row),
{
    if !children_all(source, row, "trPr", "tc", false) {
        return false;
    }
    let cells = children_named(source, row, "tc", "tc");
    let mut k: usize = 0;
    while k < cells.len()
        invariant
            source.wf(),
            cells@ == row_cells(source, row),
            forall|j: int| 0 <= j < cells@.len() ==> source.valid_id(#[trigger] cells@[j]),
            k <= cells@.len(),
            forall|j: int| 0 <= j < k ==> safe_template_cell(source, #[trigger] cells@[j]),
        decreases cells@.len() - k,
    {
        if !is_safe_template_cell(source, cells[k]) {
            return false;
        }
        k += 1;
    }
    !holds_payload(source, row)
}

// ---------------------------------------------------------------------------
// Markup of new rows
// ---------------------------------------------------------------------------

/// The source bytes of a node.
pub open spec fn node_bytes(d: &SourceDocument, id: NodeId) -> Seq<u8> {
    let s = d.spec_span(id.0 as int);
    d.bytes@.subrange(s.start as int, s.end as int)
}

/// The source bytes of the first child named `local`, or nothing.
pub open spec fn child_bytes(d: &SourceDocument, id: NodeId, local: Seq<u8>) -> Seq<u8> {
    match spec_child(d, id.0 as int, local) {
        Some(c) => node_bytes(d, c),
        None => seq![],
    }
}

/// Row properties a new row may copy: height, splitting, alignment, spacing and style
/// conditions only.
pub open spec fn safe_row_properties(d: &SourceDocument, p: NodeId) -> bool {
    all_children(d, p.0 as int, |c: int| is_word(d, c, "trHeight".spec_bytes()) || is_word(d, c, "cantSplit".spec_bytes())
        || is_word(d, c, "jc".spec_bytes()) || is_word(d, c, "tblCellSpacing".spec_bytes()) || is_word(d, c, "cnfStyle".spec_bytes()))
}

/// The template's row properties, when they are safe to copy.
pub open spec fn kept_row_properties(d: &SourceDocument, row: NodeId) -> Seq<u8> {
    match spec_child(d, row.0 as int, "trPr".spec_bytes()) {
        Some(p) => if safe_row_properties(d, p) {
            node_bytes(d, p)
        } else {
            seq![]
        },
        None => seq![],
    }
}

/// A new cell shaped like a template cell: its cell properties, its paragraph's
/// properties and its first run's properties, around the new text.
pub open spec fn template_cell_markup(d: &SourceDocument, cell: NodeId, prefix: Seq<u8>, value: Seq<char>) -> Seq<u8> {
    let para = named_among(d, d.spec_children(cell.0 as int), "p".spec_bytes(), "p".spec_bytes())[0];
    let run_properties = match spec_child(d, para.0 as int, "r".spec_bytes()) {
        Some(r) => child_bytes(d, r, "rPr".spec_bytes()),
        None => seq![],
    };
    open_tag(qualified(prefix, "tc".spec_bytes())) + child_bytes(d, cell, "tcPr".spec_bytes()) + open_tag(
        qualified(prefix, "p".spec_bytes()),
    ) + child_bytes(d, para, "pPr".spec_bytes()) + open_tag(qualified(prefix, "r".spec_bytes())) + run_properties
        + text_element_markup(prefix, value) + close_tag(qualified(prefix, "r".spec_bytes())) + close_tag(
        qualified(prefix, "p".spec_bytes()),
    ) + close_tag(qualified(prefix, "tc".spec_bytes()))
}

pub open spec fn template_cells_markup(d: &SourceDocument, cells: Seq<NodeId>, prefix: Seq<u8>, values: Seq<String>, k: int) -> Seq<u8>
    decreases k,
{
    if k <= 0 {
        seq![]
    } else {
        template_cells_markup(d, cells, prefix, values, k - 1) + template_cell_markup(d, cells[k - 1], prefix, values[k - 1]@)
    }
}

/// A new row shaped like the template row.
pub open spec fn template_row_markup(d: &SourceDocument, template: NodeId, prefix: Seq<u8>, values: Seq<String>) -> Seq<u8> {
    let tr = qualified(prefix, "tr".spec_bytes());
    open_tag(tr) + kept_row_properties(d, template) + template_cells_markup(d, row_cells(d, template), prefix, values, values.len() as int)
        + close_tag(tr)
}

/// A plain new cell.
pub open spec fn minimal_cell_markup(prefix: Seq<u8>, value: Seq<char>) -> Seq<u8> {
    open_tag(qualified(prefix, "tc".spec_bytes())) + open_tag(qualified(prefix, "p".spec_bytes())) + open_tag(
        qualified(prefix, "r".spec_bytes()),
    ) + text_element_markup(prefix, value) + close_tag(qualified(prefix, "r".spec_bytes())) + close_tag(
        qualified(prefix, "p".spec_bytes()),
    ) + close_tag(qualified(prefix, "tc".spec_bytes()))
}

pub open spec fn minimal_cells_markup(prefix: Seq<u8>, values: Seq<String>, k: int) -> Seq<u8>
    decreases k,
{
    if k <= 0 {
        seq![]
    } else {
        minimal_cells_markup(prefix, values, k - 1) + minimal_cell_markup(prefix, values[k - 1]@)
    }
}

/// A plain new row.
pub open spec fn minimal_row_markup(prefix: Seq<u8>, values: Seq<String>) -> Seq<u8> {
    let tr = qualified(prefix, "tr".spec_bytes());
    open_tag(tr) + minimal_cells_markup(prefix, values, values.len() as int) + close_tag(tr)
}

/// The new rows `rows[..k]`, shaped like the template when there is one.
pub open spec fn new_rows_markup(d: &SourceDocument, template: Option<NodeId>, prefix: Seq<u8>, rows: Seq<Seq<String>>, k: int) -> Seq<u8>
    decreases k,
{
    if k <= 0 {
        seq![]
    } else {
        new_rows_markup(d, template, prefix, rows, k - 1) + match template {
            Some(t) => template_row_markup(d, t, prefix, rows[k - 1]),
            None => minimal_row_markup(prefix, rows[k - 1]),
        }
    }
}

/// The rows of new cells as plain sequences.
pub open spec fn rows_of(rows: Seq<Vec<String>>) -> Seq<Seq<String>> {
    rows.map_values(|r: Vec<String>| r@)
}

fn push_child_bytes(out: &mut Vec<u8>, source: &SourceDocument, id: NodeId, local: &str) -> (r: Option<NodeId>)
    requires
        source.wf(),
        source.valid_id(id),
    ensures
        final(out)@ == old(out)@ + child_bytes(source, id, local.spec_bytes()),
        r == spec_child(source, id.0 as int, local.spec_bytes()),
        r matches Some(c) ==> source.valid_id(c),
{
    let c = child(source, id, local);
    match c {
        Some(x) => {
            let span = source.span(x);
            push_bytes(out, copy_range(source.original_bytes(), span.start, span.end).as_slice());
        },
        None => {
            assert(out@ =~= old(out)@ + child_bytes(source, id, local.spec_bytes()));
        },
    }
    c
}

#[verifier::rlimit(30)]
pub fn push_template_cell(out: &mut Vec<u8>, source: &SourceDocument, cell: NodeId, prefix: &[u8], value: &str)
    requires
        source.wf(),
        source.valid_id(cell),
        named_among(source, source.spec_children(cell.0 as int), "p".spec_bytes(), "p".spec_bytes()).len() > 0,
    ensures
        final(out)@ == old(out)@ + template_cell_markup(source, cell, prefix@, value@),
{
    let ps = children_named(source, cell, "p", "p");
    let para = ps[0];
    let tc = qualify(prefix, "tc");
    let p = qualify(prefix, "p");
    let r = qualify(prefix, "r");
    push_open(out, tc.as_slice());
    push_child_bytes(out, source, cell, "tcPr");
    push_open(out, p.as_slice());
    push_child_bytes(out, source, para, "pPr");
    push_open(out, r.as_slice());
    match child(source, para, "r") {
        Some(run) => {
            push_child_bytes(out, source, run, "rPr");
        },
        None => {},
    }
    push_text_element(out, prefix, value);
    push_close(out, r.as_slice());
    push_close(out, p.as_slice());
    push_close(out, tc.as_slice());
    assert(out@ =~= old(out)@ + template_cell_markup(source, cell, prefix@, value@));
}

pub fn push_minimal_cell(out: &mut Vec<u8>, prefix: &[u8], value: &str)
    ensures
        final(out)@ == old(out)@ + minimal_cell_markup(prefix@, value@),
{
    let tc = qualify(prefix, "tc");
    let p = qualify(prefix, "p");
    let r = qualify(prefix, "r");
    push_open(out, tc.as_slice());
    push_open(out, p.as_slice());
    push_open(out, r.as_slice());
    push_text_element(out, prefix, value);
    push_close(out, r.as_slice());
    push_close(out, p.as_slice());
    push_close(out, tc.as_slice());
    assert(out@ =~= old(out)@ + minimal_cell_markup(prefix@, value@));
}

fn is_safe_row_properties(source: &SourceDocument, p: NodeId) -> (r: bool)
    requires
        source.wf(),
        source.valid_id(p),
    ensures
        r == safe_row_properties(source, p),
{
    let kids = source.children(p);
    let _end = source.subtree_end(p);
    let mut k: usize = 0;
    while k < kids.len()
        invariant
            source.wf(),
            kids@ == source.spec_children(p.0 as int),
            forall|j: int| 0 <= j < kids@.len() ==> source.valid_id(#[trigger] kids@[j]),
            k <= kids@.len(),
            forall|j: int| 0 <= j < k ==> ({
                let c = (#[trigger] kids@[j]).0 as int;
                is_word(source, c, "trHeight".spec_bytes()) || is_word(source, c, "cantSplit".spec_bytes())
                    || is_word(source, c, "jc".spec_bytes()) || is_word(source, c, "tblCellSpacing".spec_bytes())
                    || is_word(source, c, "cnfStyle".spec_bytes())
            }),
        decreases kids@.len() - k,
    {
        let c = kids[k];
        if !(word(source, c, "trHeight") || word(source, c, "cantSplit") || word(source, c, "jc")
            || word(source, c, "tblCellSpacing") || word(source, c, "cnfStyle")) {
            return false;
        }
        k += 1;
    }
    true
}

fn push_template_row(out: &mut Vec<u8>, source: &SourceDocument, template: NodeId, prefix: &[u8], values: &Vec<String>)
    requires
        source.wf(),
        source.valid_id(template),
        values@.len() <= row_cells(source, template).len(),
        forall|k: int| 0 <= k < row_cells(source, template).len() ==> safe_template_cell(source, #[trigger] row_cells(source, template)[k]),
    ensures
        final(out)@ == old(out)@ + template_row_markup(source, template, prefix@, values@),
{
    let tr = qualify(prefix, "tr");
    push_open(out, tr.as_slice());
    match child(source, template, "trPr") {
        Some(p) => {
            if is_safe_row_properties(source, p) {
                let span = source.span(p);
                push_bytes(out, copy_range(source.original_bytes(), span.start, span.end).as_slice());
            }
        },
        None => {},
    }
    let ghost start = out@;
    let cells = children_named(source, template, "tc", "tc");
    let mut k: usize = 0;
    while k < values.len()
        invariant
            source.wf(),
            cells@ == row_cells(source, template),
            forall|j: int| 0 <= j < cells@.len() ==> source.valid_id(#[trigger] cells@[j]),
            forall|j: int| 0 <= j < cells@.len() ==> safe_template_cell(source, #[trigger] cells@[j]),
            values@.len() <= cells@.len(),
            k <= values@.len(),
            out@ == start + template_cells_markup(source, cells@, prefix@, values@, k as int),
        decreases values@.len() - k,
    {
        assert(safe_template_cell(source, cells@[k as int]));
        push_template_cell(out, source, cells[k], prefix, values[k].as_str());
        k += 1;
    }
    push_close(out, tr.as_slice());
    assert(out@ =~= old(out)@ + template_row_markup(source, template, prefix@, values@));
}

fn push_minimal_row(out: &mut Vec<u8>, prefix: &[u8], values: &Vec<String>)
    ensures
        final(out)@ == old(out)@ + minimal_row_markup(prefix@, values@),
{
    let tr = qualify(prefix, "tr");
    push_open(out, tr.as_slice());
    let ghost start = out@;
    let mut k: usize = 0;
    while k < values.len()
        invariant
            k <= values@.len(),
            out@ == start + minimal_cells_markup(prefix@, values@, k as int),
        decreases values@.len() - k,
    {
        push_minimal_cell(out, prefix, values[k].as_str());
        k += 1;
    }
    push_close(out, tr.as_slice());
    assert(out@ =~= old(out)@ + minimal_row_markup(prefix@, values@));
}

// ---------------------------------------------------------------------------
// Resolving the anchor row
// ---------------------------------------------------------------------------

/// The row's first cell reads as the label.
pub open spec fn first_cell_matches(d: &SourceDocument, row: NodeId, label: Seq<char>) -> bool {
    &&& row_cells(d, row).len() > 0
    &&& block_text(d, row_cells(d, row)[0]) matches Some(t)
    &&& label_matches(t, label)
}

/// The indices, among `rows[1..k]`, of the rows whose first cell reads as the label.
pub open spec fn row_candidates(d: &SourceDocument, rows: Seq<NodeId>, label: Seq<char>, k: int) -> Seq<int>
    decreases k,
{
    if k <= 1 {
        seq![]
    } else {
        let c = row_candidates(d, rows, label, k - 1);
        if first_cell_matches(d, rows[k - 1], label) {
            c.push(k - 1)
        } else {
            c
        }
    }
}

proof fn lemma_row_candidates(d: &SourceDocument, rows: Seq<NodeId>, label: Seq<char>, k: int)
    ensures
        forall|j: int| 0 <= j < row_candidates(d, rows, label, k).len() ==> 1 <= #[trigger] row_candidates(d, rows, label, k)[j] < k,
    decreases k,
{
    if k > 1 {
        lemma_row_candidates(d, rows, label, k - 1);
        let c = row_candidates(d, rows, label, k - 1);
        assert forall|j: int| 0 <= j < row_candidates(d, rows, label, k).len() implies 1 <= #[trigger] row_candidates(d, rows, label, k)[j] < k by {
            if j < c.len() {
                assert(row_candidates(d, rows, label, k)[j] == c[j]);
            }
        }
    }
}

/// The index of the row that new rows follow: by handle, which must name a row of this
/// table, else by the text of its first cell (the header row aside).
pub open spec fn spec_anchor_row(d: &SourceDocument, rows: Seq<NodeId>, table_index: int, after: TableRowTarget) -> Result<int, FailureCode> {
    match after.handle {
        Some(h) => handle_anchor(rows.len() as int, table_index, vstd::utf8::encode_utf8(h@)),
        None => spec_select(row_candidates(d, rows, after.first_cell_text@, rows.len() as int), after.occurrence),
    }
}

/// The first safe row, other than the anchor, at or after `from`.
pub open spec fn first_template(d: &SourceDocument, rows: Seq<NodeId>, anchor: NodeId, from: int) -> Option<NodeId>
    decreases rows.len() - from,
{
    if from < 0 || from >= rows.len() {
        None
    } else if rows[from] != anchor && safe_table_row(d, rows[from]) {
        Some(rows[from])
    } else {
        first_template(d, rows, anchor, from + 1)
    }
}

proof fn lemma_first_template(d: &SourceDocument, rows: Seq<NodeId>, anchor: NodeId, from: int)
    requires
        0 <= from,
    ensures
        first_template(d, rows, anchor, from) matches Some(t) ==> rows.contains(t) && safe_table_row(d, t),
    decreases rows.len() - from,
{
    if from < rows.len() && !(rows[from] != anchor && safe_table_row(d, rows[from])) {
        lemma_first_template(d, rows, anchor, from + 1);
    }
}

fn matching_rows(source: &SourceDocument, rows: &Vec<NodeId>, label: &String) -> (r: Vec<usize>)
    requires
        source.wf(),
        forall|j: int| 0 <= j < rows@.len() ==> source.valid_id(#[trigger] rows@[j]),
    ensures
        row_candidates(source, rows@, label@, rows@.len() as int) == r@.map_values(|x: usize| x as int),
        forall|j: int| 0 <= j < r@.len() ==> #[trigger] r@[j] < rows@.len(),
{
    let mut candidates: Vec<usize> = Vec::new();
    if rows.len() == 0 {
        assert(candidates@.map_values(|x: usize| x as int) =~= Seq::<int>::empty());
        return candidates;
    }
    let mut k: usize = 1;
    while k < rows.len()
        invariant
            source.wf(),
            forall|j: int| 0 <= j < rows@.len() ==> source.valid_id(#[trigger] rows@[j]),
            1 <= k <= rows@.len(),
            row_candidates(source, rows@, label@, k as int) == candidates@.map_values(|x: usize| x as int),
            forall|j: int| 0 <= j < candidates@.len() ==> #[trigger] candidates@[j] < k,
        decreases rows@.len() - k,
    {
        let cells = children_named(source, rows[k], "tc", "tc");
        let matched = if cells.len() > 0 {
            let span = source.span(cells[0]);
            match crate::wordml::collect_text(source, "t", span.start, span.end, false) {
                Ok(text) => cell_label_matches(&text, label),
                Err(_) => false,
            }
        } else {
            false
        };
        assert(matched == first_cell_matches(source, rows@[k as int], label@));
        if matched {
            let ghost before = candidates@;
            candidates.push(k);
            assert(candidates@.map_values(|x: usize| x as int) =~= before.map_values(|x: usize| x as int).push(k as int));
        }
        k += 1;
    }
    candidates
}

fn select_index(candidates: &Vec<usize>, occurrence: Option<usize>) -> (r: Result<usize, OperationFailure>)
    ensures
        match r {
            Ok(i) => spec_select(candidates@.map_values(|x: usize| x as int), occurrence) == Ok::<int, FailureCode>(i as int)
                && candidates@.contains(i),
            Err(e) => spec_select(candidates@.map_values(|x: usize| x as int), occurrence) == Err::<int, FailureCode>(e.code),
        },
{
    if candidates.len() == 0 {
        return Err(OperationFailure::failed(FailureCode::TargetNotFound, "table row was not found"));
    }
    match occurrence {
        Some(o) => {
            if o >= candidates.len() {
                return Err(OperationFailure::failed(FailureCode::TargetNotFound, "table row target occurrence was not found"));
            }
            assert(candidates@.contains(candidates@[o as int]));
            Ok(candidates[o])
        },
        None => {
            if candidates.len() != 1 {
                return Err(OperationFailure::failed(FailureCode::TargetAmbiguous, "table row first-cell text matches more than one row"));
            }
            assert(candidates@.contains(candidates@[0]));
            Ok(candidates[0])
        },
    }
}

/// The anchor row a handle names.
pub open spec fn handle_anchor(rows_len: int, table_index: int, h: Seq<u8>) -> Result<int, FailureCode> {
    match spec_parse_row_handle(h) {
        None => Err(FailureCode::PreconditionFailed),
        Some((t, r)) => if t != table_index {
            Err(FailureCode::PreconditionFailed)
        } else if r >= rows_len {
            Err(FailureCode::TargetNotFound)
        } else {
            Ok(r)
        },
    }
}

fn anchor_by_handle(rows_len: usize, table_index: usize, h: &String) -> (r: Result<usize, OperationFailure>)
    ensures
        match r {
            Ok(a) => handle_anchor(rows_len as int, table_index as int, vstd::utf8::encode_utf8(h@)) == Ok::<int, FailureCode>(a as int) && a < rows_len,
            Err(e) => handle_anchor(rows_len as int, table_index as int, vstd::utf8::encode_utf8(h@)) == Err::<int, FailureCode>(e.code),
        },
{
    let bytes = h.as_str().as_bytes();
    assert(bytes@ == vstd::utf8::encode_utf8(h@));
    let (t, row) = match parse_row_handle(bytes) {
        Ok(x) => x,
        Err(e) => return Err(e),
    };
    if t != table_index {
        return Err(OperationFailure::failed(FailureCode::PreconditionFailed, "row handle does not belong to the selected table"));
    }
    if row >= rows_len {
        return Err(OperationFailure::failed(FailureCode::TargetNotFound, "table row handle was not found"));
    }
    Ok(row)
}

fn resolve_anchor_row(source: &SourceDocument, rows: &Vec<NodeId>, table_index: usize, after: &TableRowTarget) -> (r: Result<usize, OperationFailure>)
    requires
        source.wf(),
        forall|j: int| 0 <= j < rows@.len() ==> source.valid_id(#[trigger] rows@[j]),
    ensures
        match r {
            Ok(a) => spec_anchor_row(source, rows@, table_index as int, *after) == Ok::<int, FailureCode>(a as int) && a < rows@.len(),
            Err(e) => spec_anchor_row(source, rows@, table_index as int, *after) == Err::<int, FailureCode>(e.code),
        },
{
    match &after.handle {
        Some(h) => anchor_by_handle(rows.len(), table_index, h),
        None => {
            let candidates = matching_rows(source, rows, &after.first_cell_text);
            let r = select_index(&candidates, after.occurrence);
            proof {
                if r is Ok {
                    let i = r->Ok_0;
                    let j = choose|j: int| 0 <= j < candidates@.len() && candidates@[j] == i;
                }
            }
            r
        },
    }
}

fn template_row(source: &SourceDocument, rows: &Vec<NodeId>, anchor: NodeId) -> (r: Option<NodeId>)
    requires
        source.wf(),
        forall|j: int| 0 <= j < rows@.len() ==> source.valid_id(#[trigger] rows@[j]),
    ensures
        r == first_template(source, rows@, anchor, 0),
        r matches Some(t) ==> source.valid_id(t) && safe_table_row(source, t),
{
    proof {
        lemma_first_template(source, rows@, anchor, 0);
    }
    let mut k: usize = 0;
    while k < rows.len()
        invariant
            source.wf(),
            forall|j: int| 0 <= j < rows@.len() ==> source.valid_id(#[trigger] rows@[j]),
            k <= rows@.len(),
            first_template(source, rows@, anchor, 0) == first_template(source, rows@, anchor, k as int),
        decreases rows@.len() - k,
    {
        if rows[k] != anchor && is_safe_table_row(source, rows[k]) {
            return Some(rows[k]);
        }
        k += 1;
    }
    None
}

// ---------------------------------------------------------------------------
// Inserting rows
// ---------------------------------------------------------------------------

/// The texts of new rows, cell by cell.
pub open spec fn new_rows_text(rows: Seq<Seq<String>>) -> Seq<Seq<Seq<u8>>> {
    rows.map_values(|r: Seq<String>| r.map_values(|c: String| vstd::utf8::encode_utf8(c@)))
}

/// The tables' texts with the new rows after row `a` of table `i`.
pub open spec fn rows_inserted(all: Seq<Seq<Seq<Seq<u8>>>>, i: int, a: int, rows: Seq<Seq<String>>) -> Seq<Seq<Seq<Seq<u8>>>> {
    all.update(i, all[i].take(a + 1) + new_rows_text(rows) + all[i].skip(a + 1))
}

/// Every new row has `width` cells.
pub open spec fn rows_fit(rows: Seq<Seq<String>>, width: int) -> bool {
    forall|k: int| 0 <= k < rows.len() ==> (#[trigger] rows[k]).len() == width
}

/// The template a row insertion copies, else the anchor row, whose namespace prefix the
/// new rows use.
pub open spec fn prefix_row(template: Option<NodeId>, anchor: NodeId) -> NodeId {
    match template {
        Some(t) => t,
        None => anchor,
    }
}

/// What inserting `rows` after the anchor of table `i` made of `d`: the new rows' markup
/// right after the anchor row, and every table reading back as before with the new rows
/// in place.
pub open spec fn rows_added(d: &SourceDocument, body: NodeId, i: int, a: int, rows: Seq<Seq<String>>, out: Seq<u8>) -> bool {
    let t = body_tables(d, body)[i];
    let anchor = table_rows(d, t)[a];
    let template = first_template(d, table_rows(d, t), anchor, 0);
    let end = d.spec_span(anchor.0 as int).end as int;
    &&& spec_word_prefix(d, prefix_row(template, anchor).0 as int, "tr".spec_bytes()) matches Some(prefix)
    &&& out == d.bytes@.subrange(0, end) + new_rows_markup(d, template, prefix, rows, rows.len() as int) + d.bytes@.subrange(end, d.bytes@.len() as int)
    &&& tables_texts(d, body_tables(d, body)) matches Some(all)
    &&& tables_read_back(out, rows_inserted(all, i, a, rows))
}

/// The insertion was allowed: between 1 and 100 rows, a simple table, rows of its width,
/// and an anchor row.
pub open spec fn insertion_resolved(d: &SourceDocument, table: TableTarget, after: TableRowTarget, rows: Seq<Seq<String>>, out: Seq<u8>) -> bool {
    &&& 1 <= rows.len() <= MAX_TABLE_ROWS_PER_OPERATION
    &&& spec_resolve_table(d, table) matches Ok(i)
    &&& spec_body(d) matches Ok(body)
    &&& spec_table_reason(d, body_tables(d, body)[i]) is None
    &&& rows_fit(rows, row_cells(d, table_rows(d, body_tables(d, body)[i])[0]).len() as int)
    &&& spec_anchor_row(d, table_rows(d, body_tables(d, body)[i]), i, after) matches Ok(a)
    &&& rows_added(d, body, i, a, rows, out)
}

/// Every step of a row insertion can be taken: between 1 and 100 rows, a simple table,
/// rows of its width, an anchor row, a namespace prefix for the new rows, readable table
/// texts, and an edited part that parses with the new rows after the anchor and every
/// other text as it was.
pub open spec fn rows_insertable(d: &SourceDocument, table: TableTarget, after: TableRowTarget, rows: Seq<Seq<String>>) -> bool {
    &&& 1 <= rows.len() <= MAX_TABLE_ROWS_PER_OPERATION
    &&& spec_resolve_table(d, table) matches Ok(i)
    &&& spec_body(d) matches Ok(body)
    &&& spec_table_reason(d, body_tables(d, body)[i]) is None
    &&& rows_fit(rows, row_cells(d, table_rows(d, body_tables(d, body)[i])[0]).len() as int)
    &&& spec_anchor_row(d, table_rows(d, body_tables(d, body)[i]), i, after) matches Ok(a)
    &&& spec_word_prefix(
        d,
        prefix_row(
            first_template(d, table_rows(d, body_tables(d, body)[i]), table_rows(d, body_tables(d, body)[i])[a], 0),
            table_rows(d, body_tables(d, body)[i])[a],
        ).0 as int,
        "tr".spec_bytes(),
    ) matches Some(prefix)
    &&& tables_texts(d, body_tables(d, body)) matches Some(all)
    &&& crate::mutation::table_edit::tables_read_back_all(
        d.bytes@.subrange(0, d.spec_span(table_rows(d, body_tables(d, body)[i])[a].0 as int).end as int)
            + new_rows_markup(
            d,
            first_template(d, table_rows(d, body_tables(d, body)[i]), table_rows(d, body_tables(d, body)[i])[a], 0),
            prefix,
            rows,
            rows.len() as int,
        ) + d.bytes@.subrange(d.spec_span(table_rows(d, body_tables(d, body)[i])[a].0 as int).end as int, d.bytes@.len() as int),
        rows_inserted(all, i, a, rows),
    )
}

fn string_bytes(s: &String) -> (r: Vec<u8>)
    ensures
        r@ == vstd::utf8::encode_utf8(s@),
{
    crate::bytes::copy_bytes(s.as_str().as_bytes())
}

fn copy_texts(v: &Vec<Vec<u8>>) -> (r: Vec<Vec<u8>>)
    ensures
        texts_view(r@) == texts_view(v@),
{
    let mut out: Vec<Vec<u8>> = Vec::new();
    let mut k: usize = 0;
    while k < v.len()
        invariant
            k <= v@.len(),
            texts_view(out@) == texts_view(v@).take(k as int),
        decreases v@.len() - k,
    {
        let ghost before = out@;
        out.push(crate::bytes::copy_bytes(v[k].as_slice()));
        assert(texts_view(out@) =~= texts_view(before).push(out@.last()@));
        assert(texts_view(out@) =~= texts_view(v@).take(k as int + 1));
        k += 1;
    }
    assert(texts_view(v@).take(v@.len() as int) =~= texts_view(v@));
    out
}

fn row_bytes(row: &Vec<String>) -> (r: Vec<Vec<u8>>)
    ensures
        texts_view(r@) == row@.map_values(|c: String| vstd::utf8::encode_utf8(c@)),
{
    let mut out: Vec<Vec<u8>> = Vec::new();
    let mut k: usize = 0;
    while k < row.len()
        invariant
            k <= row@.len(),
            texts_view(out@) == row@.map_values(|c: String| vstd::utf8::encode_utf8(c@)).take(k as int),
        decreases row@.len() - k,
    {
        let ghost before = out@;
        out.push(string_bytes(&row[k]));
        assert(texts_view(out@) =~= texts_view(before).push(out@.last()@));
        assert(texts_view(out@) =~= row@.map_values(|c: String| vstd::utf8::encode_utf8(c@)).take(k as int + 1));
        k += 1;
    }
    assert(row@.map_values(|c: String| vstd::utf8::encode_utf8(c@)).take(row@.len() as int) =~= row@.map_values(
        |c: String| vstd::utf8::encode_utf8(c@),
    ));
    out
}

/// The table's texts with the new rows after row `a`.
fn spliced_rows(old_rows: &Vec<Vec<Vec<u8>>>, a: usize, rows: &Vec<Vec<String>>) -> (r: Vec<Vec<Vec<u8>>>)
    requires
        a < old_rows@.len(),
    ensures
        rows_view(r@) == rows_view(old_rows@).take(a + 1) + new_rows_text(rows_of(rows@)) + rows_view(old_rows@).skip(a + 1),
{
    let n = old_rows.len();
    let ghost added = new_rows_text(rows_of(rows@));
    let mut out: Vec<Vec<Vec<u8>>> = Vec::new();
    let mut k: usize = 0;
    while k <= a
        invariant
            n == old_rows@.len(),
            a < n,
            k <= a + 1,
            rows_view(out@) == rows_view(old_rows@).take(k as int),
        decreases a + 1 - k,
    {
        let ghost before = out@;
        out.push(copy_texts(&old_rows[k]));
        assert(rows_view(out@) =~= rows_view(before).push(texts_view(out@.last()@)));
        assert(rows_view(out@) =~= rows_view(old_rows@).take(k as int + 1));
        k += 1;
    }
    let mut j: usize = 0;
    while j < rows.len()
        invariant
            n == old_rows@.len(),
            a < n,
            j <= rows@.len(),
            added == new_rows_text(rows_of(rows@)),
            rows_view(out@) == rows_view(old_rows@).take(a + 1) + added.take(j as int),
        decreases rows@.len() - j,
    {
        let ghost before = out@;
        out.push(row_bytes(&rows[j]));
        assert(rows_view(out@) =~= rows_view(before).push(texts_view(out@.last()@)));
        assert(added[j as int] == rows@[j as int]@.map_values(|c: String| vstd::utf8::encode_utf8(c@)));
        assert(rows_view(out@) =~= rows_view(old_rows@).take(a + 1) + added.take(j as int + 1));
        j += 1;
    }
    assert(added.take(rows@.len() as int) =~= added);
    let mut m: usize = a + 1;
    while m < n
        invariant
            n == old_rows@.len(),
            a < n,
            a + 1 <= m <= n,
            rows_view(out@) == rows_view(old_rows@).take(a + 1) + added + rows_view(old_rows@).subrange(a + 1, m as int),
        decreases n - m,
    {
        let ghost before = out@;
        out.push(copy_texts(&old_rows[m]));
        assert(rows_view(out@) =~= rows_view(before).push(texts_view(out@.last()@)));
        assert(rows_view(out@) =~= rows_view(old_rows@).take(a + 1) + added + rows_view(old_rows@).subrange(a + 1, m as int + 1));
        m += 1;
    }
    assert(rows_view(old_rows@).subrange(a + 1, n as int) =~= rows_view(old_rows@).skip(a + 1));
    out
}

proof fn lemma_template_width(d: &SourceDocument, t: NodeId, template: NodeId)
    requires
        rectangular_table_of(d, t),
        table_rows(d, t).contains(template),
    ensures
        row_cells(d, template).len() == row_cells(d, table_rows(d, t)[0]).len(),
{
    let k = choose|k: int| 0 <= k < table_rows(d, t).len() && table_rows(d, t)[k] == template;
    assert(row_cells(d, table_rows(d, t)[k]).len() == row_cells(d, table_rows(d, t)[0]).len());
}

pub open spec fn rectangular_table_of(d: &SourceDocument, t: NodeId) -> bool {
    crate::mutation::table_edit::rectangular_table(d, t)
}

/// The markup of the new rows.
fn new_rows_fragment(source: &SourceDocument, template: Option<NodeId>, prefix: &Vec<u8>, rows: &Vec<Vec<String>>, width: usize) -> (r: Vec<u8>)
    requires
        source.wf(),
        rows_fit(rows_of(rows@), width as int),
        template matches Some(t) ==> source.valid_id(t) && safe_table_row(source, t) && row_cells(source, t).len() == width,
    ensures
        r@ == new_rows_markup(source, template, prefix@, rows_of(rows@), rows@.len() as int),
{
    let mut fragment: Vec<u8> = Vec::new();
    let mut j: usize = 0;
    while j < rows.len()
        invariant
            source.wf(),
            j <= rows@.len(),
            rows_fit(rows_of(rows@), width as int),
            template matches Some(t) ==> source.valid_id(t) && safe_table_row(source, t) && row_cells(source, t).len() == width,
            fragment@ == new_rows_markup(source, template, prefix@, rows_of(rows@), j as int),
        decreases rows@.len() - j,
    {
        assert(rows_of(rows@)[j as int] == rows@[j as int]@);
        match template {
            Some(t) => {
                push_template_row(&mut fragment, source, t, prefix.as_slice(), &rows[j]);
            },
            None => push_minimal_row(&mut fragment, prefix.as_slice(), &rows[j]),
        }
        j += 1;
    }
    fragment
}

/// The rows fit the width.
fn check_widths(rows: &Vec<Vec<String>>, width: usize) -> (r: Result<(), OperationFailure>)
    ensures
        match r {
            Ok(()) => rows_fit(rows_of(rows@), width as int),
            Err(e) => !rows_fit(rows_of(rows@), width as int) && e.code == FailureCode::PreconditionFailed,
        },
{
    let mut k: usize = 0;
    while k < rows.len()
        invariant
            k <= rows@.len(),
            forall|j: int| 0 <= j < k ==> (#[trigger] rows_of(rows@)[j]).len() == width,
        decreases rows@.len() - k,
    {
        assert(rows_of(rows@)[k as int] == rows@[k as int]@);
        if rows[k].len() != width {
            return Err(OperationFailure::failed(FailureCode::PreconditionFailed, "inserted row cell count must match the table column count"));
        }
        k += 1;
    }
    Ok(())
}

/// The tables' texts after the insertion.
fn expected_after_insertion(source: &SourceDocument, resolved: &ResolvedTable, a: usize, rows: &Vec<Vec<String>>) -> (r: Result<Vec<Vec<Vec<Vec<u8>>>>, OperationFailure>)
    requires
        source.wf(),
        spec_body(source) matches Ok(body) && resolved.index < body_tables(source, body).len()
            && resolved.table == body_tables(source, body)[resolved.index as int],
        source.valid_id(resolved.table),
        a < table_rows(source, resolved.table).len(),
    ensures
        r matches Ok(v) ==> spec_body(source) matches Ok(body) && tables_texts(source, body_tables(source, body)) matches Some(all)
            && tables_view(v@) == rows_inserted(all, resolved.index as int, a as int, rows_of(rows@)),
        r matches Err(e) ==> e.code == FailureCode::DocumentInvalid && (spec_body(source) matches Ok(body)
            && tables_texts(source, body_tables(source, body)) is None),
{
    let mut expected = all_table_rows(source)?;
    let old_rows = match table_texts(source, resolved.table) {
        Ok(v) => v,
        Err(e) => {
            proof {
                crate::mutation::table_edit::lemma_texts_at(source, body_tables(source, crate::mutation::table_edit::body_of(source)), resolved.index as int);
            }
            return Err(e);
        },
    };
    proof {
        crate::mutation::table_edit::lemma_texts_len(source, body_tables(source, crate::mutation::table_edit::body_of(source)));
        crate::mutation::table_edit::lemma_rows_len(source, table_rows(source, resolved.table));
        crate::mutation::table_edit::lemma_texts_at(source, body_tables(source, crate::mutation::table_edit::body_of(source)), resolved.index as int);
    }
    let new_rows = spliced_rows(&old_rows, a, rows);
    let ghost before = expected@;
    expected.set(resolved.index, new_rows);
    assert(tables_view(expected@) =~= tables_view(before).update(resolved.index as int, rows_view(new_rows@)));
    Ok(expected)
}

/// Inserts rows after an anchor row of a simple direct body table. The new rows copy the
/// first safe row other than the anchor (its row, cell, paragraph and run properties),
/// else are plain. The edited part is read back: the table must hold the new rows after
/// the anchor, and every other text must stay.
#[verifier::spinoff_prover]
/// The rows do not all have as many cells as the first row of the simple direct body
/// table the target names.
pub open spec fn rows_misfit(d: &SourceDocument, table: TableTarget, rows: Seq<Seq<String>>) -> bool {
    &&& spec_resolve_table(d, table) matches Ok(i)
    &&& crate::document::spec_body(d) matches Ok(b)
    &&& spec_table_reason(d, body_tables(d, b)[i]) is None
    &&& !rows_fit(rows, row_cells(d, table_rows(d, body_tables(d, b)[i])[0]).len() as int)
}

fn insert_rows_after(source: &SourceDocument, table: &TableTarget, after: &TableRowTarget, rows: &Vec<Vec<String>>) -> (r: Result<Vec<u8>, OperationFailure>)
    requires
        source.wf(),
    ensures
        (rows@.len() == 0 || rows@.len() > MAX_TABLE_ROWS_PER_OPERATION) ==> (r matches Err(e) && e.code == FailureCode::PreconditionFailed),
        (1 <= rows@.len() <= MAX_TABLE_ROWS_PER_OPERATION && spec_resolve_table(source, *table) is Err)
            ==> (r matches Err(e) && Err::<int, FailureCode>(e.code) == spec_resolve_table(source, *table)),
        r matches Ok(out) ==> insertion_resolved(source, *table, *after, rows_of(rows@), out@),
        r is Err ==> !rows_insertable(source, *table, *after, rows_of(rows@)),
        (1 <= rows@.len() <= MAX_TABLE_ROWS_PER_OPERATION && rows_misfit(source, *table, rows_of(rows@))) ==> (r matches Err(e)
            && e.code == FailureCode::PreconditionFailed),
{
    if rows.len() == 0 || rows.len() > MAX_TABLE_ROWS_PER_OPERATION {
        return Err(OperationFailure::failed(FailureCode::PreconditionFailed, "inserted rows must contain between 1 and 100 rows"));
    }
    let resolved = match resolve_table(source, table) {
        Ok(t) => t,
        Err(e) => return Err(e),
    };
    match table_mutation_reason(source, resolved.table) {
        Some(reason) => {
            return Err(unsupported("insert_table_row supports only simple rectangular tables without merges, nesting, or revisions").with_reason_code(reason.as_str()));
        },
        None => {},
    }
    let width = children_named(source, resolved.rows[0], "tc", "tc").len();
    check_widths(rows, width)?;
    let a = resolve_anchor_row(source, &resolved.rows, resolved.index, after)?;
    let anchor = resolved.rows[a];
    let template = template_row(source, &resolved.rows, anchor);
    proof {
        if template is Some {
            lemma_first_template(source, resolved.rows@, anchor, 0);
            lemma_template_width(source, resolved.table, template->0);
        }
    }
    let prefix_source = match template {
        Some(t) => t,
        None => anchor,
    };
    let prefix = word_prefix_for(source, prefix_source, "tr")?;
    let fragment = new_rows_fragment(source, template, &prefix, rows, width);
    let end = source.span(anchor).end;
    let out = apply_single_patch(source, Patch { span: SourceSpan { start: end, end }, replacement: fragment });
    let expected = expected_after_insertion(source, &resolved, a, rows)?;
    check_tables(&out, &expected)?;
    Ok(out)
}

/// Inserts one row after an anchor row of a simple direct body table.
pub fn insert_table_row_after_to_vec(source: &SourceDocument, operation: &InsertTableRowAfter) -> (r: Result<Vec<u8>, OperationFailure>)
    requires
        source.wf(),
    ensures
        spec_resolve_table(source, operation.table) matches Err(c) ==> r matches Err(e) && e.code == c,
        r matches Ok(out) ==> insertion_resolved(source, operation.table, operation.after, seq![operation.cells@], out@),
        r is Err ==> !rows_insertable(source, operation.table, operation.after, seq![operation.cells@]),
        rows_misfit(source, operation.table, seq![operation.cells@]) ==> (r matches Err(e) && e.code == FailureCode::PreconditionFailed),
{
    let mut cells: Vec<String> = Vec::new();
    let mut k: usize = 0;
    while k < operation.cells.len()
        invariant
            k <= operation.cells@.len(),
            cells@ == operation.cells@.take(k as int),
        decreases operation.cells@.len() - k,
    {
        cells.push(operation.cells[k].clone());
        assert(cells@ =~= operation.cells@.take(k as int + 1));
        k += 1;
    }
    assert(cells@ =~= operation.cells@);
    let mut rows: Vec<Vec<String>> = Vec::new();
    rows.push(cells);
    assert(rows_of(rows@) =~= seq![operation.cells@]);
    insert_rows_after(source, &operation.table, &operation.after, &rows)
}

/// Inserts several rows, in order, after an anchor row of a simple direct body table.
pub fn insert_table_rows_after_to_vec(source: &SourceDocument, operation: &InsertTableRowsAfter) -> (r: Result<Vec<u8>, OperationFailure>)
    requires
        source.wf(),
    ensures
        (operation.rows@.len() == 0 || operation.rows@.len() > MAX_TABLE_ROWS_PER_OPERATION) ==> (r matches Err(e)
            && e.code == FailureCode::PreconditionFailed),
        (1 <= operation.rows@.len() <= MAX_TABLE_ROWS_PER_OPERATION && spec_resolve_table(source, operation.table) is Err)
            ==> (r matches Err(e) && Err::<int, FailureCode>(e.code) == spec_resolve_table(source, operation.table)),
        r matches Ok(out) ==> insertion_resolved(source, operation.table, operation.after, rows_of(operation.rows@), out@),
        r is Err ==> !rows_insertable(source, operation.table, operation.after, rows_of(operation.rows@)),
        (1 <= operation.rows@.len() <= MAX_TABLE_ROWS_PER_OPERATION && rows_misfit(source, operation.table, rows_of(operation.rows@)))
            ==> (r matches Err(e) && e.code == FailureCode::PreconditionFailed),
{
    insert_rows_after(source, &operation.table, &operation.after, &operation.rows)
}

} // verus!
