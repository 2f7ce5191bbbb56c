use vstd::prelude::*;
use vstd::string::StringSliceAdditionalSpecFns;

use crate::bytes::push_bytes;
use crate::document::spec_body;
use crate::mutation::common::{
    apply_patches, arranged, attr_prefix, close_tag, disjoint, in_bounds, open_tag, patched, push_close, push_open,
    qualified, qualify, span_keys, spec_word_prefix, word_prefix_for, Patch,
};
use crate::mutation::page_setup::{attr_prefix_of, attribute_markup, push_attribute};
use crate::mutation::table::empty_element;
use crate::mutation::table_edit::{
    body_tables, reason_text, resolve_table, row_cells, spec_resolve_table, spec_table_reason, table_mutation_reason,
    table_rows, TableMutationReason,
};
use crate::numbers::{decimal_digits, format_u64};
use crate::order::stable_order;
use crate::protocol::{unsupported, FailureCode, OperationFailure, SetTableColumnWidths};
use crate::source::{NodeId, SourceDocument, SourceSpan};
use crate::wordml::{child, children_named, spec_child};

verus! {

/// The widest column a table may be given: 22 inches, in twips.
pub const MAX_COLUMN_TWIPS: u16 = 31680;

// ---------------------------------------------------------------------------
// Cell properties
// ---------------------------------------------------------------------------

/// Where and what to write to give a cell the property `value` named `local`: in place
/// of the cell's first such property; else at the end of its first `tcPr`, just before
/// that element's closing tag (of the length it has when written with `prefix`); else a
/// new `tcPr` holding `value` before the cell's first child. `None` for a cell with no
/// child, or a `tcPr` shorter than its closing tag.
pub open spec fn cell_property_edit(
    d: &SourceDocument,
    cell: NodeId,
    prefix: Seq<u8>,
    local: Seq<u8>,
    value: Seq<u8>,
) -> Option<(SourceSpan, Seq<u8>)> {
    let name = qualified(prefix, "tcPr".spec_bytes());
    match spec_child(d, cell.0 as int, "tcPr".spec_bytes()) {
        Some(props) => match spec_child(d, props.0 as int, local) {
            Some(existing) => Some((d.spec_span(existing.0 as int), value)),
            None => {
                let at = d.spec_span(props.0 as int).end - close_tag(name).len();
                if at >= 0 {
                    Some((SourceSpan { start: at as usize, end: at as usize }, value))
                } else {
                    None
                }
            },
        },
        None => if d.spec_children(cell.0 as int).len() == 0 {
            None
        } else {
            let at = d.spec_span(d.spec_children(cell.0 as int)[0].0 as int).start;
            Some((SourceSpan { start: at, end: at }, open_tag(name) + value + close_tag(name)))
        },
    }
}

/// Writes the cell property `value` named `local` (see `cell_property_edit`).
pub fn cell_property_patch(source: &SourceDocument, cell: NodeId, prefix: &[u8], local: &str, value: Vec<u8>) -> (r:
    Result<Patch, OperationFailure>)
    requires
        source.wf(),
        source.valid_id(cell),
    ensures
        match r {
            Ok(p) => cell_property_edit(source, cell, prefix@, local.spec_bytes(), value@) == Some((p.span, p.replacement@))
                && p.span.start <= p.span.end <= source.bytes@.len(),
            Err(e) => cell_property_edit(source, cell, prefix@, local.spec_bytes(), value@) is None
                && e.code == FailureCode::UnsupportedOperation,
        },
{
    let name = qualify(prefix, "tcPr");
    match child(source, cell, "tcPr") {
        Some(props) => match child(source, props, local) {
            Some(existing) => Ok(Patch { span: source.span(existing), replacement: value }),
            None => {
                let end = source.span(props).end;
                if end < 3 || end - 3 < name.len() {
                    return Err(unsupported("cell properties are shorter than their closing tag"));
                }
                let at = end - 3 - name.len();
                assert(close_tag(name@).len() == name@.len() + 3);
                Ok(Patch { span: SourceSpan { start: at, end: at }, replacement: value })
            },
        },
        None => {
            let kids = source.children(cell);
            let _end = source.subtree_end(cell);
            if kids.len() == 0 {
                return Err(unsupported("cell has no insertion boundary"));
            }
            let at = source.span(kids[0]).start;
            let mut replacement: Vec<u8> = Vec::new();
            push_open(&mut replacement, name.as_slice());
            push_bytes(&mut replacement, value.as_slice());
            push_close(&mut replacement, name.as_slice());
            Ok(Patch { span: SourceSpan { start: at, end: at }, replacement })
        },
    }
}

/// The edits, cell by cell, of the first `k` cells of a row; `None` when one fails.
pub open spec fn row_edits(
    d: &SourceDocument,
    cells: Seq<NodeId>,
    prefix: Seq<u8>,
    local: Seq<u8>,
    values: spec_fn(int) -> Seq<u8>,
    k: int,
) -> Option<Seq<(SourceSpan, Seq<u8>)>>
    decreases k,
{
    if k <= 0 {
        Some(seq![])
    } else {
        match row_edits(d, cells, prefix, local, values, k - 1) {
            Some(s) => match cell_property_edit(d, cells[k - 1], prefix, local, values(k - 1)) {
                Some(e) => Some(s.push(e)),
                None => None,
            },
            None => None,
        }
    }
}

proof fn lemma_row_edits_fail(
    d: &SourceDocument,
    cells: Seq<NodeId>,
    prefix: Seq<u8>,
    local: Seq<u8>,
    values: spec_fn(int) -> Seq<u8>,
    k: int,
    m: int,
)
    requires
        k <= m,
        row_edits(d, cells, prefix, local, values, k) is None,
    ensures
        row_edits(d, cells, prefix, local, values, m) is None,
    decreases m - k,
{
    if k < m {
        lemma_row_edits_fail(d, cells, prefix, local, values, k, m - 1);
    }
}

/// The patches as spans and the bytes put there.
pub open spec fn edits_of(ps: Seq<Patch>) -> Seq<(SourceSpan, Seq<u8>)> {
    Seq::new(ps.len(), |k: int| (ps[k].span, ps[k].replacement@))
}

// ---------------------------------------------------------------------------
// Column widths
// ---------------------------------------------------------------------------

/// One width per column, each positive and at most `MAX_COLUMN_TWIPS`.
pub open spec fn widths_fit(widths: Seq<u16>, columns: int) -> bool {
    widths.len() == columns && forall|k: int| 0 <= k < widths.len() ==> 0 < #[trigger] widths[k] <= MAX_COLUMN_TWIPS
}

/// `<gridCol w="…"/>` for each of the first `k` widths.
pub open spec fn grid_columns_markup(prefix: Seq<u8>, widths: Seq<u16>, k: int) -> Seq<u8>
    decreases k,
{
    if k <= 0 {
        seq![]
    } else {
        grid_columns_markup(prefix, widths, k - 1) + empty_element(
            prefix,
            "gridCol".spec_bytes(),
            attribute_markup(attr_prefix_of(prefix), "w".spec_bytes(), decimal_digits(widths[k - 1] as nat)),
        )
    }
}

/// The new grid: one column per width.
pub open spec fn width_grid_markup(prefix: Seq<u8>, widths: Seq<u16>) -> Seq<u8> {
    let name = qualified(prefix, "tblGrid".spec_bytes());
    open_tag(name) + grid_columns_markup(prefix, widths, widths.len() as int) + close_tag(name)
}

/// `<tcW w="…" type="dxa"/>` for a cell of the given width.
pub open spec fn cell_width_markup(prefix: Seq<u8>, width: u16) -> Seq<u8> {
    let a = attr_prefix_of(prefix);
    empty_element(
        prefix,
        "tcW".spec_bytes(),
        attribute_markup(a, "w".spec_bytes(), decimal_digits(width as nat)) + attribute_markup(
            a,
            "type".spec_bytes(),
            "dxa".spec_bytes(),
        ),
    )
}

/// The width edits of the first `k` rows: each row's cells, in order, get the widths of
/// their columns.
pub open spec fn rows_width_edits(d: &SourceDocument, rows: Seq<NodeId>, prefix: Seq<u8>, widths: Seq<u16>, k: int) -> Option<
    Seq<(SourceSpan, Seq<u8>)>,
>
    decreases k,
{
    if k <= 0 {
        Some(seq![])
    } else {
        let cells = row_cells(d, rows[k - 1]);
        match rows_width_edits(d, rows, prefix, widths, k - 1) {
            Some(s) => match row_edits(
                d,
                cells,
                prefix,
                "tcW".spec_bytes(),
                |j: int| cell_width_markup(prefix, widths[j]),
                cells.len() as int,
            ) {
                Some(e) => Some(s + e),
                None => None,
            },
            None => None,
        }
    }
}

proof fn lemma_rows_width_edits_fail(d: &SourceDocument, rows: Seq<NodeId>, prefix: Seq<u8>, widths: Seq<u16>, k: int, m: int)
    requires
        k <= m,
        rows_width_edits(d, rows, prefix, widths, k) is None,
    ensures
        rows_width_edits(d, rows, prefix, widths, m) is None,
    decreases m - k,
{
    if k < m {
        lemma_rows_width_edits_fail(d, rows, prefix, widths, k, m - 1);
    }
}

/// What setting the column widths asks of the part, before any patch is applied: the
/// table, then a simple one, the widths, its namespace prefix, its grid, and an insertion
/// point in every cell; the first that fails gives the error (with the reason a table
/// cannot be edited). On success: the new grid in place of the old, then a width for each
/// cell, row by row.
pub open spec fn width_plan(d: &SourceDocument, op: SetTableColumnWidths) -> Result<
    Seq<(SourceSpan, Seq<u8>)>,
    (FailureCode, Option<TableMutationReason>),
> {
    match spec_resolve_table(d, op.table) {
        Err(c) => Err((c, None)),
        Ok(i) => {
            let t = body_tables(d, spec_body(d)->Ok_0)[i];
            let rows = table_rows(d, t);
            match spec_table_reason(d, t) {
                Some(reason) => Err((FailureCode::UnsupportedOperation, Some(reason))),
                None => if !widths_fit(op.widths_twips@, row_cells(d, rows[0]).len() as int) {
                    Err((FailureCode::InvalidOperation, None))
                } else {
                    match spec_word_prefix(d, t.0 as int, "tbl".spec_bytes()) {
                        None => Err((FailureCode::UnsupportedOperation, None)),
                        Some(prefix) => match spec_child(d, t.0 as int, "tblGrid".spec_bytes()) {
                            None => Err((FailureCode::UnsupportedOperation, None)),
                            Some(grid) => match rows_width_edits(d, rows, prefix, op.widths_twips@, rows.len() as int) {
                                None => Err((FailureCode::UnsupportedOperation, None)),
                                Some(cells) => Ok(
                                    seq![(d.spec_span(grid.0 as int), width_grid_markup(prefix, op.widths_twips@))] + cells,
                                ),
                            },
                        },
                    }
                },
            }
        },
    }
}

fn widths_in_range(widths: &Vec<u16>) -> (r: bool)
    ensures
        r == widths_fit(widths@, widths@.len() as int),
{
    let mut k: usize = 0;
    while k < widths.len()
        invariant
            k <= widths@.len(),
            forall|j: int| 0 <= j < k ==> 0 < #[trigger] widths@[j] <= MAX_COLUMN_TWIPS,
        decreases widths@.len() - k,
    {
        if widths[k] == 0 || widths[k] > MAX_COLUMN_TWIPS {
            return false;
        }
        k += 1;
    }
    true
}

fn grid_fragment(prefix: &[u8], widths: &Vec<u16>) -> (r: Vec<u8>)
    ensures
        r@ == width_grid_markup(prefix@, widths@),
{
    let name = qualify(prefix, "tblGrid");
    let column = qualify(prefix, "gridCol");
    let a = attr_prefix(prefix);
    let mut out: Vec<u8> = Vec::new();
    push_open(&mut out, name.as_slice());
    let ghost head = out@;
    let mut k: usize = 0;
    while k < widths.len()
        invariant
            k <= widths@.len(),
            name@ == qualified(prefix@, "tblGrid".spec_bytes()),
            column@ == qualified(prefix@, "gridCol".spec_bytes()),
            a@ == attr_prefix_of(prefix@),
            head == open_tag(name@),
            out@ == head + grid_columns_markup(prefix@, widths@, k as int),
        decreases widths@.len() - k,
    {
        let ghost before = out@;
        out.push(0x3cu8);
        push_bytes(&mut out, column.as_slice());
        push_attribute(&mut out, a.as_slice(), "w", format_u64(widths[k] as u64).as_slice());
        out.push(0x2fu8);
        out.push(0x3eu8);
        assert(out@ =~= before + empty_element(
            prefix@,
            "gridCol".spec_bytes(),
            attribute_markup(a@, "w".spec_bytes(), decimal_digits(widths@[k as int] as nat)),
        ));
        assert(out@ =~= head + grid_columns_markup(prefix@, widths@, k + 1));
        k += 1;
    }
    push_close(&mut out, name.as_slice());
    out
}

fn cell_width_fragment(prefix: &[u8], width: u16) -> (r: Vec<u8>)
    ensures
        r@ == cell_width_markup(prefix@, width),
{
    let a = attr_prefix(prefix);
    let mut out: Vec<u8> = Vec::new();
    out.push(0x3cu8);
    push_bytes(&mut out, qualify(prefix, "tcW").as_slice());
    push_attribute(&mut out, a.as_slice(), "w", format_u64(width as u64).as_slice());
    push_attribute(&mut out, a.as_slice(), "type", "dxa".as_bytes());
    out.push(0x2fu8);
    out.push(0x3eu8);
    assert(out@ =~= cell_width_markup(prefix@, width));
    out
}

/// The width patches of every cell of the table, row by row.
#[verifier::rlimit(40)]
fn width_patches(source: &SourceDocument, rows: &Vec<NodeId>, prefix: &[u8], widths: &Vec<u16>, patches: &mut Vec<Patch>) -> (r:
    Result<(), OperationFailure>)
    requires
        source.wf(),
        forall|k: int| 0 <= k < rows@.len() ==> source.valid_id(#[trigger] rows@[k]),
        forall|k: int| 0 <= k < rows@.len() ==> row_cells(source, #[trigger] rows@[k]).len() == widths@.len(),
        in_bounds(old(patches)@, source.bytes@.len() as int),
    ensures
        match r {
            Ok(()) => rows_width_edits(source, rows@, prefix@, widths@, rows@.len() as int) matches Some(e)
                && edits_of(final(patches)@) == edits_of(old(patches)@) + e
                && in_bounds(final(patches)@, source.bytes@.len() as int),
            Err(e) => rows_width_edits(source, rows@, prefix@, widths@, rows@.len() as int) is None
                && e.code == FailureCode::UnsupportedOperation,
        },
{
    let ghost start = patches@;
    let ghost values = |j: int| cell_width_markup(prefix@, widths@[j]);
    let mut k: usize = 0;
    while k < rows.len()
        invariant
            source.wf(),
            forall|x: int| 0 <= x < rows@.len() ==> source.valid_id(#[trigger] rows@[x]),
            forall|x: int| 0 <= x < rows@.len() ==> row_cells(source, #[trigger] rows@[x]).len() == widths@.len(),
            values == (|j: int| cell_width_markup(prefix@, widths@[j])),
            k <= rows@.len(),
            rows_width_edits(source, rows@, prefix@, widths@, k as int) matches Some(e) && edits_of(patches@)
                == edits_of(start) + e,
            in_bounds(patches@, source.bytes@.len() as int),
        decreases rows@.len() - k,
    {
        let cells = children_named(source, rows[k], "tc", "tc");
        let ghost row_start = patches@;
        let ghost done = rows_width_edits(source, rows@, prefix@, widths@, k as int)->Some_0;
        let mut j: usize = 0;
        while j < cells.len()
            invariant
                source.wf(),
                k < rows@.len(),
                cells@ == row_cells(source, rows@[k as int]),
                rows_width_edits(source, rows@, prefix@, widths@, k as int) == Some(done),
                forall|x: int| 0 <= x < cells@.len() ==> source.valid_id(#[trigger] cells@[x]),
                cells@.len() == widths@.len(),
                values == (|x: int| cell_width_markup(prefix@, widths@[x])),
                j <= cells@.len(),
                row_edits(source, cells@, prefix@, "tcW".spec_bytes(), values, j as int) matches Some(e) && edits_of(
                    patches@,
                ) == edits_of(row_start) + e,
                in_bounds(patches@, source.bytes@.len() as int),
            decreases cells@.len() - j,
        {
            let ghost before = patches@;
            let res = cell_property_patch(source, cells[j], prefix, "tcW", cell_width_fragment(prefix, widths[j]));
            match res {
                Ok(p) => {
                    patches.push(p);
                    assert(edits_of(patches@) =~= edits_of(before).push((p.span, p.replacement@)));
                },
                Err(e) => {
                    proof {
                        lemma_row_edits_fail(source, cells@, prefix@, "tcW".spec_bytes(), values, j as int + 1, cells@.len() as int);
                        lemma_rows_width_edits_fail(source, rows@, prefix@, widths@, k as int + 1, rows@.len() as int);
                    }
                    return Err(e);
                },
            }
            j += 1;
        }
        proof {
            let e = row_edits(source, cells@, prefix@, "tcW".spec_bytes(), values, cells@.len() as int)->Some_0;
            assert(values =~= (|x: int| cell_width_markup(prefix@, widths@[x])));
            assert(edits_of(patches@) =~= edits_of(start) + (done + e));
        }
        k += 1;
    }
    Ok(())
}

/// Sets the width of every column of a simple direct body table: the grid is rewritten
/// with one column per width, and every cell gets the width of its column (in place of
/// its width, at the end of its properties, or in new properties).
#[verifier::spinoff_prover]
#[verifier::rlimit(40)]
pub fn set_table_column_widths_to_vec(source: &SourceDocument, operation: &SetTableColumnWidths) -> (r: Result<
    Vec<u8>,
    OperationFailure,
>)
    requires
        source.wf(),
    ensures
        width_plan(source, *operation) matches Err((c, reason)) ==> r matches Err(e) && e.code == c && match reason {
            Some(x) => e.reason_code matches Some(s) && s@ == reason_text(x),
            None => true,
        },
        width_plan(source, *operation) matches Ok(edits) ==> exists|ps: Seq<Patch>, order: Seq<usize>|
            edits_of(ps) == edits && stable_order(order, span_keys(ps), ps.len() as int) && match r {
                Ok(out) => disjoint(arranged(ps, order)) && out@ == patched(source.bytes@, arranged(ps, order)),
                Err(e) => !disjoint(arranged(ps, order)) && e.code == FailureCode::UnsupportedOperation,
            },
{
    let resolved = resolve_table(source, &operation.table)?;
    match table_mutation_reason(source, resolved.table) {
        Some(reason) => {
            return Err(unsupported("set_table_column_widths supports only simple rectangular tables").with_reason_code(
                reason.as_str(),
            ));
        },
        None => {},
    }
    let columns = children_named(source, resolved.rows[0], "tc", "tc").len();
    if operation.widths_twips.len() != columns {
        return Err(OperationFailure::failed(FailureCode::InvalidOperation, "table widths must be positive sane twips, one per column"));
    }
    if !widths_in_range(&operation.widths_twips) {
        return Err(OperationFailure::failed(FailureCode::InvalidOperation, "table widths must be positive sane twips, one per column"));
    }
    let prefix = word_prefix_for(source, resolved.table, "tbl")?;
    let grid = match child(source, resolved.table, "tblGrid") {
        Some(g) => g,
        None => return Err(unsupported("table has no grid")),
    };
    let mut patches: Vec<Patch> = Vec::new();
    patches.push(Patch { span: source.span(grid), replacement: grid_fragment(prefix.as_slice(), &operation.widths_twips) });
    let ghost first = patches@;
    proof {
        assert forall|x: int| 0 <= x < resolved.rows@.len() implies row_cells(source, #[trigger] resolved.rows@[x]).len()
            == operation.widths_twips@.len() by {
            assert(row_cells(source, table_rows(source, resolved.table)[x]).len() == row_cells(
                source,
                table_rows(source, resolved.table)[0],
            ).len());
        }
    }
    width_patches(source, &resolved.rows, prefix.as_slice(), &operation.widths_twips, &mut patches)?;
    let ghost ps = patches@;
    proof {
        assert(edits_of(first) =~= seq![(source.spec_span(grid.0 as int), width_grid_markup(prefix@, operation.widths_twips@))]);
    }
    apply_patches(source, patches)
}

} // verus!
