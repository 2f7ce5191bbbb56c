use vstd::prelude::*;
use vstd::string::StringSliceAdditionalSpecFns;

use crate::bytes::push_bytes;
use crate::document::spec_body;
use crate::mutation::common::{
    apply_patches, arranged, attr_prefix, disjoint, patched, qualify, span_keys, spec_word_prefix, word_prefix_for,
    Patch,
};
use crate::mutation::page_setup::{attr_prefix_of, attribute_markup, push_attribute};
use crate::mutation::table::empty_element;
use crate::mutation::table_cell::{failure_is, resolve_table_cell_in_table, spec_resolve_cell};
use crate::mutation::table_edit::{
    body_tables, cell_texts, cells_text, reason_text, resolve_table, row_cells, spec_resolve_table, spec_table_reason,
    table_mutation_reason, table_rows, texts_view,
};
use crate::mutation::table_width::{cell_property_edit, cell_property_patch, edits_of};
use crate::order::stable_order;
use crate::protocol::{unsupported, FailureCode, OperationFailure, SetTableCellShading, TableCellShadingUpdate};
use crate::source::{NodeId, SourceDocument, SourceSpan};
use crate::wordml::{child, spec_child};

verus! {

/// The most cells one edit may change.
pub const MAX_TABLE_CELL_UPDATES: usize = 100;

/// An ASCII hexadecimal digit.
pub open spec fn hex_digit(b: u8) -> bool {
    (0x30u8 <= b <= 0x39u8) || (0x41u8 <= b <= 0x46u8) || (0x61u8 <= b <= 0x66u8)
}

/// A fill is six hexadecimal digits (an RGB colour); clearing takes none.
pub open spec fn fill_ok(fill: Option<String>) -> bool {
    match fill {
        None => true,
        Some(f) => {
            let b = vstd::utf8::encode_utf8(f@);
            b.len() == 6 && forall|k: int| 0 <= k < b.len() ==> hex_digit(#[trigger] b[k])
        },
    }
}

/// ASCII letters made upper case, other bytes kept.
pub open spec fn ascii_upper(b: Seq<u8>) -> Seq<u8> {
    b.map_values(|x: u8| if 0x61u8 <= x <= 0x7au8 { (x - 32) as u8 } else { x })
}

/// `<shd val="clear" color="auto" fill="RRGGBB"/>` for a fill, in upper case; nothing
/// to clear the shading.
pub open spec fn shading_value(prefix: Seq<u8>, fill: Option<String>) -> Seq<u8> {
    let a = attr_prefix_of(prefix);
    match fill {
        None => seq![],
        Some(f) => empty_element(
            prefix,
            "shd".spec_bytes(),
            attribute_markup(a, "val".spec_bytes(), "clear".spec_bytes()) + attribute_markup(
                a,
                "color".spec_bytes(),
                "auto".spec_bytes(),
            ) + attribute_markup(a, "fill".spec_bytes(), ascii_upper(vstd::utf8::encode_utf8(f@))),
        ),
    }
}

/// The shading edit of one cell, in the cell's namespace prefix: the cell's shading is
/// replaced (or cleared), else added to its properties, else given new properties; a
/// cell without properties has no shading to clear.
pub open spec fn shading_edit(d: &SourceDocument, cell: NodeId, fill: Option<String>) -> Result<(SourceSpan, Seq<u8>), FailureCode> {
    match spec_word_prefix(d, cell.0 as int, "tc".spec_bytes()) {
        None => Err(FailureCode::UnsupportedOperation),
        Some(prefix) => {
            let value = shading_value(prefix, fill);
            if spec_child(d, cell.0 as int, "tcPr".spec_bytes()) is None && value.len() == 0 {
                Err(FailureCode::PreconditionFailed)
            } else {
                match cell_property_edit(d, cell, prefix, "shd".spec_bytes(), value) {
                    Some(e) => Ok(e),
                    None => Err(FailureCode::UnsupportedOperation),
                }
            }
        },
    }
}

/// The cells the first `k` updates name, in order: each update's fill must be valid,
/// its cell must resolve, and no cell may be named twice; the first that fails gives
/// the error.
pub open spec fn shading_targets(
    d: &SourceDocument,
    table_index: int,
    rows: Seq<NodeId>,
    headers: Seq<Seq<u8>>,
    updates: Seq<TableCellShadingUpdate>,
    k: int,
) -> Result<Seq<NodeId>, (FailureCode, Option<Seq<char>>)>
    decreases k,
{
    if k <= 0 {
        Ok(seq![])
    } else {
        match shading_targets(d, table_index, rows, headers, updates, k - 1) {
            Err(e) => Err(e),
            Ok(cells) => {
                let u = updates[k - 1];
                if !fill_ok(u.fill) {
                    Err((FailureCode::InvalidOperation, None))
                } else {
                    match spec_resolve_cell(d, table_index, rows, headers, u.target) {
                        Err(e) => Err(e),
                        Ok((r, c)) => {
                            let cell = row_cells(d, rows[r])[c];
                            if cells.contains(cell) {
                                Err((FailureCode::PreconditionFailed, None))
                            } else {
                                Ok(cells.push(cell))
                            }
                        },
                    }
                }
            },
        }
    }
}

/// The shading edits of the first `k` cells, each with its update's fill.
pub open spec fn shading_edits(
    d: &SourceDocument,
    cells: Seq<NodeId>,
    updates: Seq<TableCellShadingUpdate>,
    k: int,
) -> Result<Seq<(SourceSpan, Seq<u8>)>, FailureCode>
    decreases k,
{
    if k <= 0 {
        Ok(seq![])
    } else {
        match shading_edits(d, cells, updates, k - 1) {
            Err(c) => Err(c),
            Ok(s) => match shading_edit(d, cells[k - 1], updates[k - 1].fill) {
                Err(c) => Err(c),
                Ok(e) => Ok(s.push(e)),
            },
        }
    }
}

/// What shading cells asks of the part, before any patch is applied: one to a hundred
/// updates, the table, its header texts, a simple table, the cells, then each cell's
/// edit; the first that fails gives the error and its reason code.
pub open spec fn shading_plan(d: &SourceDocument, op: SetTableCellShading) -> Result<
    Seq<(SourceSpan, Seq<u8>)>,
    (FailureCode, Option<Seq<char>>),
> {
    let n = op.updates@.len();
    if n == 0 || n > MAX_TABLE_CELL_UPDATES {
        Err((FailureCode::PreconditionFailed, None))
    } else {
        match spec_resolve_table(d, op.table) {
            Err(c) => Err((c, None)),
            Ok(i) => {
                let t = body_tables(d, spec_body(d)->Ok_0)[i];
                let rows = table_rows(d, t);
                match cells_text(d, row_cells(d, rows[0])) {
                    None => Err((FailureCode::DocumentInvalid, None)),
                    Some(headers) => match spec_table_reason(d, t) {
                        Some(reason) => Err((FailureCode::UnsupportedOperation, Some(reason_text(reason)))),
                        None => match shading_targets(d, i, rows, headers, op.updates@, n as int) {
                            Err(e) => Err(e),
                            Ok(cells) => match shading_edits(d, cells, op.updates@, n as int) {
                                Err(c) => Err((c, None)),
                                Ok(edits) => Ok(edits),
                            },
                        },
                    },
                }
            },
        }
    }
}

fn all_hex(b: &[u8]) -> (r: bool)
    ensures
        r == forall|k: int| 0 <= k < b@.len() ==> hex_digit(#[trigger] b@[k]),
{
    let mut k: usize = 0;
    while k < b.len()
        invariant
            k <= b@.len(),
            forall|j: int| 0 <= j < k ==> hex_digit(#[trigger] b@[j]),
        decreases b@.len() - k,
    {
        let x = b[k];
        if !((0x30u8 <= x && x <= 0x39u8) || (0x41u8 <= x && x <= 0x46u8) || (0x61u8 <= x && x <= 0x66u8)) {
            assert(!hex_digit(b@[k as int]));
            return false;
        }
        k += 1;
    }
    true
}

fn fill_valid(fill: &Option<String>) -> (r: bool)
    ensures
        r == fill_ok(*fill),
{
    match fill {
        None => true,
        Some(f) => {
            let b = f.as_str().as_bytes();
            assert(b@ == vstd::utf8::encode_utf8(f@));
            b.len() == 6 && all_hex(b)
        },
    }
}

fn shading_fragment(prefix: &[u8], fill: &Option<String>) -> (r: Vec<u8>)
    ensures
        r@ == shading_value(prefix@, *fill),
{
    let mut out: Vec<u8> = Vec::new();
    match fill {
        None => {
            assert(out@ =~= shading_value(prefix@, *fill));
        },
        Some(f) => {
            let b = f.as_str().as_bytes();
            assert(b@ == vstd::utf8::encode_utf8(f@));
            let mut upper: Vec<u8> = Vec::new();
            let mut k: usize = 0;
            while k < b.len()
                invariant
                    k <= b@.len(),
                    upper@ == ascii_upper(b@.take(k as int)),
                decreases b@.len() - k,
            {
                let x = b[k];
                let y = if 0x61u8 <= x && x <= 0x7au8 { x - 32 } else { x };
                upper.push(y);
                assert(upper@ =~= ascii_upper(b@.take(k as int + 1)));
                k += 1;
            }
            assert(b@.take(b@.len() as int) =~= b@);
            let a = attr_prefix(prefix);
            out.push(0x3cu8);
            push_bytes(&mut out, qualify(prefix, "shd").as_slice());
            push_attribute(&mut out, a.as_slice(), "val", "clear".as_bytes());
            push_attribute(&mut out, a.as_slice(), "color", "auto".as_bytes());
            push_attribute(&mut out, a.as_slice(), "fill", upper.as_slice());
            out.push(0x2fu8);
            out.push(0x3eu8);
            assert(out@ =~= shading_value(prefix@, *fill));
        },
    }
    out
}

fn shading_patch(source: &SourceDocument, cell: NodeId, fill: &Option<String>) -> (r: Result<Patch, OperationFailure>)
    requires
        source.wf(),
        source.valid_id(cell),
    ensures
        match r {
            Ok(p) => shading_edit(source, cell, *fill) == Ok::<(SourceSpan, Seq<u8>), FailureCode>((p.span, p.replacement@))
                && p.span.start <= p.span.end <= source.bytes@.len(),
            Err(e) => shading_edit(source, cell, *fill) == Err::<(SourceSpan, Seq<u8>), FailureCode>(e.code),
        },
{
    let prefix = word_prefix_for(source, cell, "tc")?;
    let value = shading_fragment(prefix.as_slice(), fill);
    if value.len() == 0 {
        match child(source, cell, "tcPr") {
            None => {
                return Err(OperationFailure::failed(FailureCode::PreconditionFailed, "cell has no shading to clear"));
            },
            Some(_) => {},
        }
    }
    cell_property_patch(source, cell, prefix.as_slice(), "shd", value)
}

fn contains_cell(cells: &Vec<NodeId>, cell: NodeId) -> (r: bool)
    ensures
        r == cells@.contains(cell),
{
    let mut k: usize = 0;
    while k < cells.len()
        invariant
            k <= cells@.len(),
            forall|j: int| 0 <= j < k ==> cells@[j] != cell,
        decreases cells@.len() - k,
    {
        if cells[k].0 == cell.0 {
            assert(cells@[k as int] == cell);
            return true;
        }
        k += 1;
    }
    false
}

/// Resolves the cells of every update, in order (see `shading_targets`).
#[verifier::rlimit(40)]
fn resolve_shading_targets(
    source: &SourceDocument,
    table_index: usize,
    rows: &Vec<NodeId>,
    headers: &Vec<Vec<u8>>,
    updates: &Vec<TableCellShadingUpdate>,
) -> (r: Result<Vec<NodeId>, OperationFailure>)
    requires
        source.wf(),
        forall|j: int| 0 <= j < rows@.len() ==> source.valid_id(#[trigger] rows@[j]),
        rows@.len() > 0,
        headers@.len() == row_cells(source, rows@[0]).len(),
        forall|j: int| 0 <= j < rows@.len() ==> row_cells(source, #[trigger] rows@[j]).len() == row_cells(source, rows@[0]).len(),
    ensures
        match r {
            Ok(cells) => shading_targets(source, table_index as int, rows@, texts_view(headers@), updates@, updates@.len() as int)
                == Ok::<Seq<NodeId>, (FailureCode, Option<Seq<char>>)>(cells@)
                && forall|j: int| 0 <= j < cells@.len() ==> source.valid_id(#[trigger] cells@[j]),
            Err(e) => shading_targets(source, table_index as int, rows@, texts_view(headers@), updates@, updates@.len() as int) matches Err(x)
                && failure_is(e, x),
        },
{
    let mut cells: Vec<NodeId> = Vec::new();
    let mut k: usize = 0;
    while k < updates.len()
        invariant
            source.wf(),
            forall|j: int| 0 <= j < rows@.len() ==> source.valid_id(#[trigger] rows@[j]),
            rows@.len() > 0,
            headers@.len() == row_cells(source, rows@[0]).len(),
            forall|j: int| 0 <= j < rows@.len() ==> row_cells(source, #[trigger] rows@[j]).len() == row_cells(source, rows@[0]).len(),
            k <= updates@.len(),
            shading_targets(source, table_index as int, rows@, texts_view(headers@), updates@, k as int)
                == Ok::<Seq<NodeId>, (FailureCode, Option<Seq<char>>)>(cells@),
            forall|j: int| 0 <= j < cells@.len() ==> source.valid_id(#[trigger] cells@[j]),
        decreases updates@.len() - k,
    {
        if !fill_valid(&updates[k].fill) {
            proof {
                lemma_targets_fail(source, table_index as int, rows@, texts_view(headers@), updates@, k as int + 1, updates@.len() as int);
            }
            return Err(OperationFailure::failed(FailureCode::InvalidOperation, "cell shading fill must be a 6-digit RGB hex value"));
        }
        let (_, _, cell) = match resolve_table_cell_in_table(source, table_index, rows, headers, &updates[k].target) {
            Ok(x) => x,
            Err(e) => {
                proof {
                    lemma_targets_fail(source, table_index as int, rows@, texts_view(headers@), updates@, k as int + 1, updates@.len() as int);
                }
                return Err(e);
            },
        };
        if contains_cell(&cells, cell) {
            proof {
                lemma_targets_fail(source, table_index as int, rows@, texts_view(headers@), updates@, k as int + 1, updates@.len() as int);
            }
            return Err(OperationFailure::failed(FailureCode::PreconditionFailed, "the same table cell was requested more than once"));
        }
        cells.push(cell);
        k += 1;
    }
    Ok(cells)
}

proof fn lemma_targets_fail(
    d: &SourceDocument,
    table_index: int,
    rows: Seq<NodeId>,
    headers: Seq<Seq<u8>>,
    updates: Seq<TableCellShadingUpdate>,
    k: int,
    m: int,
)
    requires
        k <= m,
        shading_targets(d, table_index, rows, headers, updates, k) is Err,
    ensures
        shading_targets(d, table_index, rows, headers, updates, m) == shading_targets(d, table_index, rows, headers, updates, k),
    decreases m - k,
{
    if k < m {
        lemma_targets_fail(d, table_index, rows, headers, updates, k, m - 1);
    }
}

proof fn lemma_edits_fail(d: &SourceDocument, cells: Seq<NodeId>, updates: Seq<TableCellShadingUpdate>, k: int, m: int)
    requires
        k <= m,
        shading_edits(d, cells, updates, k) is Err,
    ensures
        shading_edits(d, cells, updates, m) == shading_edits(d, cells, updates, k),
    decreases m - k,
{
    if k < m {
        lemma_edits_fail(d, cells, updates, k, m - 1);
    }
}

fn shading_patches(source: &SourceDocument, cells: &Vec<NodeId>, updates: &Vec<TableCellShadingUpdate>) -> (r: Result<
    Vec<Patch>,
    OperationFailure,
>)
    requires
        source.wf(),
        cells@.len() == updates@.len(),
        forall|j: int| 0 <= j < cells@.len() ==> source.valid_id(#[trigger] cells@[j]),
    ensures
        match r {
            Ok(ps) => shading_edits(source, cells@, updates@, cells@.len() as int) == Ok::<
                Seq<(SourceSpan, Seq<u8>)>,
                FailureCode,
            >(edits_of(ps@)) && crate::mutation::common::in_bounds(ps@, source.bytes@.len() as int),
            Err(e) => shading_edits(source, cells@, updates@, cells@.len() as int) == Err::<
                Seq<(SourceSpan, Seq<u8>)>,
                FailureCode,
            >(e.code),
        },
{
    let mut patches: Vec<Patch> = Vec::new();
    assert(edits_of(patches@) =~= Seq::<(SourceSpan, Seq<u8>)>::empty());
    let mut k: usize = 0;
    while k < cells.len()
        invariant
            source.wf(),
            cells@.len() == updates@.len(),
            forall|j: int| 0 <= j < cells@.len() ==> source.valid_id(#[trigger] cells@[j]),
            k <= cells@.len(),
            shading_edits(source, cells@, updates@, k as int) == Ok::<Seq<(SourceSpan, Seq<u8>)>, FailureCode>(
                edits_of(patches@),
            ),
            crate::mutation::common::in_bounds(patches@, source.bytes@.len() as int),
        decreases cells@.len() - k,
    {
        match shading_patch(source, cells[k], &updates[k].fill) {
            Ok(p) => {
                let ghost before = patches@;
                patches.push(p);
                assert(edits_of(patches@) =~= edits_of(before).push((p.span, p.replacement@)));
            },
            Err(e) => {
                proof {
                    lemma_edits_fail(source, cells@, updates@, k as int + 1, cells@.len() as int);
                }
                return Err(e);
            },
        }
        k += 1;
    }
    Ok(patches)
}

/// Sets or clears the shading of several cells of one simple direct body table, all or
/// none: every fill is checked and every cell resolved (none twice) before any patch is
/// made; each cell's shading is then replaced, cleared, or added.
#[verifier::spinoff_prover]
#[verifier::rlimit(40)]
pub fn set_table_cell_shading_to_vec(source: &SourceDocument, operation: &SetTableCellShading) -> (r: Result<
    Vec<u8>,
    OperationFailure,
>)
    requires
        source.wf(),
    ensures
        shading_plan(source, *operation) matches Err(x) ==> r matches Err(e) && failure_is(e, x),
        shading_plan(source, *operation) matches Ok(edits) ==> exists|ps: Seq<Patch>, order: Seq<usize>|
            edits_of(ps) == edits && stable_order(order, span_keys(ps), ps.len() as int) && match r {
                Ok(out) => disjoint(arranged(ps, order)) && out@ == patched(source.bytes@, arranged(ps, order)),
                Err(e) => !disjoint(arranged(ps, order)) && e.code == FailureCode::UnsupportedOperation,
            },
{
    if operation.updates.len() == 0 || operation.updates.len() > MAX_TABLE_CELL_UPDATES {
        return Err(OperationFailure::failed(FailureCode::PreconditionFailed, "table cell shading updates must contain between 1 and 100 updates"));
    }
    let resolved = match resolve_table(source, &operation.table) {
        Ok(t) => t,
        Err(e) => return Err(OperationFailure::failed(e.code, "table target was not resolved")),
    };
    let headers = match cell_texts(source, resolved.rows[0]) {
        Ok(h) => h,
        Err(_) => return Err(crate::mutation::common::document_invalid()),
    };
    match table_mutation_reason(source, resolved.table) {
        Some(reason) => {
            return Err(unsupported("set_table_cell_shading supports only simple rectangular tables").with_reason_code(
                reason.as_str(),
            ));
        },
        None => {},
    }
    proof {
        crate::mutation::table_column::lemma_cells_len(source, row_cells(source, resolved.rows@[0]));
    }
    let cells = resolve_shading_targets(source, resolved.index, &resolved.rows, &headers, &operation.updates)?;
    proof {
        lemma_targets_len(source, resolved.index as int, resolved.rows@, texts_view(headers@), operation.updates@, operation.updates@.len() as int);
    }
    let patches = match shading_patches(source, &cells, &operation.updates) {
        Ok(ps) => ps,
        Err(e) => return Err(OperationFailure::failed(e.code, "cell shading cannot be written")),
    };
    apply_patches(source, patches)
}

proof fn lemma_targets_len(
    d: &SourceDocument,
    table_index: int,
    rows: Seq<NodeId>,
    headers: Seq<Seq<u8>>,
    updates: Seq<TableCellShadingUpdate>,
    k: int,
)
    requires
        0 <= k,
    ensures
        shading_targets(d, table_index, rows, headers, updates, k) matches Ok(cells) ==> cells.len() == k,
    decreases k,
{
    if k > 0 {
        lemma_targets_len(d, table_index, rows, headers, updates, k - 1);
    }
}

} // verus!
