use vstd::prelude::*;
use vstd::string::StringSliceAdditionalSpecFns;

use crate::bytes::{copy_range, find_from, occurs_at};
use crate::mutation::common::document_invalid;
use crate::mutation::page_break::block_text;
use crate::mutation::table_column::column_mark;
use crate::mutation::table_edit::{cell_label_matches, label_matches, parse_row_handle, row_cells, spec_parse_row_handle, texts_view};
use crate::mutation::paragraph::all_children;
use crate::mutation::table_row::{first_cell_matches, safe_table_paragraph_child};
use crate::numbers::{parse_usize, unsigned_value};
use crate::protocol::{unsupported, FailureCode, OperationFailure, TableCellTarget};
use crate::source::{NodeId, SourceDocument};
use crate::wordml::{children_named, collect_text, named_among};

verus! {

// ---------------------------------------------------------------------------
// Cell handles
// ---------------------------------------------------------------------------

/// The table, row and column a cell handle (`tN:rM:cK`) names: split at its first `:c`,
/// the head read as a row handle.
pub open spec fn spec_parse_cell_handle(h: Seq<u8>) -> Option<(int, int, int)> {
    match column_mark(h) {
        Some(i) => match (spec_parse_row_handle(h.take(i)), unsigned_value(h.skip(i + 2))) {
            (Some((t, r)), Some(c)) => if c <= usize::MAX {
                Some((t, r, c))
            } else {
                None
            },
            _ => None,
        },
        None => None,
    }
}

pub fn parse_cell_handle(h: &[u8]) -> (r: Result<(usize, usize, usize), OperationFailure>)
    ensures
        match r {
            Ok((t, row, c)) => spec_parse_cell_handle(h@) == Some((t as int, row as int, c as int)),
            Err(e) => spec_parse_cell_handle(h@) is None && e.code == FailureCode::PreconditionFailed,
        },
{
    let n = h.len();
    let mut mark: Vec<u8> = Vec::new();
    mark.push(0x3au8);
    mark.push(0x63u8);
    assert(mark@ =~= seq![0x3au8, 0x63u8]);
    let i = match find_from(h, 0, mark.as_slice()) {
        Some(i) => i,
        None => {
            assert(!(exists|i: int| occurs_at(h@, i, seq![0x3au8, 0x63u8])));
            reveal(column_mark);
            return Err(OperationFailure::failed(FailureCode::PreconditionFailed, "cell handle is malformed"));
        },
    };
    proof {
        crate::mutation::table_column::lemma_column_mark(h@, i as int);
    }
    assert(occurs_at(h@, i as int, mark@));
    assert(i + 2 <= h@.len());
    let head = copy_range(h, 0, i);
    let tail = copy_range(h, i + 2, n);
    assert(head@ =~= h@.take(i as int));
    assert(tail@ =~= h@.skip(i as int + 2));
    let (t, row) = match parse_row_handle(head.as_slice()) {
        Ok(x) => x,
        Err(e) => return Err(e),
    };
    let c = match parse_usize(tail.as_slice()) {
        Some(v) => v,
        None => return Err(OperationFailure::failed(FailureCode::PreconditionFailed, "cell handle is malformed")),
    };
    Ok((t, row, c))
}

// ---------------------------------------------------------------------------
// Which cells hold editable text
// ---------------------------------------------------------------------------

/// Why a cell's text cannot be edited.
#[derive(Clone, Copy, Debug, PartialEq, Eq, Structural)]
pub enum CellTextReason {
    UnsafeCellStructure,
    UnsafeParagraphStructure,
    MultipleParagraphs,
}

/// The reason code of a reason.
pub open spec fn cell_reason_text(r: CellTextReason) -> Seq<char> {
    match r {
        CellTextReason::UnsafeCellStructure => "UNSAFE_CELL_STRUCTURE"@,
        CellTextReason::UnsafeParagraphStructure => "UNSAFE_PARAGRAPH_STRUCTURE"@,
        CellTextReason::MultipleParagraphs => "MULTIPLE_PARAGRAPHS"@,
    }
}

impl CellTextReason {
    pub fn as_str(&self) -> (r: &'static str)
        ensures
            r@ == cell_reason_text(*self),
    {
        match self {
            CellTextReason::UnsafeCellStructure => "UNSAFE_CELL_STRUCTURE",
            CellTextReason::UnsafeParagraphStructure => "UNSAFE_PARAGRAPH_STRUCTURE",
            CellTextReason::MultipleParagraphs => "MULTIPLE_PARAGRAPHS",
        }
    }
}

/// The paragraphs directly in a cell.
pub open spec fn cell_paragraphs(d: &SourceDocument, cell: NodeId) -> Seq<NodeId> {
    named_among(d, d.spec_children(cell.0 as int), "p".spec_bytes(), "p".spec_bytes())
}

/// Why a cell's text cannot be edited: no paragraph, several, or one holding more than
/// properties, plain runs and text; `None` for one plain paragraph.
pub open spec fn spec_cell_reason(d: &SourceDocument, cell: NodeId) -> Option<CellTextReason> {
    let ps = cell_paragraphs(d, cell);
    if ps.len() == 0 {
        Some(CellTextReason::UnsafeCellStructure)
    } else if ps.len() > 1 {
        Some(CellTextReason::MultipleParagraphs)
    } else if all_children(d, ps[0].0 as int, |c: int| safe_table_paragraph_child(d, c)) {
        None
    } else {
        Some(CellTextReason::UnsafeParagraphStructure)
    }
}

pub fn table_cell_text_reason(source: &SourceDocument, cell: NodeId) -> (r: Option<CellTextReason>)
    requires
        source.wf(),
        source.valid_id(cell),
    ensures
        r == spec_cell_reason(source, cell),
{
    let ps = children_named(source, cell, "p", "p");
    if ps.len() == 0 {
        Some(CellTextReason::UnsafeCellStructure)
    } else if ps.len() > 1 {
        Some(CellTextReason::MultipleParagraphs)
    } else if crate::mutation::table_row::is_safe_table_paragraph(source, ps[0]) {
        None
    } else {
        Some(CellTextReason::UnsafeParagraphStructure)
    }
}

// ---------------------------------------------------------------------------
// Resolving a cell
// ---------------------------------------------------------------------------

/// The indices, among `headers[1..k]`, of the headers that read as the label: the first
/// column labels rows and is never a target.
pub open spec fn cell_columns(headers: Seq<Seq<u8>>, label: Seq<char>, k: int) -> Seq<int>
    decreases k,
{
    if k <= 1 {
        seq![]
    } else {
        let c = cell_columns(headers, label, k - 1);
        if label_matches(headers[k - 1], label) {
            c.push(k - 1)
        } else {
            c
        }
    }
}

proof fn lemma_cell_columns(headers: Seq<Seq<u8>>, label: Seq<char>, k: int)
    ensures
        forall|j: int| 0 <= j < cell_columns(headers, label, k).len() ==> 1 <= #[trigger] cell_columns(headers, label, k)[j] < k,
    decreases k,
{
    if k > 1 {
        lemma_cell_columns(headers, label, k - 1);
        let c = cell_columns(headers, label, k - 1);
        assert forall|j: int| 0 <= j < cell_columns(headers, label, k).len() implies 1 <= #[trigger] cell_columns(
            headers,
            label,
            k,
        )[j] < k by {
            if j < c.len() {
                assert(cell_columns(headers, label, k)[j] == c[j]);
            }
        }
    }
}

/// The candidate cells among `rows[1..k]`: for each row whose first cell reads as the
/// row label, in order, one (row, column) pair per matching column, in order.
pub open spec fn cell_candidates(d: &SourceDocument, rows: Seq<NodeId>, label: Seq<char>, columns: Seq<int>, k: int) -> Seq<(int, int)>
    decreases k,
{
    if k <= 1 {
        seq![]
    } else {
        let c = cell_candidates(d, rows, label, columns, k - 1);
        if first_cell_matches(d, rows[k - 1], label) {
            c + columns.map_values(|col: int| (k - 1, col))
        } else {
            c
        }
    }
}

/// One candidate: the given occurrence, else the only one.
pub open spec fn pick_cell(c: Seq<(int, int)>, occurrence: Option<usize>) -> Result<(int, int), FailureCode> {
    match occurrence {
        Some(o) => if o < c.len() {
            Ok(c[o as int])
        } else {
            Err(FailureCode::TargetNotFound)
        },
        None => if c.len() == 0 {
            Err(FailureCode::TargetNotFound)
        } else if c.len() != 1 {
            Err(FailureCode::TargetAmbiguous)
        } else {
            Ok(c[0])
        },
    }
}

/// The row and column a target names in the table at `table_index` with these rows and
/// header texts, or the failure with its reason code: by handle (which must name this
/// table, and a row and column it has), else by the row's first-cell text and the
/// column's header (`TABLE_COLUMN_NOT_FOUND` when no header matches,
/// `TABLE_ROW_NOT_FOUND` when no row does). The cell must hold one plain paragraph
/// whose text can be read.
pub open spec fn spec_resolve_cell(
    d: &SourceDocument,
    table_index: int,
    rows: Seq<NodeId>,
    headers: Seq<Seq<u8>>,
    target: TableCellTarget,
) -> Result<(int, int), (FailureCode, Option<Seq<char>>)> {
    match spec_choose_cell(d, table_index, rows, headers, target) {
        Err(e) => Err(e),
        Ok((r, c)) => {
            let cell = row_cells(d, rows[r])[c];
            match spec_cell_reason(d, cell) {
                Some(x) => Err((FailureCode::UnsupportedOperation, Some(cell_reason_text(x)))),
                None => if block_text(d, cell) is None {
                    Err((FailureCode::DocumentInvalid, None))
                } else {
                    Ok((r, c))
                },
            }
        },
    }
}

/// The row and column a target names, before the cell itself is checked.
pub open spec fn spec_choose_cell(
    d: &SourceDocument,
    table_index: int,
    rows: Seq<NodeId>,
    headers: Seq<Seq<u8>>,
    target: TableCellTarget,
) -> Result<(int, int), (FailureCode, Option<Seq<char>>)> {
    match target.handle {
        Some(h) => match spec_parse_cell_handle(vstd::utf8::encode_utf8(h@)) {
            None => Err((FailureCode::PreconditionFailed, None)),
            Some((t, r, c)) => if t != table_index {
                Err((FailureCode::PreconditionFailed, None))
            } else if r >= rows.len() || c >= row_cells(d, rows[r]).len() {
                Err((FailureCode::TargetNotFound, None))
            } else {
                Ok((r, c))
            },
        },
        None => {
            let columns = cell_columns(headers, target.column_header@, headers.len() as int);
            let candidates = cell_candidates(d, rows, target.row_label@, columns, rows.len() as int);
            if columns.len() == 0 {
                Err((FailureCode::TargetNotFound, Some("TABLE_COLUMN_NOT_FOUND"@)))
            } else if candidates.len() == 0 {
                Err((FailureCode::TargetNotFound, Some("TABLE_ROW_NOT_FOUND"@)))
            } else {
                match pick_cell(candidates, target.occurrence) {
                    Ok(x) => Ok(x),
                    Err(code) => Err((code, None)),
                }
            }
        },
    }
}

/// A failure's code and reason code, as a resolution spec gives them.
pub open spec fn failure_is(e: OperationFailure, expected: (FailureCode, Option<Seq<char>>)) -> bool {
    &&& e.code == expected.0
    &&& match (e.reason_code, expected.1) {
        (Some(s), Some(t)) => s@ == t,
        (None, None) => true,
        _ => false,
    }
}

fn columns_for(headers: &Vec<Vec<u8>>, label: &String) -> (r: Vec<usize>)
    ensures
        cell_columns(texts_view(headers@), label@, headers@.len() as int) == r@.map_values(|x: usize| x as int),
        forall|j: int| 0 <= j < r@.len() ==> 1 <= #[trigger] r@[j] < headers@.len(),
{
    let mut found: Vec<usize> = Vec::new();
    if headers.len() == 0 {
        assert(found@.map_values(|x: usize| x as int) =~= Seq::<int>::empty());
        return found;
    }
    let mut k: usize = 1;
    while k < headers.len()
        invariant
            1 <= k <= headers@.len(),
            cell_columns(texts_view(headers@), label@, k as int) == found@.map_values(|x: usize| x as int),
            forall|j: int| 0 <= j < found@.len() ==> 1 <= #[trigger] found@[j] < k,
        decreases headers@.len() - k,
    {
        if cell_label_matches(&headers[k], label) {
            let ghost before = found@;
            found.push(k);
            assert(found@.map_values(|x: usize| x as int) =~= before.map_values(|x: usize| x as int).push(k as int));
        }
        k += 1;
    }
    found
}

fn row_label_matches(source: &SourceDocument, row: NodeId, label: &String) -> (r: bool)
    requires
        source.wf(),
        source.valid_id(row),
    ensures
        r == first_cell_matches(source, row, label@),
{
    let cells = children_named(source, row, "tc", "tc");
    if cells.len() > 0 {
        let span = source.span(cells[0]);
        match collect_text(source, "t", span.start, span.end, false) {
            Ok(text) => cell_label_matches(&text, label),
            Err(_) => false,
        }
    } else {
        false
    }
}

fn candidates_for(source: &SourceDocument, rows: &Vec<NodeId>, label: &String, columns: &Vec<usize>) -> (r: Vec<(usize, usize)>)
    requires
        source.wf(),
        forall|j: int| 0 <= j < rows@.len() ==> source.valid_id(#[trigger] rows@[j]),
    ensures
        cell_candidates(source, rows@, label@, columns@.map_values(|x: usize| x as int), rows@.len() as int)
            == r@.map_values(|p: (usize, usize)| (p.0 as int, p.1 as int)),
        forall|j: int| 0 <= j < r@.len() ==> (#[trigger] r@[j]).0 < rows@.len() && columns@.contains(r@[j].1),
{
    let ghost cols = columns@.map_values(|x: usize| x as int);
    let mut out: Vec<(usize, usize)> = Vec::new();
    if rows.len() == 0 {
        assert(out@.map_values(|p: (usize, usize)| (p.0 as int, p.1 as int)) =~= Seq::<(int, int)>::empty());
        return out;
    }
    let mut k: usize = 1;
    while k < rows.len()
        invariant
            source.wf(),
            forall|j: int| 0 <= j < rows@.len() ==> source.valid_id(#[trigger] rows@[j]),
            cols == columns@.map_values(|x: usize| x as int),
            1 <= k <= rows@.len(),
            cell_candidates(source, rows@, label@, cols, k as int) == out@.map_values(|p: (usize, usize)| (p.0 as int, p.1 as int)),
            forall|j: int| 0 <= j < out@.len() ==> (#[trigger] out@[j]).0 < k && columns@.contains(out@[j].1),
        decreases rows@.len() - k,
    {
        if row_label_matches(source, rows[k], label) {
            let ghost before = out@;
            let mut j: usize = 0;
            while j < columns.len()
                invariant
                    k < rows@.len(),
                    cols == columns@.map_values(|x: usize| x as int),
                    j <= columns@.len(),
                    out@.map_values(|p: (usize, usize)| (p.0 as int, p.1 as int)) == before.map_values(
                        |p: (usize, usize)| (p.0 as int, p.1 as int),
                    ) + cols.take(j as int).map_values(|col: int| (k as int, col)),
                    forall|x: int| 0 <= x < out@.len() ==> (#[trigger] out@[x]).0 < k + 1 && columns@.contains(out@[x].1),
                decreases columns@.len() - j,
            {
                let ghost mid = out@;
                out.push((k, columns[j]));
                assert(columns@.contains(columns@[j as int]));
                assert(cols.take(j as int + 1).map_values(|col: int| (k as int, col)) =~= cols.take(j as int).map_values(
                    |col: int| (k as int, col),
                ).push((k as int, cols[j as int])));
                assert(out@.map_values(|p: (usize, usize)| (p.0 as int, p.1 as int)) =~= mid.map_values(
                    |p: (usize, usize)| (p.0 as int, p.1 as int),
                ).push((k as int, columns@[j as int] as int)));
                j += 1;
            }
            assert(cols.take(columns@.len() as int) =~= cols);
        }
        k += 1;
    }
    out
}

/// Resolves a cell of a table from its rows and header texts (see `spec_resolve_cell`).
#[verifier::rlimit(40)]
pub fn resolve_table_cell_in_table(
    source: &SourceDocument,
    table_index: usize,
    rows: &Vec<NodeId>,
    headers: &Vec<Vec<u8>>,
    target: &TableCellTarget,
) -> (r: Result<(usize, usize, NodeId), OperationFailure>)
    requires
        source.wf(),
        forall|j: int| 0 <= j < rows@.len() ==> source.valid_id(#[trigger] rows@[j]),
        rows@.len() > 0,
        headers@.len() == row_cells(source, rows@[0]).len(),
        forall|j: int| 0 <= j < rows@.len() ==> row_cells(source, #[trigger] rows@[j]).len() == row_cells(source, rows@[0]).len(),
    ensures
        match r {
            Ok((row, column, cell)) => spec_resolve_cell(source, table_index as int, rows@, texts_view(headers@), *target)
                == Ok::<(int, int), (FailureCode, Option<Seq<char>>)>((row as int, column as int))
                && row < rows@.len() && column < row_cells(source, rows@[row as int]).len()
                && cell == row_cells(source, rows@[row as int])[column as int] && source.valid_id(cell),
            Err(e) => spec_resolve_cell(source, table_index as int, rows@, texts_view(headers@), *target) matches Err(x)
                && failure_is(e, x),
        },
{
    let (row, column) = match &target.handle {
        Some(h) => {
            let bytes = h.as_str().as_bytes();
            assert(bytes@ == vstd::utf8::encode_utf8(h@));
            let (t, row, column) = match parse_cell_handle(bytes) {
                Ok(x) => x,
                Err(e) => return Err(OperationFailure::failed(e.code, "cell handle is malformed")),
            };
            if t != table_index {
                return Err(OperationFailure::failed(FailureCode::PreconditionFailed, "cell handle does not belong to the selected table"));
            }
            if row >= rows.len() {
                return Err(OperationFailure::failed(FailureCode::TargetNotFound, "table cell handle row was not found"));
            }
            let cells = children_named(source, rows[row], "tc", "tc");
            if column >= cells.len() {
                return Err(OperationFailure::failed(FailureCode::TargetNotFound, "table cell handle column was not found"));
            }
            (row, column)
        },
        None => {
            let columns = columns_for(headers, &target.column_header);
            if columns.len() == 0 {
                return Err(OperationFailure::failed(FailureCode::TargetNotFound, "table column header was not found").with_reason_code(
                    "TABLE_COLUMN_NOT_FOUND",
                ));
            }
            let candidates = candidates_for(source, rows, &target.row_label, &columns);
            if candidates.len() == 0 {
                return Err(OperationFailure::failed(FailureCode::TargetNotFound, "table row was not found").with_reason_code(
                    "TABLE_ROW_NOT_FOUND",
                ));
            }
            let idx: usize = match target.occurrence {
                Some(o) => {
                    if o >= candidates.len() {
                        return Err(OperationFailure::failed(FailureCode::TargetNotFound, "table cell target occurrence was not found"));
                    }
                    o
                },
                None => {
                    if candidates.len() != 1 {
                        return Err(OperationFailure::failed(FailureCode::TargetAmbiguous, "table cell target does not resolve to one current semantic cell"));
                    }
                    0
                },
            };
            let picked = candidates[idx];
            proof {
                assert(candidates@.map_values(|p: (usize, usize)| (p.0 as int, p.1 as int))[idx as int] == (picked.0 as int, picked.1 as int));
                let j = choose|j: int| 0 <= j < columns@.len() && columns@[j] == picked.1;
                assert(columns@.map_values(|x: usize| x as int)[j] == picked.1 as int);
                assert(picked.1 < headers@.len());
                assert(row_cells(source, rows@[picked.0 as int]).len() == row_cells(source, rows@[0]).len());
            }
            picked
        },
    };
    assert(spec_choose_cell(source, table_index as int, rows@, texts_view(headers@), *target)
        == Ok::<(int, int), (FailureCode, Option<Seq<char>>)>((row as int, column as int)));
    let cells = children_named(source, rows[row], "tc", "tc");
    let cell = cells[column];
    match table_cell_text_reason(source, cell) {
        Some(reason) => {
            return Err(unsupported("table cell edits require one ordinary paragraph with direct runs").with_reason_code(
                reason.as_str(),
            ));
        },
        None => {},
    }
    let span = source.span(cell);
    match collect_text(source, "t", span.start, span.end, false) {
        Ok(_) => {},
        Err(_) => return Err(document_invalid()),
    }
    Ok((row, column, cell))
}

} // verus!
