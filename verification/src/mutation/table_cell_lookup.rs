use vstd::prelude::*;

use crate::mutation::common::document_invalid;
use crate::mutation::page_break::block_text;
use crate::mutation::table_cell::{
    cell_paragraphs, cell_reason_text, failure_is, parse_cell_handle, spec_cell_reason, spec_parse_cell_handle,
    table_cell_text_reason,
};
use crate::mutation::table_edit::{
    body_tables, cell_label_matches, label_matches, resolve_table_at, row_cells, spec_resolve_table_at, spec_table_reason,
    table_mutation_reason, table_rows, TableMutationReason,
};
use crate::mutation::table_row::first_cell_matches;
use crate::protocol::{FailureCode, OperationFailure, TableCellTarget};
use crate::source::{NodeId, SourceDocument};
use crate::document::{spec_body, DocxDocument};
use crate::wordml::{children_named, collect_text};

verus! {

/// A table is simple when it holds no nested table and no merged cells and its rows
/// all have as many cells as the first; a revision mark does not make it complex.
pub open spec fn spec_simple_table(d: &SourceDocument, t: NodeId) -> bool {
    match spec_table_reason(d, t) {
        None => true,
        Some(TableMutationReason::RevisionWrapper) => true,
        _ => false,
    }
}

pub fn simple_table(source: &SourceDocument, t: NodeId) -> (r: bool)
    requires
        source.wf(),
        source.valid_id(t),
    ensures
        r == spec_simple_table(source, t),
{
    match table_mutation_reason(source, t) {
        None => true,
        Some(TableMutationReason::RevisionWrapper) => true,
        _ => false,
    }
}

/// A resolved cell: the cell, its one paragraph, its current text, and where it stands.
#[derive(Debug)]
pub struct ResolvedTableCell {
    pub cell: NodeId,
    pub paragraph: NodeId,
    pub text: Vec<u8>,
    pub table_index: usize,
    pub row_index: usize,
    pub column_index: usize,
}

impl ResolvedTableCell {
    pub open spec fn spec_view(&self) -> (NodeId, NodeId, Seq<u8>, int, int, int) {
        (self.cell, self.paragraph, self.text@, self.table_index as int, self.row_index as int, self.column_index as int)
    }
}

/// The cells of column `col` among `rows[1..k]` whose row's first cell reads as the
/// label, each with its table.
pub open spec fn label_rows(d: &SourceDocument, t: NodeId, rows: Seq<NodeId>, col: int, label: Seq<char>, k: int) -> Seq<(NodeId, NodeId)>
    decreases k,
{
    if k <= 1 {
        seq![]
    } else {
        let prev = label_rows(d, t, rows, col, label, k - 1);
        let cells = row_cells(d, rows[k - 1]);
        if first_cell_matches(d, rows[k - 1], label) && col < cells.len() {
            prev.push((t, cells[col]))
        } else {
            prev
        }
    }
}

/// The candidate cells of a table, column by column among `header[1..k]`: for each
/// header that reads as the column label, the cells of the rows labelled so; `None`
/// when a header text cannot be read.
pub open spec fn header_columns(
    d: &SourceDocument,
    t: NodeId,
    rows: Seq<NodeId>,
    header: Seq<NodeId>,
    target: TableCellTarget,
    k: int,
) -> Option<Seq<(NodeId, NodeId)>>
    decreases k,
{
    if k <= 1 {
        Some(seq![])
    } else {
        match header_columns(d, t, rows, header, target, k - 1) {
            None => None,
            Some(prev) => match block_text(d, header[k - 1]) {
                None => None,
                Some(h) => if label_matches(h, target.column_header@) {
                    Some(prev + label_rows(d, t, rows, k - 1, target.row_label@, rows.len() as int))
                } else {
                    Some(prev)
                },
            },
        }
    }
}

/// The candidate cells of one table (none when it has no rows).
pub open spec fn table_cell_candidates(d: &SourceDocument, t: NodeId, target: TableCellTarget) -> Option<Seq<(NodeId, NodeId)>> {
    let rows = table_rows(d, t);
    if rows.len() == 0 {
        Some(seq![])
    } else {
        let header = row_cells(d, rows[0]);
        header_columns(d, t, rows, header, target, header.len() as int)
    }
}

/// The candidate cells of the first `k` direct body tables, in order.
pub open spec fn document_cell_candidates(d: &SourceDocument, tables: Seq<NodeId>, target: TableCellTarget, k: int) -> Option<
    Seq<(NodeId, NodeId)>,
>
    decreases k,
{
    if k <= 0 {
        Some(seq![])
    } else {
        match (document_cell_candidates(d, tables, target, k - 1), table_cell_candidates(d, tables[k - 1], target)) {
            (Some(a), Some(b)) => Some(a + b),
            _ => None,
        }
    }
}

/// One candidate: the `occurrence`-th, else the only one.
pub open spec fn pick_candidate(c: Seq<(NodeId, NodeId)>, occurrence: Option<usize>) -> Result<(NodeId, NodeId), FailureCode> {
    if c.len() == 0 {
        Err(FailureCode::TargetNotFound)
    } else {
        match occurrence {
            Some(o) => if o < c.len() {
                Ok(c[o as int])
            } else {
                Err(FailureCode::TargetNotFound)
            },
            None => if c.len() != 1 {
                Err(FailureCode::TargetAmbiguous)
            } else {
                Ok(c[0])
            },
        }
    }
}

/// A chosen cell, checked: its one plain paragraph and its text, or why it cannot be
/// edited (`DocumentInvalid` when its text cannot be read).
pub open spec fn checked_cell(d: &SourceDocument, cell: NodeId, place: (int, int, int)) -> Result<(NodeId, NodeId, Seq<u8>, int, int, int), (FailureCode, Option<Seq<char>>)> {
    match spec_cell_reason(d, cell) {
        Some(x) => Err((FailureCode::UnsupportedOperation, Some(cell_reason_text(x)))),
        None => match block_text(d, cell) {
            None => Err((FailureCode::DocumentInvalid, None)),
            Some(text) => Ok((cell, cell_paragraphs(d, cell)[0], text, place.0, place.1, place.2)),
        },
    }
}

/// The cell a target names in the document. By handle (`tN:rM:cK`): the direct body
/// table with that index, which must be simple, then its row and column. Else by the
/// column header and the row's first-cell text, over the direct body tables in order
/// and, in each, column by column; one of the candidates is picked by `occurrence`, or
/// must be the only one, and its table must be simple. The cell must hold one plain
/// paragraph whose text can be read. A cell found by label is placed at (0, 0, 0).
pub open spec fn spec_resolve_table_cell(d: &SourceDocument, target: TableCellTarget) -> Result<
    (NodeId, NodeId, Seq<u8>, int, int, int),
    (FailureCode, Option<Seq<char>>),
> {
    match target.handle {
        Some(h) => match spec_parse_cell_handle(vstd::utf8::encode_utf8(h@)) {
            None => Err((FailureCode::PreconditionFailed, None)),
            Some((ti, r, c)) => match (spec_resolve_table_at(d, Seq::empty(), None, Some(ti)), spec_body(d)) {
                (Ok(i), Ok(body)) => {
                    let t = body_tables(d, body)[i];
                    let rows = table_rows(d, t);
                    if !spec_simple_table(d, t) {
                        Err((FailureCode::UnsupportedOperation, None))
                    } else if r >= rows.len() || c >= row_cells(d, rows[r]).len() {
                        Err((FailureCode::TargetNotFound, None))
                    } else {
                        checked_cell(d, row_cells(d, rows[r])[c], (ti, r, c))
                    }
                },
                (Err(code), _) => Err((code, None)),
                (_, Err(_)) => Err((FailureCode::DocumentInvalid, None)),
            },
        },
        None => match spec_body(d) {
            Err(_) => Err((FailureCode::DocumentInvalid, None)),
            Ok(body) => {
                let tables = body_tables(d, body);
                match document_cell_candidates(d, tables, target, tables.len() as int) {
                    None => Err((FailureCode::DocumentInvalid, None)),
                    Some(c) => match pick_candidate(c, target.occurrence) {
                        Err(code) => Err((code, None)),
                        Ok((t, cell)) => if !spec_simple_table(d, t) {
                            Err((FailureCode::UnsupportedOperation, None))
                        } else {
                            checked_cell(d, cell, (0, 0, 0))
                        },
                    },
                }
            },
        },
    }
}

proof fn lemma_header_none(
    d: &SourceDocument,
    t: NodeId,
    rows: Seq<NodeId>,
    header: Seq<NodeId>,
    target: TableCellTarget,
    k: int,
    n: int,
)
    requires
        k <= n,
        header_columns(d, t, rows, header, target, k) is None,
    ensures
        header_columns(d, t, rows, header, target, n) is None,
    decreases n - k,
{
    if k < n {
        lemma_header_none(d, t, rows, header, target, k, n - 1);
    }
}

proof fn lemma_document_none(d: &SourceDocument, tables: Seq<NodeId>, target: TableCellTarget, k: int, n: int)
    requires
        k <= n,
        document_cell_candidates(d, tables, target, k) is None,
    ensures
        document_cell_candidates(d, tables, target, n) is None,
    decreases n - k,
{
    if k < n {
        lemma_document_none(d, tables, target, k, n - 1);
    }
}

fn first_cell_reads(source: &SourceDocument, row: NodeId, label: &String) -> (r: bool)
    requires
        source.wf(),
        source.valid_id(row),
    ensures
        r == first_cell_matches(source, row, label@),
{
    let cells = children_named(source, row, "tc", "tc");
    if cells.len() > 0 {
        let span = source.span(cells[0]);
        match collect_text(source, "t", span.start, span.end, false) {
            Ok(text) => cell_label_matches(&text, label),
            Err(_) => false,
        }
    } else {
        false
    }
}

/// Appends the cells of column `col` in the rows (after the first) labelled so.
fn push_label_rows(
    source: &SourceDocument,
    t: NodeId,
    rows: &Vec<NodeId>,
    col: usize,
    label: &String,
    out: &mut Vec<(NodeId, NodeId)>,
)
    requires
        source.wf(),
        forall|j: int| 0 <= j < rows@.len() ==> source.valid_id(#[trigger] rows@[j]),
        source.valid_id(t),
        forall|j: int| 0 <= j < old(out)@.len() ==> source.valid_id((#[trigger] old(out)@[j]).0) && source.valid_id(old(out)@[j].1),
    ensures
        final(out)@ == old(out)@ + label_rows(source, t, rows@, col as int, label@, rows@.len() as int),
        forall|j: int| 0 <= j < final(out)@.len() ==> source.valid_id((#[trigger] final(out)@[j]).0) && source.valid_id(final(out)@[j].1),
{
    let ghost start = out@;
    if rows.len() == 0 {
        assert(out@ =~= start + Seq::<(NodeId, NodeId)>::empty());
        return;
    }
    let mut k: usize = 1;
    assert(out@ =~= start + label_rows(source, t, rows@, col as int, label@, 1));
    while k < rows.len()
        invariant
            source.wf(),
            forall|j: int| 0 <= j < rows@.len() ==> source.valid_id(#[trigger] rows@[j]),
            1 <= k <= rows@.len(),
            out@ == start + label_rows(source, t, rows@, col as int, label@, k as int),
            source.valid_id(t),
            forall|j: int| 0 <= j < out@.len() ==> source.valid_id((#[trigger] out@[j]).0) && source.valid_id(out@[j].1),
        decreases rows@.len() - k,
    {
        let cells = children_named(source, rows[k], "tc", "tc");
        if first_cell_reads(source, rows[k], label) && col < cells.len() {
            out.push((t, cells[col]));
            assert(out@ =~= start + label_rows(source, t, rows@, col as int, label@, k as int + 1));
        }
        k += 1;
    }
}

/// Appends the candidate cells of one table.
fn push_table_candidates(source: &SourceDocument, t: NodeId, target: &TableCellTarget, out: &mut Vec<(NodeId, NodeId)>) -> (r: Result<
    (),
    OperationFailure,
>)
    requires
        source.wf(),
        source.valid_id(t),
        forall|j: int| 0 <= j < old(out)@.len() ==> source.valid_id((#[trigger] old(out)@[j]).0) && source.valid_id(old(out)@[j].1),
    ensures
        forall|j: int| 0 <= j < final(out)@.len() ==> source.valid_id((#[trigger] final(out)@[j]).0) && source.valid_id(final(out)@[j].1),
        match r {
            Ok(_) => table_cell_candidates(source, t, *target) matches Some(c) && final(out)@ == old(out)@ + c,
            Err(e) => table_cell_candidates(source, t, *target) is None && e.code == FailureCode::DocumentInvalid
                && e.reason_code is None,
        },
{
    let ghost start = out@;
    let rows = children_named(source, t, "tr", "tr");
    if rows.len() == 0 {
        assert(out@ =~= start + Seq::<(NodeId, NodeId)>::empty());
        return Ok(());
    }
    let header = children_named(source, rows[0], "tc", "tc");
    if header.len() <= 1 {
        assert(out@ =~= start + Seq::<(NodeId, NodeId)>::empty());
        return Ok(());
    }
    let mut k: usize = 1;
    assert(out@ =~= start + Seq::<(NodeId, NodeId)>::empty());
    while k < header.len()
        invariant
            source.wf(),
            rows@ == table_rows(source, t),
            rows@.len() > 0,
            header@ == row_cells(source, rows@[0]),
            forall|j: int| 0 <= j < rows@.len() ==> source.valid_id(#[trigger] rows@[j]),
            forall|j: int| 0 <= j < header@.len() ==> source.valid_id(#[trigger] header@[j]),
            1 <= k <= header@.len(),
            header_columns(source, t, rows@, header@, *target, k as int) matches Some(c) && out@ == start + c,
            source.valid_id(t),
            forall|j: int| 0 <= j < out@.len() ==> source.valid_id((#[trigger] out@[j]).0) && source.valid_id(out@[j].1),
        decreases header@.len() - k,
    {
        let ghost before = out@;
        let span = source.span(header[k]);
        let h = match collect_text(source, "t", span.start, span.end, false) {
            Ok(h) => h,
            Err(_) => {
                proof {
                    assert(header_columns(source, t, rows@, header@, *target, k as int + 1) is None);
                    lemma_header_none(source, t, rows@, header@, *target, k as int + 1, header@.len() as int);
                }
                return Err(document_invalid());
            },
        };
        if cell_label_matches(&h, &target.column_header) {
            push_label_rows(source, t, &rows, k, &target.row_label, out);
            assert(out@ =~= start + header_columns(source, t, rows@, header@, *target, k as int + 1)->Some_0);
        }
        k += 1;
    }
    Ok(())
}

/// The candidate cells of all direct body tables (see `document_cell_candidates`).
fn document_candidates(source: &SourceDocument, tables: &Vec<NodeId>, target: &TableCellTarget) -> (r: Result<
    Vec<(NodeId, NodeId)>,
    OperationFailure,
>)
    requires
        source.wf(),
        forall|j: int| 0 <= j < tables@.len() ==> source.valid_id(#[trigger] tables@[j]),
    ensures
        match r {
            Ok(v) => document_cell_candidates(source, tables@, *target, tables@.len() as int) == Some(v@) && (forall|j: int| 0 <= j < v@.len() ==> source.valid_id((#[trigger] v@[j]).0) && source.valid_id(v@[j].1)),
            Err(e) => document_cell_candidates(source, tables@, *target, tables@.len() as int) is None && e.code
                == FailureCode::DocumentInvalid && e.reason_code is None,
        },
{
    let mut out: Vec<(NodeId, NodeId)> = Vec::new();
    let mut k: usize = 0;
    assert(out@ =~= Seq::<(NodeId, NodeId)>::empty());
    while k < tables.len()
        invariant
            source.wf(),
            forall|j: int| 0 <= j < tables@.len() ==> source.valid_id(#[trigger] tables@[j]),
            k <= tables@.len(),
            document_cell_candidates(source, tables@, *target, k as int) == Some(out@),
            forall|j: int| 0 <= j < out@.len() ==> source.valid_id((#[trigger] out@[j]).0) && source.valid_id(out@[j].1),
        decreases tables@.len() - k,
    {
        match push_table_candidates(source, tables[k], target, &mut out) {
            Ok(_) => {},
            Err(e) => {
                proof {
                    lemma_document_none(source, tables@, *target, k as int + 1, tables@.len() as int);
                }
                return Err(e);
            },
        }
        k += 1;
    }
    Ok(out)
}

/// Checks a chosen cell and reads it (see `checked_cell`).
fn check_cell(source: &SourceDocument, cell: NodeId, table_index: usize, row_index: usize, column_index: usize) -> (r: Result<
    ResolvedTableCell,
    OperationFailure,
>)
    requires
        source.wf(),
        source.valid_id(cell),
    ensures
        match (r, checked_cell(source, cell, (table_index as int, row_index as int, column_index as int))) {
            (Ok(v), Ok(x)) => v.spec_view() == x,
            (Err(e), Err(x)) => failure_is(e, x),
            _ => false,
        },
{
    match table_cell_text_reason(source, cell) {
        Some(reason) => {
            return Err(OperationFailure::failed(
                FailureCode::UnsupportedOperation,
                "table cell edits require one ordinary paragraph with direct runs",
            ).with_reason_code(reason.as_str()));
        },
        None => {},
    }
    let paragraphs = children_named(source, cell, "p", "p");
    let span = source.span(cell);
    let text = match collect_text(source, "t", span.start, span.end, false) {
        Ok(t) => t,
        Err(_) => return Err(document_invalid()),
    };
    Ok(ResolvedTableCell { cell, paragraph: paragraphs[0], text, table_index, row_index, column_index })
}

/// Resolves the cell a target names in the document (see `spec_resolve_table_cell`).
#[verifier::rlimit(40)]
pub fn resolve_table_cell(source: &SourceDocument, target: &TableCellTarget) -> (r: Result<ResolvedTableCell, OperationFailure>)
    requires
        source.wf(),
    ensures
        match (r, spec_resolve_table_cell(source, *target)) {
            (Ok(v), Ok(x)) => v.spec_view() == x,
            (Err(e), Err(x)) => failure_is(e, x),
            _ => false,
        },
{
    match &target.handle {
        Some(h) => {
            let bytes = h.as_str().as_bytes();
            assert(bytes@ == vstd::utf8::encode_utf8(h@));
            let (ti, row, column) = match parse_cell_handle(bytes) {
                Ok(x) => x,
                Err(_) => return Err(OperationFailure::failed(FailureCode::PreconditionFailed, "cell handle is malformed")),
            };
            let no_labels: Vec<String> = Vec::new();
            assert(no_labels@ =~= Seq::<String>::empty());
            let resolved = match resolve_table_at(source, &no_labels, None, Some(ti)) {
                Ok(t) => t,
                Err(e) => return Err(OperationFailure::failed(e.code, "table was not found")),
            };
            if !simple_table(source, resolved.table) {
                return Err(OperationFailure::failed(
                    FailureCode::UnsupportedOperation,
                    "table cell edits support only simple rectangular tables",
                ));
            }
            if row >= resolved.rows.len() {
                return Err(OperationFailure::failed(FailureCode::TargetNotFound, "table cell handle row was not found"));
            }
            let cells = children_named(source, resolved.rows[row], "tc", "tc");
            if column >= cells.len() {
                return Err(OperationFailure::failed(FailureCode::TargetNotFound, "table cell handle column was not found"));
            }
            check_cell(source, cells[column], ti, row, column)
        },
        None => {
            let document = match DocxDocument::new(source) {
                Ok(d) => d,
                Err(_) => return Err(document_invalid()),
            };
            let body = document.body_id();
            let tables = children_named(source, body, "tbl", "tbl");
            let candidates = document_candidates(source, &tables, target)?;
            let picked: (NodeId, NodeId) = if candidates.len() == 0 {
                return Err(OperationFailure::failed(
                    FailureCode::TargetNotFound,
                    "table row label and column header intersection was not found",
                ));
            } else {
                match target.occurrence {
                    Some(o) => {
                        if o >= candidates.len() {
                            return Err(OperationFailure::failed(
                                FailureCode::TargetNotFound,
                                "table cell target occurrence was not found",
                            ));
                        }
                        candidates[o]
                    },
                    None => {
                        if candidates.len() != 1 {
                            return Err(OperationFailure::failed(
                                FailureCode::TargetAmbiguous,
                                "table cell target matches more than one current semantic cell",
                            ));
                        }
                        candidates[0]
                    },
                }
            };
            if !simple_table(source, picked.0) {
                return Err(OperationFailure::failed(
                    FailureCode::UnsupportedOperation,
                    "table cell edits support only simple rectangular tables",
                ));
            }
            check_cell(source, picked.1, 0, 0, 0)
        },
    }
}

} // verus!
