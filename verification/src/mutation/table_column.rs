use vstd::prelude::*;
use vstd::string::StringSliceAdditionalSpecFns;

use crate::bytes::{copy_range, find_from, occurs_at};
use crate::document::spec_body;
use crate::mutation::common::{
    apply_patches, arranged, in_bounds, patched, span_keys, spec_word_prefix, word_prefix_for, Patch,
};
use crate::mutation::table_edit::{
    all_table_rows, body_tables, cells_text, check_tables, label_matches, cell_label_matches,
    parse_table_handle, resolve_table, row_cells, rows_view, spec_resolve_table, spec_table_handle,
    spec_table_reason, table_mutation_reason, table_rows, table_texts, tables_read_back, tables_texts,
    tables_view, texts_view, ResolvedTable,
};
use crate::mutation::table_row::{
    minimal_cell_markup, node_bytes, push_minimal_cell, push_template_cell, safe_template_cell,
    template_cell_markup,
};
use crate::numbers::{parse_usize, unsigned_value};
use crate::order::stable_order;
use crate::protocol::{
    unsupported, DeleteTableColumn, FailureCode, InsertTableColumnAfter, OperationFailure, };
use crate::source::{NodeId, SourceDocument, SourceSpan};
use crate::wordml::{children_named, named_among};

verus! {

// ---------------------------------------------------------------------------
// Column handles and headers
// ---------------------------------------------------------------------------

/// The first place `:c` occurs in a handle.
#[verifier::opaque]
pub open spec fn column_mark(h: Seq<u8>) -> Option<int> {
    if exists|i: int| occurs_at(h, i, seq![0x3au8, 0x63u8]) {
        Some(choose|i: int| occurs_at(h, i, seq![0x3au8, 0x63u8]) && forall|j: int| 0 <= j < i ==> !occurs_at(h, j, seq![0x3au8, 0x63u8]))
    } else {
        None
    }
}

/// The table and column a column handle (`tN:cM`) names, split at its first `:c`.
pub open spec fn spec_parse_column_handle(h: Seq<u8>) -> Option<(int, int)> {
    match column_mark(h) {
        Some(i) => match (spec_table_handle(h.take(i)), unsigned_value(h.skip(i + 2))) {
            (Some(t), Some(c)) => if c <= usize::MAX {
                Some((t, c))
            } else {
                None
            },
            _ => None,
        },
        None => None,
    }
}

pub(crate) proof fn lemma_column_mark(h: Seq<u8>, i: int)
    requires
        occurs_at(h, i, seq![0x3au8, 0x63u8]),
        forall|j: int| 0 <= j < i ==> !occurs_at(h, j, seq![0x3au8, 0x63u8]),
    ensures
        column_mark(h) == Some(i),
{
    reveal(column_mark);
    let m = choose|m: int| occurs_at(h, m, seq![0x3au8, 0x63u8]) && forall|j: int| 0 <= j < m ==> !occurs_at(h, j, seq![0x3au8, 0x63u8]);
    assert(occurs_at(h, m, seq![0x3au8, 0x63u8]));
    if m < i {
        assert(!occurs_at(h, m, seq![0x3au8, 0x63u8]));
    }
    if i < m {
        assert(!occurs_at(h, i, seq![0x3au8, 0x63u8]));
    }
}

pub fn parse_column_handle(h: &[u8]) -> (r: Result<(usize, usize), OperationFailure>)
    ensures
        match r {
            Ok((t, c)) => spec_parse_column_handle(h@) == Some((t as int, c as int)),
            Err(e) => spec_parse_column_handle(h@) is None && e.code == FailureCode::PreconditionFailed,
        },
{
    let n = h.len();
    let mut mark: Vec<u8> = Vec::new();
    mark.push(0x3au8);
    mark.push(0x63u8);
    assert(mark@ =~= seq![0x3au8, 0x63u8]);
    let i = match find_from(h, 0, mark.as_slice()) {
        Some(i) => i,
        None => {
            assert(!(exists|i: int| occurs_at(h@, i, seq![0x3au8, 0x63u8])));
            reveal(column_mark);
            return Err(OperationFailure::failed(FailureCode::PreconditionFailed, "column handle is malformed"));
        },
    };
    proof {
        lemma_column_mark(h@, i as int);
    }
    assert(occurs_at(h@, i as int, mark@));
    assert(i + 2 <= h@.len());
    let head = copy_range(h, 0, i);
    let tail = copy_range(h, i + 2, n);
    assert(head@ =~= h@.take(i as int));
    assert(tail@ =~= h@.skip(i as int + 2));
    let t = match parse_table_handle(head.as_slice()) {
        Ok(t) => t,
        Err(e) => return Err(e),
    };
    let c = match parse_usize(tail.as_slice()) {
        Some(v) => v,
        None => return Err(OperationFailure::failed(FailureCode::PreconditionFailed, "column handle is malformed")),
    };
    Ok((t, c))
}

/// The indices of the header texts that read as the label.
pub open spec fn matching_columns(headers: Seq<Seq<u8>>, label: Seq<char>, k: int) -> Seq<int>
    decreases k,
{
    if k <= 0 {
        seq![]
    } else {
        let c = matching_columns(headers, label, k - 1);
        if label_matches(headers[k - 1], label) {
            c.push(k - 1)
        } else {
            c
        }
    }
}

proof fn lemma_matching_columns(headers: Seq<Seq<u8>>, label: Seq<char>, k: int)
    ensures
        forall|j: int| 0 <= j < matching_columns(headers, label, k).len() ==> 0 <= #[trigger] matching_columns(headers, label, k)[j] < k,
    decreases k,
{
    if k > 0 {
        lemma_matching_columns(headers, label, k - 1);
        let c = matching_columns(headers, label, k - 1);
        assert forall|j: int| 0 <= j < matching_columns(headers, label, k).len() implies 0 <= #[trigger] matching_columns(headers, label, k)[j] < k by {
            if j < c.len() {
                assert(matching_columns(headers, label, k)[j] == c[j]);
            }
        }
    }
}

/// The column a handle or a header label names: the handle must name this table; a
/// label must match exactly one header.
pub open spec fn spec_column(headers: Seq<Seq<u8>>, table_index: int, handle: Option<String>, label: Seq<char>) -> Result<int, FailureCode> {
    match handle {
        Some(h) => match spec_parse_column_handle(vstd::utf8::encode_utf8(h@)) {
            None => Err(FailureCode::PreconditionFailed),
            Some((t, c)) => if t != table_index {
                Err(FailureCode::PreconditionFailed)
            } else {
                Ok(c)
            },
        },
        None => {
            let found = matching_columns(headers, label, headers.len() as int);
            if found.len() == 0 {
                Err(FailureCode::TargetNotFound)
            } else if found.len() != 1 {
                Err(FailureCode::TargetAmbiguous)
            } else {
                Ok(found[0])
            }
        },
    }
}

fn resolve_column(headers: &Vec<Vec<u8>>, table_index: usize, handle: &Option<String>, label: &String) -> (r: Result<usize, OperationFailure>)
    ensures
        match r {
            Ok(c) => spec_column(texts_view(headers@), table_index as int, *handle, label@) == Ok::<int, FailureCode>(c as int),
            Err(e) => spec_column(texts_view(headers@), table_index as int, *handle, label@) == Err::<int, FailureCode>(e.code),
        },
{
    match handle {
        Some(h) => {
            let bytes = h.as_str().as_bytes();
            assert(bytes@ == vstd::utf8::encode_utf8(h@));
            let (t, c) = match parse_column_handle(bytes) {
                Ok(x) => x,
                Err(e) => return Err(e),
            };
            if t != table_index {
                return Err(OperationFailure::failed(FailureCode::PreconditionFailed, "column handle does not belong to the selected table"));
            }
            Ok(c)
        },
        None => {
            let mut found: Vec<usize> = Vec::new();
            let mut k: usize = 0;
            while k < headers.len()
                invariant
                    k <= headers@.len(),
                    matching_columns(texts_view(headers@), label@, k as int) == found@.map_values(|x: usize| x as int),
                decreases headers@.len() - k,
            {
                if cell_label_matches(&headers[k], label) {
                    let ghost before = found@;
                    found.push(k);
                    assert(found@.map_values(|x: usize| x as int) =~= before.map_values(|x: usize| x as int).push(k as int));
                }
                k += 1;
            }
            if found.len() == 0 {
                return Err(OperationFailure::failed(FailureCode::TargetNotFound, "column header does not resolve to one current table column"));
            }
            if found.len() != 1 {
                return Err(OperationFailure::failed(FailureCode::TargetAmbiguous, "column header does not resolve to one current table column"));
            }
            Ok(found[0])
        },
    }
}

// ---------------------------------------------------------------------------
// The table grid
// ---------------------------------------------------------------------------

/// The grid columns of a table with exactly one `w:tblGrid`.
pub open spec fn grid_columns(d: &SourceDocument, t: NodeId) -> Option<Seq<NodeId>> {
    let grids = named_among(d, d.spec_children(t.0 as int), "tblGrid".spec_bytes(), "tblGrid".spec_bytes());
    if grids.len() != 1 {
        None
    } else {
        Some(named_among(d, d.spec_children(grids[0].0 as int), "gridCol".spec_bytes(), "gridCol".spec_bytes()))
    }
}

/// The table has one explicit grid with one column per table column.
pub open spec fn explicit_grid(d: &SourceDocument, t: NodeId, width: int) -> bool {
    grid_columns(d, t) matches Some(cols) && cols.len() == width
}

fn explicit_table_grid(source: &SourceDocument, t: NodeId, width: usize) -> (r: Result<Vec<NodeId>, OperationFailure>)
    requires
        source.wf(),
        source.valid_id(t),
    ensures
        match r {
            Ok(cols) => grid_columns(source, t) == Some(cols@) && cols@.len() == width
                && forall|k: int| 0 <= k < cols@.len() ==> source.valid_id(#[trigger] cols@[k]),
            Err(e) => !explicit_grid(source, t, width as int) && e.code == FailureCode::UnsupportedOperation,
        },
{
    let grids = children_named(source, t, "tblGrid", "tblGrid");
    if grids.len() != 1 {
        return Err(unsupported("table column edits require one explicit table grid"));
    }
    let cols = children_named(source, grids[0], "gridCol", "gridCol");
    if cols.len() != width {
        return Err(unsupported("table column edits require one grid column per table column"));
    }
    Ok(cols)
}

// ---------------------------------------------------------------------------
// Inserting a column
// ---------------------------------------------------------------------------

/// The texts of a table's rows with a new column after `column`: the header text in
/// the first row, then one given text per data row.
pub open spec fn column_inserted(rows: Seq<Seq<Seq<u8>>>, column: int, header: Seq<char>, cells: Seq<String>) -> Seq<Seq<Seq<u8>>> {
    Seq::new(
        rows.len(),
        |k: int| rows[k].insert(column + 1, vstd::utf8::encode_utf8(if k == 0 { header } else { cells[k - 1]@ })),
    )
}

/// The new cell for row `k`: shaped like the row's cell at `column` when that cell is a
/// safe template, else plain; in the row's namespace prefix.
pub open spec fn new_cell_markup(d: &SourceDocument, row: NodeId, column: int, value: Seq<char>) -> Option<Seq<u8>> {
    match spec_word_prefix(d, row.0 as int, "tr".spec_bytes()) {
        Some(prefix) => {
            let template = row_cells(d, row)[column];
            Some(if safe_template_cell(d, template) {
                template_cell_markup(d, template, prefix, value)
            } else {
                minimal_cell_markup(prefix, value)
            })
        },
        None => None,
    }
}

/// The patches of a column insertion: a copy of the grid column after it, then one new
/// cell after the row's cell at `column`, row by row.
pub open spec fn column_patches_ok(d: &SourceDocument, t: NodeId, column: int, header: Seq<char>, cells: Seq<String>, ps: Seq<Patch>) -> bool {
    let rows = table_rows(d, t);
    &&& grid_columns(d, t) matches Some(cols)
    &&& ps.len() == rows.len() + 1
    &&& ps[0].span.start == d.spec_span(cols[column].0 as int).end && ps[0].span.end == ps[0].span.start
    &&& ps[0].replacement@ == node_bytes(d, cols[column])
    &&& forall|k: int| 0 <= k < rows.len() ==> {
        let cell = row_cells(d, #[trigger] rows[k])[column];
        &&& ps[k + 1].span.start == d.spec_span(cell.0 as int).end
        &&& ps[k + 1].span.end == ps[k + 1].span.start
        &&& new_cell_markup(d, rows[k], column, if k == 0 { header } else { cells[k - 1]@ }) == Some(ps[k + 1].replacement@)
    }
}

/// A document's table at `index` has rows and an explicit grid of its width.
pub open spec fn grid_matches(d2: &SourceDocument, index: int) -> bool {
    &&& spec_body(d2) matches Ok(b)
    &&& 0 <= index < body_tables(d2, b).len()
    &&& table_rows(d2, body_tables(d2, b)[index]).len() > 0
    &&& explicit_grid(d2, body_tables(d2, b)[index], row_cells(d2, table_rows(d2, body_tables(d2, b)[index])[0]).len() as int)
}

/// The edited part's table at `index` has rows and an explicit grid of its width.
pub open spec fn grid_reads_back(out: Seq<u8>, index: int) -> bool {
    exists|d2: SourceDocument| #![trigger d2.bytes] d2.wf() && d2.bytes@ == out && d2.faithful() && grid_matches(&d2, index)
}

/// The edited part parses, and in every reading of it the table at `index` has rows and
/// an explicit grid of its width.
pub open spec fn grid_reads_back_all(out: Seq<u8>, index: int) -> bool {
    &&& crate::source::accepts(out)
    &&& forall|d2: SourceDocument| #![trigger d2.bytes] d2.wf() && d2.bytes@ == out && d2.faithful() ==> grid_matches(&d2, index)
}

/// Checks the grid of the edited part's table at `index`.
fn check_grid(out: &Vec<u8>, index: usize) -> (r: Result<(), OperationFailure>)
    ensures
        r is Ok ==> grid_reads_back(out@, index as int),
        r is Err ==> !grid_reads_back_all(out@, index as int),
{
    let reread = match SourceDocument::parse(crate::bytes::copy_bytes(out.as_slice())) {
        Ok(d) => d,
        Err(_) => return Err(crate::mutation::common::document_invalid()),
    };
    assert(reread.bytes == reread.bytes);
    let document = match crate::document::DocxDocument::new(&reread) {
        Ok(d) => d,
        Err(_) => {
            assert(!grid_matches(&reread, index as int));
            return Err(crate::mutation::common::document_invalid());
        },
    };
    let body = document.body_id();
    let tables = children_named(&reread, body, "tbl", "tbl");
    if index >= tables.len() {
        assert(!grid_matches(&reread, index as int));
        return Err(crate::mutation::common::document_invalid());
    }
    let rows = children_named(&reread, tables[index], "tr", "tr");
    if rows.len() == 0 {
        assert(!grid_matches(&reread, index as int));
        return Err(crate::mutation::common::document_invalid());
    }
    let width = children_named(&reread, rows[0], "tc", "tc").len();
    match explicit_table_grid(&reread, tables[index], width) {
        Ok(_) => {},
        Err(e) => {
            assert(!grid_matches(&reread, index as int));
            return Err(e);
        },
    }
    assert(grid_matches(&reread, index as int));
    Ok(())
}

fn new_cell(source: &SourceDocument, row: NodeId, column: usize, value: &str) -> (r: Result<Vec<u8>, OperationFailure>)
    requires
        source.wf(),
        source.valid_id(row),
        column < row_cells(source, row).len(),
    ensures
        match r {
            Ok(v) => new_cell_markup(source, row, column as int, value@) == Some(v@),
            Err(e) => new_cell_markup(source, row, column as int, value@) is None && e.code == FailureCode::UnsupportedOperation,
        },
{
    let prefix = word_prefix_for(source, row, "tr")?;
    let cells = children_named(source, row, "tc", "tc");
    let template = cells[column];
    let mut out: Vec<u8> = Vec::new();
    if crate::mutation::table_row::is_safe_template_cell(source, template) {
        push_template_cell(&mut out, source, template, prefix.as_slice(), value);
    } else {
        push_minimal_cell(&mut out, prefix.as_slice(), value);
    }
    assert(out@ =~= new_cell_markup(source, row, column as int, value@)->0);
    Ok(out)
}

/// A column insertion was allowed, and what it made of the part.
pub open spec fn column_added(d: &SourceDocument, op: InsertTableColumnAfter, out: Seq<u8>) -> bool {
    &&& spec_resolve_table(d, op.table) matches Ok(i)
    &&& spec_body(d) matches Ok(body)
    &&& spec_table_reason(d, body_tables(d, body)[i]) is None
    &&& op.cells@.len() + 1 == table_rows(d, body_tables(d, body)[i]).len()
    &&& cells_text(d, row_cells(d, table_rows(d, body_tables(d, body)[i])[0])) matches Some(headers)
    &&& spec_column(headers, i, op.after_column_handle, op.after_column_header@) matches Ok(column)
    &&& column < headers.len()
    &&& exists|ps: Seq<Patch>, order: Seq<usize>|
        column_patches_ok(d, body_tables(d, body)[i], column, op.header@, op.cells@, ps)
            && stable_order(order, span_keys(ps), ps.len() as int) && out == patched(d.bytes@, arranged(ps, order))
    &&& tables_texts(d, body_tables(d, body)) matches Some(all)
    &&& tables_read_back(out, all.update(i, column_inserted(all[i], column, op.header@, op.cells@)))
    &&& grid_reads_back(out, i)
}

pub(crate) proof fn lemma_cells_len(d: &SourceDocument, cells: Seq<NodeId>)
    ensures
        cells_text(d, cells) matches Some(t) ==> t.len() == cells.len(),
    decreases cells.len(),
{
    if cells.len() > 0 {
        lemma_cells_len(d, cells.drop_last());
    }
}

/// The rows with a new text after `column`: the header in the first row, the cells
/// below.
fn rows_with_column(old_rows: &Vec<Vec<Vec<u8>>>, column: usize, header: &String, cells: &Vec<String>) -> (r: Vec<Vec<Vec<u8>>>)
    requires
        cells@.len() + 1 == old_rows@.len(),
        forall|k: int| 0 <= k < old_rows@.len() ==> column < (#[trigger] old_rows@[k])@.len(),
    ensures
        rows_view(r@) == column_inserted(rows_view(old_rows@), column as int, header@, cells@),
{
    let ghost target = column_inserted(rows_view(old_rows@), column as int, header@, cells@);
    let mut out: Vec<Vec<Vec<u8>>> = Vec::new();
    let mut k: usize = 0;
    while k < old_rows.len()
        invariant
            cells@.len() + 1 == old_rows@.len(),
            forall|x: int| 0 <= x < old_rows@.len() ==> column < (#[trigger] old_rows@[x])@.len(),
            target == column_inserted(rows_view(old_rows@), column as int, header@, cells@),
            k <= old_rows@.len(),
            rows_view(out@) == target.take(k as int),
        decreases old_rows@.len() - k,
    {
        let mut row: Vec<Vec<u8>> = Vec::new();
        let mut j: usize = 0;
        while j < old_rows[k].len()
            invariant
                k < old_rows@.len(),
                j <= old_rows@[k as int]@.len(),
                texts_view(row@) == texts_view(old_rows@[k as int]@).take(j as int),
            decreases old_rows@[k as int]@.len() - j,
        {
            let ghost before = row@;
            row.push(crate::bytes::copy_bytes(old_rows[k][j].as_slice()));
            assert(texts_view(row@) =~= texts_view(before).push(row@.last()@));
            assert(texts_view(row@) =~= texts_view(old_rows@[k as int]@).take(j as int + 1));
            j += 1;
        }
        assert(texts_view(old_rows@[k as int]@).take(old_rows@[k as int]@.len() as int) =~= texts_view(old_rows@[k as int]@));
        let value = if k == 0 {
            header.as_str().as_bytes()
        } else {
            cells[k - 1].as_str().as_bytes()
        };
        let ghost before_row = row@;
        row.insert(column + 1, crate::bytes::copy_bytes(value));
        assert(texts_view(row@) =~= texts_view(before_row).insert(column + 1, row@[column + 1]@));
        assert(texts_view(row@) == target[k as int]);
        let ghost before = out@;
        out.push(row);
        assert(rows_view(out@) =~= rows_view(before).push(texts_view(out@.last()@)));
        assert(rows_view(out@) =~= target.take(k as int + 1));
        k += 1;
    }
    assert(target.take(old_rows@.len() as int) =~= target);
    out
}

/// The `k`-th cell patch of a column insertion.
pub open spec fn cell_patch_ok(d: &SourceDocument, rows: Seq<NodeId>, column: int, header: Seq<char>, cells: Seq<String>, p: Patch, k: int) -> bool {
    let cell = row_cells(d, rows[k])[column];
    &&& p.span.start == d.spec_span(cell.0 as int).end
    &&& p.span.end == p.span.start
    &&& new_cell_markup(d, rows[k], column, if k == 0 { header } else { cells[k - 1]@ }) == Some(p.replacement@)
}

#[verifier::rlimit(40)]
fn column_patches(
    source: &SourceDocument,
    resolved: &ResolvedTable,
    column: usize,
    cols: &Vec<NodeId>,
    header: &String,
    cells: &Vec<String>,
) -> (r: Result<Vec<Patch>, OperationFailure>)
    requires
        source.wf(),
        resolved.rows@ == table_rows(source, resolved.table),
        resolved.rows@.len() > 0,
        forall|j: int| 0 <= j < resolved.rows@.len() ==> source.valid_id(#[trigger] resolved.rows@[j]),
        crate::mutation::table_edit::rectangular_table(source, resolved.table),
        column < row_cells(source, resolved.rows@[0]).len(),
        cells@.len() + 1 == resolved.rows@.len(),
        grid_columns(source, resolved.table) == Some(cols@),
        column < cols@.len(),
        forall|k: int| 0 <= k < cols@.len() ==> source.valid_id(#[trigger] cols@[k]),
    ensures
        r matches Ok(ps) ==> column_patches_ok(source, resolved.table, column as int, header@, cells@, ps@)
            && in_bounds(ps@, source.bytes@.len() as int),
        r matches Err(e) ==> e.code == FailureCode::UnsupportedOperation && exists|k: int|
            0 <= k < resolved.rows@.len() && new_cell_markup(
                source,
                #[trigger] resolved.rows@[k],
                column as int,
                if k == 0 { header@ } else { cells@[k - 1]@ },
            ) is None,
{
    let grid_span = source.span(cols[column]);
    let mut patches: Vec<Patch> = Vec::new();
    patches.push(Patch {
        span: SourceSpan { start: grid_span.end, end: grid_span.end },
        replacement: copy_range(source.original_bytes(), grid_span.start, grid_span.end),
    });
    let mut k: usize = 0;
    while k < resolved.rows.len()
        invariant
            source.wf(),
            resolved.rows@ == table_rows(source, resolved.table),
            forall|j: int| 0 <= j < resolved.rows@.len() ==> source.valid_id(#[trigger] resolved.rows@[j]),
            crate::mutation::table_edit::rectangular_table(source, resolved.table),
            column < row_cells(source, resolved.rows@[0]).len(),
            k <= resolved.rows@.len(),
            cells@.len() + 1 == resolved.rows@.len(),
            patches@.len() == k + 1,
            patches@[0].span.start == source.spec_span(cols@[column as int].0 as int).end,
            patches@[0].span.end == patches@[0].span.start,
            patches@[0].replacement@ == node_bytes(source, cols@[column as int]),
            in_bounds(patches@, source.bytes@.len() as int),
            forall|j: int| 0 <= j < k ==> cell_patch_ok(source, resolved.rows@, column as int, header@, cells@, #[trigger] patches@[j + 1], j),
        decreases resolved.rows@.len() - k,
    {
        let row = resolved.rows[k];
        assert(row_cells(source, resolved.rows@[k as int]).len() == row_cells(source, resolved.rows@[0]).len());
        let value = if k == 0 {
            header.as_str()
        } else {
            cells[k - 1].as_str()
        };
        let replacement = match new_cell(source, row, column, value) {
            Ok(v) => v,
            Err(e) => {
                assert(value@ == if k == 0 { header@ } else { cells@[k - 1]@ });
                assert(new_cell_markup(source, resolved.rows@[k as int], column as int, if k == 0 { header@ } else { cells@[k as int - 1]@ }) is None);
                return Err(e);
            },
        };
        let row_cells_exec = children_named(source, row, "tc", "tc");
        let end = source.span(row_cells_exec[column]).end;
        let ghost before = patches@;
        patches.push(Patch { span: SourceSpan { start: end, end }, replacement });
        proof {
            assert forall|j: int| 0 <= j < k + 1 implies cell_patch_ok(source, resolved.rows@, column as int, header@, cells@, #[trigger] patches@[j + 1], j) by {
                if j < k {
                    assert(patches@[j + 1] == before[j + 1]);
                }
            }
        }
        k += 1;
    }
    proof {
        let rows = table_rows(source, resolved.table);
        assert forall|k: int| 0 <= k < rows.len() implies {
            let cell = row_cells(source, #[trigger] rows[k])[column as int];
            &&& patches@[k + 1].span.start == source.spec_span(cell.0 as int).end
            &&& patches@[k + 1].span.end == patches@[k + 1].span.start
            &&& new_cell_markup(source, rows[k], column as int, if k == 0 { header@ } else { cells@[k - 1]@ }) == Some(patches@[k + 1].replacement@)
        } by {
            assert(cell_patch_ok(source, resolved.rows@, column as int, header@, cells@, patches@[k + 1], k));
        }
    }
    Ok(patches)
}

/// The checks a column insertion makes before it edits, in order: the table resolves
/// (its failure); it is simple (`UnsupportedOperation`); there is one new cell per data
/// row (`PreconditionFailed`); its header row reads (`DocumentInvalid`); the column
/// resolves (its failure: a handle of another table is `PreconditionFailed`); and the
/// column is within the width (`TargetNotFound`). Gives the table's index and the column.
pub open spec fn column_precheck(d: &SourceDocument, op: InsertTableColumnAfter) -> Result<(int, int), FailureCode> {
    match spec_resolve_table(d, op.table) {
        Err(c) => Err(c),
        Ok(i) => match spec_body(d) {
            Err(_) => Err(FailureCode::DocumentInvalid),
            Ok(body) => {
                let t = body_tables(d, body)[i];
                if spec_table_reason(d, t) is Some {
                    Err(FailureCode::UnsupportedOperation)
                } else if op.cells@.len() + 1 != table_rows(d, t).len() {
                    Err(FailureCode::PreconditionFailed)
                } else {
                    match cells_text(d, row_cells(d, table_rows(d, t)[0])) {
                        None => Err(FailureCode::DocumentInvalid),
                        Some(headers) => match spec_column(headers, i, op.after_column_handle, op.after_column_header@) {
                            Err(c) => Err(c),
                            Ok(column) => if column >= headers.len() {
                                Err(FailureCode::TargetNotFound)
                            } else {
                                Ok((i, column))
                            },
                        },
                    }
                }
            },
        },
    }
}

/// Every step of a column insertion can be taken: the checks pass, the table has an
/// explicit grid of its width, each new cell can be made, the texts of the tables read,
/// the patches do not overlap, and the edited part parses with the tables and the grid
/// as asked.
pub open spec fn column_insertable(d: &SourceDocument, op: InsertTableColumnAfter) -> bool {
    &&& column_precheck(d, op) matches Ok((i, column))
    &&& spec_body(d) matches Ok(body)
    &&& explicit_grid(d, body_tables(d, body)[i], row_cells(d, table_rows(d, body_tables(d, body)[i])[0]).len() as int)
    &&& forall|k: int|
        0 <= k < table_rows(d, body_tables(d, body)[i]).len() ==> new_cell_markup(
            d,
            #[trigger] table_rows(d, body_tables(d, body)[i])[k],
            column,
            if k == 0 { op.header@ } else { op.cells@[k - 1]@ },
        ) is Some
    &&& tables_texts(d, body_tables(d, body)) matches Some(all)
    &&& forall|ps: Seq<Patch>, order: Seq<usize>|
        #![trigger column_patches_ok(d, body_tables(d, body)[i], column, op.header@, op.cells@, ps), stable_order(order, span_keys(ps), ps.len() as int)]
        column_patches_ok(d, body_tables(d, body)[i], column, op.header@, op.cells@, ps) && stable_order(
            order,
            span_keys(ps),
            ps.len() as int,
        ) ==> {
            &&& crate::mutation::common::disjoint(arranged(ps, order))
            &&& crate::mutation::table_edit::tables_read_back_all(
                patched(d.bytes@, arranged(ps, order)),
                all.update(i, column_inserted(all[i], column, op.header@, op.cells@)),
            )
            &&& grid_reads_back_all(patched(d.bytes@, arranged(ps, order)), i)
        }
}

/// Inserts a column after a column, named by its handle or its header, of a simple
/// direct body table with an explicit grid: the grid column is copied after it, and
/// each row gets a new cell after its cell in that column, shaped like that cell when it
/// is a safe template. The edited part is read back: the table must hold the new column,
/// every other text must stay, and the grid must still match the table's width.
#[verifier::spinoff_prover]
#[verifier::rlimit(60)]
pub fn insert_table_column_after_to_vec(source: &SourceDocument, operation: &InsertTableColumnAfter) -> (r: Result<Vec<u8>, OperationFailure>)
    requires
        source.wf(),
    ensures
        spec_resolve_table(source, operation.table) is Err ==> (r matches Err(e) && Err::<int, FailureCode>(e.code) == spec_resolve_table(source, operation.table)),
        column_precheck(source, *operation) matches Err(c) ==> (r matches Err(e) && e.code == c),
        r matches Ok(out) ==> column_added(source, *operation, out@),
        r is Err ==> !column_insertable(source, *operation),
{
    let resolved = match resolve_table(source, &operation.table) {
        Ok(t) => t,
        Err(e) => return Err(e),
    };
    let ghost i = resolved.index as int;
    let ghost body = crate::mutation::table_edit::body_of(source);
    assert(body_tables(source, body)[i] == resolved.table);
    match table_mutation_reason(source, resolved.table) {
        Some(reason) => {
            return Err(unsupported("insert_table_column supports only simple rectangular tables without merges, nesting, or revisions").with_reason_code(reason.as_str()));
        },
        None => {},
    }
    if operation.cells.len() != resolved.rows.len() - 1 {
        return Err(OperationFailure::failed(FailureCode::PreconditionFailed, "column cell count must match the table data-row count"));
    }
    let headers = crate::mutation::table_edit::cell_texts(source, resolved.rows[0])?;
    proof {
        lemma_cells_len(source, row_cells(source, resolved.rows@[0]));
    }
    let column = resolve_column(&headers, resolved.index, &operation.after_column_handle, &operation.after_column_header)?;
    if column >= headers.len() {
        return Err(OperationFailure::failed(FailureCode::TargetNotFound, "table column handle was not found"));
    }
    assert(column_precheck(source, *operation) == Ok::<(int, int), FailureCode>((i, column as int)));
    let cols = match explicit_table_grid(source, resolved.table, headers.len()) {
        Ok(c) => c,
        Err(e) => {
            assert(!column_insertable(source, *operation));
            return Err(e);
        },
    };
    let patches = match column_patches(source, &resolved, column, &cols, &operation.header, &operation.cells) {
        Ok(p) => p,
        Err(e) => {
            proof {
                let k = choose|k: int| 0 <= k < resolved.rows@.len() && new_cell_markup(
                    source,
                    #[trigger] resolved.rows@[k],
                    column as int,
                    if k == 0 { operation.header@ } else { operation.cells@[k - 1]@ },
                ) is None;
                assert(table_rows(source, body_tables(source, body)[i])[k] == resolved.rows@[k]);
            }
            return Err(e);
        },
    };
    let ghost ps = patches@;
    let out = match apply_patches(source, patches) {
        Ok(o) => o,
        Err(e) => {
            proof {
                let order = choose|order: Seq<usize>| stable_order(order, span_keys(ps), ps.len() as int)
                    && !crate::mutation::common::disjoint(arranged(ps, order));
                if column_insertable(source, *operation) {
                    assert(column_patches_ok(source, body_tables(source, body)[i], column as int, operation.header@, operation.cells@, ps));
                    assert(stable_order(order, span_keys(ps), ps.len() as int));
                }
            }
            return Err(e);
        },
    };
    let ghost order = choose|order: Seq<usize>| stable_order(order, span_keys(ps), ps.len() as int)
        && crate::mutation::common::disjoint(arranged(ps, order)) && out@ == patched(source.bytes@, arranged(ps, order));
    let mut expected = all_table_rows(source)?;
    let old_rows = match table_texts(source, resolved.table) {
        Ok(v) => v,
        Err(e) => {
            proof {
                crate::mutation::table_edit::lemma_texts_at(source, body_tables(source, body), i);
            }
            return Err(e);
        },
    };
    proof {
        crate::mutation::table_edit::lemma_texts_len(source, body_tables(source, crate::mutation::table_edit::body_of(source)));
        crate::mutation::table_edit::lemma_rows_len(source, table_rows(source, resolved.table));
        crate::mutation::table_edit::lemma_texts_at(source, body_tables(source, crate::mutation::table_edit::body_of(source)), resolved.index as int);
        assert forall|x: int| 0 <= x < old_rows@.len() implies column < (#[trigger] old_rows@[x])@.len() by {
            lemma_row_texts_widths(source, resolved.rows@, x);
            assert(row_cells(source, resolved.rows@[x]).len() == row_cells(source, resolved.rows@[0]).len());
            assert(rows_view(old_rows@)[x] == texts_view(old_rows@[x]@));
        }
    }
    let new_rows = rows_with_column(&old_rows, column, &operation.header, &operation.cells);
    let ghost before = expected@;
    expected.set(resolved.index, new_rows);
    assert(tables_view(expected@) =~= tables_view(before).update(resolved.index as int, rows_view(new_rows@)));
    match check_tables(&out, &expected) {
        Ok(()) => {},
        Err(e) => {
            proof {
                if column_insertable(source, *operation) {
                    assert(column_patches_ok(source, body_tables(source, body)[i], column as int, operation.header@, operation.cells@, ps));
                    assert(stable_order(order, span_keys(ps), ps.len() as int));
                }
            }
            return Err(e);
        },
    }
    match check_grid(&out, resolved.index) {
        Ok(()) => {},
        Err(e) => {
            proof {
                if column_insertable(source, *operation) {
                    assert(column_patches_ok(source, body_tables(source, body)[i], column as int, operation.header@, operation.cells@, ps));
                    assert(stable_order(order, span_keys(ps), ps.len() as int));
                }
            }
            return Err(e);
        },
    }
    Ok(out)
}

proof fn lemma_row_texts_widths(d: &SourceDocument, rows: Seq<NodeId>, x: int)
    requires
        0 <= x < rows.len(),
    ensures
        crate::mutation::table_edit::rows_texts(d, rows) matches Some(t) ==> t[x].len() == row_cells(d, rows[x]).len(),
    decreases rows.len(),
{
    crate::mutation::table_edit::lemma_rows_len(d, rows.drop_last());
    if x < rows.len() - 1 {
        lemma_row_texts_widths(d, rows.drop_last(), x);
    } else {
        lemma_cells_len(d, row_cells(d, rows.last()));
    }
}

// ---------------------------------------------------------------------------
// Deleting a column
// ---------------------------------------------------------------------------

/// The texts of a table's rows without the column.
pub open spec fn column_removed(rows: Seq<Seq<Seq<u8>>>, column: int) -> Seq<Seq<Seq<u8>>> {
    Seq::new(rows.len(), |k: int| rows[k].remove(column))
}

/// The patches of a column deletion: the grid column, then the row's cell in that
/// column, row by row, each removed.
pub open spec fn removal_patches_ok(d: &SourceDocument, t: NodeId, column: int, ps: Seq<Patch>) -> bool {
    let rows = table_rows(d, t);
    &&& grid_columns(d, t) matches Some(cols)
    &&& ps.len() == rows.len() + 1
    &&& ps[0].span == d.spec_span(cols[column].0 as int) && ps[0].replacement@.len() == 0
    &&& forall|k: int| 0 <= k < rows.len() ==> (#[trigger] ps[k + 1]).span == d.spec_span(row_cells(d, rows[k])[column].0 as int)
        && ps[k + 1].replacement@.len() == 0
}

/// A column deletion was allowed, and what it made of the part.
pub open spec fn column_deleted(d: &SourceDocument, op: DeleteTableColumn, out: Seq<u8>) -> bool {
    &&& spec_resolve_table(d, op.table) matches Ok(i)
    &&& spec_body(d) matches Ok(body)
    &&& spec_table_reason(d, body_tables(d, body)[i]) is None
    &&& cells_text(d, row_cells(d, table_rows(d, body_tables(d, body)[i])[0])) matches Some(headers)
    &&& headers.len() > 1
    &&& spec_column(headers, i, op.column_handle, op.column_header@) matches Ok(column)
    &&& column < headers.len()
    &&& exists|ps: Seq<Patch>, order: Seq<usize>|
        removal_patches_ok(d, body_tables(d, body)[i], column, ps) && stable_order(order, span_keys(ps), ps.len() as int)
            && out == patched(d.bytes@, arranged(ps, order))
    &&& tables_texts(d, body_tables(d, body)) matches Some(all)
    &&& tables_read_back(out, all.update(i, column_removed(all[i], column)))
    &&& grid_reads_back(out, i)
}

/// Every step of a column deletion can be taken: the table resolves and is simple, its
/// header row reads and has more than one cell (else `LAST_TABLE_COLUMN`), the column
/// resolves within the width, the table has an explicit grid of its width, its texts
/// read, the patches do not overlap, and the edited part parses with the tables and the
/// grid as asked.
pub open spec fn column_deletable(d: &SourceDocument, op: DeleteTableColumn) -> bool {
    &&& spec_resolve_table(d, op.table) matches Ok(i)
    &&& spec_body(d) matches Ok(body)
    &&& spec_table_reason(d, body_tables(d, body)[i]) is None
    &&& cells_text(d, row_cells(d, table_rows(d, body_tables(d, body)[i])[0])) matches Some(headers)
    &&& headers.len() > 1
    &&& spec_column(headers, i, op.column_handle, op.column_header@) matches Ok(column)
    &&& column < headers.len()
    &&& explicit_grid(d, body_tables(d, body)[i], headers.len() as int)
    &&& tables_texts(d, body_tables(d, body)) matches Some(all)
    &&& forall|ps: Seq<Patch>, order: Seq<usize>|
        #![trigger removal_patches_ok(d, body_tables(d, body)[i], column, ps), stable_order(order, span_keys(ps), ps.len() as int)]
        removal_patches_ok(d, body_tables(d, body)[i], column, ps) && stable_order(order, span_keys(ps), ps.len() as int) ==> {
            &&& crate::mutation::common::disjoint(arranged(ps, order))
            &&& crate::mutation::table_edit::tables_read_back_all(
                patched(d.bytes@, arranged(ps, order)),
                all.update(i, column_removed(all[i], column)),
            )
            &&& grid_reads_back_all(patched(d.bytes@, arranged(ps, order)), i)
        }
}

/// The table a column deletion names is simple and has one column.
pub open spec fn last_column(d: &SourceDocument, op: DeleteTableColumn) -> bool {
    &&& spec_resolve_table(d, op.table) matches Ok(i)
    &&& spec_body(d) matches Ok(body)
    &&& spec_table_reason(d, body_tables(d, body)[i]) is None
    &&& cells_text(d, row_cells(d, table_rows(d, body_tables(d, body)[i])[0])) matches Some(headers)
    &&& headers.len() == 1
}

#[verifier::rlimit(40)]
fn removal_patches(source: &SourceDocument, resolved: &ResolvedTable, column: usize, cols: &Vec<NodeId>) -> (r: Vec<Patch>)
    requires
        source.wf(),
        resolved.rows@ == table_rows(source, resolved.table),
        resolved.rows@.len() > 0,
        forall|j: int| 0 <= j < resolved.rows@.len() ==> source.valid_id(#[trigger] resolved.rows@[j]),
        crate::mutation::table_edit::rectangular_table(source, resolved.table),
        column < row_cells(source, resolved.rows@[0]).len(),
        grid_columns(source, resolved.table) == Some(cols@),
        column < cols@.len(),
        forall|k: int| 0 <= k < cols@.len() ==> source.valid_id(#[trigger] cols@[k]),
    ensures
        removal_patches_ok(source, resolved.table, column as int, r@),
        in_bounds(r@, source.bytes@.len() as int),
{
    let mut patches: Vec<Patch> = Vec::new();
    patches.push(Patch { span: source.span(cols[column]), replacement: Vec::new() });
    let mut k: usize = 0;
    while k < resolved.rows.len()
        invariant
            source.wf(),
            resolved.rows@ == table_rows(source, resolved.table),
            forall|j: int| 0 <= j < resolved.rows@.len() ==> source.valid_id(#[trigger] resolved.rows@[j]),
            crate::mutation::table_edit::rectangular_table(source, resolved.table),
            column < row_cells(source, resolved.rows@[0]).len(),
            k <= resolved.rows@.len(),
            patches@.len() == k + 1,
            patches@[0].span == source.spec_span(cols@[column as int].0 as int),
            patches@[0].replacement@.len() == 0,
            in_bounds(patches@, source.bytes@.len() as int),
            forall|j: int| 0 <= j < k ==> (#[trigger] patches@[j + 1]).span == source.spec_span(
                row_cells(source, resolved.rows@[j])[column as int].0 as int,
            ) && patches@[j + 1].replacement@.len() == 0,
        decreases resolved.rows@.len() - k,
    {
        assert(row_cells(source, resolved.rows@[k as int]).len() == row_cells(source, resolved.rows@[0]).len());
        let cells = children_named(source, resolved.rows[k], "tc", "tc");
        let ghost before = patches@;
        patches.push(Patch { span: source.span(cells[column]), replacement: Vec::new() });
        proof {
            assert forall|j: int| 0 <= j < k + 1 implies (#[trigger] patches@[j + 1]).span == source.spec_span(
                row_cells(source, resolved.rows@[j])[column as int].0 as int,
            ) && patches@[j + 1].replacement@.len() == 0 by {
                if j < k {
                    assert(patches@[j + 1] == before[j + 1]);
                }
            }
        }
        k += 1;
    }
    patches
}

fn rows_without_column(old_rows: &Vec<Vec<Vec<u8>>>, column: usize) -> (r: Vec<Vec<Vec<u8>>>)
    requires
        forall|k: int| 0 <= k < old_rows@.len() ==> column < (#[trigger] old_rows@[k])@.len(),
    ensures
        rows_view(r@) == column_removed(rows_view(old_rows@), column as int),
{
    let ghost target = column_removed(rows_view(old_rows@), column as int);
    let mut out: Vec<Vec<Vec<u8>>> = Vec::new();
    let mut k: usize = 0;
    while k < old_rows.len()
        invariant
            forall|x: int| 0 <= x < old_rows@.len() ==> column < (#[trigger] old_rows@[x])@.len(),
            target == column_removed(rows_view(old_rows@), column as int),
            k <= old_rows@.len(),
            rows_view(out@) == target.take(k as int),
        decreases old_rows@.len() - k,
    {
        let mut row: Vec<Vec<u8>> = Vec::new();
        let mut j: usize = 0;
        while j < old_rows[k].len()
            invariant
                k < old_rows@.len(),
                j <= old_rows@[k as int]@.len(),
                texts_view(row@) == texts_view(old_rows@[k as int]@).take(j as int),
            decreases old_rows@[k as int]@.len() - j,
        {
            let ghost before = row@;
            row.push(crate::bytes::copy_bytes(old_rows[k][j].as_slice()));
            assert(texts_view(row@) =~= texts_view(before).push(row@.last()@));
            assert(texts_view(row@) =~= texts_view(old_rows@[k as int]@).take(j as int + 1));
            j += 1;
        }
        assert(texts_view(old_rows@[k as int]@).take(old_rows@[k as int]@.len() as int) =~= texts_view(old_rows@[k as int]@));
        let ghost before_row = row@;
        row.remove(column);
        assert(texts_view(row@) =~= texts_view(before_row).remove(column as int));
        let ghost before = out@;
        out.push(row);
        assert(rows_view(out@) =~= rows_view(before).push(texts_view(out@.last()@)));
        assert(rows_view(out@) =~= target.take(k as int + 1));
        k += 1;
    }
    assert(target.take(old_rows@.len() as int) =~= target);
    out
}

/// Deletes a column, named by its handle or its header, of a simple direct body table
/// with an explicit grid; the last column stays (deleting it takes deleting the table).
/// The grid column and each row's cell in that column are removed. The edited part is
/// read back: the table must have lost that column, every other text must stay, and the
/// grid must still match the table's width.
#[verifier::spinoff_prover]
#[verifier::rlimit(60)]
pub fn delete_table_column_to_vec(source: &SourceDocument, operation: &DeleteTableColumn) -> (r: Result<Vec<u8>, OperationFailure>)
    requires
        source.wf(),
    ensures
        spec_resolve_table(source, operation.table) is Err ==> (r matches Err(e) && Err::<int, FailureCode>(e.code) == spec_resolve_table(source, operation.table)),
        r matches Ok(out) ==> column_deleted(source, *operation, out@),
        last_column(source, *operation) ==> (r matches Err(e) && e.code == FailureCode::PreconditionFailed
            && e.reason_code == Some("LAST_TABLE_COLUMN")),
        r is Err ==> !column_deletable(source, *operation),
{
    let resolved = match resolve_table(source, &operation.table) {
        Ok(t) => t,
        Err(e) => return Err(e),
    };
    let ghost i = resolved.index as int;
    let ghost body = crate::mutation::table_edit::body_of(source);
    assert(body_tables(source, body)[i] == resolved.table);
    match table_mutation_reason(source, resolved.table) {
        Some(reason) => {
            return Err(unsupported("delete_table_column supports only simple rectangular tables").with_reason_code(reason.as_str()));
        },
        None => {},
    }
    let headers = crate::mutation::table_edit::cell_texts(source, resolved.rows[0])?;
    proof {
        lemma_cells_len(source, row_cells(source, resolved.rows@[0]));
    }
    if headers.len() == 1 {
        return Err(OperationFailure::failed(FailureCode::PreconditionFailed, "deleting the final table column requires delete_table").with_reason_code("LAST_TABLE_COLUMN"));
    }
    let column = resolve_column(&headers, resolved.index, &operation.column_handle, &operation.column_header)?;
    if column >= headers.len() {
        return Err(OperationFailure::failed(FailureCode::TargetNotFound, "table column handle was not found"));
    }
    let cols = match explicit_table_grid(source, resolved.table, headers.len()) {
        Ok(c) => c,
        Err(e) => {
            assert(!column_deletable(source, *operation));
            return Err(e);
        },
    };
    let patches = removal_patches(source, &resolved, column, &cols);
    let ghost ps = patches@;
    let out = match apply_patches(source, patches) {
        Ok(o) => o,
        Err(e) => {
            proof {
                let order = choose|order: Seq<usize>| stable_order(order, span_keys(ps), ps.len() as int)
                    && !crate::mutation::common::disjoint(arranged(ps, order));
                if column_deletable(source, *operation) {
                    assert(removal_patches_ok(source, body_tables(source, body)[i], column as int, ps));
                    assert(stable_order(order, span_keys(ps), ps.len() as int));
                }
            }
            return Err(e);
        },
    };
    let ghost order = choose|order: Seq<usize>| stable_order(order, span_keys(ps), ps.len() as int)
        && crate::mutation::common::disjoint(arranged(ps, order)) && out@ == patched(source.bytes@, arranged(ps, order));
    let mut expected = all_table_rows(source)?;
    let old_rows = match table_texts(source, resolved.table) {
        Ok(v) => v,
        Err(e) => {
            proof {
                crate::mutation::table_edit::lemma_texts_at(source, body_tables(source, body), i);
            }
            return Err(e);
        },
    };
    proof {
        crate::mutation::table_edit::lemma_texts_len(source, body_tables(source, crate::mutation::table_edit::body_of(source)));
        crate::mutation::table_edit::lemma_rows_len(source, table_rows(source, resolved.table));
        crate::mutation::table_edit::lemma_texts_at(source, body_tables(source, crate::mutation::table_edit::body_of(source)), resolved.index as int);
        assert forall|x: int| 0 <= x < old_rows@.len() implies column < (#[trigger] old_rows@[x])@.len() by {
            lemma_row_texts_widths(source, resolved.rows@, x);
            assert(row_cells(source, resolved.rows@[x]).len() == row_cells(source, resolved.rows@[0]).len());
            assert(rows_view(old_rows@)[x] == texts_view(old_rows@[x]@));
        }
    }
    let new_rows = rows_without_column(&old_rows, column);
    let ghost before = expected@;
    expected.set(resolved.index, new_rows);
    assert(tables_view(expected@) =~= tables_view(before).update(resolved.index as int, rows_view(new_rows@)));
    match check_tables(&out, &expected) {
        Ok(()) => {},
        Err(e) => {
            proof {
                if column_deletable(source, *operation) {
                    assert(removal_patches_ok(source, body_tables(source, body)[i], column as int, ps));
                    assert(stable_order(order, span_keys(ps), ps.len() as int));
                }
            }
            return Err(e);
        },
    }
    match check_grid(&out, resolved.index) {
        Ok(()) => {},
        Err(e) => {
            proof {
                if column_deletable(source, *operation) {
                    assert(removal_patches_ok(source, body_tables(source, body)[i], column as int, ps));
                    assert(stable_order(order, span_keys(ps), ps.len() as int));
                }
            }
            return Err(e);
        },
    }
    Ok(out)
}

} // verus!
