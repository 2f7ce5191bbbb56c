use vstd::prelude::*;
use vstd::string::StringSliceAdditionalSpecFns;

use crate::bytes::{copy_bytes, copy_range, find_from, occurs_at, utf8_string};
use crate::document::{spec_body, DocxDocument};
use crate::mutation::common::{apply_single_patch, document_invalid, unicode_space, Patch};
use crate::mutation::page_break::block_text;
use crate::mutation::paragraph::{find_revision_wrapper, has_revision_wrapper};
use crate::numbers::{parse_usize, unsigned_value};
use crate::protocol::{unsupported, DeleteTable, DeleteTableRow, FailureCode, OperationFailure, TableTarget};
use crate::source::{NodeId, SourceDocument};
use crate::wordml::{children_named, collect_text, is_word, named_among, word};

verus! {

/// The direct tables of a body, in order.
pub open spec fn body_tables(d: &SourceDocument, body: NodeId) -> Seq<NodeId> {
    named_among(d, d.spec_children(body.0 as int), "tbl".spec_bytes(), "tbl".spec_bytes())
}

/// The rows of a table: its `w:tr` children.
pub open spec fn table_rows(d: &SourceDocument, t: NodeId) -> Seq<NodeId> {
    named_among(d, d.spec_children(t.0 as int), "tr".spec_bytes(), "tr".spec_bytes())
}

/// The cells of a row: its `w:tc` children.
pub open spec fn row_cells(d: &SourceDocument, r: NodeId) -> Seq<NodeId> {
    named_among(d, d.spec_children(r.0 as int), "tc".spec_bytes(), "tc".spec_bytes())
}

/// The texts of some cells; `None` when one cannot be read.
pub open spec fn cells_text(d: &SourceDocument, cells: Seq<NodeId>) -> Option<Seq<Seq<u8>>>
    decreases cells.len(),
{
    if cells.len() == 0 {
        Some(seq![])
    } else {
        match (cells_text(d, cells.drop_last()), block_text(d, cells.last())) {
            (Some(rest), Some(t)) => Some(rest.push(t)),
            _ => None,
        }
    }
}

/// The texts of the rows of a table, cell by cell.
pub open spec fn rows_texts(d: &SourceDocument, rows: Seq<NodeId>) -> Option<Seq<Seq<Seq<u8>>>>
    decreases rows.len(),
{
    if rows.len() == 0 {
        Some(seq![])
    } else {
        match (rows_texts(d, rows.drop_last()), cells_text(d, row_cells(d, rows.last()))) {
            (Some(rest), Some(t)) => Some(rest.push(t)),
            _ => None,
        }
    }
}

/// The texts of some tables, row by row and cell by cell.
pub open spec fn tables_texts(d: &SourceDocument, tables: Seq<NodeId>) -> Option<Seq<Seq<Seq<Seq<u8>>>>>
    decreases tables.len(),
{
    if tables.len() == 0 {
        Some(seq![])
    } else {
        match (tables_texts(d, tables.drop_last()), rows_texts(d, table_rows(d, tables.last()))) {
            (Some(rest), Some(t)) => Some(rest.push(t)),
            _ => None,
        }
    }
}

pub open spec fn texts_view(v: Seq<Vec<u8>>) -> Seq<Seq<u8>> {
    v.map_values(|x: Vec<u8>| x@)
}

pub open spec fn rows_view(v: Seq<Vec<Vec<u8>>>) -> Seq<Seq<Seq<u8>>> {
    v.map_values(|x: Vec<Vec<u8>>| texts_view(x@))
}

pub open spec fn tables_view(v: Seq<Vec<Vec<Vec<u8>>>>) -> Seq<Seq<Seq<Seq<u8>>>> {
    v.map_values(|x: Vec<Vec<Vec<u8>>>| rows_view(x@))
}

pub fn cell_texts(source: &SourceDocument, row: NodeId) -> (r: Result<Vec<Vec<u8>>, OperationFailure>)
    requires
        source.wf(),
        source.valid_id(row),
    ensures
        match r {
            Ok(v) => cells_text(source, row_cells(source, row)) == Some(texts_view(v@)),
            Err(e) => cells_text(source, row_cells(source, row)) is None && e.code == FailureCode::DocumentInvalid,
        },
{
    let cells = children_named(source, row, "tc", "tc");
    let mut out: Vec<Vec<u8>> = Vec::new();
    let mut k: usize = 0;
    while k < cells.len()
        invariant
            source.wf(),
            cells@ == row_cells(source, row),
            forall|j: int| 0 <= j < cells@.len() ==> source.valid_id(#[trigger] cells@[j]),
            k <= cells@.len(),
            cells_text(source, cells@.take(k as int)) == Some(texts_view(out@)),
        decreases cells@.len() - k,
    {
        assert(cells@.take(k as int + 1).drop_last() =~= cells@.take(k as int));
        let span = source.span(cells[k]);
        let text = match collect_text(source, "t", span.start, span.end, false) {
            Ok(t) => t,
            Err(_) => {
                proof {
                    lemma_cells_text_none(source, cells@, k as int + 1);
                }
                return Err(document_invalid());
            },
        };
        let ghost before = out@;
        out.push(text);
        assert(texts_view(out@) =~= texts_view(before).push(out@.last()@));
        k += 1;
    }
    assert(cells@.take(cells@.len() as int) =~= cells@);
    Ok(out)
}

proof fn lemma_cells_text_none(d: &SourceDocument, cells: Seq<NodeId>, k: int)
    requires
        0 <= k <= cells.len(),
        cells_text(d, cells.take(k)) is None,
    ensures
        cells_text(d, cells) is None,
    decreases cells.len() - k,
{
    if k < cells.len() {
        assert(cells.take(k + 1).drop_last() =~= cells.take(k));
        lemma_cells_text_none(d, cells, k + 1);
    } else {
        assert(cells.take(k) =~= cells);
    }
}

proof fn lemma_rows_texts_none(d: &SourceDocument, rows: Seq<NodeId>, k: int)
    requires
        0 <= k <= rows.len(),
        rows_texts(d, rows.take(k)) is None,
    ensures
        rows_texts(d, rows) is None,
    decreases rows.len() - k,
{
    if k < rows.len() {
        assert(rows.take(k + 1).drop_last() =~= rows.take(k));
        lemma_rows_texts_none(d, rows, k + 1);
    } else {
        assert(rows.take(k) =~= rows);
    }
}

proof fn lemma_tables_texts_none(d: &SourceDocument, tables: Seq<NodeId>, k: int)
    requires
        0 <= k <= tables.len(),
        tables_texts(d, tables.take(k)) is None,
    ensures
        tables_texts(d, tables) is None,
    decreases tables.len() - k,
{
    if k < tables.len() {
        assert(tables.take(k + 1).drop_last() =~= tables.take(k));
        lemma_tables_texts_none(d, tables, k + 1);
    } else {
        assert(tables.take(k) =~= tables);
    }
}

/// The texts of a table's rows.
pub fn table_texts(source: &SourceDocument, table: NodeId) -> (r: Result<Vec<Vec<Vec<u8>>>, OperationFailure>)
    requires
        source.wf(),
        source.valid_id(table),
    ensures
        match r {
            Ok(v) => rows_texts(source, table_rows(source, table)) == Some(rows_view(v@)),
            Err(e) => rows_texts(source, table_rows(source, table)) is None && e.code == FailureCode::DocumentInvalid,
        },
{
    let rows = children_named(source, table, "tr", "tr");
    let mut out: Vec<Vec<Vec<u8>>> = Vec::new();
    let mut k: usize = 0;
    while k < rows.len()
        invariant
            source.wf(),
            rows@ == table_rows(source, table),
            forall|j: int| 0 <= j < rows@.len() ==> source.valid_id(#[trigger] rows@[j]),
            k <= rows@.len(),
            rows_texts(source, rows@.take(k as int)) == Some(rows_view(out@)),
        decreases rows@.len() - k,
    {
        assert(rows@.take(k as int + 1).drop_last() =~= rows@.take(k as int));
        let texts = match cell_texts(source, rows[k]) {
            Ok(t) => t,
            Err(e) => {
                proof {
                    lemma_rows_texts_none(source, rows@, k as int + 1);
                }
                return Err(e);
            },
        };
        let ghost before = out@;
        out.push(texts);
        assert(rows_view(out@) =~= rows_view(before).push(texts_view(out@.last()@)));
        k += 1;
    }
    assert(rows@.take(rows@.len() as int) =~= rows@);
    Ok(out)
}

/// The texts of every direct body table.
pub fn all_table_rows(source: &SourceDocument) -> (r: Result<Vec<Vec<Vec<Vec<u8>>>>, OperationFailure>)
    requires
        source.wf(),
    ensures
        match r {
            Ok(v) => spec_body(source) matches Ok(body) && tables_texts(source, body_tables(source, body)) == Some(tables_view(v@)),
            Err(e) => e.code == FailureCode::DocumentInvalid && match spec_body(source) {
                Ok(body) => tables_texts(source, body_tables(source, body)) is None,
                Err(_) => true,
            },
        },
{
    let document = match DocxDocument::new(source) {
        Ok(d) => d,
        Err(_) => return Err(document_invalid()),
    };
    let body = document.body_id();
    let tables = children_named(source, body, "tbl", "tbl");
    let mut out: Vec<Vec<Vec<Vec<u8>>>> = Vec::new();
    let mut k: usize = 0;
    while k < tables.len()
        invariant
            source.wf(),
            spec_body(source) == Ok::<NodeId, crate::wordml::SemanticError>(body),
            tables@ == body_tables(source, body),
            forall|j: int| 0 <= j < tables@.len() ==> source.valid_id(#[trigger] tables@[j]),
            k <= tables@.len(),
            tables_texts(source, tables@.take(k as int)) == Some(tables_view(out@)),
        decreases tables@.len() - k,
    {
        assert(tables@.take(k as int + 1).drop_last() =~= tables@.take(k as int));
        let texts = match table_texts(source, tables[k]) {
            Ok(t) => t,
            Err(e) => {
                proof {
                    lemma_tables_texts_none(source, tables@, k as int + 1);
                }
                return Err(e);
            },
        };
        let ghost before = out@;
        out.push(texts);
        assert(tables_view(out@) =~= tables_view(before).push(rows_view(out@.last()@)));
        k += 1;
    }
    assert(tables@.take(tables@.len() as int) =~= tables@);
    Ok(out)
}

fn same_texts(a: &Vec<Vec<u8>>, b: &Vec<Vec<u8>>) -> (r: bool)
    ensures
        r == (texts_view(a@) == texts_view(b@)),
{
    if a.len() != b.len() {
        assert(texts_view(a@).len() != texts_view(b@).len());
        return false;
    }
    let mut k: usize = 0;
    while k < a.len()
        invariant
            a@.len() == b@.len(),
            k <= a@.len(),
            forall|j: int| 0 <= j < k ==> texts_view(a@)[j] == texts_view(b@)[j],
        decreases a@.len() - k,
    {
        if !crate::bytes::bytes_equal(a[k].as_slice(), b[k].as_slice()) {
            assert(texts_view(a@)[k as int] != texts_view(b@)[k as int]);
            return false;
        }
        k += 1;
    }
    assert(texts_view(a@) =~= texts_view(b@));
    true
}

fn same_rows(a: &Vec<Vec<Vec<u8>>>, b: &Vec<Vec<Vec<u8>>>) -> (r: bool)
    ensures
        r == (rows_view(a@) == rows_view(b@)),
{
    if a.len() != b.len() {
        assert(rows_view(a@).len() != rows_view(b@).len());
        return false;
    }
    let mut k: usize = 0;
    while k < a.len()
        invariant
            a@.len() == b@.len(),
            k <= a@.len(),
            forall|j: int| 0 <= j < k ==> rows_view(a@)[j] == rows_view(b@)[j],
        decreases a@.len() - k,
    {
        if !same_texts(&a[k], &b[k]) {
            assert(rows_view(a@)[k as int] != rows_view(b@)[k as int]);
            return false;
        }
        k += 1;
    }
    assert(rows_view(a@) =~= rows_view(b@));
    true
}

fn same_tables(a: &Vec<Vec<Vec<Vec<u8>>>>, b: &Vec<Vec<Vec<Vec<u8>>>>) -> (r: bool)
    ensures
        r == (tables_view(a@) == tables_view(b@)),
{
    if a.len() != b.len() {
        assert(tables_view(a@).len() != tables_view(b@).len());
        return false;
    }
    let mut k: usize = 0;
    while k < a.len()
        invariant
            a@.len() == b@.len(),
            k <= a@.len(),
            forall|j: int| 0 <= j < k ==> tables_view(a@)[j] == tables_view(b@)[j],
        decreases a@.len() - k,
    {
        if !same_rows(&a[k], &b[k]) {
            assert(tables_view(a@)[k as int] != tables_view(b@)[k as int]);
            return false;
        }
        k += 1;
    }
    assert(tables_view(a@) =~= tables_view(b@));
    true
}

// ---------------------------------------------------------------------------
// Labels
// ---------------------------------------------------------------------------

/// The index of the first character of `s[i..]` that is not white space.
pub open spec fn first_kept(s: Seq<char>, i: int) -> int
    decreases s.len() - i,
{
    if 0 <= i < s.len() && unicode_space(s[i]) {
        first_kept(s, i + 1)
    } else {
        i
    }
}

/// The end of `s[lo..j]` once trailing white space is dropped.
pub open spec fn last_kept(s: Seq<char>, lo: int, j: int) -> int
    decreases j - lo,
{
    if j > lo && unicode_space(s[j - 1]) {
        last_kept(s, lo, j - 1)
    } else {
        j
    }
}

/// The text without leading and trailing white space, as `str::trim` gives it.
pub open spec fn trimmed(s: Seq<char>) -> Seq<char> {
    let a = first_kept(s, 0);
    s.subrange(a, last_kept(s, a, s.len() as int))
}

proof fn lemma_first_kept(s: Seq<char>, i: int)
    requires
        0 <= i <= s.len(),
    ensures
        i <= first_kept(s, i) <= s.len(),
    decreases s.len() - i,
{
    if i < s.len() && unicode_space(s[i]) {
        lemma_first_kept(s, i + 1);
    }
}

proof fn lemma_last_kept(s: Seq<char>, lo: int, j: int)
    requires
        lo <= j,
    ensures
        lo <= last_kept(s, lo, j) <= j,
    decreases j - lo,
{
    if j > lo && unicode_space(s[j - 1]) {
        lemma_last_kept(s, lo, j - 1);
    }
}

fn trim_bounds(s: &str) -> (r: (usize, usize))
    ensures
        r.0 == first_kept(s@, 0),
        r.1 == last_kept(s@, r.0 as int, s@.len() as int),
        r.0 <= r.1 <= s@.len(),
{
    let n = s.unicode_len();
    let mut a: usize = 0;
    while a < n && crate::mutation::common::is_space_char(s.get_char(a))
        invariant
            n == s@.len(),
            a <= n,
            first_kept(s@, 0) == first_kept(s@, a as int),
        decreases n - a,
    {
        a += 1;
    }
    let mut b: usize = n;
    while b > a && crate::mutation::common::is_space_char(s.get_char(b - 1))
        invariant
            n == s@.len(),
            a <= b <= n,
            last_kept(s@, a as int, n as int) == last_kept(s@, a as int, b as int),
        decreases b - a,
    {
        b -= 1;
    }
    (a, b)
}

/// Whether two texts are the same once trimmed.
pub fn same_label(actual: &str, requested: &str) -> (r: bool)
    ensures
        r == (trimmed(actual@) == trimmed(requested@)),
{
    let (a0, a1) = trim_bounds(actual);
    let (b0, b1) = trim_bounds(requested);
    if a1 - a0 != b1 - b0 {
        assert(trimmed(actual@).len() != trimmed(requested@).len());
        return false;
    }
    let mut k: usize = 0;
    while k < a1 - a0
        invariant
            a0 <= a1 <= actual@.len(),
            b0 <= b1 <= requested@.len(),
            a1 - a0 == b1 - b0,
            a0 == first_kept(actual@, 0),
            a1 == last_kept(actual@, a0 as int, actual@.len() as int),
            b0 == first_kept(requested@, 0),
            b1 == last_kept(requested@, b0 as int, requested@.len() as int),
            k <= a1 - a0,
            forall|j: int| 0 <= j < k ==> trimmed(actual@)[j] == trimmed(requested@)[j],
        decreases a1 - a0 - k,
    {
        if actual.get_char(a0 + k) != requested.get_char(b0 + k) {
            assert(trimmed(actual@)[k as int] != trimmed(requested@)[k as int]);
            return false;
        }
        k += 1;
    }
    assert(trimmed(actual@) =~= trimmed(requested@));
    true
}

/// A cell text matches a requested label when both are the same once trimmed.
pub open spec fn label_matches(actual: Seq<u8>, requested: Seq<char>) -> bool {
    vstd::utf8::valid_utf8(actual) && trimmed(vstd::utf8::decode_utf8(actual)) == trimmed(requested)
}

pub open spec fn labels_match(actual: Seq<Seq<u8>>, requested: Seq<String>) -> bool {
    actual.len() == requested.len() && forall|k: int| 0 <= k < actual.len() ==> label_matches(
        #[trigger] actual[k],
        requested[k]@,
    )
}

pub fn cell_label_matches(actual: &Vec<u8>, requested: &String) -> (r: bool)
    ensures
        r == label_matches(actual@, requested@),
{
    match utf8_string(copy_bytes(actual.as_slice())) {
        Some(s) => same_label(s.as_str(), requested.as_str()),
        None => false,
    }
}

fn header_labels_match(actual: &Vec<Vec<u8>>, requested: &Vec<String>) -> (r: bool)
    ensures
        r == labels_match(texts_view(actual@), requested@),
{
    if actual.len() != requested.len() {
        return false;
    }
    let mut k: usize = 0;
    while k < actual.len()
        invariant
            actual@.len() == requested@.len(),
            k <= actual@.len(),
            forall|j: int| 0 <= j < k ==> label_matches(#[trigger] texts_view(actual@)[j], requested@[j]@),
        decreases actual@.len() - k,
    {
        if !cell_label_matches(&actual[k], &requested[k]) {
            assert(!label_matches(texts_view(actual@)[k as int], requested@[k as int]@));
            return false;
        }
        k += 1;
    }
    true
}

// ---------------------------------------------------------------------------
// Handles
// ---------------------------------------------------------------------------

/// The index a table handle (`t` and a number) names.
pub open spec fn spec_table_handle(h: Seq<u8>) -> Option<int> {
    if h.len() > 0 && h[0] == 0x74u8 {
        match unsigned_value(h.skip(1)) {
            Some(v) => if v <= usize::MAX {
                Some(v)
            } else {
                None
            },
            None => None,
        }
    } else {
        None
    }
}

pub fn parse_table_handle(h: &[u8]) -> (r: Result<usize, OperationFailure>)
    ensures
        match r {
            Ok(v) => spec_table_handle(h@) == Some(v as int),
            Err(e) => spec_table_handle(h@) is None && e.code == FailureCode::PreconditionFailed,
        },
{
    if h.len() == 0 || h[0] != 0x74u8 {
        return Err(OperationFailure::failed(FailureCode::PreconditionFailed, "table handle is malformed"));
    }
    let rest = copy_range(h, 1, h.len());
    assert(rest@ =~= h@.skip(1));
    match parse_usize(rest.as_slice()) {
        Some(v) => Ok(v),
        None => Err(OperationFailure::failed(FailureCode::PreconditionFailed, "table handle is malformed")),
    }
}

/// The first place `:r` occurs in a handle.
#[verifier::opaque]
pub open spec fn row_mark(h: Seq<u8>) -> Option<int> {
    if exists|i: int| occurs_at(h, i, seq![0x3au8, 0x72u8]) {
        Some(choose|i: int| occurs_at(h, i, seq![0x3au8, 0x72u8]) && forall|j: int| 0 <= j < i ==> !occurs_at(h, j, seq![0x3au8, 0x72u8]))
    } else {
        None
    }
}

/// The table and row a row handle (`tN:rM`) names: split at its first `:r`.
pub open spec fn spec_row_handle(h: Seq<u8>, i: int) -> Option<(int, int)> {
    match (spec_table_handle(h.take(i)), unsigned_value(h.skip(i + 2))) {
        (Some(t), Some(r)) => if r <= usize::MAX {
            Some((t, r))
        } else {
            None
        },
        _ => None,
    }
}

/// The table and row a row handle names, split at its first `:r`.
pub open spec fn spec_parse_row_handle(h: Seq<u8>) -> Option<(int, int)> {
    match row_mark(h) {
        Some(i) => spec_row_handle(h, i),
        None => None,
    }
}

proof fn lemma_row_mark(h: Seq<u8>, i: int)
    requires
        occurs_at(h, i, seq![0x3au8, 0x72u8]),
        forall|j: int| 0 <= j < i ==> !occurs_at(h, j, seq![0x3au8, 0x72u8]),
    ensures
        row_mark(h) == Some(i),
{
    reveal(row_mark);
    let m = choose|m: int| occurs_at(h, m, seq![0x3au8, 0x72u8]) && forall|j: int| 0 <= j < m ==> !occurs_at(h, j, seq![0x3au8, 0x72u8]);
    assert(occurs_at(h, m, seq![0x3au8, 0x72u8]));
    if m < i {
        assert(!occurs_at(h, m, seq![0x3au8, 0x72u8]));
    }
    if i < m {
        assert(!occurs_at(h, i, seq![0x3au8, 0x72u8]));
    }
}

pub fn parse_row_handle(h: &[u8]) -> (r: Result<(usize, usize), OperationFailure>)
    ensures
        match r {
            Ok((t, row)) => spec_parse_row_handle(h@) == Some((t as int, row as int)),
            Err(e) => spec_parse_row_handle(h@) is None && e.code == FailureCode::PreconditionFailed,
        },
{
    let mut mark: Vec<u8> = Vec::new();
    mark.push(0x3au8);
    mark.push(0x72u8);
    assert(mark@ =~= seq![0x3au8, 0x72u8]);
    let n = h.len();
    let i = match find_from(h, 0, mark.as_slice()) {
        Some(i) => i,
        None => {
            assert(!(exists|i: int| occurs_at(h@, i, seq![0x3au8, 0x72u8])));
            reveal(row_mark);
            return Err(OperationFailure::failed(FailureCode::PreconditionFailed, "row handle is malformed"));
        },
    };
    proof {
        lemma_row_mark(h@, i as int);
    }
    assert(occurs_at(h@, i as int, mark@));
    assert(mark@.len() == 2);
    assert(i + 2 <= h@.len());
    let head = copy_range(h, 0, i);
    let tail = copy_range(h, i + 2, n);
    assert(head@ =~= h@.take(i as int));
    assert(tail@ =~= h@.skip(i as int + 2));
    let t = match parse_table_handle(head.as_slice()) {
        Ok(t) => t,
        Err(e) => return Err(e),
    };
    let row = match parse_usize(tail.as_slice()) {
        Some(v) => v,
        None => return Err(OperationFailure::failed(FailureCode::PreconditionFailed, "row handle is malformed")),
    };
    assert(spec_row_handle(h@, i as int) == Some((t as int, row as int)));
    Ok((t, row))
}

// ---------------------------------------------------------------------------
// Resolving a table
// ---------------------------------------------------------------------------

/// The indices, among the first `k` direct tables, of the tables with rows that a target
/// names: by handle, else by header texts; `None` when a header text cannot be read.
pub open spec fn table_candidates(d: &SourceDocument, tables: Seq<NodeId>, labels: Seq<String>, handle: Option<int>, k: int) -> Option<Seq<int>>
    decreases k,
{
    if k <= 0 {
        Some(seq![])
    } else {
        match table_candidates(d, tables, labels, handle, k - 1) {
            None => None,
            Some(c) => {
                let rows = table_rows(d, tables[k - 1]);
                if rows.len() == 0 {
                    Some(c)
                } else {
                    match cells_text(d, row_cells(d, rows[0])) {
                        None => None,
                        Some(headers) => if (handle == Some(k - 1)) || (handle is None && labels_match(headers, labels)) {
                            Some(c.push(k - 1))
                        } else {
                            Some(c)
                        },
                    }
                }
            },
        }
    }
}

/// One of the candidates: the `occurrence`-th, else the only one.
pub open spec fn spec_select(c: Seq<int>, occurrence: Option<usize>) -> Result<int, FailureCode> {
    if c.len() == 0 {
        Err(FailureCode::TargetNotFound)
    } else {
        match occurrence {
            Some(o) => if o < c.len() {
                Ok(c[o as int])
            } else {
                Err(FailureCode::TargetNotFound)
            },
            None => if c.len() != 1 {
                Err(FailureCode::TargetAmbiguous)
            } else {
                Ok(c[0])
            },
        }
    }
}

/// The index, among the direct body tables, of the table with rows that the header
/// labels name, or that the handle's index names; `occurrence` picks one of several.
pub open spec fn spec_resolve_table_at(d: &SourceDocument, labels: Seq<String>, occurrence: Option<usize>, handle: Option<int>) -> Result<int, FailureCode> {
    match spec_body(d) {
        Err(_) => Err(FailureCode::DocumentInvalid),
        Ok(body) => {
            let tables = body_tables(d, body);
            match table_candidates(d, tables, labels, handle, tables.len() as int) {
                None => Err(FailureCode::DocumentInvalid),
                Some(c) => spec_select(c, occurrence),
            }
        },
    }
}

/// The index, among the direct body tables, of the table a target names.
pub open spec fn spec_resolve_table(d: &SourceDocument, target: TableTarget) -> Result<int, FailureCode> {
    match spec_body(d) {
        Err(_) => Err(FailureCode::DocumentInvalid),
        Ok(_) => {
            let handle = match target.handle {
                Some(h) => match spec_table_handle(vstd::utf8::encode_utf8(h@)) {
                    Some(v) => Ok(Some(v)),
                    None => Err(FailureCode::PreconditionFailed),
                },
                None => Ok(None),
            };
            match handle {
                Err(c) => Err(c),
                Ok(hd) => spec_resolve_table_at(d, target.header_cells@, target.occurrence, hd),
            }
        },
    }
}

proof fn lemma_candidates(d: &SourceDocument, tables: Seq<NodeId>, labels: Seq<String>, handle: Option<int>, k: int)
    requires
        0 <= k <= tables.len(),
    ensures
        table_candidates(d, tables, labels, handle, k) matches Some(c) ==> forall|j: int|
            0 <= j < c.len() ==> 0 <= #[trigger] c[j] < k && table_rows(d, tables[c[j]]).len() > 0,
    decreases k,
{
    if k > 0 {
        lemma_candidates(d, tables, labels, handle, k - 1);
    }
}

proof fn lemma_candidates_none(d: &SourceDocument, tables: Seq<NodeId>, labels: Seq<String>, handle: Option<int>, k: int, n: int)
    requires
        0 <= k <= n,
        table_candidates(d, tables, labels, handle, k) is None,
    ensures
        table_candidates(d, tables, labels, handle, n) is None,
    decreases n - k,
{
    if k < n {
        lemma_candidates_none(d, tables, labels, handle, k, n - 1);
    }
}

/// A table that a target resolved to: its index among the direct tables, its node and
/// its rows.
pub struct ResolvedTable {
    pub index: usize,
    pub table: NodeId,
    pub rows: Vec<NodeId>,
}

pub fn resolve_table(source: &SourceDocument, target: &TableTarget) -> (r: Result<ResolvedTable, OperationFailure>)
    requires
        source.wf(),
    ensures
        match r {
            Ok(t) => {
                &&& spec_resolve_table(source, *target) == Ok::<int, FailureCode>(t.index as int)
                &&& spec_body(source) matches Ok(body)
                &&& t.index < body_tables(source, body).len()
                &&& t.table == body_tables(source, body)[t.index as int]
                &&& t.rows@ == table_rows(source, t.table)
                &&& t.rows@.len() > 0
                &&& source.valid_id(t.table)
                &&& forall|k: int| 0 <= k < t.rows@.len() ==> source.valid_id(#[trigger] t.rows@[k])
            },
            Err(e) => spec_resolve_table(source, *target) == Err::<int, FailureCode>(e.code),
        },
{
    match DocxDocument::new(source) {
        Ok(_) => {},
        Err(_) => return Err(document_invalid()),
    }
    let handle: Option<usize> = match &target.handle {
        Some(h) => {
            let bytes = h.as_str().as_bytes();
            proof {
                assert(bytes@ == vstd::utf8::encode_utf8(h@));
            }
            Some(parse_table_handle(bytes)?)
        },
        None => None,
    };
    resolve_table_at(source, &target.header_cells, target.occurrence, handle)
}

/// Resolves a table by header labels, or by index when `handle` is given (see
/// `spec_resolve_table_at`).
pub fn resolve_table_at(source: &SourceDocument, labels: &Vec<String>, occurrence: Option<usize>, handle: Option<usize>) -> (r: Result<ResolvedTable, OperationFailure>)
    requires
        source.wf(),
    ensures
        ({
            let hd = match handle {
                Some(v) => Some(v as int),
                None => None::<int>,
            };
            match r {
                Ok(t) => {
                    &&& spec_resolve_table_at(source, labels@, occurrence, hd) == Ok::<int, FailureCode>(t.index as int)
                    &&& spec_body(source) matches Ok(body)
                    &&& t.index < body_tables(source, body).len()
                    &&& t.table == body_tables(source, body)[t.index as int]
                    &&& t.rows@ == table_rows(source, t.table)
                    &&& t.rows@.len() > 0
                    &&& source.valid_id(t.table)
                    &&& forall|k: int| 0 <= k < t.rows@.len() ==> source.valid_id(#[trigger] t.rows@[k])
                },
                Err(e) => spec_resolve_table_at(source, labels@, occurrence, hd) == Err::<int, FailureCode>(e.code),
            }
        }),
{
    let document = match DocxDocument::new(source) {
        Ok(d) => d,
        Err(_) => return Err(document_invalid()),
    };
    let body = document.body_id();
    let ghost hd: Option<int> = match handle {
        Some(v) => Some(v as int),
        None => None,
    };
    let tables = children_named(source, body, "tbl", "tbl");
    let mut candidates: Vec<usize> = Vec::new();
    let mut k: usize = 0;
    while k < tables.len()
        invariant
            source.wf(),
            spec_body(source) == Ok::<NodeId, crate::wordml::SemanticError>(body),
            tables@ == body_tables(source, body),
            forall|j: int| 0 <= j < tables@.len() ==> source.valid_id(#[trigger] tables@[j]),
            k <= tables@.len(),
            hd == match handle {
                Some(v) => Some(v as int),
                None => None::<int>,
            },
            table_candidates(source, tables@, labels@, hd, k as int) == Some(candidates@.map_values(|x: usize| x as int)),
        decreases tables@.len() - k,
    {
        let rows = children_named(source, tables[k], "tr", "tr");
        if rows.len() > 0 {
            let headers = match cell_texts(source, rows[0]) {
                Ok(h) => h,
                Err(e) => {
                    proof {
                        assert(rows@ == table_rows(source, tables@[k as int]));
                        assert(table_candidates(source, tables@, labels@, hd, k as int + 1) is None);
                        lemma_candidates_none(source, tables@, labels@, hd, k as int + 1, tables@.len() as int);
                    }
                    return Err(e);
                },
            };
            let chosen = match handle {
                Some(v) => v == k,
                None => header_labels_match(&headers, labels),
            };
            if chosen {
                let ghost before = candidates@;
                candidates.push(k);
                assert(candidates@.map_values(|x: usize| x as int) =~= before.map_values(|x: usize| x as int).push(k as int));
            }
        }
        k += 1;
    }
    proof {
        lemma_candidates(source, tables@, labels@, hd, tables@.len() as int);
    }
    let ghost c = candidates@.map_values(|x: usize| x as int);
    if candidates.len() == 0 {
        return Err(OperationFailure::failed(FailureCode::TargetNotFound, "table header row was not found"));
    }
    let index = match occurrence {
        Some(o) => {
            if o >= candidates.len() {
                return Err(OperationFailure::failed(FailureCode::TargetNotFound, "table target occurrence was not found"));
            }
            candidates[o]
        },
        None => {
            if candidates.len() != 1 {
                return Err(OperationFailure::failed(FailureCode::TargetAmbiguous, "table header row matches more than one table"));
            }
            candidates[0]
        },
    };
    assert(c.contains(index as int));
    let table = tables[index];
    let rows = children_named(source, table, "tr", "tr");
    Ok(ResolvedTable { index, table, rows })
}

// ---------------------------------------------------------------------------
// Which tables can be edited
// ---------------------------------------------------------------------------

/// Why a table cannot be edited.
#[derive(Clone, Copy, Debug, PartialEq, Eq, Structural)]
pub enum TableMutationReason {
    NestedTableStructure,
    MergedTableStructure,
    NonRectangularTable,
    RevisionWrapper,
}

/// The reason code of a reason.
pub open spec fn reason_text(r: TableMutationReason) -> Seq<char> {
    match r {
        TableMutationReason::NestedTableStructure => "NESTED_TABLE_STRUCTURE"@,
        TableMutationReason::MergedTableStructure => "MERGED_TABLE_STRUCTURE"@,
        TableMutationReason::NonRectangularTable => "NON_RECTANGULAR_TABLE"@,
        TableMutationReason::RevisionWrapper => "REVISION_WRAPPER"@,
    }
}

impl TableMutationReason {
    pub fn as_str(&self) -> (r: &'static str)
        ensures
            r@ == reason_text(*self),
    {
        match self {
            TableMutationReason::NestedTableStructure => "NESTED_TABLE_STRUCTURE",
            TableMutationReason::MergedTableStructure => "MERGED_TABLE_STRUCTURE",
            TableMutationReason::NonRectangularTable => "NON_RECTANGULAR_TABLE",
            TableMutationReason::RevisionWrapper => "REVISION_WRAPPER",
        }
    }
}

/// Some element inside the table (the table itself aside) is named `local`.
pub open spec fn holds_word(d: &SourceDocument, t: NodeId, local: Seq<u8>) -> bool {
    exists|i: int| t.0 < i < d.subtree_ends@[t.0 as int] && #[trigger] is_word(d, i, local)
}

/// Every row has as many cells as the first, which has some.
pub open spec fn rectangular_table(d: &SourceDocument, t: NodeId) -> bool {
    let rows = table_rows(d, t);
    &&& rows.len() > 0
    &&& row_cells(d, rows[0]).len() > 0
    &&& forall|k: int| 0 <= k < rows.len() ==> row_cells(d, #[trigger] rows[k]).len() == row_cells(d, rows[0]).len()
}

/// Why a table cannot be edited: a nested table, merged cells, rows of different
/// widths, or a revision mark; `None` for a simple table.
pub open spec fn spec_table_reason(d: &SourceDocument, t: NodeId) -> Option<TableMutationReason> {
    if holds_word(d, t, "tbl".spec_bytes()) {
        Some(TableMutationReason::NestedTableStructure)
    } else if holds_word(d, t, "gridSpan".spec_bytes()) || holds_word(d, t, "vMerge".spec_bytes()) {
        Some(TableMutationReason::MergedTableStructure)
    } else if !rectangular_table(d, t) {
        Some(TableMutationReason::NonRectangularTable)
    } else if has_revision_wrapper(d, t) {
        Some(TableMutationReason::RevisionWrapper)
    } else {
        None
    }
}

fn find_word_inside(source: &SourceDocument, t: NodeId, local: &str) -> (r: bool)
    requires
        source.wf(),
        source.valid_id(t),
    ensures
        r == holds_word(source, t, local.spec_bytes()),
{
    let end = source.subtree_end(t);
    let mut i = t.0 + 1;
    while i < end
        invariant
            source.wf(),
            t.0 < i <= end <= source.nodes@.len(),
            end == source.subtree_ends@[t.0 as int],
            forall|j: int| t.0 < j < i ==> !#[trigger] is_word(source, j, local.spec_bytes()),
        decreases end - i,
    {
        if word(source, NodeId(i), local) {
            return true;
        }
        i += 1;
    }
    false
}

pub fn table_mutation_reason(source: &SourceDocument, t: NodeId) -> (r: Option<TableMutationReason>)
    requires
        source.wf(),
        source.valid_id(t),
    ensures
        r == spec_table_reason(source, t),
{
    if find_word_inside(source, t, "tbl") {
        return Some(TableMutationReason::NestedTableStructure);
    }
    if find_word_inside(source, t, "gridSpan") || find_word_inside(source, t, "vMerge") {
        return Some(TableMutationReason::MergedTableStructure);
    }
    let rows = children_named(source, t, "tr", "tr");
    if rows.len() == 0 {
        return Some(TableMutationReason::NonRectangularTable);
    }
    let width = children_named(source, rows[0], "tc", "tc").len();
    if width == 0 {
        assert(!rectangular_table(source, t));
        return Some(TableMutationReason::NonRectangularTable);
    }
    let mut k: usize = 0;
    while k < rows.len()
        invariant
            source.wf(),
            rows@ == table_rows(source, t),
            forall|j: int| 0 <= j < rows@.len() ==> source.valid_id(#[trigger] rows@[j]),
            rows@.len() > 0,
            width == row_cells(source, rows@[0]).len(),
            !holds_word(source, t, "tbl".spec_bytes()),
            !holds_word(source, t, "gridSpan".spec_bytes()),
            !holds_word(source, t, "vMerge".spec_bytes()),
            k <= rows@.len(),
            forall|j: int| 0 <= j < k ==> row_cells(source, #[trigger] rows@[j]).len() == width,
        decreases rows@.len() - k,
    {
        if children_named(source, rows[k], "tc", "tc").len() != width {
            assert(row_cells(source, rows@[k as int]).len() != row_cells(source, rows@[0]).len());
            assert(!rectangular_table(source, t));
            return Some(TableMutationReason::NonRectangularTable);
        }
        k += 1;
    }
    if find_revision_wrapper(source, t) {
        return Some(TableMutationReason::RevisionWrapper);
    }
    None
}

// ---------------------------------------------------------------------------
// Deleting tables and rows
// ---------------------------------------------------------------------------

/// Reading an edited part back gives direct tables with the expected texts.
pub open spec fn tables_read_back(out: Seq<u8>, expected: Seq<Seq<Seq<Seq<u8>>>>) -> bool {
    exists|d2: SourceDocument|
        #![trigger d2.bytes]
        {
            &&& d2.wf()
            &&& d2.faithful()
            &&& d2.bytes@ == out
            &&& spec_body(&d2) matches Ok(b)
            &&& tables_texts(&d2, body_tables(&d2, b)) == Some(expected)
        }
}

/// The direct tables of a document have the expected texts.
pub open spec fn tables_match(d2: &SourceDocument, expected: Seq<Seq<Seq<Seq<u8>>>>) -> bool {
    &&& spec_body(d2) matches Ok(b)
    &&& tables_texts(d2, body_tables(d2, b)) == Some(expected)
}

/// The edited part parses, and every reading of it has direct tables with the expected
/// texts.
pub open spec fn tables_read_back_all(out: Seq<u8>, expected: Seq<Seq<Seq<Seq<u8>>>>) -> bool {
    &&& crate::source::accepts(out)
    &&& forall|d2: SourceDocument| #![trigger d2.bytes] d2.wf() && d2.bytes@ == out && d2.faithful() ==> tables_match(&d2, expected)
}

pub fn check_tables(out: &Vec<u8>, expected: &Vec<Vec<Vec<Vec<u8>>>>) -> (r: Result<(), OperationFailure>)
    ensures
        r is Ok ==> tables_read_back(out@, tables_view(expected@)),
        r is Err ==> !tables_read_back_all(out@, tables_view(expected@)),
{
    let reread = match SourceDocument::parse(copy_bytes(out.as_slice())) {
        Ok(d) => d,
        Err(_) => return Err(document_invalid()),
    };
    assert(reread.bytes == reread.bytes);
    let after = match all_table_rows(&reread) {
        Ok(a) => a,
        Err(e) => {
            assert(!tables_match(&reread, tables_view(expected@)));
            return Err(e);
        },
    };
    if !same_tables(&after, expected) {
        assert(!tables_match(&reread, tables_view(expected@)));
        return Err(OperationFailure::failed(FailureCode::DocumentInvalid, "output table rows do not match the requested change"));
    }
    Ok(())
}

/// The bytes with the node's span removed.
pub open spec fn without(d: &SourceDocument, id: NodeId) -> Seq<u8> {
    let span = d.spec_span(id.0 as int);
    d.bytes@.subrange(0, span.start as int) + d.bytes@.subrange(span.end as int, d.bytes@.len() as int)
}

fn remove_node(source: &SourceDocument, id: NodeId) -> (r: Vec<u8>)
    requires
        source.wf(),
        source.valid_id(id),
    ensures
        r@ == without(source, id),
{
    let span = source.span(id);
    apply_single_patch(source, Patch { span, replacement: Vec::new() })
}

/// Deletes one simple direct body table. The edited part is read back: every other
/// direct table must keep its texts.
pub fn delete_table_to_vec(source: &SourceDocument, operation: &DeleteTable) -> (r: Result<Vec<u8>, OperationFailure>)
    requires
        source.wf(),
    ensures
        spec_resolve_table(source, operation.table) matches Err(c) ==> r matches Err(e) && e.code == c,
        spec_resolve_table(source, operation.table) matches Ok(i) ==> {
            &&& spec_body(source) matches Ok(body)
            &&& match spec_table_reason(source, body_tables(source, body)[i]) {
                Some(reason) => {
                    &&& r matches Err(e)
                    &&& e.code == FailureCode::UnsupportedOperation
                    &&& e.reason_code matches Some(c)
                    &&& c@ == reason_text(reason)
                },
                None => {
                    &&& r matches Ok(out) ==> {
                        &&& out@ == without(source, body_tables(source, body)[i])
                        &&& tables_texts(source, body_tables(source, body)) matches Some(all)
                        &&& tables_read_back(out@, all.remove(i))
                    }
                    &&& r is Err ==> !(tables_texts(source, body_tables(source, body)) matches Some(all)
                        && tables_read_back_all(without(source, body_tables(source, body)[i]), all.remove(i)))
                },
            }
        },
{
    let resolved = resolve_table(source, &operation.table)?;
    match table_mutation_reason(source, resolved.table) {
        Some(reason) => {
            return Err(unsupported("delete_table supports only simple direct body tables").with_reason_code(reason.as_str()));
        },
        None => {},
    }
    let mut expected = all_table_rows(source)?;
    proof {
        lemma_texts_len(source, body_tables(source, body_of(source)));
    }
    let ghost before = expected@;
    expected.remove(resolved.index);
    assert(tables_view(expected@) =~= tables_view(before).remove(resolved.index as int));
    let out = remove_node(source, resolved.table);
    check_tables(&out, &expected)?;
    Ok(out)
}

/// The body of a document that has one.
pub open spec fn body_of(d: &SourceDocument) -> NodeId {
    match spec_body(d) {
        Ok(b) => b,
        Err(_) => NodeId(0),
    }
}

pub(crate) proof fn lemma_texts_len(d: &SourceDocument, tables: Seq<NodeId>)
    ensures
        tables_texts(d, tables) matches Some(t) ==> t.len() == tables.len(),
    decreases tables.len(),
{
    if tables.len() > 0 {
        lemma_texts_len(d, tables.drop_last());
    }
}

pub(crate) proof fn lemma_rows_len(d: &SourceDocument, rows: Seq<NodeId>)
    ensures
        rows_texts(d, rows) matches Some(t) ==> t.len() == rows.len(),
    decreases rows.len(),
{
    if rows.len() > 0 {
        lemma_rows_len(d, rows.drop_last());
    }
}

pub(crate) proof fn lemma_texts_at(d: &SourceDocument, tables: Seq<NodeId>, i: int)
    requires
        0 <= i < tables.len(),
    ensures
        tables_texts(d, tables) matches Some(t) ==> rows_texts(d, table_rows(d, tables[i])) == Some(t[i]),
    decreases tables.len(),
{
    if i < tables.len() - 1 {
        lemma_texts_at(d, tables.drop_last(), i);
    }
    lemma_texts_len(d, tables.drop_last());
}

/// Every step of a row deletion can be taken: the table resolves and is simple, it has
/// more than one row, the row handle names a row of it, its texts read, and the edited
/// part parses with the tables as they were but for that row.
pub open spec fn row_deletable(d: &SourceDocument, op: DeleteTableRow) -> bool {
    &&& spec_resolve_table(d, op.table) matches Ok(i)
    &&& spec_body(d) matches Ok(body)
    &&& spec_table_reason(d, body_tables(d, body)[i]) is None
    &&& table_rows(d, body_tables(d, body)[i]).len() > 1
    &&& op.row.handle matches Some(h)
    &&& spec_parse_row_handle(vstd::utf8::encode_utf8(h@)) matches Some((t, row))
    &&& t == i
    &&& 0 <= row < table_rows(d, body_tables(d, body)[i]).len()
    &&& tables_texts(d, body_tables(d, body)) matches Some(all)
    &&& tables_read_back_all(without(d, table_rows(d, body_tables(d, body)[i])[row]), all.update(i, all[i].remove(row)))
}

/// Deletes one row, named by its handle, of a simple direct body table; the last row of
/// a table stays (deleting it takes deleting the table). The edited part is read back:
/// the table must have lost that row, and every other text must stay.
pub fn delete_table_row_to_vec(source: &SourceDocument, operation: &DeleteTableRow) -> (r: Result<Vec<u8>, OperationFailure>)
    requires
        source.wf(),
    ensures
        spec_resolve_table(source, operation.table) matches Err(c) ==> r matches Err(e) && e.code == c,
        operation.row.handle is None && spec_resolve_table(source, operation.table) is Ok ==> r is Err,
        r matches Ok(out) ==> {
            &&& spec_resolve_table(source, operation.table) matches Ok(i)
            &&& spec_body(source) matches Ok(body)
            &&& spec_table_reason(source, body_tables(source, body)[i]) is None
            &&& table_rows(source, body_tables(source, body)[i]).len() > 1
            &&& tables_texts(source, body_tables(source, body)) matches Some(all)
            &&& operation.row.handle matches Some(h)
            &&& spec_parse_row_handle(vstd::utf8::encode_utf8(h@)) matches Some((t, row))
            &&& t == i
            &&& 0 <= row < table_rows(source, body_tables(source, body)[i]).len()
            &&& out@ == without(source, table_rows(source, body_tables(source, body)[i])[row])
            &&& tables_read_back(out@, all.update(i, all[i].remove(row)))
        },
        (spec_resolve_table(source, operation.table) matches Ok(i) && spec_body(source) matches Ok(body)
            && spec_table_reason(source, body_tables(source, body)[i]) is None
            && table_rows(source, body_tables(source, body)[i]).len() == 1) ==> (r matches Err(e)
            && e.code == FailureCode::PreconditionFailed && e.reason_code == Some("LAST_TABLE_ROW")),
        r is Err ==> !row_deletable(source, *operation),
{
    let resolved = resolve_table(source, &operation.table)?;
    match table_mutation_reason(source, resolved.table) {
        Some(reason) => {
            return Err(unsupported("delete_table_row supports only simple rectangular tables").with_reason_code(reason.as_str()));
        },
        None => {},
    }
    if resolved.rows.len() == 1 {
        return Err(OperationFailure::failed(FailureCode::PreconditionFailed, "deleting the final table row requires delete_table").with_reason_code("LAST_TABLE_ROW"));
    }
    let (handle_table, row) = match &operation.row.handle {
        Some(h) => {
            let bytes = h.as_str().as_bytes();
            assert(bytes@ == vstd::utf8::encode_utf8(h@));
            parse_row_handle(bytes)?
        },
        None => return Err(OperationFailure::failed(FailureCode::PreconditionFailed, "delete_table_row requires a row handle")),
    };
    if handle_table != resolved.index || row >= resolved.rows.len() {
        return Err(OperationFailure::failed(FailureCode::TargetNotFound, "table row handle was not found"));
    }
    let mut expected = all_table_rows(source)?;
    let mut rows = match table_texts(source, resolved.table) {
        Ok(v) => v,
        Err(e) => {
            proof {
                lemma_texts_at(source, body_tables(source, body_of(source)), resolved.index as int);
            }
            return Err(e);
        },
    };
    proof {
        lemma_texts_len(source, body_tables(source, body_of(source)));
        lemma_rows_len(source, table_rows(source, resolved.table));
        lemma_texts_at(source, body_tables(source, body_of(source)), resolved.index as int);
    }
    let ghost before_rows = rows@;
    rows.remove(row);
    assert(rows_view(rows@) =~= rows_view(before_rows).remove(row as int));
    let ghost before = expected@;
    expected.set(resolved.index, rows);
    assert(tables_view(expected@) =~= tables_view(before).update(
        resolved.index as int,
        tables_view(before)[resolved.index as int].remove(row as int),
    ));
    let out = remove_node(source, resolved.rows[row]);
    check_tables(&out, &expected)?;
    Ok(out)
}

} // verus!
