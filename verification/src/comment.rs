use vstd::prelude::*;
use vstd::string::StringSliceAdditionalSpecFns;

use crate::bytes::{bytes_are, bytes_equal, copy_bytes, push_bytes, utf8_string};
use crate::header_footer::{Relationship, RelationshipTarget};
use crate::order::{stable_key_order, stable_order};
use crate::source::{source_error_code, NodeId, SourceDocument, SourceError};
use crate::wordml::{
    as_text, attr_text, children_named, is_word, named_among, spec_text_value, string_view, text_value, word,
    SemanticError,
};

verus! {

/// The relationship type of a comments part, transitional and strict.
pub const COMMENTS_RELATIONSHIP: &'static str = "http://schemas.openxmlformats.org/officeDocument/2006/relationships/comments";

pub const COMMENTS_RELATIONSHIP_STRICT: &'static str = "http://purl.oclc.org/ooxml/officeDocument/relationships/comments";

/// Why the comments of a document could not be read.
#[derive(Clone, Copy, Debug, PartialEq, Eq, Structural)]
pub enum CommentError {
    Source(SourceError),
    InvalidCommentsRoot,
    MalformedComments,
    ExternalCommentsPart,
}

/// The machine-readable code of a comments-part error.
pub open spec fn comment_error_code(e: CommentError) -> Seq<char> {
    match e {
        CommentError::Source(e) => source_error_code(e),
        CommentError::InvalidCommentsRoot => "INVALID_COMMENTS_ROOT"@,
        CommentError::MalformedComments => "MALFORMED_COMMENTS"@,
        CommentError::ExternalCommentsPart => "EXTERNAL_COMMENTS_PART"@,
    }
}

impl CommentError {
    pub fn code(&self) -> (r: &'static str)
        ensures
            r@ == comment_error_code(*self),
    {
        match self {
            CommentError::Source(e) => e.code(),
            CommentError::InvalidCommentsRoot => "INVALID_COMMENTS_ROOT",
            CommentError::MalformedComments => "MALFORMED_COMMENTS",
            CommentError::ExternalCommentsPart => "EXTERNAL_COMMENTS_PART",
        }
    }
}

/// The kind of a recoverable comment-marker problem.
#[derive(Clone, Copy, Debug, PartialEq, Eq, Structural)]
pub enum IssueKind {
    MissingCommentId,
    DuplicateCommentId,
    MissingCommentEntry,
    DuplicateRangeStart,
    UnmatchedRangeStart,
    DuplicateRangeEnd,
    UnmatchedRangeEnd,
    DuplicateReference,
}

/// A recoverable malformed comment marker situation.
#[derive(Clone, Debug, PartialEq, Eq)]
pub enum CommentIssue {
    MissingCommentId,
    DuplicateCommentId(String),
    MissingCommentEntry(String),
    DuplicateRangeStart(String),
    UnmatchedRangeStart(String),
    DuplicateRangeEnd(String),
    UnmatchedRangeEnd(String),
    DuplicateReference(String),
}

/// The machine-readable code of a comment-marker problem.
pub open spec fn comment_issue_code(e: CommentIssue) -> Seq<char> {
    match e {
        CommentIssue::MissingCommentId => "MISSING_COMMENT_ID"@,
        CommentIssue::DuplicateCommentId(_) => "DUPLICATE_COMMENT_ID"@,
        CommentIssue::MissingCommentEntry(_) => "MISSING_COMMENT_ENTRY"@,
        CommentIssue::DuplicateRangeStart(_) => "DUPLICATE_COMMENT_RANGE_START"@,
        CommentIssue::UnmatchedRangeStart(_) => "UNMATCHED_COMMENT_RANGE_START"@,
        CommentIssue::DuplicateRangeEnd(_) => "DUPLICATE_COMMENT_RANGE_END"@,
        CommentIssue::UnmatchedRangeEnd(_) => "UNMATCHED_COMMENT_RANGE_END"@,
        CommentIssue::DuplicateReference(_) => "DUPLICATE_COMMENT_REFERENCE"@,
    }
}

impl CommentIssue {
    pub fn code(&self) -> (r: &'static str)
        ensures
            r@ == comment_issue_code(*self),
    {
        match self {
            CommentIssue::MissingCommentId => "MISSING_COMMENT_ID",
            CommentIssue::DuplicateCommentId(_) => "DUPLICATE_COMMENT_ID",
            CommentIssue::MissingCommentEntry(_) => "MISSING_COMMENT_ENTRY",
            CommentIssue::DuplicateRangeStart(_) => "DUPLICATE_COMMENT_RANGE_START",
            CommentIssue::UnmatchedRangeStart(_) => "UNMATCHED_COMMENT_RANGE_START",
            CommentIssue::DuplicateRangeEnd(_) => "DUPLICATE_COMMENT_RANGE_END",
            CommentIssue::UnmatchedRangeEnd(_) => "UNMATCHED_COMMENT_RANGE_END",
            CommentIssue::DuplicateReference(_) => "DUPLICATE_COMMENT_REFERENCE",
        }
    }
}

/// An identifier's bytes read as text; empty when they are not UTF-8.
pub open spec fn id_text(b: Seq<u8>) -> Seq<char> {
    if vstd::utf8::valid_utf8(b) {
        vstd::utf8::decode_utf8(b)
    } else {
        seq![]
    }
}

/// The issue reports a problem of kind `k` with the identifier `id`.
pub open spec fn issue_is(x: CommentIssue, k: IssueKind, id: Seq<u8>) -> bool {
    match x {
        CommentIssue::MissingCommentId => k == IssueKind::MissingCommentId,
        CommentIssue::DuplicateCommentId(s) => k == IssueKind::DuplicateCommentId && s@ == id_text(id),
        CommentIssue::MissingCommentEntry(s) => k == IssueKind::MissingCommentEntry && s@ == id_text(id),
        CommentIssue::DuplicateRangeStart(s) => k == IssueKind::DuplicateRangeStart && s@ == id_text(id),
        CommentIssue::UnmatchedRangeStart(s) => k == IssueKind::UnmatchedRangeStart && s@ == id_text(id),
        CommentIssue::DuplicateRangeEnd(s) => k == IssueKind::DuplicateRangeEnd && s@ == id_text(id),
        CommentIssue::UnmatchedRangeEnd(s) => k == IssueKind::UnmatchedRangeEnd && s@ == id_text(id),
        CommentIssue::DuplicateReference(s) => k == IssueKind::DuplicateReference && s@ == id_text(id),
    }
}

fn text_or_empty(b: &Vec<u8>) -> (r: String)
    ensures
        r@ == id_text(b@),
{
    match utf8_string(copy_bytes(b.as_slice())) {
        Some(s) => s,
        None => String::new(),
    }
}

fn make_issue(k: IssueKind, id: &Vec<u8>) -> (r: CommentIssue)
    ensures
        issue_is(r, k, id@),
{
    match k {
        IssueKind::MissingCommentId => CommentIssue::MissingCommentId,
        IssueKind::DuplicateCommentId => CommentIssue::DuplicateCommentId(text_or_empty(id)),
        IssueKind::MissingCommentEntry => CommentIssue::MissingCommentEntry(text_or_empty(id)),
        IssueKind::DuplicateRangeStart => CommentIssue::DuplicateRangeStart(text_or_empty(id)),
        IssueKind::UnmatchedRangeStart => CommentIssue::UnmatchedRangeStart(text_or_empty(id)),
        IssueKind::DuplicateRangeEnd => CommentIssue::DuplicateRangeEnd(text_or_empty(id)),
        IssueKind::UnmatchedRangeEnd => CommentIssue::UnmatchedRangeEnd(text_or_empty(id)),
        IssueKind::DuplicateReference => CommentIssue::DuplicateReference(text_or_empty(id)),
    }
}


/// The document markers found for one comment.
#[derive(Clone, Copy, Debug, PartialEq, Eq, Structural)]
pub struct CommentMarks {
    pub range_start: Option<NodeId>,
    pub range_end: Option<NodeId>,
    pub complete_range: bool,
    pub reference: Option<NodeId>,
}

/// A `w:comment` element with its attributes and the markers found for it.
#[derive(Debug)]
pub struct CommentData {
    pub source_id: NodeId,
    pub id: Option<Vec<u8>>,
    pub id_text: Option<String>,
    pub author: Option<String>,
    pub initials: Option<String>,
    pub date: Option<String>,
    pub marks: CommentMarks,
}

pub open spec fn bytes_view(o: Option<Vec<u8>>) -> Option<Seq<u8>> {
    match o {
        Some(v) => Some(v@),
        None => None,
    }
}

/// The identifiers of the comments, in comments-part order.
pub open spec fn ids_of(keys: Seq<Option<Vec<u8>>>) -> Seq<Option<Seq<u8>>> {
    Seq::new(keys.len(), |k: int| bytes_view(keys[k]))
}

/// The first comment at or after `from` with the identifier `key`.
pub open spec fn entry_from(ids: Seq<Option<Seq<u8>>>, key: Seq<u8>, from: int) -> Option<int>
    decreases ids.len() - from,
{
    if from < 0 || from >= ids.len() {
        None
    } else if ids[from] == Some(key) {
        Some(from)
    } else {
        entry_from(ids, key, from + 1)
    }
}

/// The comment that a marker with identifier `key` belongs to: the first with that id.
pub open spec fn entry(ids: Seq<Option<Seq<u8>>>, key: Seq<u8>) -> Option<int> {
    entry_from(ids, key, 0)
}

proof fn lemma_entry_from(ids: Seq<Option<Seq<u8>>>, key: Seq<u8>, from: int)
    requires
        0 <= from,
    ensures
        entry_from(ids, key, from) matches Some(j) ==> from <= j < ids.len() && ids[j] == Some(key)
            && forall|m: int| from <= m < j ==> ids[m] != Some(key),
        entry_from(ids, key, from) is None ==> forall|m: int| from <= m < ids.len() ==> ids[m] != Some(key),
    decreases ids.len() - from,
{
    if from < ids.len() && ids[from] != Some(key) {
        lemma_entry_from(ids, key, from + 1);
    }
}

proof fn lemma_entry_at(ids: Seq<Option<Seq<u8>>>, key: Seq<u8>, n: int)
    requires
        0 <= n < ids.len(),
        ids[n] == Some(key),
        forall|m: int| 0 <= m < n ==> ids[m] != Some(key),
    ensures
        entry(ids, key) == Some(n),
{
    lemma_entry_skip(ids, key, 0, n);
}

proof fn lemma_entry_skip(ids: Seq<Option<Seq<u8>>>, key: Seq<u8>, from: int, to: int)
    requires
        0 <= from <= to <= ids.len(),
        forall|m: int| from <= m < to ==> ids[m] != Some(key),
    ensures
        entry_from(ids, key, from) == entry_from(ids, key, to),
    decreases to - from,
{
    if from < to {
        lemma_entry_skip(ids, key, from + 1, to);
    }
}

proof fn lemma_entry_none(ids: Seq<Option<Seq<u8>>>, key: Seq<u8>, from: int)
    requires
        0 <= from <= ids.len(),
        forall|m: int| from <= m < ids.len() ==> ids[m] != Some(key),
    ensures
        entry_from(ids, key, from) is None,
    decreases ids.len() - from,
{
    if from < ids.len() {
        lemma_entry_none(ids, key, from + 1);
    }
}

/// The problems found while reading the comments part: a comment without an id, and
/// each comment whose id an earlier comment already has.
pub open spec fn part_issues(ids: Seq<Option<Seq<u8>>>) -> Seq<(IssueKind, Seq<u8>)>
    decreases ids.len(),
{
    if ids.len() == 0 {
        seq![]
    } else {
        let rest = part_issues(ids.drop_last());
        match ids.last() {
            None => rest.push((IssueKind::MissingCommentId, seq![])),
            Some(x) => if entry(ids.drop_last(), x) is Some {
                rest.push((IssueKind::DuplicateCommentId, x))
            } else {
                rest
            },
        }
    }
}

pub open spec fn issues_of(v: Seq<(IssueKind, Vec<u8>)>) -> Seq<(IssueKind, Seq<u8>)> {
    Seq::new(v.len(), |k: int| (v[k].0, v[k].1@))
}

/// The first comment in `keys` with the identifier `key`.
fn find_entry(keys: &Vec<Option<Vec<u8>>>, key: &[u8]) -> (r: Option<usize>)
    ensures
        match r {
            Some(j) => entry(ids_of(keys@), key@) == Some(j as int),
            None => entry(ids_of(keys@), key@) is None,
        },
{
    let ghost ids = ids_of(keys@);
    let mut j: usize = 0;
    while j < keys.len()
        invariant
            ids == ids_of(keys@),
            j <= keys@.len(),
            forall|m: int| 0 <= m < j ==> ids[m] != Some(key@),
        decreases keys@.len() - j,
    {
        let hit = match &keys[j] {
            Some(v) => bytes_equal(v.as_slice(), key),
            None => false,
        };
        if hit {
            proof {
                lemma_entry_at(ids, key@, j as int);
            }
            return Some(j);
        }
        proof {
            assert(ids[j as int] == bytes_view(keys@[j as int]));
        }
        j += 1;
    }
    proof {
        lemma_entry_none(ids, key@, 0);
    }
    None
}

/// The comment read from a `w:comment` element.
pub open spec fn comment_reads(c: CommentData, d: &SourceDocument, id: NodeId) -> bool {
    &&& c.source_id == id
    &&& bytes_view(c.id) == d.spec_attribute(id.0 as int, "id".spec_bytes())
    &&& string_view(c.id_text) == as_text(d.spec_attribute(id.0 as int, "id".spec_bytes()))
    &&& string_view(c.author) == as_text(d.spec_attribute(id.0 as int, "author".spec_bytes()))
    &&& string_view(c.initials) == as_text(d.spec_attribute(id.0 as int, "initials".spec_bytes()))
    &&& string_view(c.date) == as_text(d.spec_attribute(id.0 as int, "date".spec_bytes()))
}

pub open spec fn no_marks() -> CommentMarks {
    CommentMarks { range_start: None, range_end: None, complete_range: false, reference: None }
}

/// Reads the `w:comment` children of the comments part's root, with the problems of
/// their identifiers.
fn read_comment_elements(source: &SourceDocument) -> (r: (Vec<CommentData>, Vec<Option<Vec<u8>>>, Vec<(IssueKind, Vec<u8>)>))
    requires
        source.wf(),
    ensures
        ({
            let (comments, keys, issues) = r;
            let found = named_among(source, source.spec_children(0), "comment".spec_bytes(), "comment".spec_bytes());
            &&& comments@.len() == found.len()
            &&& keys@.len() == found.len()
            &&& forall|k: int| 0 <= k < found.len() ==> comment_reads(#[trigger] comments@[k], source, found[k])
                && comments@[k].marks == no_marks() && bytes_view(keys@[k]) == bytes_view(comments@[k].id)
            &&& issues_of(issues@) == part_issues(ids_of(keys@))
        }),
{
    let found = children_named(source, NodeId(0), "comment", "comment");
    let mut comments: Vec<CommentData> = Vec::new();
    let mut keys: Vec<Option<Vec<u8>>> = Vec::new();
    let mut issues: Vec<(IssueKind, Vec<u8>)> = Vec::new();
    let mut k: usize = 0;
    while k < found.len()
        invariant
            source.wf(),
            found@ == named_among(source, source.spec_children(0), "comment".spec_bytes(), "comment".spec_bytes()),
            forall|j: int| 0 <= j < found@.len() ==> source.valid_id(#[trigger] found@[j]),
            k <= found@.len(),
            comments@.len() == k,
            keys@.len() == k,
            forall|j: int| 0 <= j < k ==> comment_reads(#[trigger] comments@[j], source, found@[j])
                && comments@[j].marks == no_marks() && bytes_view(keys@[j]) == bytes_view(comments@[j].id),
            issues_of(issues@) == part_issues(ids_of(keys@)),
        decreases found@.len() - k,
    {
        let node = found[k];
        let id = source.attribute(node, "id");
        let ghost old_keys = keys@;
        let ghost old_issues = issues@;
        match &id {
            Some(v) => {
                match find_entry(&keys, v.as_slice()) {
                    Some(_) => {
                        let copy = copy_bytes(v.as_slice());
                        issues.push((IssueKind::DuplicateCommentId, copy));
                    },
                    None => {},
                }
            },
            None => {
                issues.push((IssueKind::MissingCommentId, Vec::new()));
            },
        }
        let key = match &id {
            Some(v) => Some(copy_bytes(v.as_slice())),
            None => None,
        };
        keys.push(key);
        let id_text = attr_text(source, Some(node), "id");
        let author = attr_text(source, Some(node), "author");
        let initials = attr_text(source, Some(node), "initials");
        let date = attr_text(source, Some(node), "date");
        comments.push(CommentData {
            source_id: node,
            id,
            id_text,
            author,
            initials,
            date,
            marks: CommentMarks { range_start: None, range_end: None, complete_range: false, reference: None },
        });
        proof {
            let ids = ids_of(keys@);
            assert(ids.drop_last() =~= ids_of(old_keys));
            assert(issues_of(issues@) =~= part_issues(ids));
        }
        k += 1;
    }
    (comments, keys, issues)
}


/// The kind of a comment marker in the main document.
#[derive(Clone, Copy, Debug, PartialEq, Eq, Structural)]
pub enum MarkerKind {
    Start,
    End,
    Reference,
}

pub open spec fn marker_of(d: &SourceDocument, i: int) -> Option<MarkerKind> {
    if is_word(d, i, "commentRangeStart".spec_bytes()) {
        Some(MarkerKind::Start)
    } else if is_word(d, i, "commentRangeEnd".spec_bytes()) {
        Some(MarkerKind::End)
    } else if is_word(d, i, "commentReference".spec_bytes()) {
        Some(MarkerKind::Reference)
    } else {
        None
    }
}

fn marker_kind(source: &SourceDocument, id: NodeId) -> (r: Option<MarkerKind>)
    ensures
        r == marker_of(source, id.0 as int),
{
    if word(source, id, "commentRangeStart") {
        Some(MarkerKind::Start)
    } else if word(source, id, "commentRangeEnd") {
        Some(MarkerKind::End)
    } else if word(source, id, "commentReference") {
        Some(MarkerKind::Reference)
    } else {
        None
    }
}

/// One marker of the main document applied to the scan state: the markers found for
/// each comment, whether a range of each is open, the problems found, and the ids
/// already reported as having no comment.
pub open spec fn scan_step(
    d: &SourceDocument,
    ids: Seq<Option<Seq<u8>>>,
    i: int,
    st: (Seq<CommentMarks>, Seq<bool>, Seq<(IssueKind, Seq<u8>)>, Seq<Seq<u8>>),
) -> (Seq<CommentMarks>, Seq<bool>, Seq<(IssueKind, Seq<u8>)>, Seq<Seq<u8>>) {
    let (marks, open, issues, missing) = st;
    match marker_of(d, i) {
        None => st,
        Some(kind) => match d.spec_attribute(i, "id".spec_bytes()) {
            None => (marks, open, issues.push((IssueKind::MissingCommentId, seq![])), missing),
            Some(key) => match entry(ids, key) {
                None => if missing.contains(key) {
                    st
                } else {
                    (marks, open, issues.push((IssueKind::MissingCommentEntry, key)), missing.push(key))
                },
                Some(j) => {
                    let m = marks[j];
                    let here = Some(NodeId(i as usize));
                    match kind {
                        MarkerKind::Start => (
                            marks.update(j, CommentMarks {
                                range_start: if m.range_start is Some { m.range_start } else { here },
                                range_end: m.range_end,
                                complete_range: m.complete_range,
                                reference: m.reference,
                            }),
                            open.update(j, true),
                            if open[j] { issues.push((IssueKind::DuplicateRangeStart, key)) } else { issues },
                            missing,
                        ),
                        MarkerKind::End => if m.range_end is Some {
                            (marks, open, issues.push((IssueKind::DuplicateRangeEnd, key)), missing)
                        } else if !open[j] {
                            (
                                marks.update(j, CommentMarks {
                                    range_start: m.range_start,
                                    range_end: here,
                                    complete_range: m.complete_range,
                                    reference: m.reference,
                                }),
                                open,
                                issues.push((IssueKind::UnmatchedRangeEnd, key)),
                                missing,
                            )
                        } else {
                            (
                                marks.update(j, CommentMarks {
                                    range_start: m.range_start,
                                    range_end: here,
                                    complete_range: true,
                                    reference: m.reference,
                                }),
                                open.update(j, false),
                                issues,
                                missing,
                            )
                        },
                        MarkerKind::Reference => (
                            marks.update(j, CommentMarks {
                                range_start: m.range_start,
                                range_end: m.range_end,
                                complete_range: m.complete_range,
                                reference: here,
                            }),
                            open,
                            if m.reference is Some { issues.push((IssueKind::DuplicateReference, key)) } else { issues },
                            missing,
                        ),
                    }
                },
            },
        },
    }
}

/// The scan state after the main document's nodes `0..upto`, in document order.
pub open spec fn scan(d: &SourceDocument, ids: Seq<Option<Seq<u8>>>, upto: int) -> (
    Seq<CommentMarks>,
    Seq<bool>,
    Seq<(IssueKind, Seq<u8>)>,
    Seq<Seq<u8>>,
)
    decreases upto,
{
    if upto <= 0 {
        (Seq::new(ids.len(), |j: int| no_marks()), Seq::new(ids.len(), |j: int| false), seq![], seq![])
    } else {
        scan_step(d, ids, upto - 1, scan(d, ids, upto - 1))
    }
}

pub open spec fn missing_of(v: Seq<Vec<u8>>) -> Seq<Seq<u8>> {
    Seq::new(v.len(), |k: int| v[k]@)
}

/// The marker nodes recorded for the comments all come before `upto`.
pub open spec fn marks_below(marks: Seq<CommentMarks>, upto: int) -> bool {
    forall|j: int| 0 <= j < marks.len() ==> {
        &&& ((#[trigger] marks[j]).range_start matches Some(x) ==> x.0 < upto)
        &&& (marks[j].range_end matches Some(x) ==> x.0 < upto)
        &&& (marks[j].reference matches Some(x) ==> x.0 < upto)
    }
}

fn contains_bytes_seq(v: &Vec<Vec<u8>>, key: &[u8]) -> (r: bool)
    ensures
        r == missing_of(v@).contains(key@),
{
    let mut k: usize = 0;
    while k < v.len()
        invariant
            k <= v@.len(),
            forall|m: int| 0 <= m < k ==> missing_of(v@)[m] != key@,
        decreases v@.len() - k,
    {
        if bytes_equal(v[k].as_slice(), key) {
            proof {
                assert(missing_of(v@)[k as int] == key@);
            }
            return true;
        }
        k += 1;
    }
    false
}

/// Applies the marker node `i` of the main document to the scan state.
fn scan_marker(
    document: &SourceDocument,
    keys: &Vec<Option<Vec<u8>>>,
    i: usize,
    marks: &mut Vec<CommentMarks>,
    open: &mut Vec<bool>,
    issues: &mut Vec<(IssueKind, Vec<u8>)>,
    missing: &mut Vec<Vec<u8>>,
)
    requires
        document.wf(),
        i < document.nodes@.len(),
        old(marks)@.len() == keys@.len(),
        old(open)@.len() == keys@.len(),
        marks_below(old(marks)@, i as int),
    ensures
        (final(marks)@, final(open)@, issues_of(final(issues)@), missing_of(final(missing)@)) == scan_step(
            document,
            ids_of(keys@),
            i as int,
            (old(marks)@, old(open)@, issues_of(old(issues)@), missing_of(old(missing)@)),
        ),
        final(marks)@.len() == keys@.len(),
        final(open)@.len() == keys@.len(),
        marks_below(final(marks)@, i + 1),
{
    let ghost ids = ids_of(keys@);
    let ghost m0 = marks@;
    let ghost o0 = open@;
    let ghost is0 = issues_of(issues@);
    let ghost mi0 = missing_of(missing@);
    let id = NodeId(i);
    let kind = match marker_kind(document, id) {
        Some(k) => k,
        None => return,
    };
    let key = match document.attribute(id, "id") {
        Some(v) => v,
        None => {
            issues.push((IssueKind::MissingCommentId, Vec::new()));
            proof {
                assert(issues_of(issues@) =~= is0.push((IssueKind::MissingCommentId, seq![])));
            }
            return;
        },
    };
    let j = match find_entry(keys, key.as_slice()) {
        Some(j) => j,
        None => {
            if !contains_bytes_seq(missing, key.as_slice()) {
                let copy = copy_bytes(key.as_slice());
                issues.push((IssueKind::MissingCommentEntry, copy));
                missing.push(key);
                proof {
                    assert(issues_of(issues@) =~= is0.push((IssueKind::MissingCommentEntry, key@)));
                    assert(missing_of(missing@) =~= mi0.push(key@));
                }
            }
            return;
        },
    };
    proof {
        lemma_entry_from(ids, key@, 0);
    }
    let m = marks[j];
    match kind {
        MarkerKind::Start => {
            if open[j] {
                issues.push((IssueKind::DuplicateRangeStart, copy_bytes(key.as_slice())));
            }
            let start = match m.range_start {
                Some(x) => Some(x),
                None => Some(id),
            };
            marks.set(j, CommentMarks { range_start: start, range_end: m.range_end, complete_range: m.complete_range, reference: m.reference });
            open.set(j, true);
        },
        MarkerKind::End => {
            if m.range_end.is_some() {
                issues.push((IssueKind::DuplicateRangeEnd, copy_bytes(key.as_slice())));
            } else if !open[j] {
                issues.push((IssueKind::UnmatchedRangeEnd, copy_bytes(key.as_slice())));
                marks.set(j, CommentMarks { range_start: m.range_start, range_end: Some(id), complete_range: m.complete_range, reference: m.reference });
            } else {
                marks.set(j, CommentMarks { range_start: m.range_start, range_end: Some(id), complete_range: true, reference: m.reference });
                open.set(j, false);
            }
        },
        MarkerKind::Reference => {
            if m.reference.is_some() {
                issues.push((IssueKind::DuplicateReference, copy_bytes(key.as_slice())));
            }
            marks.set(j, CommentMarks { range_start: m.range_start, range_end: m.range_end, complete_range: m.complete_range, reference: Some(id) });
        },
    }
    proof {
        let st = scan_step(document, ids, i as int, (m0, o0, is0, mi0));
        assert(marks@ =~= st.0);
        assert(open@ =~= st.1);
        assert(issues_of(issues@) =~= st.2);
        assert(missing_of(missing@) =~= st.3);
    }
}

/// Runs the scan over every node of the main document.
fn scan_document(document: &SourceDocument, keys: &Vec<Option<Vec<u8>>>) -> (r: (Vec<CommentMarks>, Vec<bool>, Vec<(IssueKind, Vec<u8>)>))
    requires
        document.wf(),
    ensures
        ({
            let st = scan(document, ids_of(keys@), document.nodes@.len() as int);
            &&& r.0@ == st.0
            &&& r.1@ == st.1
            &&& issues_of(r.2@) == st.2
            &&& marks_below(r.0@, document.nodes@.len() as int)
        }),
{
    let n = document.node_count();
    let mut marks: Vec<CommentMarks> = Vec::new();
    let mut open: Vec<bool> = Vec::new();
    let mut k: usize = 0;
    while k < keys.len()
        invariant
            k <= keys@.len(),
            marks@.len() == k,
            open@.len() == k,
            forall|j: int| 0 <= j < k ==> #[trigger] marks@[j] == no_marks(),
            forall|j: int| 0 <= j < k ==> #[trigger] open@[j] == false,
        decreases keys@.len() - k,
    {
        marks.push(CommentMarks { range_start: None, range_end: None, complete_range: false, reference: None });
        open.push(false);
        k += 1;
    }
    let mut issues: Vec<(IssueKind, Vec<u8>)> = Vec::new();
    let mut missing: Vec<Vec<u8>> = Vec::new();
    proof {
        let st = scan(document, ids_of(keys@), 0);
        assert(marks@ =~= st.0);
        assert(open@ =~= st.1);
        assert(issues_of(issues@) =~= st.2);
        assert(missing_of(missing@) =~= st.3);
    }
    let mut i: usize = 0;
    while i < n
        invariant
            document.wf(),
            n == document.nodes@.len(),
            i <= n,
            marks@.len() == keys@.len(),
            open@.len() == keys@.len(),
            marks_below(marks@, i as int),
            (marks@, open@, issues_of(issues@), missing_of(missing@)) == scan(document, ids_of(keys@), i as int),
        decreases n - i,
    {
        scan_marker(document, keys, i, &mut marks, &mut open, &mut issues, &mut missing);
        i += 1;
    }
    (marks, open, issues)
}


/// What the scan keeps true of each comment: an open range has its start marker, and a
/// complete range has both markers, start before end, each a marker of that comment.
pub open spec fn scan_facts(d: &SourceDocument, ids: Seq<Option<Seq<u8>>>, marks: Seq<CommentMarks>, open: Seq<bool>) -> bool {
    &&& marks.len() == ids.len()
    &&& open.len() == ids.len()
    &&& forall|j: int| #![trigger marks[j]] #![trigger open[j]] 0 <= j < ids.len() ==> {
        &&& (open[j] ==> marks[j].range_start is Some)
        &&& marker_for(d, marks[j].range_start, MarkerKind::Start, ids[j])
        &&& marker_for(d, marks[j].range_end, MarkerKind::End, ids[j])
        &&& (marks[j].complete_range ==> ordered(marks[j].range_start, marks[j].range_end))
    }
}

/// The node, if any, is a marker of the given kind carrying the given id.
pub open spec fn marker_for(d: &SourceDocument, node: Option<NodeId>, kind: MarkerKind, id: Option<Seq<u8>>) -> bool {
    match node {
        Some(x) => marker_of(d, x.0 as int) == Some(kind) && id is Some && d.spec_attribute(x.0 as int, "id".spec_bytes()) == id,
        None => true,
    }
}

/// Both nodes are there, the first before the second.
pub open spec fn ordered(a: Option<NodeId>, b: Option<NodeId>) -> bool {
    match (a, b) {
        (Some(x), Some(y)) => x.0 < y.0,
        _ => false,
    }
}

proof fn lemma_scan_facts(d: &SourceDocument, ids: Seq<Option<Seq<u8>>>, upto: int)
    requires
        0 <= upto <= usize::MAX,
    ensures
        scan_facts(d, ids, scan(d, ids, upto).0, scan(d, ids, upto).1),
        marks_below(scan(d, ids, upto).0, upto),
    decreases upto,
{
    if upto > 0 {
        let i = upto - 1;
        lemma_scan_facts(d, ids, i);
        let prev = scan(d, ids, i);
        let next = scan(d, ids, upto);
        assert(next == scan_step(d, ids, i, prev));
        let here = Some(NodeId(i as usize));
        assert(NodeId(i as usize).0 as int == i);
        match marker_of(d, i) {
            None => {
                assert(next.0 == prev.0 && next.1 == prev.1);
            },
            Some(kind) => match d.spec_attribute(i, "id".spec_bytes()) {
                None => {
                    assert(next.0 == prev.0 && next.1 == prev.1);
                },
                Some(key) => {
                    lemma_entry_from(ids, key, 0);
                    match entry(ids, key) {
                        None => {
                            assert(next.0 == prev.0 && next.1 == prev.1);
                        },
                        Some(j0) => {
                            assert(ids[j0] == Some(key));
                            assert(marker_for(d, here, kind, ids[j0]));
                            assert(prev.0[j0] == prev.0[j0]);
                            assert(prev.1[j0] ==> prev.0[j0].range_start is Some);
                            assert forall|j: int| #![trigger next.0[j]] #![trigger next.1[j]] 0 <= j < ids.len() implies {
                                &&& (next.1[j] ==> next.0[j].range_start is Some)
                                &&& marker_for(d, next.0[j].range_start, MarkerKind::Start, ids[j])
                                &&& marker_for(d, next.0[j].range_end, MarkerKind::End, ids[j])
                                &&& (next.0[j].complete_range ==> ordered(next.0[j].range_start, next.0[j].range_end))
                            } by {
                                assert(prev.1[j] ==> prev.0[j].range_start is Some);
                                if j != j0 {
                                    assert(next.0[j] == prev.0[j]);
                                    assert(next.1[j] == prev.1[j]);
                                }
                            }
                            assert(scan_facts(d, ids, next.0, next.1));
                            assert forall|j: int| 0 <= j < next.0.len() implies {
                                &&& ((#[trigger] next.0[j]).range_start matches Some(x) ==> x.0 < upto)
                                &&& (next.0[j].range_end matches Some(x) ==> x.0 < upto)
                                &&& (next.0[j].reference matches Some(x) ==> x.0 < upto)
                            } by {
                                if j != j0 {
                                    assert(next.0[j] == prev.0[j]);
                                } else {
                                    assert(prev.0[j] == prev.0[j]);
                                }
                            }
                        },
                    }
                },
            },
        }
    }
}

/// The unmatched-start problems reported after the scan: one for each comment whose
/// range is still open, in comments-part order.
pub open spec fn unmatched(ids: Seq<Option<Seq<u8>>>, open: Seq<bool>, upto: int) -> Seq<(IssueKind, Seq<u8>)>
    decreases upto,
{
    if upto <= 0 {
        seq![]
    } else {
        let rest = unmatched(ids, open, upto - 1);
        if open[upto - 1] {
            rest.push((IssueKind::UnmatchedRangeStart, match ids[upto - 1] {
                Some(x) => x,
                None => seq![],
            }))
        } else {
            rest
        }
    }
}

/// Where a comment is anchored in the main document: the start of its range start
/// marker, else of its range end marker, else after everything.
pub open spec fn anchor_key(doc: &SourceDocument, m: CommentMarks) -> usize {
    let anchor = if m.range_start is Some {
        m.range_start
    } else {
        m.range_end
    };
    match anchor {
        Some(x) => doc.spec_span(x.0 as int).start,
        None => usize::MAX,
    }
}

/// The comments of a document, with the problems found while matching their markers.
#[derive(Debug)]
pub struct CommentSet {
    pub source: Option<SourceDocument>,
    pub comments: Vec<CommentData>,
    pub order: Vec<usize>,
    pub errors: Vec<CommentIssue>,
}

/// The author, initials and date of a comment.
#[derive(Clone, Debug, Default, PartialEq, Eq)]
pub struct CommentMetadata {
    pub author: Option<String>,
    pub initials: Option<String>,
    pub date: Option<String>,
}

/// A comment of a comments part.
pub struct Comment<'a> {
    pub source: &'a SourceDocument,
    pub data: &'a CommentData,
}

fn clone_text(o: &Option<String>) -> (r: Option<String>)
    ensures
        r == *o,
{
    match o {
        Some(s) => Some(s.clone()),
        None => None,
    }
}

impl CommentSet {
    /// Every comment that `comments` lists exists.
    pub open spec fn wf(&self) -> bool {
        forall|k: int| 0 <= k < self.order@.len() ==> (#[trigger] self.order@[k]) < self.comments@.len()
    }

    /// The comments of a document without a comments part.
    pub fn empty() -> (r: CommentSet)
        ensures
            r.wf(),
            r.source is None,
            r.comments@.len() == 0,
            r.order@.len() == 0,
            r.errors@.len() == 0,
    {
        CommentSet { source: None, comments: Vec::new(), order: Vec::new(), errors: Vec::new() }
    }

    /// Reads a comments part and matches its comments with the range and reference
    /// markers of the main document, which are visited in document order. A marker
    /// belongs to the first comment with its id. Comments are listed by where their
    /// range starts (else ends) in the main document; comments without markers come
    /// last, and ties keep comments-part order.
    pub fn load(part: Vec<u8>, document: &SourceDocument) -> (r: Result<CommentSet, CommentError>)
        requires
            document.wf(),
        ensures
            match r {
                Ok(set) => set.source matches Some(source) && {
                    let found = named_among(&source, source.spec_children(0), "comment".spec_bytes(), "comment".spec_bytes());
                    let ids = Seq::new(found.len(), |k: int| source.spec_attribute(found[k].0 as int, "id".spec_bytes()));
                    let st = scan(document, ids, document.nodes@.len() as int);
                    let issues = part_issues(ids) + st.2 + unmatched(ids, st.1, ids.len() as int);
                    &&& source.wf()
                    &&& source.bytes@ == part@
                    &&& is_word(&source, 0, "comments".spec_bytes())
                    &&& set.wf()
                    &&& set.comments@.len() == found.len()
                    &&& forall|k: int| 0 <= k < found.len() ==> comment_reads(#[trigger] set.comments@[k], &source, found[k])
                        && set.comments@[k].marks == st.0[k]
                    &&& stable_order(set.order@, Seq::new(found.len(), |k: int| (anchor_key(document, st.0[k]), 0usize)), found.len() as int)
                    &&& set.errors@.len() == issues.len()
                    &&& forall|k: int| 0 <= k < issues.len() ==> issue_is(#[trigger] set.errors@[k], issues[k].0, issues[k].1)
                    &&& forall|k: int| 0 <= k < found.len() ==> (#[trigger] set.comments@[k]).marks.complete_range ==> {
                        &&& ordered(set.comments@[k].marks.range_start, set.comments@[k].marks.range_end)
                        &&& marker_for(document, set.comments@[k].marks.range_start, MarkerKind::Start, ids[k])
                        &&& marker_for(document, set.comments@[k].marks.range_end, MarkerKind::End, ids[k])
                    }
                },
                Err(CommentError::Source(_)) => !crate::source::accepts(part@),
                Err(e) => e == CommentError::InvalidCommentsRoot && exists|d: SourceDocument|
                    #![trigger d.bytes]
                    d.wf() && d.faithful() && d.bytes@ == part@ && !is_word(&d, 0, "comments".spec_bytes()),
            },
            r matches Ok(set) ==> set.source matches Some(source) && source.faithful(),
    {
        let ghost bytes = part@;
        let source = match SourceDocument::parse(part) {
            Ok(s) => s,
            Err(e) => return Err(CommentError::Source(e)),
        };
        assert(source.bytes == source.bytes);
        if !word(&source, NodeId(0), "comments") {
            return Err(CommentError::InvalidCommentsRoot);
        }
        let (mut comments, keys, part_found) = read_comment_elements(&source);
        let ghost found = named_among(&source, source.spec_children(0), "comment".spec_bytes(), "comment".spec_bytes());
        let ghost ids = Seq::new(found.len(), |k: int| source.spec_attribute(found[k].0 as int, "id".spec_bytes()));
        proof {
            assert forall|k: int| 0 <= k < ids.len() implies #[trigger] ids[k] == ids_of(keys@)[k] by {
                assert(comment_reads(comments@[k], &source, found[k]));
            }
            assert(ids =~= ids_of(keys@));
        }
        let (marks, open, scanned) = scan_document(document, &keys);
        let total = document.node_count();
        proof {
            lemma_scan_facts(document, ids, total as int);
            assert(scan_facts(document, ids, scan(document, ids, total as int).0, scan(document, ids, total as int).1));
        }
        let ghost st = scan(document, ids, total as int);
        let n = comments.len();
        // the problems, in the order they were found
        let mut errors: Vec<CommentIssue> = Vec::new();
        let mut k: usize = 0;
        while k < part_found.len()
            invariant
                k <= part_found@.len(),
                errors@.len() == k,
                forall|m: int| 0 <= m < k ==> issue_is(#[trigger] errors@[m], part_found@[m].0, part_found@[m].1@),
            decreases part_found@.len() - k,
        {
            errors.push(make_issue(part_found[k].0, &part_found[k].1));
            k += 1;
        }
        let ghost first = errors@.len();
        let mut k: usize = 0;
        while k < scanned.len()
            invariant
                k <= scanned@.len(),
                errors@.len() == first + k,
                forall|m: int| 0 <= m < first ==> issue_is(#[trigger] errors@[m], part_found@[m].0, part_found@[m].1@),
                forall|m: int| first <= m < first + k ==> issue_is(#[trigger] errors@[m], scanned@[m - first].0, scanned@[m - first].1@),
            decreases scanned@.len() - k,
        {
            errors.push(make_issue(scanned[k].0, &scanned[k].1));
            k += 1;
        }
        let ghost second = errors@.len();
        let mut j: usize = 0;
        while j < n
            invariant
                n == comments@.len(),
                n == keys@.len(),
                n == ids.len(),
                ids == ids_of(keys@),
                first <= second,
                open@ == st.1,
                st.1.len() == n,
                j <= n,
                errors@.len() == second + unmatched(ids, st.1, j as int).len(),
                forall|m: int| 0 <= m < first ==> issue_is(#[trigger] errors@[m], part_found@[m].0, part_found@[m].1@),
                forall|m: int| first <= m < second ==> issue_is(#[trigger] errors@[m], scanned@[m - first].0, scanned@[m - first].1@),
                forall|m: int| second <= m < errors@.len() ==> issue_is(#[trigger] errors@[m], unmatched(ids, st.1, j as int)[m - second].0, unmatched(ids, st.1, j as int)[m - second].1),
            decreases n - j,
        {
            if open[j] {
                let key = match &keys[j] {
                    Some(v) => copy_bytes(v.as_slice()),
                    None => Vec::new(),
                };
                proof {
                    assert(ids[j as int] == bytes_view(keys@[j as int]));
                }
                errors.push(make_issue(IssueKind::UnmatchedRangeStart, &key));
            }
            j += 1;
        }
        proof {
            let issues = part_issues(ids) + st.2 + unmatched(ids, st.1, ids.len() as int);
            assert(issues_of(part_found@) == part_issues(ids));
            assert forall|m: int| 0 <= m < issues.len() implies issue_is(#[trigger] errors@[m], issues[m].0, issues[m].1) by {
                if m < first {
                    assert(issues[m] == part_issues(ids)[m]);
                    assert(issues_of(part_found@)[m] == (part_found@[m].0, part_found@[m].1@));
                } else if m < second {
                    assert(issues[m] == st.2[m - first]);
                    assert(issues_of(scanned@)[m - first] == (scanned@[m - first].0, scanned@[m - first].1@));
                } else {
                    assert(issues[m] == unmatched(ids, st.1, ids.len() as int)[m - second]);
                }
            }
        }
        // record the markers of each comment
        let mut j: usize = 0;
        while j < n
            invariant
                n == comments@.len(),
                n == marks@.len(),
                marks@ == st.0,
                j <= n,
                forall|m: int| 0 <= m < found.len() ==> comment_reads(#[trigger] comments@[m], &source, found[m]),
                found.len() == n,
                forall|m: int| 0 <= m < j ==> (#[trigger] comments@[m]).marks == st.0[m],
            decreases n - j,
        {
            let ghost before = comments@;
            let mut c = comments.remove(j);
            c.marks = marks[j];
            comments.insert(j, c);
            proof {
                assert forall|m: int| 0 <= m < found.len() implies comment_reads(#[trigger] comments@[m], &source, found[m]) by {
                    if m != j {
                        assert(comments@[m] == before[m]);
                    }
                }
                assert forall|m: int| 0 <= m < j + 1 implies (#[trigger] comments@[m]).marks == st.0[m] by {
                    if m != j {
                        assert(comments@[m] == before[m]);
                    }
                }
            }
            j += 1;
        }
        // order the comments by where they are anchored
        let mut keys_by_anchor: Vec<(usize, usize)> = Vec::new();
        let mut j: usize = 0;
        while j < n
            invariant
                document.wf(),
                n == marks@.len(),
                marks@ == st.0,
                marks_below(st.0, document.nodes@.len() as int),
                j <= n,
                keys_by_anchor@.len() == j,
                forall|m: int| 0 <= m < j ==> #[trigger] keys_by_anchor@[m] == (anchor_key(document, st.0[m]), 0usize),
            decreases n - j,
        {
            let m = marks[j];
            let anchor = match m.range_start {
                Some(x) => Some(x),
                None => m.range_end,
            };
            let key = match anchor {
                Some(x) => document.span(x).start,
                None => usize::MAX,
            };
            proof {
                assert(marks@[j as int] == st.0[j as int]);
            }
            keys_by_anchor.push((key, 0));
            j += 1;
        }
        let order = stable_key_order(&keys_by_anchor);
        proof {
            assert(keys_by_anchor@ =~= Seq::new(found.len(), |k: int| (anchor_key(document, st.0[k]), 0usize)));
            assert forall|k: int| 0 <= k < found.len() && (#[trigger] comments@[k]).marks.complete_range implies {
                &&& ordered(comments@[k].marks.range_start, comments@[k].marks.range_end)
                &&& marker_for(document, comments@[k].marks.range_start, MarkerKind::Start, ids[k])
                &&& marker_for(document, comments@[k].marks.range_end, MarkerKind::End, ids[k])
            } by {
                assert(scan_facts(document, ids, st.0, st.1));
                assert(st.1[k] == st.1[k]);
                assert(comments@[k].marks == st.0[k]);
                assert(marker_for(document, st.0[k].range_start, MarkerKind::Start, ids[k]));
            }
        }
        Ok(CommentSet { source: Some(source), comments, order, errors })
    }

    /// The comments, ordered by where they are anchored in the main document.
    pub fn comments(&self) -> (r: Vec<Comment<'_>>)
        ensures
            match self.source {
                None => r@.len() == 0,
                Some(source) => self.wf() ==> r@.len() == self.order@.len() && forall|k: int|
                    0 <= k < r@.len() ==> *(#[trigger] r@[k]).source == source && *r@[k].data
                        == self.comments@[self.order@[k] as int],
            },
    {
        let mut out: Vec<Comment<'_>> = Vec::new();
        let source = match &self.source {
            Some(s) => s,
            None => return out,
        };
        let mut k: usize = 0;
        while k < self.order.len()
            invariant
                self.source == Some(*source),
                k <= self.order@.len(),
                out@.len() == k,
                forall|m: int| 0 <= m < k ==> *(#[trigger] out@[m]).source == *source && *out@[m].data
                    == self.comments@[self.order@[m] as int],
            decreases self.order@.len() - k,
        {
            let index = self.order[k];
            if index >= self.comments.len() {
                return out;
            }
            out.push(Comment { source, data: &self.comments[index] });
            k += 1;
        }
        out
    }

    /// The problems found while matching comments with their markers.
    pub fn errors(&self) -> (r: &[CommentIssue])
        ensures
            r@ == self.errors@,
    {
        self.errors.as_slice()
    }
}

impl<'a> Comment<'a> {
    pub fn id(&self) -> (r: Option<&str>)
        ensures
            match r {
                Some(s) => self.data.id_text matches Some(t) && s@ == t@,
                None => self.data.id_text is None,
            },
    {
        match &self.data.id_text {
            Some(s) => Some(s.as_str()),
            None => None,
        }
    }

    pub fn metadata(&self) -> (r: CommentMetadata)
        ensures
            r.author == self.data.author,
            r.initials == self.data.initials,
            r.date == self.data.date,
    {
        CommentMetadata {
            author: clone_text(&self.data.author),
            initials: clone_text(&self.data.initials),
            date: clone_text(&self.data.date),
        }
    }

    /// True only when both document range markers were found.
    pub fn has_range(&self) -> (r: bool)
        ensures
            r == self.data.marks.complete_range,
    {
        self.data.marks.complete_range
    }

    pub fn has_reference(&self) -> (r: bool)
        ensures
            r == self.data.marks.reference is Some,
    {
        self.data.marks.reference.is_some()
    }
}


/// The paragraph texts among the nodes `lo+1..upto` of a comment: each `w:p` that is
/// not inside an earlier paragraph starts a paragraph, whose text gathers the `w:t` and
/// `w:delText` elements inside it. The second component is where the current paragraph
/// ends. `None` when the text of a gathered element cannot be read.
pub open spec fn paragraph_scan(d: &SourceDocument, lo: int, upto: int) -> Option<(Seq<Seq<u8>>, int)>
    decreases upto - lo,
{
    if upto <= lo + 1 {
        Some((seq![], 0))
    } else {
        let i = upto - 1;
        match paragraph_scan(d, lo, i) {
            None => None,
            Some((ps, end)) => if i < end {
                if is_word(d, i, "t".spec_bytes()) || is_word(d, i, "delText".spec_bytes()) {
                    match spec_text_value(d, i) {
                        Some(v) => Some((ps.update(ps.len() - 1, ps.last() + v), end)),
                        None => None,
                    }
                } else {
                    Some((ps, end))
                }
            } else if is_word(d, i, "p".spec_bytes()) {
                Some((ps.push(seq![]), d.subtree_ends@[i] as int))
            } else {
                Some((ps, end))
            },
        }
    }
}

/// The bytes are there and are UTF-8.
pub open spec fn utf8_text(o: Option<Seq<u8>>) -> bool {
    match o {
        Some(b) => vstd::utf8::valid_utf8(b),
        None => false,
    }
}

/// Lines joined with line feeds.
pub open spec fn join_lines(ps: Seq<Seq<u8>>) -> Seq<u8>
    decreases ps.len(),
{
    if ps.len() == 0 {
        seq![]
    } else if ps.len() == 1 {
        ps[0]
    } else {
        join_lines(ps.drop_last()) + seq![0x0au8] + ps.last()
    }
}

/// The text of the comment element `c`: its paragraphs, one per line.
pub open spec fn comment_text(d: &SourceDocument, c: int) -> Option<Seq<u8>> {
    match paragraph_scan(d, c, d.subtree_ends@[c] as int) {
        Some((ps, _)) => Some(join_lines(ps)),
        None => None,
    }
}

pub open spec fn lines_of(v: Seq<Vec<u8>>) -> Seq<Seq<u8>> {
    Seq::new(v.len(), |k: int| v[k]@)
}

fn join_with_newlines(paras: &Vec<Vec<u8>>) -> (r: Vec<u8>)
    ensures
        r@ == join_lines(lines_of(paras@)),
{
    let mut out: Vec<u8> = Vec::new();
    if paras.len() == 0 {
        return out;
    }
    push_bytes(&mut out, paras[0].as_slice());
    let mut k: usize = 1;
    proof {
        assert(lines_of(paras@).take(1) =~= seq![paras@[0]@]);
    }
    while k < paras.len()
        invariant
            1 <= k <= paras@.len(),
            out@ == join_lines(lines_of(paras@).take(k as int)),
        decreases paras@.len() - k,
    {
        proof {
            let t = lines_of(paras@).take(k as int + 1);
            assert(t.drop_last() =~= lines_of(paras@).take(k as int));
        }
        out.push(0x0au8);
        push_bytes(&mut out, paras[k].as_slice());
        proof {
            let t = lines_of(paras@).take(k as int + 1);
            assert(out@ =~= join_lines(t.drop_last()) + seq![0x0au8] + t.last());
        }
        k += 1;
    }
    proof {
        assert(lines_of(paras@).take(paras@.len() as int) =~= lines_of(paras@));
    }
    out
}

impl<'a> Comment<'a> {
    /// The comment's text: its paragraphs, one per line. An error when a text element
    /// cannot be read, or when the text is not UTF-8.
    pub fn text(&self) -> (r: Result<String, SemanticError>)
        requires
            self.source.wf(),
            self.source.valid_id(self.data.source_id),
        ensures
            match r {
                Ok(s) => comment_text(self.source, self.data.source_id.0 as int) matches Some(b)
                    && vstd::utf8::valid_utf8(b) && s@ == vstd::utf8::decode_utf8(b),
                Err(e) => e == SemanticError::InvalidTextNode && !utf8_text(
                    comment_text(self.source, self.data.source_id.0 as int),
                ),
            },
    {
        let source = self.source;
        let c = self.data.source_id.0;
        let end = source.subtree_end(self.data.source_id);
        let mut paras: Vec<Vec<u8>> = Vec::new();
        let mut current_end: usize = 0;
        let mut i: usize = c + 1;
        while i < end
            invariant
                source.wf(),
                c < end <= source.nodes@.len(),
                end == source.subtree_ends@[c as int],
                source == self.source,
                c == self.data.source_id.0,
                c + 1 <= i <= end,
                paragraph_scan(source, c as int, i as int) == Some((lines_of(paras@), current_end as int)),
                current_end as int <= source.nodes@.len(),
                current_end > 0 ==> paras@.len() > 0,
            decreases end - i,
        {
            let id = NodeId(i);
            let ghost before = lines_of(paras@);
            if i < current_end {
                if word(source, id, "t") || word(source, id, "delText") {
                    let v = match text_value(source, id) {
                        Ok(v) => v,
                        Err(e) => {
                            proof {
                                assert(spec_text_value(source, i as int) is None);
                                assert(paragraph_scan(source, c as int, i as int + 1) is None);
                                lemma_paragraph_scan_none(source, c as int, i as int + 1, end as int);
                                assert(comment_text(source, c as int) is None);
                            }
                            return Err(e);
                        },
                    };
                    let mut last = paras.pop().unwrap();
                    push_bytes(&mut last, v.as_slice());
                    paras.push(last);
                    proof {
                        assert(lines_of(paras@) =~= before.update(before.len() - 1, before.last() + v@));
                    }
                }
            } else if word(source, id, "p") {
                let e = source.subtree_end(id);
                paras.push(Vec::new());
                current_end = e;
                proof {
                    assert(lines_of(paras@) =~= before.push(seq![]));
                }
            }
            i += 1;
        }
        let joined = join_with_newlines(&paras);
        match utf8_string(joined) {
            Some(s) => Ok(s),
            None => Err(SemanticError::InvalidTextNode),
        }
    }
}

proof fn lemma_paragraph_scan_none(d: &SourceDocument, lo: int, from: int, upto: int)
    requires
        lo + 1 <= from <= upto,
        paragraph_scan(d, lo, from) is None,
    ensures
        paragraph_scan(d, lo, upto) is None,
    decreases upto - from,
{
    if from < upto {
        lemma_paragraph_scan_none(d, lo, from, upto - 1);
    }
}

/// The relationship type names a comments part.
pub open spec fn is_comments_type(rel: Relationship) -> bool {
    let t = vstd::utf8::encode_utf8(rel.relationship_type@);
    t == COMMENTS_RELATIONSHIP.spec_bytes() || t == COMMENTS_RELATIONSHIP_STRICT.spec_bytes()
}

/// The index of the first comments relationship at or after `from`.
pub open spec fn first_comments(rels: Seq<Relationship>, from: int) -> Option<int>
    decreases rels.len() - from,
{
    if from < 0 || from >= rels.len() {
        None
    } else if is_comments_type(rels[from]) {
        Some(from)
    } else {
        first_comments(rels, from + 1)
    }
}

/// The comments part of the main document, from the main part's relationships: `None`
/// when there is no comments relationship, an error when the first one is external.
pub fn comments_part(relationships: &[Relationship]) -> (r: Result<Option<String>, CommentError>)
    ensures
        r == match first_comments(relationships@, 0) {
            None => Ok(None),
            Some(k) => match relationships@[k].target {
                RelationshipTarget::Internal { part_name } => Ok(Some(part_name)),
                RelationshipTarget::External { .. } => Err(CommentError::ExternalCommentsPart),
            },
        },
{
    let mut k: usize = 0;
    while k < relationships.len()
        invariant
            k <= relationships@.len(),
            first_comments(relationships@, 0) == first_comments(relationships@, k as int),
        decreases relationships@.len() - k,
    {
        let t = relationships[k].relationship_type.as_str().as_bytes();
        if bytes_are(t, COMMENTS_RELATIONSHIP) || bytes_are(t, COMMENTS_RELATIONSHIP_STRICT) {
            return match &relationships[k].target {
                RelationshipTarget::Internal { part_name } => Ok(Some(part_name.clone())),
                RelationshipTarget::External { .. } => Err(CommentError::ExternalCommentsPart),
            };
        }
        k += 1;
    }
    Ok(None)
}


} // verus!
