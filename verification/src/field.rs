use vstd::prelude::*;
use vstd::string::StringSliceAdditionalSpecFns;

use crate::bytes::{bytes_are, utf8_string};
use crate::source::{NodeId, SourceDocument};
use crate::wordml::{collect_text, collected, is_word, semantic_error_code, word, SemanticError};

verus! {

#[derive(Clone, Copy, Debug, PartialEq, Eq, Structural)]
pub enum FieldKind {
    Simple,
    Complex,
}

#[derive(Clone, Copy, Debug, PartialEq, Eq, Structural)]
pub enum FieldState {
    Complete,
    Unterminated,
}

/// A simple (`w:fldSimple`) or complex (`w:fldChar` begin/separate/end) field.
pub struct Field<'a> {
    pub source: &'a SourceDocument,
    pub source_id: NodeId,
    pub kind: FieldKind,
    pub state: FieldState,
    pub instruction_end_id: Option<NodeId>,
    pub separate_id: Option<NodeId>,
    pub end_id: Option<NodeId>,
}

#[derive(Clone, Copy, Debug, PartialEq, Eq, Structural)]
pub enum FieldError {
    Semantic(SemanticError),
    MalformedField,
    UnexpectedSeparate(NodeId),
    UnmatchedEnd(NodeId),
    UnterminatedBegin(NodeId),
}

/// The machine-readable code of a field-structure error.
pub open spec fn field_error_code(e: FieldError) -> Seq<char> {
    match e {
        FieldError::Semantic(error) => semantic_error_code(error),
        FieldError::MalformedField => "MALFORMED_FIELD"@,
        FieldError::UnexpectedSeparate(_) => "UNEXPECTED_FIELD_SEPARATOR"@,
        FieldError::UnmatchedEnd(_) => "UNMATCHED_FIELD_END"@,
        FieldError::UnterminatedBegin(_) => "UNTERMINATED_FIELD_BEGIN"@,
    }
}

impl FieldError {
    pub fn code(&self) -> (r: &'static str)
        ensures
            r@ == field_error_code(*self),
    {
        match self {
            FieldError::Semantic(error) => error.code(),
            FieldError::MalformedField => "MALFORMED_FIELD",
            FieldError::UnexpectedSeparate(_) => "UNEXPECTED_FIELD_SEPARATOR",
            FieldError::UnmatchedEnd(_) => "UNMATCHED_FIELD_END",
            FieldError::UnterminatedBegin(_) => "UNTERMINATED_FIELD_BEGIN",
        }
    }
}

/// A `w:fldChar` marker of the given type (`begin`, `separate` or `end`).
pub open spec fn is_marker(d: &SourceDocument, i: int, marker: Seq<u8>) -> bool {
    is_word(d, i, "fldChar".spec_bytes()) && d.spec_attribute(i, "fldCharType".spec_bytes())
        == Some(marker)
}


impl<'a> Field<'a> {
    /// The facts every discovered field satisfies.
    pub open spec fn wf(&self) -> bool {
        let d = self.source;
        let i = self.source_id.0 as int;
        &&& d.wf()
        &&& d.valid_id(self.source_id)
        &&& match self.kind {
            FieldKind::Simple => {
                &&& is_word(d, i, "fldSimple".spec_bytes())
                &&& self.state == FieldState::Complete
                &&& self.separate_id is None && self.end_id is None && self.instruction_end_id is None
            },
            FieldKind::Complex => {
                &&& is_marker(d, i, "begin".spec_bytes())
                &&& (self.state == FieldState::Complete <==> self.end_id is Some)
                &&& self.end_id matches Some(e) ==> i < e.0 && is_marker(d, e.0 as int, "end".spec_bytes())
                &&& self.separate_id matches Some(s) ==> i < s.0 && is_marker(
                    d,
                    s.0 as int,
                    "separate".spec_bytes(),
                )
                &&& self.instruction_end_id matches Some(x) ==> i < x.0 && is_word(
                    d,
                    x.0 as int,
                    "instrText".spec_bytes(),
                )
            },
        }
    }

    pub fn source_id(&self) -> (r: NodeId)
        ensures
            r == self.source_id,
    {
        self.source_id
    }

    pub fn kind(&self) -> (r: FieldKind)
        ensures
            r == self.kind,
    {
        self.kind
    }

    pub fn state(&self) -> (r: FieldState)
        ensures
            r == self.state,
    {
        self.state
    }

    pub fn separate_id(&self) -> (r: Option<NodeId>)
        ensures
            r == self.separate_id,
    {
        self.separate_id
    }

    pub fn end_id(&self) -> (r: Option<NodeId>)
        ensures
            r == self.end_id,
    {
        self.end_id
    }

    pub fn has_separator(&self) -> (r: bool)
        ensures
            r == self.separate_id is Some,
    {
        self.separate_id.is_some()
    }

    /// The marker up to which a complex field's instruction runs.
    pub open spec fn instruction_limit(&self) -> Option<NodeId> {
        if self.separate_id is Some {
            self.separate_id
        } else if self.end_id is Some {
            self.end_id
        } else {
            self.instruction_end_id
        }
    }

    /// The instruction bytes: the `instr` attribute of a simple field, the `w:instrText`
    /// text between the begin marker and the separator (or end) of a complex one.
    pub open spec fn spec_instruction(&self) -> Option<Option<Seq<u8>>> {
        let d = self.source;
        match self.kind {
            FieldKind::Simple => Some(d.spec_attribute(self.source_id.0 as int, "instr".spec_bytes())),
            FieldKind::Complex => match self.instruction_limit() {
                Some(end) => match collected(
                    d,
                    "instrText".spec_bytes(),
                    d.spec_span(self.source_id.0 as int).end as int,
                    d.spec_span(end.0 as int).end as int,
                    false,
                    d.nodes@.len() as int,
                ) {
                    Some(t) => Some(Some(t)),
                    None => None,
                },
                None => Some(None),
            },
        }
    }

    /// The displayed result bytes: the text inside a simple field, the text between the
    /// separator and end of a complex one.
    pub open spec fn spec_result(&self) -> Option<Option<Seq<u8>>> {
        let d = self.source;
        let i = self.source_id.0 as int;
        match self.kind {
            FieldKind::Simple => match collected(
                d,
                "t".spec_bytes(),
                d.spec_span(i).start as int,
                d.spec_span(i).end as int,
                true,
                d.nodes@.len() as int,
            ) {
                Some(t) => Some(Some(t)),
                None => None,
            },
            FieldKind::Complex => match (self.separate_id, self.end_id) {
                (Some(sep), Some(end)) => match collected(
                    d,
                    "t".spec_bytes(),
                    d.spec_span(sep.0 as int).end as int,
                    d.spec_span(end.0 as int).start as int,
                    false,
                    d.nodes@.len() as int,
                ) {
                    Some(t) => Some(Some(t)),
                    None => None,
                },
                _ => Some(None),
            },
        }
    }

    /// The field instruction as written in the document.
    pub fn instruction(&self) -> (r: Result<Option<String>, FieldError>)
        requires
            self.wf(),
        ensures
            match r {
                Ok(Some(text)) => self.spec_instruction() matches Some(Some(t)) && text@
                    == vstd::utf8::decode_utf8(t),
                Ok(None) => self.spec_instruction() == Some(None::<Seq<u8>>),
                Err(_) => match self.spec_instruction() {
                    None => true,
                    Some(Some(t)) => !vstd::utf8::valid_utf8(t),
                    Some(None) => false,
                },
            },
    {
        let d = self.source;
        match self.kind {
            FieldKind::Simple => match d.attribute(self.source_id, "instr") {
                Some(v) => match to_text(v) {
                    Ok(t) => Ok(Some(t)),
                    Err(e) => Err(e),
                },
                None => Ok(None),
            },
            FieldKind::Complex => {
                let end = if self.separate_id.is_some() {
                    self.separate_id
                } else if self.end_id.is_some() {
                    self.end_id
                } else {
                    self.instruction_end_id
                };
                match end {
                    Some(end) => {
                        let lo = d.span(self.source_id).end;
                        let hi = d.span(end).end;
                        match collect_text(d, "instrText", lo, hi, false) {
                            Ok(v) => match to_text(v) {
                                Ok(t) => Ok(Some(t)),
                                Err(e) => Err(e),
                            },
                            Err(e) => Err(FieldError::Semantic(e)),
                        }
                    },
                    None => Ok(None),
                }
            },
        }
    }

    /// The text the field currently displays.
    pub fn result_text(&self) -> (r: Result<Option<String>, FieldError>)
        requires
            self.wf(),
        ensures
            match r {
                Ok(Some(text)) => self.spec_result() matches Some(Some(t)) && text@
                    == vstd::utf8::decode_utf8(t),
                Ok(None) => self.spec_result() == Some(None::<Seq<u8>>),
                Err(_) => match self.spec_result() {
                    None => true,
                    Some(Some(t)) => !vstd::utf8::valid_utf8(t),
                    Some(None) => false,
                },
            },
    {
        let d = self.source;
        match self.kind {
            FieldKind::Simple => {
                let span = d.span(self.source_id);
                match collect_text(d, "t", span.start, span.end, true) {
                    Ok(v) => match to_text(v) {
                        Ok(t) => Ok(Some(t)),
                        Err(e) => Err(e),
                    },
                    Err(e) => Err(FieldError::Semantic(e)),
                }
            },
            FieldKind::Complex => match (self.separate_id, self.end_id) {
                (Some(sep), Some(end)) => {
                    let lo = d.span(sep).end;
                    let hi = d.span(end).start;
                    match collect_text(d, "t", lo, hi, false) {
                        Ok(v) => match to_text(v) {
                            Ok(t) => Ok(Some(t)),
                            Err(e) => Err(e),
                        },
                        Err(e) => Err(FieldError::Semantic(e)),
                    }
                },
                _ => Ok(None),
            },
        }
    }
}

/// The bytes as text, or an error when they are not UTF-8.
fn to_text(v: Vec<u8>) -> (r: Result<String, FieldError>)
    ensures
        match r {
            Ok(t) => t@ == vstd::utf8::decode_utf8(v@),
            Err(_) => !vstd::utf8::valid_utf8(v@),
        },
{
    match utf8_string(v) {
        Some(t) => Ok(t),
        None => Err(FieldError::Semantic(SemanticError::InvalidTextNode)),
    }
}

/// The fields of a document in source order, and the marker problems found on the way.
pub struct FieldSet<'a> {
    pub fields: Vec<Field<'a>>,
    pub errors: Vec<FieldError>,
}

impl<'a> FieldSet<'a> {
    pub fn iter(&self) -> (r: &[Field<'a>])
        ensures
            r@ == self.fields@,
    {
        self.fields.as_slice()
    }

    pub fn errors(&self) -> (r: &[FieldError])
        ensures
            r@ == self.errors@,
    {
        self.errors.as_slice()
    }

    pub fn len(&self) -> (r: usize)
        ensures
            r == self.fields@.len(),
    {
        self.fields.len()
    }

    pub fn is_empty(&self) -> (r: bool)
        ensures
            r == (self.fields@.len() == 0),
    {
        self.fields.len() == 0
    }
}

/// Whether node `i` starts a field: a simple field or a complex field's begin marker.
pub open spec fn starts_field(d: &SourceDocument, i: int) -> bool {
    is_word(d, i, "fldSimple".spec_bytes()) || is_marker(d, i, "begin".spec_bytes())
}

/// The invariant of the discovery pass over nodes `0..i`.
spec fn discovering<'a>(
    source: &'a SourceDocument,
    slots: Seq<Option<Field<'a>>>,
    stack: Seq<usize>,
    errors: Seq<FieldError>,
    i: int,
) -> bool {
    &&& slots.len() == source.nodes@.len()
    &&& forall|j: int|
        0 <= j < slots.len() ==> (#[trigger] slots[j] matches Some(f) ==> f.source == source
            && f.source_id.0 == j && f.wf() && j < i)
    &&& forall|j: int| 0 <= j < i ==> starts_field(source, j) ==> #[trigger] slots[j] is Some
    &&& forall|k: int|
        0 <= k < stack.len() ==> (#[trigger] stack[k]) < i && open_field(slots[stack[k] as int])
    &&& forall|k: int, l: int| 0 <= k < l < stack.len() ==> (#[trigger] stack[k]) < (#[trigger] stack[l])
    &&& forall|k: int| 0 <= k < errors.len() ==> error_ok(source, #[trigger] errors[k])
}

/// A slot holding a complex field that has not been closed yet.
pub open spec fn open_field(slot: Option<Field>) -> bool {
    match slot {
        Some(f) => f.kind == FieldKind::Complex && f.end_id is None,
        None => false,
    }
}

/// What a marker error refers to.
pub open spec fn error_ok(d: &SourceDocument, e: FieldError) -> bool {
    match e {
        FieldError::UnexpectedSeparate(id) => is_marker(d, id.0 as int, "separate".spec_bytes()),
        FieldError::UnmatchedEnd(id) => is_marker(d, id.0 as int, "end".spec_bytes()),
        FieldError::UnterminatedBegin(id) => is_marker(d, id.0 as int, "begin".spec_bytes()),
        _ => false,
    }
}

/// How many complex fields are open before node `i`: each begin marker opens one, and
/// each end marker closes the innermost open one, if there is one.
pub open spec fn open_depth(d: &SourceDocument, i: int) -> nat
    decreases i,
{
    if i <= 0 {
        0
    } else {
        let p = open_depth(d, i - 1);
        if is_word(d, i - 1, "fldSimple".spec_bytes()) {
            p
        } else if is_marker(d, i - 1, "begin".spec_bytes()) {
            p + 1
        } else if is_word(d, i - 1, "instrText".spec_bytes()) || is_marker(d, i - 1, "separate".spec_bytes()) {
            p
        } else if is_marker(d, i - 1, "end".spec_bytes()) {
            if p > 0 {
                (p - 1) as nat
            } else {
                0
            }
        } else {
            p
        }
    }
}

/// Node `j` is a separator marker, and no other field node.
pub open spec fn is_separator(d: &SourceDocument, j: int) -> bool {
    &&& is_marker(d, j, "separate".spec_bytes())
    &&& !is_word(d, j, "fldSimple".spec_bytes())
    &&& !is_marker(d, j, "begin".spec_bytes())
    &&& !is_word(d, j, "instrText".spec_bytes())
}

/// Node `j` is an end marker, and no other field node.
pub open spec fn is_end(d: &SourceDocument, j: int) -> bool {
    &&& is_marker(d, j, "end".spec_bytes())
    &&& !is_word(d, j, "fldSimple".spec_bytes())
    &&& !is_marker(d, j, "begin".spec_bytes())
    &&& !is_word(d, j, "instrText".spec_bytes())
    &&& !is_marker(d, j, "separate".spec_bytes())
}

/// Node `j` is an end marker with no complex field open before it.
pub open spec fn unmatched_end(d: &SourceDocument, j: int) -> bool {
    &&& is_end(d, j)
    &&& open_depth(d, j) == 0
}

/// The field begun at `b` is still open after every node up to `hi`: the nesting depth
/// stays above the depth before `b`.
pub open spec fn stays_open(d: &SourceDocument, b: int, hi: int) -> bool {
    forall|j: int| b < j <= hi ==> open_depth(d, j) > open_depth(d, b)
}

/// The end marker at `e` closes the field begun at `b`: it is the first end marker at
/// that field's nesting level.
pub open spec fn closed_at(d: &SourceDocument, b: int, e: int) -> bool {
    &&& b < e
    &&& is_end(d, e)
    &&& open_depth(d, e) == open_depth(d, b) + 1
    &&& stays_open(d, b, e)
}

/// No separator at the nesting level of the field begun at `b` lies between `b` and `hi`.
pub open spec fn no_separator(d: &SourceDocument, b: int, hi: int) -> bool {
    forall|j: int| b < j < hi ==> !(is_separator(d, j) && open_depth(d, j) == open_depth(d, b) + 1)
}

/// The separator at `x` is the first at the nesting level of the field begun at `b`.
pub open spec fn first_separator(d: &SourceDocument, b: int, x: int) -> bool {
    &&& b < x
    &&& is_separator(d, x)
    &&& open_depth(d, x) == open_depth(d, b) + 1
    &&& no_separator(d, b, x)
}

/// A complex field's markers are paired by nesting, over the nodes before `n`: its end is
/// the end marker that closes it (none when it stays open), and its separator is the
/// first one at its level before its end (none when there is none).
pub open spec fn paired(d: &SourceDocument, f: Field, n: int) -> bool {
    f.kind == FieldKind::Complex ==> {
        let b = f.source_id.0 as int;
        let hi = match f.end_id {
            Some(e) => e.0 as int,
            None => n,
        };
        &&& match f.end_id {
            Some(e) => closed_at(d, b, e.0 as int),
            None => stays_open(d, b, n),
        }
        &&& match f.separate_id {
            Some(x) => first_separator(d, b, x.0 as int) && x.0 < hi,
            None => no_separator(d, b, hi),
        }
    }
}

/// An error names an unterminated begin marker.
pub open spec fn reports_begin(errors: Seq<FieldError>, b: int) -> bool {
    exists|k: int| 0 <= k < errors.len() && errors[k] == FieldError::UnterminatedBegin(NodeId(b as usize))
}

/// The nesting state of the discovery pass over nodes `0..i`: the stack holds the open
/// complex fields, one per level, and each slot's field is paired so far.
spec fn pairing<'a>(source: &'a SourceDocument, slots: Seq<Option<Field<'a>>>, stack: Seq<usize>, i: int) -> bool {
    &&& stack.len() == open_depth(source, i)
    &&& forall|k: int| 0 <= k < stack.len() ==> open_depth(source, (#[trigger] stack[k]) as int) == k
    &&& forall|b: int|
        0 <= b < slots.len() ==> (#[trigger] slots[b] matches Some(f) ==> f.source_id.0 == b && paired(source, f, i) && (f.kind == FieldKind::Complex
            && f.end_id is None ==> exists|k: int| 0 <= k < stack.len() && stack[k] == b))
}

proof fn lemma_still_paired(d: &SourceDocument, f: Field, i: int)
    requires
        paired(d, f, i),
        f.kind == FieldKind::Complex ==> f.end_id is None ==> open_depth(d, i + 1) > open_depth(d, f.source_id.0 as int),
        f.kind == FieldKind::Complex ==> f.end_id is None ==> f.separate_id is None ==> !(is_separator(d, i) && open_depth(d, i)
            == open_depth(d, f.source_id.0 as int) + 1),
    ensures
        paired(d, f, i + 1),
{
}

/// An error names an unmatched end marker.
pub open spec fn reports_end(errors: Seq<FieldError>, j: int) -> bool {
    exists|k: int| 0 <= k < errors.len() && errors[k] == FieldError::UnmatchedEnd(NodeId(j as usize))
}

/// What field discovery gives: one well-formed field for each node that starts one, in
/// document order, with its markers paired by nesting; errors that name markers; and an
/// error for each unmatched end marker and for each complex field left open.
pub open spec fn fields_discovered<'a>(source: &'a SourceDocument, r: FieldSet<'a>) -> bool {
    &&& forall|k: int| 0 <= k < r.fields@.len() ==> (#[trigger] r.fields@[k]).wf() && r.fields@[k].source == source
    &&& forall|k: int, l: int|
        0 <= k < l < r.fields@.len() ==> (#[trigger] r.fields@[k]).source_id.0 < (#[trigger] r.fields@[l]).source_id.0
    &&& forall|i: int|
        0 <= i < source.nodes@.len() && starts_field(source, i) ==> exists|k: int|
            0 <= k < r.fields@.len() && (#[trigger] r.fields@[k]).source_id.0 == i
    &&& forall|k: int| 0 <= k < r.errors@.len() ==> error_ok(source, #[trigger] r.errors@[k])
    &&& forall|j: int| 0 <= j < source.nodes@.len() && #[trigger] unmatched_end(source, j) ==> reports_end(r.errors@, j)
    &&& forall|k: int| 0 <= k < r.fields@.len() ==> paired(source, #[trigger] r.fields@[k], source.nodes@.len() as int)
    &&& forall|k: int|
        0 <= k < r.fields@.len() && (#[trigger] r.fields@[k]).kind == FieldKind::Complex && r.fields@[k].end_id is None
            ==> reports_begin(r.errors@, r.fields@[k].source_id.0 as int)
}

/// The state of the discovery pass after nodes `0..i`.
spec fn scanned<'a>(source: &'a SourceDocument, slots: Seq<Option<Field<'a>>>, stack: Seq<usize>, errors: Seq<FieldError>, i: int) -> bool {
    &&& source.wf()
    &&& 0 <= i <= source.nodes@.len()
    &&& discovering(source, slots, stack, errors, i)
    &&& pairing(source, slots, stack, i)
    &&& forall|j: int| 0 <= j < i && #[trigger] unmatched_end(source, j) ==> reports_end(errors, j)
}

/// Open fields other than `skip` stay paired one node further, when the depth after the
/// node keeps their stack places and the node is no separator at their level.
proof fn lemma_others_paired<'a>(
    source: &'a SourceDocument,
    s0: Seq<Option<Field<'a>>>,
    st0: Seq<usize>,
    s1: Seq<Option<Field<'a>>>,
    st1: Seq<usize>,
    i: int,
    skip: int,
)
    requires
        pairing(source, s0, st0, i),
        s1.len() == s0.len(),
        forall|b: int| 0 <= b < s0.len() && b != skip ==> s1[b] == s0[b],
        forall|k: int| 0 <= k < st0.len() && #[trigger] st0[k] != skip ==> k < st1.len() && st1[k] == st0[k] && k < open_depth(source, i + 1),
        forall|k: int| 0 <= k < st0.len() && #[trigger] st0[k] != skip ==> !(is_separator(source, i) && open_depth(source, i) == k + 1),
    ensures
        forall|b: int|
            0 <= b < s1.len() && b != skip ==> (#[trigger] s1[b] matches Some(g) ==> g.source_id.0 == b && paired(source, g, i + 1) && (g.kind
                == FieldKind::Complex && g.end_id is None ==> exists|k: int| 0 <= k < st1.len() && st1[k] == b)),
{
    assert forall|b: int| 0 <= b < s1.len() && b != skip implies (#[trigger] s1[b] matches Some(g) ==> g.source_id.0 == b && paired(source, g, i + 1)
        && (g.kind == FieldKind::Complex && g.end_id is None ==> exists|k: int| 0 <= k < st1.len() && st1[k] == b)) by {
        if s0[b] is Some {
            let g = s0[b].unwrap();
            assert(s1[b] == s0[b]);
            if g.kind == FieldKind::Complex && g.end_id is None {
                let k = choose|k: int| 0 <= k < st0.len() && st0[k] == b;
                assert(open_depth(source, st0[k] as int) == k);
                assert(st1[k] == b);
            }
            lemma_still_paired(source, g, i);
        }
    }
}

proof fn lemma_step_other<'a>(source: &'a SourceDocument, slots: Seq<Option<Field<'a>>>, stack: Seq<usize>, errors: Seq<FieldError>, i: int)
    requires
        scanned(source, slots, stack, errors, i),
        i < source.nodes@.len(),
        !is_word(source, i, "fldSimple".spec_bytes()),
        !is_marker(source, i, "begin".spec_bytes()),
        !is_word(source, i, "instrText".spec_bytes()) ==> !is_marker(source, i, "separate".spec_bytes()) && !is_marker(source, i, "end".spec_bytes()),
        is_word(source, i, "instrText".spec_bytes()) ==> stack.len() == 0,
    ensures
        scanned(source, slots, stack, errors, i + 1),
{
    assert(open_depth(source, i + 1) == open_depth(source, i));
    lemma_others_paired(source, slots, stack, slots, stack, i, -1);
    assert forall|b: int| 0 <= b < slots.len() implies (#[trigger] slots[b] matches Some(g) ==> g.source_id.0 == b && paired(source, g, i + 1)
        && (g.kind == FieldKind::Complex && g.end_id is None ==> exists|k: int| 0 <= k < stack.len() && stack[k] == b)) by {
        assert(b != -1);
    }
}

fn step_simple<'a>(source: &'a SourceDocument, slots: &mut Vec<Option<Field<'a>>>, stack: &Vec<usize>, errors: &Vec<FieldError>, i: usize)
    requires
        scanned(source, old(slots)@, stack@, errors@, i as int),
        i < source.nodes@.len(),
        is_word(source, i as int, "fldSimple".spec_bytes()),
    ensures
        scanned(source, final(slots)@, stack@, errors@, i + 1),
{
    let ghost s0 = slots@;
    let f = Field {
        source,
        source_id: NodeId(i),
        kind: FieldKind::Simple,
        state: FieldState::Complete,
        instruction_end_id: None,
        separate_id: None,
        end_id: None,
    };
    slots.set(i, Some(f));
    proof {
        assert(open_depth(source, i + 1) == open_depth(source, i as int));
        lemma_others_paired(source, s0, stack@, slots@, stack@, i as int, i as int);
        assert(pairing(source, slots@, stack@, i + 1));
        assert(discovering(source, slots@, stack@, errors@, i + 1));
        assert(forall|j: int| 0 <= j < i + 1 && #[trigger] unmatched_end(source, j) ==> reports_end(errors@, j));
    }
}

fn step_begin<'a>(source: &'a SourceDocument, slots: &mut Vec<Option<Field<'a>>>, stack: &mut Vec<usize>, errors: &Vec<FieldError>, i: usize)
    requires
        scanned(source, old(slots)@, old(stack)@, errors@, i as int),
        i < source.nodes@.len(),
        !is_word(source, i as int, "fldSimple".spec_bytes()),
        is_marker(source, i as int, "begin".spec_bytes()),
    ensures
        scanned(source, final(slots)@, final(stack)@, errors@, i + 1),
{
    let ghost s0 = slots@;
    let ghost st0 = stack@;
    let f = Field {
        source,
        source_id: NodeId(i),
        kind: FieldKind::Complex,
        state: FieldState::Unterminated,
        instruction_end_id: None,
        separate_id: None,
        end_id: None,
    };
    slots.set(i, Some(f));
    stack.push(i);
    proof {
        assert(stack@ == st0.push(i));
        assert(open_depth(source, i + 1) == open_depth(source, i as int) + 1);
        lemma_others_paired(source, s0, st0, slots@, stack@, i as int, i as int);
        assert(stack@[st0.len() as int] == i);
        assert forall|k: int| 0 <= k < stack@.len() implies open_depth(source, (#[trigger] stack@[k]) as int) == k by {
            if k < st0.len() {
                assert(stack@[k] == st0[k]);
            }
        }
        assert(pairing(source, slots@, stack@, i + 1));
    }
}

fn step_instruction<'a>(source: &'a SourceDocument, slots: &mut Vec<Option<Field<'a>>>, stack: &Vec<usize>, errors: &Vec<FieldError>, i: usize)
    requires
        scanned(source, old(slots)@, stack@, errors@, i as int),
        i < source.nodes@.len(),
        !is_word(source, i as int, "fldSimple".spec_bytes()),
        !is_marker(source, i as int, "begin".spec_bytes()),
        is_word(source, i as int, "instrText".spec_bytes()),
    ensures
        scanned(source, final(slots)@, stack@, errors@, i + 1),
{
    if stack.len() > 0 {
        let ghost s0 = slots@;
        let top = stack[stack.len() - 1];
        proof {
            assert(open_field(slots@[top as int]));
        }
        let f = slots[top].take().unwrap();
        let ghost f0 = f;
        let f = if f.separate_id.is_none() {
            Field { instruction_end_id: Some(NodeId(i)), ..f }
        } else {
            f
        };
        slots.set(top, Some(f));
        proof {
            assert(s0[top as int] == Some(f0));
            assert(open_depth(source, i + 1) == open_depth(source, i as int));
            assert(open_depth(source, stack@[stack@.len() - 1] as int) == stack@.len() - 1);
            lemma_others_paired(source, s0, stack@, slots@, stack@, i as int, top as int);
            lemma_still_paired(source, f0, i as int);
            assert(stack@[stack@.len() - 1] == top);
            assert(pairing(source, slots@, stack@, i + 1));
        }
    } else {
        proof {
            lemma_step_other(source, slots@, stack@, errors@, i as int);
        }
    }
}

fn step_separator<'a>(source: &'a SourceDocument, slots: &mut Vec<Option<Field<'a>>>, stack: &Vec<usize>, errors: &mut Vec<FieldError>, i: usize)
    requires
        scanned(source, old(slots)@, stack@, old(errors)@, i as int),
        i < source.nodes@.len(),
        is_separator(source, i as int),
    ensures
        scanned(source, final(slots)@, stack@, final(errors)@, i + 1),
{
    let ghost s0 = slots@;
    let ghost e0 = errors@;
    let mut placed = false;
    if stack.len() > 0 {
        let top = stack[stack.len() - 1];
        proof {
            assert(open_field(slots@[top as int]));
        }
        let f = slots[top].take().unwrap();
        let ghost f0 = f;
        let f = if f.separate_id.is_none() {
            placed = true;
            Field { separate_id: Some(NodeId(i)), ..f }
        } else {
            f
        };
        slots.set(top, Some(f));
        proof {
            assert(s0[top as int] == Some(f0));
            assert(open_depth(source, i + 1) == open_depth(source, i as int));
            assert(open_depth(source, stack@[stack@.len() - 1] as int) == stack@.len() - 1);
            lemma_others_paired(source, s0, stack@, slots@, stack@, i as int, top as int);
            assert(stack@[stack@.len() - 1] == top);
            if f0.separate_id is Some {
                lemma_still_paired(source, f0, i as int);
            } else {
                assert(stays_open(source, top as int, i as int));
                assert(no_separator(source, top as int, i as int));
                assert(stays_open(source, top as int, i as int + 1));
            }
            assert(pairing(source, slots@, stack@, i + 1));
        }
    }
    if !placed {
        errors.push(FieldError::UnexpectedSeparate(NodeId(i)));
        proof {
            assert forall|m: int| 0 <= m < errors@.len() implies error_ok(source, #[trigger] errors@[m]) by {
                if m < e0.len() {
                    assert(errors@[m] == e0[m]);
                }
            }
            assert forall|j: int| 0 <= j < i + 1 && #[trigger] unmatched_end(source, j) implies reports_end(errors@, j) by {
                let q = choose|q: int| 0 <= q < e0.len() && e0[q] == FieldError::UnmatchedEnd(NodeId(j as usize));
                assert(errors@[q] == e0[q]);
            }
        }
    }
    proof {
        if stack@.len() == 0 {
            assert(open_depth(source, i + 1) == open_depth(source, i as int));
            lemma_others_paired(source, s0, stack@, slots@, stack@, i as int, -1);
            assert forall|b: int| 0 <= b < slots@.len() implies (#[trigger] slots@[b] matches Some(g) ==> g.source_id.0 == b && paired(source, g, i + 1)
                && (g.kind == FieldKind::Complex && g.end_id is None ==> exists|k: int| 0 <= k < stack@.len() && stack@[k] == b)) by {
                assert(b != -1);
            }
        }
    }
}

fn step_end<'a>(source: &'a SourceDocument, slots: &mut Vec<Option<Field<'a>>>, stack: &mut Vec<usize>, errors: &mut Vec<FieldError>, i: usize)
    requires
        scanned(source, old(slots)@, old(stack)@, old(errors)@, i as int),
        i < source.nodes@.len(),
        is_end(source, i as int),
    ensures
        scanned(source, final(slots)@, final(stack)@, final(errors)@, i + 1),
{
    let ghost s0 = slots@;
    let ghost st0 = stack@;
    let ghost e0 = errors@;
    if stack.len() > 0 {
        proof {
            assert(open_field(slots@[st0[st0.len() - 1] as int]));
        }
        let top = stack.pop().unwrap();
        let f = slots[top].take().unwrap();
        let ghost f0 = f;
        slots.set(top, Some(Field { end_id: Some(NodeId(i)), state: FieldState::Complete, ..f }));
        proof {
            assert(stack@ == st0.drop_last());
            assert(top == st0[st0.len() - 1]);
            assert(s0[top as int] == Some(f0));
            assert(open_depth(source, top as int) == st0.len() - 1);
            assert(open_depth(source, i + 1) == st0.len() - 1);
            assert forall|k: int| 0 <= k < st0.len() && st0[k] != top implies k < stack@.len() && stack@[k] == st0[k] by {
                if k == st0.len() - 1 {
                    assert(st0[k] == top);
                }
            }
            lemma_others_paired(source, s0, st0, slots@, stack@, i as int, top as int);
            assert(closed_at(source, top as int, i as int));
            assert forall|k: int| 0 <= k < stack@.len() implies open_depth(source, (#[trigger] stack@[k]) as int) == k by {
                assert(stack@[k] == st0[k]);
            }
            assert(pairing(source, slots@, stack@, i + 1));
        }
    } else {
        errors.push(FieldError::UnmatchedEnd(NodeId(i)));
        proof {
            assert(open_depth(source, i + 1) == 0);
            lemma_others_paired(source, s0, st0, slots@, stack@, i as int, -1);
            assert forall|b: int| 0 <= b < slots@.len() implies (#[trigger] slots@[b] matches Some(g) ==> g.source_id.0 == b && paired(source, g, i + 1)
                && (g.kind == FieldKind::Complex && g.end_id is None ==> exists|k: int| 0 <= k < stack@.len() && stack@[k] == b)) by {
                assert(b != -1);
            }
            assert forall|m: int| 0 <= m < errors@.len() implies error_ok(source, #[trigger] errors@[m]) by {
                if m < e0.len() {
                    assert(errors@[m] == e0[m]);
                }
            }
            assert forall|j: int| 0 <= j < i + 1 && #[trigger] unmatched_end(source, j) implies reports_end(errors@, j) by {
                if j < i {
                    let q = choose|q: int| 0 <= q < e0.len() && e0[q] == FieldError::UnmatchedEnd(NodeId(j as usize));
                    assert(errors@[q] == e0[q]);
                } else {
                    assert(errors@[errors@.len() - 1] == FieldError::UnmatchedEnd(NodeId(j as usize)));
                }
            }
        }
    }
}

/// Discovers the simple and complex fields of a document. Complex field markers are
/// paired as nested brackets: each separator belongs to the innermost open field that has
/// none yet, each end closes the innermost open field.
pub fn fields<'a>(source: &'a SourceDocument) -> (r: FieldSet<'a>)
    requires
        source.wf(),
    ensures
        fields_discovered(source, r),
{
    let n = source.node_count();
    let mut slots: Vec<Option<Field<'a>>> = Vec::new();
    while slots.len() < n
        invariant
            slots@.len() <= n,
            forall|j: int| 0 <= j < slots@.len() ==> #[trigger] slots@[j] is None,
        decreases n - slots@.len(),
    {
        slots.push(None);
    }
    let mut stack: Vec<usize> = Vec::new();
    let mut errors: Vec<FieldError> = Vec::new();
    let mut i: usize = 0;
    proof {
        assert(pairing(source, slots@, stack@, 0));
    }
    while i < n
        invariant
            source.wf(),
            n == source.nodes@.len(),
            i <= n,
            scanned(source, slots@, stack@, errors@, i as int),
        decreases n - i,
    {
        let id = NodeId(i);
        let simple = word(source, id, "fldSimple");
        let is_char = word(source, id, "fldChar");
        let marker = if is_char {
            source.attribute(id, "fldCharType")
        } else {
            None
        };
        let (begin, separate, end) = match &marker {
            Some(m) => (
                bytes_are(m.as_slice(), "begin"),
                bytes_are(m.as_slice(), "separate"),
                bytes_are(m.as_slice(), "end"),
            ),
            None => (false, false, false),
        };
        proof {
            assert(begin == is_marker(source, i as int, "begin".spec_bytes()));
            assert(separate == is_marker(source, i as int, "separate".spec_bytes()));
            assert(end == is_marker(source, i as int, "end".spec_bytes()));
        }
        if simple {
            step_simple(source, &mut slots, &stack, &errors, i);
        } else if begin {
            step_begin(source, &mut slots, &mut stack, &errors, i);
        } else if word(source, id, "instrText") {
            step_instruction(source, &mut slots, &stack, &errors, i);
        } else if separate {
            step_separator(source, &mut slots, &stack, &mut errors, i);
        } else if end {
            step_end(source, &mut slots, &mut stack, &mut errors, i);
        } else {
            proof {
                lemma_step_other(source, slots@, stack@, errors@, i as int);
            }
        }
        i += 1;
    }
    let mut k: usize = 0;
    while k < stack.len()
        invariant
            source.wf(),
            n == source.nodes@.len(),
            discovering(source, slots@, stack@, errors@, n as int),
            k <= stack@.len(),
            forall|j: int| 0 <= j < n && #[trigger] unmatched_end(source, j) ==> reports_end(errors@, j),
            pairing(source, slots@, stack@, n as int),
            forall|q: int| 0 <= q < k ==> reports_begin(errors@, #[trigger] stack@[q] as int),
        decreases stack@.len() - k,
    {
        proof {
            let sk = stack@[k as int] as int;
            assert(open_field(slots@[sk]));
            let f = slots@[sk].unwrap();
            assert(f.wf() && f.source_id.0 == sk);
        }
        let ghost prev = errors@;
        errors.push(FieldError::UnterminatedBegin(NodeId(stack[k])));
        proof {
            assert forall|j: int| 0 <= j < n && #[trigger] unmatched_end(source, j) implies reports_end(errors@, j) by {
                let q = choose|q: int| 0 <= q < prev.len() && prev[q] == FieldError::UnmatchedEnd(NodeId(j as usize));
                assert(errors@[q] == prev[q]);
            }
            assert forall|m: int| 0 <= m < errors@.len() implies error_ok(source, #[trigger] errors@[m]) by {
                if m < prev.len() {
                    assert(errors@[m] == prev[m]);
                }
            }
            assert forall|q: int| 0 <= q < k + 1 implies reports_begin(errors@, #[trigger] stack@[q] as int) by {
                if q < k {
                    let w = choose|w: int| 0 <= w < prev.len() && prev[w] == FieldError::UnterminatedBegin(NodeId(stack@[q] as int as usize));
                    assert(errors@[w] == prev[w]);
                } else {
                    assert(errors@[prev.len() as int] == FieldError::UnterminatedBegin(NodeId(stack@[q] as int as usize)));
                }
            }
        }
        k += 1;
    }
    proof {
        assert forall|m: int| 0 <= m < slots@.len() implies (#[trigger] slots@[m] matches Some(f) ==> paired(source, f, n as int)
            && (f.kind == FieldKind::Complex && f.end_id is None ==> reports_begin(errors@, m))) by {
            if slots@[m] is Some {
                let f = slots@[m].unwrap();
                if f.kind == FieldKind::Complex && f.end_id is None {
                    let q = choose|q: int| 0 <= q < stack@.len() && stack@[q] == m;
                    assert(reports_begin(errors@, stack@[q] as int));
                }
            }
        }
    }
    let mut out: Vec<Field<'a>> = Vec::new();
    let ghost orig = slots@;
    let mut j: usize = 0;
    while j < n
        invariant
            source.wf(),
            n == slots@.len(),
            n == source.nodes@.len(),
            discovering(source, orig, stack@, errors@, n as int),
            forall|m: int| 0 <= m < n && #[trigger] unmatched_end(source, m) ==> reports_end(errors@, m),
            j <= n,
            forall|m: int| j <= m < n ==> slots@[m] == orig[m],
            forall|k: int| 0 <= k < out@.len() ==> (#[trigger] out@[k]).wf() && out@[k].source == source && out@[k].source_id.0 < j,
            forall|k: int, l: int|
                0 <= k < l < out@.len() ==> (#[trigger] out@[k]).source_id.0 < (#[trigger] out@[l]).source_id.0,
            forall|m: int|
                0 <= m < j && starts_field(source, m) ==> exists|k: int|
                    0 <= k < out@.len() && (#[trigger] out@[k]).source_id.0 == m,
            forall|m: int| 0 <= m < orig.len() ==> (#[trigger] orig[m] matches Some(f) ==> paired(source, f, n as int)
                && (f.kind == FieldKind::Complex && f.end_id is None ==> reports_begin(errors@, m))),
            forall|k: int| 0 <= k < out@.len() ==> paired(source, #[trigger] out@[k], n as int),
            forall|k: int|
                0 <= k < out@.len() && (#[trigger] out@[k]).kind == FieldKind::Complex && out@[k].end_id is None
                    ==> reports_begin(errors@, out@[k].source_id.0 as int),
        decreases n - j,
    {
        let slot = slots[j].take();
        match slot {
            Some(f) => {
                proof {
                    assert(orig[j as int] == Some(f));
                }
                let ghost prev = out@;
                out.push(f);
                proof {
                    let last = out@.len() - 1;
                    assert(out@[last].source_id.0 == j);
                    assert(forall|k: int| 0 <= k < prev.len() ==> out@[k] == prev[k]);
                    assert forall|m: int|
                        0 <= m < j + 1 && starts_field(source, m) implies exists|k: int|
                            0 <= k < out@.len() && (#[trigger] out@[k]).source_id.0 == m by {
                        if m == j {
                            assert(out@[last].source_id.0 == m);
                        } else {
                            let k = choose|k: int| 0 <= k < prev.len() && (#[trigger] prev[k]).source_id.0 == m;
                            assert(out@[k] == prev[k]);
                        }
                    }
                }
            },
            None => {
                proof {
                    assert(orig[j as int] is None);
                }
            },
        }
        j += 1;
    }
    FieldSet { fields: out, errors }
}

} // verus!
