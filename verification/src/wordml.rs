use vstd::prelude::*;
use vstd::string::StringSliceAdditionalSpecFns;

use crate::bytes::{copy_range, push_bytes};
use crate::escape::{decoded, unescape};
use crate::source::{NodeId, SourceDocument, SourceNodeKind};

verus! {

/// The transitional WordprocessingML namespace.
pub const WORD_MAIN: &'static str = "http://schemas.openxmlformats.org/wordprocessingml/2006/main";

/// The strict WordprocessingML namespace.
pub const WORD_STRICT: &'static str = "http://purl.oclc.org/ooxml/wordprocessingml/main";

/// Node `i` is a WordprocessingML element (of either namespace) with the given local name.
pub open spec fn is_word(d: &SourceDocument, i: int, local: Seq<u8>) -> bool {
    d.is_named(i, WORD_MAIN.spec_bytes(), local) || d.is_named(i, WORD_STRICT.spec_bytes(), local)
}

/// Whether the node is a WordprocessingML element with the given local name.
pub fn word(source: &SourceDocument, id: NodeId, local: &str) -> (r: bool)
    ensures
        r == is_word(source, id.0 as int, local.spec_bytes()),
{
    source.is_element_named(id, WORD_MAIN, local) || source.is_element_named(id, WORD_STRICT, local)
}

/// The first child in `kids[from..]` that is a WordprocessingML element named `local`.
pub open spec fn first_word_from(d: &SourceDocument, kids: Seq<NodeId>, from: int, local: Seq<u8>) -> Option<NodeId>
    decreases kids.len() - from,
{
    if from < 0 || from >= kids.len() {
        None
    } else if is_word(d, kids[from].0 as int, local) {
        Some(kids[from])
    } else {
        first_word_from(d, kids, from + 1, local)
    }
}

/// The first child of `parent` that is a WordprocessingML element named `local`.
pub open spec fn spec_child(d: &SourceDocument, parent: int, local: Seq<u8>) -> Option<NodeId> {
    first_word_from(d, d.spec_children(parent), 0, local)
}

proof fn lemma_first_word_from(d: &SourceDocument, kids: Seq<NodeId>, from: int, local: Seq<u8>)
    requires
        0 <= from,
    ensures
        first_word_from(d, kids, from, local) matches Some(c) ==> kids.contains(c) && is_word(
            d,
            c.0 as int,
            local,
        ),
    decreases kids.len() - from,
{
    if from < kids.len() && !is_word(d, kids[from].0 as int, local) {
        lemma_first_word_from(d, kids, from + 1, local);
    }
}

/// The first child of `parent` that is a WordprocessingML element named `local`.
pub fn child(source: &SourceDocument, parent: NodeId, local: &str) -> (r: Option<NodeId>)
    requires
        source.wf(),
        source.valid_id(parent),
    ensures
        r == spec_child(source, parent.0 as int, local.spec_bytes()),
        r matches Some(c) ==> source.valid_id(c) && source.spec_parent(c.0 as int) == Some(parent)
            && is_word(source, c.0 as int, local.spec_bytes()),
{
    let kids = source.children(parent);
    let _end = source.subtree_end(parent);
    let mut i: usize = 0;
    proof {
        lemma_first_word_from(source, kids@, 0, local.spec_bytes());
    }
    while i < kids.len()
        invariant
            kids@ == source.spec_children(parent.0 as int),
            forall|k: int|
                0 <= k < kids@.len() ==> source.valid_id(#[trigger] kids@[k]) && source.spec_parent(
                    kids@[k].0 as int,
                ) == Some(parent),
            i <= kids@.len(),
            first_word_from(source, kids@, 0, local.spec_bytes()) == first_word_from(
                source,
                kids@,
                i as int,
                local.spec_bytes(),
            ),
        decreases kids@.len() - i,
    {
        if word(source, kids[i], local) {
            return Some(kids[i]);
        }
        i += 1;
    }
    None
}

/// The nodes of `kids` that are WordprocessingML elements named `a` or `b`, in order.
pub open spec fn named_among(d: &SourceDocument, kids: Seq<NodeId>, a: Seq<u8>, b: Seq<u8>) -> Seq<NodeId>
    decreases kids.len(),
{
    if kids.len() == 0 {
        seq![]
    } else {
        let rest = named_among(d, kids.drop_last(), a, b);
        let last = kids.last();
        if is_word(d, last.0 as int, a) || is_word(d, last.0 as int, b) {
            rest.push(last)
        } else {
            rest
        }
    }
}

/// Every node that `named_among` keeps is one of `kids` with one of the two names.
pub proof fn lemma_named_among(d: &SourceDocument, kids: Seq<NodeId>, a: Seq<u8>, b: Seq<u8>)
    ensures
        forall|k: int|
            0 <= k < named_among(d, kids, a, b).len() ==> kids.contains(
                #[trigger] named_among(d, kids, a, b)[k],
            ) && (is_word(d, named_among(d, kids, a, b)[k].0 as int, a) || is_word(
                d,
                named_among(d, kids, a, b)[k].0 as int,
                b,
            )),
    decreases kids.len(),
{
    if kids.len() > 0 {
        let init = kids.drop_last();
        lemma_named_among(d, init, a, b);
        let rest = named_among(d, init, a, b);
        assert forall|k: int| 0 <= k < rest.len() implies kids.contains(#[trigger] rest[k]) by {
            let j = choose|j: int| 0 <= j < init.len() && init[j] == rest[k];
            assert(kids[j] == rest[k]);
        }
        assert(kids[kids.len() - 1] == kids.last());
    }
}

/// The children of `parent` that are WordprocessingML elements named `a` or `b`, in order.
pub fn children_named(source: &SourceDocument, parent: NodeId, a: &str, b: &str) -> (r: Vec<NodeId>)
    requires
        source.wf(),
        source.valid_id(parent),
    ensures
        r@ == named_among(source, source.spec_children(parent.0 as int), a.spec_bytes(), b.spec_bytes()),
        forall|k: int|
            0 <= k < r@.len() ==> source.valid_id(#[trigger] r@[k]) && source.spec_parent(r@[k].0 as int)
                == Some(parent),
{
    let kids = source.children(parent);
    let _end = source.subtree_end(parent);
    let mut found: Vec<NodeId> = Vec::new();
    let mut k: usize = 0;
    while k < kids.len()
        invariant
            kids@ == source.spec_children(parent.0 as int),
            forall|j: int|
                0 <= j < kids@.len() ==> source.valid_id(#[trigger] kids@[j]) && source.spec_parent(
                    kids@[j].0 as int,
                ) == Some(parent),
            k <= kids@.len(),
            found@ == named_among(source, kids@.take(k as int), a.spec_bytes(), b.spec_bytes()),
        decreases kids@.len() - k,
    {
        assert(kids@.take(k as int + 1).drop_last() == kids@.take(k as int));
        let c = kids[k];
        if word(source, c, a) || word(source, c, b) {
            found.push(c);
        }
        k += 1;
    }
    assert(kids@.take(kids@.len() as int) == kids@);
    proof {
        lemma_named_among(source, kids@, a.spec_bytes(), b.spec_bytes());
        assert forall|j: int| 0 <= j < found@.len() implies source.valid_id(#[trigger] found@[j])
            && source.spec_parent(found@[j].0 as int) == Some(parent) by {
            let i = choose|i: int| 0 <= i < kids@.len() && kids@[i] == found@[j];
        }
    }
    found
}

/// Why a node's text could not be read.
#[derive(Clone, Copy, Debug, PartialEq, Eq, Structural)]
pub enum SemanticError {
    InvalidTextNode,
    InvalidDocumentRoot,
    MissingBody,
}

/// The machine-readable code of a document-structure error.
pub open spec fn semantic_error_code(e: SemanticError) -> Seq<char> {
    match e {
        SemanticError::InvalidTextNode => "INVALID_TEXT_NODE"@,
        SemanticError::InvalidDocumentRoot => "INVALID_DOCUMENT_ROOT"@,
        SemanticError::MissingBody => "MISSING_DOCUMENT_BODY"@,
    }
}

impl SemanticError {
    pub fn code(&self) -> (r: &'static str)
        ensures
            r@ == semantic_error_code(*self),
    {
        match self {
            SemanticError::InvalidTextNode => "INVALID_TEXT_NODE",
            SemanticError::InvalidDocumentRoot => "INVALID_DOCUMENT_ROOT",
            SemanticError::MissingBody => "MISSING_DOCUMENT_BODY",
        }
    }
}

/// What one child of a text element contributes to its text.
pub open spec fn text_part(d: &SourceDocument, c: int) -> Option<Seq<u8>> {
    let span = d.spec_span(c);
    let raw = d.bytes@.subrange(span.start as int, span.end as int);
    match d.nodes@[c].kind {
        SourceNodeKind::Text => decoded(raw),
        SourceNodeKind::CData => Some(raw),
        SourceNodeKind::Element { .. } => None,
        _ => Some(seq![]),
    }
}

/// The concatenated text of the children `kids[from..]`.
pub open spec fn text_of(d: &SourceDocument, kids: Seq<NodeId>, from: int) -> Option<Seq<u8>>
    decreases kids.len() - from,
{
    if from < 0 || from >= kids.len() {
        Some(seq![])
    } else {
        match (text_part(d, kids[from].0 as int), text_of(d, kids, from + 1)) {
            (Some(a), Some(b)) => Some(a + b),
            _ => None,
        }
    }
}

/// The character data of an element: its text and CDATA children, references decoded.
/// `None` when a child is an element or holds an invalid reference.
pub open spec fn spec_text_value(d: &SourceDocument, id: int) -> Option<Seq<u8>> {
    if d.nodes@[id].kind is Element {
        text_of(d, d.spec_children(id), 0)
    } else {
        None
    }
}

/// The character data of a text element such as `w:t`.
pub fn text_value(source: &SourceDocument, id: NodeId) -> (r: Result<Vec<u8>, SemanticError>)
    requires
        source.wf(),
        source.valid_id(id),
    ensures
        match r {
            Ok(v) => spec_text_value(source, id.0 as int) == Some(v@),
            Err(e) => spec_text_value(source, id.0 as int) is None && e == SemanticError::InvalidTextNode,
        },
{
    match &source.node(id).unwrap().kind {
        SourceNodeKind::Element { .. } => {},
        _ => {
            return Err(SemanticError::InvalidTextNode);
        },
    }
    let kids = source.children(id);
    let bytes = source.original_bytes();
    let mut out: Vec<u8> = Vec::new();
    // Collect from the back so that each step prepends one part.
    let mut parts: Vec<Vec<u8>> = Vec::new();
    let mut k: usize = 0;
    while k < kids.len()
        invariant
            source.wf(),
            kids@ == source.spec_children(id.0 as int),
            forall|j: int| 0 <= j < kids@.len() ==> source.valid_id(#[trigger] kids@[j]),
            bytes@ == source.bytes@,
            k <= kids@.len(),
            parts@.len() == k,
            forall|j: int| 0 <= j < k ==> text_part(source, kids@[j].0 as int) == Some(#[trigger] parts@[j]@),
        decreases kids@.len() - k,
    {
        let c = kids[k];
        let span = source.span(c);
        let part: Vec<u8> = match &source.node(c).unwrap().kind {
            SourceNodeKind::Text => {
                let raw = copy_range(bytes, span.start, span.end);
                match unescape(raw.as_slice()) {
                    Some(v) => v,
                    None => {
                        proof {
                            assert(text_part(source, c.0 as int) is None);
                            lemma_text_of_none(source, kids@, k as int);
                        }
                        return Err(SemanticError::InvalidTextNode);
                    },
                }
            },
            SourceNodeKind::CData => copy_range(bytes, span.start, span.end),
            SourceNodeKind::Element { .. } => {
                proof {
                    lemma_text_of_none(source, kids@, k as int);
                }
                return Err(SemanticError::InvalidTextNode);
            },
            _ => Vec::new(),
        };
        proof {
            assert(part@ =~= text_part(source, c.0 as int).unwrap());
        }
        parts.push(part);
        k += 1;
    }
    let mut j: usize = 0;
    while j < parts.len()
        invariant
            parts@.len() == kids@.len(),
            j <= parts@.len(),
            forall|m: int| 0 <= m < kids@.len() ==> text_part(source, kids@[m].0 as int) == Some(#[trigger] parts@[m]@),
            text_of(source, kids@, 0) == match text_of(source, kids@, j as int) {
                Some(t) => Some(out@ + t),
                None => None,
            },
        decreases parts@.len() - j,
    {
        proof {
            let a = parts@[j as int]@;
            match text_of(source, kids@, j + 1) {
                Some(t) => {
                    assert(out@ + (a + t) =~= (out@ + a) + t);
                },
                None => {},
            }
        }
        push_bytes(&mut out, parts[j].as_slice());
        j += 1;
    }
    proof {
        assert(out@ + Seq::<u8>::empty() =~= out@);
    }
    Ok(out)
}

proof fn lemma_text_of_none(d: &SourceDocument, kids: Seq<NodeId>, k: int)
    requires
        0 <= k < kids.len(),
        text_part(d, kids[k].0 as int) is None,
    ensures
        text_of(d, kids, 0) is None,
    decreases k,
{
    if k > 0 {
        lemma_text_of_none_from(d, kids, k, k);
    }
}

proof fn lemma_text_of_none_from(d: &SourceDocument, kids: Seq<NodeId>, k: int, from: int)
    requires
        0 <= from <= k < kids.len(),
        text_part(d, kids[k].0 as int) is None,
    ensures
        text_of(d, kids, 0) is None,
    decreases from,
{
    if from > 0 {
        lemma_text_of_none_from(d, kids, k, from - 1);
    }
    lemma_text_of_none_at(d, kids, k, 0);
}

proof fn lemma_text_of_none_at(d: &SourceDocument, kids: Seq<NodeId>, k: int, from: int)
    requires
        0 <= from <= k < kids.len(),
        text_part(d, kids[k].0 as int) is None,
    ensures
        text_of(d, kids, from) is None,
    decreases k - from,
{
    if from < k {
        lemma_text_of_none_at(d, kids, k, from + 1);
    }
}


/// Node `i` lies within the byte range `lo..hi`, strictly inside it when `strict`.
pub open spec fn span_within(d: &SourceDocument, i: int, lo: int, hi: int, strict: bool) -> bool {
    if strict {
        d.spec_span(i).start > lo && d.spec_span(i).end < hi
    } else {
        d.spec_span(i).start >= lo && d.spec_span(i).end <= hi
    }
}

/// The concatenated text of the elements named `local` among the nodes `0..upto` that lie
/// within `lo..hi`, in document order.
pub open spec fn collected(
    d: &SourceDocument,
    local: Seq<u8>,
    lo: int,
    hi: int,
    strict: bool,
    upto: int,
) -> Option<Seq<u8>>
    decreases upto,
{
    if upto <= 0 {
        Some(seq![])
    } else {
        let i = upto - 1;
        match collected(d, local, lo, hi, strict, i) {
            Some(t) => if is_word(d, i, local) && span_within(d, i, lo, hi, strict) {
                match spec_text_value(d, i) {
                    Some(v) => Some(t + v),
                    None => None,
                }
            } else {
                Some(t)
            },
            None => None,
        }
    }
}

/// The text of the `local` elements of the whole document that lie within `lo..hi`.
pub fn collect_text(source: &SourceDocument, local: &str, lo: usize, hi: usize, strict: bool) -> (r:
    Result<Vec<u8>, SemanticError>)
    requires
        source.wf(),
    ensures
        match r {
            Ok(v) => collected(source, local.spec_bytes(), lo as int, hi as int, strict, source.nodes@.len() as int) == Some(v@),
            Err(_) => collected(source, local.spec_bytes(), lo as int, hi as int, strict, source.nodes@.len() as int) is None,
        },
{
    let n = source.node_count();
    let mut out: Vec<u8> = Vec::new();
    let mut i: usize = 0;
    while i < n
        invariant
            source.wf(),
            n == source.nodes@.len(),
            i <= n,
            collected(source, local.spec_bytes(), lo as int, hi as int, strict, i as int) == Some(out@),
        decreases n - i,
    {
        let id = NodeId(i);
        if word(source, id, local) {
            let span = source.span(id);
            let inside = if strict {
                span.start > lo && span.end < hi
            } else {
                span.start >= lo && span.end <= hi
            };
            if inside {
                match text_value(source, id) {
                    Ok(v) => {
                        push_bytes(&mut out, v.as_slice());
                    },
                    Err(e) => {
                        proof {
                            lemma_collected_none(source, local.spec_bytes(), lo as int, hi as int, strict, i + 1, n as int);
                        }
                        return Err(e);
                    },
                }
            }
        }
        i += 1;
    }
    Ok(out)
}

proof fn lemma_collected_none(d: &SourceDocument, local: Seq<u8>, lo: int, hi: int, strict: bool, k: int, upto: int)
    requires
        0 <= k <= upto,
        collected(d, local, lo, hi, strict, k) is None,
    ensures
        collected(d, local, lo, hi, strict, upto) is None,
    decreases upto - k,
{
    if k < upto {
        lemma_collected_none(d, local, lo, hi, strict, k + 1, upto);
    }
}


/// The last of `kids[..upto]` that is a WordprocessingML element named `a` or `b`.
pub open spec fn last_named_before(
    d: &SourceDocument,
    kids: Seq<NodeId>,
    upto: int,
    a: Seq<u8>,
    b: Seq<u8>,
) -> Option<NodeId>
    decreases upto,
{
    if upto <= 0 || upto > kids.len() {
        None
    } else if is_word(d, kids[upto - 1].0 as int, a) || is_word(d, kids[upto - 1].0 as int, b) {
        Some(kids[upto - 1])
    } else {
        last_named_before(d, kids, upto - 1, a, b)
    }
}

/// The value of an attribute of an optional node.
pub open spec fn attr_of(d: &SourceDocument, node: Option<NodeId>, local: Seq<u8>) -> Option<Seq<u8>> {
    match node {
        Some(c) => d.spec_attribute(c.0 as int, local),
        None => None,
    }
}

/// Optional bytes read as text, when they are UTF-8.
pub open spec fn as_text(o: Option<Seq<u8>>) -> Option<Seq<char>> {
    match o {
        Some(b) => if vstd::utf8::valid_utf8(b) {
            Some(vstd::utf8::decode_utf8(b))
        } else {
            None
        },
        None => None,
    }
}

/// The characters of an optional string.
pub open spec fn string_view(o: Option<String>) -> Option<Seq<char>> {
    match o {
        Some(s) => Some(s@),
        None => None,
    }
}

/// Optional bytes as an optional string.
pub fn opt_text(o: Option<Vec<u8>>) -> (r: Option<String>)
    ensures
        string_view(r) == as_text(match o {
            Some(v) => Some(v@),
            None => None,
        }),
{
    match o {
        Some(v) => crate::bytes::utf8_string(v),
        None => None,
    }
}

/// The value of an attribute of an optional node, as text.
pub fn attr_text(source: &SourceDocument, node: Option<NodeId>, local: &str) -> (r: Option<String>)
    requires
        source.wf(),
        node matches Some(c) ==> source.valid_id(c),
    ensures
        string_view(r) == as_text(attr_of(source, node, local.spec_bytes())),
{
    match node {
        Some(c) => opt_text(source.attribute(c, local)),
        None => None,
    }
}

/// The last child of `parent` named `a` or `b`.
pub fn last_child_named(source: &SourceDocument, parent: NodeId, a: &str, b: &str) -> (r: Option<NodeId>)
    requires
        source.wf(),
        source.valid_id(parent),
    ensures
        r == last_named_before(
            source,
            source.spec_children(parent.0 as int),
            source.spec_children(parent.0 as int).len() as int,
            a.spec_bytes(),
            b.spec_bytes(),
        ),
        r matches Some(c) ==> source.valid_id(c) && source.spec_parent(c.0 as int) == Some(parent),
{
    let kids = source.children(parent);
    let _end = source.subtree_end(parent);
    let mut k = kids.len();
    while k > 0
        invariant
            kids@ == source.spec_children(parent.0 as int),
            forall|j: int|
                0 <= j < kids@.len() ==> source.valid_id(#[trigger] kids@[j]) && source.spec_parent(
                    kids@[j].0 as int,
                ) == Some(parent),
            k <= kids@.len(),
            last_named_before(source, kids@, kids@.len() as int, a.spec_bytes(), b.spec_bytes())
                == last_named_before(source, kids@, k as int, a.spec_bytes(), b.spec_bytes()),
        decreases k,
    {
        let c = kids[k - 1];
        if word(source, c, a) || word(source, c, b) {
            return Some(c);
        }
        k -= 1;
    }
    None
}

} // verus!
