use vstd::prelude::*;
use vstd::string::StringSliceAdditionalSpecFns;

use crate::bytes::{bytes_are, bytes_equal, copy_bytes, copy_range};
use crate::escape::{decoded, unescape};

verus! {

/// The index of a node of a `SourceDocument`, in document order.
#[derive(Clone, Copy, Debug, PartialEq, Eq, Structural)]
pub struct NodeId(pub usize);

/// A half-open byte range of the original XML bytes.
#[derive(Clone, Copy, Debug, PartialEq, Eq, Structural)]
pub struct SourceSpan {
    pub start: usize,
    pub end: usize,
}

/// A namespace-resolved XML element name.
#[derive(Debug)]
pub struct XmlName {
    pub prefix: Vec<u8>,
    pub local: Vec<u8>,
    pub namespace: Option<Vec<u8>>,
}

/// One attribute of an element start tag, its value with references decoded.
/// Namespace declarations are not attributes.
#[derive(Debug)]
pub struct SourceAttribute {
    pub prefix: Vec<u8>,
    pub local: Vec<u8>,
    pub value: Vec<u8>,
}

#[derive(Debug)]
pub enum SourceNodeKind {
    Element { name: XmlName, start_tag: SourceSpan, attributes: Vec<SourceAttribute> },
    Text,
    CData,
    Comment,
    ProcessingInstruction,
}

/// One indexed node. Its span ends at `SourceDocument::span_ends`, its descendants are
/// the nodes before `SourceDocument::subtree_ends`.
#[derive(Debug)]
pub struct SourceNode {
    pub kind: SourceNodeKind,
    pub start: usize,
    pub parent: Option<NodeId>,
}

/// An XML part indexed as a tree of nodes over its unchanged original bytes.
///
/// Nodes are numbered in document order. The descendants of node `i` are exactly
/// the nodes `i + 1 .. subtree_ends[i]`, and node 0 is the document element.
#[derive(Debug)]
pub struct SourceDocument {
    pub bytes: Vec<u8>,
    pub nodes: Vec<SourceNode>,
    pub span_ends: Vec<usize>,
    pub subtree_ends: Vec<usize>,
}

#[derive(Clone, Copy, Debug, PartialEq, Eq, Structural)]
pub enum SourceError {
    MissingRoot,
    UnexpectedEnd,
    MalformedMarkup(usize),
    MismatchedEndTag(usize),
    UnboundPrefix(usize),
    InvalidReference(usize),
    ContentOutsideRoot(usize),
    UnsupportedDoctype(usize),
}

/// The machine-readable code of an XML reading error.
pub open spec fn source_error_code(e: SourceError) -> Seq<char> {
    match e {
        SourceError::MissingRoot => "MISSING_XML_ROOT"@,
        SourceError::UnexpectedEnd => "UNEXPECTED_XML_END"@,
        SourceError::MalformedMarkup(_) => "MALFORMED_XML"@,
        SourceError::MismatchedEndTag(_) => "MISMATCHED_XML_END_TAG"@,
        SourceError::UnboundPrefix(_) => "UNBOUND_XML_PREFIX"@,
        SourceError::InvalidReference(_) => "INVALID_XML_REFERENCE"@,
        SourceError::ContentOutsideRoot(_) => "XML_CONTENT_OUTSIDE_ROOT"@,
        SourceError::UnsupportedDoctype(_) => "UNSUPPORTED_XML_DOCTYPE"@,
    }
}

impl SourceError {
    pub fn code(&self) -> (r: &'static str)
        ensures
            r@ == source_error_code(*self),
    {
        match self {
            SourceError::MissingRoot => "MISSING_XML_ROOT",
            SourceError::UnexpectedEnd => "UNEXPECTED_XML_END",
            SourceError::MalformedMarkup(_) => "MALFORMED_XML",
            SourceError::MismatchedEndTag(_) => "MISMATCHED_XML_END_TAG",
            SourceError::UnboundPrefix(_) => "UNBOUND_XML_PREFIX",
            SourceError::InvalidReference(_) => "INVALID_XML_REFERENCE",
            SourceError::ContentOutsideRoot(_) => "XML_CONTENT_OUTSIDE_ROOT",
            SourceError::UnsupportedDoctype(_) => "UNSUPPORTED_XML_DOCTYPE",
        }
    }
}

// ---------------------------------------------------------------------------
// The tree shape
// ---------------------------------------------------------------------------

/// A node is closed once its subtree end is known.
pub open spec fn closed(sub: Seq<usize>, i: int) -> bool {
    i < sub[i]
}

/// The node-numbering invariant: subtrees are contiguous and nested, and the parent of
/// every node other than the first is the innermost node whose subtree holds it.
pub open spec fn tree_shape(parents: Seq<Option<NodeId>>, sub: Seq<usize>) -> bool {
    let n = parents.len();
    &&& sub.len() == n
    &&& forall|i: int| 0 <= i < n ==> #[trigger] sub[i] == 0 || i < sub[i] <= n
    &&& forall|i: int, j: int|
        #![trigger sub[i], sub[j]]
        0 <= i < j < n && closed(sub, i) && j < sub[i] ==> closed(sub, j) && sub[j] <= sub[i]
    &&& forall|j: int|
        0 < j < n ==> {
            &&& (#[trigger] parents[j]) is Some
            &&& pid(parents[j]) < j
            &&& closed(sub, pid(parents[j])) ==> j < sub[pid(parents[j])]
            &&& forall|q: int|
                pid(parents[j]) < q < j ==> closed(sub, q) && #[trigger] sub[q] <= j
        }
    &&& n > 0 ==> parents[0] is None
}

/// The index a parent link points to.
pub open spec fn pid(p: Option<NodeId>) -> int {
    match p {
        Some(id) => id.0 as int,
        None => -1,
    }
}

pub open spec fn parents_of(nodes: Seq<SourceNode>) -> Seq<Option<NodeId>> {
    nodes.map_values(|node: SourceNode| node.parent)
}

/// An element's start tag opens its span.
pub open spec fn tag_within(node: SourceNode, end: usize) -> bool {
    match node.kind {
        SourceNodeKind::Element { start_tag, .. } => start_tag.start == node.start
            && start_tag.start < start_tag.end <= end,
        _ => true,
    }
}

pub open spec fn is_element(node: SourceNode) -> bool {
    node.kind is Element
}

impl SourceDocument {
    pub open spec fn len(&self) -> nat {
        self.nodes@.len()
    }

    pub open spec fn valid_id(&self, id: NodeId) -> bool {
        id.0 < self.nodes@.len()
    }

    /// The well-formedness of an index: a closed tree rooted at an element, spans within
    /// the original bytes.
    pub open spec fn wf(&self) -> bool {
        let n = self.nodes@.len();
        let sub = self.subtree_ends@;
        &&& n > 0
        &&& self.span_ends@.len() == n
        &&& tree_shape(parents_of(self.nodes@), sub)
        &&& forall|i: int| 0 <= i < n ==> closed(sub, i)
        &&& sub[0] == n
        &&& is_element(self.nodes@[0])
        &&& forall|i: int|
            0 <= i < n ==> self.nodes@[i].start <= #[trigger] self.span_ends@[i]
                <= self.bytes@.len()
        &&& forall|i: int|
            0 <= i < n ==> tag_within(#[trigger] self.nodes@[i], self.span_ends@[i])
    }

    pub open spec fn spec_span(&self, i: int) -> SourceSpan {
        SourceSpan { start: self.nodes@[i].start, end: self.span_ends@[i] }
    }

    pub open spec fn spec_parent(&self, i: int) -> Option<NodeId> {
        self.nodes@[i].parent
    }

    /// The children of node `p`: the nodes reached from `p + 1` by skipping whole subtrees.
    pub open spec fn children_from(&self, j: int, stop: int) -> Seq<NodeId>
        decreases stop - j,
    {
        if 0 <= j < stop && j < self.subtree_ends@.len() && j < self.subtree_ends@[j] <= stop {
            seq![NodeId(j as usize)] + self.children_from(self.subtree_ends@[j] as int, stop)
        } else {
            seq![]
        }
    }

    pub open spec fn spec_children(&self, p: int) -> Seq<NodeId> {
        self.children_from(p + 1, self.subtree_ends@[p] as int)
    }

    /// The element's local name, namespace and attributes.
    pub open spec fn element_local(&self, i: int) -> Option<Seq<u8>> {
        match self.nodes@[i].kind {
            SourceNodeKind::Element { name, .. } => Some(name.local@),
            _ => None,
        }
    }

    pub open spec fn element_namespace(&self, i: int) -> Option<Seq<u8>> {
        match self.nodes@[i].kind {
            SourceNodeKind::Element { name, .. } => match name.namespace {
                Some(ns) => Some(ns@),
                None => None,
            },
            _ => None,
        }
    }

    /// Node `i` is an element with the given namespace and local name.
    pub open spec fn is_named(&self, i: int, namespace: Seq<u8>, local: Seq<u8>) -> bool {
        0 <= i < self.nodes@.len() && self.element_local(i) == Some(local)
            && self.element_namespace(i) == Some(namespace)
    }
}

/// The value of the first attribute in `attrs[from..]` with the given local name.
pub open spec fn attribute_from(attrs: Seq<SourceAttribute>, from: int, local: Seq<u8>) -> Option<
    Seq<u8>,
>
    decreases attrs.len() - from,
{
    if from < 0 || from >= attrs.len() {
        None
    } else if attrs[from].local@ == local {
        Some(attrs[from].value@)
    } else {
        attribute_from(attrs, from + 1, local)
    }
}

impl SourceDocument {
    /// The value of the node's first attribute with the given local name.
    pub open spec fn spec_attribute(&self, i: int, local: Seq<u8>) -> Option<Seq<u8>> {
        match self.nodes@[i].kind {
            SourceNodeKind::Element { attributes, .. } => attribute_from(attributes@, 0, local),
            _ => None,
        }
    }
}


// ---------------------------------------------------------------------------
// Building the tree
// ---------------------------------------------------------------------------

/// An element start tag may close at `end`.
pub open spec fn tag_ok(node: SourceNode, end: int) -> bool {
    match node.kind {
        SourceNodeKind::Element { start_tag, .. } => start_tag.start == node.start
            && start_tag.start < start_tag.end <= end,
        _ => true,
    }
}

/// The invariant of the parser while it walks the bytes up to `pos`: a tree whose open
/// elements are exactly the ones on `stack`.
#[verifier::opaque]
pub open spec fn building(
    nodes: Seq<SourceNode>,
    sub: Seq<usize>,
    ends: Seq<usize>,
    stack: Seq<usize>,
    pos: int,
    root_done: bool,
) -> bool {
    let n = nodes.len();
    &&& tree_shape(parents_of(nodes), sub)
    &&& ends.len() == n
    &&& forall|k: int|
        0 <= k < stack.len() ==> (#[trigger] stack[k]) < n && sub[stack[k] as int] == 0
            && is_element(nodes[stack[k] as int])
    &&& forall|k: int, l: int| 0 <= k < l < stack.len() ==> stack[k] < stack[l]
    &&& forall|k: int, i: int|
        #![trigger stack[k], sub[i]]
        0 <= k < stack.len() - 1 && stack[k] < i < stack[k + 1] ==> closed(sub, i)
    &&& stack.len() > 0 ==> forall|i: int| stack.last() < i < n ==> closed(sub, i)
    &&& stack.len() > 0 ==> stack[0] == 0
    &&& stack.len() == 0 ==> forall|i: int| 0 <= i < n ==> closed(sub, i)
    &&& n == 0 ==> stack.len() == 0 && !root_done
    &&& n > 0 ==> is_element(nodes[0]) && (root_done <==> stack.len() == 0)
    &&& root_done ==> sub[0] == n
    &&& forall|i: int|
        0 <= i < n ==> (#[trigger] nodes[i]).start <= pos && (closed(sub, i) ==> nodes[i].start
            <= ends[i] <= pos) && tag_ok(nodes[i], if closed(sub, i) {
            ends[i] as int
        } else {
            pos
        })
}

proof fn lemma_building_facts(
    nodes: Seq<SourceNode>,
    sub: Seq<usize>,
    ends: Seq<usize>,
    stack: Seq<usize>,
    pos: int,
    root_done: bool,
)
    requires
        building(nodes, sub, ends, stack, pos, root_done),
    ensures
        sub.len() == nodes.len(),
        ends.len() == nodes.len(),
        stack.len() > 0 ==> !root_done && stack.last() < nodes.len() && stack[stack.len() - 1]
            == stack.last(),
        root_done == (nodes.len() > 0 && stack.len() == 0),
        forall|k: int| 0 <= k < stack.len() ==> #[trigger] stack[k] < nodes.len(),
        forall|k: int| 0 <= k < stack.len() ==> is_element(nodes[#[trigger] stack[k] as int]),
{
    reveal(building);
}

proof fn lemma_parents_push(nodes: Seq<SourceNode>, node: SourceNode)
    ensures
        parents_of(nodes.push(node)) == parents_of(nodes).push(node.parent),
{
    assert(parents_of(nodes.push(node)) =~= parents_of(nodes).push(node.parent));
}

/// Adding a node below the innermost open element (or the first node, with no parent).
#[verifier::spinoff_prover]
#[verifier::rlimit(40)]
proof fn lemma_push(
    nodes: Seq<SourceNode>,
    sub: Seq<usize>,
    ends: Seq<usize>,
    stack: Seq<usize>,
    pos: int,
    node: SourceNode,
    end: usize,
    leaf: bool,
    new_pos: int,
)
    requires
        building(nodes, sub, ends, stack, pos, false),
        pos <= node.start <= end <= new_pos,
        stack.len() > 0 ==> node.parent == Some(NodeId(stack.last())),
        stack.len() == 0 ==> nodes.len() == 0 && node.parent is None && is_element(node),
        !leaf ==> is_element(node),
        tag_ok(node, if leaf { end as int } else { new_pos }),
        nodes.len() + 1 <= usize::MAX,
    ensures
        leaf && nodes.len() == 0 ==> building(
            nodes.push(node),
            sub.push((nodes.len() + 1) as usize),
            ends.push(end),
            stack,
            new_pos,
            true,
        ),
        leaf && nodes.len() > 0 ==> building(
            nodes.push(node),
            sub.push((nodes.len() + 1) as usize),
            ends.push(end),
            stack,
            new_pos,
            false,
        ),
        !leaf ==> building(
            nodes.push(node),
            sub.push(0),
            ends.push(end),
            stack.push(nodes.len() as usize),
            new_pos,
            false,
        ),
{
    reveal(building);
    let n = nodes.len() as int;
    let nodes2 = nodes.push(node);
    lemma_parents_push(nodes, node);
    let parents2 = parents_of(nodes2);
    assert forall|j: int| 0 <= j < n implies #[trigger] parents2[j] == parents_of(nodes)[j] by {}
    if leaf {
        let sub2 = sub.push((n + 1) as usize);
        let ends2 = ends.push(end);
        assert forall|i: int, j: int|
            #![trigger sub2[i], sub2[j]]
            0 <= i < j < n + 1 && closed(sub2, i) && j < sub2[i] implies closed(sub2, j) && sub2[j]
            <= sub2[i] by {
            if j == n {
                assert(sub[i] <= n);
            }
        }
        assert forall|j: int| 0 < j < n + 1 implies {
            &&& (#[trigger] parents2[j]) is Some
            &&& pid(parents2[j]) < j
            &&& closed(sub2, pid(parents2[j])) ==> j < sub2[pid(parents2[j])]
            &&& forall|q: int|
                pid(parents2[j]) < q < j ==> closed(sub2, q) && #[trigger] sub2[q] <= j
        } by {
            if j == n {
                let p = stack.last() as int;
                assert(pid(parents2[j]) == p);
                assert forall|q: int| p < q < j implies closed(sub2, q) && #[trigger] sub2[q] <= j by {
                    assert(closed(sub, q));
                }
                assert(!closed(sub2, p));
            } else {
                let p = pid(parents2[j]);
                assert(parents_of(nodes)[j] == parents2[j]);
                assert forall|q: int| p < q < j implies closed(sub2, q) && #[trigger] sub2[q] <= j by {
                    assert(closed(sub, q) && sub[q] <= j);
                }
            }
        }
        assert(tree_shape(parents2, sub2));
        if n > 0 {
            assert forall|i: int| stack.last() < i < n + 1 implies closed(sub2, i) by {
                if i < n {
                    assert(closed(sub, i));
                }
            }
        }
        assert forall|i: int| 0 <= i < n + 1 implies (#[trigger] nodes2[i]).start <= new_pos && (
        closed(sub2, i) ==> nodes2[i].start <= ends2[i] <= new_pos) && tag_ok(
            nodes2[i],
            if closed(sub2, i) {
                ends2[i] as int
            } else {
                new_pos
            },
        ) by {
            if i < n {
                assert(nodes2[i] == nodes[i]);
                assert(sub2[i] == sub[i]);
            }
        }
    } else {
        let sub2 = sub.push(0);
        let ends2 = ends.push(end);
        let stack2 = stack.push(n as usize);
        assert forall|i: int, j: int|
            #![trigger sub2[i], sub2[j]]
            0 <= i < j < n + 1 && closed(sub2, i) && j < sub2[i] implies closed(sub2, j) && sub2[j]
            <= sub2[i] by {
            if j == n {
                assert(sub[i] <= n);
            }
        }
        assert forall|j: int| 0 < j < n + 1 implies {
            &&& (#[trigger] parents2[j]) is Some
            &&& pid(parents2[j]) < j
            &&& closed(sub2, pid(parents2[j])) ==> j < sub2[pid(parents2[j])]
            &&& forall|q: int|
                pid(parents2[j]) < q < j ==> closed(sub2, q) && #[trigger] sub2[q] <= j
        } by {
            if j == n {
                let p = stack.last() as int;
                assert(pid(parents2[j]) == p);
                assert forall|q: int| p < q < j implies closed(sub2, q) && #[trigger] sub2[q] <= j by {
                    assert(closed(sub, q));
                }
                assert(!closed(sub2, p));
            } else {
                let p = pid(parents2[j]);
                assert(parents_of(nodes)[j] == parents2[j]);
                assert forall|q: int| p < q < j implies closed(sub2, q) && #[trigger] sub2[q] <= j by {
                    assert(closed(sub, q) && sub[q] <= j);
                }
            }
        }
        assert(tree_shape(parents2, sub2));
        assert forall|k: int| 0 <= k < stack2.len() implies (#[trigger] stack2[k]) < n + 1 && sub2[
        stack2[k] as int] == 0 && is_element(nodes2[stack2[k] as int]) by {
            if k < stack.len() {
                assert(stack2[k] == stack[k]);
            }
        }
        assert forall|k: int, i: int|
            #![trigger stack2[k], sub2[i]]
            0 <= k < stack2.len() - 1 && stack2[k] < i < stack2[k + 1] implies closed(
            sub2,
            i,
        ) by {
            assert(stack2[k] == stack[k]);
            if k + 1 < stack.len() {
                assert(stack2[k + 1] == stack[k + 1]);
            } else {
                assert(closed(sub, i));
            }
        }
        assert forall|i: int| 0 <= i < n + 1 implies (#[trigger] nodes2[i]).start <= new_pos && (
        closed(sub2, i) ==> nodes2[i].start <= ends2[i] <= new_pos) && tag_ok(
            nodes2[i],
            if closed(sub2, i) {
                ends2[i] as int
            } else {
                new_pos
            },
        ) by {
            if i < n {
                assert(nodes2[i] == nodes[i]);
                assert(sub2[i] == sub[i]);
            }
        }
    }
}

/// Closing the innermost open element once its end tag ends at `end`.
proof fn lemma_close(
    nodes: Seq<SourceNode>,
    sub: Seq<usize>,
    ends: Seq<usize>,
    stack: Seq<usize>,
    pos: int,
    end: usize,
)
    requires
        building(nodes, sub, ends, stack, pos, false),
        stack.len() > 0,
        pos <= end,
        nodes.len() <= usize::MAX,
    ensures
        building(
            nodes,
            sub.update(stack.last() as int, nodes.len() as usize),
            ends.update(stack.last() as int, end),
            stack.drop_last(),
            end as int,
            stack.len() == 1,
        ),
{
    reveal(building);
    let n = nodes.len() as int;
    let p = stack.last() as int;
    let sub2 = sub.update(p, n as usize);
    let ends2 = ends.update(p, end);
    let stack2 = stack.drop_last();
    let parents = parents_of(nodes);
    assert(stack[stack.len() - 1] == p);
    assert(p < n && sub[p] == 0);
    assert(sub2[p] == n);
    assert forall|i: int| p < i < n implies closed(sub, i) && sub[i] <= n by {}
    assert forall|i: int| 0 <= i < n implies #[trigger] sub2[i] == 0 || i < sub2[i] <= n by {}
    assert forall|i: int, j: int|
        #![trigger sub2[i], sub2[j]]
        0 <= i < j < n && closed(sub2, i) && j < sub2[i] implies closed(sub2, j) && sub2[j]
        <= sub2[i] by {
        if i == p {
            assert(closed(sub, j));
        } else if j == p {
            assert(closed(sub, i));
            assert(closed(sub, j));
        } else {
            assert(closed(sub, i));
        }
    }
    assert forall|j: int| 0 < j < n implies {
        &&& (#[trigger] parents[j]) is Some
        &&& pid(parents[j]) < j
        &&& closed(sub2, pid(parents[j])) ==> j < sub2[pid(parents[j])]
        &&& forall|q: int| pid(parents[j]) < q < j ==> closed(sub2, q) && #[trigger] sub2[q] <= j
    } by {
        let pj = pid(parents[j]);
        if pj == p {
            assert(p < j);
        }
        assert forall|q: int| pj < q < j implies closed(sub2, q) && #[trigger] sub2[q] <= j by {
            assert(closed(sub, q) && sub[q] <= j);
        }
    }
    assert(tree_shape(parents, sub2));
    assert forall|k: int| 0 <= k < stack2.len() implies (#[trigger] stack2[k]) < n && sub2[
    stack2[k] as int] == 0 && is_element(nodes[stack2[k] as int]) by {
        assert(stack2[k] == stack[k]);
        assert(stack[k] < stack[stack.len() - 1]);
    }
    assert forall|k: int, i: int|
        #![trigger stack2[k], sub2[i]]
        0 <= k < stack2.len() - 1 && stack2[k] < i < stack2[k + 1] implies closed(
        sub2,
        i,
    ) by {
        assert(stack2[k] == stack[k]);
        assert(stack2[k + 1] == stack[k + 1]);
        assert(closed(sub, i));
        assert(stack[k + 1] < stack[stack.len() - 1]);
    }
    if stack2.len() > 0 {
        let t = stack2.last() as int;
        assert(t == stack[stack.len() - 2]);
        assert forall|i: int| t < i < n implies closed(sub2, i) by {
            if i < p {
                assert(closed(sub, i));
            } else if i > p {
                assert(closed(sub, i));
            }
        }
        assert(stack2[0] == stack[0]);
    } else {
        assert(p == 0);
        assert forall|i: int| 0 <= i < n implies closed(sub2, i) by {
            if i != p {
                assert(closed(sub, i));
            }
        }
    }
    assert forall|i: int| 0 <= i < n implies (#[trigger] nodes[i]).start <= end && (closed(sub2, i)
        ==> nodes[i].start <= ends2[i] <= end) && tag_ok(
        nodes[i],
        if closed(sub2, i) {
            ends2[i] as int
        } else {
            end as int
        },
    ) by {
        if i == p {
            assert(!closed(sub, i));
        }
    }
}


proof fn lemma_advance(
    nodes: Seq<SourceNode>,
    sub: Seq<usize>,
    ends: Seq<usize>,
    stack: Seq<usize>,
    pos: int,
    root_done: bool,
    new_pos: int,
)
    requires
        building(nodes, sub, ends, stack, pos, root_done),
        pos <= new_pos,
    ensures
        building(nodes, sub, ends, stack, new_pos, root_done),
{
    reveal(building);
    assert forall|i: int| 0 <= i < nodes.len() implies (#[trigger] nodes[i]).start <= new_pos && (
    closed(sub, i) ==> nodes[i].start <= ends[i] <= new_pos) && tag_ok(
        nodes[i],
        if closed(sub, i) {
            ends[i] as int
        } else {
            new_pos
        },
    ) by {}
}

// ---------------------------------------------------------------------------
// Lexing
// ---------------------------------------------------------------------------

pub open spec fn is_space(b: u8) -> bool {
    b == 0x20u8 || b == 0x09u8 || b == 0x0au8 || b == 0x0du8
}

/// Bytes that may appear in a tag or attribute name.
pub open spec fn is_name_byte(b: u8) -> bool {
    !is_space(b) && b != 0x2fu8 && b != 0x3eu8 && b != 0x3du8 && b != 0x3cu8 && b != 0x22u8 && b
        != 0x27u8
}

/// The first position at or after `i` that holds no space.
pub open spec fn space_end(s: Seq<u8>, i: int) -> int
    decreases s.len() - i,
{
    if 0 <= i < s.len() && is_space(s[i]) {
        space_end(s, i + 1)
    } else {
        i
    }
}

/// The first position at or after `i` that holds no name byte.
pub open spec fn name_end(s: Seq<u8>, i: int) -> int
    decreases s.len() - i,
{
    if 0 <= i < s.len() && is_name_byte(s[i]) {
        name_end(s, i + 1)
    } else {
        i
    }
}

/// The first position at or after `i` that holds `b`.
pub open spec fn byte_from(s: Seq<u8>, i: int, b: u8) -> Option<int>
    decreases s.len() - i,
{
    if i < 0 || i >= s.len() {
        None
    } else if s[i] == b {
        Some(i)
    } else {
        byte_from(s, i + 1, b)
    }
}

fn space(b: u8) -> (r: bool)
    ensures
        r == is_space(b),
{
    b == 0x20u8 || b == 0x09u8 || b == 0x0au8 || b == 0x0du8
}

fn skip_space(s: &[u8], pos: usize) -> (r: usize)
    requires
        pos <= s@.len(),
    ensures
        pos <= r <= s@.len(),
        forall|i: int| pos <= i < r ==> is_space(s@[i]),
        r < s@.len() ==> !is_space(s@[r as int]),
        r == space_end(s@, pos as int),
{
    let mut i = pos;
    while i < s.len() && space(s[i])
        invariant
            pos <= i <= s@.len(),
            forall|j: int| pos <= j < i ==> is_space(s@[j]),
            space_end(s@, pos as int) == space_end(s@, i as int),
        decreases s@.len() - i,
    {
        i += 1;
    }
    i
}

fn scan_name(s: &[u8], pos: usize) -> (r: usize)
    requires
        pos <= s@.len(),
    ensures
        pos <= r <= s@.len(),
        forall|i: int| pos <= i < r ==> is_name_byte(s@[i]),
        r < s@.len() ==> !is_name_byte(s@[r as int]),
        r == name_end(s@, pos as int),
{
    let mut i = pos;
    while i < s.len() && !space(s[i]) && s[i] != 0x2fu8 && s[i] != 0x3eu8 && s[i] != 0x3du8 && s[i]
        != 0x3cu8 && s[i] != 0x22u8 && s[i] != 0x27u8
        invariant
            pos <= i <= s@.len(),
            forall|j: int| pos <= j < i ==> is_name_byte(s@[j]),
            name_end(s@, pos as int) == name_end(s@, i as int),
        decreases s@.len() - i,
    {
        i += 1;
    }
    i
}

fn find_byte_from(s: &[u8], from: usize, b: u8) -> (r: Option<usize>)
    requires
        from <= s@.len(),
    ensures
        match r {
            Some(i) => from <= i < s@.len() && s@[i as int] == b,
            None => true,
        },
        forall|j: int| from <= j < (match r { Some(i) => i as int, None => s@.len() as int }) ==> s@[j] != b,
        r == (match byte_from(s@, from as int, b) {
            Some(i) => Some(i as usize),
            None => None::<usize>,
        }),
        byte_from(s@, from as int, b) matches Some(i) ==> from <= i < s@.len(),
{
    let mut i = from;
    while i < s.len()
        invariant
            from <= i <= s@.len(),
            forall|j: int| from <= j < i ==> s@[j] != b,
            byte_from(s@, from as int, b) == byte_from(s@, i as int, b),
        decreases s@.len() - i,
    {
        if s[i] == b {
            return Some(i);
        }
        i += 1;
    }
    None
}

/// `i` is the position of the first colon of a qualified name.
pub open spec fn first_colon_at(q: Seq<u8>, i: int) -> bool {
    &&& 0 <= i < q.len()
    &&& q[i] == 0x3au8
    &&& forall|j: int| 0 <= j < i ==> q[j] != 0x3au8
}

/// The prefix and local part of a qualified name: split at its first colon, else no
/// prefix and the whole name.
pub open spec fn name_parts(q: Seq<u8>) -> (Seq<u8>, Seq<u8>) {
    if exists|i: int| first_colon_at(q, i) {
        let i = choose|i: int| first_colon_at(q, i);
        (q.take(i), q.skip(i + 1))
    } else {
        (seq![], q)
    }
}

/// The prefix and local part of the qualified name `s[start..end]`, split at its first colon.
fn split_name(s: &[u8], start: usize, end: usize) -> (r: (Vec<u8>, Vec<u8>))
    requires
        start <= end <= s@.len(),
    ensures
        (r.0@, r.1@) == name_parts(s@.subrange(start as int, end as int)),
{
    let ghost q = s@.subrange(start as int, end as int);
    match find_byte_from(s, start, 0x3au8) {
        Some(c) => {
            if c < end {
                proof {
                    let i = (c - start) as int;
                    assert(first_colon_at(q, i));
                    let k = choose|k: int| first_colon_at(q, k);
                    assert(k == i) by {
                        if k < i {
                            assert(s@[start + k] != 0x3au8);
                        }
                        if i < k {
                            assert(q[i] != 0x3au8);
                        }
                    }
                    assert(q.take(i) =~= s@.subrange(start as int, c as int));
                    assert(q.skip(i + 1) =~= s@.subrange(c + 1, end as int));
                }
                (copy_range(s, start, c), copy_range(s, c + 1, end))
            } else {
                proof {
                    assert forall|i: int| !first_colon_at(q, i) by {
                        if 0 <= i < q.len() {
                            assert(q[i] == s@[start + i]);
                        }
                    }
                }
                (Vec::new(), copy_range(s, start, end))
            }
        },
        None => {
            proof {
                assert forall|i: int| !first_colon_at(q, i) by {
                    if 0 <= i < q.len() {
                        assert(q[i] == s@[start + i]);
                    }
                }
            }
            (Vec::new(), copy_range(s, start, end))
        },
    }
}

struct RawAttribute {
    name_start: usize,
    name_end: usize,
    value: Vec<u8>,
}

struct StartTag {
    end: usize,
    name_end: usize,
    attributes: Vec<RawAttribute>,
    self_closing: bool,
}

/// The attributes of a start tag from `i` on, up to its `>` or `/>`: each one after
/// spaces, a name, `=` between optional spaces and a quoted value holding no `<`, whose
/// references decode. Gives the end of the tag, whether it closes itself, and each
/// attribute's name span and decoded value.
pub open spec fn lex_attributes(s: Seq<u8>, i: int) -> Option<(int, bool, Seq<(int, int, Seq<u8>)>)>
    decreases s.len() - i,
{
    let j = space_end(s, i);
    if j < 0 || j >= s.len() {
        None
    } else if s[j] == 0x3eu8 {
        Some((j + 1, false, seq![]))
    } else if s[j] == 0x2fu8 {
        if j + 1 < s.len() && s[j + 1] == 0x3eu8 {
            Some((j + 2, true, seq![]))
        } else {
            None
        }
    } else if j == i {
        None
    } else {
        let a = name_end(s, j);
        let k = space_end(s, a);
        if a == j || k >= s.len() || s[k] != 0x3du8 {
            None
        } else {
            let v = space_end(s, k + 1);
            if v >= s.len() || (s[v] != 0x22u8 && s[v] != 0x27u8) {
                None
            } else {
                match byte_from(s, v + 1, s[v]) {
                    None => None,
                    Some(c) => {
                        let raw = s.subrange(v + 1, c);
                        if byte_from(raw, 0, 0x3cu8) is Some || !(i < c + 1 <= s.len()) {
                            None
                        } else {
                            match (decoded(raw), lex_attributes(s, c + 1)) {
                                (Some(value), Some((e, closing, rest))) => Some((e, closing, seq![(j, a, value)] + rest)),
                                _ => None,
                            }
                        }
                    },
                }
            }
        }
    }
}

/// The start tag at `pos` (`<` then a name): the end of its name, then what
/// `lex_attributes` gives from there.
pub open spec fn lex_tag(s: Seq<u8>, pos: int) -> Option<(int, int, bool, Seq<(int, int, Seq<u8>)>)> {
    let n = name_end(s, pos + 1);
    if n == pos + 1 {
        None
    } else {
        match lex_attributes(s, n) {
            Some((e, closing, attrs)) => Some((n, e, closing, attrs)),
            None => None,
        }
    }
}

spec fn raw_attributes_view(a: Seq<RawAttribute>) -> Seq<(int, int, Seq<u8>)> {
    a.map_values(|x: RawAttribute| (x.name_start as int, x.name_end as int, x.value@))
}

/// Prepends lexed attributes to what `lex_attributes` gives.
spec fn after_attributes(
    done: Seq<(int, int, Seq<u8>)>,
    rest: Option<(int, bool, Seq<(int, int, Seq<u8>)>)>,
) -> Option<(int, bool, Seq<(int, int, Seq<u8>)>)> {
    match rest {
        Some((e, closing, more)) => Some((e, closing, done + more)),
        None => None,
    }
}

/// Lexes the start tag beginning at `s[pos] == '<'`: its name, its attributes with their
/// values decoded, and whether it closes itself.
fn lex_start_tag(s: &[u8], pos: usize) -> (r: Result<StartTag, SourceError>)
    requires
        pos < s@.len(),
    ensures
        r matches Ok(t) ==> pos + 1 < t.name_end < t.end <= s@.len() && forall|k: int|
            0 <= k < t.attributes@.len() ==> (#[trigger] t.attributes@[k]).name_start
                < t.attributes@[k].name_end <= t.end,
        match r {
            Ok(t) => lex_tag(s@, pos as int) == Some(
                (t.name_end as int, t.end as int, t.self_closing, raw_attributes_view(t.attributes@)),
            ),
            Err(_) => lex_tag(s@, pos as int) is None,
        },
{
    let len = s.len();
    let name_end = scan_name(s, pos + 1);
    if name_end == pos + 1 {
        return Err(SourceError::MalformedMarkup(pos));
    }
    let mut attributes: Vec<RawAttribute> = Vec::new();
    let mut i = name_end;
    let ghost target = lex_attributes(s@, name_end as int);
    loop
        invariant
            len == s@.len(),
            pos + 1 < name_end <= i <= len,
            forall|k: int|
                0 <= k < attributes@.len() ==> (#[trigger] attributes@[k]).name_start
                    < attributes@[k].name_end <= i,
            target == lex_attributes(s@, name_end as int),
            lex_tag(s@, pos as int) == match target {
                Some((e, closing, attrs)) => Some((name_end as int, e, closing, attrs)),
                None => None,
            },
            target == after_attributes(raw_attributes_view(attributes@), lex_attributes(s@, i as int)),
        decreases len - i,
    {
        let j = skip_space(s, i);
        if j >= len {
            return Err(SourceError::UnexpectedEnd);
        }
        if s[j] == 0x3eu8 {
            assert(raw_attributes_view(attributes@) + seq![] =~= raw_attributes_view(attributes@));
            return Ok(StartTag { end: j + 1, name_end, attributes, self_closing: false });
        }
        if s[j] == 0x2fu8 {
            if j + 1 < len && s[j + 1] == 0x3eu8 {
                assert(raw_attributes_view(attributes@) + seq![] =~= raw_attributes_view(attributes@));
                return Ok(StartTag { end: j + 2, name_end, attributes, self_closing: true });
            }
            return Err(SourceError::MalformedMarkup(j));
        }
        if j == i {
            return Err(SourceError::MalformedMarkup(j));
        }
        let attribute_end = scan_name(s, j);
        if attribute_end == j {
            return Err(SourceError::MalformedMarkup(j));
        }
        let k = skip_space(s, attribute_end);
        if k >= len || s[k] != 0x3du8 {
            return Err(SourceError::MalformedMarkup(k));
        }
        let k = skip_space(s, k + 1);
        if k >= len {
            return Err(SourceError::UnexpectedEnd);
        }
        let quote = s[k];
        if quote != 0x22u8 && quote != 0x27u8 {
            return Err(SourceError::MalformedMarkup(k));
        }
        let close = match find_byte_from(s, k + 1, quote) {
            Some(c) => c,
            None => {
                return Err(SourceError::UnexpectedEnd);
            },
        };
        let raw = copy_range(s, k + 1, close);
        if let Some(_) = find_byte_from(raw.as_slice(), 0, 0x3cu8) {
            return Err(SourceError::MalformedMarkup(k));
        }
        let value = match unescape(raw.as_slice()) {
            Some(v) => v,
            None => {
                return Err(SourceError::InvalidReference(k));
            },
        };
        let ghost before = attributes@;
        attributes.push(RawAttribute { name_start: j, name_end: attribute_end, value });
        proof {
            assert(raw_attributes_view(attributes@) =~= raw_attributes_view(before).push((j as int, attribute_end as int, value@)));
            match lex_attributes(s@, close + 1) {
                Some((e, closing, more)) => {
                    assert(raw_attributes_view(before) + (seq![(j as int, attribute_end as int, value@)] + more)
                        =~= raw_attributes_view(attributes@) + more);
                },
                None => {},
            }
        }
        i = close + 1;
    }
}

struct NsBinding {
    prefix: Vec<u8>,
    uri: Vec<u8>,
}

pub const XML_NAMESPACE: &'static str = "http://www.w3.org/XML/1998/namespace";

/// The namespace that the last of `bindings[..k]` declaring `prefix` binds it to; an
/// empty namespace undeclares it.
pub open spec fn bound_namespace(bindings: Seq<(Seq<u8>, Seq<u8>)>, prefix: Seq<u8>, k: int) -> Option<Seq<u8>>
    decreases k,
{
    if k <= 0 {
        None
    } else if bindings[k - 1].0 == prefix {
        if bindings[k - 1].1.len() == 0 {
            None
        } else {
            Some(bindings[k - 1].1)
        }
    } else {
        bound_namespace(bindings, prefix, k - 1)
    }
}

/// The namespace a prefix stands for under some bindings: `xml` is always bound.
pub open spec fn prefix_namespace(bindings: Seq<(Seq<u8>, Seq<u8>)>, prefix: Seq<u8>) -> Option<Seq<u8>> {
    if prefix == "xml".spec_bytes() {
        Some(XML_NAMESPACE.spec_bytes())
    } else {
        bound_namespace(bindings, prefix, bindings.len() as int)
    }
}

/// The namespace bound to `prefix` by the innermost declaration in scope.
fn resolve_prefix(bindings: &Vec<NsBinding>, prefix: &[u8]) -> (r: Option<Vec<u8>>)
    ensures
        match r {
            Some(v) => prefix_namespace(binding_view(bindings@), prefix@) == Some(v@),
            None => prefix_namespace(binding_view(bindings@), prefix@) is None,
        },
{
    if bytes_are(prefix, "xml") {
        return Some(copy_bytes(XML_NAMESPACE.as_bytes()));
    }
    let mut i = bindings.len();
    while i > 0
        invariant
            i <= bindings@.len(),
            prefix@ != "xml".spec_bytes(),
            bound_namespace(binding_view(bindings@), prefix@, bindings@.len() as int) == bound_namespace(binding_view(bindings@), prefix@, i as int),
        decreases i,
    {
        i -= 1;
        if bytes_equal(bindings[i].prefix.as_slice(), prefix) {
            if bindings[i].uri.len() == 0 {
                return None;
            }
            return Some(copy_bytes(bindings[i].uri.as_slice()));
        }
    }
    None
}


/// Adds a node to the index and, when it has content, opens it.
fn add_node(
    nodes: &mut Vec<SourceNode>,
    sub: &mut Vec<usize>,
    ends: &mut Vec<usize>,
    stack: &mut Vec<usize>,
    node: SourceNode,
    end: usize,
    leaf: bool,
    Ghost(pos): Ghost<int>,
    Ghost(new_pos): Ghost<int>,
)
    requires
        building(old(nodes)@, old(sub)@, old(ends)@, old(stack)@, pos, false),
        pos <= node.start <= end <= new_pos,
        old(stack)@.len() > 0 ==> node.parent == Some(NodeId(old(stack)@.last())),
        old(stack)@.len() == 0 ==> old(nodes)@.len() == 0 && node.parent is None && is_element(
            node,
        ),
        !leaf ==> is_element(node),
        tag_ok(node, if leaf { end as int } else { new_pos }),
        old(nodes)@.len() < new_pos,
        new_pos <= usize::MAX,
    ensures
        building(
            final(nodes)@,
            final(sub)@,
            final(ends)@,
            final(stack)@,
            new_pos,
            final(nodes)@.len() > 0 && final(stack)@.len() == 0,
        ),
        final(nodes)@.len() == old(nodes)@.len() + 1,
        final(nodes)@ == old(nodes)@.push(node),
        final(nodes)@.len() <= new_pos,
        !leaf ==> final(stack)@.len() == old(stack)@.len() + 1,
        !leaf ==> final(stack)@ == old(stack)@.push(old(nodes)@.len() as usize),
        leaf ==> final(stack)@ == old(stack)@,
        final(ends)@ == old(ends)@.push(end),
        final(sub)@ == old(sub)@.push(if leaf { (old(nodes)@.len() + 1) as usize } else { 0usize }),
{
    let n = nodes.len();
    proof {
        lemma_building_facts(nodes@, sub@, ends@, stack@, pos, false);
        lemma_push(nodes@, sub@, ends@, stack@, pos, node, end, leaf, new_pos);
    }
    nodes.push(node);
    ends.push(end);
    if leaf {
        sub.push(n + 1);
    } else {
        sub.push(0);
        stack.push(n);
    }
}

/// Closes the innermost open element whose end tag ends at `end`.
fn close_node(
    nodes: &Vec<SourceNode>,
    sub: &mut Vec<usize>,
    ends: &mut Vec<usize>,
    stack: &mut Vec<usize>,
    end: usize,
    Ghost(pos): Ghost<int>,
)
    requires
        building(nodes@, old(sub)@, old(ends)@, old(stack)@, pos, false),
        old(stack)@.len() > 0,
        pos <= end,
    ensures
        building(nodes@, final(sub)@, final(ends)@, final(stack)@, end as int, final(stack)@.len() == 0),
        final(stack)@.len() + 1 == old(stack)@.len(),
        final(stack)@ == old(stack)@.drop_last(),
        final(sub)@ == old(sub)@.update(old(stack)@.last() as int, nodes@.len() as usize),
        final(ends)@ == old(ends)@.update(old(stack)@.last() as int, end),
{
    proof {
        lemma_building_facts(nodes@, sub@, ends@, stack@, pos, false);
    }
    let p = stack[stack.len() - 1];
    let _n = nodes.len();
    proof {
        lemma_close(nodes@, sub@, ends@, stack@, pos, end);
        assert(stack@[stack@.len() - 1] == stack@.last());
    }
    sub.set(p, nodes.len());
    ends.set(p, end);
    stack.pop();
    proof {
        assert(stack@ =~= old(stack)@.drop_last());
    }
}


/// The qualified name of a lexed attribute.
pub open spec fn raw_name(s: Seq<u8>, a: (int, int, Seq<u8>)) -> Seq<u8> {
    s.subrange(a.0, a.1)
}

/// The prefix a namespace declaration binds: none for `xmlns`, the rest of the name
/// for `xmlns:p`; `None` for an ordinary attribute.
pub open spec fn declared_prefix(q: Seq<u8>) -> Option<Seq<u8>> {
    if q == "xmlns".spec_bytes() {
        Some(seq![])
    } else if q.len() > 6 && crate::bytes::occurs_at(q, 0, "xmlns:".spec_bytes()) {
        Some(q.skip(6))
    } else {
        None
    }
}

/// The (prefix, namespace) pairs that the first `k` attributes declare, in order.
pub open spec fn declarations(s: Seq<u8>, raws: Seq<(int, int, Seq<u8>)>, k: int) -> Seq<(Seq<u8>, Seq<u8>)>
    decreases k,
{
    if k <= 0 {
        seq![]
    } else {
        let rest = declarations(s, raws, k - 1);
        match declared_prefix(raw_name(s, raws[k - 1])) {
            Some(p) => rest.push((p, raws[k - 1].2)),
            None => rest,
        }
    }
}

/// The (prefix, local, value) of each ordinary attribute among the first `k`, in order.
pub open spec fn plain_attributes(s: Seq<u8>, raws: Seq<(int, int, Seq<u8>)>, k: int) -> Seq<(Seq<u8>, Seq<u8>, Seq<u8>)>
    decreases k,
{
    if k <= 0 {
        seq![]
    } else {
        let rest = plain_attributes(s, raws, k - 1);
        match declared_prefix(raw_name(s, raws[k - 1])) {
            Some(_) => rest,
            None => {
                let parts = name_parts(raw_name(s, raws[k - 1]));
                rest.push((parts.0, parts.1, raws[k - 1].2))
            },
        }
    }
}

spec fn binding_view(b: Seq<NsBinding>) -> Seq<(Seq<u8>, Seq<u8>)> {
    b.map_values(|x: NsBinding| (x.prefix@, x.uri@))
}

spec fn attribute_view(a: Seq<SourceAttribute>) -> Seq<(Seq<u8>, Seq<u8>, Seq<u8>)> {
    a.map_values(|x: SourceAttribute| (x.prefix@, x.local@, x.value@))
}

/// Splits the attributes of a start tag into namespace declarations, added to
/// `bindings`, and ordinary attributes, returned.
fn declare_attributes(bindings: &mut Vec<NsBinding>, s: &[u8], tag: &StartTag) -> (r: Vec<
    SourceAttribute,
>)
    requires
        forall|k: int|
            0 <= k < tag.attributes@.len() ==> (#[trigger] tag.attributes@[k]).name_start
                < tag.attributes@[k].name_end <= tag.end,
        tag.end <= s@.len(),
    ensures
        binding_view(final(bindings)@) == binding_view(old(bindings)@) + declarations(s@, raw_attributes_view(tag.attributes@), tag.attributes@.len() as int),
        attribute_view(r@) == plain_attributes(s@, raw_attributes_view(tag.attributes@), tag.attributes@.len() as int),
{
    let mut attributes: Vec<SourceAttribute> = Vec::new();
    let mut a: usize = 0;
    while a < tag.attributes.len()
        invariant
            a <= tag.attributes@.len(),
            forall|k: int|
                0 <= k < tag.attributes@.len() ==> (#[trigger] tag.attributes@[k]).name_start
                    < tag.attributes@[k].name_end <= tag.end,
            tag.end <= s@.len(),
            binding_view(bindings@) == binding_view(old(bindings)@) + declarations(s@, raw_attributes_view(tag.attributes@), a as int),
            attribute_view(attributes@) == plain_attributes(s@, raw_attributes_view(tag.attributes@), a as int),
        decreases tag.attributes@.len() - a,
    {
        let raw = &tag.attributes[a];
        let qname = copy_range(s, raw.name_start, raw.name_end);
        let ghost bb = bindings@;
        let ghost aa = attributes@;
        assert(qname@ == raw_name(s@, raw_attributes_view(tag.attributes@)[a as int]));
        if bytes_are(qname.as_slice(), "xmlns") {
            bindings.push(NsBinding { prefix: Vec::new(), uri: copy_bytes(raw.value.as_slice()) });
            assert(binding_view(bindings@) =~= binding_view(bb).push((seq![], raw.value@)));
        } else if qname.len() > 6 && crate::bytes::matches_at(qname.as_slice(), 0, "xmlns:".as_bytes()) {
            bindings.push(
                NsBinding {
                    prefix: copy_range(qname.as_slice(), 6, qname.len()),
                    uri: copy_bytes(raw.value.as_slice()),
                },
            );
            assert(qname@.subrange(6, qname@.len() as int) =~= qname@.skip(6));
            assert(binding_view(bindings@) =~= binding_view(bb).push((qname@.skip(6), raw.value@)));
        } else {
            let (prefix, local) = split_name(s, raw.name_start, raw.name_end);
            attributes.push(SourceAttribute { prefix, local, value: copy_bytes(raw.value.as_slice()) });
            assert(attribute_view(attributes@) =~= attribute_view(aa).push((name_parts(qname@).0, name_parts(qname@).1, raw.value@)));
        }
        a += 1;
    }
    attributes
}

proof fn lemma_finished(
    nodes: Seq<SourceNode>,
    sub: Seq<usize>,
    ends: Seq<usize>,
    pos: int,
    len: int,
)
    requires
        building(nodes, sub, ends, seq![], pos, true),
        pos <= len,
    ensures
        nodes.len() > 0,
        forall|i: int| 0 <= i < nodes.len() ==> closed(sub, i),
        sub[0] == nodes.len(),
        is_element(nodes[0]),
        tree_shape(parents_of(nodes), sub),
        ends.len() == nodes.len(),
        forall|i: int| 0 <= i < nodes.len() ==> nodes[i].start <= #[trigger] ends[i] <= len,
        forall|i: int| 0 <= i < nodes.len() ==> tag_within(#[trigger] nodes[i], ends[i]),
{
    reveal(building);
    assert forall|i: int| 0 <= i < nodes.len() implies tag_within(#[trigger] nodes[i], ends[i]) by {
        assert(closed(sub, i));
        assert(tag_ok(nodes[i], ends[i] as int));
    }
    assert forall|i: int| 0 <= i < nodes.len() implies nodes[i].start <= #[trigger] ends[i] <= len by {
        assert(closed(sub, i));
    }
}

proof fn lemma_empty_building(pos: int)
    requires
        0 <= pos,
    ensures
        building(seq![], seq![], seq![], seq![], pos, false),
{
    reveal(building);
}

proof fn lemma_document_wf(d: &SourceDocument)
    requires
        d.nodes@.len() > 0,
        forall|i: int| 0 <= i < d.nodes@.len() ==> closed(d.subtree_ends@, i),
        d.subtree_ends@[0] == d.nodes@.len(),
        is_element(d.nodes@[0]),
        tree_shape(parents_of(d.nodes@), d.subtree_ends@),
        d.span_ends@.len() == d.nodes@.len(),
        forall|i: int|
            0 <= i < d.nodes@.len() ==> d.nodes@[i].start <= #[trigger] d.span_ends@[i]
                <= d.bytes@.len(),
        forall|i: int| 0 <= i < d.nodes@.len() ==> tag_within(#[trigger] d.nodes@[i], d.span_ends@[i]),
    ensures
        d.wf(),
{
}

/// The end tag at `pos` (`</` then a name) has its name run to `n`, the first byte that
/// cannot be in a name, and after spaces ends with the `>` just before `p`.
pub open spec fn end_tag_span(s: Seq<u8>, pos: int, n: int, p: int) -> bool {
    &&& pos + 2 <= n < p <= s.len()
    &&& forall|i: int| pos + 2 <= i < n ==> is_name_byte(#[trigger] s[i])
    &&& !is_name_byte(s[n])
    &&& forall|i: int| n <= i < p - 1 ==> is_space(#[trigger] s[i])
    &&& s[p - 1] == 0x3eu8
}

/// A node is an element with the qualified name `q`.
pub open spec fn names_element(node: SourceNode, q: Seq<u8>) -> bool {
    node.kind matches SourceNodeKind::Element { name, .. } && (name.prefix@, name.local@) == name_parts(q)
}

/// The end tag at `pos` is well formed and names the element `node`.
pub open spec fn end_tag_closes(s: Seq<u8>, pos: int, node: SourceNode) -> bool {
    exists|n: int, p: int| end_tag_span(s, pos, n, p) && names_element(node, s.subrange(pos + 2, n))
}

proof fn lemma_end_tag_span(s: Seq<u8>, pos: int, name_end: int, j: int, n: int, p: int)
    requires
        pos + 2 <= name_end <= j <= s.len(),
        forall|i: int| pos + 2 <= i < name_end ==> is_name_byte(s[i]),
        name_end < s.len() ==> !is_name_byte(s[name_end]),
        forall|i: int| name_end <= i < j ==> is_space(s[i]),
        j < s.len() ==> !is_space(s[j]),
        end_tag_span(s, pos, n, p),
    ensures
        n == name_end,
        p == j + 1,
{
    if n < name_end {
        assert(is_name_byte(s[n]));
    }
    if n > name_end {
        assert(is_name_byte(s[name_end]));
    }
    if p - 1 < j {
        assert(is_space(s[p - 1]));
    }
    if p - 1 > j {
        assert(is_space(s[j]));
    }
}

/// What decides whether the rest of a part parses: the names of the open elements, the
/// namespace bindings in scope, where the bindings of each open element with
/// declarations begin, and whether the document element has closed.
#[verifier::ext_equal]
pub struct ParserState {
    pub open: Seq<(Seq<u8>, Seq<u8>)>,
    pub bindings: Seq<(Seq<u8>, Seq<u8>)>,
    pub marks: Seq<int>,
    pub root_done: bool,
    pub nodes: Seq<NodeView>,
    pub sub: Seq<usize>,
    pub ends: Seq<usize>,
    pub stack: Seq<usize>,
}

/// What a node's kind records: an element's name, resolved namespace, start tag and
/// attributes, each as bytes.
pub enum KindView {
    Element {
        prefix: Seq<u8>,
        local: Seq<u8>,
        namespace: Option<Seq<u8>>,
        start_tag: SourceSpan,
        attributes: Seq<(Seq<u8>, Seq<u8>, Seq<u8>)>,
    },
    Text,
    CData,
    Comment,
    ProcessingInstruction,
}

/// What a node records, as bytes.
pub struct NodeView {
    pub kind: KindView,
    pub start: usize,
    pub parent: Option<NodeId>,
}

pub open spec fn option_view(o: Option<Vec<u8>>) -> Option<Seq<u8>> {
    match o {
        Some(v) => Some(v@),
        None => None,
    }
}

pub open spec fn attributes_view(a: Seq<SourceAttribute>) -> Seq<(Seq<u8>, Seq<u8>, Seq<u8>)> {
    a.map_values(|x: SourceAttribute| (x.prefix@, x.local@, x.value@))
}

pub open spec fn kind_view(k: SourceNodeKind) -> KindView {
    match k {
        SourceNodeKind::Element { name, start_tag, attributes } => KindView::Element {
            prefix: name.prefix@,
            local: name.local@,
            namespace: option_view(name.namespace),
            start_tag,
            attributes: attributes_view(attributes@),
        },
        SourceNodeKind::Text => KindView::Text,
        SourceNodeKind::CData => KindView::CData,
        SourceNodeKind::Comment => KindView::Comment,
        SourceNodeKind::ProcessingInstruction => KindView::ProcessingInstruction,
    }
}

pub open spec fn node_view(n: SourceNode) -> NodeView {
    NodeView { kind: kind_view(n.kind), start: n.start, parent: n.parent }
}

pub open spec fn nodes_view(nodes: Seq<SourceNode>) -> Seq<NodeView> {
    nodes.map_values(|n: SourceNode| node_view(n))
}

/// A node without content, inside the innermost open element, spanning `start..end`;
/// outside the document element nothing is recorded.
pub open spec fn leaf_step(st: ParserState, kind: KindView, start: int, end: int) -> ParserState {
    if st.stack.len() > 0 {
        ParserState {
            nodes: st.nodes.push(NodeView { kind, start: start as usize, parent: Some(NodeId(st.stack.last())) }),
            ends: st.ends.push(end as usize),
            sub: st.sub.push((st.nodes.len() + 1) as usize),
            ..st
        }
    } else {
        st
    }
}

/// The prefix and local name of an element node.
pub open spec fn element_name(node: SourceNode) -> (Seq<u8>, Seq<u8>) {
    match node.kind {
        SourceNodeKind::Element { name, .. } => (name.prefix@, name.local@),
        _ => (seq![], seq![]),
    }
}

/// The first position at or after `i` where `pat` occurs.
pub open spec fn pattern_from(s: Seq<u8>, i: int, pat: Seq<u8>) -> Option<int>
    decreases s.len() - i,
{
    if i < 0 || i >= s.len() || i + pat.len() > s.len() {
        None
    } else if crate::bytes::occurs_at(s, i, pat) {
        Some(i)
    } else {
        pattern_from(s, i + 1, pat)
    }
}

proof fn lemma_pattern_found(s: Seq<u8>, from: int, pat: Seq<u8>, i: int)
    requires
        0 <= from <= i,
        pat.len() > 0,
        crate::bytes::occurs_at(s, i, pat),
        forall|j: int| from <= j < i ==> !crate::bytes::occurs_at(s, j, pat),
    ensures
        pattern_from(s, from, pat) == Some(i),
    decreases i - from,
{
    if from < i {
        lemma_pattern_found(s, from + 1, pat, i);
    }
}

proof fn lemma_pattern_missing(s: Seq<u8>, from: int, pat: Seq<u8>)
    requires
        0 <= from,
        pat.len() > 0,
        forall|j: int| from <= j ==> !crate::bytes::occurs_at(s, j, pat),
    ensures
        pattern_from(s, from, pat) is None,
    decreases s.len() - from,
{
    if from + pat.len() <= s.len() {
        lemma_pattern_missing(s, from + 1, pat);
    }
}

/// Text up to the next `<` (or the end): outside the document element it must be spaces.
pub open spec fn text_step(s: Seq<u8>, pos: int, st: ParserState) -> Option<(int, ParserState)> {
    let end = match byte_from(s, pos, 0x3cu8) {
        Some(e) => e,
        None => s.len() as int,
    };
    if st.open.len() == 0 && exists|k: int| pos <= k < end && !is_space(#[trigger] s[k]) {
        None
    } else {
        Some((end, leaf_step(st, KindView::Text, pos, end)))
    }
}

/// An end tag: it must close the innermost open element by the same name; the bindings
/// that element declared go out of scope.
pub open spec fn end_tag_step(s: Seq<u8>, pos: int, st: ParserState) -> Option<(int, ParserState)> {
    let n = name_end(s, pos + 2);
    let j = space_end(s, n);
    if st.open.len() == 0 || j >= s.len() || s[j] != 0x3eu8 || name_parts(s.subrange(pos + 2, n)) != st.open.last() {
        None
    } else {
        let open = st.open.drop_last();
        let (bindings, marks) = if st.marks.len() > 0 {
            let m = st.marks.last();
            (if 0 <= m <= st.bindings.len() { st.bindings.take(m) } else { st.bindings }, st.marks.drop_last())
        } else {
            (st.bindings, st.marks)
        };
        let p = st.stack.last() as int;
        Some(
            (
                j + 1,
                ParserState {
                    open,
                    bindings,
                    marks,
                    root_done: open.len() == 0,
                    nodes: st.nodes,
                    sub: st.sub.update(p, st.nodes.len() as usize),
                    ends: st.ends.update(p, (j + 1) as usize),
                    stack: st.stack.drop_last(),
                },
            ),
        )
    }
}

/// A start tag: none after the document element; it must lex, and a prefix on its name
/// must be bound, counting its own declarations. An element with content opens, with
/// its declarations in scope until it closes.
pub open spec fn start_tag_step(s: Seq<u8>, pos: int, st: ParserState) -> Option<(int, ParserState)> {
    if st.root_done {
        None
    } else {
        match lex_tag(s, pos) {
            None => None,
            Some((n, e, closing, attrs)) => {
                let bindings = st.bindings + declarations(s, attrs, attrs.len() as int);
                let name = name_parts(s.subrange(pos + 1, n));
                let node = NodeView {
                    kind: KindView::Element {
                        prefix: name.0,
                        local: name.1,
                        namespace: prefix_namespace(bindings, name.0),
                        start_tag: SourceSpan { start: pos as usize, end: e as usize },
                        attributes: plain_attributes(s, attrs, attrs.len() as int),
                    },
                    start: pos as usize,
                    parent: if st.stack.len() > 0 { Some(NodeId(st.stack.last())) } else { None },
                };
                if name.0.len() > 0 && prefix_namespace(bindings, name.0) is None {
                    None
                } else if closing {
                    Some(
                        (
                            e,
                            ParserState {
                                root_done: st.open.len() == 0,
                                nodes: st.nodes.push(node),
                                ends: st.ends.push(e as usize),
                                sub: st.sub.push((st.nodes.len() + 1) as usize),
                                ..st
                            },
                        ),
                    )
                } else {
                    Some(
                        (
                            e,
                            ParserState {
                                open: st.open.push(name),
                                bindings,
                                marks: st.marks.push(st.bindings.len() as int),
                                root_done: false,
                                nodes: st.nodes.push(node),
                                ends: st.ends.push(e as usize),
                                sub: st.sub.push(0usize),
                                stack: st.stack.push(st.nodes.len() as usize),
                            },
                        ),
                    )
                }
            },
        }
    }
}

/// One construct at `pos`: text, a processing instruction, a comment, a CDATA section
/// (only inside the document element), an end tag or a start tag; a document type
/// declaration is refused.
pub open spec fn parse_step(s: Seq<u8>, pos: int, st: ParserState) -> Option<(int, ParserState)> {
    if s[pos] != 0x3cu8 {
        text_step(s, pos, st)
    } else if pos + 1 < s.len() && s[pos + 1] == 0x3fu8 {
        match pattern_from(s, pos + 2, seq![0x3fu8, 0x3eu8]) {
            Some(c) => Some((c + 2, leaf_step(st, KindView::ProcessingInstruction, pos, c + 2))),
            None => None,
        }
    } else if crate::bytes::occurs_at(s, pos, seq![0x3cu8, 0x21u8, 0x2du8, 0x2du8]) {
        match pattern_from(s, pos + 4, seq![0x2du8, 0x2du8, 0x3eu8]) {
            Some(c) => Some((c + 3, leaf_step(st, KindView::Comment, pos, c + 3))),
            None => None,
        }
    } else if crate::bytes::occurs_at(s, pos, seq![0x3cu8, 0x21u8, 0x5bu8, 0x43u8, 0x44u8, 0x41u8, 0x54u8, 0x41u8, 0x5bu8]) {
        if st.open.len() == 0 {
            None
        } else {
            match pattern_from(s, pos + 9, seq![0x5du8, 0x5du8, 0x3eu8]) {
                Some(c) => Some((c + 3, leaf_step(st, KindView::CData, pos + 9, c))),
                None => None,
            }
        }
    } else if pos + 1 < s.len() && s[pos + 1] == 0x21u8 {
        None
    } else if pos + 1 < s.len() && s[pos + 1] == 0x2fu8 {
        end_tag_step(s, pos, st)
    } else {
        start_tag_step(s, pos, st)
    }
}

/// Parses the rest of a part from `pos`: the state at its end, when every construct
/// parses and the document element has closed.
pub open spec fn parse_run(s: Seq<u8>, pos: int, st: ParserState) -> Option<ParserState>
    decreases s.len() - pos,
{
    if pos >= s.len() {
        if st.root_done {
            Some(st)
        } else {
            None
        }
    } else if pos < 0 {
        None
    } else {
        match parse_step(s, pos, st) {
            Some((p, next)) => if pos < p <= s.len() {
                parse_run(s, p, next)
            } else {
                None
            },
            None => None,
        }
    }
}

/// Where parsing starts: after a UTF-8 byte order mark, if there is one.
pub open spec fn content_start(s: Seq<u8>) -> int {
    if s.len() >= 3 && s[0] == 0xefu8 && s[1] == 0xbbu8 && s[2] == 0xbfu8 {
        3
    } else {
        0
    }
}

pub open spec fn initial_state() -> ParserState {
    ParserState {
        open: seq![],
        bindings: seq![],
        marks: seq![],
        root_done: false,
        nodes: seq![],
        sub: seq![],
        ends: seq![],
        stack: seq![],
    }
}

/// The state at the end of parsing a whole part.
pub open spec fn parse_result(s: Seq<u8>) -> Option<ParserState> {
    parse_run(s, content_start(s), initial_state())
}

/// The bytes are a part that `SourceDocument::parse` accepts.
pub open spec fn accepts(s: Seq<u8>) -> bool {
    parse_result(s) is Some
}

/// The index of a part's bytes: its nodes, subtree ends and span ends.
pub open spec fn index_of(s: Seq<u8>) -> Option<(Seq<NodeView>, Seq<usize>, Seq<usize>)> {
    match parse_result(s) {
        Some(st) => Some((st.nodes, st.sub, st.ends)),
        None => None,
    }
}

spec fn open_names(nodes: Seq<SourceNode>, stack: Seq<usize>) -> Seq<(Seq<u8>, Seq<u8>)> {
    stack.map_values(|i: usize| element_name(nodes[i as int]))
}

proof fn lemma_open_names_push(nodes: Seq<SourceNode>, stack: Seq<usize>, node: SourceNode)
    requires
        forall|k: int| 0 <= k < stack.len() ==> #[trigger] stack[k] < nodes.len(),
    ensures
        open_names(nodes.push(node), stack) == open_names(nodes, stack),
        nodes.len() <= usize::MAX ==> open_names(nodes.push(node), stack.push(nodes.len() as usize)) == open_names(nodes, stack).push(
            element_name(node),
        ),
{
    assert(open_names(nodes.push(node), stack) =~= open_names(nodes, stack));
    if nodes.len() <= usize::MAX {
        assert(open_names(nodes.push(node), stack.push(nodes.len() as usize)) =~= open_names(nodes, stack).push(element_name(node)));
    }
}

proof fn lemma_nodes_view_push(nodes: Seq<SourceNode>, node: SourceNode)
    ensures
        nodes_view(nodes.push(node)) == nodes_view(nodes).push(node_view(node)),
{
    assert(nodes_view(nodes.push(node)) =~= nodes_view(nodes).push(node_view(node)));
}

/// The state of the parser between constructs.
struct Builder {
    nodes: Vec<SourceNode>,
    sub: Vec<usize>,
    ends: Vec<usize>,
    stack: Vec<usize>,
    bindings: Vec<NsBinding>,
    marks: Vec<usize>,
    root_done: bool,
}

impl Builder {
    spec fn state_of(&self) -> ParserState {
        ParserState {
            open: open_names(self.nodes@, self.stack@),
            bindings: binding_view(self.bindings@),
            marks: self.marks@.map_values(|m: usize| m as int),
            root_done: self.root_done,
            nodes: nodes_view(self.nodes@),
            sub: self.sub@,
            ends: self.ends@,
            stack: self.stack@,
        }
    }

    spec fn inv(&self, s: Seq<u8>, pos: int) -> bool {
        &&& pos <= s.len() <= usize::MAX
        &&& self.nodes@.len() <= pos
        &&& building(self.nodes@, self.sub@, self.ends@, self.stack@, pos, self.root_done)
    }

    /// Text up to the next `<`: a node inside the document element, whitespace outside it.
    fn text(&mut self, s: &[u8], pos: usize) -> (r: Result<usize, SourceError>)
        requires
            old(self).inv(s@, pos as int),
            pos < s@.len(),
            s@[pos as int] != 0x3cu8,
        ensures
            old(self).stack@.len() > 0 ==> r is Ok,
            r matches Ok(p) ==> {
                &&& pos < p <= s@.len()
                &&& final(self).inv(s@, p as int)
                &&& p < s@.len() ==> s@[p as int] == 0x3cu8
                &&& forall|j: int| pos <= j < p ==> s@[j] != 0x3cu8
                &&& old(self).stack@.len() == 0 ==> final(self).nodes@ == old(self).nodes@ && forall|j: int|
                    pos <= j < p ==> is_space(s@[j])
                &&& old(self).stack@.len() > 0 ==> final(self).nodes@ == old(self).nodes@.push(
                    SourceNode { kind: SourceNodeKind::Text, start: pos, parent: Some(NodeId(old(self).stack@.last())) },
                )
            },
            r is Err ==> old(self).stack@.len() == 0 && exists|k: int|
                pos <= k < s@.len() && !is_space(s@[k]) && forall|j: int| pos <= j <= k ==> s@[j] != 0x3cu8,
            match r {
                Ok(p) => text_step(s@, pos as int, old(self).state_of()) == Some((p as int, final(self).state_of())),
                Err(_) => text_step(s@, pos as int, old(self).state_of()) is None,
            },
    {
        proof {
            lemma_building_facts(self.nodes@, self.sub@, self.ends@, self.stack@, pos as int, self.root_done);
        }
        let len = s.len();
        let end = match find_byte_from(s, pos, 0x3cu8) {
            Some(e) => e,
            None => len,
        };
        if self.stack.len() == 0 {
            let mut k = pos;
            while k < end
                invariant
                    pos <= k <= end <= len,
                    len == s@.len(),
                    forall|j: int| pos <= j < end ==> s@[j] != 0x3cu8,
                    forall|j: int| pos <= j < k ==> is_space(s@[j]),
                    old(self).stack@.len() == 0,
                    old(self).state_of().open.len() == 0,
                    end as int == match byte_from(s@, pos as int, 0x3cu8) {
                        Some(e) => e,
                        None => s@.len() as int,
                    },
                decreases end - k,
            {
                if !space(s[k]) {
                    assert(forall|j: int| pos <= j <= k ==> s@[j] != 0x3cu8);
                    assert(!is_space(s@[k as int]));
                    return Err(SourceError::ContentOutsideRoot(k));
                }
                k += 1;
            }
            proof {
                lemma_advance(self.nodes@, self.sub@, self.ends@, self.stack@, pos as int, self.root_done, end as int);
            }
        } else {
            let top = self.stack[self.stack.len() - 1];
            let ghost before = self.state_of();
            let node = SourceNode { kind: SourceNodeKind::Text, start: pos, parent: Some(NodeId(top)) };
            proof {
                lemma_open_names_push(self.nodes@, self.stack@, node);
                lemma_nodes_view_push(self.nodes@, node);
            }
            add_node(
                &mut self.nodes,
                &mut self.sub,
                &mut self.ends,
                &mut self.stack,
                node,
                end,
                true,
                Ghost(pos as int),
                Ghost(end as int),
            );
            assert(self.state_of() =~= leaf_step(before, KindView::Text, pos as int, end as int));
        }
        Ok(end)
    }

    /// A comment, processing instruction or CDATA section spanning `start..end`, whose
    /// node covers `node_start..node_end`; recorded only inside the document element.
    fn leaf(
        &mut self,
        pos: usize,
        kind: SourceNodeKind,
        node_start: usize,
        node_end: usize,
        end: usize,
        Ghost(s): Ghost<Seq<u8>>,
    ) -> (r: Result<usize, SourceError>)
        requires
            old(self).inv(s, pos as int),
            pos <= node_start <= node_end <= end <= s.len(),
            pos < end,
            !(kind is Element),
        ensures
            r == Ok::<usize, SourceError>(end),
            final(self).inv(s, end as int),
            old(self).stack@.len() > 0 ==> final(self).nodes@ == old(self).nodes@.push(
                SourceNode { kind, start: node_start, parent: Some(NodeId(old(self).stack@.last())) },
            ),
            old(self).stack@.len() == 0 ==> final(self).nodes@ == old(self).nodes@,
            final(self).state_of() == leaf_step(old(self).state_of(), kind_view(kind), node_start as int, node_end as int),
    {
        proof {
            lemma_building_facts(self.nodes@, self.sub@, self.ends@, self.stack@, pos as int, self.root_done);
        }
        if self.stack.len() > 0 {
            let top = self.stack[self.stack.len() - 1];
            let ghost before = self.state_of();
            let ghost kv = kind_view(kind);
            let node = SourceNode { kind, start: node_start, parent: Some(NodeId(top)) };
            proof {
                lemma_open_names_push(self.nodes@, self.stack@, node);
                lemma_nodes_view_push(self.nodes@, node);
            }
            add_node(
                &mut self.nodes,
                &mut self.sub,
                &mut self.ends,
                &mut self.stack,
                node,
                node_end,
                true,
                Ghost(pos as int),
                Ghost(end as int),
            );
            assert(self.state_of() =~= leaf_step(before, kv, node_start as int, node_end as int));
        } else {
            proof {
                lemma_advance(self.nodes@, self.sub@, self.ends@, self.stack@, pos as int, self.root_done, end as int);
            }
        }
        Ok(end)
    }

    /// An end tag, which must close the innermost open element.
    #[verifier::spinoff_prover]
    fn end_tag(&mut self, s: &[u8], pos: usize) -> (r: Result<usize, SourceError>)
        requires
            old(self).inv(s@, pos as int),
            pos + 1 < s@.len(),
        ensures
            r is Ok <==> old(self).stack@.len() > 0 && end_tag_closes(
                s@,
                pos as int,
                old(self).nodes@[old(self).stack@.last() as int],
            ),
            r matches Ok(p) ==> {
                &&& pos < p
                &&& final(self).inv(s@, p as int)
                &&& final(self).nodes@ == old(self).nodes@
                &&& final(self).stack@ == old(self).stack@.drop_last()
                &&& exists|n: int| end_tag_span(s@, pos as int, n, p as int)
            },
            match r {
                Ok(p) => end_tag_step(s@, pos as int, old(self).state_of()) == Some((p as int, final(self).state_of())),
                Err(_) => end_tag_step(s@, pos as int, old(self).state_of()) is None,
            },
    {
        proof {
            lemma_building_facts(self.nodes@, self.sub@, self.ends@, self.stack@, pos as int, self.root_done);
        }
        let len = s.len();
        let ghost st = self.state_of();
        if self.stack.len() == 0 {
            return Err(SourceError::ContentOutsideRoot(pos));
        }
        proof {
            assert(st.open.last() == element_name(self.nodes@[self.stack@.last() as int]));
        }
        let name_end = scan_name(s, pos + 2);
        let j = skip_space(s, name_end);
        if j >= len || s[j] != 0x3eu8 {
            proof {
                assert forall|n: int, p: int| !end_tag_span(s@, pos as int, n, p) by {
                    if end_tag_span(s@, pos as int, n, p) {
                        lemma_end_tag_span(s@, pos as int, name_end as int, j as int, n, p);
                    }
                }
            }
            return Err(SourceError::MalformedMarkup(pos));
        }
        let (end_prefix, end_local) = split_name(s, pos + 2, name_end);
        let top = self.stack[self.stack.len() - 1];
        assert(end_tag_span(s@, pos as int, name_end as int, j + 1));
        let same = match &self.nodes[top].kind {
            SourceNodeKind::Element { name, .. } => bytes_equal(
                name.prefix.as_slice(),
                end_prefix.as_slice(),
            ) && bytes_equal(name.local.as_slice(), end_local.as_slice()),
            _ => false,
        };
        if !same {
            proof {
                assert forall|n: int, p: int|
                    !(end_tag_span(s@, pos as int, n, p) && names_element(self.nodes@[top as int], s@.subrange(pos + 2, n))) by {
                    if end_tag_span(s@, pos as int, n, p) {
                        lemma_end_tag_span(s@, pos as int, name_end as int, j as int, n, p);
                    }
                }
            }
            assert(name_parts(s@.subrange(pos + 2, name_end as int)) != st.open.last());
            return Err(SourceError::MismatchedEndTag(pos));
        }
        assert(names_element(self.nodes@[top as int], s@.subrange(pos + 2, name_end as int)));
        close_node(&self.nodes, &mut self.sub, &mut self.ends, &mut self.stack, j + 1, Ghost(pos as int));
        let ghost old_marks = self.marks@;
        let ghost old_bindings = self.bindings@;
        match self.marks.pop() {
            Some(mark) => {
                self.bindings.truncate(mark);
                proof {
                    if mark <= old_bindings.len() {
                        assert(binding_view(self.bindings@) =~= binding_view(old_bindings).take(mark as int));
                    }
                }
            },
            None => {},
        }
        self.root_done = self.stack.len() == 0;
        proof {
            assert(open_names(self.nodes@, self.stack@) =~= st.open.drop_last());
            assert(st.stack.last() == old(self).stack@.last());
            if old_marks.len() > 0 {
                assert(self.marks@.map_values(|m: usize| m as int) =~= st.marks.drop_last());
                assert(st.marks.last() == old_marks.last() as int);
            }
            assert(end_tag_span(s@, pos as int, name_end as int, (j + 1) as int));
            let ghost q = (j + 1) as int;
            let ghost at = pos as int;
            assert(end_tag_span(s@, at, name_end as int, q));
            assert(exists|n: int| end_tag_span(s@, at, n, q));
            assert(self.nodes@ == old(self).nodes@);
            assert(self.stack@ == old(self).stack@.drop_last());
            assert(self.inv(s@, (j + 1) as int));
        }
        Ok(j + 1)
    }

    /// A start tag: declares its namespaces, resolves its name and opens an element.
    fn start_tag(&mut self, s: &[u8], pos: usize) -> (r: Result<usize, SourceError>)
        requires
            old(self).inv(s@, pos as int),
            pos < s@.len(),
        ensures
            r matches Ok(p) ==> pos < p && final(self).inv(s@, p as int),
            match r {
                Ok(p) => start_tag_step(s@, pos as int, old(self).state_of()) == Some((p as int, final(self).state_of())),
                Err(_) => start_tag_step(s@, pos as int, old(self).state_of()) is None,
            },
    {
        proof {
            lemma_building_facts(self.nodes@, self.sub@, self.ends@, self.stack@, pos as int, self.root_done);
        }
        let ghost st = self.state_of();
        let len = s.len();
        if self.root_done {
            return Err(SourceError::ContentOutsideRoot(pos));
        }
        let tag = match lex_start_tag(s, pos) {
            Ok(t) => t,
            Err(e) => return Err(e),
        };
        let mark = self.bindings.len();
        let attributes = declare_attributes(&mut self.bindings, s, &tag);
        let (prefix, local) = split_name(s, pos + 1, tag.name_end);
        let namespace = resolve_prefix(&self.bindings, prefix.as_slice());
        let ghost attrs = raw_attributes_view(tag.attributes@);
        let ghost declared = binding_view(self.bindings@);
        assert(attrs.len() == tag.attributes@.len());
        assert(declared == st.bindings + declarations(s@, attrs, attrs.len() as int));
        if prefix.len() > 0 && namespace.is_none() {
            return Err(SourceError::UnboundPrefix(pos));
        }
        let parent = if self.stack.len() > 0 {
            Some(NodeId(self.stack[self.stack.len() - 1]))
        } else {
            None
        };
        let node = SourceNode {
            kind: SourceNodeKind::Element {
                name: XmlName { prefix, local, namespace },
                start_tag: SourceSpan { start: pos, end: tag.end },
                attributes,
            },
            start: pos,
            parent,
        };
        let leaf = tag.self_closing;
        proof {
            lemma_open_names_push(self.nodes@, self.stack@, node);
            lemma_nodes_view_push(self.nodes@, node);
            assert(element_name(node) == name_parts(s@.subrange(pos + 1, tag.name_end as int)));
        }
        let ghost old_marks = self.marks@;
        add_node(
            &mut self.nodes,
            &mut self.sub,
            &mut self.ends,
            &mut self.stack,
            node,
            tag.end,
            leaf,
            Ghost(pos as int),
            Ghost(tag.end as int),
        );
        if leaf {
            let ghost bb = self.bindings@;
            assert(binding_view(bb).len() == bb.len());
            assert(st.bindings.len() == mark);
            self.bindings.truncate(mark);
            assert(binding_view(self.bindings@) =~= binding_view(bb).take(mark as int));
            assert(binding_view(bb).take(mark as int) =~= st.bindings);
        } else {
            self.marks.push(mark);
            assert(self.marks@.map_values(|m: usize| m as int) =~= st.marks.push(mark as int));
        }
        self.root_done = self.stack.len() == 0;
        proof {
            let nv = node_view(node);
            if leaf {
                assert(self.state_of() =~= ParserState {
                    root_done: st.open.len() == 0,
                    nodes: st.nodes.push(nv),
                    ends: st.ends.push(tag.end),
                    sub: st.sub.push((st.nodes.len() + 1) as usize),
                    ..st
                });
            } else {
                assert(self.state_of() =~= ParserState {
                    open: st.open.push(name_parts(s@.subrange(pos + 1, tag.name_end as int))),
                    bindings: declared,
                    marks: st.marks.push(mark as int),
                    root_done: false,
                    nodes: st.nodes.push(nv),
                    ends: st.ends.push(tag.end),
                    sub: st.sub.push(0usize),
                    stack: st.stack.push(st.nodes.len() as usize),
                });
            }
        }
        Ok(tag.end)
    }

    /// One construct starting at `pos`.
    fn step(&mut self, s: &[u8], pos: usize) -> (r: Result<usize, SourceError>)
        requires
            old(self).inv(s@, pos as int),
            pos < s@.len(),
        ensures
            r matches Ok(p) ==> pos < p && final(self).inv(s@, p as int),
            match r {
                Ok(p) => parse_step(s@, pos as int, old(self).state_of()) == Some((p as int, final(self).state_of())),
                Err(_) => parse_step(s@, pos as int, old(self).state_of()) is None,
            },
    {
        let len = s.len();
        if s[pos] != 0x3cu8 {
            return self.text(s, pos);
        }
        if pos + 1 < len && s[pos + 1] == 0x3fu8 {
            let pat: &[u8] = &[0x3fu8, 0x3eu8];
            assert(pat@ =~= seq![0x3fu8, 0x3eu8]);
            let close = match crate::bytes::find_from(s, pos + 2, pat) {
                Some(c) => c,
                None => {
                    proof {
                        lemma_pattern_missing(s@, pos + 2, pat@);
                    }
                    return Err(SourceError::UnexpectedEnd);
                },
            };
            proof {
                lemma_pattern_found(s@, pos + 2, pat@, close as int);
            }
            return self.leaf(pos, SourceNodeKind::ProcessingInstruction, pos, close + 2, close + 2, Ghost(s@));
        }
        let comment: &[u8] = &[0x3cu8, 0x21u8, 0x2du8, 0x2du8];
        assert(comment@ =~= seq![0x3cu8, 0x21u8, 0x2du8, 0x2du8]);
        if crate::bytes::matches_at(s, pos, comment) {
            let pat: &[u8] = &[0x2du8, 0x2du8, 0x3eu8];
            assert(pat@ =~= seq![0x2du8, 0x2du8, 0x3eu8]);
            let close = match crate::bytes::find_from(s, pos + 4, pat) {
                Some(c) => c,
                None => {
                    proof {
                        lemma_pattern_missing(s@, pos + 4, pat@);
                    }
                    return Err(SourceError::UnexpectedEnd);
                },
            };
            proof {
                lemma_pattern_found(s@, pos + 4, pat@, close as int);
            }
            return self.leaf(pos, SourceNodeKind::Comment, pos, close + 3, close + 3, Ghost(s@));
        }
        let cdata: &[u8] = &[0x3cu8, 0x21u8, 0x5bu8, 0x43u8, 0x44u8, 0x41u8, 0x54u8, 0x41u8, 0x5bu8];
        assert(cdata@ =~= seq![0x3cu8, 0x21u8, 0x5bu8, 0x43u8, 0x44u8, 0x41u8, 0x54u8, 0x41u8, 0x5bu8]);
        if crate::bytes::matches_at(s, pos, cdata) {
            if self.stack.len() == 0 {
                assert(self.state_of().open.len() == 0);
                return Err(SourceError::ContentOutsideRoot(pos));
            }
            let pat: &[u8] = &[0x5du8, 0x5du8, 0x3eu8];
            assert(pat@ =~= seq![0x5du8, 0x5du8, 0x3eu8]);
            let close = match crate::bytes::find_from(s, pos + 9, pat) {
                Some(c) => c,
                None => {
                    proof {
                        lemma_pattern_missing(s@, pos + 9, pat@);
                    }
                    return Err(SourceError::UnexpectedEnd);
                },
            };
            proof {
                lemma_pattern_found(s@, pos + 9, pat@, close as int);
            }
            return self.leaf(pos, SourceNodeKind::CData, pos + 9, close, close + 3, Ghost(s@));
        }
        if pos + 1 < len && s[pos + 1] == 0x21u8 {
            return Err(SourceError::UnsupportedDoctype(pos));
        }
        if pos + 1 < len && s[pos + 1] == 0x2fu8 {
            return self.end_tag(s, pos);
        }
        self.start_tag(s, pos)
    }
}

impl SourceDocument {
    /// The index is the one parsing its bytes gives: its nodes, subtree ends and span ends.
    #[verifier::opaque]
    pub open spec fn faithful(&self) -> bool {
        index_of(self.bytes@) == Some((nodes_view(self.nodes@), self.subtree_ends@, self.span_ends@))
    }

    /// Indexes an XML part: every element, text region, CDATA section, comment and
    /// processing instruction inside the document element becomes a node, in document
    /// order, with its byte span in the unchanged input.
    pub fn parse(bytes: Vec<u8>) -> (r: Result<SourceDocument, SourceError>)
        ensures
            r matches Ok(d) ==> d.wf() && d.bytes@ == bytes@ && d.faithful(),
            r is Ok <==> accepts(bytes@),
    {
        let s = bytes.as_slice();
        let len = s.len();
        let mut b = Builder {
            nodes: Vec::new(),
            sub: Vec::new(),
            ends: Vec::new(),
            stack: Vec::new(),
            bindings: Vec::new(),
            marks: Vec::new(),
            root_done: false,
        };
        let mut pos: usize = 0;
        if len >= 3 && s[0] == 0xefu8 && s[1] == 0xbbu8 && s[2] == 0xbfu8 {
            pos = 3;
        }
        proof {
            lemma_empty_building(pos as int);
            assert(b.state_of() =~= initial_state());
            assert(pos as int == content_start(s@));
        }
        while pos < len
            invariant
                len == s@.len(),
                s@ == bytes@,
                b.inv(s@, pos as int),
                parse_result(s@) == parse_run(s@, pos as int, b.state_of()),
            decreases len - pos,
        {
            pos = match b.step(s, pos) {
                Ok(p) => p,
                Err(e) => return Err(e),
            };
        }
        if !b.root_done {
            if b.nodes.len() == 0 {
                return Err(SourceError::MissingRoot);
            }
            return Err(SourceError::UnexpectedEnd);
        }
        proof {
            lemma_building_facts(b.nodes@, b.sub@, b.ends@, b.stack@, pos as int, b.root_done);
            assert(b.stack@ =~= Seq::<usize>::empty());
            lemma_finished(b.nodes@, b.sub@, b.ends@, pos as int, len as int);
        }
        let doc = SourceDocument { bytes, nodes: b.nodes, span_ends: b.ends, subtree_ends: b.sub };
        proof {
            lemma_document_wf(&doc);
            reveal(SourceDocument::faithful);
        }
        Ok(doc)
    }
}


// ---------------------------------------------------------------------------
// Reading the index
// ---------------------------------------------------------------------------

proof fn lemma_chain(d: &SourceDocument, p: int, j: int)
    requires
        d.wf(),
        0 <= p < d.nodes@.len(),
        p < j <= d.subtree_ends@[p],
        forall|q: int| p < q < j ==> #[trigger] d.subtree_ends@[q] <= j,
    ensures
        ({
            let c = d.children_from(j, d.subtree_ends@[p] as int);
            &&& forall|k: int|
                0 <= k < c.len() ==> j <= (#[trigger] c[k]).0 < d.subtree_ends@[p] && d.spec_parent(
                    c[k].0 as int,
                ) == Some(NodeId(p as usize))
            &&& forall|k: int, l: int| 0 <= k < l < c.len() ==> (#[trigger] c[k]).0 < (#[trigger] c[l]).0
        }),
    decreases d.subtree_ends@[p] - j,
{
    let stop = d.subtree_ends@[p] as int;
    let sub = d.subtree_ends@;
    let n = d.nodes@.len() as int;
    let parents = parents_of(d.nodes@);
    if j < stop {
        assert(closed(sub, p));
        assert(closed(sub, j) && sub[j] <= sub[p]);
        assert(parents[j] == d.nodes@[j].parent);
        let pj = pid(parents[j]);
        assert(pj < j);
        assert(closed(sub, pj));
        if pj < p {
            assert(sub[p] <= j);
        }
        if pj > p {
            assert(sub[pj] <= j);
        }
        assert(pj == p);
        let next = sub[j] as int;
        assert forall|q: int| p < q < next implies #[trigger] sub[q] <= next by {
            if q > j {
                assert(closed(sub, j) && j < q < sub[j]);
            }
        }
        lemma_chain(d, p, next);
        let c = d.children_from(j, stop);
        let rest = d.children_from(next, stop);
        assert(c == seq![NodeId(j as usize)] + rest);
        assert forall|k: int| 0 <= k < c.len() implies j <= (#[trigger] c[k]).0 < stop
            && d.spec_parent(c[k].0 as int) == Some(NodeId(p as usize)) by {
            if k > 0 {
                assert(c[k] == rest[k - 1]);
            } else {
                assert(d.nodes@[j].parent is Some);
            }
        }
        assert forall|k: int, l: int| 0 <= k < l < c.len() implies (#[trigger] c[k]).0 < (
        #[trigger] c[l]).0 by {
            assert(c[l] == rest[l - 1]);
            if k > 0 {
                assert(c[k] == rest[k - 1]);
            }
        }
    }
}

/// Each child of a node is a node whose parent is that node, in increasing order.
pub proof fn lemma_children(d: &SourceDocument, p: int)
    requires
        d.wf(),
        0 <= p < d.nodes@.len(),
    ensures
        forall|k: int|
            0 <= k < d.spec_children(p).len() ==> p < (#[trigger] d.spec_children(p)[k]).0
                < d.subtree_ends@[p] && d.spec_parent(d.spec_children(p)[k].0 as int) == Some(
                NodeId(p as usize),
            ),
        forall|k: int, l: int|
            0 <= k < l < d.spec_children(p).len() ==> (#[trigger] d.spec_children(p)[k]).0 < (
            #[trigger] d.spec_children(p)[l]).0,
{
    lemma_chain(d, p, p + 1);
}

/// A node whose parent is `p` is one of the children of `p`.
pub proof fn lemma_child_listed(d: &SourceDocument, p: int, c: int)
    requires
        d.wf(),
        0 <= p < d.nodes@.len(),
        0 <= c < d.nodes@.len(),
        d.spec_parent(c) == Some(NodeId(p as usize)),
    ensures
        exists|k: int| 0 <= k < d.spec_children(p).len() && (#[trigger] d.spec_children(p)[k]).0 == c,
{
    let parents = parents_of(d.nodes@);
    assert(parents[c] == d.nodes@[c].parent);
    if c == 0 {
        assert(parents[0] is None);
    }
    assert(p < c);
    lemma_listed_from(d, p, p + 1, c);
    let all = d.children_from(p + 1, d.subtree_ends@[p] as int);
    assert(all == d.spec_children(p));
    let k = choose|k: int| 0 <= k < all.len() && (#[trigger] all[k]).0 == c;
    assert(d.spec_children(p)[k].0 == c);
}

proof fn lemma_listed_from(d: &SourceDocument, p: int, j: int, c: int)
    requires
        d.wf(),
        0 <= p < d.nodes@.len(),
        0 <= c < d.nodes@.len(),
        d.spec_parent(c) == Some(NodeId(p as usize)),
        p < j <= c,
        forall|q: int| p < q < j ==> #[trigger] d.subtree_ends@[q] <= j,
    ensures
        exists|k: int| 0 <= k < d.children_from(j, d.subtree_ends@[p] as int).len() && (#[trigger] d.children_from(j, d.subtree_ends@[p] as int)[k]).0 == c,
    decreases c - j,
{
    let sub = d.subtree_ends@;
    let stop = sub[p] as int;
    let parents = parents_of(d.nodes@);
    assert(parents[c] == d.nodes@[c].parent);
    assert(closed(sub, p));
    assert(c < stop);
    assert(closed(sub, j) && sub[j] <= sub[p]);
    let chain = d.children_from(j, stop);
    assert(chain == seq![NodeId(j as usize)] + d.children_from(sub[j] as int, stop));
    if j == c {
        assert(chain[0].0 == c);
    } else {
        // c lies outside the subtree of j: its parent p is the innermost node holding it
        assert(pid(parents[c]) == p);
        assert(p < j < c);
        assert(sub[j] <= c);
        let next = sub[j] as int;
        assert forall|q: int| p < q < next implies #[trigger] sub[q] <= next by {
            if q > j {
                assert(closed(sub, j) && j < q < sub[j]);
            }
        }
        lemma_listed_from(d, p, next, c);
        let rest = d.children_from(next, stop);
        let k = choose|k: int| 0 <= k < rest.len() && (#[trigger] rest[k]).0 == c;
        assert(chain[k + 1] == rest[k]);
    }
}

impl SourceDocument {
    /// The document element.
    pub fn root(&self) -> (r: NodeId)
        ensures
            r.0 == 0,
    {
        NodeId(0)
    }

    /// The number of nodes; node ids are the indices below it.
    pub fn node_count(&self) -> (r: usize)
        ensures
            r == self.nodes@.len(),
    {
        self.nodes.len()
    }

    pub fn node(&self, id: NodeId) -> (r: Option<&SourceNode>)
        ensures
            match r {
                Some(node) => id.0 < self.nodes@.len() && *node == self.nodes@[id.0 as int],
                None => id.0 >= self.nodes@.len(),
            },
    {
        if id.0 < self.nodes.len() {
            Some(&self.nodes[id.0])
        } else {
            None
        }
    }

    /// The unchanged bytes the index was built from.
    pub fn original_bytes(&self) -> (r: &[u8])
        ensures
            r@ == self.bytes@,
    {
        self.bytes.as_slice()
    }

    pub fn span(&self, id: NodeId) -> (r: SourceSpan)
        requires
            self.wf(),
            self.valid_id(id),
        ensures
            r == self.spec_span(id.0 as int),
            r.start <= r.end <= self.bytes@.len(),
    {
        SourceSpan { start: self.nodes[id.0].start, end: self.span_ends[id.0] }
    }

    pub fn parent(&self, id: NodeId) -> (r: Option<NodeId>)
        requires
            self.wf(),
            self.valid_id(id),
        ensures
            r == self.spec_parent(id.0 as int),
            r matches Some(p) ==> p.0 < id.0,
            id.0 > 0 <==> r is Some,
    {
        proof {
            assert(parents_of(self.nodes@)[id.0 as int] == self.nodes@[id.0 as int].parent);
        }
        self.nodes[id.0].parent
    }

    /// The end of the node's subtree: its descendants are the ids from `id + 1` up to it.
    pub fn subtree_end(&self, id: NodeId) -> (r: usize)
        requires
            self.wf(),
            self.valid_id(id),
        ensures
            r == self.subtree_ends@[id.0 as int],
            id.0 < r <= self.nodes@.len(),
    {
        self.subtree_ends[id.0]
    }

    /// The children of a node in document order.
    pub fn children(&self, id: NodeId) -> (r: Vec<NodeId>)
        requires
            self.wf(),
            self.valid_id(id),
        ensures
            r@ == self.spec_children(id.0 as int),
            forall|k: int|
                0 <= k < r@.len() ==> id.0 < (#[trigger] r@[k]).0 < self.subtree_ends@[id.0 as int]
                    && self.spec_parent(r@[k].0 as int) == Some(id),
            forall|k: int, l: int| 0 <= k < l < r@.len() ==> (#[trigger] r@[k]).0 < (#[trigger] r@[l]).0,
    {
        let p = id.0;
        let stop = self.subtree_ends[p];
        let mut out: Vec<NodeId> = Vec::new();
        let mut j = p + 1;
        proof {
            lemma_children(self, p as int);
            assert(closed(self.subtree_ends@, p as int));
        }
        while j < stop
            invariant
                self.wf(),
                p < self.nodes@.len(),
                stop == self.subtree_ends@[p as int],
                p < j <= stop,
                self.spec_children(p as int) == out@ + self.children_from(j as int, stop as int),
            decreases stop - j,
        {
            proof {
                assert(closed(self.subtree_ends@, p as int));
                assert(closed(self.subtree_ends@, j as int) && self.subtree_ends@[j as int]
                    <= self.subtree_ends@[p as int]);
            }
            let next = self.subtree_ends[j];
            proof {
                let rest = self.children_from(next as int, stop as int);
                assert(self.children_from(j as int, stop as int) == seq![NodeId(j)] + rest);
                assert(out@ + (seq![NodeId(j)] + rest) =~= out@.push(NodeId(j)) + rest);
            }
            out.push(NodeId(j));
            j = next;
        }
        proof {
            assert(out@ + self.children_from(j as int, stop as int) =~= out@);
        }
        out
    }

    /// Whether the node is an element whose local name is `local`.
    pub fn has_local_name(&self, id: NodeId, local: &str) -> (r: bool)
        requires
            self.valid_id(id),
        ensures
            r == (self.element_local(id.0 as int) == Some(local.spec_bytes())),
    {
        match &self.nodes[id.0].kind {
            SourceNodeKind::Element { name, .. } => bytes_are(name.local.as_slice(), local),
            _ => false,
        }
    }

    /// Whether the node is an element in the given namespace with the given local name.
    pub fn is_element_named(&self, id: NodeId, namespace: &str, local: &str) -> (r: bool)
        ensures
            r == self.is_named(id.0 as int, namespace.spec_bytes(), local.spec_bytes()),
    {
        if id.0 >= self.nodes.len() {
            return false;
        }
        match &self.nodes[id.0].kind {
            SourceNodeKind::Element { name, .. } => {
                bytes_are(name.local.as_slice(), local) && match &name.namespace {
                    Some(ns) => bytes_are(ns.as_slice(), namespace),
                    None => false,
                }
            },
            _ => false,
        }
    }

    /// The decoded value of the node's first attribute with the given local name.
    pub fn attribute(&self, id: NodeId, local: &str) -> (r: Option<Vec<u8>>)
        requires
            self.valid_id(id),
        ensures
            match r {
                Some(v) => self.spec_attribute(id.0 as int, local.spec_bytes()) == Some(v@),
                None => self.spec_attribute(id.0 as int, local.spec_bytes()) is None,
            },
    {
        let node = &self.nodes[id.0];
        assert(*node == self.nodes@[id.0 as int]);
        match &node.kind {
            SourceNodeKind::Element { attributes, .. } => {
                assert(self.spec_attribute(id.0 as int, local.spec_bytes()) == attribute_from(
                    attributes@,
                    0,
                    local.spec_bytes(),
                ));
                let mut i: usize = 0;
                while i < attributes.len()
                    invariant
                        i <= attributes@.len(),
                        self.spec_attribute(id.0 as int, local.spec_bytes()) == attribute_from(
                            attributes@,
                            0,
                            local.spec_bytes(),
                        ),
                        attribute_from(attributes@, 0, local.spec_bytes()) == attribute_from(
                            attributes@,
                            i as int,
                            local.spec_bytes(),
                        ),
                    decreases attributes@.len() - i,
                {
                    if bytes_are(attributes[i].local.as_slice(), local) {
                        let v = copy_bytes(attributes[i].value.as_slice());
                        assert(attribute_from(attributes@, i as int, local.spec_bytes()) == Some(
                            attributes@[i as int].value@,
                        ));
                        return Some(v);
                    }
                    i += 1;
                }
                None
            },
            _ => None,
        }
    }
}

} // verus!
