use vstd::prelude::*;

use vstd::string::{StrSliceExecFns, StringSliceAdditionalSpecFns};

use crate::bytes::{copy_range, push_bytes, push_str, utf8_string};
use crate::document::{spec_body, DocxDocument};
use crate::escape::{escape, escaped};
use crate::numbers::{parse_usize, unsigned_value};
use crate::order::{stable_key_order, stable_order};
use crate::protocol::{unsupported, FailureCode, OperationFailure, ParagraphPlacement};
use crate::source::{NodeId, SourceDocument, SourceNodeKind, SourceSpan};
use crate::wordml::{child, children_named, named_among, spec_child};

verus! {

/// A replacement of the bytes `span.start..span.end` of a part.
#[derive(Clone, Debug)]
pub struct Patch {
    pub span: SourceSpan,
    pub replacement: Vec<u8>,
}

/// The sort keys of patches: where they start, then where they end.
pub open spec fn span_keys(ps: Seq<Patch>) -> Seq<(usize, usize)> {
    Seq::new(ps.len(), |k: int| (ps[k].span.start, ps[k].span.end))
}

/// The patches in the given order.
pub open spec fn arranged(ps: Seq<Patch>, order: Seq<usize>) -> Seq<Patch> {
    Seq::new(order.len(), |k: int| ps[order[k] as int])
}

/// Each patch ends before the next one starts.
pub open spec fn disjoint(qs: Seq<Patch>) -> bool {
    forall|k: int| 0 <= k < qs.len() - 1 ==> (#[trigger] qs[k]).span.end <= qs[k + 1].span.start
}

/// Every patch lies within a part of `len` bytes.
pub open spec fn in_bounds(ps: Seq<Patch>, len: int) -> bool {
    forall|k: int| 0 <= k < ps.len() ==> (#[trigger] ps[k]).span.start <= ps[k].span.end <= len
}

/// Where the `k`-th patch of `qs` (in order) leaves off; 0 before the first.
pub open spec fn end_before(qs: Seq<Patch>, k: int) -> int {
    if k <= 0 {
        0
    } else {
        qs[k - 1].span.end as int
    }
}

/// The bytes of `b` up to the end of the `k`-th patch, with the first `k` patches applied.
pub open spec fn patched_upto(b: Seq<u8>, qs: Seq<Patch>, k: int) -> Seq<u8>
    decreases k,
{
    if k <= 0 {
        seq![]
    } else {
        patched_upto(b, qs, k - 1) + b.subrange(end_before(qs, k - 1), qs[k - 1].span.start as int)
            + qs[k - 1].replacement@
    }
}

/// `b` with the ordered, disjoint patches `qs` applied: every byte outside the patches is
/// kept, each patched range is replaced.
pub open spec fn patched(b: Seq<u8>, qs: Seq<Patch>) -> Seq<u8> {
    patched_upto(b, qs, qs.len() as int) + b.subrange(end_before(qs, qs.len() as int), b.len() as int)
}

fn extend_from(out: &mut Vec<u8>, s: &[u8], from: usize, to: usize)
    requires
        from <= to <= s@.len(),
    ensures
        final(out)@ == old(out)@ + s@.subrange(from as int, to as int),
{
    let mut i = from;
    while i < to
        invariant
            from <= i <= to <= s@.len(),
            out@ == old(out)@ + s@.subrange(from as int, i as int),
        decreases to - i,
    {
        out.push(s[i]);
        i += 1;
        assert(out@ =~= old(out)@ + s@.subrange(from as int, i as int));
    }
}

/// Applies patches to a part: they are ordered by where they start (then end), equal
/// ones kept in the order given, and refused when two of them overlap.
pub fn apply_patches(source: &SourceDocument, patches: Vec<Patch>) -> (r: Result<Vec<u8>, OperationFailure>)
    requires
        in_bounds(patches@, source.bytes@.len() as int),
    ensures
        exists|order: Seq<usize>|
            stable_order(order, span_keys(patches@), patches@.len() as int) && match r {
                Ok(out) => disjoint(arranged(patches@, order)) && out@ == patched(
                    source.bytes@,
                    arranged(patches@, order),
                ),
                Err(e) => !disjoint(arranged(patches@, order)) && e.code == FailureCode::UnsupportedOperation,
            },
{
    let n = patches.len();
    let mut keys: Vec<(usize, usize)> = Vec::new();
    let mut k: usize = 0;
    while k < n
        invariant
            n == patches@.len(),
            k <= n,
            keys@.len() == k,
            forall|j: int| 0 <= j < k ==> #[trigger] keys@[j] == (patches@[j].span.start, patches@[j].span.end),
        decreases n - k,
    {
        keys.push((patches[k].span.start, patches[k].span.end));
        k += 1;
    }
    proof {
        assert(keys@ =~= span_keys(patches@));
    }
    let order = stable_key_order(&keys);
    let ghost qs = arranged(patches@, order@);
    let mut k: usize = 1;
    while k < n
        invariant
            n == patches@.len(),
            order@.len() == n,
            forall|j: int| 0 <= j < n ==> (#[trigger] order@[j]) < n,
            qs == arranged(patches@, order@),
            stable_order(order@, span_keys(patches@), n as int),
            1 <= k,
            forall|j: int| 0 <= j < k - 1 && j < n - 1 ==> (#[trigger] qs[j]).span.end <= qs[j + 1].span.start,
        decreases n - k,
    {
        if patches[order[k - 1]].span.end > patches[order[k]].span.start {
            proof {
                assert(qs[k - 1] == patches@[order@[k - 1] as int]);
                assert(qs[k as int] == patches@[order@[k as int] as int]);
                assert(!(qs[k - 1].span.end <= qs[(k - 1) + 1].span.start));
                assert(!disjoint(qs));
            }
            return Err(unsupported("replace_text generated overlapping source patches"));
        }
        proof {
            assert(qs[k - 1] == patches@[order@[k - 1] as int]);
            assert(qs[k as int] == patches@[order@[k as int] as int]);
        }
        k += 1;
    }
    assert(disjoint(qs));
    let bytes = source.original_bytes();
    let mut out: Vec<u8> = Vec::new();
    let mut pos: usize = 0;
    let mut k: usize = 0;
    while k < n
        invariant
            n == patches@.len(),
            order@.len() == n,
            forall|j: int| 0 <= j < n ==> (#[trigger] order@[j]) < n,
            qs == arranged(patches@, order@),
            disjoint(qs),
            in_bounds(patches@, bytes@.len() as int),
            bytes@ == source.bytes@,
            k <= n,
            pos == end_before(qs, k as int),
            pos <= bytes@.len(),
            k < n ==> pos <= qs[k as int].span.start,
            out@ == patched_upto(bytes@, qs, k as int),
        decreases n - k,
    {
        let q = &patches[order[k]];
        proof {
            assert(qs[k as int] == patches@[order@[k as int] as int]);
            assert(patches@[order@[k as int] as int].span.start <= patches@[order@[k as int] as int].span.end <= bytes@.len());
        }
        extend_from(&mut out, bytes, pos, q.span.start);
        push_bytes(&mut out, q.replacement.as_slice());
        pos = q.span.end;
        proof {
            assert(out@ =~= patched_upto(bytes@, qs, k as int + 1));
            if k + 1 < n {
                assert(qs[k as int].span.end <= qs[k + 1].span.start);
            }
        }
        k += 1;
    }
    extend_from(&mut out, bytes, pos, bytes.len());
    Ok(out)
}

/// Applying a single patch replaces its range and keeps everything else.
pub proof fn lemma_single_patch(b: Seq<u8>, p: Patch, order: Seq<usize>)
    requires
        stable_order(order, span_keys(seq![p]), 1),
        p.span.start <= p.span.end <= b.len(),
    ensures
        disjoint(arranged(seq![p], order)),
        patched(b, arranged(seq![p], order)) == b.subrange(0, p.span.start as int) + p.replacement@
            + b.subrange(p.span.end as int, b.len() as int),
{
    assert(order[0] < 1);
    let qs = arranged(seq![p], order);
    assert(qs =~= seq![p]);
    assert(patched_upto(b, qs, 0) =~= Seq::<u8>::empty());
    assert(patched_upto(b, qs, 1) =~= b.subrange(0, p.span.start as int) + p.replacement@);
}

/// `local`, qualified with `prefix` when there is one.
pub open spec fn qualified(prefix: Seq<u8>, local: Seq<u8>) -> Seq<u8> {
    if prefix.len() == 0 {
        local
    } else {
        prefix + seq![0x3au8] + local
    }
}

pub fn qualify(prefix: &[u8], local: &str) -> (r: Vec<u8>)
    ensures
        r@ == qualified(prefix@, local.spec_bytes()),
{
    let mut out: Vec<u8> = Vec::new();
    if prefix.len() > 0 {
        push_bytes(&mut out, prefix);
        out.push(0x3au8);
    }
    push_str(&mut out, local);
    proof {
        if prefix@.len() == 0 {
            assert(out@ =~= local.spec_bytes());
        }
    }
    out
}

/// The attribute-name prefix for a namespace prefix: `prefix:`, or nothing.
pub fn attr_prefix(prefix: &[u8]) -> (r: Vec<u8>)
    ensures
        r@ == (if prefix@.len() == 0 {
            Seq::<u8>::empty()
        } else {
            prefix@ + seq![0x3au8]
        }),
{
    let mut out: Vec<u8> = Vec::new();
    if prefix.len() > 0 {
        push_bytes(&mut out, prefix);
        out.push(0x3au8);
    }
    proof {
        if prefix@.len() == 0 {
            assert(out@ =~= Seq::<u8>::empty());
        }
    }
    out
}

/// ASCII whitespace, as `u8::is_ascii_whitespace` knows it.
pub open spec fn ascii_space(b: u8) -> bool {
    b == 0x20u8 || b == 0x09u8 || b == 0x0au8 || b == 0x0cu8 || b == 0x0du8
}

/// A byte that ends the element name of a start tag.
pub open spec fn name_stop(b: u8) -> bool {
    ascii_space(b) || b == 0x3eu8 || b == 0x2fu8
}

/// The first index at or after `from` whose byte ends a name, or the length.
pub open spec fn first_stop(tag: Seq<u8>, from: int) -> int
    decreases tag.len() - from,
{
    if from >= tag.len() {
        tag.len() as int
    } else if name_stop(tag[from]) {
        from
    } else {
        first_stop(tag, from + 1)
    }
}

/// The bytes of an element's start tag.
pub open spec fn element_tag(d: &SourceDocument, i: int) -> Option<Seq<u8>> {
    match d.nodes@[i].kind {
        SourceNodeKind::Element { start_tag, .. } => Some(
            d.bytes@.subrange(start_tag.start as int, start_tag.end as int),
        ),
        _ => None,
    }
}

/// The namespace prefix of an element name whose local part is `local`.
pub open spec fn prefix_of(name: Seq<u8>, local: Seq<u8>) -> Option<Seq<u8>> {
    let n = name.len() - local.len();
    if name == local {
        Some(seq![])
    } else if name.len() > local.len() && name.subrange(n, name.len() as int) == local && name[n - 1]
        == 0x3au8 {
        Some(name.subrange(0, n - 1))
    } else {
        None
    }
}

/// The prefix with which the element `i` is written in the source, when its start tag is
/// UTF-8 and names an element with local name `local`.
pub open spec fn spec_word_prefix(d: &SourceDocument, i: int, local: Seq<u8>) -> Option<Seq<u8>> {
    match element_tag(d, i) {
        Some(tag) => if vstd::utf8::valid_utf8(tag) && tag.len() > 0 && tag[0] == 0x3cu8 {
            let end = first_stop(tag, 1);
            prefix_of(tag.subrange(1, end), local)
        } else {
            None
        },
        None => None,
    }
}

fn find_name_stop(tag: &[u8], from: usize) -> (r: usize)
    requires
        from <= tag@.len(),
    ensures
        r == first_stop(tag@, from as int),
        from <= r <= tag@.len(),
{
    let mut i = from;
    while i < tag.len()
        invariant
            from <= i <= tag@.len(),
            first_stop(tag@, from as int) == first_stop(tag@, i as int),
        decreases tag@.len() - i,
    {
        let b = tag[i];
        if b == 0x20u8 || b == 0x09u8 || b == 0x0au8 || b == 0x0cu8 || b == 0x0du8 || b == 0x3eu8
            || b == 0x2fu8 {
            return i;
        }
        i += 1;
    }
    i
}

fn prefix_of_name(name: &[u8], local: &str) -> (r: Option<Vec<u8>>)
    ensures
        match r {
            Some(p) => prefix_of(name@, local.spec_bytes()) == Some(p@),
            None => prefix_of(name@, local.spec_bytes()) is None,
        },
{
    let l = local.as_bytes();
    if crate::bytes::bytes_equal(name, l) {
        return Some(Vec::new());
    }
    if name.len() > l.len() {
        let n = name.len() - l.len();
        let tail = copy_range(name, n, name.len());
        if crate::bytes::bytes_equal(tail.as_slice(), l) && name[n - 1] == 0x3au8 {
            return Some(copy_range(name, 0, n - 1));
        }
    }
    None
}

/// The namespace prefix with which the element `id` is written, checking that its
/// local name is `expected_local`.
pub fn word_prefix_for(source: &SourceDocument, id: NodeId, expected_local: &str) -> (r: Result<Vec<u8>, OperationFailure>)
    requires
        source.wf(),
        source.valid_id(id),
    ensures
        match r {
            Ok(p) => spec_word_prefix(source, id.0 as int, expected_local.spec_bytes()) == Some(p@),
            Err(e) => spec_word_prefix(source, id.0 as int, expected_local.spec_bytes()) is None
                && e.code == FailureCode::UnsupportedOperation,
        },
{
    let span = match &source.nodes[id.0].kind {
        SourceNodeKind::Element { start_tag, .. } => *start_tag,
        _ => return Err(unsupported("anchor paragraph has no source tag")),
    };
    proof {
        assert(crate::source::tag_within(source.nodes@[id.0 as int], source.span_ends@[id.0 as int]));
    }
    let tag = copy_range(source.original_bytes(), span.start, span.end);
    match utf8_string(crate::bytes::copy_bytes(tag.as_slice())) {
        Some(_) => {},
        None => return Err(unsupported("anchor paragraph tag is not UTF-8")),
    }
    if tag.len() == 0 || tag[0] != 0x3cu8 {
        return Err(unsupported("anchor paragraph tag is invalid"));
    }
    let end = find_name_stop(tag.as_slice(), 1);
    let name = copy_range(tag.as_slice(), 1, end);
    match prefix_of_name(name.as_slice(), expected_local) {
        Some(p) => Ok(p),
        None => Err(unsupported("source tag is invalid")),
    }
}

/// The namespace prefix of a paragraph element, which must be written as `p` or `prefix:p`.
pub fn word_prefix(source: &SourceDocument, id: NodeId) -> (r: Result<Vec<u8>, OperationFailure>)
    requires
        source.wf(),
        source.valid_id(id),
    ensures
        match r {
            Ok(p) => spec_word_prefix(source, id.0 as int, "p".spec_bytes()) == Some(p@),
            Err(e) => spec_word_prefix(source, id.0 as int, "p".spec_bytes()) is None
                && e.code == FailureCode::UnsupportedOperation,
        },
{
    word_prefix_for(source, id, "p")
}

/// A failure reported for a document whose main part is not a readable document.
pub fn document_invalid() -> (r: OperationFailure)
    ensures
        r.code == FailureCode::DocumentInvalid,
        r.reason_code is None,
{
    OperationFailure::failed(FailureCode::DocumentInvalid, "main document is invalid")
}

/// The direct body blocks of the main document: the body's `w:p` and `w:tbl` children.
pub open spec fn body_blocks(d: &SourceDocument, body: NodeId) -> Seq<NodeId> {
    named_among(d, d.spec_children(body.0 as int), "p".spec_bytes(), "tbl".spec_bytes())
}

/// The body of the main document and its direct paragraphs and tables, in order.
pub fn direct_body_blocks(source: &SourceDocument) -> (r: Result<(NodeId, Vec<NodeId>), OperationFailure>)
    requires
        source.wf(),
    ensures
        match r {
            Ok((body, blocks)) => spec_body(source) == Ok::<NodeId, crate::wordml::SemanticError>(body)
                && source.valid_id(body) && blocks@ == body_blocks(source, body)
                && forall|k: int| 0 <= k < blocks@.len() ==> source.valid_id(#[trigger] blocks@[k])
                    && source.spec_parent(blocks@[k].0 as int) == Some(body),
            Err(e) => spec_body(source) is Err && e.code == FailureCode::DocumentInvalid,
        },
{
    let document = match DocxDocument::new(source) {
        Ok(d) => d,
        Err(_) => return Err(document_invalid()),
    };
    let body = document.body_id();
    let blocks = children_named(source, body, "p", "tbl");
    Ok((body, blocks))
}

/// A placement resolved to body nodes.
#[derive(Clone, Copy, Debug, PartialEq, Eq, Structural)]
pub enum ResolvedParagraphPlacement {
    Start,
    End,
    Before(NodeId),
    After(NodeId),
}

/// The first index at or after `from` at which `x` occurs in `s`.
pub open spec fn first_index(s: Seq<NodeId>, x: NodeId, from: int) -> Option<int>
    decreases s.len() - from,
{
    if from < 0 || from >= s.len() {
        None
    } else if s[from] == x {
        Some(from)
    } else {
        first_index(s, x, from + 1)
    }
}

/// Where among the blocks a placement puts new content.
pub open spec fn spec_placement_index(blocks: Seq<NodeId>, placement: ResolvedParagraphPlacement) -> Option<int> {
    match placement {
        ResolvedParagraphPlacement::Start => Some(0),
        ResolvedParagraphPlacement::End => Some(blocks.len() as int),
        ResolvedParagraphPlacement::Before(a) => first_index(blocks, a, 0),
        ResolvedParagraphPlacement::After(a) => match first_index(blocks, a, 0) {
            Some(i) => Some(i + 1),
            None => None,
        },
    }
}

proof fn lemma_first_index(s: Seq<NodeId>, x: NodeId, from: int)
    requires
        0 <= from,
    ensures
        first_index(s, x, from) matches Some(i) ==> from <= i < s.len() && s[i] == x,
    decreases s.len() - from,
{
    if from < s.len() && s[from] != x {
        lemma_first_index(s, x, from + 1);
    }
}

fn position(blocks: &Vec<NodeId>, x: NodeId) -> (r: Option<usize>)
    ensures
        match r {
            Some(i) => first_index(blocks@, x, 0) == Some(i as int) && i < blocks@.len(),
            None => first_index(blocks@, x, 0) is None,
        },
{
    let mut i: usize = 0;
    while i < blocks.len()
        invariant
            i <= blocks@.len(),
            first_index(blocks@, x, 0) == first_index(blocks@, x, i as int),
        decreases blocks@.len() - i,
    {
        if blocks[i] == x {
            return Some(i);
        }
        i += 1;
    }
    None
}

/// The index among the body blocks at which a placement puts new content.
pub fn placement_index(blocks: &Vec<NodeId>, placement: ResolvedParagraphPlacement) -> (r: Result<usize, OperationFailure>)
    ensures
        match r {
            Ok(i) => spec_placement_index(blocks@, placement) == Some(i as int) && i <= blocks@.len(),
            Err(e) => spec_placement_index(blocks@, placement) is None && e.code == FailureCode::TargetNotFound,
        },
{
    proof {
        match placement {
            ResolvedParagraphPlacement::Before(a) => lemma_first_index(blocks@, a, 0),
            ResolvedParagraphPlacement::After(a) => lemma_first_index(blocks@, a, 0),
            _ => {},
        }
    }
    let count = blocks.len();
    match placement {
        ResolvedParagraphPlacement::Start => Ok(0),
        ResolvedParagraphPlacement::End => Ok(count),
        ResolvedParagraphPlacement::Before(anchor) => match position(blocks, anchor) {
            Some(i) => Ok(i),
            None => Err(OperationFailure::failed(FailureCode::TargetNotFound, "body block handle was not found")),
        },
        ResolvedParagraphPlacement::After(anchor) => match position(blocks, anchor) {
            Some(i) => Ok(i + 1),
            None => Err(OperationFailure::failed(FailureCode::TargetNotFound, "body block handle was not found")),
        },
    }
}

/// The body's section properties, which must be its last child when it has any.
pub open spec fn spec_terminal_section(d: &SourceDocument, body: NodeId) -> Result<Option<NodeId>, FailureCode> {
    match spec_child(d, body.0 as int, "sectPr".spec_bytes()) {
        None => Ok(None),
        Some(s) => if d.spec_children(body.0 as int).last() == s {
            Ok(Some(s))
        } else {
            Err(FailureCode::UnsupportedOperation)
        },
    }
}

pub fn terminal_section_properties(source: &SourceDocument, body: NodeId) -> (r: Result<Option<NodeId>, OperationFailure>)
    requires
        source.wf(),
        source.valid_id(body),
    ensures
        match r {
            Ok(s) => spec_terminal_section(source, body) == Ok::<Option<NodeId>, FailureCode>(s)
                && (s matches Some(x) ==> source.valid_id(x) && source.spec_parent(x.0 as int) == Some(body)),
            Err(e) => spec_terminal_section(source, body) == Err::<Option<NodeId>, FailureCode>(e.code),
        },
{
    let section = match child(source, body, "sectPr") {
        Some(s) => s,
        None => return Ok(None),
    };
    let kids = source.children(body);
    let _end = source.subtree_end(body);
    proof {
        crate::source::lemma_child_listed(source, body.0 as int, section.0 as int);
    }
    if kids[kids.len() - 1] == section {
        Ok(Some(section))
    } else {
        Err(unsupported("insert_paragraph requires terminal body section properties"))
    }
}

/// The last index in `lo..hi` holding `<`.
pub open spec fn last_open_angle(b: Seq<u8>, lo: int, hi: int) -> Option<int>
    decreases hi - lo,
{
    if hi <= lo {
        None
    } else if b[hi - 1] == 0x3cu8 {
        Some(hi - 1)
    } else {
        last_open_angle(b, lo, hi - 1)
    }
}

/// Where the body's closing tag starts: its last `<`.
pub fn body_closing_start(source: &SourceDocument, body: NodeId) -> (r: Result<usize, OperationFailure>)
    requires
        source.wf(),
        source.valid_id(body),
    ensures
        match r {
            Ok(p) => last_open_angle(
                source.bytes@,
                source.spec_span(body.0 as int).start as int,
                source.spec_span(body.0 as int).end as int,
            ) == Some(p as int),
            Err(e) => last_open_angle(
                source.bytes@,
                source.spec_span(body.0 as int).start as int,
                source.spec_span(body.0 as int).end as int,
            ) is None && e.code == FailureCode::UnsupportedOperation,
        },
{
    let span = source.span(body);
    let bytes = source.original_bytes();
    let mut i = span.end;
    while i > span.start
        invariant
            span.start <= i <= span.end <= bytes@.len(),
            span == source.spec_span(body.0 as int),
            bytes@ == source.bytes@,
            last_open_angle(bytes@, span.start as int, span.end as int) == last_open_angle(
                bytes@,
                span.start as int,
                i as int,
            ),
        decreases i - span.start,
    {
        if bytes[i - 1] == 0x3cu8 {
            return Ok(i - 1);
        }
        i -= 1;
    }
    Err(unsupported("document body has no closing tag"))
}

/// Where content inserted at `index` among the body blocks goes: before that block, else
/// before the body's section properties, else before the body's closing tag.
pub open spec fn spec_body_insertion(d: &SourceDocument, body: NodeId, blocks: Seq<NodeId>, index: int) -> Result<int, FailureCode> {
    if index < blocks.len() {
        Ok(d.spec_span(blocks[index].0 as int).start as int)
    } else {
        match spec_terminal_section(d, body) {
            Err(c) => Err(c),
            Ok(Some(s)) => Ok(d.spec_span(s.0 as int).start as int),
            Ok(None) => match last_open_angle(
                d.bytes@,
                d.spec_span(body.0 as int).start as int,
                d.spec_span(body.0 as int).end as int,
            ) {
                Some(p) => Ok(p),
                None => Err(FailureCode::UnsupportedOperation),
            },
        }
    }
}

pub fn body_insertion(source: &SourceDocument, body: NodeId, blocks: &Vec<NodeId>, index: usize) -> (r: Result<usize, OperationFailure>)
    requires
        source.wf(),
        source.valid_id(body),
        forall|k: int| 0 <= k < blocks@.len() ==> source.valid_id(#[trigger] blocks@[k]),
        index <= blocks@.len(),
    ensures
        match r {
            Ok(p) => spec_body_insertion(source, body, blocks@, index as int) == Ok::<int, FailureCode>(p as int)
                && p <= source.bytes@.len(),
            Err(e) => spec_body_insertion(source, body, blocks@, index as int) == Err::<int, FailureCode>(e.code),
        },
{
    if index < blocks.len() {
        return Ok(source.span(blocks[index]).start);
    }
    match terminal_section_properties(source, body)? {
        Some(section) => Ok(source.span(section).start),
        None => {
            let p = body_closing_start(source, body)?;
            proof {
                let span = source.spec_span(body.0 as int);
                lemma_last_open_angle(source.bytes@, span.start as int, span.end as int);
            }
            Ok(p)
        },
    }
}

pub(crate) proof fn lemma_last_open_angle(b: Seq<u8>, lo: int, hi: int)
    ensures
        last_open_angle(b, lo, hi) matches Some(p) ==> lo <= p < hi,
    decreases hi - lo,
{
    if hi > lo && b[hi - 1] != 0x3cu8 {
        lemma_last_open_angle(b, lo, hi - 1);
    }
}

/// The block index a body block handle names: `b` followed by a decimal index.
pub open spec fn handle_index(h: Seq<u8>) -> Option<int> {
    if h.len() > 0 && h[0] == 0x62u8 {
        match unsigned_value(h.skip(1)) {
            Some(v) => if v <= usize::MAX {
                Some(v)
            } else {
                None
            },
            None => None,
        }
    } else {
        None
    }
}

/// The direct body block that a handle names.
pub fn resolve_body_block_handle(source: &SourceDocument, handle: &str) -> (r: Result<NodeId, OperationFailure>)
    requires
        source.wf(),
    ensures
        match r {
            Ok(id) => handle_index(handle.spec_bytes()) matches Some(i) && spec_body(source) matches Ok(body)
                && 0 <= i < body_blocks(source, body).len() && body_blocks(source, body)[i] == id
                && source.valid_id(id),
            Err(e) => match handle_index(handle.spec_bytes()) {
                None => e.code == FailureCode::PreconditionFailed,
                Some(i) => match spec_body(source) {
                    Err(_) => e.code == FailureCode::DocumentInvalid,
                    Ok(body) => i >= body_blocks(source, body).len() && e.code == FailureCode::TargetNotFound,
                },
            },
        },
{
    let h = handle.as_bytes();
    if h.len() == 0 || h[0] != 0x62u8 {
        return Err(OperationFailure::failed(FailureCode::PreconditionFailed, "body block handle is malformed"));
    }
    let digits = copy_range(h, 1, h.len());
    proof {
        assert(digits@ =~= h@.skip(1));
    }
    let index = match parse_usize(digits.as_slice()) {
        Some(i) => i,
        None => return Err(OperationFailure::failed(FailureCode::PreconditionFailed, "body block handle is malformed")),
    };
    let (_body, blocks) = direct_body_blocks(source)?;
    if index < blocks.len() {
        Ok(blocks[index])
    } else {
        Err(OperationFailure::failed(FailureCode::TargetNotFound, "body block handle was not found"))
    }
}

/// A placement resolved against the direct body blocks.
pub open spec fn spec_resolved_placement(d: &SourceDocument, placement: ParagraphPlacement) -> Option<ResolvedParagraphPlacement> {
    match placement {
        ParagraphPlacement::Start => Some(ResolvedParagraphPlacement::Start),
        ParagraphPlacement::End => Some(ResolvedParagraphPlacement::End),
        ParagraphPlacement::Before { handle } => match (handle_index(vstd::utf8::encode_utf8(handle@)), spec_body(d)) {
            (Some(i), Ok(body)) => if 0 <= i < body_blocks(d, body).len() {
                Some(ResolvedParagraphPlacement::Before(body_blocks(d, body)[i]))
            } else {
                None
            },
            _ => None,
        },
        ParagraphPlacement::After { handle } => match (handle_index(vstd::utf8::encode_utf8(handle@)), spec_body(d)) {
            (Some(i), Ok(body)) => if 0 <= i < body_blocks(d, body).len() {
                Some(ResolvedParagraphPlacement::After(body_blocks(d, body)[i]))
            } else {
                None
            },
            _ => None,
        },
    }
}

/// Resolves a placement's block handle, if it has one.
pub fn resolve_paragraph_placement(source: &SourceDocument, placement: &ParagraphPlacement) -> (r: Result<ResolvedParagraphPlacement, OperationFailure>)
    requires
        source.wf(),
    ensures
        match r {
            Ok(p) => spec_resolved_placement(source, *placement) == Some(p),
            Err(_) => spec_resolved_placement(source, *placement) is None,
        },
{
    match placement {
        ParagraphPlacement::Start => Ok(ResolvedParagraphPlacement::Start),
        ParagraphPlacement::End => Ok(ResolvedParagraphPlacement::End),
        ParagraphPlacement::Before { handle } => {
            let id = resolve_body_block_handle(source, handle.as_str())?;
            Ok(ResolvedParagraphPlacement::Before(id))
        },
        ParagraphPlacement::After { handle } => {
            let id = resolve_body_block_handle(source, handle.as_str())?;
            Ok(ResolvedParagraphPlacement::After(id))
        },
    }
}

/// Unicode white space, as `char::is_whitespace` knows it.
pub open spec fn unicode_space(c: char) -> bool {
    let v = c as u32;
    (0x09 <= v <= 0x0d) || v == 0x20 || v == 0x85 || v == 0xa0 || v == 0x1680 || (0x2000 <= v
        <= 0x200a) || v == 0x2028 || v == 0x2029 || v == 0x202f || v == 0x205f || v == 0x3000
}

pub fn is_space_char(c: char) -> (r: bool)
    ensures
        r == unicode_space(c),
{
    let v = c as u32;
    (0x09 <= v && v <= 0x0d) || v == 0x20 || v == 0x85 || v == 0xa0 || v == 0x1680 || (0x2000 <= v
        && v <= 0x200a) || v == 0x2028 || v == 0x2029 || v == 0x202f || v == 0x205f || v == 0x3000
}

/// Text that starts or ends with white space, which XML keeps only under `xml:space`.
pub open spec fn needs_space_preservation(t: Seq<char>) -> bool {
    t.len() > 0 && (unicode_space(t[0]) || unicode_space(t.last()))
}

/// Space, tab, line feed, carriage return and no-break space.
pub open spec fn plain_white_space(c: char) -> bool {
    c == ' ' || c == '\t' || c == '\n' || c == '\r' || c == '\u{a0}'
}

/// An ASCII letter or digit.
pub open spec fn ascii_alphanumeric(c: char) -> bool {
    ('a' <= c <= 'z') || ('A' <= c <= 'Z') || ('0' <= c <= '9')
}

/// A paragraph whose text begins or ends with white space writes its text element with
/// `xml:space="preserve"`, so that the space is kept; one whose text begins and ends
/// with a letter or digit writes it without.
pub proof fn law_space_preserved(prefix: Seq<u8>, text: Seq<char>)
    requires
        text.len() > 0,
    ensures
        ({
            let p = qualified(prefix, "p".spec_bytes());
            let r = qualified(prefix, "r".spec_bytes());
            let t = qualified(prefix, "t".spec_bytes());
            &&& plain_white_space(text[0]) || plain_white_space(text.last()) ==> paragraph_markup(prefix, text) == open_tag(p)
                + open_tag(r) + open_tag(t + " xml:space=\"preserve\"".spec_bytes()) + escaped(vstd::utf8::encode_utf8(text))
                + close_tag(t) + close_tag(r) + close_tag(p)
            &&& ascii_alphanumeric(text[0]) && ascii_alphanumeric(text.last()) ==> paragraph_markup(prefix, text)
                == open_tag(p) + open_tag(r) + open_tag(t) + escaped(vstd::utf8::encode_utf8(text)) + close_tag(t) + close_tag(r)
                + close_tag(p)
        }),
{
    let t = qualified(prefix, "t".spec_bytes());
    assert(t + Seq::<u8>::empty() =~= t);
}

pub fn requires_space_preservation(text: &str) -> (r: bool)
    ensures
        r == needs_space_preservation(text@),
{
    let n = text.unicode_len();
    if n == 0 {
        return false;
    }
    is_space_char(text.get_char(0)) || is_space_char(text.get_char(n - 1))
}

/// `<name>`.
pub open spec fn open_tag(name: Seq<u8>) -> Seq<u8> {
    seq![0x3cu8] + name + seq![0x3eu8]
}

/// `</name>`.
pub open spec fn close_tag(name: Seq<u8>) -> Seq<u8> {
    seq![0x3cu8, 0x2fu8] + name + seq![0x3eu8]
}

pub fn push_open(out: &mut Vec<u8>, name: &[u8])
    ensures
        final(out)@ == old(out)@ + open_tag(name@),
{
    out.push(0x3cu8);
    push_bytes(out, name);
    out.push(0x3eu8);
    assert(out@ =~= old(out)@ + open_tag(name@));
}

pub fn push_close(out: &mut Vec<u8>, name: &[u8])
    ensures
        final(out)@ == old(out)@ + close_tag(name@),
{
    out.push(0x3cu8);
    out.push(0x2fu8);
    push_bytes(out, name);
    out.push(0x3eu8);
    assert(out@ =~= old(out)@ + close_tag(name@));
}

/// The markup of a plain paragraph holding `text`, in the namespace written as `prefix`.
pub open spec fn paragraph_markup(prefix: Seq<u8>, text: Seq<char>) -> Seq<u8> {
    let p = qualified(prefix, "p".spec_bytes());
    let r = qualified(prefix, "r".spec_bytes());
    let t = qualified(prefix, "t".spec_bytes());
    if text.len() == 0 {
        open_tag(p) + close_tag(p)
    } else {
        let space = if needs_space_preservation(text) {
            " xml:space=\"preserve\"".spec_bytes()
        } else {
            seq![]
        };
        open_tag(p) + open_tag(r) + open_tag(t + space) + escaped(vstd::utf8::encode_utf8(text))
            + close_tag(t) + close_tag(r) + close_tag(p)
    }
}

/// Writes a plain paragraph: one run with one text element, space preserved where needed.
pub fn paragraph_fragment_with_prefix(prefix: &[u8], text: &str) -> (r: Vec<u8>)
    ensures
        r@ == paragraph_markup(prefix@, text@),
{
    let p = qualify(prefix, "p");
    let mut out: Vec<u8> = Vec::new();
    if text.unicode_len() == 0 {
        push_open(&mut out, p.as_slice());
        push_close(&mut out, p.as_slice());
        proof {
            assert(out@ =~= paragraph_markup(prefix@, text@));
        }
        return out;
    }
    let r = qualify(prefix, "r");
    let mut t = qualify(prefix, "t");
    let t_name = qualify(prefix, "t");
    if requires_space_preservation(text) {
        push_str(&mut t, " xml:space=\"preserve\"");
    }
    let ghost space = if needs_space_preservation(text@) {
        " xml:space=\"preserve\"".spec_bytes()
    } else {
        seq![]
    };
    proof {
        if !needs_space_preservation(text@) {
            assert(t@ =~= t_name@ + space);
        }
    }
    let body = escape(text.as_bytes());
    push_open(&mut out, p.as_slice());
    push_open(&mut out, r.as_slice());
    push_open(&mut out, t.as_slice());
    push_bytes(&mut out, body.as_slice());
    push_close(&mut out, t_name.as_slice());
    push_close(&mut out, r.as_slice());
    push_close(&mut out, p.as_slice());
    proof {
        assert(out@ =~= paragraph_markup(prefix@, text@));
    }
    out
}

/// Applies one patch: its range is replaced and everything else kept.
pub fn apply_single_patch(source: &SourceDocument, patch: Patch) -> (r: Vec<u8>)
    requires
        patch.span.start <= patch.span.end <= source.bytes@.len(),
    ensures
        r@ == source.bytes@.subrange(0, patch.span.start as int) + patch.replacement@
            + source.bytes@.subrange(patch.span.end as int, source.bytes@.len() as int),
{
    let ghost p = patch;
    let mut patches: Vec<Patch> = Vec::new();
    patches.push(patch);
    let ghost ps = patches@;
    proof {
        assert(ps =~= seq![p]);
    }
    let res = apply_patches(source, patches);
    proof {
        let order = choose|order: Seq<usize>|
            stable_order(order, span_keys(ps), ps.len() as int) && match res {
                Ok(out) => disjoint(arranged(ps, order)) && out@ == patched(source.bytes@, arranged(ps, order)),
                Err(e) => !disjoint(arranged(ps, order)) && e.code == FailureCode::UnsupportedOperation,
            };
        lemma_single_patch(source.bytes@, p, order);
    }
    match res {
        Ok(out) => out,
        Err(_) => Vec::new(),
    }
}

} // verus!
