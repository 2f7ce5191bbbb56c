use vstd::prelude::*;
use vstd::string::StringSliceAdditionalSpecFns;

use crate::bytes::{bytes_equal, copy_bytes, push_str};
use crate::document::spec_body;
use crate::protocol::{DeletePageBreak, FailureCode, InsertPageBreak, OperationFailure, ParagraphPlacement};
use crate::source::{NodeId, SourceDocument, SourceNodeKind, SourceSpan};
use crate::wordml::{collect_text, collected, is_word, word};

use crate::mutation::common::{
    apply_single_patch, body_blocks, handle_index, body_insertion, close_tag, direct_body_blocks,
    document_invalid, first_index, open_tag, placement_index,
    push_close, push_open, qualified, qualify, resolve_body_block_handle,
    resolve_paragraph_placement, spec_body_insertion, spec_placement_index,
    spec_resolved_placement, spec_word_prefix, word_prefix_for, Patch,
};

verus! {

/// The element children of `kids` other than `skip` elements, in order.
pub open spec fn elements_except(d: &SourceDocument, kids: Seq<NodeId>, skip: Seq<u8>) -> Seq<NodeId>
    decreases kids.len(),
{
    if kids.len() == 0 {
        seq![]
    } else {
        let rest = elements_except(d, kids.drop_last(), skip);
        let last = kids.last();
        if d.nodes@[last.0 as int].kind is Element && !is_word(d, last.0 as int, skip) {
            rest.push(last)
        } else {
            rest
        }
    }
}

proof fn lemma_elements_except(d: &SourceDocument, kids: Seq<NodeId>, skip: Seq<u8>)
    ensures
        forall|k: int| 0 <= k < elements_except(d, kids, skip).len() ==> kids.contains(#[trigger] elements_except(d, kids, skip)[k]),
    decreases kids.len(),
{
    if kids.len() > 0 {
        let init = kids.drop_last();
        lemma_elements_except(d, init, skip);
        let rest = elements_except(d, init, skip);
        assert forall|k: int| 0 <= k < rest.len() implies kids.contains(#[trigger] rest[k]) by {
            let j = choose|j: int| 0 <= j < init.len() && init[j] == rest[k];
            assert(kids[j] == rest[k]);
        }
        assert(kids[kids.len() - 1] == kids.last());
    }
}

fn child_elements_except(source: &SourceDocument, parent: NodeId, skip: &str) -> (r: Vec<NodeId>)
    requires
        source.wf(),
        source.valid_id(parent),
    ensures
        r@ == elements_except(source, source.spec_children(parent.0 as int), skip.spec_bytes()),
        forall|k: int| 0 <= k < r@.len() ==> source.valid_id(#[trigger] r@[k]),
{
    let kids = source.children(parent);
    let _end = source.subtree_end(parent);
    let mut found: Vec<NodeId> = Vec::new();
    let mut k: usize = 0;
    while k < kids.len()
        invariant
            source.wf(),
            kids@ == source.spec_children(parent.0 as int),
            forall|j: int| 0 <= j < kids@.len() ==> source.valid_id(#[trigger] kids@[j]),
            k <= kids@.len(),
            found@ == elements_except(source, kids@.take(k as int), skip.spec_bytes()),
        decreases kids@.len() - k,
    {
        assert(kids@.take(k as int + 1).drop_last() == kids@.take(k as int));
        let c = kids[k];
        let element = match &source.nodes[c.0].kind {
            SourceNodeKind::Element { .. } => true,
            _ => false,
        };
        if element && !word(source, c, skip) {
            found.push(c);
        }
        k += 1;
    }
    assert(kids@.take(kids@.len() as int) == kids@);
    proof {
        lemma_elements_except(source, kids@, skip.spec_bytes());
        assert forall|j: int| 0 <= j < found@.len() implies source.valid_id(#[trigger] found@[j]) by {
            let i = choose|i: int| 0 <= i < kids@.len() && kids@[i] == found@[j];
        }
    }
    found
}

/// A paragraph that holds one explicit page break and nothing else: besides its
/// properties, one run, which holds besides its properties only `<w:br w:type="page"/>`.
pub open spec fn page_break_paragraph(d: &SourceDocument, p: NodeId) -> bool {
    let a = elements_except(d, d.spec_children(p.0 as int), "pPr".spec_bytes());
    &&& is_word(d, p.0 as int, "p".spec_bytes())
    &&& a.len() == 1
    &&& is_word(d, a[0].0 as int, "r".spec_bytes())
    &&& {
        let b = elements_except(d, d.spec_children(a[0].0 as int), "rPr".spec_bytes());
        &&& b.len() == 1
        &&& is_word(d, b[0].0 as int, "br".spec_bytes())
        &&& d.spec_attribute(b[0].0 as int, "type".spec_bytes()) == Some("page".spec_bytes())
    }
}

pub fn is_page_break_paragraph(source: &SourceDocument, p: NodeId) -> (r: bool)
    requires
        source.wf(),
        source.valid_id(p),
    ensures
        r == page_break_paragraph(source, p),
{
    if !word(source, p, "p") {
        return false;
    }
    let a = child_elements_except(source, p, "pPr");
    if a.len() != 1 || !word(source, a[0], "r") {
        return false;
    }
    let b = child_elements_except(source, a[0], "rPr");
    if b.len() != 1 || !word(source, b[0], "br") {
        return false;
    }
    match source.attribute(b[0], "type") {
        Some(v) => crate::bytes::bytes_are(v.as_slice(), "page"),
        None => false,
    }
}

/// What a body block is, for comparing a body before and after an edit.
#[derive(Clone, Copy, Debug, PartialEq, Eq, Structural)]
pub enum BlockKind {
    PageBreak,
    Paragraph,
    Table,
}

/// The text of a body block: its `w:t` elements, in order.
pub open spec fn block_text(d: &SourceDocument, id: NodeId) -> Option<Seq<u8>> {
    let span = d.spec_span(id.0 as int);
    collected(d, "t".spec_bytes(), span.start as int, span.end as int, false, d.nodes@.len() as int)
}

/// The kind and text of each block; `None` when a block's text cannot be read.
pub open spec fn signatures(d: &SourceDocument, blocks: Seq<NodeId>) -> Option<Seq<(BlockKind, Seq<u8>)>>
    decreases blocks.len(),
{
    if blocks.len() == 0 {
        Some(seq![])
    } else {
        let last = blocks.last();
        match (signatures(d, blocks.drop_last()), block_text(d, last)) {
            (Some(rest), Some(t)) => Some(rest.push(
                if page_break_paragraph(d, last) {
                    (BlockKind::PageBreak, seq![])
                } else if is_word(d, last.0 as int, "p".spec_bytes()) {
                    (BlockKind::Paragraph, t)
                } else {
                    (BlockKind::Table, t)
                },
            )),
            _ => None,
        }
    }
}

pub open spec fn signature_view(v: Seq<(BlockKind, Vec<u8>)>) -> Seq<(BlockKind, Seq<u8>)> {
    Seq::new(v.len(), |k: int| (v[k].0, v[k].1@))
}

proof fn lemma_signatures_len(d: &SourceDocument, blocks: Seq<NodeId>)
    ensures
        signatures(d, blocks) matches Some(s) ==> s.len() == blocks.len(),
    decreases blocks.len(),
{
    if blocks.len() > 0 {
        lemma_signatures_len(d, blocks.drop_last());
    }
}

proof fn lemma_signatures_none(d: &SourceDocument, blocks: Seq<NodeId>, k: int)
    requires
        0 <= k <= blocks.len(),
        signatures(d, blocks.take(k)) is None,
    ensures
        signatures(d, blocks) is None,
    decreases blocks.len() - k,
{
    if k < blocks.len() {
        assert(blocks.take(k + 1).drop_last() =~= blocks.take(k));
        lemma_signatures_none(d, blocks, k + 1);
    } else {
        assert(blocks.take(k) =~= blocks);
    }
}

/// The kind and text of each direct body block.
pub fn body_block_signatures(source: &SourceDocument) -> (r: Result<Vec<(BlockKind, Vec<u8>)>, OperationFailure>)
    requires
        source.wf(),
    ensures
        match r {
            Ok(v) => spec_body(source) matches Ok(body) && signatures(source, body_blocks(source, body)) == Some(signature_view(v@))
                && v@.len() == body_blocks(source, body).len(),
            Err(e) => e.code == FailureCode::DocumentInvalid && match spec_body(source) {
                Ok(body) => signatures(source, body_blocks(source, body)) is None,
                Err(_) => true,
            },
        },
{
    let (body, blocks) = direct_body_blocks(source)?;
    let mut out: Vec<(BlockKind, Vec<u8>)> = Vec::new();
    let mut k: usize = 0;
    while k < blocks.len()
        invariant
            source.wf(),
            spec_body(source) == Ok::<NodeId, crate::wordml::SemanticError>(body),
            blocks@ == body_blocks(source, body),
            forall|j: int| 0 <= j < blocks@.len() ==> source.valid_id(#[trigger] blocks@[j]),
            k <= blocks@.len(),
            signatures(source, blocks@.take(k as int)) == Some(signature_view(out@)),
        decreases blocks@.len() - k,
    {
        let id = blocks[k];
        let span = source.span(id);
        let text = match collect_text(source, "t", span.start, span.end, false) {
            Ok(t) => t,
            Err(_) => {
                proof {
                    assert(blocks@.take(k as int + 1).drop_last() =~= blocks@.take(k as int));
                    lemma_signatures_none(source, blocks@, k as int + 1);
                }
                return Err(document_invalid());
            },
        };
        let entry = if is_page_break_paragraph(source, id) {
            (BlockKind::PageBreak, Vec::new())
        } else if word(source, id, "p") {
            (BlockKind::Paragraph, text)
        } else {
            (BlockKind::Table, text)
        };
        let ghost before = out@;
        out.push(entry);
        proof {
            assert(blocks@.take(k as int + 1).drop_last() =~= blocks@.take(k as int));
            assert(signature_view(out@) =~= signature_view(before).push((entry.0, entry.1@)));
        }
        k += 1;
    }
    proof {
        assert(blocks@.take(blocks@.len() as int) =~= blocks@);
        lemma_signatures_len(source, blocks@);
    }
    Ok(out)
}

pub fn same_signatures(a: &Vec<(BlockKind, Vec<u8>)>, b: &Vec<(BlockKind, Vec<u8>)>) -> (r: bool)
    ensures
        r == (signature_view(a@) == signature_view(b@)),
{
    if a.len() != b.len() {
        proof {
            assert(signature_view(a@).len() != signature_view(b@).len());
        }
        return false;
    }
    let mut k: usize = 0;
    while k < a.len()
        invariant
            a@.len() == b@.len(),
            k <= a@.len(),
            forall|j: int| 0 <= j < k ==> signature_view(a@)[j] == signature_view(b@)[j],
        decreases a@.len() - k,
    {
        if a[k].0 != b[k].0 || !bytes_equal(a[k].1.as_slice(), b[k].1.as_slice()) {
            proof {
                assert(signature_view(a@)[k as int] != signature_view(b@)[k as int]);
            }
            return false;
        }
        k += 1;
    }
    proof {
        assert(signature_view(a@) =~= signature_view(b@));
    }
    true
}

/// The markup of a page-break paragraph in the namespace written as `prefix`.
pub open spec fn page_break_markup(prefix: Seq<u8>) -> Seq<u8> {
    let p = qualified(prefix, "p".spec_bytes());
    let r = qualified(prefix, "r".spec_bytes());
    open_tag(p) + open_tag(r) + seq![0x3cu8] + qualified(prefix, "br".spec_bytes()) + seq![0x20u8]
        + qualified(prefix, "type".spec_bytes()) + "=\"page\"/>".spec_bytes() + close_tag(r) + close_tag(p)
}

fn page_break_fragment(prefix: &[u8]) -> (r: Vec<u8>)
    ensures
        r@ == page_break_markup(prefix@),
{
    let p = qualify(prefix, "p");
    let r = qualify(prefix, "r");
    let mut out: Vec<u8> = Vec::new();
    push_open(&mut out, p.as_slice());
    push_open(&mut out, r.as_slice());
    out.push(0x3cu8);
    crate::bytes::push_bytes(&mut out, qualify(prefix, "br").as_slice());
    out.push(0x20u8);
    crate::bytes::push_bytes(&mut out, qualify(prefix, "type").as_slice());
    push_str(&mut out, "=\"page\"/>");
    push_close(&mut out, r.as_slice());
    push_close(&mut out, p.as_slice());
    proof {
        assert(out@ =~= page_break_markup(prefix@));
    }
    out
}

/// Reading an edited part back gives a body whose blocks have the expected signatures,
/// with a page break at `index` when `index` is given.
pub open spec fn body_reads_back(out: Seq<u8>, expected: Seq<(BlockKind, Seq<u8>)>, index: Option<int>) -> bool {
    exists|d2: SourceDocument| #![trigger d2.bytes] d2.wf() && d2.bytes@ == out && d2.faithful() && body_matches(&d2, expected, index)
}

pub open spec fn body_matches(d: &SourceDocument, expected: Seq<(BlockKind, Seq<u8>)>, index: Option<int>) -> bool {
    match spec_body(d) {
        Ok(body) => signatures(d, body_blocks(d, body)) == Some(expected) && match index {
            Some(i) => 0 <= i < body_blocks(d, body).len() && page_break_paragraph(d, body_blocks(d, body)[i]),
            None => true,
        },
        Err(_) => false,
    }
}

/// The edited part parses, and every reading of it has a body as `body_matches` asks.
pub open spec fn body_reads_back_all(out: Seq<u8>, expected: Seq<(BlockKind, Seq<u8>)>, index: Option<int>) -> bool {
    &&& crate::source::accepts(out)
    &&& forall|d2: SourceDocument| #![trigger d2.bytes] d2.wf() && d2.bytes@ == out && d2.faithful() ==> body_matches(&d2, expected, index)
}

/// Re-reads an edited main part and checks its body.
fn check_body(out: &Vec<u8>, expected: &Vec<(BlockKind, Vec<u8>)>, index: Option<usize>) -> (r: Result<(), OperationFailure>)
    ensures
        r is Ok ==> body_reads_back(out@, signature_view(expected@), match index {
            Some(i) => Some(i as int),
            None => None,
        }),
        r is Err ==> !body_reads_back_all(out@, signature_view(expected@), match index {
            Some(i) => Some(i as int),
            None => None,
        }),
{
    let ghost idx = match index {
        Some(i) => Some(i as int),
        None => None::<int>,
    };
    let reread = match SourceDocument::parse(copy_bytes(out.as_slice())) {
        Ok(d) => d,
        Err(_) => return Err(document_invalid()),
    };
    assert(reread.bytes == reread.bytes);
    let (_body, blocks) = match direct_body_blocks(&reread) {
        Ok(x) => x,
        Err(e) => {
            assert(!body_matches(&reread, signature_view(expected@), idx));
            return Err(e);
        },
    };
    match index {
        Some(i) => {
            if i >= blocks.len() || !is_page_break_paragraph(&reread, blocks[i]) {
                assert(!body_matches(&reread, signature_view(expected@), idx));
                return Err(OperationFailure::failed(FailureCode::DocumentInvalid, "page break is not at the requested body position"));
            }
        },
        None => {},
    }
    let after = match body_block_signatures(&reread) {
        Ok(a) => a,
        Err(e) => {
            assert(!body_matches(&reread, signature_view(expected@), idx));
            return Err(e);
        },
    };
    if !same_signatures(&after, expected) {
        assert(!body_matches(&reread, signature_view(expected@), idx));
        return Err(OperationFailure::failed(FailureCode::DocumentInvalid, "output body ordering changed"));
    }
    proof {
        assert(body_matches(&reread, signature_view(expected@), match index {
            Some(i) => Some(i as int),
            None => None,
        }));
        assert(reread.bytes == reread.bytes);
    }
    Ok(())
}

/// Every step of a page-break insertion can be taken, and every reading of the edited
/// part holds the page break in place with the other blocks as they were.
pub open spec fn page_break_insertable(source: &SourceDocument, placement: ParagraphPlacement) -> bool {
    &&& spec_resolved_placement(source, placement) matches Some(resolved)
    &&& spec_body(source) matches Ok(body)
    &&& spec_placement_index(body_blocks(source, body), resolved) matches Some(index)
    &&& spec_body_insertion(source, body, body_blocks(source, body), index) matches Ok(at)
    &&& spec_word_prefix(source, body.0 as int, "body".spec_bytes()) matches Some(prefix)
    &&& signatures(source, body_blocks(source, body)) matches Some(before)
    &&& body_reads_back_all(
        source.bytes@.subrange(0, at) + page_break_markup(prefix) + source.bytes@.subrange(at, source.bytes@.len() as int),
        before.insert(index, (BlockKind::PageBreak, seq![])),
        Some(index),
    )
}

/// Inserts one page-break paragraph at a direct body placement and returns the edited
/// main part: the page break is added before the block at that place, else before the
/// body's section properties, else before the body's closing tag. The edited part is
/// read back and must hold the page break at that place, with every other block as it was.
pub fn insert_page_break_to_vec(source: &SourceDocument, operation: &InsertPageBreak) -> (r: Result<Vec<u8>, OperationFailure>)
    requires
        source.wf(),
    ensures
        r matches Ok(out) ==> {
            &&& spec_resolved_placement(source, operation.placement) matches Some(placement)
            &&& spec_body(source) matches Ok(body)
            &&& spec_placement_index(body_blocks(source, body), placement) matches Some(index)
            &&& spec_body_insertion(source, body, body_blocks(source, body), index) matches Ok(at)
            &&& spec_word_prefix(source, body.0 as int, "body".spec_bytes()) matches Some(prefix)
            &&& signatures(source, body_blocks(source, body)) matches Some(before)
            &&& out@ == source.bytes@.subrange(0, at) + page_break_markup(prefix) + source.bytes@.subrange(at, source.bytes@.len() as int)
            &&& body_reads_back(out@, before.insert(index, (BlockKind::PageBreak, seq![])), Some(index))
        },
        spec_resolved_placement(source, operation.placement) is None ==> r is Err,
        r is Err ==> !page_break_insertable(source, operation.placement),
{
    let placement = resolve_paragraph_placement(source, &operation.placement)?;
    let (body, blocks) = direct_body_blocks(source)?;
    let index = placement_index(&blocks, placement)?;
    let before = body_block_signatures(source)?;
    let at = body_insertion(source, body, &blocks, index)?;
    let prefix = word_prefix_for(source, body, "body")?;
    let fragment = page_break_fragment(prefix.as_slice());
    let out = apply_single_patch(source, Patch { span: SourceSpan { start: at, end: at }, replacement: fragment });
    let mut expected: Vec<(BlockKind, Vec<u8>)> = before;
    let ghost old_expected = expected@;
    expected.insert(index, (BlockKind::PageBreak, Vec::new()));
    proof {
        assert(signature_view(expected@) =~= signature_view(old_expected).insert(index as int, (BlockKind::PageBreak, seq![])));
    }
    check_body(&out, &expected, Some(index))?;
    Ok(out)
}

/// The page-break paragraph a handle names: the body block with that index, which must
/// be a page-break paragraph.
pub open spec fn spec_page_break_target(d: &SourceDocument, handle: Seq<u8>) -> Option<NodeId> {
    match (handle_index(handle), spec_body(d)) {
        (Some(i), Ok(body)) => if 0 <= i < body_blocks(d, body).len() && page_break_paragraph(d, body_blocks(d, body)[i]) {
            Some(body_blocks(d, body)[i])
        } else {
            None
        },
        _ => None,
    }
}

pub fn resolve_page_break_target(source: &SourceDocument, handle: &str) -> (r: Result<NodeId, OperationFailure>)
    requires
        source.wf(),
    ensures
        match r {
            Ok(id) => spec_page_break_target(source, handle.spec_bytes()) == Some(id) && source.valid_id(id),
            Err(_) => spec_page_break_target(source, handle.spec_bytes()) is None,
        },
{
    let paragraph = resolve_body_block_handle(source, handle)?;
    if is_page_break_paragraph(source, paragraph) {
        Ok(paragraph)
    } else {
        Err(OperationFailure::failed(FailureCode::TargetNotFound, "page break handle was not found"))
    }
}

/// Every step of a page-break deletion can be taken, and every reading of the edited
/// part keeps the other blocks as they were.
pub open spec fn page_break_deletable(source: &SourceDocument, handle: Seq<u8>) -> bool {
    &&& spec_page_break_target(source, handle) matches Some(id)
    &&& spec_body(source) matches Ok(body)
    &&& first_index(body_blocks(source, body), id, 0) matches Some(index)
    &&& signatures(source, body_blocks(source, body)) matches Some(before)
    &&& index < before.len()
    &&& body_reads_back_all(
        source.bytes@.subrange(0, source.spec_span(id.0 as int).start as int)
            + source.bytes@.subrange(source.spec_span(id.0 as int).end as int, source.bytes@.len() as int),
        before.remove(index),
        None,
    )
}

/// Deletes one page-break paragraph named by its body block handle and returns the
/// edited main part, which is read back and must keep every other block as it was.
pub fn delete_page_break_to_vec(source: &SourceDocument, operation: &DeletePageBreak) -> (r: Result<Vec<u8>, OperationFailure>)
    requires
        source.wf(),
    ensures
        spec_page_break_target(source, vstd::utf8::encode_utf8(operation.target.handle@)) is None ==> r is Err,
        r matches Ok(out) ==> {
            &&& spec_page_break_target(source, vstd::utf8::encode_utf8(operation.target.handle@)) matches Some(id)
            &&& out@ == source.bytes@.subrange(0, source.spec_span(id.0 as int).start as int)
                + source.bytes@.subrange(source.spec_span(id.0 as int).end as int, source.bytes@.len() as int)
            &&& spec_body(source) matches Ok(body)
            &&& first_index(body_blocks(source, body), id, 0) matches Some(index)
            &&& signatures(source, body_blocks(source, body)) matches Some(before)
            &&& body_reads_back(out@, before.remove(index), None)
        },
        r is Err ==> !page_break_deletable(source, vstd::utf8::encode_utf8(operation.target.handle@)),
{
    let paragraph = resolve_page_break_target(source, operation.target.handle.as_str())?;
    let (_body, blocks) = direct_body_blocks(source)?;
    let index = match placement_index(&blocks, crate::mutation::common::ResolvedParagraphPlacement::Before(paragraph)) {
        Ok(i) => i,
        Err(_) => return Err(OperationFailure::failed(FailureCode::TargetNotFound, "page break handle was not found")),
    };
    let before = body_block_signatures(source)?;
    if index >= before.len() {
        return Err(document_invalid());
    }
    let span = source.span(paragraph);
    let out = apply_single_patch(source, Patch { span, replacement: Vec::new() });
    proof {
        assert(out@ =~= source.bytes@.subrange(0, span.start as int) + source.bytes@.subrange(span.end as int, source.bytes@.len() as int));
    }
    let mut expected: Vec<(BlockKind, Vec<u8>)> = before;
    let ghost old_expected = expected@;
    expected.remove(index);
    proof {
        assert(signature_view(expected@) =~= signature_view(old_expected).remove(index as int));
    }
    check_body(&out, &expected, None)?;
    Ok(out)
}

} // verus!
