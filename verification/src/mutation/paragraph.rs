use vstd::prelude::*;
use vstd::string::StringSliceAdditionalSpecFns;

use crate::bytes::{bytes_equal, copy_bytes, matches_at, occurs_at, push_bytes};
use crate::document::spec_body;
use crate::protocol::{
    unsupported, DeleteParagraph, FailureCode, InsertParagraph, InsertParagraphAfter, InsertParagraphs,
    OperationFailure, TextTarget,
};
use crate::source::{NodeId, SourceDocument, SourceSpan};
use crate::wordml::{collect_text, is_word, word};

use crate::mutation::common::{
    apply_single_patch, body_blocks, direct_body_blocks, document_invalid, paragraph_fragment_with_prefix,
    paragraph_markup, placement_index, resolve_paragraph_placement, spec_placement_index,
    spec_resolved_placement, spec_terminal_section, spec_word_prefix, terminal_section_properties,
    word_prefix, word_prefix_for, last_open_angle, body_closing_start, Patch,
    ResolvedParagraphPlacement,
};
use crate::mutation::page_break::block_text;

verus! {

/// The most paragraphs one edit inserts.
pub const MAX_PARAGRAPHS_PER_OPERATION: usize = 100;

/// A child of a run that a deletable paragraph may hold.
pub open spec fn safe_run_child(d: &SourceDocument, i: int) -> bool {
    is_word(d, i, "rPr".spec_bytes()) || is_word(d, i, "t".spec_bytes()) || is_word(d, i, "tab".spec_bytes())
        || is_word(d, i, "br".spec_bytes()) || is_word(d, i, "cr".spec_bytes()) || is_word(d, i, "noBreakHyphen".spec_bytes())
        || is_word(d, i, "softHyphen".spec_bytes()) || is_word(d, i, "lastRenderedPageBreak".spec_bytes())
}

/// Every child of `i` satisfies `f`.
pub open spec fn all_children(d: &SourceDocument, i: int, f: spec_fn(int) -> bool) -> bool {
    forall|k: int| 0 <= k < d.spec_children(i).len() ==> f(#[trigger] d.spec_children(i)[k].0 as int)
}

/// A run holding only properties, text, tabs, breaks and hyphens.
pub open spec fn safe_run(d: &SourceDocument, i: int) -> bool {
    is_word(d, i, "r".spec_bytes()) && all_children(d, i, |c: int| safe_run_child(d, c))
}

/// A child of a paragraph that may go when the paragraph is deleted: properties without
/// a tracked change, a plain run, or a hyperlink of plain runs.
pub open spec fn safe_paragraph_child(d: &SourceDocument, i: int) -> bool {
    if is_word(d, i, "pPr".spec_bytes()) {
        !(exists|k: int| 0 <= k < d.spec_children(i).len() && is_word(d, (#[trigger] d.spec_children(i)[k]).0 as int, "pPrChange".spec_bytes()))
    } else if is_word(d, i, "r".spec_bytes()) {
        safe_run(d, i)
    } else {
        is_word(d, i, "hyperlink".spec_bytes()) && all_children(d, i, |c: int| safe_run(d, c))
    }
}

/// A paragraph made only of safe children.
pub open spec fn safe_to_delete(d: &SourceDocument, p: NodeId) -> bool {
    all_children(d, p.0 as int, |c: int| safe_paragraph_child(d, c))
}

fn all_children_run_safe(source: &SourceDocument, id: NodeId) -> (r: bool)
    requires
        source.wf(),
        source.valid_id(id),
    ensures
        r == all_children(source, id.0 as int, |c: int| safe_run_child(source, c)),
{
    let kids = source.children(id);
    let _end = source.subtree_end(id);
    let mut k: usize = 0;
    while k < kids.len()
        invariant
            source.wf(),
            kids@ == source.spec_children(id.0 as int),
            forall|j: int| 0 <= j < kids@.len() ==> source.valid_id(#[trigger] kids@[j]),
            k <= kids@.len(),
            forall|j: int| 0 <= j < k ==> safe_run_child(source, (#[trigger] kids@[j]).0 as int),
        decreases kids@.len() - k,
    {
        let c = kids[k];
        let ok = word(source, c, "rPr") || word(source, c, "t") || word(source, c, "tab") || word(source, c, "br")
            || word(source, c, "cr") || word(source, c, "noBreakHyphen") || word(source, c, "softHyphen")
            || word(source, c, "lastRenderedPageBreak");
        if !ok {
            return false;
        }
        k += 1;
    }
    true
}

fn is_safe_run(source: &SourceDocument, id: NodeId) -> (r: bool)
    requires
        source.wf(),
        source.valid_id(id),
    ensures
        r == safe_run(source, id.0 as int),
{
    word(source, id, "r") && all_children_run_safe(source, id)
}

fn is_safe_paragraph_child(source: &SourceDocument, id: NodeId) -> (r: bool)
    requires
        source.wf(),
        source.valid_id(id),
    ensures
        r == safe_paragraph_child(source, id.0 as int),
{
    let kids = source.children(id);
    let _end = source.subtree_end(id);
    if word(source, id, "pPr") {
        let mut k: usize = 0;
        while k < kids.len()
            invariant
                source.wf(),
                kids@ == source.spec_children(id.0 as int),
                forall|j: int| 0 <= j < kids@.len() ==> source.valid_id(#[trigger] kids@[j]),
                k <= kids@.len(),
                is_word(source, id.0 as int, "pPr".spec_bytes()),
                forall|j: int| 0 <= j < k ==> !is_word(source, (#[trigger] kids@[j]).0 as int, "pPrChange".spec_bytes()),
            decreases kids@.len() - k,
        {
            if word(source, kids[k], "pPrChange") {
                proof {
                    assert(is_word(source, kids@[k as int].0 as int, "pPrChange".spec_bytes()));
                }
                return false;
            }
            k += 1;
        }
        return true;
    }
    if word(source, id, "r") {
        return is_safe_run(source, id);
    }
    if !word(source, id, "hyperlink") {
        return false;
    }
    let mut k: usize = 0;
    while k < kids.len()
        invariant
            source.wf(),
            kids@ == source.spec_children(id.0 as int),
            forall|j: int| 0 <= j < kids@.len() ==> source.valid_id(#[trigger] kids@[j]),
            k <= kids@.len(),
            !is_word(source, id.0 as int, "pPr".spec_bytes()),
            !is_word(source, id.0 as int, "r".spec_bytes()),
            is_word(source, id.0 as int, "hyperlink".spec_bytes()),
            forall|j: int| 0 <= j < k ==> safe_run(source, (#[trigger] kids@[j]).0 as int),
        decreases kids@.len() - k,
    {
        if !is_safe_run(source, kids[k]) {
            proof {
                assert(!safe_run(source, kids@[k as int].0 as int));
            }
            return false;
        }
        k += 1;
    }
    true
}

pub fn is_safe_to_delete(source: &SourceDocument, paragraph: NodeId) -> (r: bool)
    requires
        source.wf(),
        source.valid_id(paragraph),
    ensures
        r == safe_to_delete(source, paragraph),
{
    let kids = source.children(paragraph);
    let _end = source.subtree_end(paragraph);
    let mut k: usize = 0;
    while k < kids.len()
        invariant
            source.wf(),
            kids@ == source.spec_children(paragraph.0 as int),
            forall|j: int| 0 <= j < kids@.len() ==> source.valid_id(#[trigger] kids@[j]),
            k <= kids@.len(),
            forall|j: int| 0 <= j < k ==> safe_paragraph_child(source, (#[trigger] kids@[j]).0 as int),
        decreases kids@.len() - k,
    {
        if !is_safe_paragraph_child(source, kids[k]) {
            return false;
        }
        k += 1;
    }
    true
}

/// A tracked insertion, deletion or move wrapper.
pub open spec fn revision_wrapper(d: &SourceDocument, i: int) -> bool {
    is_word(d, i, "ins".spec_bytes()) || is_word(d, i, "del".spec_bytes()) || is_word(d, i, "moveFrom".spec_bytes())
        || is_word(d, i, "moveTo".spec_bytes())
}

/// The element `p` is, or holds, a revision wrapper.
pub open spec fn has_revision_wrapper(d: &SourceDocument, p: NodeId) -> bool {
    exists|i: int| p.0 <= i < d.subtree_ends@[p.0 as int] && #[trigger] revision_wrapper(d, i)
}

pub fn find_revision_wrapper(source: &SourceDocument, p: NodeId) -> (r: bool)
    requires
        source.wf(),
        source.valid_id(p),
    ensures
        r == has_revision_wrapper(source, p),
{
    let end = source.subtree_end(p);
    let mut i = p.0;
    while i < end
        invariant
            source.wf(),
            p.0 <= i <= end <= source.nodes@.len(),
            end == source.subtree_ends@[p.0 as int],
            forall|j: int| p.0 <= j < i ==> !#[trigger] revision_wrapper(source, j),
        decreases end - i,
    {
        let id = NodeId(i);
        if word(source, id, "ins") || word(source, id, "del") || word(source, id, "moveFrom") || word(source, id, "moveTo") {
            proof {
                assert(revision_wrapper(source, i as int));
            }
            return true;
        }
        i += 1;
    }
    false
}

/// An ordinary paragraph directly in the main document's body: no section break of its
/// own, no tracked-change wrapper.
pub open spec fn safe_body_paragraph(d: &SourceDocument, p: NodeId) -> bool {
    &&& d.spec_parent(p.0 as int) matches Some(body)
    &&& is_word(d, body.0 as int, "body".spec_bytes())
    &&& d.spec_parent(body.0 as int) matches Some(doc)
    &&& is_word(d, doc.0 as int, "document".spec_bytes())
    &&& !crate::mutation::page_setup::paragraph_section(d, p)
    &&& !has_revision_wrapper(d, p)
}

pub fn is_safe_body_paragraph(source: &SourceDocument, p: NodeId) -> (r: bool)
    requires
        source.wf(),
        source.valid_id(p),
    ensures
        r == safe_body_paragraph(source, p),
{
    let body = match source.parent(p) {
        Some(b) => b,
        None => return false,
    };
    if !word(source, body, "body") {
        return false;
    }
    let doc = match source.parent(body) {
        Some(d) => d,
        None => return false,
    };
    word(source, doc, "document") && !crate::mutation::page_setup::has_paragraph_section(source, p)
        && !find_revision_wrapper(source, p)
}

/// Where `pat` occurs in `t` at or after `from`, left to right without overlaps.
pub open spec fn occurrences(t: Seq<u8>, pat: Seq<u8>, from: int) -> Seq<int>
    decreases t.len() - from,
{
    if pat.len() == 0 || from < 0 || from + pat.len() > t.len() {
        seq![]
    } else if occurs_at(t, from, pat) {
        seq![from] + occurrences(t, pat, from + pat.len())
    } else {
        occurrences(t, pat, from + 1)
    }
}

fn count_occurrences(t: &[u8], pat: &[u8]) -> (r: usize)
    requires
        pat@.len() > 0,
    ensures
        r == occurrences(t@, pat@, 0).len(),
{
    let mut count: usize = 0;
    let mut i: usize = 0;
    while i < t.len() && pat.len() <= t.len() - i
        invariant
            pat@.len() > 0,
            i <= t@.len(),
            count <= i,
            count + occurrences(t@, pat@, i as int).len() == occurrences(t@, pat@, 0).len(),
        decreases t@.len() - i,
    {
        if matches_at(t, i, pat) {
            count += 1;
            i += pat.len();
        } else {
            i += 1;
        }
    }
    count
}

/// The paragraph of each occurrence of `pat` in the text of each paragraph among the
/// nodes `0..upto`, in document order; `None` when a paragraph's text cannot be read.
pub open spec fn text_matches(d: &SourceDocument, pat: Seq<u8>, upto: int) -> Option<Seq<NodeId>>
    decreases upto,
{
    if upto <= 0 {
        Some(seq![])
    } else {
        let i = upto - 1;
        match text_matches(d, pat, i) {
            None => None,
            Some(ms) => if is_word(d, i, "p".spec_bytes()) {
                match block_text(d, NodeId(i as usize)) {
                    Some(t) => Some(ms + Seq::new(occurrences(t, pat, 0).len(), |k: int| NodeId(i as usize))),
                    None => None,
                }
            } else {
                Some(ms)
            },
        }
    }
}

proof fn lemma_text_matches_none(d: &SourceDocument, pat: Seq<u8>, k: int, upto: int)
    requires
        0 <= k <= upto,
        text_matches(d, pat, k) is None,
    ensures
        text_matches(d, pat, upto) is None,
    decreases upto - k,
{
    if k < upto {
        lemma_text_matches_none(d, pat, k, upto - 1);
    }
}

/// The paragraph of each occurrence of the text in the main part.
fn find_text_paragraphs(source: &SourceDocument, pat: &[u8]) -> (r: Result<Vec<NodeId>, OperationFailure>)
    requires
        source.wf(),
        pat@.len() > 0,
    ensures
        match r {
            Ok(v) => text_matches(source, pat@, source.nodes@.len() as int) == Some(v@)
                && forall|k: int| 0 <= k < v@.len() ==> source.valid_id(#[trigger] v@[k]),
            Err(e) => text_matches(source, pat@, source.nodes@.len() as int) is None && e.code == FailureCode::DocumentInvalid,
        },
{
    let n = source.node_count();
    let mut found: Vec<NodeId> = Vec::new();
    let mut i: usize = 0;
    while i < n
        invariant
            source.wf(),
            n == source.nodes@.len(),
            pat@.len() > 0,
            i <= n,
            text_matches(source, pat@, i as int) == Some(found@),
            forall|k: int| 0 <= k < found@.len() ==> (#[trigger] found@[k]).0 < i,
        decreases n - i,
    {
        let id = NodeId(i);
        if word(source, id, "p") {
            let span = source.span(id);
            let text = match collect_text(source, "t", span.start, span.end, false) {
                Ok(t) => t,
                Err(_) => {
                    proof {
                        lemma_text_matches_none(source, pat@, i as int + 1, n as int);
                    }
                    return Err(document_invalid());
                },
            };
            let count = count_occurrences(text.as_slice(), pat);
            let ghost before = found@;
            let mut c: usize = 0;
            while c < count
                invariant
                    c <= count,
                    i < n,
                    id == NodeId(i),
                    found@ == before + Seq::new(c as nat, |k: int| NodeId(i)),
                    forall|k: int| 0 <= k < before.len() ==> (#[trigger] before[k]).0 < i,
                decreases count - c,
            {
                found.push(id);
                c += 1;
                proof {
                    assert(found@ =~= before + Seq::new(c as nat, |k: int| NodeId(i)));
                }
            }
            proof {
                assert(found@ =~= before + Seq::new(occurrences(text@, pat@, 0).len(), |k: int| NodeId(i as usize)));
                assert forall|k: int| 0 <= k < found@.len() implies (#[trigger] found@[k]).0 < i + 1 by {
                    if k >= before.len() {
                        assert(found@[k] == NodeId(i));
                    } else {
                        assert(found@[k] == before[k]);
                    }
                }
            }
        }
        i += 1;
    }
    Ok(found)
}

/// The paragraph a text target anchors to: among the occurrences of the text, the
/// requested one, else the only one; it must be an ordinary direct body paragraph.
pub open spec fn spec_paragraph_anchor(d: &SourceDocument, target: TextTarget) -> Result<NodeId, FailureCode> {
    let pat = vstd::utf8::encode_utf8(target.text@);
    if pat.len() == 0 {
        Err(FailureCode::InvalidOperation)
    } else {
        match text_matches(d, pat, d.nodes@.len() as int) {
            None => Err(FailureCode::DocumentInvalid),
            Some(ms) => if ms.len() == 0 {
                Err(FailureCode::TargetNotFound)
            } else {
                let chosen = match target.occurrence {
                    Some(n) => if n < ms.len() {
                        Ok(ms[n as int])
                    } else {
                        Err(FailureCode::TargetNotFound)
                    },
                    None => if ms.len() != 1 {
                        Err(FailureCode::TargetAmbiguous)
                    } else {
                        Ok(ms[0])
                    },
                };
                match chosen {
                    Err(c) => Err(c),
                    Ok(p) => if safe_body_paragraph(d, p) {
                        Ok(p)
                    } else {
                        Err(FailureCode::UnsupportedOperation)
                    },
                }
            },
        }
    }
}

/// Resolves a text target to the paragraph it anchors to, with the matched text.
pub fn resolve_paragraph_anchor(source: &SourceDocument, target: &TextTarget) -> (r: Result<(String, NodeId), OperationFailure>)
    requires
        source.wf(),
    ensures
        match r {
            Ok((text, p)) => spec_paragraph_anchor(source, *target) == Ok::<NodeId, FailureCode>(p)
                && text@ == target.text@ && source.valid_id(p),
            Err(e) => spec_paragraph_anchor(source, *target) == Err::<NodeId, FailureCode>(e.code),
        },
{
    let pat = target.text.as_str().as_bytes();
    if pat.len() == 0 {
        return Err(OperationFailure::failed(FailureCode::InvalidOperation, "text target is empty"));
    }
    let matches = find_text_paragraphs(source, pat)?;
    if matches.len() == 0 {
        return Err(OperationFailure::failed(FailureCode::TargetNotFound, "text target was not found"));
    }
    let paragraph = match target.occurrence {
        Some(n) => {
            if n >= matches.len() {
                return Err(OperationFailure::failed(FailureCode::TargetNotFound, "text target occurrence was not found"));
            }
            matches[n]
        },
        None => {
            if matches.len() != 1 {
                return Err(OperationFailure::failed(FailureCode::TargetAmbiguous, "text target matches more than one current semantic range"));
            }
            matches[0]
        },
    };
    if !is_safe_body_paragraph(source, paragraph) {
        return Err(unsupported("insert_paragraph_after supports only ordinary direct body paragraphs"));
    }
    Ok((target.text.clone(), paragraph))
}

/// A plain paragraph written with the prefix of an existing paragraph.
pub fn paragraph_fragment(source: &SourceDocument, paragraph: NodeId, text: &str) -> (r: Result<Vec<u8>, OperationFailure>)
    requires
        source.wf(),
        source.valid_id(paragraph),
    ensures
        match r {
            Ok(v) => spec_word_prefix(source, paragraph.0 as int, "p".spec_bytes()) matches Some(prefix)
                && v@ == paragraph_markup(prefix, text@),
            Err(e) => spec_word_prefix(source, paragraph.0 as int, "p".spec_bytes()) is None,
        },
{
    let prefix = word_prefix(source, paragraph)?;
    Ok(paragraph_fragment_with_prefix(prefix.as_slice(), text))
}

/// A plain paragraph written with the prefix of the body.
pub fn paragraph_fragment_for_body(source: &SourceDocument, body: NodeId, text: &str) -> (r: Result<Vec<u8>, OperationFailure>)
    requires
        source.wf(),
        source.valid_id(body),
    ensures
        match r {
            Ok(v) => spec_word_prefix(source, body.0 as int, "body".spec_bytes()) matches Some(prefix)
                && v@ == paragraph_markup(prefix, text@),
            Err(e) => spec_word_prefix(source, body.0 as int, "body".spec_bytes()) is None
                && e.code == FailureCode::UnsupportedOperation,
        },
{
    let prefix = word_prefix_for(source, body, "body")?;
    Ok(paragraph_fragment_with_prefix(prefix.as_slice(), text))
}

/// The markup of plain paragraphs, one per text, in order.
pub open spec fn paragraphs_markup(prefix: Seq<u8>, texts: Seq<String>) -> Seq<u8>
    decreases texts.len(),
{
    if texts.len() == 0 {
        seq![]
    } else {
        paragraphs_markup(prefix, texts.drop_last()) + paragraph_markup(prefix, texts.last()@)
    }
}

/// Where paragraphs inserted at `index` among the body blocks go: before that block,
/// else before the body's section properties, else before the body's closing tag. The
/// body's section properties, if any, must be its last child.
pub open spec fn spec_paragraph_insertion(d: &SourceDocument, body: NodeId, blocks: Seq<NodeId>, index: int) -> Result<int, FailureCode> {
    match spec_terminal_section(d, body) {
        Err(c) => Err(c),
        Ok(section) => if index < blocks.len() {
            Ok(d.spec_span(blocks[index].0 as int).start as int)
        } else {
            match section {
                Some(s) => Ok(d.spec_span(s.0 as int).start as int),
                None => match last_open_angle(
                    d.bytes@,
                    d.spec_span(body.0 as int).start as int,
                    d.spec_span(body.0 as int).end as int,
                ) {
                    Some(p) => Ok(p),
                    None => Err(FailureCode::UnsupportedOperation),
                },
            }
        },
    }
}

/// The body has, from `index` on, one paragraph per text holding that text.
pub open spec fn inserted_matches(d: &SourceDocument, index: int, texts: Seq<String>) -> bool {
    match spec_body(d) {
        Ok(body) => forall|k: int| 0 <= k < texts.len() ==> {
            &&& index + k < body_blocks(d, body).len()
            &&& is_word(d, (#[trigger] body_blocks(d, body)[index + k]).0 as int, "p".spec_bytes())
            &&& block_text(d, body_blocks(d, body)[index + k]) == Some(vstd::utf8::encode_utf8(texts[k]@))
        },
        Err(_) => false,
    }
}

pub open spec fn inserted_reads_back(out: Seq<u8>, index: int, texts: Seq<String>) -> bool {
    exists|d2: SourceDocument| #![trigger d2.bytes] d2.wf() && d2.bytes@ == out && d2.faithful() && inserted_matches(&d2, index, texts)
}

/// The edited part parses, and every reading of it holds the paragraphs from `index` on.
pub open spec fn inserted_reads_back_all(out: Seq<u8>, index: int, texts: Seq<String>) -> bool {
    &&& crate::source::accepts(out)
    &&& forall|d2: SourceDocument| #![trigger d2.bytes] d2.wf() && d2.bytes@ == out && d2.faithful() ==> inserted_matches(&d2, index, texts)
}

proof fn lemma_inserted_at(d: &SourceDocument, index: int, texts: Seq<String>, k: int)
    requires
        0 <= k < texts.len(),
        inserted_matches(d, index, texts),
    ensures
        spec_body(d) matches Ok(body) && index + k < body_blocks(d, body).len() && is_word(
            d,
            body_blocks(d, body)[index + k].0 as int,
            "p".spec_bytes(),
        ) && block_text(d, body_blocks(d, body)[index + k]) == Some(vstd::utf8::encode_utf8(texts[k]@)),
{
}

fn check_inserted(out: &Vec<u8>, index: usize, texts: &Vec<String>) -> (r: Result<(), OperationFailure>)
    ensures
        r is Ok ==> inserted_reads_back(out@, index as int, texts@),
        r is Err ==> !inserted_reads_back_all(out@, index as int, texts@),
{
    let reread = match SourceDocument::parse(copy_bytes(out.as_slice())) {
        Ok(d) => d,
        Err(_) => return Err(document_invalid()),
    };
    assert(reread.bytes == reread.bytes);
    let (body, blocks) = match direct_body_blocks(&reread) {
        Ok(x) => x,
        Err(e) => {
            assert(!inserted_matches(&reread, index as int, texts@));
            return Err(e);
        },
    };
    let mut k: usize = 0;
    while k < texts.len()
        invariant
            reread.wf(),
            reread.bytes@ == out@,
            reread.faithful(),
            spec_body(&reread) == Ok::<NodeId, crate::wordml::SemanticError>(body),
            blocks@ == body_blocks(&reread, body),
            forall|j: int| 0 <= j < blocks@.len() ==> reread.valid_id(#[trigger] blocks@[j]),
            k <= texts@.len(),
            forall|j: int| 0 <= j < k ==> {
                &&& index + j < blocks@.len()
                &&& is_word(&reread, (#[trigger] blocks@[index + j]).0 as int, "p".spec_bytes())
                &&& block_text(&reread, blocks@[index + j]) == Some(vstd::utf8::encode_utf8(texts@[j]@))
            },
        decreases texts@.len() - k,
    {
        if index >= blocks.len() || blocks.len() - index <= k {
            proof {
                if inserted_matches(&reread, index as int, texts@) {
                    lemma_inserted_at(&reread, index as int, texts@, k as int);
                }
            }
            return Err(OperationFailure::failed(FailureCode::DocumentInvalid, "inserted paragraph was not found"));
        }
        let paragraph = blocks[index + k];
        if !word(&reread, paragraph, "p") {
            proof {
                if inserted_matches(&reread, index as int, texts@) {
                    lemma_inserted_at(&reread, index as int, texts@, k as int);
                }
            }
            return Err(OperationFailure::failed(FailureCode::DocumentInvalid, "inserted paragraph is not at the requested body position"));
        }
        let span = reread.span(paragraph);
        let text = match collect_text(&reread, "t", span.start, span.end, false) {
            Ok(t) => t,
            Err(_) => {
                proof {
                    if inserted_matches(&reread, index as int, texts@) {
                        lemma_inserted_at(&reread, index as int, texts@, k as int);
                    }
                }
                return Err(document_invalid());
            },
        };
        if !bytes_equal(text.as_slice(), texts[k].as_str().as_bytes()) {
            proof {
                if inserted_matches(&reread, index as int, texts@) {
                    lemma_inserted_at(&reread, index as int, texts@, k as int);
                }
            }
            return Err(OperationFailure::failed(FailureCode::DocumentInvalid, "inserted paragraph text does not match request"));
        }
        k += 1;
    }
    proof {
        assert(inserted_matches(&reread, index as int, texts@));
        assert(reread.bytes == reread.bytes);
    }
    Ok(())
}

/// Every step of a paragraph insertion at a resolved placement can be taken, and every
/// reading of the edited part holds the paragraphs in place.
pub open spec fn paragraphs_insertable(source: &SourceDocument, texts: Seq<String>, placement: ResolvedParagraphPlacement) -> bool {
    &&& spec_body(source) matches Ok(body)
    &&& spec_placement_index(body_blocks(source, body), placement) matches Some(index)
    &&& spec_paragraph_insertion(source, body, body_blocks(source, body), index) matches Ok(at)
    &&& spec_word_prefix(source, body.0 as int, "body".spec_bytes()) matches Some(prefix)
    &&& inserted_reads_back_all(
        source.bytes@.subrange(0, at) + paragraphs_markup(prefix, texts) + source.bytes@.subrange(at, source.bytes@.len() as int),
        index,
        texts,
    )
}

/// Inserts plain paragraphs at a resolved body placement and returns the edited main
/// part, read back to hold the paragraphs in place.
#[verifier::rlimit(30)]
pub fn insert_paragraph_bytes(source: &SourceDocument, texts: &Vec<String>, placement: ResolvedParagraphPlacement) -> (r: Result<Vec<u8>, OperationFailure>)
    requires
        source.wf(),
    ensures
        r matches Ok(out) ==> {
            &&& spec_body(source) matches Ok(body)
            &&& spec_placement_index(body_blocks(source, body), placement) matches Some(index)
            &&& spec_paragraph_insertion(source, body, body_blocks(source, body), index) matches Ok(at)
            &&& spec_word_prefix(source, body.0 as int, "body".spec_bytes()) matches Some(prefix)
            &&& out@ == source.bytes@.subrange(0, at) + paragraphs_markup(prefix, texts@) + source.bytes@.subrange(at, source.bytes@.len() as int)
            &&& inserted_reads_back(out@, index, texts@)
        },
        r is Err ==> !paragraphs_insertable(source, texts@, placement),
{
    let (body, blocks) = direct_body_blocks(source)?;
    let index = placement_index(&blocks, placement)?;
    let section = terminal_section_properties(source, body)?;
    let at = if index < blocks.len() {
        source.span(blocks[index]).start
    } else {
        match section {
            Some(s) => source.span(s).start,
            None => {
                let p = body_closing_start(source, body)?;
                proof {
                    let span = source.spec_span(body.0 as int);
                    crate::mutation::common::lemma_last_open_angle(source.bytes@, span.start as int, span.end as int);
                }
                p
            },
        }
    };
    let prefix = word_prefix_for(source, body, "body")?;
    let mut fragment: Vec<u8> = Vec::new();
    let mut k: usize = 0;
    while k < texts.len()
        invariant
            k <= texts@.len(),
            fragment@ == paragraphs_markup(prefix@, texts@.take(k as int)),
        decreases texts@.len() - k,
    {
        let piece = paragraph_fragment_with_prefix(prefix.as_slice(), texts[k].as_str());
        push_bytes(&mut fragment, piece.as_slice());
        proof {
            assert(texts@.take(k as int + 1).drop_last() =~= texts@.take(k as int));
        }
        k += 1;
    }
    proof {
        assert(texts@.take(texts@.len() as int) =~= texts@);
    }
    let out = apply_single_patch(source, Patch { span: SourceSpan { start: at, end: at }, replacement: fragment });
    check_inserted(&out, index, texts)?;
    Ok(out)
}

/// Inserts one plain paragraph at a direct body placement.
pub fn insert_paragraph_to_vec(source: &SourceDocument, operation: &InsertParagraph) -> (r: Result<Vec<u8>, OperationFailure>)
    requires
        source.wf(),
    ensures
        spec_resolved_placement(source, operation.placement) is None ==> r is Err,
        r matches Ok(out) ==> {
            &&& spec_resolved_placement(source, operation.placement) matches Some(placement)
            &&& spec_body(source) matches Ok(body)
            &&& spec_placement_index(body_blocks(source, body), placement) matches Some(index)
            &&& spec_paragraph_insertion(source, body, body_blocks(source, body), index) matches Ok(at)
            &&& spec_word_prefix(source, body.0 as int, "body".spec_bytes()) matches Some(prefix)
            &&& out@ == source.bytes@.subrange(0, at) + paragraph_markup(prefix, operation.text@) + source.bytes@.subrange(at, source.bytes@.len() as int)
            &&& inserted_reads_back(out@, index, seq![operation.text])
        },
        r is Err ==> !(spec_resolved_placement(source, operation.placement) matches Some(placement)
            && paragraphs_insertable(source, seq![operation.text], placement)),
{
    let placement = resolve_paragraph_placement(source, &operation.placement)?;
    let mut texts: Vec<String> = Vec::new();
    texts.push(operation.text.clone());
    proof {
        assert(texts@ =~= seq![operation.text]);
        assert(texts@.drop_last() =~= Seq::<String>::empty());
    }
    let out = insert_paragraph_bytes(source, &texts, placement)?;
    proof {
        let prefix = spec_word_prefix(source, spec_body(source)->Ok_0.0 as int, "body".spec_bytes())->0;
        assert(paragraphs_markup(prefix, texts@) =~= paragraphs_markup(prefix, texts@.drop_last()) + paragraph_markup(prefix, operation.text@));
    }
    Ok(out)
}

/// Inserts one plain paragraph after the ordinary direct body paragraph a text target
/// anchors to.
pub fn insert_paragraph_after(source: &SourceDocument, operation: &InsertParagraphAfter) -> (r: Result<Vec<u8>, OperationFailure>)
    requires
        source.wf(),
    ensures
        spec_paragraph_anchor(source, operation.anchor) matches Err(c) ==> r matches Err(e) && e.code == c,
        r matches Ok(out) ==> {
            &&& spec_paragraph_anchor(source, operation.anchor) matches Ok(p)
            &&& spec_body(source) matches Ok(body)
            &&& spec_placement_index(body_blocks(source, body), ResolvedParagraphPlacement::After(p)) matches Some(index)
            &&& spec_paragraph_insertion(source, body, body_blocks(source, body), index) matches Ok(at)
            &&& spec_word_prefix(source, body.0 as int, "body".spec_bytes()) matches Some(prefix)
            &&& out@ == source.bytes@.subrange(0, at) + paragraph_markup(prefix, operation.text@) + source.bytes@.subrange(at, source.bytes@.len() as int)
            &&& inserted_reads_back(out@, index, seq![operation.text])
        },
        r is Err ==> !(spec_paragraph_anchor(source, operation.anchor) matches Ok(p)
            && paragraphs_insertable(source, seq![operation.text], ResolvedParagraphPlacement::After(p))),
{
    let (_, paragraph) = resolve_paragraph_anchor(source, &operation.anchor)?;
    let mut texts: Vec<String> = Vec::new();
    texts.push(operation.text.clone());
    proof {
        assert(texts@ =~= seq![operation.text]);
        assert(texts@.drop_last() =~= Seq::<String>::empty());
    }
    let out = insert_paragraph_bytes(source, &texts, ResolvedParagraphPlacement::After(paragraph))?;
    proof {
        let prefix = spec_word_prefix(source, spec_body(source)->Ok_0.0 as int, "body".spec_bytes())->0;
        assert(paragraphs_markup(prefix, texts@) =~= paragraphs_markup(prefix, texts@.drop_last()) + paragraph_markup(prefix, operation.text@));
    }
    Ok(out)
}

/// Inserts several plain paragraphs, between one and a hundred, as one edit.
pub fn insert_paragraphs_to_vec(source: &SourceDocument, operation: &InsertParagraphs) -> (r: Result<Vec<u8>, OperationFailure>)
    requires
        source.wf(),
    ensures
        operation.texts@.len() == 0 || operation.texts@.len() > MAX_PARAGRAPHS_PER_OPERATION ==> match r {
            Err(e) => e.code == FailureCode::InvalidOperation,
            Ok(_) => false,
        },
        r matches Ok(out) ==> {
            &&& 1 <= operation.texts@.len() <= MAX_PARAGRAPHS_PER_OPERATION
            &&& spec_resolved_placement(source, operation.placement) matches Some(placement)
            &&& spec_body(source) matches Ok(body)
            &&& spec_placement_index(body_blocks(source, body), placement) matches Some(index)
            &&& spec_paragraph_insertion(source, body, body_blocks(source, body), index) matches Ok(at)
            &&& spec_word_prefix(source, body.0 as int, "body".spec_bytes()) matches Some(prefix)
            &&& out@ == source.bytes@.subrange(0, at) + paragraphs_markup(prefix, operation.texts@) + source.bytes@.subrange(at, source.bytes@.len() as int)
            &&& inserted_reads_back(out@, index, operation.texts@)
        },
        r is Err ==> !(1 <= operation.texts@.len() <= MAX_PARAGRAPHS_PER_OPERATION
            && (spec_resolved_placement(source, operation.placement) matches Some(placement)
            && paragraphs_insertable(source, operation.texts@, placement))),
{
    if operation.texts.len() == 0 || operation.texts.len() > MAX_PARAGRAPHS_PER_OPERATION {
        return Err(OperationFailure::failed(FailureCode::InvalidOperation, "insert_paragraphs requires between 1 and 100 paragraphs"));
    }
    let placement = resolve_paragraph_placement(source, &operation.placement)?;
    insert_paragraph_bytes(source, &operation.texts, placement)
}

/// The edited part parses, and its reading has a document body.
pub open spec fn body_reads_all(out: Seq<u8>) -> bool {
    &&& crate::source::accepts(out)
    &&& forall|d2: SourceDocument| #![trigger d2.bytes] d2.wf() && d2.bytes@ == out && d2.faithful() ==> spec_body(&d2) is Ok
}

/// Deletes the paragraph a text target anchors to, when it holds only plain runs, and
/// returns the edited main part, which must still read as a document.
pub fn delete_paragraph_to_vec(source: &SourceDocument, operation: &DeleteParagraph) -> (r: Result<Vec<u8>, OperationFailure>)
    requires
        source.wf(),
    ensures
        match r {
            Ok(out) => spec_paragraph_anchor(source, operation.target) matches Ok(p) && safe_to_delete(source, p)
                && out@ == source.bytes@.subrange(0, source.spec_span(p.0 as int).start as int)
                    + source.bytes@.subrange(source.spec_span(p.0 as int).end as int, source.bytes@.len() as int),
            Err(e) => match spec_paragraph_anchor(source, operation.target) {
                Err(c) => c == e.code,
                Ok(p) => !safe_to_delete(source, p) ==> e.code == FailureCode::UnsupportedOperation,
            },
        },
        r is Err ==> !(spec_paragraph_anchor(source, operation.target) matches Ok(p) && safe_to_delete(source, p)
            && body_reads_all(source.bytes@.subrange(0, source.spec_span(p.0 as int).start as int)
                + source.bytes@.subrange(source.spec_span(p.0 as int).end as int, source.bytes@.len() as int))),
{
    let (_, paragraph) = resolve_paragraph_anchor(source, &operation.target)?;
    if !is_safe_to_delete(source, paragraph) {
        return Err(unsupported("delete_paragraph rejects paragraphs with ranges, fields, controls, revisions, or unsupported wrappers"));
    }
    let span = source.span(paragraph);
    let out = apply_single_patch(source, Patch { span, replacement: Vec::new() });
    proof {
        assert(out@ =~= source.bytes@.subrange(0, span.start as int) + source.bytes@.subrange(span.end as int, source.bytes@.len() as int));
    }
    match SourceDocument::parse(copy_bytes(out.as_slice())) {
        Ok(reread) => {
            assert(reread.bytes == reread.bytes);
            if direct_body_blocks(&reread).is_err() {
                return Err(document_invalid());
            }
        },
        Err(_) => return Err(document_invalid()),
    }
    Ok(out)
}

} // verus!
