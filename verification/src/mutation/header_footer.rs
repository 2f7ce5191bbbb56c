use vstd::prelude::*;
use vstd::string::StringSliceAdditionalSpecFns;

use crate::bytes::{bytes_are, copy_range, utf8_string};
use crate::escape::{unescape_text, xml_unescaped};
use crate::header_footer::HeaderFooterKind;
use crate::protocol::PageNumberAlignment;
use crate::source::{NodeId, SourceDocument, SourceNodeKind};
use crate::wordml::{is_word, word};

verus! {

/// The bounded semantic state of one effective default header or footer.
#[derive(Clone, Debug, PartialEq, Eq)]
pub enum HeaderFooterInspection {
    Absent,
    SimpleText(String),
    SimplePageNumber(PageNumberAlignment),
    SimpleTextAndPageNumber(String, PageNumberAlignment),
    Unsupported,
}

/// What an inspection of a header or footer says, with its text as characters.
pub enum InspectionView {
    Absent,
    Text(Seq<char>),
    Page(PageNumberAlignment),
    TextAndPage(Seq<char>, PageNumberAlignment),
    Unsupported,
}

impl View for HeaderFooterInspection {
    type V = InspectionView;

    open spec fn view(&self) -> InspectionView {
        match self {
            HeaderFooterInspection::Absent => InspectionView::Absent,
            HeaderFooterInspection::SimpleText(t) => InspectionView::Text(t@),
            HeaderFooterInspection::SimplePageNumber(a) => InspectionView::Page(*a),
            HeaderFooterInspection::SimpleTextAndPageNumber(t, a) => InspectionView::TextAndPage(t@, *a),
            HeaderFooterInspection::Unsupported => InspectionView::Unsupported,
        }
    }
}

/// Whether two inspections say the same.
pub fn same_inspection(a: &HeaderFooterInspection, b: &HeaderFooterInspection) -> (r: bool)
    ensures
        r == (a@ == b@),
{
    match a {
        HeaderFooterInspection::Absent => match b {
            HeaderFooterInspection::Absent => true,
            _ => false,
        },
        HeaderFooterInspection::SimpleText(x) => match b {
            HeaderFooterInspection::SimpleText(y) => *x == *y,
            _ => false,
        },
        HeaderFooterInspection::SimplePageNumber(x) => match b {
            HeaderFooterInspection::SimplePageNumber(y) => *x == *y,
            _ => false,
        },
        HeaderFooterInspection::SimpleTextAndPageNumber(x, p) => match b {
            HeaderFooterInspection::SimpleTextAndPageNumber(y, q) => *x == *y && *p == *q,
            _ => false,
        },
        HeaderFooterInspection::Unsupported => match b {
            HeaderFooterInspection::Unsupported => true,
            _ => false,
        },
    }
}

/// What a simple part's content is inspected as: its text (empty without a text
/// paragraph) and its page number.
pub open spec fn content_view(c: (Option<Seq<char>>, Option<PageNumberAlignment>)) -> InspectionView {
    match c {
        (None, None) => InspectionView::Text(seq![]),
        (Some(t), None) => InspectionView::Text(t),
        (None, Some(a)) => InspectionView::Page(a),
        (Some(t), Some(a)) => InspectionView::TextAndPage(t, a),
    }
}

/// The bounded semantic state of one basic PAGE field.
#[derive(Clone, Copy, Debug, PartialEq, Eq, Structural)]
pub enum PageNumberInspection {
    Absent,
    Header(PageNumberAlignment),
    Footer(PageNumberAlignment),
    Unsupported,
}

/// The children of `kids` other than `skip` elements, text nodes included.
pub open spec fn children_except(d: &SourceDocument, kids: Seq<NodeId>, skip: Seq<u8>) -> Seq<NodeId>
    decreases kids.len(),
{
    if kids.len() == 0 {
        seq![]
    } else {
        let rest = children_except(d, kids.drop_last(), skip);
        if !is_word(d, kids.last().0 as int, skip) {
            rest.push(kids.last())
        } else {
            rest
        }
    }
}

proof fn lemma_children_except(d: &SourceDocument, kids: Seq<NodeId>, skip: Seq<u8>)
    ensures
        forall|k: int| 0 <= k < children_except(d, kids, skip).len() ==> kids.contains(#[trigger] children_except(d, kids, skip)[k]),
    decreases kids.len(),
{
    if kids.len() > 0 {
        let init = kids.drop_last();
        lemma_children_except(d, init, skip);
        let rest = children_except(d, init, skip);
        assert forall|k: int| 0 <= k < rest.len() implies kids.contains(#[trigger] rest[k]) by {
            let j = choose|j: int| 0 <= j < init.len() && init[j] == rest[k];
            assert(kids[j] == rest[k]);
        }
        assert(kids[kids.len() - 1] == kids.last());
    }
}

fn child_nodes_except(source: &SourceDocument, parent: NodeId, skip: &str) -> (r: Vec<NodeId>)
    requires
        source.wf(),
        source.valid_id(parent),
    ensures
        r@ == children_except(source, source.spec_children(parent.0 as int), skip.spec_bytes()),
        forall|k: int| 0 <= k < r@.len() ==> source.valid_id(#[trigger] r@[k]),
{
    let kids = source.children(parent);
    let _end = source.subtree_end(parent);
    let mut found: Vec<NodeId> = Vec::new();
    let mut k: usize = 0;
    while k < kids.len()
        invariant
            source.wf(),
            kids@ == source.spec_children(parent.0 as int),
            forall|j: int| 0 <= j < kids@.len() ==> source.valid_id(#[trigger] kids@[j]),
            k <= kids@.len(),
            found@ == children_except(source, kids@.take(k as int), skip.spec_bytes()),
        decreases kids@.len() - k,
    {
        assert(kids@.take(k as int + 1).drop_last() == kids@.take(k as int));
        let c = kids[k];
        if !word(source, c, skip) {
            found.push(c);
        }
        k += 1;
    }
    assert(kids@.take(kids@.len() as int) == kids@);
    proof {
        lemma_children_except(source, kids@, skip.spec_bytes());
        assert forall|j: int| 0 <= j < found@.len() implies source.valid_id(#[trigger] found@[j]) by {
            let i = choose|i: int| 0 <= i < kids@.len() && kids@[i] == found@[j];
        }
    }
    found
}

/// The text of a paragraph that is one run holding one text element (properties
/// aside): the element's single text child, its references decoded by quick-xml, or
/// empty without one.
/// `None` for any other paragraph, or when the text cannot be read as UTF-8.
pub open spec fn simple_paragraph_text(d: &SourceDocument, p: NodeId) -> Option<Seq<char>> {
    let runs = children_except(d, d.spec_children(p.0 as int), "pPr".spec_bytes());
    if runs.len() != 1 || !is_word(d, runs[0].0 as int, "r".spec_bytes()) {
        None
    } else {
        let values = children_except(d, d.spec_children(runs[0].0 as int), "rPr".spec_bytes());
        if values.len() != 1 || !is_word(d, values[0].0 as int, "t".spec_bytes()) {
            None
        } else {
            let text = d.spec_children(values[0].0 as int);
            if text.len() > 1 || (text.len() == 1 && !(d.nodes@[text[0].0 as int].kind is Text)) {
                None
            } else if text.len() == 0 {
                Some(seq![])
            } else {
                let span = d.spec_span(text[0].0 as int);
                let raw = d.bytes@.subrange(span.start as int, span.end as int);
                if !vstd::utf8::valid_utf8(raw) {
                    None
                } else {
                    xml_unescaped(vstd::utf8::decode_utf8(raw))
                }
            }
        }
    }
}

pub fn simple_header_footer_paragraph_text(source: &SourceDocument, p: NodeId) -> (r: Option<String>)
    requires
        source.wf(),
        source.valid_id(p),
    ensures
        match r {
            Some(s) => simple_paragraph_text(source, p) == Some(s@),
            None => simple_paragraph_text(source, p) is None,
        },
{
    let runs = child_nodes_except(source, p, "pPr");
    if runs.len() != 1 || !word(source, runs[0], "r") {
        return None;
    }
    let values = child_nodes_except(source, runs[0], "rPr");
    if values.len() != 1 || !word(source, values[0], "t") {
        return None;
    }
    let text = source.children(values[0]);
    let _end = source.subtree_end(values[0]);
    if text.len() > 1 {
        return None;
    }
    if text.len() == 0 {
        return Some(String::new());
    }
    proof {
        crate::source::lemma_children(source, values@[0].0 as int);
    }
    let is_text = match &source.nodes[text[0].0].kind {
        SourceNodeKind::Text => true,
        _ => false,
    };
    if !is_text {
        return None;
    }
    let span = source.span(text[0]);
    let raw = copy_range(source.original_bytes(), span.start, span.end);
    match utf8_string(raw) {
        Some(text) => unescape_text(text.as_str()),
        None => None,
    }
}

/// The alignment of a paragraph that is exactly a justification and an empty
/// ` PAGE ` simple field.
pub open spec fn page_number_paragraph_alignment(d: &SourceDocument, p: NodeId) -> Option<PageNumberAlignment> {
    let kids = d.spec_children(p.0 as int);
    if kids.len() != 2 || !is_word(d, kids[0].0 as int, "pPr".spec_bytes()) || !is_word(d, kids[1].0 as int, "fldSimple".spec_bytes()) {
        None
    } else {
        let ppr = d.spec_children(kids[0].0 as int);
        if ppr.len() != 1 || !is_word(d, ppr[0].0 as int, "jc".spec_bytes()) {
            None
        } else {
            let alignment = match d.spec_attribute(ppr[0].0 as int, "val".spec_bytes()) {
                Some(v) => if v == "left".spec_bytes() {
                    Some(PageNumberAlignment::Left)
                } else if v == "center".spec_bytes() {
                    Some(PageNumberAlignment::Center)
                } else if v == "right".spec_bytes() {
                    Some(PageNumberAlignment::Right)
                } else {
                    None
                },
                None => None,
            };
            if d.spec_attribute(kids[1].0 as int, "instr".spec_bytes()) == Some(" PAGE ".spec_bytes())
                && d.spec_children(kids[1].0 as int).len() == 0 {
                alignment
            } else {
                None
            }
        }
    }
}

/// A page-number paragraph's alignment is what its `w:jc` `val` names literally: `left`
/// reads as left, `center` as centred and `right` as right, and nothing else reads as an
/// alignment.
pub proof fn law_page_number_alignment_read(d: &SourceDocument, p: NodeId)
    ensures
        ({
            let jc = d.spec_children(d.spec_children(p.0 as int)[0].0 as int)[0].0 as int;
            &&& page_number_paragraph_alignment(d, p) == Some(PageNumberAlignment::Left) ==> d.spec_attribute(jc, "val".spec_bytes())
                == Some("left".spec_bytes())
            &&& page_number_paragraph_alignment(d, p) == Some(PageNumberAlignment::Center) ==> d.spec_attribute(jc, "val".spec_bytes())
                == Some("center".spec_bytes())
            &&& page_number_paragraph_alignment(d, p) == Some(PageNumberAlignment::Right) ==> d.spec_attribute(jc, "val".spec_bytes())
                == Some("right".spec_bytes())
            &&& page_number_paragraph_alignment(d, p) is Some && d.spec_attribute(jc, "val".spec_bytes()) == Some("left".spec_bytes())
                ==> page_number_paragraph_alignment(d, p) == Some(PageNumberAlignment::Left)
            &&& page_number_paragraph_alignment(d, p) is Some && d.spec_attribute(jc, "val".spec_bytes()) == Some("center".spec_bytes())
                ==> page_number_paragraph_alignment(d, p) == Some(PageNumberAlignment::Center)
            &&& page_number_paragraph_alignment(d, p) is Some && d.spec_attribute(jc, "val".spec_bytes()) == Some("right".spec_bytes())
                ==> page_number_paragraph_alignment(d, p) == Some(PageNumberAlignment::Right)
        }),
{
    reveal_strlit("left");
    reveal_strlit("center");
    reveal_strlit("right");
    vstd::string::is_ascii_spec_bytes("left");
    vstd::string::is_ascii_spec_bytes("center");
    vstd::string::is_ascii_spec_bytes("right");
    assert(vstd::string::is_ascii("left"));
    assert(vstd::string::is_ascii("center"));
    assert(vstd::string::is_ascii("right"));
}

pub fn page_number_alignment(source: &SourceDocument, p: NodeId) -> (r: Option<PageNumberAlignment>)
    requires
        source.wf(),
        source.valid_id(p),
    ensures
        r == page_number_paragraph_alignment(source, p),
{
    let kids = source.children(p);
    let _end = source.subtree_end(p);
    proof {
        crate::source::lemma_children(source, p.0 as int);
    }
    if kids.len() != 2 || !word(source, kids[0], "pPr") || !word(source, kids[1], "fldSimple") {
        return None;
    }
    let ppr = source.children(kids[0]);
    let _ppr_end = source.subtree_end(kids[0]);
    proof {
        crate::source::lemma_children(source, kids@[0].0 as int);
    }
    if ppr.len() != 1 || !word(source, ppr[0], "jc") {
        return None;
    }
    let alignment = match source.attribute(ppr[0], "val") {
        Some(v) => if bytes_are(v.as_slice(), "left") {
            Some(PageNumberAlignment::Left)
        } else if bytes_are(v.as_slice(), "center") {
            Some(PageNumberAlignment::Center)
        } else if bytes_are(v.as_slice(), "right") {
            Some(PageNumberAlignment::Right)
        } else {
            None
        },
        None => None,
    };
    let instr_ok = match source.attribute(kids[1], "instr") {
        Some(v) => bytes_are(v.as_slice(), " PAGE "),
        None => false,
    };
    let field_kids = source.children(kids[1]);
    if instr_ok && field_kids.len() == 0 {
        alignment
    } else {
        None
    }
}

/// The root element name of a header or footer part.
pub open spec fn root_name(kind: HeaderFooterKind) -> Seq<u8> {
    match kind {
        HeaderFooterKind::Header => "hdr".spec_bytes(),
        HeaderFooterKind::Footer => "ftr".spec_bytes(),
    }
}

/// Simple header parts are read under a `w:hdr` root and footer parts under `w:ftr`.
pub proof fn law_part_root_names()
    ensures
        root_name(HeaderFooterKind::Header) == "hdr".spec_bytes(),
        root_name(HeaderFooterKind::Footer) == "ftr".spec_bytes(),
{
}

/// The content of a simple header or footer part: at most two paragraphs, at most one
/// simple text paragraph and at most one page-number paragraph, nothing else.
#[derive(Clone, Debug, PartialEq, Eq)]
pub struct SimpleHeaderFooterContent {
    pub text: Option<String>,
    pub page_number: Option<PageNumberAlignment>,
}

pub open spec fn text_view(o: Option<String>) -> Option<Seq<char>> {
    match o {
        Some(s) => Some(s@),
        None => None,
    }
}

/// The content found in the paragraphs `kids[..k]`: text and page number, `None` when a
/// paragraph is neither, or when either occurs twice.
pub open spec fn content_scan(d: &SourceDocument, kids: Seq<NodeId>, k: int) -> Option<(Option<Seq<char>>, Option<PageNumberAlignment>)>
    decreases k,
{
    if k <= 0 {
        Some((None, None))
    } else {
        match content_scan(d, kids, k - 1) {
            None => None,
            Some((text, page)) => {
                let p = kids[k - 1];
                match simple_paragraph_text(d, p) {
                    Some(t) => if text is Some {
                        None
                    } else {
                        Some((Some(t), page))
                    },
                    None => match page_number_paragraph_alignment(d, p) {
                        Some(a) => if page is Some {
                            None
                        } else {
                            Some((text, Some(a)))
                        },
                        None => None,
                    },
                }
            },
        }
    }
}

/// The content of a simple header or footer part, whose root must be `w:hdr` (or
/// `w:ftr`) holding at most two paragraphs and nothing else.
pub open spec fn simple_content(d: &SourceDocument, kind: HeaderFooterKind) -> Option<(Option<Seq<char>>, Option<PageNumberAlignment>)> {
    let kids = d.spec_children(0);
    if !is_word(d, 0, root_name(kind)) || kids.len() > 2 || exists|k: int| 0 <= k < kids.len() && !is_word(d, (#[trigger] kids[k]).0 as int, "p".spec_bytes()) {
        None
    } else {
        content_scan(d, kids, kids.len() as int)
    }
}

#[verifier::spinoff_prover]
#[verifier::rlimit(40)]
pub fn simple_header_footer_content(source: &SourceDocument, kind: HeaderFooterKind) -> (r: Option<SimpleHeaderFooterContent>)
    requires
        source.wf(),
    ensures
        match r {
            Some(c) => simple_content(source, kind) == Some((text_view(c.text), c.page_number)),
            None => simple_content(source, kind) is None,
        },
{
    let root = source.root();
    let local = match kind {
        HeaderFooterKind::Header => "hdr",
        HeaderFooterKind::Footer => "ftr",
    };
    if !word(source, root, local) {
        return None;
    }
    let kids = source.children(root);
    let _end = source.subtree_end(root);
    proof {
        crate::source::lemma_children(source, 0);
    }
    if kids.len() > 2 {
        return None;
    }
    let mut k: usize = 0;
    while k < kids.len()
        invariant
            source.wf(),
            kids@ == source.spec_children(0),
            forall|j: int| 0 <= j < kids@.len() ==> source.valid_id(#[trigger] kids@[j]),
            k <= kids@.len(),
            forall|j: int| 0 <= j < k ==> is_word(source, (#[trigger] kids@[j]).0 as int, "p".spec_bytes()),
        decreases kids@.len() - k,
    {
        if !word(source, kids[k], "p") {
            proof {
                assert(!is_word(source, kids@[k as int].0 as int, "p".spec_bytes()));
            }
            return None;
        }
        k += 1;
    }
    let mut text: Option<String> = None;
    let mut page: Option<PageNumberAlignment> = None;
    let mut k: usize = 0;
    while k < kids.len()
        invariant
            source.wf(),
            kids@ == source.spec_children(0),
            forall|j: int| 0 <= j < kids@.len() ==> source.valid_id(#[trigger] kids@[j]),
            k <= kids@.len(),
            content_scan(source, kids@, k as int) == Some((text_view(text), page)),
        decreases kids@.len() - k,
    {
        let p = kids[k];
        match simple_header_footer_paragraph_text(source, p) {
            Some(t) => {
                if text.is_some() {
                    proof {
                        lemma_content_scan_none(source, kids@, k as int + 1, kids@.len() as int);
                    }
                    return None;
                }
                text = Some(t);
            },
            None => match page_number_alignment(source, p) {
                Some(a) => {
                    if page.is_some() {
                        proof {
                            lemma_content_scan_none(source, kids@, k as int + 1, kids@.len() as int);
                        }
                        return None;
                    }
                    page = Some(a);
                },
                None => {
                    proof {
                        lemma_content_scan_none(source, kids@, k as int + 1, kids@.len() as int);
                    }
                    return None;
                },
            },
        }
        k += 1;
    }
    Some(SimpleHeaderFooterContent { text, page_number: page })
}

proof fn lemma_content_scan_none(d: &SourceDocument, kids: Seq<NodeId>, k: int, upto: int)
    requires
        0 <= k <= upto,
        content_scan(d, kids, k) is None,
    ensures
        content_scan(d, kids, upto) is None,
    decreases upto - k,
{
    if k < upto {
        lemma_content_scan_none(d, kids, k, upto - 1);
    }
}

} // verus!
