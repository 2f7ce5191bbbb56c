use vstd::prelude::*;
use vstd::string::StringSliceAdditionalSpecFns;

use crate::bytes::{copy_bytes, push_bytes, push_str, str_bytes};
use crate::header_footer::HeaderFooterKind;
use crate::mutation::common::{
    apply_single_patch, close_tag, document_invalid, open_tag, push_close, push_open, qualified,
    qualify, spec_word_prefix, word_prefix_for, Patch,
};
use crate::mutation::header_footer::{
    same_inspection, simple_header_footer_content, HeaderFooterInspection, InspectionView,
    PageNumberInspection,
};
use crate::mutation::header_footer_markup::{
    closing_tag_start, first_page_paragraph, header_footer_part_xml, page_number_paragraph,
    part_markup, root_word,
};
use crate::mutation::header_footer_part::{
    default_header_footer_references, header_footer_part, inspect_header_footer, inspect_outcome,
    main_relationships, other_header_footer, other_kind,
};
use crate::mutation::header_footer_text::{changed_reading, created, inspects_as, page_of, new_part_changes, part_read, spliced};
use crate::mutation::page_break::{body_block_signatures, same_signatures, signature_view, signatures, BlockKind};
use crate::mutation::page_setup::{
    attr_prefix_of, main_section, page_setup_from_section, spec_main_section, spec_page_setup_from,
    PageSetupInspection,
};
use crate::package::{apply_changes, changed_view, parts_view, PackageSnapshot, PartChanges};
use crate::protocol::{unsupported, FailureCode, OperationFailure, PageNumberAlignment, SetPageNumber};
use crate::source::{NodeId, SourceDocument, SourceSpan};
use crate::wordml::child;

verus! {

/// Where the one page number of a document is: in the header, in the footer, or
/// `Unsupported` when either is unsupported or both hold one.
pub open spec fn page_number_view(header: InspectionView, footer: InspectionView) -> PageNumberInspection {
    if header is Unsupported || footer is Unsupported {
        PageNumberInspection::Unsupported
    } else {
        match (page_of(header), page_of(footer)) {
            (Some(_), Some(_)) => PageNumberInspection::Unsupported,
            (Some(a), None) => PageNumberInspection::Header(a),
            (None, Some(a)) => PageNumberInspection::Footer(a),
            (None, None) => PageNumberInspection::Absent,
        }
    }
}

/// Inspects the page number of the default header and footer. The footer is not read
/// when the header is unsupported.
pub fn inspect_page_number(s: &PackageSnapshot, source: &SourceDocument) -> (r: Result<PageNumberInspection, OperationFailure>)
    requires
        source.wf(),
    ensures
        match r {
            Ok(p) => exists|h: HeaderFooterInspection|
                #![trigger inspect_outcome(*s, source, HeaderFooterKind::Header, Ok(h))]
                inspect_outcome(*s, source, HeaderFooterKind::Header, Ok(h)) && if h@ is Unsupported {
                    p == PageNumberInspection::Unsupported
                } else {
                    exists|f: HeaderFooterInspection|
                        #![trigger inspect_outcome(*s, source, HeaderFooterKind::Footer, Ok(f))]
                        inspect_outcome(*s, source, HeaderFooterKind::Footer, Ok(f)) && p == page_number_view(h@, f@)
                },
            Err(e) => inspect_outcome(*s, source, HeaderFooterKind::Header, Err(e)) || exists|h: HeaderFooterInspection|
                #![trigger inspect_outcome(*s, source, HeaderFooterKind::Header, Ok(h))]
                inspect_outcome(*s, source, HeaderFooterKind::Header, Ok(h)) && !(h@ is Unsupported)
                    && inspect_outcome(*s, source, HeaderFooterKind::Footer, Err(e)),
        },
{
    let header = inspect_header_footer(s, source, HeaderFooterKind::Header);
    let h = match header {
        Ok(h) => h,
        Err(e) => return Err(e),
    };
    let header_page = match &h {
        HeaderFooterInspection::Unsupported => return Ok(PageNumberInspection::Unsupported),
        HeaderFooterInspection::SimplePageNumber(a) => Some(*a),
        HeaderFooterInspection::SimpleTextAndPageNumber(_, a) => Some(*a),
        _ => None,
    };
    let footer = inspect_header_footer(s, source, HeaderFooterKind::Footer);
    let f = match footer {
        Ok(f) => f,
        Err(e) => {
            proof {
                assert(inspect_outcome(*s, source, HeaderFooterKind::Header, Ok(h)));
            }
            return Err(e);
        },
    };
    let footer_page = match &f {
        HeaderFooterInspection::Unsupported => {
            proof {
                assert(inspect_outcome(*s, source, HeaderFooterKind::Footer, Ok(f)));
            }
            return Ok(PageNumberInspection::Unsupported);
        },
        HeaderFooterInspection::SimplePageNumber(a) => Some(*a),
        HeaderFooterInspection::SimpleTextAndPageNumber(_, a) => Some(*a),
        _ => None,
    };
    proof {
        assert(inspect_outcome(*s, source, HeaderFooterKind::Footer, Ok(f)));
    }
    Ok(match (header_page, footer_page) {
        (Some(_), Some(_)) => PageNumberInspection::Unsupported,
        (Some(a), None) => PageNumberInspection::Header(a),
        (None, Some(a)) => PageNumberInspection::Footer(a),
        (None, None) => PageNumberInspection::Absent,
    })
}

/// The `w:jc` value of an alignment.
pub open spec fn alignment_bytes(a: PageNumberAlignment) -> Seq<u8> {
    match a {
        PageNumberAlignment::Left => "left".spec_bytes(),
        PageNumberAlignment::Center => "center".spec_bytes(),
        PageNumberAlignment::Right => "right".spec_bytes(),
    }
}

pub fn page_number_alignment_name(a: PageNumberAlignment) -> (r: &'static str)
    ensures
        r.spec_bytes() == alignment_bytes(a),
{
    match a {
        PageNumberAlignment::Left => "left",
        PageNumberAlignment::Center => "center",
        PageNumberAlignment::Right => "right",
    }
}

/// `<jc val="…"/>` in the namespace written as `prefix`.
pub open spec fn jc_markup(prefix: Seq<u8>, a: PageNumberAlignment) -> Seq<u8> {
    seq![0x3cu8] + qualified(prefix, "jc".spec_bytes()) + seq![0x20u8] + attr_prefix_of(prefix) + "val=\"".spec_bytes()
        + alignment_bytes(a) + "\"/>".spec_bytes()
}

/// A paragraph holding a justification and an empty ` PAGE ` simple field.
pub open spec fn page_markup(prefix: Seq<u8>, a: PageNumberAlignment) -> Seq<u8> {
    let p = qualified(prefix, "p".spec_bytes());
    let ppr = qualified(prefix, "pPr".spec_bytes());
    let field = qualified(prefix, "fldSimple".spec_bytes());
    open_tag(p) + open_tag(ppr) + jc_markup(prefix, a) + close_tag(ppr) + seq![0x3cu8] + field + seq![0x20u8]
        + attr_prefix_of(prefix) + "instr=\" PAGE \">".spec_bytes() + close_tag(field) + close_tag(p)
}

/// The justification written for a page number names its alignment literally: the
/// `w:jc` element of a left page number has `val="left"`, of a centred one
/// `val="center"` and of a right one `val="right"`.
pub proof fn law_page_number_justification(prefix: Seq<u8>)
    ensures
        alignment_bytes(PageNumberAlignment::Left) == "left".spec_bytes(),
        alignment_bytes(PageNumberAlignment::Center) == "center".spec_bytes(),
        alignment_bytes(PageNumberAlignment::Right) == "right".spec_bytes(),
        jc_markup(prefix, PageNumberAlignment::Left) == seq![0x3cu8] + qualified(prefix, "jc".spec_bytes()) + seq![0x20u8]
            + attr_prefix_of(prefix) + "val=\"".spec_bytes() + "left".spec_bytes() + "\"/>".spec_bytes(),
        jc_markup(prefix, PageNumberAlignment::Right) == seq![0x3cu8] + qualified(prefix, "jc".spec_bytes()) + seq![0x20u8]
            + attr_prefix_of(prefix) + "val=\"".spec_bytes() + "right".spec_bytes() + "\"/>".spec_bytes(),
        jc_markup(prefix, PageNumberAlignment::Center) == seq![0x3cu8] + qualified(prefix, "jc".spec_bytes()) + seq![0x20u8]
            + attr_prefix_of(prefix) + "val=\"".spec_bytes() + "center".spec_bytes() + "\"/>".spec_bytes(),
{
}

fn push_jc(out: &mut Vec<u8>, prefix: &[u8], a: PageNumberAlignment)
    ensures
        final(out)@ == old(out)@ + jc_markup(prefix@, a),
{
    out.push(0x3cu8);
    push_bytes(out, qualify(prefix, "jc").as_slice());
    out.push(0x20u8);
    if prefix.len() > 0 {
        push_bytes(out, prefix);
        out.push(0x3au8);
    }
    push_str(out, "val=\"");
    push_str(out, page_number_alignment_name(a));
    push_str(out, "\"/>");
    assert(out@ =~= old(out)@ + jc_markup(prefix@, a));
}

pub fn page_number_xml(prefix: &[u8], a: PageNumberAlignment) -> (r: Vec<u8>)
    ensures
        r@ == page_markup(prefix@, a),
{
    let p = qualify(prefix, "p");
    let ppr = qualify(prefix, "pPr");
    let field = qualify(prefix, "fldSimple");
    let mut out: Vec<u8> = Vec::new();
    push_open(&mut out, p.as_slice());
    push_open(&mut out, ppr.as_slice());
    push_jc(&mut out, prefix, a);
    push_close(&mut out, ppr.as_slice());
    out.push(0x3cu8);
    push_bytes(&mut out, field.as_slice());
    out.push(0x20u8);
    if prefix.len() > 0 {
        push_bytes(&mut out, prefix);
        out.push(0x3au8);
    }
    push_str(&mut out, "instr=\" PAGE \">");
    push_close(&mut out, field.as_slice());
    push_close(&mut out, p.as_slice());
    assert(out@ =~= page_markup(prefix@, a));
    out
}

/// The bytes of a new part holding one page-number paragraph.
pub open spec fn page_part_bytes(kind: HeaderFooterKind, a: PageNumberAlignment) -> Seq<u8> {
    part_markup(kind, page_markup("w".spec_bytes(), a))
}

/// The `w:jc` of a page-number paragraph: in its first `w:pPr`.
pub open spec fn paragraph_jc(d: &SourceDocument, p: NodeId) -> Option<NodeId> {
    match crate::wordml::spec_child(d, p.0 as int, "pPr".spec_bytes()) {
        Some(ppr) => crate::wordml::spec_child(d, ppr.0 as int, "jc".spec_bytes()),
        None => None,
    }
}

/// A patch that rewrites the justification of a part's first page-number paragraph.
pub open spec fn alignment_patch_ok(d: &SourceDocument, a: PageNumberAlignment, patch: Patch) -> bool {
    &&& first_page_paragraph(d, d.spec_children(0), 0) matches Some(p)
    &&& paragraph_jc(d, p) matches Some(jc)
    &&& spec_word_prefix(d, jc.0 as int, "jc".spec_bytes()) matches Some(prefix)
    &&& patch.span == d.spec_span(jc.0 as int)
    &&& patch.replacement@ == jc_markup(prefix, a)
}

/// A part's first page-number paragraph has a justification with a namespace prefix.
pub open spec fn alignment_patchable(d: &SourceDocument) -> bool {
    &&& first_page_paragraph(d, d.spec_children(0), 0) matches Some(p)
    &&& paragraph_jc(d, p) matches Some(jc)
    &&& spec_word_prefix(d, jc.0 as int, "jc".spec_bytes()) is Some
}

pub fn page_number_alignment_patch(part: &SourceDocument, a: PageNumberAlignment) -> (r: Result<Patch, OperationFailure>)
    requires
        part.wf(),
    ensures
        match r {
            Ok(p) => alignment_patch_ok(part, a, p) && p.span.start <= p.span.end <= part.bytes@.len(),
            Err(e) => e.code == FailureCode::UnsupportedOperation && !alignment_patchable(part),
        },
{
    let paragraph = match page_number_paragraph(part) {
        Some(p) => p,
        None => return Err(unsupported("header/footer has no supported page number")),
    };
    let ppr = match child(part, paragraph, "pPr") {
        Some(x) => x,
        None => return Err(unsupported("page number paragraph has no properties")),
    };
    let jc = match child(part, ppr, "jc") {
        Some(x) => x,
        None => return Err(unsupported("page number paragraph has no justification")),
    };
    let prefix = word_prefix_for(part, jc, "jc")?;
    let mut replacement: Vec<u8> = Vec::new();
    push_jc(&mut replacement, prefix.as_slice(), a);
    assert(replacement@ =~= jc_markup(prefix@, a));
    Ok(Patch { span: part.span(jc), replacement })
}

/// The package after the changes, its main part read back as `m2`, gives the target
/// inspection `x`, the other kind's inspection `y`, the page setup `setup` and the body
/// block signatures `body`.
pub open spec fn page_written(
    s: PackageSnapshot,
    c: PartChanges,
    kind: HeaderFooterKind,
    setup: PageSetupInspection,
    body: Seq<(BlockKind, Seq<u8>)>,
    s2: PackageSnapshot,
    m2: SourceDocument,
    x: HeaderFooterInspection,
    y: HeaderFooterInspection,
) -> bool {
    &&& parts_view(s2.parts@) == changed_view(s.parts@, c)
    &&& s2.main_name@ == s.main_name@
    &&& m2.wf()
    &&& m2.faithful()
    &&& c.replaced@.len() > 0
    &&& m2.bytes@ == c.replaced@.last().1@
    &&& spec_main_section(&m2, true) matches Ok(sec)
    &&& spec_page_setup_from(&m2, sec.0 as int) == Ok::<PageSetupInspection, FailureCode>(setup)
    &&& crate::document::spec_body(&m2) matches Ok(b)
    &&& signatures(&m2, crate::mutation::common::body_blocks(&m2, b)) == Some(body)
    &&& inspect_outcome(s2, &m2, kind, Ok(x))
    &&& inspect_outcome(s2, &m2, other_kind(kind), Ok(y))
}

/// The changed package reads back with the target's page number as `alignment`, the
/// other kind as `opposite`, and the page setup and body as before.
pub open spec fn page_reads_back(
    s: PackageSnapshot,
    c: PartChanges,
    kind: HeaderFooterKind,
    alignment: Option<PageNumberAlignment>,
    opposite: InspectionView,
    setup: PageSetupInspection,
    body: Seq<(BlockKind, Seq<u8>)>,
) -> bool {
    exists|s2: PackageSnapshot, m2: SourceDocument, x: HeaderFooterInspection, y: HeaderFooterInspection|
        #![trigger page_written(s, c, kind, setup, body, s2, m2, x, y)]
        page_written(s, c, kind, setup, body, s2, m2, x, y) && page_of(x@) == alignment && y@ == opposite
}

/// Every outcome the inspection of `kind` may give is a success whose page number is
/// `alignment`.
pub open spec fn inspects_page(s2: PackageSnapshot, m2: &SourceDocument, kind: HeaderFooterKind, alignment: Option<PageNumberAlignment>) -> bool {
    forall|r: Result<HeaderFooterInspection, OperationFailure>|
        #![trigger inspect_outcome(s2, m2, kind, r)]
        inspect_outcome(s2, m2, kind, r) ==> (r matches Ok(x) && page_of(x@) == alignment)
}

/// The changed main part parses, and every reading of the changed package has the page
/// setup and body as before, the target's page number as `alignment` and the other kind
/// as `opposite`.
pub open spec fn page_reads_back_all(
    s: PackageSnapshot,
    c: PartChanges,
    kind: HeaderFooterKind,
    alignment: Option<PageNumberAlignment>,
    opposite: InspectionView,
    setup: PageSetupInspection,
    body: Seq<(BlockKind, Seq<u8>)>,
) -> bool {
    &&& c.replaced@.len() > 0
    &&& crate::source::accepts(c.replaced@.last().1@)
    &&& forall|s2: PackageSnapshot, m2: SourceDocument|
        #![trigger changed_reading(s, c, s2, m2)]
        changed_reading(s, c, s2, m2) ==> {
            &&& spec_main_section(&m2, true) matches Ok(sec)
            &&& spec_page_setup_from(&m2, sec.0 as int) == Ok::<PageSetupInspection, FailureCode>(setup)
            &&& crate::document::spec_body(&m2) matches Ok(b)
            &&& signatures(&m2, crate::mutation::common::body_blocks(&m2, b)) == Some(body)
            &&& inspects_as(s2, &m2, other_kind(kind), opposite)
            &&& inspects_page(s2, &m2, kind, alignment)
        }
}

fn check_page_written(
    s: &PackageSnapshot,
    c: &PartChanges,
    kind: HeaderFooterKind,
    alignment: Option<PageNumberAlignment>,
    opposite: &HeaderFooterInspection,
    setup: PageSetupInspection,
    body: &Vec<(BlockKind, Vec<u8>)>,
) -> (r: Result<(), OperationFailure>)
    requires
        c.replaced@.len() > 0,
    ensures
        r is Ok ==> page_reads_back(*s, *c, kind, alignment, opposite@, setup, signature_view(body@)),
        r is Err ==> !page_reads_back_all(*s, *c, kind, alignment, opposite@, setup, signature_view(body@)),
{
    let s2 = apply_changes(s, c);
    let last = c.replaced.len() - 1;
    let m2 = match SourceDocument::parse(copy_bytes(c.replaced[last].1.as_slice())) {
        Ok(d) => d,
        Err(_) => return Err(document_invalid()),
    };
    assert(changed_reading(*s, *c, s2, m2));
    let section = main_section(&m2, true)?;
    let after = page_setup_from_section(&m2, section)?;
    let after_body = body_block_signatures(&m2)?;
    if after != setup || !same_signatures(&after_body, body) {
        return Err(OperationFailure::failed(FailureCode::DocumentInvalid, "output changed unrelated document content"));
    }
    let y = match inspect_header_footer(&s2, &m2, other_header_footer(kind)) {
        Ok(y) => y,
        Err(e) => {
            assert(!inspects_as(s2, &m2, other_kind(kind), opposite@));
            return Err(e);
        },
    };
    if !same_inspection(&y, opposite) {
        assert(!inspects_as(s2, &m2, other_kind(kind), opposite@));
        return Err(OperationFailure::failed(FailureCode::DocumentInvalid, "output changed unrelated document content"));
    }
    let x = match inspect_header_footer(&s2, &m2, kind) {
        Ok(x) => x,
        Err(e) => {
            assert(!inspects_page(s2, &m2, kind, alignment));
            return Err(e);
        },
    };
    let actual = match &x {
        HeaderFooterInspection::SimplePageNumber(a) => Some(*a),
        HeaderFooterInspection::SimpleTextAndPageNumber(_, a) => Some(*a),
        _ => None,
    };
    if actual != alignment {
        assert(page_of(x@) != alignment);
        assert(!inspects_page(s2, &m2, kind, alignment));
        return Err(OperationFailure::failed(FailureCode::DocumentInvalid, "output page number does not match request"));
    }
    proof {
        assert(page_written(*s, *c, kind, setup, signature_view(body@), s2, m2, x, y));
    }
    Ok(())
}

/// A simple part with its page number set as asked: the justification rewritten, a
/// page-number paragraph added before the root's closing tag, or the page-number
/// paragraph removed.
pub open spec fn page_set_bytes(p: &SourceDocument, kind: HeaderFooterKind, alignment: Option<PageNumberAlignment>) -> Seq<u8> {
    let content = crate::mutation::header_footer::simple_content(p, kind)->Some_0;
    let para = first_page_paragraph(p, p.spec_children(0), 0)->Some_0;
    match (alignment, content.1) {
        (Some(a), Some(_)) => {
            let jc = paragraph_jc(p, para)->Some_0;
            let prefix = spec_word_prefix(p, jc.0 as int, "jc".spec_bytes())->Some_0;
            spliced(p.bytes@, p.spec_span(jc.0 as int).start as int, p.spec_span(jc.0 as int).end as int, jc_markup(prefix, a))
        },
        (Some(a), None) => {
            let at = crate::mutation::header_footer_markup::end_tag_start(p, NodeId(0))->Some_0;
            let prefix = spec_word_prefix(p, 0, crate::mutation::header_footer::root_name(kind))->Some_0;
            spliced(p.bytes@, at, at, page_markup(prefix, a))
        },
        _ => spliced(p.bytes@, p.spec_span(para.0 as int).start as int, p.spec_span(para.0 as int).end as int, seq![]),
    }
}

/// The changes that set the page number of the existing part a reference points at:
/// that part with its page number set, and the main part as it was.
pub open spec fn page_edited(s: PackageSnapshot, d: &SourceDocument, reference: NodeId, kind: HeaderFooterKind, alignment: Option<PageNumberAlignment>, c: PartChanges) -> bool {
    &&& c.replaced@.len() == 2 && c.added@.len() == 0
    &&& c.replaced@[1].0@ == s.main_name@ && c.replaced@[1].1@ == d.bytes@
    &&& exists|m: crate::mutation::header_footer_part::MainRelationships, i: int, p: SourceDocument|
        #![trigger part_read(s, d, reference, kind, m, i, p)]
        part_read(s, d, reference, kind, m, i, p) && c.replaced@[0].0@ == s.parts@[i].name@ && c.replaced@[0].1@
            == page_set_bytes(&p, kind, alignment)
}

/// The existing part a reference points at can have its page number set as asked.
pub open spec fn page_editable(s: PackageSnapshot, d: &SourceDocument, reference: NodeId, kind: HeaderFooterKind, alignment: Option<PageNumberAlignment>) -> bool {
    crate::mutation::header_footer_text::part_editable(s, d, reference, kind, |p: &SourceDocument| page_settable(p, kind, alignment))
}

/// Why setting a page number fails: the main section, its page setup or the body cannot
/// be read, the inspection of the other kind fails, the section has several default
/// references of the kind, a page number is to be removed where there is no part, a
/// missing part cannot be created (`part_creatable`), the existing part cannot be
/// edited, or the changes planned do not read back as requested.
#[verifier::opaque]
pub open spec fn page_blocked(s: PackageSnapshot, d: &SourceDocument, op: SetPageNumber) -> bool {
    match spec_main_section(d, true) {
        Err(_) => true,
        Ok(sec) => {
            let refs = crate::mutation::header_footer_part::section_references(d, sec, op.kind);
            ||| !(spec_page_setup_from(d, sec.0 as int) is Ok)
            ||| !(crate::document::spec_body(d) matches Ok(b) && signatures(d, crate::mutation::common::body_blocks(d, b)) is Some)
            ||| exists|e: OperationFailure| #[trigger] inspect_outcome(s, d, other_kind(op.kind), Err(e))
            ||| refs.len() > 1
            ||| refs.len() == 0 && op.alignment is None
            ||| refs.len() == 0 && op.alignment is Some && !crate::mutation::header_footer_text::part_creatable(s, d, sec, op.kind)
            ||| refs.len() == 1 && !page_editable(s, d, refs[0], op.kind, op.alignment)
            ||| exists|c: PartChanges, opposite: HeaderFooterInspection|
                #![trigger page_planned(s, d, sec, op.kind, op.alignment, c), inspect_outcome(s, d, other_kind(op.kind), Ok(opposite))]
                {
                    &&& page_planned(s, d, sec, op.kind, op.alignment, c)
                    &&& inspect_outcome(s, d, other_kind(op.kind), Ok(opposite))
                    &&& crate::document::spec_body(d) matches Ok(b)
                    &&& !page_reads_back_all(s, c, op.kind, op.alignment, opposite@, spec_page_setup_from(d, sec.0 as int)->Ok_0,
                        signatures(d, crate::mutation::common::body_blocks(d, b))->Some_0)
                }
        },
    }
}

/// The changes planned: for the one existing part, its page number set; with no part
/// and an alignment, a new part holding the page number.
pub open spec fn page_planned(
    s: PackageSnapshot,
    d: &SourceDocument,
    sec: NodeId,
    kind: HeaderFooterKind,
    alignment: Option<PageNumberAlignment>,
    c: PartChanges,
) -> bool {
    let refs = crate::mutation::header_footer_part::section_references(d, sec, kind);
    if refs.len() == 1 {
        page_edited(s, d, refs[0], kind, alignment, c)
    } else {
        match alignment {
            Some(a) => refs.len() == 0 && crate::mutation::header_footer_text::created_exactly(s, d, sec, kind, page_part_bytes(kind, a), c),
            None => false,
        }
    }
}

proof fn lemma_page_blocked(s: PackageSnapshot, d: &SourceDocument, op: SetPageNumber)
    requires
        spec_main_section(d, true) is Err,
    ensures
        page_blocked(s, d, op),
{
    reveal(page_blocked);
}

proof fn lemma_page_setup_blocked(s: PackageSnapshot, d: &SourceDocument, op: SetPageNumber, sec: NodeId)
    requires
        spec_main_section(d, true) == Ok::<NodeId, FailureCode>(sec),
        !(spec_page_setup_from(d, sec.0 as int) is Ok) || !(crate::document::spec_body(d) matches Ok(b) && signatures(
            d,
            crate::mutation::common::body_blocks(d, b),
        ) is Some),
    ensures
        page_blocked(s, d, op),
{
    reveal(page_blocked);
}

proof fn lemma_page_inspection_blocked(s: PackageSnapshot, d: &SourceDocument, op: SetPageNumber, sec: NodeId, e: OperationFailure)
    requires
        spec_main_section(d, true) == Ok::<NodeId, FailureCode>(sec),
        inspect_outcome(s, d, other_kind(op.kind), Err(e)),
    ensures
        page_blocked(s, d, op),
{
    reveal(page_blocked);
}

proof fn lemma_page_refs_blocked(s: PackageSnapshot, d: &SourceDocument, op: SetPageNumber, sec: NodeId)
    requires
        spec_main_section(d, true) == Ok::<NodeId, FailureCode>(sec),
        ({
            let refs = crate::mutation::header_footer_part::section_references(d, sec, op.kind);
            ||| refs.len() > 1
            ||| refs.len() == 0 && op.alignment is None
            ||| refs.len() == 0 && op.alignment is Some && !crate::mutation::header_footer_text::part_creatable(s, d, sec, op.kind)
            ||| refs.len() == 1 && !page_editable(s, d, refs[0], op.kind, op.alignment)
        }),
    ensures
        page_blocked(s, d, op),
{
    reveal(page_blocked);
}

proof fn lemma_page_not_read_back(
    s: PackageSnapshot,
    d: &SourceDocument,
    op: SetPageNumber,
    sec: NodeId,
    c: PartChanges,
    opposite: HeaderFooterInspection,
    b: NodeId,
)
    requires
        spec_main_section(d, true) == Ok::<NodeId, FailureCode>(sec),
        spec_page_setup_from(d, sec.0 as int) is Ok,
        crate::document::spec_body(d) == Ok::<NodeId, crate::wordml::SemanticError>(b),
        signatures(d, crate::mutation::common::body_blocks(d, b)) is Some,
        page_planned(s, d, sec, op.kind, op.alignment, c),
        inspect_outcome(s, d, other_kind(op.kind), Ok(opposite)),
        !page_reads_back_all(s, c, op.kind, op.alignment, opposite@, spec_page_setup_from(d, sec.0 as int)->Ok_0,
            signatures(d, crate::mutation::common::body_blocks(d, b))->Some_0),
    ensures
        page_blocked(s, d, op),
{
    reveal(page_blocked);
}

/// Creates, updates or removes the page number of the default header or footer of a
/// single-section document. An existing simple part gets its justification rewritten,
/// a page-number paragraph added before its closing tag, or its page-number paragraph
/// removed; a missing part is created. The changed package is read back: the target's
/// page number must be as requested, and the other kind, the page setup and the body
/// as before.
pub fn set_page_number_to_vec(s: &PackageSnapshot, source: &SourceDocument, operation: &SetPageNumber) -> (r: Result<PartChanges, OperationFailure>)
    requires
        source.wf(),
    ensures
        spec_main_section(source, true) matches Err(c) ==> r matches Err(e) && e.code == c,
        r matches Ok(c) ==> {
            &&& spec_main_section(source, true) matches Ok(sec)
            &&& crate::mutation::header_footer_part::section_references(source, sec, operation.kind).len() <= 1
            &&& spec_page_setup_from(source, sec.0 as int) matches Ok(setup)
            &&& crate::document::spec_body(source) matches Ok(b)
            &&& signatures(source, crate::mutation::common::body_blocks(source, b)) matches Some(body)
            &&& exists|opposite: HeaderFooterInspection|
                #![trigger inspect_outcome(*s, source, other_kind(operation.kind), Ok(opposite))]
                inspect_outcome(*s, source, other_kind(operation.kind), Ok(opposite))
                    && page_reads_back(*s, c, operation.kind, operation.alignment, opposite@, setup, body)
            &&& (operation.alignment is Some && crate::mutation::header_footer_part::section_references(source, sec, operation.kind).len() == 0)
                ==> created(*s, source, sec, operation.kind, page_part_bytes(operation.kind, operation.alignment->0), c)
        },
        r is Err ==> page_blocked(*s, source, *operation),
{
    let kind = operation.kind;
    let section = match main_section(source, true) {
        Ok(x) => x,
        Err(e) => {
            proof { lemma_page_blocked(*s, source, *operation); }
            return Err(e);
        },
    };
    let setup = match page_setup_from_section(source, section) {
        Ok(x) => x,
        Err(e) => {
            proof { lemma_page_setup_blocked(*s, source, *operation, section); }
            return Err(e);
        },
    };
    let body = match body_block_signatures(source) {
        Ok(x) => x,
        Err(e) => {
            proof { lemma_page_setup_blocked(*s, source, *operation, section); }
            return Err(e);
        },
    };
    let opposite = match inspect_header_footer(s, source, other_header_footer(kind)) {
        Ok(x) => x,
        Err(e) => {
            proof { lemma_page_inspection_blocked(*s, source, *operation, section, e); }
            return Err(e);
        },
    };
    let references = default_header_footer_references(source, section, kind);
    if references.len() > 1 {
        proof { lemma_page_refs_blocked(*s, source, *operation, section); }
        return Err(unsupported("default header/footer reference is ambiguous"));
    }
    let changes = if references.len() == 1 {
        match edit_existing_page_number(s, source, references[0], kind, operation.alignment) {
            Ok(c) => c,
            Err(e) => {
                proof { lemma_page_refs_blocked(*s, source, *operation, section); }
                return Err(e);
            },
        }
    } else {
        match operation.alignment {
            Some(a) => {
                let content = page_number_xml(str_bytes("w").as_slice(), a);
                let part = header_footer_part_xml(kind, content.as_slice());
                match new_part_changes(s, source, section, kind, part) {
                    Ok(c) => c,
                    Err(e) => {
                        proof { lemma_page_refs_blocked(*s, source, *operation, section); }
                        return Err(e);
                    },
                }
            },
            None => {
                proof { lemma_page_refs_blocked(*s, source, *operation, section); }
                return Err(OperationFailure::failed(FailureCode::TargetNotFound, "header/footer has no supported page number"));
            },
        }
    };
    match check_page_written(s, &changes, kind, operation.alignment, &opposite, setup, &body) {
        Ok(_) => {},
        Err(e) => {
            proof {
                let b = crate::document::spec_body(source)->Ok_0;
                assert(page_planned(*s, source, section, kind, operation.alignment, changes));
                lemma_page_not_read_back(*s, source, *operation, section, changes, opposite, b);
            }
            return Err(e);
        },
    }
    Ok(changes)
}

/// A simple part whose page number can be set as asked: its justification rewritten,
/// a page-number paragraph added before its closing tag, or its page-number paragraph
/// removed.
pub open spec fn page_settable(p: &SourceDocument, kind: HeaderFooterKind, alignment: Option<PageNumberAlignment>) -> bool {
    &&& crate::mutation::header_footer::simple_content(p, kind) matches Some(content)
    &&& match (alignment, content.1) {
        (Some(_), Some(_)) => alignment_patchable(p),
        (Some(_), None) => crate::mutation::header_footer_markup::end_tag_start(p, NodeId(0)) is Some
            && crate::mutation::common::spec_word_prefix(p, 0, crate::mutation::header_footer::root_name(kind)) is Some,
        (None, Some(_)) => crate::mutation::header_footer_markup::first_page_paragraph(p, p.spec_children(0), 0) is Some,
        (None, None) => false,
    }
}

fn edit_existing_page_number(
    s: &PackageSnapshot,
    source: &SourceDocument,
    reference: NodeId,
    kind: HeaderFooterKind,
    alignment: Option<PageNumberAlignment>,
) -> (r: Result<PartChanges, OperationFailure>)
    requires
        source.wf(),
        source.valid_id(reference),
    ensures
        r matches Ok(c) ==> c.replaced@.len() == 2 && c.replaced@.last().0@ == s.main_name@
            && c.replaced@.last().1@ == source.bytes@ && c.added@.len() == 0 && page_edited(*s, source, reference, kind, alignment, c),
        r is Err ==> !page_editable(*s, source, reference, kind, alignment),
{
    let rels = main_relationships(s)?;
    let index = header_footer_part(s, &rels.list, source, reference, kind)?;
    let part = match SourceDocument::parse(copy_bytes(s.parts[index].bytes.as_slice())) {
        Ok(d) => d,
        Err(_) => return Err(document_invalid()),
    };
    assert(part.bytes == part.bytes);
    let content = match simple_header_footer_content(&part, kind) {
        Some(c) => c,
        None => return Err(unsupported("header/footer is not a supported simple part")),
    };
    let patch = match (alignment, content.page_number) {
        (Some(a), Some(_)) => page_number_alignment_patch(&part, a)?,
        (Some(a), None) => {
            let at = closing_tag_start(&part, part.root())?;
            let prefix = word_prefix_for(&part, part.root(), root_word(kind))?;
            Patch { span: SourceSpan { start: at, end: at }, replacement: page_number_xml(prefix.as_slice(), a) }
        },
        (None, Some(_)) => {
            let paragraph = match page_number_paragraph(&part) {
                Some(p) => p,
                None => return Err(unsupported("header/footer has no supported page number")),
            };
            Patch { span: part.span(paragraph), replacement: Vec::new() }
        },
        (None, None) => {
            return Err(OperationFailure::failed(FailureCode::TargetNotFound, "header/footer has no supported page number"));
        },
    };
    let bytes = apply_single_patch(&part, patch);
    assert(bytes@ == page_set_bytes(&part, kind, alignment));
    let mut replaced: Vec<(String, Vec<u8>)> = Vec::new();
    replaced.push((s.parts[index].name.clone(), bytes));
    replaced.push((s.main_name.clone(), copy_bytes(source.original_bytes())));
    let c = PartChanges { replaced, added: Vec::new() };
    assert(part_read(*s, source, reference, kind, rels, index as int, part));
    Ok(c)
}

} // verus!
