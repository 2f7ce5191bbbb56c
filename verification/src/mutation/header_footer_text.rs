use vstd::prelude::*;
use vstd::string::StringSliceAdditionalSpecFns;

use crate::bytes::{contains_bytes, copy_bytes, str_bytes};
use crate::header_footer::HeaderFooterKind;
use crate::mutation::common::{
    apply_single_patch, document_invalid, spec_word_prefix, word_prefix_for, Patch,
};
use crate::mutation::header_footer::{
    same_inspection, simple_header_footer_content, text_view, HeaderFooterInspection,
    InspectionView,
};
use crate::mutation::header_footer_markup::{
    closing_tag_start, header_footer_part_xml, header_footer_reference_xml, header_footer_text_paragraph,
    highest_number, next_header_footer_part_name, next_relationship_id, override_element,
    part_file_name, part_marker_bytes, part_stem, reference_insertion, reference_markup,
    relationship_element, root_word, section_reference_patch, simple_text_patch,
    text_paragraph_xml, CONTENT_TYPES_PART,
};
use crate::mutation::header_footer_part::{
    content_type_bytes, content_type_name, default_header_footer_references, header_footer_part,
    inspect_header_footer, inspect_outcome, main_relationships, other_header_footer, other_kind,
    relationship_type_bytes, relationship_type_name, section_references,
};
use crate::mutation::page_setup::{
    main_section, page_setup_from_section, spec_main_section, spec_page_setup_from,
    PageSetupInspection,
};
use crate::package::{
    append_xml_element, apply_changes, changed_view, find_part, parts_view, PackagePart,
    PackageSnapshot, PartChanges,
};
use crate::protocol::{unsupported, FailureCode, OperationFailure, PageNumberAlignment, SetHeaderFooterText};
use crate::source::{NodeId, SourceDocument, SourceSpan};

verus! {

/// The page number an inspection reports.
pub open spec fn page_of(v: InspectionView) -> Option<PageNumberAlignment> {
    match v {
        InspectionView::Page(a) => Some(a),
        InspectionView::TextAndPage(_, a) => Some(a),
        _ => None,
    }
}

/// What a header or footer reads as after its text is set to `text` (removed for
/// `None`): the text beside the page number it had.
pub open spec fn expected_view(text: Option<Seq<char>>, before: InspectionView) -> InspectionView {
    match (text, page_of(before)) {
        (Some(t), Some(a)) => InspectionView::TextAndPage(t, a),
        (Some(t), None) => InspectionView::Text(t),
        (None, Some(a)) => InspectionView::Page(a),
        (None, None) => InspectionView::Absent,
    }
}

/// The package after the changes, its main part read back as `m2`, gives the target
/// inspection `x`, the other kind's inspection `y` and the page setup `setup`.
pub open spec fn written(
    s: PackageSnapshot,
    c: PartChanges,
    kind: HeaderFooterKind,
    setup: PageSetupInspection,
    s2: PackageSnapshot,
    m2: SourceDocument,
    x: HeaderFooterInspection,
    y: HeaderFooterInspection,
) -> bool {
    &&& parts_view(s2.parts@) == changed_view(s.parts@, c)
    &&& s2.main_name@ == s.main_name@
    &&& m2.wf()
    &&& m2.faithful()
    &&& c.replaced@.len() > 0
    &&& m2.bytes@ == c.replaced@.last().1@
    &&& spec_main_section(&m2, true) matches Ok(sec)
    &&& spec_page_setup_from(&m2, sec.0 as int) == Ok::<PageSetupInspection, FailureCode>(setup)
    &&& inspect_outcome(s2, &m2, kind, Ok(x))
    &&& inspect_outcome(s2, &m2, other_kind(kind), Ok(y))
}

/// The changed package reads back with the target as `expected`, the other kind as
/// `opposite`, and the page setup as `setup`.
pub open spec fn reads_back(
    s: PackageSnapshot,
    c: PartChanges,
    kind: HeaderFooterKind,
    expected: InspectionView,
    opposite: InspectionView,
    setup: PageSetupInspection,
) -> bool {
    exists|s2: PackageSnapshot, m2: SourceDocument, x: HeaderFooterInspection, y: HeaderFooterInspection|
        #![trigger written(s, c, kind, setup, s2, m2, x, y)]
        written(s, c, kind, setup, s2, m2, x, y) && x@ == expected && y@ == opposite
}

/// `s2` and `m2` are a reading of the changed package and of its main part.
pub open spec fn changed_reading(s: PackageSnapshot, c: PartChanges, s2: PackageSnapshot, m2: SourceDocument) -> bool {
    &&& parts_view(s2.parts@) == changed_view(s.parts@, c)
    &&& s2.main_name@ == s.main_name@
    &&& m2.wf()
    &&& m2.faithful()
    &&& c.replaced@.len() > 0
    &&& m2.bytes@ == c.replaced@.last().1@
}

/// Every outcome the inspection of `kind` may give is a success that reads as `view`.
pub open spec fn inspects_as(s2: PackageSnapshot, m2: &SourceDocument, kind: HeaderFooterKind, view: InspectionView) -> bool {
    forall|r: Result<HeaderFooterInspection, OperationFailure>|
        #![trigger inspect_outcome(s2, m2, kind, r)]
        inspect_outcome(s2, m2, kind, r) ==> (r matches Ok(x) && x@ == view)
}

/// The changed main part parses, and every reading of the changed package has the page
/// setup as `setup`, the target as `expected` and the other kind as `opposite`.
pub open spec fn reads_back_all(
    s: PackageSnapshot,
    c: PartChanges,
    kind: HeaderFooterKind,
    expected: InspectionView,
    opposite: InspectionView,
    setup: PageSetupInspection,
) -> bool {
    &&& c.replaced@.len() > 0
    &&& crate::source::accepts(c.replaced@.last().1@)
    &&& forall|s2: PackageSnapshot, m2: SourceDocument|
        #![trigger changed_reading(s, c, s2, m2)]
        changed_reading(s, c, s2, m2) ==> {
            &&& spec_main_section(&m2, true) matches Ok(sec)
            &&& spec_page_setup_from(&m2, sec.0 as int) == Ok::<PageSetupInspection, FailureCode>(setup)
            &&& inspects_as(s2, &m2, kind, expected)
            &&& inspects_as(s2, &m2, other_kind(kind), opposite)
        }
}

/// Applies the changes and reads the package back: the page setup, the other kind and
/// the target must read as given.
pub fn check_written(
    s: &PackageSnapshot,
    c: &PartChanges,
    kind: HeaderFooterKind,
    expected: &HeaderFooterInspection,
    opposite: &HeaderFooterInspection,
    setup: PageSetupInspection,
) -> (r: Result<(), OperationFailure>)
    requires
        c.replaced@.len() > 0,
    ensures
        r is Ok ==> reads_back(*s, *c, kind, expected@, opposite@, setup),
        r is Err ==> !reads_back_all(*s, *c, kind, expected@, opposite@, setup),
{
    let s2 = apply_changes(s, c);
    let last = c.replaced.len() - 1;
    let m2 = match SourceDocument::parse(copy_bytes(c.replaced[last].1.as_slice())) {
        Ok(d) => d,
        Err(_) => return Err(document_invalid()),
    };
    assert(changed_reading(*s, *c, s2, m2));
    let section = main_section(&m2, true)?;
    let after = page_setup_from_section(&m2, section)?;
    if after != setup {
        return Err(OperationFailure::failed(FailureCode::DocumentInvalid, "output changed unrelated header/footer or page setup"));
    }
    let y = match inspect_header_footer(&s2, &m2, other_header_footer(kind)) {
        Ok(y) => y,
        Err(e) => {
            assert(!inspects_as(s2, &m2, other_kind(kind), opposite@));
            return Err(e);
        },
    };
    if !same_inspection(&y, opposite) {
        assert(!inspects_as(s2, &m2, other_kind(kind), opposite@));
        return Err(OperationFailure::failed(FailureCode::DocumentInvalid, "output changed unrelated header/footer or page setup"));
    }
    let x = match inspect_header_footer(&s2, &m2, kind) {
        Ok(x) => x,
        Err(e) => {
            assert(!inspects_as(s2, &m2, kind, expected@));
            return Err(e);
        },
    };
    if !same_inspection(&x, expected) {
        assert(!inspects_as(s2, &m2, kind, expected@));
        return Err(OperationFailure::failed(FailureCode::DocumentInvalid, "output header/footer does not match request"));
    }
    proof {
        assert(written(*s, *c, kind, setup, s2, m2, x, y));
    }
    Ok(())
}

/// How a new header or footer part is added: the main part gains a default reference
/// at its place in the section, the new part holds `part_bytes` under the next free
/// name with the kind's content type, and the main part's relationships and the content
/// types name it.
pub open spec fn created(
    s: PackageSnapshot,
    d: &SourceDocument,
    section: NodeId,
    kind: HeaderFooterKind,
    part_bytes: Seq<u8>,
    c: PartChanges,
) -> bool {
    &&& c.replaced@.len() > 0
    &&& c.replaced@.last().0@ == s.main_name@
    &&& exists|id: Seq<u8>, prefix: Seq<u8>|
        #![trigger reference_markup(prefix, kind, id)]
        {
            &&& spec_word_prefix(d, section.0 as int, "sectPr".spec_bytes()) == Some(prefix)
            &&& reference_insertion(d, section, kind) matches Some(at)
            &&& c.replaced@.last().1@ == d.bytes@.subrange(0, at) + reference_markup(prefix, kind, id)
                + d.bytes@.subrange(at, d.bytes@.len() as int)
        }
    &&& c.added@.len() > 0
    &&& vstd::utf8::encode_utf8(c.added@.last().name@) == part_file_name(
        part_stem(kind),
        highest_number(s.parts@, part_stem(kind), s.parts@.len() as int) + 1,
    )
    &&& vstd::utf8::encode_utf8(c.added@.last().content_type@) == content_type_bytes(kind)
    &&& c.added@.last().bytes@ == part_bytes
}

/// A new part can be added: the main part's relationships load; a part number and, in
/// every reading of the relationships, an id are free and the relationships part can
/// take one more element; the section has a namespace prefix and a place for the
/// reference; and the content types part exists and names the new part or can take one
/// more element.
pub open spec fn part_creatable(s: PackageSnapshot, d: &SourceDocument, section: NodeId, kind: HeaderFooterKind) -> bool {
    let highest = highest_number(s.parts@, part_stem(kind), s.parts@.len() as int);
    &&& crate::mutation::header_footer_part::relationships_available(s)
    &&& highest < u32::MAX
    &&& forall|m: crate::mutation::header_footer_part::MainRelationships|
        #![trigger crate::mutation::header_footer_part::relationships_loaded(s, m)]
        crate::mutation::header_footer_part::relationships_loaded(s, m) ==> {
            &&& exists|n: int|
                1 <= n <= u32::MAX && !crate::mutation::header_footer_markup::id_used(
                    m.list@,
                    #[trigger] crate::mutation::header_footer_markup::relationship_id_bytes(n),
                )
            &&& crate::package::spec_append_xml_element(m.bytes@, seq![]) is Some
        }
    &&& spec_word_prefix(d, section.0 as int, "sectPr".spec_bytes()) is Some
    &&& reference_insertion(d, section, kind) is Some
    &&& crate::package::part_index(s.parts@, CONTENT_TYPES_PART@, 0) matches Some(t)
    &&& (crate::bytes::contains_seq(
        s.parts@[t].bytes@,
        crate::mutation::header_footer_markup::part_marker(part_file_name(part_stem(kind), highest + 1)),
    ) || crate::package::spec_append_xml_element(s.parts@[t].bytes@, seq![]) is Some)
}

/// The main part's relationships read as `m`, `n` is the lowest relationship number
/// they leave free, and the content types part is part `t`.
pub open spec fn creation_read(s: PackageSnapshot, m: crate::mutation::header_footer_part::MainRelationships, n: int, t: int) -> bool {
    &&& crate::mutation::header_footer_part::relationships_loaded(s, m)
    &&& 1 <= n <= u32::MAX
    &&& !crate::mutation::header_footer_markup::id_used(m.list@, crate::mutation::header_footer_markup::relationship_id_bytes(n))
    &&& forall|k: int| 1 <= k < n ==> crate::mutation::header_footer_markup::id_used(m.list@, #[trigger] crate::mutation::header_footer_markup::relationship_id_bytes(k))
    &&& crate::package::part_index(s.parts@, CONTENT_TYPES_PART@, 0) == Some(t)
}

/// The changes that add a new default header or footer part, exactly: the next free
/// part name; the relationships part with a relationship of the lowest free number to
/// it; the content types with an override for it unless they already name it; the main
/// part with the section's reference inserted; and the new part itself.
pub open spec fn created_exactly(
    s: PackageSnapshot,
    d: &SourceDocument,
    section: NodeId,
    kind: HeaderFooterKind,
    part_bytes: Seq<u8>,
    c: PartChanges,
) -> bool {
    let name = part_file_name(part_stem(kind), highest_number(s.parts@, part_stem(kind), s.parts@.len() as int) + 1);
    exists|m: crate::mutation::header_footer_part::MainRelationships, n: int, t: int|
        #![trigger creation_read(s, m, n, t)]
        creation_read(s, m, n, t) && {
            let id = crate::mutation::header_footer_markup::relationship_id_bytes(n);
            let prefix = spec_word_prefix(d, section.0 as int, "sectPr".spec_bytes())->Some_0;
            let at = reference_insertion(d, section, kind)->Some_0;
            let listed = crate::mutation::header_footer_markup::part_marker(name).len() > 0 && crate::bytes::contains_seq(
                s.parts@[t].bytes@,
                crate::mutation::header_footer_markup::part_marker(name),
            );
            &&& c.replaced@.len() == (if listed { 2int } else { 3int })
            &&& c.replaced@[0].0@ == m.name@
            &&& c.replaced@[0].1@ == crate::package::spec_append_xml_element(
                m.bytes@,
                crate::mutation::header_footer_markup::relationship_markup(id, relationship_type_bytes(kind), name),
            )->Some_0
            &&& !listed ==> c.replaced@[1].0@ == CONTENT_TYPES_PART@ && c.replaced@[1].1@ == crate::package::spec_append_xml_element(
                s.parts@[t].bytes@,
                crate::mutation::header_footer_markup::override_markup(name, content_type_bytes(kind)),
            )->Some_0
            &&& c.replaced@.last().0@ == s.main_name@
            &&& c.replaced@.last().1@ == spliced(d.bytes@, at, at, reference_markup(prefix, kind, id))
            &&& c.added@.len() == 1
            &&& vstd::utf8::encode_utf8(c.added@[0].name@) == name
            &&& vstd::utf8::encode_utf8(c.added@[0].content_type@) == content_type_bytes(kind)
            &&& c.added@[0].bytes@ == part_bytes
        }
}

/// Adds a new default header or footer part holding `part_bytes`.
pub fn new_part_changes(
    s: &PackageSnapshot,
    source: &SourceDocument,
    section: NodeId,
    kind: HeaderFooterKind,
    part_bytes: Vec<u8>,
) -> (r: Result<PartChanges, OperationFailure>)
    requires
        source.wf(),
        source.valid_id(section),
    ensures
        r matches Ok(c) ==> created(*s, source, section, kind, part_bytes@, c) && created_exactly(*s, source, section, kind, part_bytes@, c),
        r is Err ==> !part_creatable(*s, source, section, kind),
{
    let rels = main_relationships(s)?;
    let ghost rels_g = rels;
    let name = next_header_footer_part_name(&s.parts, kind)?;
    let id = next_relationship_id(&rels.list)?;
    let reference = header_footer_reference_xml(source, section, kind, id.as_str().as_bytes())?;
    let ghost reference_view = reference@;
    let patch = section_reference_patch(source, section, kind, reference)?;
    let ghost at = patch.span.start as int;
    let document = apply_single_patch(source, patch);
    let relation = relationship_element(id.as_str().as_bytes(), relationship_type_name(kind), name.as_str().as_bytes());
    let new_rels = append_xml_element(rels.bytes.as_slice(), relation.as_slice())?;
    let mut replaced: Vec<(String, Vec<u8>)> = Vec::new();
    let mut added: Vec<PackagePart> = Vec::new();
    replaced.push((rels.name, new_rels));
    let types_name = CONTENT_TYPES_PART.to_owned();
    let types = match find_part(&s.parts, &types_name) {
        Some(i) => i,
        None => return Err(OperationFailure::failed(FailureCode::MissingPart, "package has no content types part")),
    };
    let marker = part_marker_bytes(name.as_str().as_bytes());
    proof {
        reveal_strlit("PartName=\"");
    }
    let listed = if marker.len() > 0 {
        contains_bytes(s.parts[types].bytes.as_slice(), marker.as_slice())
    } else {
        false
    };
    if !listed {
        let element = override_element(name.as_str().as_bytes(), content_type_name(kind));
        let new_types = append_xml_element(s.parts[types].bytes.as_slice(), element.as_slice())?;
        replaced.push((types_name, new_types));
    }
    added.push(PackagePart { name: name, content_type: content_type_name(kind).to_owned(), bytes: part_bytes });
    replaced.push((s.main_name.clone(), document));
    proof {
        let prefix = choose|p: Seq<u8>| spec_word_prefix(source, section.0 as int, "sectPr".spec_bytes()) == Some(p)
            && reference_view == reference_markup(p, kind, vstd::utf8::encode_utf8(id@));
        assert(reference_markup(prefix, kind, vstd::utf8::encode_utf8(id@)) == reference_view);
        let n = choose|n: int|
            1 <= n <= u32::MAX && vstd::utf8::encode_utf8(id@) == crate::mutation::header_footer_markup::relationship_id_bytes(n)
                && !crate::mutation::header_footer_markup::id_used(rels_g.list@, crate::mutation::header_footer_markup::relationship_id_bytes(n))
                && forall|k: int| 1 <= k < n ==> crate::mutation::header_footer_markup::id_used(rels_g.list@, #[trigger] crate::mutation::header_footer_markup::relationship_id_bytes(k));
        assert(creation_read(*s, rels_g, n, types as int));
    }
    Ok(PartChanges { replaced, added })
}

/// Why setting a header or footer text fails: the main section or its page setup cannot
/// be read, the inspection of either kind fails, the section has several default
/// references of the kind, a missing part cannot be created (`part_creatable`), the
/// existing part cannot be edited, or the changes planned do not read back as requested.
#[verifier::opaque]
pub open spec fn text_blocked(s: PackageSnapshot, d: &SourceDocument, op: SetHeaderFooterText) -> bool {
    match spec_main_section(d, true) {
        Err(_) => true,
        Ok(sec) => {
            let refs = section_references(d, sec, op.kind);
            let text = text_view(op.text);
            ||| !(spec_page_setup_from(d, sec.0 as int) is Ok)
            ||| exists|e: OperationFailure| #[trigger] inspect_outcome(s, d, op.kind, Err(e))
            ||| exists|e: OperationFailure| #[trigger] inspect_outcome(s, d, other_kind(op.kind), Err(e))
            ||| refs.len() > 1
            ||| refs.len() == 0 && op.text is Some && !part_creatable(s, d, sec, op.kind)
            ||| refs.len() == 1 && op.text is Some && !text_editable(s, d, refs[0], op.kind)
            ||| refs.len() == 1 && op.text is None && !text_removable(s, d, refs[0], op.kind)
            ||| exists|c: PartChanges, before: HeaderFooterInspection, opposite: HeaderFooterInspection|
                #![trigger text_planned(s, d, sec, op.kind, text, c), inspect_outcome(s, d, op.kind, Ok(before)), inspect_outcome(s, d, other_kind(op.kind), Ok(opposite))]
                {
                    &&& text_planned(s, d, sec, op.kind, text, c)
                    &&& inspect_outcome(s, d, op.kind, Ok(before))
                    &&& inspect_outcome(s, d, other_kind(op.kind), Ok(opposite))
                    &&& !reads_back_all(s, c, op.kind, expected_view(text, before@), opposite@, spec_page_setup_from(d, sec.0 as int)->Ok_0)
                }
        },
    }
}

/// The changes planned: for the one existing part, its text set or removed; with no
/// part and a text, a new part holding it.
pub open spec fn text_planned(s: PackageSnapshot, d: &SourceDocument, sec: NodeId, kind: HeaderFooterKind, text: Option<Seq<char>>, c: PartChanges) -> bool {
    let refs = section_references(d, sec, kind);
    if refs.len() == 1 {
        match text {
            Some(t) => text_edited(s, d, refs[0], kind, t, c),
            None => text_removed(s, d, refs[0], kind, c),
        }
    } else {
        match text {
            Some(t) => refs.len() == 0 && created_exactly(s, d, sec, kind, header_part_bytes(kind, t), c),
            None => false,
        }
    }
}

proof fn lemma_no_section(s: PackageSnapshot, d: &SourceDocument, op: SetHeaderFooterText)
    requires
        spec_main_section(d, true) is Err,
    ensures
        text_blocked(s, d, op),
{
    reveal(text_blocked);
}

proof fn lemma_setup_unreadable(s: PackageSnapshot, d: &SourceDocument, op: SetHeaderFooterText, sec: NodeId)
    requires
        spec_main_section(d, true) == Ok::<NodeId, FailureCode>(sec),
        spec_page_setup_from(d, sec.0 as int) is Err,
    ensures
        text_blocked(s, d, op),
{
    reveal(text_blocked);
}

proof fn lemma_references_blocked(s: PackageSnapshot, d: &SourceDocument, op: SetHeaderFooterText, sec: NodeId)
    requires
        spec_main_section(d, true) == Ok::<NodeId, FailureCode>(sec),
        section_references(d, sec, op.kind).len() > 1 || (section_references(d, sec, op.kind).len() == 0 && op.text is Some
            && !part_creatable(s, d, sec, op.kind)),
    ensures
        text_blocked(s, d, op),
{
    reveal(text_blocked);
}

proof fn lemma_part_blocked(s: PackageSnapshot, d: &SourceDocument, op: SetHeaderFooterText, sec: NodeId)
    requires
        spec_main_section(d, true) == Ok::<NodeId, FailureCode>(sec),
        section_references(d, sec, op.kind).len() == 1,
        op.text is Some ==> !text_editable(s, d, section_references(d, sec, op.kind)[0], op.kind),
        op.text is None ==> !text_removable(s, d, section_references(d, sec, op.kind)[0], op.kind),
    ensures
        text_blocked(s, d, op),
{
    reveal(text_blocked);
}

proof fn lemma_inspection_blocked(s: PackageSnapshot, d: &SourceDocument, op: SetHeaderFooterText, sec: NodeId, kind: HeaderFooterKind, e: OperationFailure)
    requires
        spec_main_section(d, true) == Ok::<NodeId, FailureCode>(sec),
        kind == op.kind || kind == other_kind(op.kind),
        inspect_outcome(s, d, kind, Err(e)),
    ensures
        text_blocked(s, d, op),
{
    reveal(text_blocked);
}

proof fn lemma_text_not_read_back(
    s: PackageSnapshot,
    d: &SourceDocument,
    op: SetHeaderFooterText,
    sec: NodeId,
    c: PartChanges,
    before: HeaderFooterInspection,
    opposite: HeaderFooterInspection,
)
    requires
        spec_main_section(d, true) == Ok::<NodeId, FailureCode>(sec),
        spec_page_setup_from(d, sec.0 as int) is Ok,
        text_planned(s, d, sec, op.kind, text_view(op.text), c),
        inspect_outcome(s, d, op.kind, Ok(before)),
        inspect_outcome(s, d, other_kind(op.kind), Ok(opposite)),
        !reads_back_all(s, c, op.kind, expected_view(text_view(op.text), before@), opposite@, spec_page_setup_from(d, sec.0 as int)->Ok_0),
    ensures
        text_blocked(s, d, op),
{
    reveal(text_blocked);
}

/// Sets (or, for `None`, removes) the text of the default header or footer of a
/// single-section document, keeping a page number beside it. A missing part is created
/// with its relationship, reference and content type. The changed package is read back:
/// the target must read as requested, and the other kind and the page setup as before.
pub fn set_header_footer_text_to_vec(s: &PackageSnapshot, source: &SourceDocument, operation: &SetHeaderFooterText) -> (r: Result<PartChanges, OperationFailure>)
    requires
        source.wf(),
    ensures
        spec_main_section(source, true) matches Err(c) ==> r matches Err(e) && e.code == c,
        r matches Ok(c) ==> {
            &&& spec_main_section(source, true) matches Ok(sec)
            &&& section_references(source, sec, operation.kind).len() <= 1
            &&& spec_page_setup_from(source, sec.0 as int) matches Ok(setup)
            &&& if operation.text is None && section_references(source, sec, operation.kind).len() == 0 {
                &&& c.replaced@.len() == 1
                &&& c.replaced@[0].0@ == s.main_name@
                &&& c.replaced@[0].1@ == source.bytes@
                &&& c.added@.len() == 0
            } else {
                &&& exists|before: HeaderFooterInspection, opposite: HeaderFooterInspection|
                    #![trigger inspect_outcome(*s, source, operation.kind, Ok(before)), inspect_outcome(*s, source, other_kind(operation.kind), Ok(opposite))]
                    inspect_outcome(*s, source, operation.kind, Ok(before))
                        && inspect_outcome(*s, source, other_kind(operation.kind), Ok(opposite))
                        && reads_back(*s, c, operation.kind, expected_view(
                            match operation.text {
                                Some(t) => Some(t@),
                                None => None,
                            },
                            before@,
                        ), opposite@, setup)
            }
            &&& (operation.text is Some && section_references(source, sec, operation.kind).len() == 0)
                ==> created(*s, source, sec, operation.kind, header_part_bytes(operation.kind, operation.text->0@), c)
        },
        r is Err ==> text_blocked(*s, source, *operation),
{
    let kind = operation.kind;
    let section = match main_section(source, true) {
        Ok(x) => x,
        Err(e) => {
            proof { lemma_no_section(*s, source, *operation); }
            return Err(e);
        },
    };
    let setup = match page_setup_from_section(source, section) {
        Ok(x) => x,
        Err(e) => {
            proof { lemma_setup_unreadable(*s, source, *operation, section); }
            return Err(e);
        },
    };
    let before = match inspect_header_footer(s, source, kind) {
        Ok(x) => x,
        Err(e) => {
            proof { lemma_inspection_blocked(*s, source, *operation, section, kind, e); }
            return Err(e);
        },
    };
    let opposite = match inspect_header_footer(s, source, other_header_footer(kind)) {
        Ok(x) => x,
        Err(e) => {
            proof { lemma_inspection_blocked(*s, source, *operation, section, other_kind(kind), e); }
            return Err(e);
        },
    };
    let references = default_header_footer_references(source, section, kind);
    if references.len() > 1 {
        proof { lemma_references_blocked(*s, source, *operation, section); }
        return Err(unsupported("default header/footer reference is ambiguous"));
    }
    let changes = match &operation.text {
        Some(text) => {
            if references.len() == 1 {
                match edit_existing_text(s, source, references[0], kind, text) {
                    Ok(c) => c,
                    Err(e) => {
                        proof { lemma_part_blocked(*s, source, *operation, section); }
                        return Err(e);
                    },
                }
            } else {
                let content = text_paragraph_xml(str_bytes("w").as_slice(), text.as_str());
                let part = header_footer_part_xml(kind, content.as_slice());
                match new_part_changes(s, source, section, kind, part) {
                    Ok(c) => c,
                    Err(e) => {
                        proof { lemma_references_blocked(*s, source, *operation, section); }
                        return Err(e);
                    },
                }
            }
        },
        None => {
            if references.len() == 1 {
                match remove_existing_text(s, source, references[0], kind) {
                    Ok(c) => c,
                    Err(e) => {
                        proof { lemma_part_blocked(*s, source, *operation, section); }
                        return Err(e);
                    },
                }
            } else {
                let mut replaced: Vec<(String, Vec<u8>)> = Vec::new();
                replaced.push((s.main_name.clone(), copy_bytes(source.original_bytes())));
                return Ok(PartChanges { replaced, added: Vec::new() });
            }
        },
    };
    let page = match &before {
        HeaderFooterInspection::SimplePageNumber(a) => Some(*a),
        HeaderFooterInspection::SimpleTextAndPageNumber(_, a) => Some(*a),
        _ => None,
    };
    let expected = match (&operation.text, page) {
        (Some(t), Some(a)) => HeaderFooterInspection::SimpleTextAndPageNumber(t.clone(), a),
        (Some(t), None) => HeaderFooterInspection::SimpleText(t.clone()),
        (None, Some(a)) => HeaderFooterInspection::SimplePageNumber(a),
        (None, None) => HeaderFooterInspection::Absent,
    };
    match check_written(s, &changes, kind, &expected, &opposite, setup) {
        Ok(_) => {},
        Err(e) => {
            proof {
                let text = text_view(operation.text);
                assert(expected@ == expected_view(text, before@));
                assert(text_planned(*s, source, section, kind, text, changes));
                lemma_text_not_read_back(*s, source, *operation, section, changes, before, opposite);
            }
            return Err(e);
        },
    }
    Ok(changes)
}

/// The bytes of a new part holding one text paragraph.
pub open spec fn header_part_bytes(kind: HeaderFooterKind, text: Seq<char>) -> Seq<u8> {
    crate::mutation::header_footer_markup::part_markup(
        kind,
        crate::mutation::header_footer_markup::text_paragraph_markup("w".spec_bytes(), text),
    )
}

/// Bytes with `span` replaced by `replacement`.
pub open spec fn spliced(bytes: Seq<u8>, start: int, end: int, replacement: Seq<u8>) -> Seq<u8> {
    bytes.subrange(0, start) + replacement + bytes.subrange(end, bytes.len() as int)
}

/// A simple part with its text set: its text element rewritten, or, with no text
/// paragraph, a text paragraph added before the root's closing tag.
pub open spec fn text_set_bytes(p: &SourceDocument, kind: HeaderFooterKind, text: Seq<char>) -> Seq<u8> {
    let content = crate::mutation::header_footer::simple_content(p, kind)->Some_0;
    if content.0 is Some {
        let para = crate::mutation::header_footer_markup::first_text_paragraph(p, p.spec_children(0), 0)->Some_0;
        let t = crate::mutation::header_footer_markup::text_element(p, para)->Some_0;
        let prefix = spec_word_prefix(p, para.0 as int, "p".spec_bytes())->Some_0;
        spliced(
            p.bytes@,
            p.spec_span(t.0 as int).start as int,
            p.spec_span(t.0 as int).end as int,
            crate::mutation::header_footer_markup::text_element_markup(prefix, text),
        )
    } else {
        let at = crate::mutation::header_footer_markup::end_tag_start(p, NodeId(0))->Some_0;
        let prefix = spec_word_prefix(p, 0, crate::mutation::header_footer::root_name(kind))->Some_0;
        spliced(p.bytes@, at, at, crate::mutation::header_footer_markup::text_paragraph_markup(prefix, text))
    }
}

/// The part a reference points at, read: the main part's relationships load as `m`,
/// the reference names part `i`, and `p` is the faithful reading of its bytes.
pub open spec fn part_read(
    s: PackageSnapshot,
    d: &SourceDocument,
    reference: NodeId,
    kind: HeaderFooterKind,
    m: crate::mutation::header_footer_part::MainRelationships,
    i: int,
    p: SourceDocument,
) -> bool {
    &&& crate::mutation::header_footer_part::relationships_loaded(s, m)
    &&& crate::mutation::header_footer_part::spec_header_footer_part(s.parts@, m.list@, d, reference, kind) == Ok::<int, FailureCode>(i)
    &&& 0 <= i < s.parts@.len()
    &&& p.wf() && p.faithful() && p.bytes@ == s.parts@[i].bytes@
}

/// The changes that set the text of the existing part a reference points at: that part
/// with its text set, and the main part as it was.
pub open spec fn text_edited(s: PackageSnapshot, d: &SourceDocument, reference: NodeId, kind: HeaderFooterKind, text: Seq<char>, c: PartChanges) -> bool {
    &&& c.replaced@.len() == 2 && c.added@.len() == 0
    &&& c.replaced@[1].0@ == s.main_name@ && c.replaced@[1].1@ == d.bytes@
    &&& exists|m: crate::mutation::header_footer_part::MainRelationships, i: int, p: SourceDocument|
        #![trigger part_read(s, d, reference, kind, m, i, p)]
        part_read(s, d, reference, kind, m, i, p) && c.replaced@[0].0@ == s.parts@[i].name@ && c.replaced@[0].1@
            == text_set_bytes(&p, kind, text)
}

/// The changes that remove the text of the existing part a reference points at: with a
/// page number beside it, the part without its text paragraph (and the main part as it
/// was); else the main part without the reference.
pub open spec fn text_removed(s: PackageSnapshot, d: &SourceDocument, reference: NodeId, kind: HeaderFooterKind, c: PartChanges) -> bool {
    &&& c.added@.len() == 0
    &&& exists|m: crate::mutation::header_footer_part::MainRelationships, i: int, p: SourceDocument|
        #![trigger part_read(s, d, reference, kind, m, i, p)]
        part_read(s, d, reference, kind, m, i, p) && if crate::mutation::header_footer::simple_content(&p, kind)->Some_0.1 is Some {
            let para = crate::mutation::header_footer_markup::first_text_paragraph(&p, p.spec_children(0), 0)->Some_0;
            &&& c.replaced@.len() == 2
            &&& c.replaced@[0].0@ == s.parts@[i].name@
            &&& c.replaced@[0].1@ == spliced(p.bytes@, p.spec_span(para.0 as int).start as int, p.spec_span(para.0 as int).end as int, seq![])
            &&& c.replaced@[1].0@ == s.main_name@ && c.replaced@[1].1@ == d.bytes@
        } else {
            &&& c.replaced@.len() == 1
            &&& c.replaced@[0].0@ == s.main_name@
            &&& c.replaced@[0].1@ == spliced(d.bytes@, d.spec_span(reference.0 as int).start as int, d.spec_span(reference.0 as int).end as int, seq![])
        }
}

/// The part a reference points at can be read for an edit: the main part's
/// relationships load, and in every reading of them the reference names a part that
/// parses, and every reading of that part meets `ok`.
pub open spec fn part_editable(
    s: PackageSnapshot,
    d: &SourceDocument,
    reference: NodeId,
    kind: HeaderFooterKind,
    ok: spec_fn(&SourceDocument) -> bool,
) -> bool {
    &&& crate::mutation::header_footer_part::relationships_available(s)
    &&& forall|m: crate::mutation::header_footer_part::MainRelationships|
        #![trigger crate::mutation::header_footer_part::relationships_loaded(s, m)]
        crate::mutation::header_footer_part::relationships_loaded(s, m) ==> {
            &&& crate::mutation::header_footer_part::spec_header_footer_part(s.parts@, m.list@, d, reference, kind) matches Ok(i)
            &&& crate::source::accepts(s.parts@[i].bytes@)
            &&& forall|p: SourceDocument| #![trigger p.bytes] p.wf() && p.bytes@ == s.parts@[i].bytes@ && p.faithful() ==> ok(&p)
        }
}

/// The existing part a reference points at can have its text set.
pub open spec fn text_editable(s: PackageSnapshot, d: &SourceDocument, reference: NodeId, kind: HeaderFooterKind) -> bool {
    part_editable(s, d, reference, kind, |p: &SourceDocument| text_settable(p, kind))
}

/// A simple part whose text can be set: its text paragraph can be rewritten, or, with
/// none, a paragraph can be added before its closing tag.
pub open spec fn text_settable(p: &SourceDocument, kind: HeaderFooterKind) -> bool {
    &&& crate::mutation::header_footer::simple_content(p, kind) matches Some(content)
    &&& content.0 is Some ==> crate::mutation::header_footer_markup::text_patchable(p)
    &&& content.0 is None ==> crate::mutation::header_footer_markup::end_tag_start(p, NodeId(0)) is Some
        && spec_word_prefix(p, 0, crate::mutation::header_footer::root_name(kind)) is Some
}

/// Rewrites the text of an existing simple part, or adds a text paragraph to it.
fn edit_existing_text(s: &PackageSnapshot, source: &SourceDocument, reference: NodeId, kind: HeaderFooterKind, text: &String) -> (r: Result<PartChanges, OperationFailure>)
    requires
        source.wf(),
        source.valid_id(reference),
    ensures
        r matches Ok(c) ==> c.replaced@.len() == 2 && c.replaced@.last().0@ == s.main_name@
            && c.replaced@.last().1@ == source.bytes@ && c.added@.len() == 0 && text_edited(*s, source, reference, kind, text@, c),
        r is Err ==> !text_editable(*s, source, reference, kind),
{
    let rels = main_relationships(s)?;
    let index = header_footer_part(s, &rels.list, source, reference, kind)?;
    let part = match SourceDocument::parse(copy_bytes(s.parts[index].bytes.as_slice())) {
        Ok(d) => d,
        Err(_) => return Err(document_invalid()),
    };
    assert(part.bytes == part.bytes);
    let content = match simple_header_footer_content(&part, kind) {
        Some(c) => c,
        None => return Err(unsupported("header/footer is not a supported simple part")),
    };
    let patch = if content.text.is_some() {
        simple_text_patch(&part, text.as_str())?
    } else {
        let at = closing_tag_start(&part, part.root())?;
        let prefix = word_prefix_for(&part, part.root(), root_word(kind))?;
        Patch { span: SourceSpan { start: at, end: at }, replacement: text_paragraph_xml(prefix.as_slice(), text.as_str()) }
    };
    let bytes = apply_single_patch(&part, patch);
    assert(bytes@ == text_set_bytes(&part, kind, text@));
    let mut replaced: Vec<(String, Vec<u8>)> = Vec::new();
    replaced.push((s.parts[index].name.clone(), bytes));
    replaced.push((s.main_name.clone(), copy_bytes(source.original_bytes())));
    let c = PartChanges { replaced, added: Vec::new() };
    assert(part_read(*s, source, reference, kind, rels, index as int, part));
    Ok(c)
}

/// The text of the part a reference points at can be removed: the main part's
/// relationships load, and in every reading of them the reference names a part that
/// parses and, in every reading of it, is a simple part whose text paragraph can be found
/// when a page number stays.
pub open spec fn text_removable(s: PackageSnapshot, d: &SourceDocument, reference: NodeId, kind: HeaderFooterKind) -> bool {
    &&& crate::mutation::header_footer_part::relationships_available(s)
    &&& forall|m: crate::mutation::header_footer_part::MainRelationships|
        #![trigger crate::mutation::header_footer_part::relationships_loaded(s, m)]
        crate::mutation::header_footer_part::relationships_loaded(s, m) ==> {
            &&& crate::mutation::header_footer_part::spec_header_footer_part(s.parts@, m.list@, d, reference, kind) matches Ok(i)
            &&& crate::source::accepts(s.parts@[i].bytes@)
            &&& forall|p: SourceDocument|
                #![trigger p.bytes]
                p.wf() && p.bytes@ == s.parts@[i].bytes@ && p.faithful() ==> {
                    &&& crate::mutation::header_footer::simple_content(&p, kind) matches Some(content)
                    &&& content.1 is Some ==> crate::mutation::header_footer_markup::first_text_paragraph(&p, p.spec_children(0), 0) is Some
                }
        }
}

/// Removes the text of an existing simple part: its text paragraph when a page number
/// stays, else the section's reference to the part.
fn remove_existing_text(s: &PackageSnapshot, source: &SourceDocument, reference: NodeId, kind: HeaderFooterKind) -> (r: Result<PartChanges, OperationFailure>)
    requires
        source.wf(),
        source.valid_id(reference),
    ensures
        r matches Ok(c) ==> c.replaced@.len() > 0 && c.replaced@.last().0@ == s.main_name@ && c.added@.len() == 0
            && text_removed(*s, source, reference, kind, c),
        r is Err ==> !text_removable(*s, source, reference, kind),
{
    let rels = main_relationships(s)?;
    let index = header_footer_part(s, &rels.list, source, reference, kind)?;
    let part = match SourceDocument::parse(copy_bytes(s.parts[index].bytes.as_slice())) {
        Ok(d) => d,
        Err(_) => return Err(document_invalid()),
    };
    assert(part.bytes == part.bytes);
    let content = match simple_header_footer_content(&part, kind) {
        Some(c) => c,
        None => return Err(unsupported("header/footer is not a supported simple part")),
    };
    let mut replaced: Vec<(String, Vec<u8>)> = Vec::new();
    if content.page_number.is_some() {
        let paragraph = match header_footer_text_paragraph(&part) {
            Some(p) => p,
            None => return Err(unsupported("header/footer has no simple text paragraph")),
        };
        let span = part.span(paragraph);
        let bytes = apply_single_patch(&part, Patch { span, replacement: Vec::new() });
        replaced.push((s.parts[index].name.clone(), bytes));
        replaced.push((s.main_name.clone(), copy_bytes(source.original_bytes())));
    } else {
        let span = source.span(reference);
        let document = apply_single_patch(source, Patch { span, replacement: Vec::new() });
        replaced.push((s.main_name.clone(), document));
    }
    let c = PartChanges { replaced, added: Vec::new() };
    assert(part_read(*s, source, reference, kind, rels, index as int, part));
    Ok(c)
}

} // verus!
