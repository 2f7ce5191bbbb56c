use vstd::prelude::*;
use vstd::string::StringSliceAdditionalSpecFns;

use crate::bytes::{bytes_are, bytes_equal, copy_bytes};
use crate::header_footer::{
    reference_local, HeaderFooterKind, Relationship, RelationshipTarget, FOOTER_RELATIONSHIP,
    HEADER_RELATIONSHIP,
};
use crate::mutation::common::document_invalid;
use crate::mutation::header_footer::{
    content_view, simple_content, simple_header_footer_content, HeaderFooterInspection, InspectionView,
};
use crate::mutation::page_setup::{main_section, spec_main_section};
use crate::package::{
    directory, directory_of, find_part, named_among_any, parse_relationships, part_index,
    relationship_part_name, relationship_reads, spec_relationship_part_name, PackagePart,
    PackageSnapshot,
};
use crate::protocol::{unsupported, FailureCode, OperationFailure};
use crate::source::{NodeId, SourceDocument};
use crate::wordml::{is_word, word};

verus! {

/// The content type of header parts.
pub const HEADER_CONTENT_TYPE: &'static str = "application/vnd.openxmlformats-officedocument.wordprocessingml.header+xml";

/// The content type of footer parts.
pub const FOOTER_CONTENT_TYPE: &'static str = "application/vnd.openxmlformats-officedocument.wordprocessingml.footer+xml";

pub open spec fn content_type_bytes(kind: HeaderFooterKind) -> Seq<u8> {
    match kind {
        HeaderFooterKind::Header => HEADER_CONTENT_TYPE.spec_bytes(),
        HeaderFooterKind::Footer => FOOTER_CONTENT_TYPE.spec_bytes(),
    }
}

pub open spec fn relationship_type_bytes(kind: HeaderFooterKind) -> Seq<u8> {
    match kind {
        HeaderFooterKind::Header => HEADER_RELATIONSHIP.spec_bytes(),
        HeaderFooterKind::Footer => FOOTER_RELATIONSHIP.spec_bytes(),
    }
}

pub fn content_type_name(kind: HeaderFooterKind) -> (r: &'static str)
    ensures
        r.spec_bytes() == content_type_bytes(kind),
{
    match kind {
        HeaderFooterKind::Header => HEADER_CONTENT_TYPE,
        HeaderFooterKind::Footer => FOOTER_CONTENT_TYPE,
    }
}

pub fn relationship_type_name(kind: HeaderFooterKind) -> (r: &'static str)
    ensures
        r.spec_bytes() == relationship_type_bytes(kind),
{
    match kind {
        HeaderFooterKind::Header => HEADER_RELATIONSHIP,
        HeaderFooterKind::Footer => FOOTER_RELATIONSHIP,
    }
}

pub fn reference_name(kind: HeaderFooterKind) -> (r: &'static str)
    ensures
        r.spec_bytes() == reference_local(kind),
{
    match kind {
        HeaderFooterKind::Header => "headerReference",
        HeaderFooterKind::Footer => "footerReference",
    }
}

/// The header for a footer, the footer for a header.
pub open spec fn other_kind(kind: HeaderFooterKind) -> HeaderFooterKind {
    match kind {
        HeaderFooterKind::Header => HeaderFooterKind::Footer,
        HeaderFooterKind::Footer => HeaderFooterKind::Header,
    }
}

pub fn other_header_footer(kind: HeaderFooterKind) -> (r: HeaderFooterKind)
    ensures
        r == other_kind(kind),
        r != kind,
{
    match kind {
        HeaderFooterKind::Header => HeaderFooterKind::Footer,
        HeaderFooterKind::Footer => HeaderFooterKind::Header,
    }
}

/// The `default` references of one kind among a section's children, in order.
pub open spec fn default_references(d: &SourceDocument, kids: Seq<NodeId>, local: Seq<u8>) -> Seq<NodeId>
    decreases kids.len(),
{
    if kids.len() == 0 {
        seq![]
    } else {
        let rest = default_references(d, kids.drop_last(), local);
        let last = kids.last();
        if is_word(d, last.0 as int, local) && d.spec_attribute(last.0 as int, "type".spec_bytes())
            == Some("default".spec_bytes()) {
            rest.push(last)
        } else {
            rest
        }
    }
}

proof fn lemma_default_references(d: &SourceDocument, kids: Seq<NodeId>, local: Seq<u8>)
    ensures
        forall|k: int| 0 <= k < default_references(d, kids, local).len() ==> kids.contains(
            #[trigger] default_references(d, kids, local)[k],
        ),
    decreases kids.len(),
{
    if kids.len() > 0 {
        let init = kids.drop_last();
        lemma_default_references(d, init, local);
        let rest = default_references(d, init, local);
        assert forall|k: int| 0 <= k < rest.len() implies kids.contains(#[trigger] rest[k]) by {
            let j = choose|j: int| 0 <= j < init.len() && init[j] == rest[k];
            assert(kids[j] == rest[k]);
        }
        assert(kids[kids.len() - 1] == kids.last());
    }
}

/// The section's `default` references of the kind.
pub open spec fn section_references(d: &SourceDocument, section: NodeId, kind: HeaderFooterKind) -> Seq<NodeId> {
    default_references(d, d.spec_children(section.0 as int), reference_local(kind))
}

pub fn default_header_footer_references(source: &SourceDocument, section: NodeId, kind: HeaderFooterKind) -> (r: Vec<NodeId>)
    requires
        source.wf(),
        source.valid_id(section),
    ensures
        r@ == section_references(source, section, kind),
        forall|k: int| 0 <= k < r@.len() ==> source.valid_id(#[trigger] r@[k]),
{
    let local = reference_name(kind);
    let kids = source.children(section);
    let _end = source.subtree_end(section);
    let mut found: Vec<NodeId> = Vec::new();
    let mut k: usize = 0;
    while k < kids.len()
        invariant
            source.wf(),
            local.spec_bytes() == reference_local(kind),
            kids@ == source.spec_children(section.0 as int),
            forall|j: int| 0 <= j < kids@.len() ==> source.valid_id(#[trigger] kids@[j]),
            k <= kids@.len(),
            found@ == default_references(source, kids@.take(k as int), local.spec_bytes()),
        decreases kids@.len() - k,
    {
        assert(kids@.take(k as int + 1).drop_last() == kids@.take(k as int));
        let c = kids[k];
        let is_default = match source.attribute(c, "type") {
            Some(v) => bytes_are(v.as_slice(), "default"),
            None => false,
        };
        if word(source, c, local) && is_default {
            found.push(c);
        }
        k += 1;
    }
    assert(kids@.take(kids@.len() as int) == kids@);
    proof {
        lemma_default_references(source, kids@, local.spec_bytes());
        assert forall|j: int| 0 <= j < found@.len() implies source.valid_id(#[trigger] found@[j]) by {
            let i = choose|i: int| 0 <= i < kids@.len() && kids@[i] == found@[j];
        }
    }
    found
}

/// The relationships of the main part, as read from its relationships part.
#[derive(Clone, Debug)]
pub struct MainRelationships {
    pub name: String,
    pub index: usize,
    pub bytes: Vec<u8>,
    pub list: Vec<Relationship>,
}

/// The relationships a parsed relationships part declares, targets resolved against `dir`.
pub open spec fn list_reads(list: Seq<Relationship>, d: &SourceDocument, dir: Seq<u8>) -> bool {
    let found = named_among_any(d, d.spec_children(0), "Relationship".spec_bytes());
    &&& list.len() == found.len()
    &&& forall|k: int| 0 <= k < found.len() ==> relationship_reads(#[trigger] list[k], d, found[k], dir)
}

/// `list` is what the relationships part `bytes` declares.
pub open spec fn relationships_read(list: Seq<Relationship>, bytes: Seq<u8>, dir: Seq<u8>) -> bool {
    exists|d: SourceDocument| #![trigger d.bytes] d.wf() && d.bytes@ == bytes && d.faithful() && list_reads(list, &d, dir)
}

pub open spec fn main_name_bytes(s: PackageSnapshot) -> Seq<u8> {
    vstd::utf8::encode_utf8(s.main_name@)
}

/// How the main part's relationships were found: the part named after the main part,
/// and what it declares.
pub open spec fn relationships_loaded(s: PackageSnapshot, m: MainRelationships) -> bool {
    &&& spec_relationship_part_name(main_name_bytes(s)) == Some(vstd::utf8::encode_utf8(m.name@))
    &&& m.index < s.parts@.len()
    &&& part_index(s.parts@, m.name@, 0) == Some(m.index as int)
    &&& m.bytes@ == s.parts@[m.index as int].bytes@
    &&& relationships_read(m.list@, m.bytes@, directory(main_name_bytes(s)))
}

/// The main part's relationships part is named, present, and parses.
pub open spec fn relationships_available(s: PackageSnapshot) -> bool {
    &&& spec_relationship_part_name(main_name_bytes(s)) matches Some(b)
    &&& vstd::utf8::valid_utf8(b)
    &&& part_index(s.parts@, vstd::utf8::decode_utf8(b), 0) matches Some(i)
    &&& crate::source::accepts(s.parts@[i].bytes@)
}

/// The main part's relationships part is named and present but does not parse.
pub open spec fn relationships_unparsable(s: PackageSnapshot) -> bool {
    &&& spec_relationship_part_name(main_name_bytes(s)) matches Some(b)
    &&& vstd::utf8::valid_utf8(b)
    &&& part_index(s.parts@, vstd::utf8::decode_utf8(b), 0) matches Some(i)
    &&& !crate::source::accepts(s.parts@[i].bytes@)
}

/// Reads the relationships of the main part. Fails when the main part's name has no
/// relationships part name, when the package lacks that part, or when the part is not
/// well-formed XML.
pub fn main_relationships(s: &PackageSnapshot) -> (r: Result<MainRelationships, OperationFailure>)
    ensures
        match r {
            Ok(m) => relationships_loaded(*s, m),
            Err(e) => (e.code == FailureCode::PackageConflict && match spec_relationship_part_name(main_name_bytes(*s)) {
                None => true,
                Some(b) => !vstd::utf8::valid_utf8(b),
            }) || (e.code == FailureCode::DocumentInvalid && relationships_unparsable(*s)) || (e.code == FailureCode::MissingPart
                && match spec_relationship_part_name(main_name_bytes(*s)) {
                Some(b) => vstd::utf8::valid_utf8(b) && part_index(s.parts@, vstd::utf8::decode_utf8(b), 0) is None,
                None => false,
            }),
        },
        spec_relationship_part_name(main_name_bytes(*s)) is None ==> r is Err,
        r is Ok <==> relationships_available(*s),
{
    let name = match relationship_part_name(&s.main_name) {
        Ok(n) => n,
        Err(e) => return Err(e),
    };
    proof {
        vstd::utf8::encode_utf8_valid_utf8(name@);
        vstd::utf8::encode_utf8_decode_utf8(name@);
    }
    let index = match find_part(&s.parts, &name) {
        Some(i) => i,
        None => {
            proof {
                vstd::utf8::encode_utf8_valid_utf8(name@);
                vstd::utf8::encode_utf8_decode_utf8(name@);
            }
            return Err(OperationFailure::failed(FailureCode::MissingPart, "main document has no relationships part"));
        },
    };
    let bytes = copy_bytes(s.parts[index].bytes.as_slice());
    let doc = match SourceDocument::parse(copy_bytes(bytes.as_slice())) {
        Ok(d) => d,
        Err(_) => return Err(document_invalid()),
    };
    let dir = directory_of(s.main_name.as_str().as_bytes());
    let list = parse_relationships(&doc, &dir);
    proof {
        assert(list_reads(list@, &doc, dir@));
        assert(doc.bytes == doc.bytes);
    }
    Ok(MainRelationships { name, index, bytes, list })
}

/// The first relationship whose id has the given bytes.
pub open spec fn first_id(rels: Seq<Relationship>, id: Seq<u8>, from: int) -> Option<int>
    decreases rels.len() - from,
{
    if from < 0 || from >= rels.len() {
        None
    } else if vstd::utf8::encode_utf8(rels[from].id@) == id {
        Some(from)
    } else {
        first_id(rels, id, from + 1)
    }
}

/// The part a header or footer reference points at: the relationship named by the
/// reference's id must exist, have the kind's relationship type and an internal target,
/// and the target must be a part of the package with the kind's content type.
pub open spec fn spec_header_footer_part(
    parts: Seq<PackagePart>,
    rels: Seq<Relationship>,
    d: &SourceDocument,
    reference: NodeId,
    kind: HeaderFooterKind,
) -> Result<int, FailureCode> {
    match d.spec_attribute(reference.0 as int, "id".spec_bytes()) {
        None => Err(FailureCode::UnsupportedOperation),
        Some(id) => match first_id(rels, id, 0) {
            None => Err(FailureCode::UnsupportedOperation),
            Some(k) => if vstd::utf8::encode_utf8(rels[k].relationship_type@) != relationship_type_bytes(kind) {
                Err(FailureCode::UnsupportedOperation)
            } else {
                match rels[k].target {
                    RelationshipTarget::External { .. } => Err(FailureCode::UnsupportedOperation),
                    RelationshipTarget::Internal { part_name } => match part_index(parts, part_name@, 0) {
                        None => Err(FailureCode::MissingPart),
                        Some(i) => if vstd::utf8::encode_utf8(parts[i].content_type@) != content_type_bytes(kind) {
                            Err(FailureCode::UnsupportedOperation)
                        } else {
                            Ok(i)
                        },
                    },
                }
            },
        },
    }
}

pub fn header_footer_part(
    s: &PackageSnapshot,
    rels: &Vec<Relationship>,
    source: &SourceDocument,
    reference: NodeId,
    kind: HeaderFooterKind,
) -> (r: Result<usize, OperationFailure>)
    requires
        source.wf(),
        source.valid_id(reference),
    ensures
        match r {
            Ok(i) => spec_header_footer_part(s.parts@, rels@, source, reference, kind) == Ok::<int, FailureCode>(i as int)
                && i < s.parts@.len(),
            Err(e) => spec_header_footer_part(s.parts@, rels@, source, reference, kind) == Err::<int, FailureCode>(e.code),
        },
{
    let id = match source.attribute(reference, "id") {
        Some(v) => v,
        None => return Err(unsupported("header/footer reference has no relationship id")),
    };
    let mut k: usize = 0;
    while k < rels.len()
        invariant
            source.spec_attribute(reference.0 as int, "id".spec_bytes()) == Some(id@),
            k <= rels@.len(),
            first_id(rels@, id@, 0) == first_id(rels@, id@, k as int),
        decreases rels@.len() - k,
    {
        let relationship = &rels[k];
        if bytes_equal(relationship.id.as_str().as_bytes(), id.as_slice()) {
            if !bytes_are(relationship.relationship_type.as_str().as_bytes(), relationship_type_name(kind)) {
                return Err(unsupported("header/footer relationship has an unexpected type"));
            }
            let part_name = match &relationship.target {
                RelationshipTarget::Internal { part_name } => part_name,
                RelationshipTarget::External { .. } => {
                    return Err(unsupported("header/footer relationship must target an internal part"));
                },
            };
            let i = match find_part(&s.parts, part_name) {
                Some(i) => i,
                None => return Err(OperationFailure::failed(FailureCode::MissingPart, "header/footer part is missing")),
            };
            if !bytes_are(s.parts[i].content_type.as_str().as_bytes(), content_type_name(kind)) {
                return Err(unsupported("header/footer part has an unexpected content type"));
            }
            return Ok(i);
        }
        k += 1;
    }
    Err(unsupported("header/footer relationship is missing"))
}

/// The one default reference of the kind resolves to a simple part, read as `v`.
pub open spec fn part_inspected(s: PackageSnapshot, d: &SourceDocument, reference: NodeId, kind: HeaderFooterKind, v: InspectionView) -> bool {
    exists|m: MainRelationships, p: SourceDocument|
        #![trigger relationships_loaded(s, m), p.bytes]
        {
            &&& relationships_loaded(s, m)
            &&& spec_header_footer_part(s.parts@, m.list@, d, reference, kind) matches Ok(i)
            &&& p.wf()
            &&& p.faithful()
            &&& p.bytes@ == s.parts@[i].bytes@
            &&& simple_content(&p, kind) matches Some(c)
            &&& content_view(c) == v
        }
}

/// Why the part of the one default reference could not be inspected.
pub open spec fn part_failure(s: PackageSnapshot, d: &SourceDocument, reference: NodeId, kind: HeaderFooterKind, code: FailureCode) -> bool {
    ||| code == FailureCode::PackageConflict && match spec_relationship_part_name(main_name_bytes(s)) {
        None => true,
        Some(b) => !vstd::utf8::valid_utf8(b),
    }
    ||| code == FailureCode::DocumentInvalid && relationships_unparsable(s)
    ||| code == FailureCode::DocumentInvalid && exists|m: MainRelationships| #![trigger relationships_loaded(s, m)]
        relationships_loaded(s, m) && (spec_header_footer_part(s.parts@, m.list@, d, reference, kind) matches Ok(i)
            && !crate::source::accepts(s.parts@[i].bytes@))
    ||| code == FailureCode::MissingPart && match spec_relationship_part_name(main_name_bytes(s)) {
        Some(b) => vstd::utf8::valid_utf8(b) && part_index(s.parts@, vstd::utf8::decode_utf8(b), 0) is None,
        None => false,
    }
    ||| exists|m: MainRelationships| #![trigger relationships_loaded(s, m)]
        relationships_loaded(s, m) && spec_header_footer_part(s.parts@, m.list@, d, reference, kind) == Err::<int, FailureCode>(code)
    ||| exists|m: MainRelationships, p: SourceDocument|
        #![trigger relationships_loaded(s, m), p.bytes]
        {
            &&& relationships_loaded(s, m)
            &&& spec_header_footer_part(s.parts@, m.list@, d, reference, kind) matches Ok(i)
            &&& p.wf()
            &&& p.faithful()
            &&& p.bytes@ == s.parts@[i].bytes@
            &&& simple_content(&p, kind) is None
            &&& code == FailureCode::UnsupportedOperation
        }
}

/// What inspecting the kind's default header or footer gives: the main section's error;
/// `Absent` without a default reference; `Unsupported` with more than one; else the
/// simple content of the referenced part.
pub open spec fn inspect_outcome(s: PackageSnapshot, d: &SourceDocument, kind: HeaderFooterKind, r: Result<HeaderFooterInspection, OperationFailure>) -> bool {
    match spec_main_section(d, false) {
        Err(c) => r matches Err(e) && e.code == c,
        Ok(sec) => {
            let refs = section_references(d, sec, kind);
            if refs.len() == 0 {
                r matches Ok(i) && i@ == InspectionView::Absent
            } else if refs.len() > 1 {
                r matches Ok(i) && i@ == InspectionView::Unsupported
            } else {
                match r {
                    Ok(i) => part_inspected(s, d, refs[0], kind, i@),
                    Err(e) => part_failure(s, d, refs[0], kind, e.code),
                }
            }
        },
    }
}

/// Inspects the part one default reference points at.
fn inspect_reference(s: &PackageSnapshot, source: &SourceDocument, reference: NodeId, kind: HeaderFooterKind) -> (r: Result<HeaderFooterInspection, OperationFailure>)
    requires
        source.wf(),
        source.valid_id(reference),
    ensures
        match r {
            Ok(i) => part_inspected(*s, source, reference, kind, i@),
            Err(e) => part_failure(*s, source, reference, kind, e.code),
        },
{
    let rels = match main_relationships(s) {
        Ok(m) => m,
        Err(e) => return Err(e),
    };
    let index = match header_footer_part(s, &rels.list, source, reference, kind) {
        Ok(i) => i,
        Err(e) => {
            proof {
                assert(relationships_loaded(*s, rels));
            }
            return Err(e);
        },
    };
    let part = match SourceDocument::parse(copy_bytes(s.parts[index].bytes.as_slice())) {
        Ok(d) => d,
        Err(_) => return Err(document_invalid()),
    };
    proof {
        assert(relationships_loaded(*s, rels));
        assert(part.bytes == part.bytes);
    }
    let content = match simple_header_footer_content(&part, kind) {
        Some(c) => c,
        None => return Err(unsupported("header/footer is not a supported simple part")),
    };
    let result = match (content.text, content.page_number) {
        (None, None) => HeaderFooterInspection::SimpleText(String::new()),
        (Some(text), None) => HeaderFooterInspection::SimpleText(text),
        (None, Some(alignment)) => HeaderFooterInspection::SimplePageNumber(alignment),
        (Some(text), Some(alignment)) => HeaderFooterInspection::SimpleTextAndPageNumber(text, alignment),
    };
    Ok(result)
}

/// Inspects one default header or footer of the main document.
pub fn inspect_header_footer(s: &PackageSnapshot, source: &SourceDocument, kind: HeaderFooterKind) -> (r: Result<HeaderFooterInspection, OperationFailure>)
    requires
        source.wf(),
    ensures
        inspect_outcome(*s, source, kind, r),
{
    let section = match main_section(source, false) {
        Ok(x) => x,
        Err(e) => return Err(e),
    };
    let references = default_header_footer_references(source, section, kind);
    if references.len() == 0 {
        return Ok(HeaderFooterInspection::Absent);
    }
    if references.len() != 1 {
        return Ok(HeaderFooterInspection::Unsupported);
    }
    inspect_reference(s, source, references[0], kind)
}

} // verus!
