use vstd::prelude::*;
use vstd::string::StringSliceAdditionalSpecFns;

use crate::bytes::{bytes_are, utf8_string};
use crate::source::{source_error_code, NodeId, SourceDocument, SourceError};
use crate::wordml::{as_text, attr_text, children_named, is_word, named_among, string_view, word};

verus! {

/// Which pages a header or footer reference applies to.
#[derive(Clone, Debug, PartialEq, Eq)]
pub enum HeaderFooterType {
    Default,
    First,
    Even,
    Unknown(String),
}

#[derive(Clone, Copy, Debug, PartialEq, Eq, Structural)]
pub enum HeaderFooterKind {
    Header,
    Footer,
}

/// A `w:headerReference` or `w:footerReference` of a section.
#[derive(Clone, Debug)]
pub struct HeaderFooterReference {
    pub source_id: NodeId,
    pub kind: HeaderFooterKind,
    pub reference_type: HeaderFooterType,
    pub relationship_id: Option<String>,
}

/// Where a relationship points.
#[derive(Clone, Debug)]
pub enum RelationshipTarget {
    Internal { part_name: String },
    External { target: String },
}

/// One relationship of a package part.
#[derive(Clone, Debug)]
pub struct Relationship {
    pub id: String,
    pub relationship_type: String,
    pub target: RelationshipTarget,
}

#[derive(Clone, Debug, PartialEq, Eq)]
pub enum HeaderFooterError {
    Source(SourceError),
    MissingRelationshipId,
    MissingRelationship(String),
    WrongRelationshipType,
    ExternalTarget,
    WrongKind,
    InvalidRoot(HeaderFooterKind),
}

/// The machine-readable code of a header or footer error.
pub open spec fn header_footer_error_code(e: HeaderFooterError) -> Seq<char> {
    match e {
        HeaderFooterError::Source(e) => source_error_code(e),
        HeaderFooterError::MissingRelationshipId => "MISSING_HEADER_FOOTER_RELATIONSHIP_ID"@,
        HeaderFooterError::MissingRelationship(_) => "MISSING_HEADER_FOOTER_RELATIONSHIP"@,
        HeaderFooterError::WrongRelationshipType => "WRONG_HEADER_FOOTER_RELATIONSHIP_TYPE"@,
        HeaderFooterError::ExternalTarget => "EXTERNAL_HEADER_FOOTER_TARGET"@,
        HeaderFooterError::WrongKind => "WRONG_HEADER_FOOTER_KIND"@,
        HeaderFooterError::InvalidRoot(HeaderFooterKind::Header) => "INVALID_HEADER_ROOT"@,
        HeaderFooterError::InvalidRoot(HeaderFooterKind::Footer) => "INVALID_FOOTER_ROOT"@,
    }
}

impl HeaderFooterError {
    pub fn code(&self) -> (r: &'static str)
        ensures
            r@ == header_footer_error_code(*self),
    {
        match self {
            HeaderFooterError::Source(e) => e.code(),
            HeaderFooterError::MissingRelationshipId => "MISSING_HEADER_FOOTER_RELATIONSHIP_ID",
            HeaderFooterError::MissingRelationship(_) => "MISSING_HEADER_FOOTER_RELATIONSHIP",
            HeaderFooterError::WrongRelationshipType => "WRONG_HEADER_FOOTER_RELATIONSHIP_TYPE",
            HeaderFooterError::ExternalTarget => "EXTERNAL_HEADER_FOOTER_TARGET",
            HeaderFooterError::WrongKind => "WRONG_HEADER_FOOTER_KIND",
            HeaderFooterError::InvalidRoot(HeaderFooterKind::Header) => "INVALID_HEADER_ROOT",
            HeaderFooterError::InvalidRoot(HeaderFooterKind::Footer) => "INVALID_FOOTER_ROOT",
        }
    }
}

/// The relationship type of a header part, transitional and strict.
pub const HEADER_RELATIONSHIP: &'static str = "http://schemas.openxmlformats.org/officeDocument/2006/relationships/header";

pub const HEADER_RELATIONSHIP_STRICT: &'static str = "http://purl.oclc.org/ooxml/officeDocument/relationships/header";

/// The relationship type of a footer part, transitional and strict.
pub const FOOTER_RELATIONSHIP: &'static str = "http://schemas.openxmlformats.org/officeDocument/2006/relationships/footer";

pub const FOOTER_RELATIONSHIP_STRICT: &'static str = "http://purl.oclc.org/ooxml/officeDocument/relationships/footer";

/// The reference type a `w:type` value names; `None` for a value outside the three.
pub open spec fn spec_reference_type(v: Seq<u8>) -> Option<HeaderFooterType> {
    if v == "default".spec_bytes() {
        Some(HeaderFooterType::Default)
    } else if v == "first".spec_bytes() {
        Some(HeaderFooterType::First)
    } else if v == "even".spec_bytes() {
        Some(HeaderFooterType::Even)
    } else {
        None
    }
}

/// The `w:type` of a reference names its type literally: `default`, `first` and `even`,
/// and each type is read from exactly that value.
pub proof fn law_reference_types(v: Seq<u8>)
    ensures
        v == "default".spec_bytes() ==> spec_reference_type(v) == Some(HeaderFooterType::Default),
        v == "first".spec_bytes() ==> spec_reference_type(v) == Some(HeaderFooterType::First),
        v == "even".spec_bytes() ==> spec_reference_type(v) == Some(HeaderFooterType::Even),
        spec_reference_type(v) == Some(HeaderFooterType::Default) ==> v == "default".spec_bytes(),
        spec_reference_type(v) == Some(HeaderFooterType::First) ==> v == "first".spec_bytes(),
        spec_reference_type(v) == Some(HeaderFooterType::Even) ==> v == "even".spec_bytes(),
{
    reveal_strlit("default");
    reveal_strlit("first");
    reveal_strlit("even");
    vstd::string::is_ascii_spec_bytes("default");
    vstd::string::is_ascii_spec_bytes("first");
    vstd::string::is_ascii_spec_bytes("even");
    assert(vstd::string::is_ascii("default"));
    assert(vstd::string::is_ascii("first"));
    assert(vstd::string::is_ascii("even"));
}

/// A `w:type` value is read as one of the three types, or as `Unknown` with the value's text.
pub open spec fn type_read(t: HeaderFooterType, v: Option<Seq<u8>>) -> bool {
    match v {
        Some(b) => match spec_reference_type(b) {
            Some(x) => t == x,
            None => t matches HeaderFooterType::Unknown(s) && (string_view(Some(s)) == as_text(
                Some(b),
            ) || (!vstd::utf8::valid_utf8(b) && s@.len() == 0)),
        },
        None => t matches HeaderFooterType::Unknown(s) && s@.len() == 0,
    }
}

fn reference_type(value: Vec<u8>) -> (r: HeaderFooterType)
    ensures
        type_read(r, Some(value@)),
{
    if bytes_are(value.as_slice(), "default") {
        HeaderFooterType::Default
    } else if bytes_are(value.as_slice(), "first") {
        HeaderFooterType::First
    } else if bytes_are(value.as_slice(), "even") {
        HeaderFooterType::Even
    } else {
        match utf8_string(value) {
            Some(s) => HeaderFooterType::Unknown(s),
            None => HeaderFooterType::Unknown(String::new()),
        }
    }
}

/// The local name of the reference elements of a kind.
pub open spec fn reference_local(kind: HeaderFooterKind) -> Seq<u8> {
    match kind {
        HeaderFooterKind::Header => "headerReference".spec_bytes(),
        HeaderFooterKind::Footer => "footerReference".spec_bytes(),
    }
}

/// Headers are referenced by `w:headerReference` and footers by `w:footerReference`.
pub proof fn law_reference_names()
    ensures
        reference_local(HeaderFooterKind::Header) == "headerReference".spec_bytes(),
        reference_local(HeaderFooterKind::Footer) == "footerReference".spec_bytes(),
{
}

impl HeaderFooterReference {
    /// The reference read from the element `id` of a section.
    pub open spec fn reads(&self, d: &SourceDocument, id: NodeId, kind: HeaderFooterKind) -> bool {
        &&& self.source_id == id
        &&& self.kind == kind
        &&& type_read(self.reference_type, d.spec_attribute(id.0 as int, "type".spec_bytes()))
        &&& string_view(self.relationship_id) == as_text(d.spec_attribute(id.0 as int, "id".spec_bytes()))
    }

    pub fn source_id(&self) -> (r: NodeId)
        ensures
            r == self.source_id,
    {
        self.source_id
    }

    pub fn kind(&self) -> (r: HeaderFooterKind)
        ensures
            r == self.kind,
    {
        self.kind
    }

    pub fn reference_type(&self) -> (r: &HeaderFooterType)
        ensures
            *r == self.reference_type,
    {
        &self.reference_type
    }

    pub fn relationship_id(&self) -> (r: Option<&str>)
        ensures
            match r {
                Some(s) => self.relationship_id matches Some(id) && s@ == id@,
                None => self.relationship_id is None,
            },
    {
        match &self.relationship_id {
            Some(s) => Some(s.as_str()),
            None => None,
        }
    }

    /// The name of the part this reference points to, through the main part's
    /// relationships: the first relationship with the reference's id, which must be a
    /// header (or footer) relationship with an internal target.
    pub fn resolve_part(&self, relationships: &[Relationship]) -> (r: Result<String, HeaderFooterError>)
        ensures
            r == spec_resolve_part(self, relationships@),
    {
        let id = match &self.relationship_id {
            Some(id) => id,
            None => return Err(HeaderFooterError::MissingRelationshipId),
        };
        let mut k: usize = 0;
        while k < relationships.len()
            invariant
                self.relationship_id == Some(*id),
                k <= relationships@.len(),
                first_with_id(relationships@, id@, 0) == first_with_id(relationships@, id@, k as int),
            decreases relationships@.len() - k,
        {
            let relationship = &relationships[k];
            if relationship.id == *id {
                let typed = relationship.relationship_type.as_str();
                let expected = match self.kind {
                    HeaderFooterKind::Header => bytes_are(typed.as_bytes(), HEADER_RELATIONSHIP)
                        || bytes_are(typed.as_bytes(), HEADER_RELATIONSHIP_STRICT),
                    HeaderFooterKind::Footer => bytes_are(typed.as_bytes(), FOOTER_RELATIONSHIP)
                        || bytes_are(typed.as_bytes(), FOOTER_RELATIONSHIP_STRICT),
                };
                if !expected {
                    return Err(HeaderFooterError::WrongRelationshipType);
                }
                return match &relationship.target {
                    RelationshipTarget::Internal { part_name } => Ok(part_name.clone()),
                    RelationshipTarget::External { .. } => Err(HeaderFooterError::ExternalTarget),
                };
            }
            k += 1;
        }
        Err(HeaderFooterError::MissingRelationship(id.clone()))
    }
}

/// The index of the first relationship at or after `from` with the given id.
pub open spec fn first_with_id(rels: Seq<Relationship>, id: Seq<char>, from: int) -> Option<int>
    decreases rels.len() - from,
{
    if from < 0 || from >= rels.len() {
        None
    } else if rels[from].id@ == id {
        Some(from)
    } else {
        first_with_id(rels, id, from + 1)
    }
}

/// A relationship type is the header (or footer) relationship type.
pub open spec fn has_kind_type(rel: Relationship, kind: HeaderFooterKind) -> bool {
    let t = vstd::utf8::encode_utf8(rel.relationship_type@);
    match kind {
        HeaderFooterKind::Header => t == HEADER_RELATIONSHIP.spec_bytes() || t
            == HEADER_RELATIONSHIP_STRICT.spec_bytes(),
        HeaderFooterKind::Footer => t == FOOTER_RELATIONSHIP.spec_bytes() || t
            == FOOTER_RELATIONSHIP_STRICT.spec_bytes(),
    }
}

pub open spec fn spec_resolve_part(r: &HeaderFooterReference, rels: Seq<Relationship>) -> Result<String, HeaderFooterError> {
    match r.relationship_id {
        None => Err(HeaderFooterError::MissingRelationshipId),
        Some(id) => match first_with_id(rels, id@, 0) {
            None => Err(HeaderFooterError::MissingRelationship(id)),
            Some(k) => if !has_kind_type(rels[k], r.kind) {
                Err(HeaderFooterError::WrongRelationshipType)
            } else {
                match rels[k].target {
                    RelationshipTarget::Internal { part_name } => Ok(part_name),
                    RelationshipTarget::External { .. } => Err(HeaderFooterError::ExternalTarget),
                }
            },
        },
    }
}

/// The header (or footer) references of a section, in document order.
pub fn references(source: &SourceDocument, section_id: NodeId, kind: HeaderFooterKind) -> (r: Vec<HeaderFooterReference>)
    requires
        source.wf(),
        source.valid_id(section_id),
    ensures
        r@.len() == named_among(source, source.spec_children(section_id.0 as int), reference_local(kind), reference_local(kind)).len(),
        forall|k: int|
            0 <= k < r@.len() ==> (#[trigger] r@[k]).reads(
                source,
                named_among(source, source.spec_children(section_id.0 as int), reference_local(kind), reference_local(kind))[k],
                kind,
            ),
{
    let name = match kind {
        HeaderFooterKind::Header => "headerReference",
        HeaderFooterKind::Footer => "footerReference",
    };
    let ids = children_named(source, section_id, name, name);
    let mut out: Vec<HeaderFooterReference> = Vec::new();
    let mut k: usize = 0;
    while k < ids.len()
        invariant
            source.wf(),
            name.spec_bytes() == reference_local(kind),
            ids@ == named_among(source, source.spec_children(section_id.0 as int), reference_local(kind), reference_local(kind)),
            forall|j: int| 0 <= j < ids@.len() ==> source.valid_id(#[trigger] ids@[j]),
            k <= ids@.len(),
            out@.len() == k,
            forall|j: int| 0 <= j < k ==> (#[trigger] out@[j]).reads(source, ids@[j], kind),
        decreases ids@.len() - k,
    {
        let id = ids[k];
        let reference_type = match source.attribute(id, "type") {
            Some(v) => reference_type(v),
            None => HeaderFooterType::Unknown(String::new()),
        };
        let relationship_id = attr_text(source, Some(id), "id");
        out.push(HeaderFooterReference { source_id: id, kind, reference_type, relationship_id });
        k += 1;
    }
    out
}

/// A header or footer part whose root element has been checked.
#[derive(Debug)]
pub struct HeaderFooter {
    pub part_name: String,
    pub source: SourceDocument,
    pub root_id: NodeId,
    pub kind: HeaderFooterKind,
}

/// The local name of the root element of a kind's part.
pub open spec fn root_local(kind: HeaderFooterKind) -> Seq<u8> {
    match kind {
        HeaderFooterKind::Header => "hdr".spec_bytes(),
        HeaderFooterKind::Footer => "ftr".spec_bytes(),
    }
}

/// A header part's root is `w:hdr` and a footer part's `w:ftr`.
pub proof fn law_root_names()
    ensures
        root_local(HeaderFooterKind::Header) == "hdr".spec_bytes(),
        root_local(HeaderFooterKind::Footer) == "ftr".spec_bytes(),
{
}

impl HeaderFooter {
    /// The part that a reference of the expected kind points to: the reference must
    /// be of that kind, then it is resolved through the main part's relationships.
    pub fn part_for(reference: &HeaderFooterReference, expected: HeaderFooterKind, relationships: &[Relationship]) -> (r: Result<String, HeaderFooterError>)
        ensures
            reference.kind != expected ==> r == Err::<String, HeaderFooterError>(HeaderFooterError::WrongKind),
            reference.kind == expected ==> r == spec_resolve_part(reference, relationships@),
    {
        if reference.kind != expected {
            return Err(HeaderFooterError::WrongKind);
        }
        reference.resolve_part(relationships)
    }

    /// Reads a header or footer part, whose root must be `w:hdr` (or `w:ftr`).
    pub fn from_part(part_name: String, bytes: Vec<u8>, kind: HeaderFooterKind) -> (r: Result<HeaderFooter, HeaderFooterError>)
        ensures
            match r {
                Ok(h) => h.part_name == part_name && h.source.wf() && h.source.bytes@ == bytes@
                    && h.root_id == NodeId(0) && h.kind == kind && is_word(&h.source, 0, root_local(kind)),
                Err(HeaderFooterError::Source(_)) => true,
                Err(e) => e == HeaderFooterError::InvalidRoot(kind),
            },
    {
        let source = match SourceDocument::parse(bytes) {
            Ok(s) => s,
            Err(e) => return Err(HeaderFooterError::Source(e)),
        };
        let root_id = source.root();
        let local = match kind {
            HeaderFooterKind::Header => "hdr",
            HeaderFooterKind::Footer => "ftr",
        };
        if !word(&source, root_id, local) {
            return Err(HeaderFooterError::InvalidRoot(kind));
        }
        Ok(HeaderFooter { part_name, source, root_id, kind })
    }

    pub fn source(&self) -> (r: &SourceDocument)
        ensures
            *r == self.source,
    {
        &self.source
    }

    pub fn root_id(&self) -> (r: NodeId)
        ensures
            r == self.root_id,
    {
        self.root_id
    }

    pub fn kind(&self) -> (r: HeaderFooterKind)
        ensures
            r == self.kind,
    {
        self.kind
    }
}

} // verus!
