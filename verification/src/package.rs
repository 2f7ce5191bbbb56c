use vstd::prelude::*;
use vstd::string::StringSliceAdditionalSpecFns;

use crate::bytes::{bytes_are, bytes_equal, copy_bytes, copy_range, push_bytes, push_str, utf8_string};
use crate::header_footer::{Relationship, RelationshipTarget};
use crate::protocol::{FailureCode, OperationFailure};
use crate::source::{NodeId, SourceDocument};

verus! {

/// The namespace of package relationship parts.
pub const RELATIONSHIPS_NAMESPACE: &'static str = "http://schemas.openxmlformats.org/package/2006/relationships";

/// One part of a package: its name (such as `/word/document.xml`), its content type and
/// its bytes.
#[derive(Clone, Debug, PartialEq, Eq)]
pub struct PackagePart {
    pub name: String,
    pub content_type: String,
    pub bytes: Vec<u8>,
}

/// The parts of a package, and which of them is the main document.
#[derive(Clone, Debug, PartialEq, Eq)]
pub struct PackageSnapshot {
    pub parts: Vec<PackagePart>,
    pub main_name: String,
}

/// What an edit changes in a package: parts whose bytes are replaced, and new parts.
#[derive(Clone, Debug, PartialEq, Eq)]
pub struct PartChanges {
    pub replaced: Vec<(String, Vec<u8>)>,
    pub added: Vec<PackagePart>,
}

/// The index of the first part with the given name.
pub open spec fn part_index(parts: Seq<PackagePart>, name: Seq<char>, from: int) -> Option<int>
    decreases parts.len() - from,
{
    if from < 0 || from >= parts.len() {
        None
    } else if parts[from].name@ == name {
        Some(from)
    } else {
        part_index(parts, name, from + 1)
    }
}

pub fn find_part(parts: &Vec<PackagePart>, name: &String) -> (r: Option<usize>)
    ensures
        match r {
            Some(i) => part_index(parts@, name@, 0) == Some(i as int) && i < parts@.len(),
            None => part_index(parts@, name@, 0) is None,
        },
{
    let mut i: usize = 0;
    while i < parts.len()
        invariant
            i <= parts@.len(),
            part_index(parts@, name@, 0) == part_index(parts@, name@, i as int),
        decreases parts@.len() - i,
    {
        if parts[i].name == *name {
            return Some(i);
        }
        i += 1;
    }
    None
}

/// The position of the last `/` in a name.
pub open spec fn last_slash(s: Seq<u8>, upto: int) -> Option<int>
    decreases upto,
{
    if upto <= 0 {
        None
    } else if s[upto - 1] == 0x2fu8 {
        Some(upto - 1)
    } else {
        last_slash(s, upto - 1)
    }
}

fn find_last_slash(s: &[u8], upto: usize) -> (r: Option<usize>)
    requires
        upto <= s@.len(),
    ensures
        match r {
            Some(i) => last_slash(s@, upto as int) == Some(i as int) && i < upto,
            None => last_slash(s@, upto as int) is None,
        },
{
    let mut i = upto;
    while i > 0
        invariant
            i <= upto <= s@.len(),
            last_slash(s@, upto as int) == last_slash(s@, i as int),
        decreases i,
    {
        if s[i - 1] == 0x2fu8 {
            return Some(i - 1);
        }
        i -= 1;
    }
    None
}

/// The relationship part of a part: `dir/_rels/file.rels` for `dir/file`.
pub open spec fn spec_relationship_part_name(name: Seq<u8>) -> Option<Seq<u8>> {
    match last_slash(name, name.len() as int) {
        Some(i) => Some(name.subrange(0, i) + "/_rels/".spec_bytes() + name.subrange(i + 1, name.len() as int)
            + ".rels".spec_bytes()),
        None => None,
    }
}

pub fn relationship_part_name(main_name: &String) -> (r: Result<String, OperationFailure>)
    ensures
        match r {
            Ok(n) => spec_relationship_part_name(vstd::utf8::encode_utf8(main_name@)) == Some(vstd::utf8::encode_utf8(n@)),
            Err(e) => e.code == FailureCode::PackageConflict && match spec_relationship_part_name(vstd::utf8::encode_utf8(main_name@)) {
                None => true,
                Some(b) => !vstd::utf8::valid_utf8(b),
            },
        },
{
    let name = main_name.as_str().as_bytes();
    let i = match find_last_slash(name, name.len()) {
        Some(i) => i,
        None => return Err(OperationFailure::failed(FailureCode::PackageConflict, "main document part has no file name")),
    };
    let mut out = copy_range(name, 0, i);
    push_str(&mut out, "/_rels/");
    push_bytes(&mut out, copy_range(name, i + 1, name.len()).as_slice());
    push_str(&mut out, ".rels");
    let ghost bytes_view = out@;
    proof {
        assert(bytes_view =~= name@.subrange(0, i as int) + "/_rels/".spec_bytes() + name@.subrange(i + 1, name@.len() as int) + ".rels".spec_bytes());
    }
    match utf8_string(out) {
        Some(s) => {
            proof {
                vstd::utf8::decode_utf8_encode_utf8(bytes_view);
            }
            Ok(s)
        },
        None => Err(OperationFailure::failed(FailureCode::PackageConflict, "main document part name is invalid")),
    }
}

/// The directory of a part name, with its trailing `/`.
pub open spec fn directory(name: Seq<u8>) -> Seq<u8> {
    match last_slash(name, name.len() as int) {
        Some(i) => name.subrange(0, i + 1),
        None => seq![0x2fu8],
    }
}

/// The directory of a part name, with its trailing `/`.
pub fn directory_of(name: &[u8]) -> (r: Vec<u8>)
    ensures
        r@ == directory(name@),
{
    let mut i = name.len();
    while i > 0
        invariant
            i <= name@.len(),
            last_slash(name@, name@.len() as int) == last_slash(name@, i as int),
        decreases i,
    {
        if name[i - 1] == 0x2fu8 {
            return copy_range(name, 0, i);
        }
        i -= 1;
    }
    let mut v: Vec<u8> = Vec::new();
    v.push(0x2fu8);
    assert(v@ =~= seq![0x2fu8]);
    v
}

/// A relationship target resolved against the directory of its source part: absolute
/// targets stand as they are; `./` stays in the directory and `../` leaves it.
pub open spec fn resolve_target(dir: Seq<u8>, target: Seq<u8>) -> Seq<u8>
    decreases target.len(),
{
    if target.len() > 0 && target[0] == 0x2fu8 {
        target
    } else if target.len() >= 2 && target[0] == 0x2eu8 && target[1] == 0x2fu8 {
        resolve_target(dir, target.skip(2))
    } else if target.len() >= 3 && target[0] == 0x2eu8 && target[1] == 0x2eu8 && target[2] == 0x2fu8 {
        resolve_target(parent_directory(dir), target.skip(3))
    } else {
        dir + target
    }
}

/// The directory above a directory (which ends with `/`); `/` stays `/`.
pub open spec fn parent_directory(dir: Seq<u8>) -> Seq<u8> {
    if dir.len() <= 1 {
        seq![0x2fu8]
    } else {
        match last_slash(dir, dir.len() - 1) {
            Some(i) => dir.subrange(0, i + 1),
            None => seq![0x2fu8],
        }
    }
}

fn parent_of(dir: Vec<u8>) -> (r: Vec<u8>)
    ensures
        r@ == parent_directory(dir@),
{
    if dir.len() <= 1 {
        let mut v: Vec<u8> = Vec::new();
        v.push(0x2fu8);
        return v;
    }
    match find_last_slash(dir.as_slice(), dir.len() - 1) {
        Some(i) => copy_range(dir.as_slice(), 0, i + 1),
        None => {
            let mut v: Vec<u8> = Vec::new();
            v.push(0x2fu8);
            v
        },
    }
}

pub fn resolve_relationship_target(dir: Vec<u8>, target: &[u8]) -> (r: Vec<u8>)
    ensures
        r@ == resolve_target(dir@, target@),
    decreases target@.len(),
{
    if target.len() > 0 && target[0] == 0x2fu8 {
        return copy_bytes(target);
    }
    if target.len() >= 2 && target[0] == 0x2eu8 && target[1] == 0x2fu8 {
        let rest = copy_range(target, 2, target.len());
        proof {
            assert(rest@ =~= target@.skip(2));
        }
        return resolve_relationship_target(dir, rest.as_slice());
    }
    if target.len() >= 3 && target[0] == 0x2eu8 && target[1] == 0x2eu8 && target[2] == 0x2fu8 {
        let rest = copy_range(target, 3, target.len());
        proof {
            assert(rest@ =~= target@.skip(3));
        }
        return resolve_relationship_target(parent_of(dir), rest.as_slice());
    }
    let mut out = dir;
    push_bytes(&mut out, target);
    out
}

/// Attribute bytes as text; empty when they are not UTF-8.
pub open spec fn text_or_empty(b: Option<Seq<u8>>) -> Seq<char> {
    match b {
        Some(v) => if vstd::utf8::valid_utf8(v) {
            vstd::utf8::decode_utf8(v)
        } else {
            seq![]
        },
        None => seq![],
    }
}

fn attribute_text(source: &SourceDocument, id: NodeId, name: &str) -> (r: String)
    requires
        source.wf(),
        source.valid_id(id),
    ensures
        r@ == text_or_empty(source.spec_attribute(id.0 as int, name.spec_bytes())),
{
    match source.attribute(id, name) {
        Some(v) => match utf8_string(v) {
            Some(s) => s,
            None => String::new(),
        },
        None => String::new(),
    }
}

/// The relationship a `Relationship` element declares, its target resolved against the
/// directory of the source part unless its target mode is `External`.
pub open spec fn relationship_reads(r: Relationship, d: &SourceDocument, id: NodeId, dir: Seq<u8>) -> bool {
    let target = match d.spec_attribute(id.0 as int, "Target".spec_bytes()) {
        Some(t) => t,
        None => seq![],
    };
    &&& r.id@ == text_or_empty(d.spec_attribute(id.0 as int, "Id".spec_bytes()))
    &&& r.relationship_type@ == text_or_empty(d.spec_attribute(id.0 as int, "Type".spec_bytes()))
    &&& if d.spec_attribute(id.0 as int, "TargetMode".spec_bytes()) == Some("External".spec_bytes()) {
        r.target matches RelationshipTarget::External { target: t } && t@ == text_or_empty(Some(target))
    } else {
        r.target matches RelationshipTarget::Internal { part_name: n } && n@ == text_or_empty(Some(resolve_target(dir, target)))
    }
}

/// Reads the relationships of a relationships part, targets resolved against `dir`.
pub fn parse_relationships(rels: &SourceDocument, dir: &Vec<u8>) -> (r: Vec<Relationship>)
    requires
        rels.wf(),
    ensures
        ({
            let found = named_among_any(rels, rels.spec_children(0), "Relationship".spec_bytes());
            &&& r@.len() == found.len()
            &&& forall|k: int| 0 <= k < found.len() ==> relationship_reads(#[trigger] r@[k], rels, found[k], dir@)
        }),
{
    let found = children_local(rels, NodeId(0), "Relationship");
    let mut out: Vec<Relationship> = Vec::new();
    let mut k: usize = 0;
    while k < found.len()
        invariant
            rels.wf(),
            found@ == named_among_any(rels, rels.spec_children(0), "Relationship".spec_bytes()),
            forall|j: int| 0 <= j < found@.len() ==> rels.valid_id(#[trigger] found@[j]),
            k <= found@.len(),
            out@.len() == k,
            forall|j: int| 0 <= j < k ==> relationship_reads(#[trigger] out@[j], rels, found@[j], dir@),
        decreases found@.len() - k,
    {
        let id = found[k];
        let rid = attribute_text(rels, id, "Id");
        let kind = attribute_text(rels, id, "Type");
        let target = match rels.attribute(id, "Target") {
            Some(t) => t,
            None => Vec::new(),
        };
        let external = match rels.attribute(id, "TargetMode") {
            Some(m) => bytes_are(m.as_slice(), "External"),
            None => false,
        };
        let target_text = if external {
            match utf8_string(copy_bytes(target.as_slice())) {
                Some(s) => s,
                None => String::new(),
            }
        } else {
            let resolved = resolve_relationship_target(copy_bytes(dir.as_slice()), target.as_slice());
            match utf8_string(resolved) {
                Some(s) => s,
                None => String::new(),
            }
        };
        let relationship = if external {
            Relationship { id: rid, relationship_type: kind, target: RelationshipTarget::External { target: target_text } }
        } else {
            Relationship { id: rid, relationship_type: kind, target: RelationshipTarget::Internal { part_name: target_text } }
        };
        out.push(relationship);
        k += 1;
    }
    out
}

/// The element children of `kids` with the given local name, in any namespace.
pub open spec fn named_among_any(d: &SourceDocument, kids: Seq<NodeId>, local: Seq<u8>) -> Seq<NodeId>
    decreases kids.len(),
{
    if kids.len() == 0 {
        seq![]
    } else {
        let rest = named_among_any(d, kids.drop_last(), local);
        if d.element_local(kids.last().0 as int) == Some(local) {
            rest.push(kids.last())
        } else {
            rest
        }
    }
}

proof fn lemma_named_among_any(d: &SourceDocument, kids: Seq<NodeId>, local: Seq<u8>)
    ensures
        forall|k: int| 0 <= k < named_among_any(d, kids, local).len() ==> kids.contains(#[trigger] named_among_any(d, kids, local)[k]),
    decreases kids.len(),
{
    if kids.len() > 0 {
        let init = kids.drop_last();
        lemma_named_among_any(d, init, local);
        let rest = named_among_any(d, init, local);
        assert forall|k: int| 0 <= k < rest.len() implies kids.contains(#[trigger] rest[k]) by {
            let j = choose|j: int| 0 <= j < init.len() && init[j] == rest[k];
            assert(kids[j] == rest[k]);
        }
        assert(kids[kids.len() - 1] == kids.last());
    }
}

pub fn children_local(source: &SourceDocument, parent: NodeId, local: &str) -> (r: Vec<NodeId>)
    requires
        source.wf(),
        source.valid_id(parent),
    ensures
        r@ == named_among_any(source, source.spec_children(parent.0 as int), local.spec_bytes()),
        forall|k: int| 0 <= k < r@.len() ==> source.valid_id(#[trigger] r@[k]),
{
    let kids = source.children(parent);
    let _end = source.subtree_end(parent);
    let mut found: Vec<NodeId> = Vec::new();
    let mut k: usize = 0;
    while k < kids.len()
        invariant
            source.wf(),
            kids@ == source.spec_children(parent.0 as int),
            forall|j: int| 0 <= j < kids@.len() ==> source.valid_id(#[trigger] kids@[j]),
            k <= kids@.len(),
            found@ == named_among_any(source, kids@.take(k as int), local.spec_bytes()),
        decreases kids@.len() - k,
    {
        assert(kids@.take(k as int + 1).drop_last() == kids@.take(k as int));
        let c = kids[k];
        if source.has_local_name(c, local) {
            found.push(c);
        }
        k += 1;
    }
    assert(kids@.take(kids@.len() as int) == kids@);
    proof {
        lemma_named_among_any(source, kids@, local.spec_bytes());
        assert forall|j: int| 0 <= j < found@.len() implies source.valid_id(#[trigger] found@[j]) by {
            let i = choose|i: int| 0 <= i < kids@.len() && kids@[i] == found@[j];
        }
    }
    found
}

/// Adds an element just before the closing tag of an XML part's root: before its last
/// `<`, which must start a closing tag.
pub open spec fn spec_append_xml_element(bytes: Seq<u8>, element: Seq<u8>) -> Option<Seq<u8>> {
    match last_angle(bytes, bytes.len() as int) {
        Some(i) => if i + 1 < bytes.len() && bytes[i + 1] == 0x2fu8 {
            Some(bytes.subrange(0, i) + element + bytes.subrange(i, bytes.len() as int))
        } else {
            None
        },
        None => None,
    }
}

pub open spec fn last_angle(s: Seq<u8>, upto: int) -> Option<int>
    decreases upto,
{
    if upto <= 0 {
        None
    } else if s[upto - 1] == 0x3cu8 {
        Some(upto - 1)
    } else {
        last_angle(s, upto - 1)
    }
}

pub fn append_xml_element(bytes: &[u8], element: &[u8]) -> (r: Result<Vec<u8>, OperationFailure>)
    ensures
        match r {
            Ok(v) => spec_append_xml_element(bytes@, element@) == Some(v@),
            Err(e) => spec_append_xml_element(bytes@, element@) is None && e.code == FailureCode::DocumentInvalid,
        },
{
    let mut i = bytes.len();
    while i > 0
        invariant
            i <= bytes@.len(),
            last_angle(bytes@, bytes@.len() as int) == last_angle(bytes@, i as int),
        decreases i,
    {
        if bytes[i - 1] == 0x3cu8 {
            let close = i - 1;
            if close + 1 < bytes.len() && bytes[close + 1] == 0x2fu8 {
                let mut out = copy_range(bytes, 0, close);
                push_bytes(&mut out, element);
                push_bytes(&mut out, copy_range(bytes, close, bytes.len()).as_slice());
                return Ok(out);
            }
            return Err(OperationFailure::failed(FailureCode::DocumentInvalid, "XML part has no closing element"));
        }
        i -= 1;
    }
    Err(OperationFailure::failed(FailureCode::DocumentInvalid, "XML part has no closing element"))
}

/// A part as plain values: name, content type and bytes.
pub open spec fn part_view(p: PackagePart) -> (Seq<char>, Seq<char>, Seq<u8>) {
    (p.name@, p.content_type@, p.bytes@)
}

pub open spec fn parts_view(parts: Seq<PackagePart>) -> Seq<(Seq<char>, Seq<char>, Seq<u8>)> {
    parts.map_values(|p: PackagePart| part_view(p))
}

/// The parts with the bytes of every part of the given name replaced.
pub open spec fn replace_named(v: Seq<(Seq<char>, Seq<char>, Seq<u8>)>, name: Seq<char>, bytes: Seq<u8>) -> Seq<(Seq<char>, Seq<char>, Seq<u8>)> {
    v.map_values(|e: (Seq<char>, Seq<char>, Seq<u8>)| if e.0 == name { (e.0, e.1, bytes) } else { e })
}

/// The parts after each replacement in turn.
pub open spec fn replaced_all(v: Seq<(Seq<char>, Seq<char>, Seq<u8>)>, rs: Seq<(String, Vec<u8>)>) -> Seq<(Seq<char>, Seq<char>, Seq<u8>)>
    decreases rs.len(),
{
    if rs.len() == 0 {
        v
    } else {
        replace_named(replaced_all(v, rs.drop_last()), rs.last().0@, rs.last().1@)
    }
}

/// The parts of a package after a set of changes: replacements in order, then the new
/// parts after the existing ones.
pub open spec fn changed_view(parts: Seq<PackagePart>, c: PartChanges) -> Seq<(Seq<char>, Seq<char>, Seq<u8>)> {
    replaced_all(parts_view(parts), c.replaced@) + parts_view(c.added@)
}

proof fn lemma_parts_view_push(ps: Seq<PackagePart>)
    requires
        ps.len() > 0,
    ensures
        parts_view(ps) == parts_view(ps.drop_last()).push(part_view(ps.last())),
{
    assert(parts_view(ps) =~= parts_view(ps.drop_last()).push(part_view(ps.last())));
}

pub fn copy_part(p: &PackagePart) -> (r: PackagePart)
    ensures
        part_view(r) == part_view(*p),
{
    PackagePart { name: p.name.clone(), content_type: p.content_type.clone(), bytes: copy_bytes(p.bytes.as_slice()) }
}

fn replace_part_bytes(parts: &Vec<PackagePart>, name: &String, bytes: &Vec<u8>) -> (r: Vec<PackagePart>)
    ensures
        parts_view(r@) == replace_named(parts_view(parts@), name@, bytes@),
{
    let mut out: Vec<PackagePart> = Vec::new();
    let mut i: usize = 0;
    while i < parts.len()
        invariant
            i <= parts@.len(),
            parts_view(out@) == replace_named(parts_view(parts@), name@, bytes@).take(i as int),
        decreases parts@.len() - i,
    {
        let p = &parts[i];
        let ghost old_out = out@;
        if p.name == *name {
            out.push(PackagePart { name: p.name.clone(), content_type: p.content_type.clone(), bytes: copy_bytes(bytes.as_slice()) });
        } else {
            out.push(copy_part(p));
        }
        proof {
            lemma_parts_view_push(out@);
            assert(out@.drop_last() == old_out);
            assert(parts_view(out@) =~= replace_named(parts_view(parts@), name@, bytes@).take(i as int + 1));
        }
        i += 1;
    }
    assert(replace_named(parts_view(parts@), name@, bytes@).take(parts@.len() as int) =~= replace_named(parts_view(parts@), name@, bytes@));
    out
}

/// The package after a set of changes.
pub fn apply_changes(s: &PackageSnapshot, c: &PartChanges) -> (r: PackageSnapshot)
    ensures
        parts_view(r.parts@) == changed_view(s.parts@, *c),
        r.main_name@ == s.main_name@,
{
    let mut parts: Vec<PackagePart> = Vec::new();
    let mut i: usize = 0;
    while i < s.parts.len()
        invariant
            i <= s.parts@.len(),
            parts_view(parts@) == parts_view(s.parts@).take(i as int),
        decreases s.parts@.len() - i,
    {
        let ghost old_parts = parts@;
        parts.push(copy_part(&s.parts[i]));
        proof {
            lemma_parts_view_push(parts@);
            assert(parts@.drop_last() == old_parts);
            assert(parts_view(parts@) =~= parts_view(s.parts@).take(i as int + 1));
        }
        i += 1;
    }
    assert(parts_view(s.parts@).take(s.parts@.len() as int) =~= parts_view(s.parts@));
    let mut k: usize = 0;
    while k < c.replaced.len()
        invariant
            k <= c.replaced@.len(),
            parts_view(parts@) == replaced_all(parts_view(s.parts@), c.replaced@.take(k as int)),
        decreases c.replaced@.len() - k,
    {
        assert(c.replaced@.take(k as int + 1).drop_last() =~= c.replaced@.take(k as int));
        parts = replace_part_bytes(&parts, &c.replaced[k].0, &c.replaced[k].1);
        k += 1;
    }
    assert(c.replaced@.take(c.replaced@.len() as int) =~= c.replaced@);
    let ghost before = parts_view(parts@);
    let mut j: usize = 0;
    while j < c.added.len()
        invariant
            j <= c.added@.len(),
            parts_view(parts@) == before + parts_view(c.added@).take(j as int),
        decreases c.added@.len() - j,
    {
        let ghost old_parts = parts@;
        parts.push(copy_part(&c.added[j]));
        proof {
            lemma_parts_view_push(parts@);
            assert(parts@.drop_last() == old_parts);
            assert(parts_view(parts@) =~= before + parts_view(c.added@).take(j as int + 1));
        }
        j += 1;
    }
    assert(parts_view(c.added@).take(c.added@.len() as int) =~= parts_view(c.added@));
    PackageSnapshot { parts, main_name: s.main_name.clone() }
}

/// The relationship type of a package's main document.
pub const OFFICE_DOCUMENT_RELATIONSHIP: &'static str = "http://schemas.openxmlformats.org/officeDocument/2006/relationships/officeDocument";

/// The same relationship type in Strict Open XML.
pub const OFFICE_DOCUMENT_RELATIONSHIP_STRICT: &'static str = "http://purl.oclc.org/ooxml/officeDocument/relationships/officeDocument";

pub open spec fn is_office_document(r: Relationship) -> bool {
    let t = vstd::utf8::encode_utf8(r.relationship_type@);
    (t == OFFICE_DOCUMENT_RELATIONSHIP.spec_bytes() || t == OFFICE_DOCUMENT_RELATIONSHIP_STRICT.spec_bytes())
        && r.target is Internal
}

/// The first internal main-document relationship in `rels[from..]`.
pub open spec fn first_office_document(rels: Seq<Relationship>, from: int) -> Option<int>
    decreases rels.len() - from,
{
    if from < 0 || from >= rels.len() {
        None
    } else if is_office_document(rels[from]) {
        Some(from)
    } else {
        first_office_document(rels, from + 1)
    }
}

/// The name of the main document part, from the package's root relationships.
pub fn main_document_name(rels: &Vec<Relationship>) -> (r: Option<String>)
    ensures
        match r {
            Some(n) => first_office_document(rels@, 0) matches Some(k)
                && rels@[k].target matches RelationshipTarget::Internal { part_name } && n@ == part_name@,
            None => first_office_document(rels@, 0) is None,
        },
{
    let mut k: usize = 0;
    while k < rels.len()
        invariant
            k <= rels@.len(),
            first_office_document(rels@, 0) == first_office_document(rels@, k as int),
        decreases rels@.len() - k,
    {
        let t = rels[k].relationship_type.as_str().as_bytes();
        if bytes_are(t, OFFICE_DOCUMENT_RELATIONSHIP) || bytes_are(t, OFFICE_DOCUMENT_RELATIONSHIP_STRICT) {
            match &rels[k].target {
                RelationshipTarget::Internal { part_name } => return Some(part_name.clone()),
                RelationshipTarget::External { .. } => {},
            }
        }
        k += 1;
    }
    None
}

/// The extension of a part name: what follows its last `.`, empty without one.
pub open spec fn extension(name: Seq<u8>, upto: int) -> Seq<u8>
    decreases upto,
{
    if upto <= 0 {
        seq![]
    } else if name[upto - 1] == 0x2eu8 {
        name.subrange(upto, name.len() as int)
    } else {
        extension(name, upto - 1)
    }
}

fn extension_of(name: &[u8]) -> (r: Vec<u8>)
    ensures
        r@ == extension(name@, name@.len() as int),
{
    let mut i = name.len();
    while i > 0
        invariant
            i <= name@.len(),
            extension(name@, name@.len() as int) == extension(name@, i as int),
        decreases i,
    {
        if name[i - 1] == 0x2eu8 {
            return copy_range(name, i, name.len());
        }
        i -= 1;
    }
    Vec::new()
}

/// The first of `kids[from..]` that is an element with the given local name whose
/// attribute `key` is `value`.
pub open spec fn first_keyed(d: &SourceDocument, kids: Seq<NodeId>, local: Seq<u8>, key: Seq<u8>, value: Seq<u8>, from: int) -> Option<NodeId>
    decreases kids.len() - from,
{
    if from < 0 || from >= kids.len() {
        None
    } else if d.element_local(kids[from].0 as int) == Some(local) && d.spec_attribute(kids[from].0 as int, key) == Some(value) {
        Some(kids[from])
    } else {
        first_keyed(d, kids, local, key, value, from + 1)
    }
}

pub(crate) fn find_keyed(source: &SourceDocument, kids: &Vec<NodeId>, local: &str, key: &str, value: &[u8]) -> (r: Option<NodeId>)
    requires
        source.wf(),
        forall|j: int| 0 <= j < kids@.len() ==> source.valid_id(#[trigger] kids@[j]),
    ensures
        r == first_keyed(source, kids@, local.spec_bytes(), key.spec_bytes(), value@, 0),
        r matches Some(n) ==> source.valid_id(n),
{
    let mut k: usize = 0;
    while k < kids.len()
        invariant
            source.wf(),
            forall|j: int| 0 <= j < kids@.len() ==> source.valid_id(#[trigger] kids@[j]),
            k <= kids@.len(),
            first_keyed(source, kids@, local.spec_bytes(), key.spec_bytes(), value@, 0) == first_keyed(
                source,
                kids@,
                local.spec_bytes(),
                key.spec_bytes(),
                value@,
                k as int,
            ),
        decreases kids@.len() - k,
    {
        let c = kids[k];
        if source.has_local_name(c, local) {
            match source.attribute(c, key) {
                Some(v) => {
                    if bytes_equal(v.as_slice(), value) {
                        return Some(c);
                    }
                },
                None => {},
            }
        }
        k += 1;
    }
    None
}

/// The content type a content-types part gives a part: its `Override`, else the
/// `Default` for its extension.
pub open spec fn spec_content_type(d: &SourceDocument, name: Seq<u8>) -> Option<Seq<u8>> {
    let kids = d.spec_children(0);
    match first_keyed(d, kids, "Override".spec_bytes(), "PartName".spec_bytes(), name, 0) {
        Some(o) => d.spec_attribute(o.0 as int, "ContentType".spec_bytes()),
        None => match first_keyed(d, kids, "Default".spec_bytes(), "Extension".spec_bytes(), extension(name, name.len() as int), 0) {
            Some(x) => d.spec_attribute(x.0 as int, "ContentType".spec_bytes()),
            None => None,
        },
    }
}

pub fn content_type_for(types: &SourceDocument, name: &[u8]) -> (r: Option<Vec<u8>>)
    requires
        types.wf(),
    ensures
        match r {
            Some(v) => spec_content_type(types, name@) == Some(v@),
            None => spec_content_type(types, name@) is None,
        },
{
    let kids = types.children(types.root());
    let _end = types.subtree_end(types.root());
    proof {
        crate::source::lemma_children(types, 0);
    }
    match find_keyed(types, &kids, "Override", "PartName", name) {
        Some(o) => types.attribute(o, "ContentType"),
        None => {
            let ext = extension_of(name);
            match find_keyed(types, &kids, "Default", "Extension", ext.as_slice()) {
                Some(x) => types.attribute(x, "ContentType"),
                None => None,
            }
        },
    }
}

} // verus!
