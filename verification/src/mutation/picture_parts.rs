use vstd::prelude::*;
use vstd::string::StringSliceAdditionalSpecFns;

use crate::bytes::{bytes_are, copy_bytes, copy_range, push_bytes, push_str, utf8_string};
use crate::header_footer::Relationship;
use crate::mutation::common::document_invalid;
use crate::mutation::header_footer_part::{list_reads, main_name_bytes, relationships_read};
use crate::numbers::{decimal_digits, format_u64, parse_u32, unsigned_value};
use crate::package::{
    directory, directory_of, find_part, parse_relationships, part_index, relationship_part_name,
    spec_relationship_part_name, PackagePart, PackageSnapshot,
};
use crate::protocol::{FailureCode, OperationFailure};
use crate::source::{NodeId, SourceDocument};

verus! {

// ---------------------------------------------------------------------------
// Media part names
// ---------------------------------------------------------------------------

/// The last `.` in `s[..upto]`.
pub open spec fn last_dot(s: Seq<u8>, upto: int) -> Option<int>
    decreases upto,
{
    if upto <= 0 {
        None
    } else if s[upto - 1] == 0x2eu8 {
        Some(upto - 1)
    } else {
        last_dot(s, upto - 1)
    }
}

/// The name every media image part starts with.
pub open spec fn media_stem() -> Seq<u8> {
    "/word/media/image".spec_bytes()
}

/// The number `n` of a part named `/word/media/image` + `n` + `.` + an extension, where
/// `n` (everything up to the last `.`) reads as a `u32`.
pub open spec fn media_number(name: Seq<u8>) -> Option<int> {
    let stem = media_stem();
    if name.len() >= stem.len() && name.take(stem.len() as int) == stem {
        let rest = name.skip(stem.len() as int);
        match last_dot(rest, rest.len() as int) {
            Some(i) => match unsigned_value(rest.take(i)) {
                Some(v) => if v <= u32::MAX {
                    Some(v)
                } else {
                    None
                },
                None => None,
            },
            None => None,
        }
    } else {
        None
    }
}

/// The highest media number among `parts[..k]`, 0 without any.
pub open spec fn highest_media(parts: Seq<PackagePart>, k: int) -> int
    decreases k,
{
    if k <= 0 {
        0
    } else {
        let m = highest_media(parts, k - 1);
        match media_number(vstd::utf8::encode_utf8(parts[k - 1].name@)) {
            Some(v) => if v > m {
                v
            } else {
                m
            },
            None => m,
        }
    }
}

/// The name of media image `n` with the given extension.
pub open spec fn media_name(n: int, extension: Seq<u8>) -> Seq<u8> {
    media_stem() + decimal_digits(n as nat) + seq![0x2eu8] + extension
}

fn media_number_of(name: &[u8]) -> (r: Option<u32>)
    ensures
        match r {
            Some(v) => media_number(name@) == Some(v as int),
            None => media_number(name@) is None,
        },
{
    let stem = "/word/media/image";
    let s = stem.as_bytes();
    proof {
        reveal_strlit("/word/media/image");
    }
    assert(s@ == media_stem());
    if name.len() < s.len() {
        return None;
    }
    let head = copy_range(name, 0, s.len());
    assert(head@ =~= name@.take(s@.len() as int));
    if !bytes_are(head.as_slice(), stem) {
        return None;
    }
    let rest = copy_range(name, s.len(), name.len());
    assert(rest@ =~= name@.skip(s@.len() as int));
    let mut i = rest.len();
    while i > 0
        invariant
            i <= rest@.len(),
            last_dot(rest@, rest@.len() as int) == last_dot(rest@, i as int),
            s@ == media_stem(),
            name@.len() >= s@.len(),
            name@.take(s@.len() as int) == media_stem(),
            rest@ == name@.skip(s@.len() as int),
        decreases i,
    {
        if rest[i - 1] == 0x2eu8 {
            let number = copy_range(rest.as_slice(), 0, i - 1);
            assert(number@ =~= rest@.take(i - 1));
            return parse_u32(number.as_slice());
        }
        i -= 1;
    }
    None
}

/// Names a new media image part: one more than the highest number of the existing
/// `/word/media/imageN.*` parts.
proof fn lemma_media_name_utf8(n: int, extension: &str)
    requires
        n >= 0,
    ensures
        vstd::utf8::valid_utf8(media_name(n, extension.spec_bytes())),
{
    vstd::utf8::encode_utf8_valid_utf8("/word/media/image"@);
    vstd::utf8::encode_utf8_valid_utf8(extension@);
    crate::numbers::lemma_decimal_digits_utf8(n as nat);
    crate::numbers::lemma_ascii_byte_utf8(0x2eu8);
    vstd::utf8::valid_utf8_concat(media_stem(), decimal_digits(n as nat));
    vstd::utf8::valid_utf8_concat(media_stem() + decimal_digits(n as nat), seq![0x2eu8]);
    vstd::utf8::valid_utf8_concat(media_stem() + decimal_digits(n as nat) + seq![0x2eu8], extension.spec_bytes());
}

pub fn next_media_part_name(parts: &Vec<PackagePart>, extension: &str) -> (r: Result<String, OperationFailure>)
    ensures
        match r {
            Ok(n) => highest_media(parts@, parts@.len() as int) < u32::MAX && vstd::utf8::encode_utf8(n@) == media_name(
                highest_media(parts@, parts@.len() as int) + 1,
                extension.spec_bytes(),
            ),
            Err(e) => e.code == FailureCode::PackageConflict && highest_media(parts@, parts@.len() as int) >= u32::MAX,
        },
{
    let mut highest: u32 = 0;
    let mut k: usize = 0;
    while k < parts.len()
        invariant
            k <= parts@.len(),
            highest as int == highest_media(parts@, k as int),
        decreases parts@.len() - k,
    {
        match media_number_of(parts[k].name.as_str().as_bytes()) {
            Some(v) => {
                if v > highest {
                    highest = v;
                }
            },
            None => {},
        }
        k += 1;
    }
    if highest == u32::MAX {
        return Err(OperationFailure::failed(FailureCode::PackageConflict, "cannot allocate media part name"));
    }
    let mut bytes: Vec<u8> = Vec::new();
    push_str(&mut bytes, "/word/media/image");
    push_bytes(&mut bytes, format_u64((highest + 1) as u64).as_slice());
    bytes.push(0x2eu8);
    push_str(&mut bytes, extension);
    let ghost b = bytes@;
    assert(b =~= media_name(highest + 1, extension.spec_bytes()));
    proof {
        lemma_media_name_utf8(highest + 1, extension);
    }
    match utf8_string(bytes) {
        Some(n) => {
            proof {
                vstd::utf8::decode_utf8_encode_utf8(b);
            }
            Ok(n)
        },
        None => Err(OperationFailure::failed(FailureCode::PackageConflict, "cannot allocate media part name")),
    }
}

// ---------------------------------------------------------------------------
// The main part's relationships
// ---------------------------------------------------------------------------

/// The number `n` of a relationship id `rId` + `n`, where `n` reads as a `u32`.
pub open spec fn rel_number(id: Seq<char>) -> Option<int> {
    let b = vstd::utf8::encode_utf8(id);
    let p = "rId".spec_bytes();
    if b.len() >= p.len() && b.take(p.len() as int) == p {
        match unsigned_value(b.skip(p.len() as int)) {
            Some(v) => if v <= u32::MAX {
                Some(v)
            } else {
                None
            },
            None => None,
        }
    } else {
        None
    }
}

/// The highest relationship number among `rels[..k]`, 0 without any.
pub open spec fn highest_rel(rels: Seq<Relationship>, k: int) -> int
    decreases k,
{
    if k <= 0 {
        0
    } else {
        let m = highest_rel(rels, k - 1);
        match rel_number(rels[k - 1].id@) {
            Some(v) => if v > m {
                v
            } else {
                m
            },
            None => m,
        }
    }
}

/// An empty relationships part, for a main part that has none yet.
pub const EMPTY_RELATIONSHIPS: &'static str = "<?xml version=\"1.0\" encoding=\"UTF-8\" standalone=\"yes\"?><Relationships xmlns=\"http://schemas.openxmlformats.org/package/2006/relationships\"></Relationships>";

/// The main part's relationships part, as a new relationship finds it: its name, whether
/// the package has it, its bytes (an empty part when it has not), and the id for a new
/// relationship.
pub struct RelationshipSlot {
    pub name: String,
    pub exists: bool,
    pub bytes: Vec<u8>,
    pub next_id: String,
}

/// How a relationship slot was found: the relationships part named after the main part;
/// when the package has it, its bytes and one more than the highest `rIdN` it declares;
/// else an empty part and `rId1`.
pub open spec fn slot_found(s: PackageSnapshot, m: RelationshipSlot) -> bool {
    &&& spec_relationship_part_name(main_name_bytes(s)) == Some(vstd::utf8::encode_utf8(m.name@))
    &&& match part_index(s.parts@, m.name@, 0) {
        Some(i) => {
            &&& m.exists
            &&& m.bytes@ == s.parts@[i].bytes@
            &&& exists|list: Seq<Relationship>|
                #![trigger highest_rel(list, list.len() as int)]
                relationships_read(list, m.bytes@, directory(main_name_bytes(s)))
                    && highest_rel(list, list.len() as int) < u32::MAX
                    && vstd::utf8::encode_utf8(m.next_id@) == "rId".spec_bytes() + decimal_digits(
                    (highest_rel(list, list.len() as int) + 1) as nat,
                )
        },
        None => {
            &&& !m.exists
            &&& m.bytes@ == EMPTY_RELATIONSHIPS.spec_bytes()
            &&& vstd::utf8::encode_utf8(m.next_id@) == "rId".spec_bytes() + decimal_digits(1)
        },
    }
}

fn rel_number_of(id: &String) -> (r: Option<u32>)
    ensures
        match r {
            Some(v) => rel_number(id@) == Some(v as int),
            None => rel_number(id@) is None,
        },
{
    let b = id.as_str().as_bytes();
    assert(b@ == vstd::utf8::encode_utf8(id@));
    let p = "rId".as_bytes();
    if b.len() < p.len() {
        return None;
    }
    let head = copy_range(b, 0, p.len());
    assert(head@ =~= b@.take(p@.len() as int));
    if !bytes_are(head.as_slice(), "rId") {
        return None;
    }
    let tail = copy_range(b, p.len(), b.len());
    assert(tail@ =~= b@.skip(p@.len() as int));
    parse_u32(tail.as_slice())
}

fn rid_string(n: u32) -> (r: Result<String, OperationFailure>)
    ensures
        match r {
            Ok(s) => vstd::utf8::encode_utf8(s@) == "rId".spec_bytes() + decimal_digits(n as nat),
            Err(e) => e.code == FailureCode::PackageConflict,
        },
        r is Ok,
{
    let mut bytes: Vec<u8> = Vec::new();
    push_str(&mut bytes, "rId");
    push_bytes(&mut bytes, format_u64(n as u64).as_slice());
    let ghost b = bytes@;
    assert(b =~= "rId".spec_bytes() + decimal_digits(n as nat));
    proof {
        vstd::utf8::encode_utf8_valid_utf8("rId"@);
        crate::numbers::lemma_decimal_digits_utf8(n as nat);
        vstd::utf8::valid_utf8_concat("rId".spec_bytes(), decimal_digits(n as nat));
    }
    match utf8_string(bytes) {
        Some(s) => {
            proof {
                vstd::utf8::decode_utf8_encode_utf8(b);
            }
            Ok(s)
        },
        None => Err(OperationFailure::failed(FailureCode::PackageConflict, "cannot allocate image relationship")),
    }
}

/// The main part's relationships cannot take a new relationship: the main part's name
/// has no relationships part name (or one that is not UTF-8), or that part is in the
/// package but is not well-formed XML, or its relationships use up the last number.
pub open spec fn relationships_blocked(s: PackageSnapshot) -> bool {
    match spec_relationship_part_name(main_name_bytes(s)) {
        None => true,
        Some(b) => !vstd::utf8::valid_utf8(b) || match part_index(s.parts@, vstd::utf8::decode_utf8(b), 0) {
            None => false,
            Some(i) => !crate::source::accepts(s.parts@[i].bytes@) || exists|list: Seq<Relationship>|
                #![trigger highest_rel(list, list.len() as int)]
                relationships_read(list, s.parts@[i].bytes@, directory(main_name_bytes(s)))
                    && highest_rel(list, list.len() as int) >= u32::MAX,
        },
    }
}

/// Finds where a new relationship of the main part goes (see `slot_found`). Fails when
/// the main part's name has no relationships part name, when that part is not
/// well-formed XML, or when no relationship number is left.
pub fn picture_relationships(s: &PackageSnapshot) -> (r: Result<RelationshipSlot, OperationFailure>)
    ensures
        match r {
            Ok(m) => slot_found(*s, m),
            Err(e) => (e.code == FailureCode::PackageConflict || e.code == FailureCode::DocumentInvalid)
                && relationships_blocked(*s),
        },
        spec_relationship_part_name(main_name_bytes(*s)) is None ==> r is Err,
{
    let name = relationship_part_name(&s.main_name)?;
    proof {
        vstd::utf8::encode_utf8_decode_utf8(name@);
    }
    let index = match find_part(&s.parts, &name) {
        Some(i) => i,
        None => {
            let id = rid_string(1)?;
            return Ok(RelationshipSlot { name, exists: false, bytes: crate::bytes::str_bytes(EMPTY_RELATIONSHIPS), next_id: id });
        },
    };
    let bytes = copy_bytes(s.parts[index].bytes.as_slice());
    let doc = match SourceDocument::parse(copy_bytes(bytes.as_slice())) {
        Ok(d) => d,
        Err(_) => return Err(document_invalid()),
    };
    let dir = directory_of(s.main_name.as_str().as_bytes());
    let list = parse_relationships(&doc, &dir);
    let mut highest: u32 = 0;
    let mut k: usize = 0;
    while k < list.len()
        invariant
            k <= list@.len(),
            highest as int == highest_rel(list@, k as int),
        decreases list@.len() - k,
    {
        match rel_number_of(&list[k].id) {
            Some(v) => {
                if v > highest {
                    highest = v;
                }
            },
            None => {},
        }
        k += 1;
    }
    if highest == u32::MAX {
        proof {
            assert(list_reads(list@, &doc, dir@));
            assert(doc.bytes == doc.bytes);
            assert(relationships_read(list@, bytes@, directory(main_name_bytes(*s))));
            assert(highest_rel(list@, list@.len() as int) >= u32::MAX);
        }
        return Err(OperationFailure::failed(FailureCode::PackageConflict, "cannot allocate image relationship"));
    }
    let id = rid_string(highest + 1)?;
    proof {
        assert(list_reads(list@, &doc, dir@));
        assert(doc.bytes == doc.bytes);
        assert(relationships_read(list@, bytes@, directory(main_name_bytes(*s))));
    }
    Ok(RelationshipSlot { name, exists: true, bytes, next_id: id })
}

// ---------------------------------------------------------------------------
// Picture identifiers
// ---------------------------------------------------------------------------

/// The namespace of DrawingML's WordprocessingML drawing elements.
pub const WORDPROCESSING_DRAWING: &'static str = "http://schemas.openxmlformats.org/drawingml/2006/wordprocessingDrawing";

/// The identifier of a drawing's non-visual properties (`wp:docPr`): its `id`, when it
/// reads as a `u32`.
pub open spec fn drawing_id(d: &SourceDocument, i: int) -> Option<int> {
    if d.is_named(i, WORDPROCESSING_DRAWING.spec_bytes(), "docPr".spec_bytes()) {
        match d.spec_attribute(i, "id".spec_bytes()) {
            Some(v) => match unsigned_value(v) {
                Some(n) => if n <= u32::MAX {
                    Some(n)
                } else {
                    None
                },
                None => None,
            },
            None => None,
        }
    } else {
        None
    }
}

/// The highest drawing identifier among the first `k` nodes, 0 without any.
pub open spec fn highest_drawing_id(d: &SourceDocument, k: int) -> int
    decreases k,
{
    if k <= 0 {
        0
    } else {
        let m = highest_drawing_id(d, k - 1);
        match drawing_id(d, k - 1) {
            Some(v) => if v > m {
                v
            } else {
                m
            },
            None => m,
        }
    }
}

/// One more than the highest drawing identifier of the part.
pub fn next_picture_id(source: &SourceDocument) -> (r: Result<u32, OperationFailure>)
    requires
        source.wf(),
    ensures
        match r {
            Ok(v) => v == highest_drawing_id(source, source.nodes@.len() as int) + 1,
            Err(e) => highest_drawing_id(source, source.nodes@.len() as int) == u32::MAX
                && e.code == FailureCode::PackageConflict,
        },
{
    let n = source.node_count();
    let mut highest: u32 = 0;
    let mut i: usize = 0;
    while i < n
        invariant
            source.wf(),
            n == source.nodes@.len(),
            i <= n,
            highest as int == highest_drawing_id(source, i as int),
        decreases n - i,
    {
        let id = NodeId(i);
        if source.is_element_named(id, WORDPROCESSING_DRAWING, "docPr") {
            match source.attribute(id, "id") {
                Some(v) => match parse_u32(v.as_slice()) {
                    Some(x) => {
                        if x > highest {
                            highest = x;
                        }
                    },
                    None => {},
                },
                None => {},
            }
        }
        i += 1;
    }
    if highest == u32::MAX {
        return Err(OperationFailure::failed(FailureCode::PackageConflict, "cannot allocate picture identifier"));
    }
    Ok(highest + 1)
}

// ---------------------------------------------------------------------------
// New names and identifiers are fresh
// ---------------------------------------------------------------------------

proof fn lemma_highest_media_bounds(parts: Seq<PackagePart>, k: int)
    requires
        0 <= k <= parts.len(),
    ensures
        forall|j: int| 0 <= j < k ==> (media_number(#[trigger] vstd::utf8::encode_utf8(parts[j].name@)) matches Some(v) ==> v <= highest_media(parts, k)),
        0 <= highest_media(parts, k),
    decreases k,
{
    if k > 0 {
        lemma_highest_media_bounds(parts, k - 1);
    }
}

proof fn lemma_last_dot_after(s: Seq<u8>, i: int, upto: int)
    requires
        0 <= i < upto <= s.len(),
        s[i] == 0x2eu8,
        forall|j: int| i < j < s.len() ==> s[j] != 0x2eu8,
    ensures
        last_dot(s, upto) == Some(i),
    decreases upto,
{
    if upto - 1 > i {
        lemma_last_dot_after(s, i, upto - 1);
    }
}

/// The media number of a media name is its number, for an extension without a `.`.
proof fn lemma_media_number_of_name(n: int, ext: Seq<u8>)
    requires
        0 <= n <= u32::MAX,
        forall|j: int| 0 <= j < ext.len() ==> ext[j] != 0x2eu8,
    ensures
        media_number(media_name(n, ext)) == Some(n),
{
    let name = media_name(n, ext);
    let stem = media_stem();
    let digits = crate::numbers::decimal_digits(n as nat);
    assert(name.take(stem.len() as int) =~= stem);
    let rest = name.skip(stem.len() as int);
    assert(rest =~= digits + seq![0x2eu8] + ext);
    lemma_last_dot_after(rest, digits.len() as int, rest.len() as int);
    assert(rest.take(digits.len() as int) =~= digits);
    crate::numbers::lemma_unsigned_round_trip(n as nat);
}

/// A new media part is named after no part of the package: its number is one more than
/// the highest media number among the parts (for an extension without a `.`).
pub proof fn lemma_media_name_fresh(parts: Seq<PackagePart>, ext: Seq<u8>)
    requires
        highest_media(parts, parts.len() as int) < u32::MAX,
        forall|j: int| 0 <= j < ext.len() ==> ext[j] != 0x2eu8,
    ensures
        forall|k: int|
            0 <= k < parts.len() ==> vstd::utf8::encode_utf8(#[trigger] parts[k].name@) != media_name(
                highest_media(parts, parts.len() as int) + 1,
                ext,
            ),
{
    let h = highest_media(parts, parts.len() as int);
    lemma_highest_media_bounds(parts, parts.len() as int);
    lemma_media_number_of_name(h + 1, ext);
    assert forall|k: int| 0 <= k < parts.len() implies vstd::utf8::encode_utf8(#[trigger] parts[k].name@) != media_name(h + 1, ext) by {
        if vstd::utf8::encode_utf8(parts[k].name@) == media_name(h + 1, ext) {
            assert(media_number(vstd::utf8::encode_utf8(parts[k].name@)) == Some(h + 1));
        }
    }
}

proof fn lemma_highest_rel_bounds(rels: Seq<Relationship>, k: int)
    requires
        0 <= k <= rels.len(),
    ensures
        forall|j: int| 0 <= j < k ==> (rel_number(#[trigger] rels[j].id@) matches Some(v) ==> v <= highest_rel(rels, k)),
        0 <= highest_rel(rels, k),
    decreases k,
{
    if k > 0 {
        lemma_highest_rel_bounds(rels, k - 1);
    }
}

/// A new relationship id is the id of no relationship of the part: its number is one
/// more than the highest `rIdN` among them.
pub proof fn lemma_relationship_id_fresh(rels: Seq<Relationship>)
    requires
        highest_rel(rels, rels.len() as int) < u32::MAX,
    ensures
        forall|k: int|
            0 <= k < rels.len() ==> vstd::utf8::encode_utf8(#[trigger] rels[k].id@) != "rId".spec_bytes() + decimal_digits(
                (highest_rel(rels, rels.len() as int) + 1) as nat,
            ),
{
    let h = highest_rel(rels, rels.len() as int);
    let id = "rId".spec_bytes() + decimal_digits((h + 1) as nat);
    lemma_highest_rel_bounds(rels, rels.len() as int);
    crate::numbers::lemma_unsigned_round_trip((h + 1) as nat);
    assert(id.take("rId".spec_bytes().len() as int) =~= "rId".spec_bytes());
    assert(id.skip("rId".spec_bytes().len() as int) =~= decimal_digits((h + 1) as nat));
    assert forall|k: int| 0 <= k < rels.len() implies vstd::utf8::encode_utf8(#[trigger] rels[k].id@) != id by {
        if vstd::utf8::encode_utf8(rels[k].id@) == id {
            assert(rel_number(rels[k].id@) == Some(h + 1));
        }
    }
}

proof fn lemma_highest_drawing_bounds(d: &SourceDocument, k: int)
    requires
        0 <= k,
    ensures
        forall|j: int| 0 <= j < k ==> (#[trigger] drawing_id(d, j) matches Some(v) ==> v <= highest_drawing_id(d, k)),
        0 <= highest_drawing_id(d, k),
    decreases k,
{
    if k > 0 {
        lemma_highest_drawing_bounds(d, k - 1);
    }
}

/// A new picture's identifier is larger than every drawing identifier of the part, so
/// no drawing has it.
pub proof fn lemma_picture_id_fresh(d: &SourceDocument)
    ensures
        forall|i: int|
            0 <= i < d.nodes@.len() ==> (#[trigger] drawing_id(d, i) matches Some(v) ==> v < highest_drawing_id(d, d.nodes@.len() as int) + 1),
{
    lemma_highest_drawing_bounds(d, d.nodes@.len() as int);
}

} // verus!
