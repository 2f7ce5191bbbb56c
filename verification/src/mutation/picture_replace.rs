use vstd::prelude::*;
use vstd::string::StringSliceAdditionalSpecFns;

use crate::bytes::{bytes_are, bytes_equal, copy_bytes};
use crate::document::{spec_body, DocxDocument};
use crate::header_footer::{Relationship, RelationshipTarget};
use crate::mutation::common::document_invalid;
use crate::mutation::header_footer_part::{
    first_id, main_name_bytes, main_relationships, relationships_loaded, relationships_unparsable,
};
use crate::package::{find_part, part_index, spec_relationship_part_name, PackagePart, PackageSnapshot, PartChanges};
use crate::protocol::{FailureCode, OperationFailure, PictureTarget, ReplacePicture};
use crate::source::{NodeId, SourceDocument};
use crate::wordml::{is_word, word};

verus! {

/// The WordprocessingML drawing namespace (`wp:`), of a picture's drawing properties.
pub const DRAWING_NAMESPACE: &'static str = "http://schemas.openxmlformats.org/drawingml/2006/wordprocessingDrawing";

/// The DrawingML namespace (`a:`), of a picture's image reference.
pub const DRAWINGML_NAMESPACE: &'static str = "http://schemas.openxmlformats.org/drawingml/2006/main";

/// The PNG content type.
pub const PNG_TYPE: &'static str = "image/png";

/// The JPEG content type.
pub const JPEG_TYPE: &'static str = "image/jpeg";

// ---------------------------------------------------------------------------
// Pictures
// ---------------------------------------------------------------------------

/// The first element among nodes `lo..hi` with the given namespace and local name.
pub open spec fn first_named(d: &SourceDocument, lo: int, hi: int, ns: Seq<u8>, local: Seq<u8>) -> Option<int>
    decreases hi - lo,
{
    if lo >= hi {
        None
    } else if d.is_named(lo, ns, local) {
        Some(lo)
    } else {
        first_named(d, lo + 1, hi, ns, local)
    }
}

/// The drawing properties (`wp:docPr`) of the picture at node `i`: the first inside it.
pub open spec fn picture_properties(d: &SourceDocument, i: int) -> Option<int> {
    first_named(d, i + 1, d.subtree_ends@[i] as int, DRAWING_NAMESPACE.spec_bytes(), "docPr".spec_bytes())
}

/// The image reference (`a:blip`) of the picture at node `i`: the first inside it.
pub open spec fn picture_blip(d: &SourceDocument, i: int) -> Option<int> {
    first_named(d, i + 1, d.subtree_ends@[i] as int, DRAWINGML_NAMESPACE.spec_bytes(), "blip".spec_bytes())
}

/// Node `i` is a picture (`w:drawing`) with drawing properties whose name and
/// description are those the target asks for. A handle names no picture here: picture
/// handles are given out by an inspection that this library does not hold.
pub open spec fn picture_matches(d: &SourceDocument, i: int, t: PictureTarget) -> bool {
    &&& t.handle is None
    &&& is_word(d, i, "drawing".spec_bytes())
    &&& picture_properties(d, i) matches Some(p)
    &&& (t.name matches Some(n) ==> d.spec_attribute(p, "name".spec_bytes()) == Some(vstd::utf8::encode_utf8(n@)))
    &&& (t.description matches Some(x) ==> d.spec_attribute(p, "descr".spec_bytes()) == Some(vstd::utf8::encode_utf8(x@)))
}

/// The pictures among nodes `0..k` that the target names, in document order.
pub open spec fn picture_candidates(d: &SourceDocument, t: PictureTarget, k: int) -> Seq<int>
    decreases k,
{
    if k <= 0 {
        seq![]
    } else {
        let c = picture_candidates(d, t, k - 1);
        if picture_matches(d, k - 1, t) {
            c.push(k - 1)
        } else {
            c
        }
    }
}

/// The picture a target names: with no handle, name or description,
/// `TargetNotFound`; `DocumentInvalid` when the document has no body; then the
/// `occurrence`-th candidate, or the only one (`TargetNotFound` when there is none,
/// `TargetAmbiguous` when there are several).
pub open spec fn spec_pick_picture(d: &SourceDocument, t: PictureTarget) -> Result<int, FailureCode> {
    if t.handle is None && t.name is None && t.description is None {
        Err(FailureCode::TargetNotFound)
    } else if spec_body(d) is Err {
        Err(FailureCode::DocumentInvalid)
    } else {
        let c = picture_candidates(d, t, d.nodes@.len() as int);
        match t.occurrence {
            Some(o) => if o < c.len() {
                Ok(c[o as int])
            } else {
                Err(FailureCode::TargetNotFound)
            },
            None => if c.len() == 0 {
                Err(FailureCode::TargetNotFound)
            } else if c.len() != 1 {
                Err(FailureCode::TargetAmbiguous)
            } else {
                Ok(c[0])
            },
        }
    }
}

// ---------------------------------------------------------------------------
// Images
// ---------------------------------------------------------------------------

/// The package part holding the image of the picture at node `i`: its image reference's
/// `embed` id names a relationship of the main part with an internal target, which is a
/// part of the package.
pub open spec fn picture_image(parts: Seq<PackagePart>, rels: Seq<Relationship>, d: &SourceDocument, i: int) -> Option<int> {
    match picture_blip(d, i) {
        None => None,
        Some(b) => match d.spec_attribute(b, "embed".spec_bytes()) {
            None => None,
            Some(id) => match first_id(rels, id, 0) {
                None => None,
                Some(k) => match rels[k].target {
                    RelationshipTarget::External { .. } => None,
                    RelationshipTarget::Internal { part_name } => part_index(parts, part_name@, 0),
                },
            },
        },
    }
}

/// How many pictures among nodes `0..k` show the image held by part `part`.
pub open spec fn image_users(parts: Seq<PackagePart>, rels: Seq<Relationship>, d: &SourceDocument, part: int, k: int) -> nat
    decreases k,
{
    if k <= 0 {
        0
    } else {
        image_users(parts, rels, d, part, k - 1) + if is_word(d, k - 1, "drawing".spec_bytes()) && picture_image(parts, rels, d, k - 1)
            == Some(part) {
            1nat
        } else {
            0nat
        }
    }
}

/// The bytes are a PNG (by its signature) or a JPEG (by its start and end markers) of
/// the given content type.
pub open spec fn valid_image(bytes: Seq<u8>, content_type: Seq<u8>) -> bool {
    if content_type == PNG_TYPE.spec_bytes() {
        bytes.len() >= 8 && bytes.take(8) == seq![0x89u8, 0x50u8, 0x4eu8, 0x47u8, 0x0du8, 0x0au8, 0x1au8, 0x0au8]
    } else if content_type == JPEG_TYPE.spec_bytes() {
        &&& bytes.len() >= 3
        &&& bytes.take(3) == seq![0xffu8, 0xd8u8, 0xffu8]
        &&& bytes.skip(bytes.len() - 2) == seq![0xffu8, 0xd9u8]
    } else {
        false
    }
}

/// The part whose bytes a replacement of the picture at node `pic` changes: the image
/// must be an embedded PNG or JPEG part, the replacement of the same content type and a
/// valid image of it, and no other picture may show the same part
/// (`UnsupportedOperation` otherwise).
pub open spec fn spec_image_part(
    parts: Seq<PackagePart>,
    rels: Seq<Relationship>,
    d: &SourceDocument,
    op: ReplacePicture,
    pic: int,
) -> Result<int, FailureCode> {
    match picture_image(parts, rels, d, pic) {
        None => Err(FailureCode::UnsupportedOperation),
        Some(i) => {
            let ct = vstd::utf8::encode_utf8(parts[i].content_type@);
            if !(ct == PNG_TYPE.spec_bytes() || ct == JPEG_TYPE.spec_bytes()) || vstd::utf8::encode_utf8(
                op.replacement.content_type@,
            ) != ct || !valid_image(op.replacement.bytes@, ct) {
                Err(FailureCode::UnsupportedOperation)
            } else if image_users(parts, rels, d, i, d.nodes@.len() as int) != 1 {
                Err(FailureCode::UnsupportedOperation)
            } else {
                Ok(i)
            }
        },
    }
}

/// The main part's relationships cannot be read: its relationships part has no name,
/// is missing, or is not well-formed XML.
pub open spec fn relationships_unreadable(s: PackageSnapshot) -> bool {
    match spec_relationship_part_name(main_name_bytes(s)) {
        None => true,
        Some(b) => !vstd::utf8::valid_utf8(b) || part_index(s.parts@, vstd::utf8::decode_utf8(b), 0) is None
            || relationships_unparsable(s),
    }
}

fn find_named(source: &SourceDocument, lo: usize, hi: usize, ns: &str, local: &str) -> (r: Option<usize>)
    requires
        lo <= hi <= source.nodes@.len(),
    ensures
        match r {
            Some(j) => first_named(source, lo as int, hi as int, ns.spec_bytes(), local.spec_bytes()) == Some(j as int) && lo <= j < hi,
            None => first_named(source, lo as int, hi as int, ns.spec_bytes(), local.spec_bytes()) is None,
        },
{
    let mut k = lo;
    while k < hi
        invariant
            lo <= k <= hi <= source.nodes@.len(),
            first_named(source, lo as int, hi as int, ns.spec_bytes(), local.spec_bytes()) == first_named(
                source,
                k as int,
                hi as int,
                ns.spec_bytes(),
                local.spec_bytes(),
            ),
        decreases hi - k,
    {
        if source.is_element_named(NodeId(k), ns, local) {
            return Some(k);
        }
        k += 1;
    }
    None
}

fn picture_properties_of(source: &SourceDocument, i: usize) -> (r: Option<usize>)
    requires
        source.wf(),
        source.valid_id(NodeId(i)),
    ensures
        match r {
            Some(j) => picture_properties(source, i as int) == Some(j as int) && j < source.nodes@.len(),
            None => picture_properties(source, i as int) is None,
        },
{
    let end = source.subtree_end(NodeId(i));
    find_named(source, i + 1, end, DRAWING_NAMESPACE, "docPr")
}

fn attribute_is(source: &SourceDocument, id: usize, local: &str, wanted: &Option<String>) -> (r: bool)
    requires
        source.valid_id(NodeId(id)),
    ensures
        r == (wanted matches Some(w) ==> source.spec_attribute(id as int, local.spec_bytes()) == Some(vstd::utf8::encode_utf8(w@))),
{
    match wanted {
        None => true,
        Some(w) => match source.attribute(NodeId(id), local) {
            Some(v) => {
                let b = w.as_str().as_bytes();
                assert(b@ == vstd::utf8::encode_utf8(w@));
                bytes_equal(v.as_slice(), b)
            },
            None => false,
        },
    }
}

fn matches_target(source: &SourceDocument, i: usize, t: &PictureTarget) -> (r: bool)
    requires
        source.wf(),
        source.valid_id(NodeId(i)),
    ensures
        r == picture_matches(source, i as int, *t),
{
    if t.handle.is_some() || !word(source, NodeId(i), "drawing") {
        return false;
    }
    match picture_properties_of(source, i) {
        Some(p) => attribute_is(source, p, "name", &t.name) && attribute_is(source, p, "descr", &t.description),
        None => false,
    }
}

fn candidates_of(source: &SourceDocument, t: &PictureTarget) -> (r: Vec<usize>)
    requires
        source.wf(),
    ensures
        r@.map_values(|x: usize| x as int) == picture_candidates(source, *t, source.nodes@.len() as int),
        forall|k: int| 0 <= k < r@.len() ==> (#[trigger] r@[k]) < source.nodes@.len(),
{
    let n = source.node_count();
    let mut out: Vec<usize> = Vec::new();
    let mut i: usize = 0;
    assert(out@.map_values(|x: usize| x as int) =~= Seq::<int>::empty());
    while i < n
        invariant
            source.wf(),
            n == source.nodes@.len(),
            i <= n,
            out@.map_values(|x: usize| x as int) == picture_candidates(source, *t, i as int),
            forall|k: int| 0 <= k < out@.len() ==> (#[trigger] out@[k]) < n,
        decreases n - i,
    {
        if matches_target(source, i, t) {
            let ghost before = out@;
            out.push(i);
            assert(out@.map_values(|x: usize| x as int) =~= before.map_values(|x: usize| x as int).push(i as int));
        }
        i += 1;
    }
    out
}

/// Picks the picture a target names (see `spec_pick_picture`).
pub fn pick_picture(source: &SourceDocument, t: &PictureTarget) -> (r: Result<usize, OperationFailure>)
    requires
        source.wf(),
    ensures
        match r {
            Ok(i) => spec_pick_picture(source, *t) == Ok::<int, FailureCode>(i as int) && i < source.nodes@.len(),
            Err(e) => spec_pick_picture(source, *t) == Err::<int, FailureCode>(e.code),
        },
{
    if t.handle.is_none() && t.name.is_none() && t.description.is_none() {
        return Err(OperationFailure::failed(FailureCode::TargetNotFound, "picture target requires name or description"));
    }
    match DocxDocument::new(source) {
        Ok(_) => {},
        Err(_) => return Err(document_invalid()),
    }
    let c = candidates_of(source, t);
    let ghost cs = c@.map_values(|x: usize| x as int);
    match t.occurrence {
        Some(o) => {
            if o < c.len() {
                assert(cs[o as int] == c@[o as int] as int);
                Ok(c[o])
            } else {
                Err(OperationFailure::failed(FailureCode::TargetNotFound, "picture target occurrence was not found"))
            }
        },
        None => {
            if c.len() == 0 {
                Err(OperationFailure::failed(FailureCode::TargetNotFound, "picture target did not resolve deterministically"))
            } else if c.len() != 1 {
                Err(OperationFailure::failed(FailureCode::TargetAmbiguous, "picture target did not resolve deterministically"))
            } else {
                assert(cs[0] == c@[0] as int);
                Ok(c[0])
            }
        },
    }
}

fn relationship_index(rels: &Vec<Relationship>, id: &Vec<u8>) -> (r: Option<usize>)
    ensures
        match r {
            Some(k) => first_id(rels@, id@, 0) == Some(k as int) && k < rels@.len(),
            None => first_id(rels@, id@, 0) is None,
        },
{
    let mut k: usize = 0;
    while k < rels.len()
        invariant
            k <= rels@.len(),
            first_id(rels@, id@, 0) == first_id(rels@, id@, k as int),
        decreases rels@.len() - k,
    {
        let b = rels[k].id.as_str().as_bytes();
        assert(b@ == vstd::utf8::encode_utf8(rels@[k as int].id@));
        if bytes_equal(b, id.as_slice()) {
            return Some(k);
        }
        k += 1;
    }
    None
}

/// The part holding a picture's image (see `picture_image`).
fn image_of(parts: &Vec<PackagePart>, rels: &Vec<Relationship>, source: &SourceDocument, i: usize) -> (r: Option<usize>)
    requires
        source.wf(),
        source.valid_id(NodeId(i)),
    ensures
        match r {
            Some(j) => picture_image(parts@, rels@, source, i as int) == Some(j as int) && j < parts@.len(),
            None => picture_image(parts@, rels@, source, i as int) is None,
        },
{
    let end = source.subtree_end(NodeId(i));
    let blip = match find_named(source, i + 1, end, DRAWINGML_NAMESPACE, "blip") {
        Some(b) => b,
        None => return None,
    };
    let id = match source.attribute(NodeId(blip), "embed") {
        Some(v) => v,
        None => return None,
    };
    let k = match relationship_index(rels, &id) {
        Some(k) => k,
        None => return None,
    };
    match &rels[k].target {
        RelationshipTarget::External { .. } => None,
        RelationshipTarget::Internal { part_name } => find_part(parts, part_name),
    }
}

fn users_of(parts: &Vec<PackagePart>, rels: &Vec<Relationship>, source: &SourceDocument, part: usize) -> (r: usize)
    requires
        source.wf(),
    ensures
        r == image_users(parts@, rels@, source, part as int, source.nodes@.len() as int),
{
    let n = source.node_count();
    let mut count: usize = 0;
    let mut i: usize = 0;
    while i < n
        invariant
            source.wf(),
            n == source.nodes@.len(),
            i <= n,
            count as int == image_users(parts@, rels@, source, part as int, i as int),
            count <= i,
        decreases n - i,
    {
        if word(source, NodeId(i), "drawing") {
            match image_of(parts, rels, source, i) {
                Some(j) => {
                    if j == part {
                        count += 1;
                    }
                },
                None => {},
            }
        }
        i += 1;
    }
    count
}

fn valid_image_bytes(bytes: &[u8], content_type: &[u8]) -> (r: bool)
    ensures
        r == valid_image(bytes@, content_type@),
{
    let n = bytes.len();
    if bytes_are(content_type, PNG_TYPE) {
        if n < 8 {
            return false;
        }
        let ok = bytes[0] == 0x89u8 && bytes[1] == 0x50u8 && bytes[2] == 0x4eu8 && bytes[3] == 0x47u8 && bytes[4] == 0x0du8
            && bytes[5] == 0x0au8 && bytes[6] == 0x1au8 && bytes[7] == 0x0au8;
        proof {
            if ok {
                assert(bytes@.take(8) =~= seq![0x89u8, 0x50u8, 0x4eu8, 0x47u8, 0x0du8, 0x0au8, 0x1au8, 0x0au8]);
            } else if bytes@.take(8) == seq![0x89u8, 0x50u8, 0x4eu8, 0x47u8, 0x0du8, 0x0au8, 0x1au8, 0x0au8] {
                assert(bytes@.take(8)[0] == bytes@[0]);
                assert(bytes@.take(8)[1] == bytes@[1]);
                assert(bytes@.take(8)[2] == bytes@[2]);
                assert(bytes@.take(8)[3] == bytes@[3]);
                assert(bytes@.take(8)[4] == bytes@[4]);
                assert(bytes@.take(8)[5] == bytes@[5]);
                assert(bytes@.take(8)[6] == bytes@[6]);
                assert(bytes@.take(8)[7] == bytes@[7]);
            }
        }
        ok
    } else if bytes_are(content_type, JPEG_TYPE) {
        if n < 3 {
            return false;
        }
        let ok = bytes[0] == 0xffu8 && bytes[1] == 0xd8u8 && bytes[2] == 0xffu8 && bytes[n - 2] == 0xffu8 && bytes[n - 1] == 0xd9u8;
        proof {
            if ok {
                assert(bytes@.take(3) =~= seq![0xffu8, 0xd8u8, 0xffu8]);
                assert(bytes@.skip(n - 2) =~= seq![0xffu8, 0xd9u8]);
            } else if bytes@.take(3) == seq![0xffu8, 0xd8u8, 0xffu8] && bytes@.skip(n - 2) == seq![0xffu8, 0xd9u8] {
                assert(bytes@.take(3)[0] == bytes@[0]);
                assert(bytes@.take(3)[1] == bytes@[1]);
                assert(bytes@.take(3)[2] == bytes@[2]);
                assert(bytes@.skip(n - 2)[0] == bytes@[n - 2]);
                assert(bytes@.skip(n - 2)[1] == bytes@[n - 1]);
            }
        }
        ok
    } else {
        false
    }
}

/// Replaces the image of one picture of the main document with a payload of the same
/// format. The picture is named by the name and description of its drawing properties
/// (see `spec_pick_picture`); its image must be an embedded PNG or JPEG part that no
/// other picture shows, and the replacement a valid image of that content type (see
/// `spec_image_part`). The change replaces that part's bytes and nothing else.
pub fn replace_picture(s: &PackageSnapshot, source: &SourceDocument, operation: &ReplacePicture) -> (r: Result<
    PartChanges,
    OperationFailure,
>)
    requires
        source.wf(),
    ensures
        spec_pick_picture(source, operation.target) matches Err(c) ==> r matches Err(e) && e.code == c,
        spec_pick_picture(source, operation.target) matches Ok(pic) ==> match r {
            Ok(c) => exists|m: crate::mutation::header_footer_part::MainRelationships|
                #![trigger relationships_loaded(*s, m)]
                {
                    &&& relationships_loaded(*s, m)
                    &&& spec_image_part(s.parts@, m.list@, source, *operation, pic) matches Ok(i)
                    &&& c.replaced@.len() == 1
                    &&& c.replaced@[0].0@ == s.parts@[i].name@
                    &&& c.replaced@[0].1@ == operation.replacement.bytes@
                    &&& c.added@.len() == 0
                },
            Err(e) => e.code == FailureCode::UnsupportedOperation && (relationships_unreadable(*s) || exists|
                m: crate::mutation::header_footer_part::MainRelationships,
            |
                #![trigger relationships_loaded(*s, m)]
                relationships_loaded(*s, m) && spec_image_part(s.parts@, m.list@, source, *operation, pic) is Err),
        },
{
    let pic = pick_picture(source, &operation.target)?;
    let rels = match main_relationships(s) {
        Ok(m) => m,
        Err(_) => {
            return Err(OperationFailure::failed(FailureCode::UnsupportedOperation, "picture image relationship cannot be read"));
        },
    };
    let i = match image_of(&s.parts, &rels.list, source, pic) {
        Some(i) => i,
        None => {
            proof {
                assert(relationships_loaded(*s, rels));
            }
            return Err(OperationFailure::failed(FailureCode::UnsupportedOperation, "replace_picture supports only internal embedded images"));
        },
    };
    let ct = s.parts[i].content_type.as_str().as_bytes();
    let wanted = operation.replacement.content_type.as_str().as_bytes();
    assert(ct@ == vstd::utf8::encode_utf8(s.parts@[i as int].content_type@));
    assert(wanted@ == vstd::utf8::encode_utf8(operation.replacement.content_type@));
    if !(bytes_are(ct, PNG_TYPE) || bytes_are(ct, JPEG_TYPE)) || !bytes_equal(wanted, ct) || !valid_image_bytes(
        operation.replacement.bytes.as_slice(),
        ct,
    ) {
        proof {
            assert(relationships_loaded(*s, rels));
        }
        return Err(OperationFailure::failed(
            FailureCode::UnsupportedOperation,
            "replacement image must be a valid PNG or JPEG with the existing content type",
        ));
    }
    if users_of(&s.parts, &rels.list, source, i) != 1 {
        proof {
            assert(relationships_loaded(*s, rels));
        }
        return Err(OperationFailure::failed(FailureCode::UnsupportedOperation, "replace_picture does not replace shared image parts"));
    }
    let mut replaced: Vec<(String, Vec<u8>)> = Vec::new();
    replaced.push((s.parts[i].name.clone(), copy_bytes(operation.replacement.bytes.as_slice())));
    proof {
        assert(relationships_loaded(*s, rels));
    }
    Ok(PartChanges { replaced, added: Vec::new() })
}

} // verus!
