use vstd::prelude::*;
use vstd::string::StringSliceAdditionalSpecFns;

use crate::bytes::{bytes_equal, contains_bytes, contains_seq, copy_bytes, push_bytes, push_str};
use crate::document::spec_body;
use crate::escape::{escape, escaped};
use crate::image_dimensions::{read_image_info, spec_image_info, ImageDimensionError, ImageDimensions, ImageFormat, ImageInfo};
use crate::mutation::common::{
    apply_single_patch, body_blocks, body_insertion, close_tag, direct_body_blocks, document_invalid, open_tag,
    placement_index, push_close, push_open, qualified, qualify, resolve_paragraph_placement, spec_body_insertion,
    spec_placement_index, spec_resolved_placement, spec_word_prefix, word_prefix_for, Patch,
};
use crate::mutation::header_footer_markup::{file_name, CONTENT_TYPES_PART};
use crate::mutation::picture_parts::{
    highest_drawing_id, highest_media, media_name, next_media_part_name, next_picture_id, picture_relationships,
    relationships_blocked, slot_found, RelationshipSlot,
};
use crate::numbers::{decimal_digits, format_u64};
use crate::package::{find_part, first_keyed, last_angle, part_index, spec_append_xml_element, append_xml_element, PackagePart, PackageSnapshot, PartChanges};
use crate::protocol::{FailureCode, InsertPicture, OperationFailure};
use crate::source::{NodeId, SourceDocument, SourceSpan};

verus! {

// ---------------------------------------------------------------------------
// Sizes
// ---------------------------------------------------------------------------

/// EMU per pixel at 96 dots per inch.
pub const EMU_PER_PIXEL: i64 = 9525;

/// The widest an inline picture is made: six and a half inches, in EMU.
pub const MAX_INLINE_PICTURE_WIDTH_EMU: i64 = 5943600;

/// The size of a picture in EMU: its pixels at 96 dpi; a picture wider than the widest
/// inline picture is scaled down to that width, its height in proportion (rounded down).
pub open spec fn spec_picture_size(d: ImageDimensions) -> (int, int) {
    let w = d.width_px * EMU_PER_PIXEL;
    let h = d.height_px * EMU_PER_PIXEL;
    if w > MAX_INLINE_PICTURE_WIDTH_EMU {
        (MAX_INLINE_PICTURE_WIDTH_EMU as int, h * MAX_INLINE_PICTURE_WIDTH_EMU / w)
    } else {
        (w, h)
    }
}

/// The scaling of a too-wide picture stays within `i64`.
pub open spec fn size_fits(d: ImageDimensions) -> bool {
    d.width_px * EMU_PER_PIXEL > MAX_INLINE_PICTURE_WIDTH_EMU ==> d.height_px * EMU_PER_PIXEL
        * MAX_INLINE_PICTURE_WIDTH_EMU <= i64::MAX
}

/// The size of a picture in EMU (see `spec_picture_size`).
pub fn picture_dimensions(d: ImageDimensions) -> (r: (i64, i64))
    requires
        size_fits(d),
    ensures
        (r.0 as int, r.1 as int) == spec_picture_size(d),
        r.0 >= 0 && r.1 >= 0,
{
    let mut width: i64 = d.width_px as i64 * EMU_PER_PIXEL;
    let mut height: i64 = d.height_px as i64 * EMU_PER_PIXEL;
    if width > MAX_INLINE_PICTURE_WIDTH_EMU {
        height = height * MAX_INLINE_PICTURE_WIDTH_EMU / width;
        width = MAX_INLINE_PICTURE_WIDTH_EMU;
    }
    (width, height)
}

// ---------------------------------------------------------------------------
// Formats
// ---------------------------------------------------------------------------

/// The failure code of an image that cannot be read.
pub open spec fn image_failure(e: ImageDimensionError) -> FailureCode {
    match e {
        ImageDimensionError::UnsupportedFormat => FailureCode::UnsupportedImageFormat,
        _ => FailureCode::MalformedImage,
    }
}

fn image_info_error(e: ImageDimensionError) -> (r: OperationFailure)
    ensures
        r.code == image_failure(e),
{
    match e {
        ImageDimensionError::UnsupportedFormat => OperationFailure::failed(FailureCode::UnsupportedImageFormat, e.message()),
        _ => OperationFailure::failed(FailureCode::MalformedImage, e.message()),
    }
}

pub const PNG_CONTENT_TYPE: &'static str = "image/png";

pub const JPEG_CONTENT_TYPE: &'static str = "image/jpeg";

/// The content type of relationships parts.
pub const RELATIONSHIPS_CONTENT_TYPE: &'static str = "application/vnd.openxmlformats-package.relationships+xml";

/// The relationship type of an image.
pub const IMAGE_RELATIONSHIP: &'static str = "http://schemas.openxmlformats.org/officeDocument/2006/relationships/image";

pub open spec fn format_extension(f: ImageFormat) -> Seq<u8> {
    match f {
        ImageFormat::Png => "png".spec_bytes(),
        ImageFormat::Jpeg => "jpeg".spec_bytes(),
    }
}

pub open spec fn format_content_type(f: ImageFormat) -> Seq<u8> {
    match f {
        ImageFormat::Png => PNG_CONTENT_TYPE.spec_bytes(),
        ImageFormat::Jpeg => JPEG_CONTENT_TYPE.spec_bytes(),
    }
}

/// PNG images are stored with extension `png` and content type `image/png`, JPEG images
/// with `jpeg` and `image/jpeg`.
pub proof fn law_image_format_names()
    ensures
        format_extension(ImageFormat::Png) == "png".spec_bytes(),
        format_extension(ImageFormat::Jpeg) == "jpeg".spec_bytes(),
        format_content_type(ImageFormat::Png) == "image/png".spec_bytes(),
        format_content_type(ImageFormat::Jpeg) == "image/jpeg".spec_bytes(),
{
}

fn format_names(f: ImageFormat) -> (r: (&'static str, &'static str))
    ensures
        r.0.spec_bytes() == format_extension(f),
        r.1.spec_bytes() == format_content_type(f),
{
    match f {
        ImageFormat::Png => ("png", PNG_CONTENT_TYPE),
        ImageFormat::Jpeg => ("jpeg", JPEG_CONTENT_TYPE),
    }
}

// ---------------------------------------------------------------------------
// The picture paragraph
// ---------------------------------------------------------------------------

/// ` descr="…"` for a non-empty alternative text, escaped; nothing otherwise.
pub open spec fn description_markup(alt: Option<String>) -> Seq<u8> {
    match alt {
        Some(a) => if vstd::utf8::encode_utf8(a@).len() > 0 {
            " descr=\"".spec_bytes() + escaped(vstd::utf8::encode_utf8(a@)) + "\"".spec_bytes()
        } else {
            seq![]
        },
        None => seq![],
    }
}

pub open spec fn inline_head() -> Seq<u8> {
    "<wp:inline xmlns:wp=\"http://schemas.openxmlformats.org/drawingml/2006/wordprocessingDrawing\" distT=\"0\" distB=\"0\" distL=\"0\" distR=\"0\"><wp:extent cx=\"".spec_bytes()
}

pub open spec fn graphic_head() -> Seq<u8> {
    "/><a:graphic xmlns:a=\"http://schemas.openxmlformats.org/drawingml/2006/main\"><a:graphicData uri=\"http://schemas.openxmlformats.org/drawingml/2006/picture\"><pic:pic xmlns:pic=\"http://schemas.openxmlformats.org/drawingml/2006/picture\"><pic:nvPicPr><pic:cNvPr id=\"".spec_bytes()
}

pub open spec fn blip_head() -> Seq<u8> {
    "\"/><pic:cNvPicPr/></pic:nvPicPr><pic:blipFill><a:blip xmlns:r=\"http://schemas.openxmlformats.org/officeDocument/2006/relationships\" r:embed=\"".spec_bytes()
}

pub open spec fn shape_head() -> Seq<u8> {
    "\"/><a:stretch><a:fillRect/></a:stretch></pic:blipFill><pic:spPr><a:xfrm><a:off x=\"0\" y=\"0\"/><a:ext cx=\"".spec_bytes()
}

pub open spec fn inline_tail() -> Seq<u8> {
    "\"/></a:xfrm><a:prstGeom prst=\"rect\"><a:avLst/></a:prstGeom></pic:spPr></pic:pic></a:graphicData></a:graphic></wp:inline>".spec_bytes()
}

/// `cx="w" cy="h"` without its first quote's opening.
pub open spec fn extent_values(w: int, h: int) -> Seq<u8> {
    decimal_digits(w as nat) + "\" cy=\"".spec_bytes() + decimal_digits(h as nat)
}

/// `id` then `name="Picture id`, the quotes around them written by the markup around.
pub open spec fn picture_names(id: int) -> Seq<u8> {
    decimal_digits(id as nat) + "\" name=\"Picture ".spec_bytes() + decimal_digits(id as nat)
}

/// A paragraph holding one run with one inline picture of the given size, identifier,
/// image relationship and alternative text, in the body's namespace prefix.
pub open spec fn picture_markup(prefix: Seq<u8>, w: int, h: int, id: int, rel: Seq<u8>, alt: Option<String>) -> Seq<u8> {
    let p = qualified(prefix, "p".spec_bytes());
    let r = qualified(prefix, "r".spec_bytes());
    let dr = qualified(prefix, "drawing".spec_bytes());
    open_tag(p) + open_tag(r) + open_tag(dr) + inline_head() + extent_values(w, h) + "\"/><wp:docPr id=\"".spec_bytes()
        + picture_names(id) + "\"".spec_bytes() + description_markup(alt) + graphic_head() + picture_names(id) + blip_head()
        + rel + shape_head() + extent_values(w, h) + inline_tail() + close_tag(dr) + close_tag(r) + close_tag(p)
}

fn push_extent_values(out: &mut Vec<u8>, w: i64, h: i64)
    requires
        w >= 0,
        h >= 0,
    ensures
        final(out)@ == old(out)@ + extent_values(w as int, h as int),
{
    push_bytes(out, format_u64(w as u64).as_slice());
    push_str(out, "\" cy=\"");
    push_bytes(out, format_u64(h as u64).as_slice());
    assert(out@ =~= old(out)@ + extent_values(w as int, h as int));
}

fn push_picture_names(out: &mut Vec<u8>, id: u32)
    ensures
        final(out)@ == old(out)@ + picture_names(id as int),
{
    let digits = format_u64(id as u64);
    push_bytes(out, digits.as_slice());
    push_str(out, "\" name=\"Picture ");
    push_bytes(out, digits.as_slice());
    assert(out@ =~= old(out)@ + picture_names(id as int));
}

fn push_description(out: &mut Vec<u8>, alt: &Option<String>)
    ensures
        final(out)@ == old(out)@ + description_markup(*alt),
{
    match alt {
        Some(a) => {
            let b = a.as_str().as_bytes();
            assert(b@ == vstd::utf8::encode_utf8(a@));
            if b.len() > 0 {
                push_str(out, " descr=\"");
                push_bytes(out, escape(b).as_slice());
                push_str(out, "\"");
                assert(out@ =~= old(out)@ + description_markup(*alt));
            } else {
                assert(out@ =~= old(out)@ + description_markup(*alt));
            }
        },
        None => {
            assert(out@ =~= old(out)@ + description_markup(*alt));
        },
    }
}

/// The picture paragraph (see `picture_markup`).
pub fn picture_fragment(prefix: &[u8], w: i64, h: i64, id: u32, rel: &[u8], alt: &Option<String>) -> (r: Vec<u8>)
    requires
        w >= 0,
        h >= 0,
    ensures
        r@ == picture_markup(prefix@, w as int, h as int, id as int, rel@, *alt),
{
    let p = qualify(prefix, "p");
    let r = qualify(prefix, "r");
    let dr = qualify(prefix, "drawing");
    let mut out: Vec<u8> = Vec::new();
    push_open(&mut out, p.as_slice());
    push_open(&mut out, r.as_slice());
    push_open(&mut out, dr.as_slice());
    push_str(&mut out, "<wp:inline xmlns:wp=\"http://schemas.openxmlformats.org/drawingml/2006/wordprocessingDrawing\" distT=\"0\" distB=\"0\" distL=\"0\" distR=\"0\"><wp:extent cx=\"");
    push_extent_values(&mut out, w, h);
    push_str(&mut out, "\"/><wp:docPr id=\"");
    push_picture_names(&mut out, id);
    push_str(&mut out, "\"");
    push_description(&mut out, alt);
    push_str(&mut out, "/><a:graphic xmlns:a=\"http://schemas.openxmlformats.org/drawingml/2006/main\"><a:graphicData uri=\"http://schemas.openxmlformats.org/drawingml/2006/picture\"><pic:pic xmlns:pic=\"http://schemas.openxmlformats.org/drawingml/2006/picture\"><pic:nvPicPr><pic:cNvPr id=\"");
    push_picture_names(&mut out, id);
    push_str(&mut out, "\"/><pic:cNvPicPr/></pic:nvPicPr><pic:blipFill><a:blip xmlns:r=\"http://schemas.openxmlformats.org/officeDocument/2006/relationships\" r:embed=\"");
    push_bytes(&mut out, rel);
    push_str(&mut out, "\"/><a:stretch><a:fillRect/></a:stretch></pic:blipFill><pic:spPr><a:xfrm><a:off x=\"0\" y=\"0\"/><a:ext cx=\"");
    push_extent_values(&mut out, w, h);
    push_str(&mut out, "\"/></a:xfrm><a:prstGeom prst=\"rect\"><a:avLst/></a:prstGeom></pic:spPr></pic:pic></a:graphicData></a:graphic></wp:inline>");
    push_close(&mut out, dr.as_slice());
    push_close(&mut out, r.as_slice());
    push_close(&mut out, p.as_slice());
    assert(out@ =~= picture_markup(prefix@, w as int, h as int, id as int, rel@, *alt));
    out
}

// ---------------------------------------------------------------------------
// Relationships and content types
// ---------------------------------------------------------------------------

/// The relationship of a new image part: `Target="media/<file name>"`.
pub open spec fn image_relationship_markup(id: Seq<u8>, media: Seq<u8>) -> Seq<u8> {
    "<Relationship Id=\"".spec_bytes() + id + "\" Type=\"".spec_bytes() + IMAGE_RELATIONSHIP.spec_bytes()
        + "\" Target=\"media/".spec_bytes() + file_name(media) + "\"/>".spec_bytes()
}

fn image_relationship_element(id: &[u8], media: &[u8]) -> (r: Vec<u8>)
    ensures
        r@ == image_relationship_markup(id@, media@),
{
    let mut out: Vec<u8> = Vec::new();
    push_str(&mut out, "<Relationship Id=\"");
    push_bytes(&mut out, id);
    push_str(&mut out, "\" Type=\"");
    push_str(&mut out, IMAGE_RELATIONSHIP);
    push_str(&mut out, "\" Target=\"media/");
    push_bytes(&mut out, crate::mutation::header_footer_markup::part_file(media).as_slice());
    push_str(&mut out, "\"/>");
    assert(out@ =~= image_relationship_markup(id@, media@));
    out
}

/// The content type a content-types part gives by default to an extension.
pub open spec fn default_content_type(d: &SourceDocument, ext: Seq<u8>) -> Option<Seq<u8>> {
    match first_keyed(d, d.spec_children(0), "Default".spec_bytes(), "Extension".spec_bytes(), ext, 0) {
        Some(x) => d.spec_attribute(x.0 as int, "ContentType".spec_bytes()),
        None => None,
    }
}

fn default_type(types: &SourceDocument, ext: &[u8]) -> (r: Option<Vec<u8>>)
    requires
        types.wf(),
    ensures
        match r {
            Some(v) => default_content_type(types, ext@) == Some(v@),
            None => default_content_type(types, ext@) is None,
        },
{
    let kids = types.children(types.root());
    let _end = types.subtree_end(types.root());
    proof {
        crate::source::lemma_children(types, 0);
    }
    match crate::package::find_keyed(types, &kids, "Default", "Extension", ext) {
        Some(x) => types.attribute(x, "ContentType"),
        None => None,
    }
}

/// `<Default Extension="…" ContentType="…"/>`.
pub open spec fn default_markup(ext: Seq<u8>, content_type: Seq<u8>) -> Seq<u8> {
    "<Default Extension=\"".spec_bytes() + ext + "\" ContentType=\"".spec_bytes() + content_type + "\"/>".spec_bytes()
}

/// What the content types gain: a default for the image's extension when there is none,
/// and one for relationships parts when the part does not mention `Extension="rels"`.
pub open spec fn types_additions(d: &SourceDocument, ext: Seq<u8>, content_type: Seq<u8>) -> Seq<u8> {
    (if default_content_type(d, ext) is None {
        default_markup(ext, content_type)
    } else {
        seq![]
    }) + (if !contains_seq(d.bytes@, "Extension=\"rels\"".spec_bytes()) {
        default_markup("rels".spec_bytes(), RELATIONSHIPS_CONTENT_TYPE.spec_bytes())
    } else {
        seq![]
    })
}

/// The content types must change when they give no default to the image's extension or
/// to relationships parts.
pub open spec fn types_change(d: &SourceDocument, ext: Seq<u8>) -> bool {
    default_content_type(d, ext) is None || default_content_type(d, "rels".spec_bytes()) is None
}

fn push_default(out: &mut Vec<u8>, ext: &[u8], content_type: &str)
    ensures
        final(out)@ == old(out)@ + default_markup(ext@, content_type.spec_bytes()),
{
    push_str(out, "<Default Extension=\"");
    push_bytes(out, ext);
    push_str(out, "\" ContentType=\"");
    push_str(out, content_type);
    push_str(out, "\"/>");
    assert(out@ =~= old(out)@ + default_markup(ext@, content_type.spec_bytes()));
}

// ---------------------------------------------------------------------------
// Inserting a picture
// ---------------------------------------------------------------------------

/// Where a placement puts a new body paragraph: the body and the byte offset; `None`
/// when the placement, the body or the insertion point cannot be found.
pub open spec fn picture_point(d: &SourceDocument, placement: crate::protocol::ParagraphPlacement) -> Option<(NodeId, int)> {
    match (spec_resolved_placement(d, placement), spec_body(d)) {
        (Some(p), Ok(body)) => match spec_placement_index(body_blocks(d, body), p) {
            Some(index) => match spec_body_insertion(d, body, body_blocks(d, body), index) {
                Ok(at) => Some((body, at)),
                Err(_) => None,
            },
            None => None,
        },
        _ => None,
    }
}

fn insertion_point(source: &SourceDocument, placement: &crate::protocol::ParagraphPlacement) -> (r: Result<(NodeId, usize), OperationFailure>)
    requires
        source.wf(),
    ensures
        match r {
            Ok((body, at)) => picture_point(source, *placement) == Some((body, at as int)) && source.valid_id(body)
                && at <= source.bytes@.len(),
            Err(_) => picture_point(source, *placement) is None,
        },
{
    let resolved = resolve_paragraph_placement(source, placement)?;
    let (body, blocks) = direct_body_blocks(source)?;
    let index = placement_index(&blocks, resolved)?;
    let at = body_insertion(source, body, &blocks, index)?;
    Ok((body, at))
}

/// The main part with the picture paragraph at the insertion point, in the body's
/// namespace prefix, with the next free drawing identifier and the relationship `rel`.
pub open spec fn main_with_picture(d: &SourceDocument, body: NodeId, at: int, size: (int, int), rel: Seq<u8>, alt: Option<String>) -> Option<Seq<u8>> {
    match spec_word_prefix(d, body.0 as int, "body".spec_bytes()) {
        Some(prefix) => Some(d.bytes@.subrange(0, at) + picture_markup(
            prefix,
            size.0,
            size.1,
            highest_drawing_id(d, d.nodes@.len() as int) + 1,
            rel,
            alt,
        ) + d.bytes@.subrange(at, d.bytes@.len() as int)),
        None => None,
    }
}

/// The content types, when the package has a content-types part that parses, and the
/// image's extension has no default or the right one.
pub open spec fn types_read(s: PackageSnapshot, t: SourceDocument, ext: Seq<u8>, ct: Seq<u8>) -> bool {
    &&& part_index(s.parts@, CONTENT_TYPES_PART@, 0) matches Some(ti)
    &&& t.wf() && t.bytes@ == s.parts@[ti].bytes@ && t.faithful()
    &&& (default_content_type(&t, ext) matches Some(x) ==> x == ct)
}

/// The changes of a picture insertion, given where the main part's relationships are
/// (`m`) and the parsed content types (`t`): the main part with the picture paragraph;
/// the relationships with the new image relationship (replaced, or added when new); the
/// content types with the defaults they lacked (when they lacked one); and the image as
/// a new media part with its content type.
pub open spec fn picture_changes(s: PackageSnapshot, d: &SourceDocument, op: InsertPicture, m: RelationshipSlot, t: SourceDocument, c: PartChanges) -> bool {
    let info = spec_image_info(op.image_bytes@)->Ok_0;
    let ext = format_extension(info.format);
    let ct = format_content_type(info.format);
    let point = picture_point(d, op.placement)->0;
    let media = media_name(highest_media(s.parts@, s.parts@.len() as int) + 1, ext);
    let rel = vstd::utf8::encode_utf8(m.next_id@);
    let main = main_with_picture(d, point.0, point.1, spec_picture_size(info.dimensions), rel, op.alt_text);
    let rels = spec_append_xml_element(m.bytes@, image_relationship_markup(rel, media));
    let n: int = 1 + (if m.exists { 1int } else { 0int }) + (if types_change(&t, ext) { 1int } else { 0int });
    &&& spec_image_info(op.image_bytes@) is Ok
    &&& picture_point(d, op.placement) is Some
    &&& slot_found(s, m)
    &&& types_read(s, t, ext, ct)
    &&& main is Some && rels is Some
    &&& c.replaced@.len() == n
    &&& c.replaced@[0].0@ == s.main_name@ && c.replaced@[0].1@ == main->0
    &&& m.exists ==> c.replaced@[1].0@ == m.name@ && c.replaced@[1].1@ == rels->0
    &&& types_change(&t, ext) ==> c.replaced@[n - 1].0@ == CONTENT_TYPES_PART@ && spec_append_xml_element(
        t.bytes@,
        types_additions(&t, ext, ct),
    ) == Some(c.replaced@[n - 1].1@)
    &&& c.added@.len() == if m.exists { 1int } else { 2int }
    &&& vstd::utf8::encode_utf8(c.added@[0].name@) == media
    &&& vstd::utf8::encode_utf8(c.added@[0].content_type@) == ct
    &&& c.added@[0].bytes@ == op.image_bytes@
    &&& !m.exists ==> c.added@[1].name@ == m.name@ && c.added@[1].content_type@ == RELATIONSHIPS_CONTENT_TYPE@
        && c.added@[1].bytes@ == rels->0
}

fn picture_main(source: &SourceDocument, body: NodeId, at: usize, size: (i64, i64), rel: &String, alt: &Option<String>) -> (r:
    Result<Vec<u8>, OperationFailure>)
    requires
        source.wf(),
        source.valid_id(body),
        at <= source.bytes@.len(),
        size.0 >= 0 && size.1 >= 0,
    ensures
        match r {
            Ok(v) => main_with_picture(source, body, at as int, (size.0 as int, size.1 as int), vstd::utf8::encode_utf8(rel@), *alt)
                == Some(v@),
            Err(e) => (e.code == FailureCode::PackageConflict || e.code == FailureCode::UnsupportedOperation) && (
            highest_drawing_id(source, source.nodes@.len() as int) == u32::MAX || spec_word_prefix(
                source,
                body.0 as int,
                "body".spec_bytes(),
            ) is None),
        },
{
    let id = next_picture_id(source)?;
    let prefix = word_prefix_for(source, body, "body")?;
    let rel_bytes = rel.as_str().as_bytes();
    assert(rel_bytes@ == vstd::utf8::encode_utf8(rel@));
    let fragment = picture_fragment(prefix.as_slice(), size.0, size.1, id, rel_bytes, alt);
    Ok(apply_single_patch(source, Patch { span: SourceSpan { start: at, end: at }, replacement: fragment }))
}

fn read_types(s: &PackageSnapshot, ext: &str, ct: &str) -> (r: Result<(String, SourceDocument), OperationFailure>)
    ensures
        match r {
            Ok((name, t)) => types_read(*s, t, ext.spec_bytes(), ct.spec_bytes()) && name@ == CONTENT_TYPES_PART@,
            Err(e) => (e.code == FailureCode::MissingPart || e.code == FailureCode::DocumentInvalid || e.code
                == FailureCode::PackageConflict) && types_blocked(*s, ext.spec_bytes(), ct.spec_bytes()),
        },
{
    let types_name = CONTENT_TYPES_PART.to_owned();
    let ti = match find_part(&s.parts, &types_name) {
        Some(i) => i,
        None => return Err(OperationFailure::failed(FailureCode::MissingPart, "package has no content types part")),
    };
    let types = match SourceDocument::parse(copy_bytes(s.parts[ti].bytes.as_slice())) {
        Ok(d) => d,
        Err(_) => return Err(document_invalid()),
    };
    match default_type(&types, ext.as_bytes()) {
        Some(x) => {
            if !bytes_equal(x.as_slice(), ct.as_bytes()) {
                assert(types.bytes == types.bytes);
                return Err(OperationFailure::failed(FailureCode::PackageConflict, "image file extension has a conflicting content type"));
            }
        },
        None => {},
    }
    Ok((types_name, types))
}

fn types_update(types: &SourceDocument, ext: &str, ct: &str) -> (r: Result<Option<Vec<u8>>, OperationFailure>)
    requires
        types.wf(),
    ensures
        match r {
            Ok(Some(v)) => types_change(types, ext.spec_bytes()) && spec_append_xml_element(
                types.bytes@,
                types_additions(types, ext.spec_bytes(), ct.spec_bytes()),
            ) == Some(v@),
            Ok(None) => !types_change(types, ext.spec_bytes()),
            Err(e) => e.code == FailureCode::DocumentInvalid && types_change(types, ext.spec_bytes()) && no_closing_tag(
                types.bytes@,
            ),
        },
{
    let ext_default = default_type(types, ext.as_bytes());
    let rels_default = default_type(types, "rels".as_bytes());
    if ext_default.is_some() && rels_default.is_some() {
        return Ok(None);
    }
    let mut additions: Vec<u8> = Vec::new();
    if ext_default.is_none() {
        push_default(&mut additions, ext.as_bytes(), ct);
    }
    let marker = crate::bytes::str_bytes("Extension=\"rels\"");
    proof {
        reveal_strlit("Extension=\"rels\"");
        vstd::utf8::encode_utf8_first_scalar("Extension=\"rels\""@);
    }
    assert(marker@.len() > 0);
    if !contains_bytes(types.original_bytes(), marker.as_slice()) {
        push_default(&mut additions, "rels".as_bytes(), RELATIONSHIPS_CONTENT_TYPE);
    }
    assert(additions@ =~= types_additions(types, ext.spec_bytes(), ct.spec_bytes()));
    let v = match append_xml_element(types.original_bytes(), additions.as_slice()) {
        Ok(v) => v,
        Err(e) => {
            proof {
                lemma_no_closing_tag(types.bytes@, additions@);
            }
            return Err(e);
        },
    };
    Ok(Some(v))
}

/// An XML part has no closing tag to insert before: its last `<` does not open one.
pub open spec fn no_closing_tag(bytes: Seq<u8>) -> bool {
    match last_angle(bytes, bytes.len() as int) {
        Some(i) => !(i + 1 < bytes.len() && bytes[i + 1] == 0x2fu8),
        None => true,
    }
}

proof fn lemma_no_closing_tag(bytes: Seq<u8>, element: Seq<u8>)
    requires
        spec_append_xml_element(bytes, element) is None,
    ensures
        no_closing_tag(bytes),
{
}

/// The content types cannot take the picture's format: the package has no content
/// types part, or it is not well-formed XML, or it gives the extension another content
/// type, or it lacks a default and has no closing tag to add one before.
pub open spec fn types_blocked(s: PackageSnapshot, ext: Seq<u8>, ct: Seq<u8>) -> bool {
    match part_index(s.parts@, CONTENT_TYPES_PART@, 0) {
        None => true,
        Some(i) => !crate::source::accepts(s.parts@[i].bytes@) || exists|t: SourceDocument|
            #![trigger t.bytes]
            {
                &&& t.wf() && t.faithful() && t.bytes@ == s.parts@[i].bytes@
                &&& (default_content_type(&t, ext) matches Some(x) && x != ct) || (types_change(&t, ext) && no_closing_tag(
                    t.bytes@,
                ))
            },
    }
}

/// Why an insertion with a readable image at a found placement cannot go ahead: the
/// media names, relationship ids or drawing ids are used up, the main part's
/// relationships cannot take one more, the body has no `w:` prefix, or the content
/// types cannot take the format.
pub open spec fn picture_blocked(s: PackageSnapshot, d: &SourceDocument, op: InsertPicture) -> bool {
    let info = spec_image_info(op.image_bytes@)->Ok_0;
    let ext = format_extension(info.format);
    let ct = format_content_type(info.format);
    let body = picture_point(d, op.placement)->Some_0.0;
    ||| highest_media(s.parts@, s.parts@.len() as int) >= u32::MAX
    ||| relationships_blocked(s)
    ||| highest_drawing_id(d, d.nodes@.len() as int) == u32::MAX
    ||| spec_word_prefix(d, body.0 as int, "body".spec_bytes()) is None
    ||| exists|m: RelationshipSlot| #[trigger] slot_found(s, m) && no_closing_tag(m.bytes@)
    ||| types_blocked(s, ext, ct)
}

/// The changes of a picture insertion, for some reading of the main part's
/// relationships and of the content types (see `picture_changes`).
#[verifier::opaque]
pub open spec fn picture_inserted(s: PackageSnapshot, d: &SourceDocument, op: InsertPicture, c: PartChanges) -> bool {
    exists|m: RelationshipSlot, t: SourceDocument|
        #![trigger picture_changes(s, d, op, m, t, c)]
        picture_changes(s, d, op, m, t, c)
}

/// Inserts one inline PNG or JPEG picture, in a paragraph of its own, at a body
/// placement: the image becomes a new media part with a relationship from the main part,
/// the content types gain the defaults they lack, and the picture gets the next free
/// drawing identifier; it is scaled down to the widest inline picture when wider.
#[verifier::spinoff_prover]
#[verifier::rlimit(60)]
pub fn insert_picture_to_vec(s: &PackageSnapshot, source: &SourceDocument, operation: &InsertPicture) -> (r: Result<
    PartChanges,
    OperationFailure,
>)
    requires
        source.wf(),
        spec_image_info(operation.image_bytes@) matches Ok(info) ==> size_fits(info.dimensions),
    ensures
        spec_image_info(operation.image_bytes@) matches Err(e) ==> r matches Err(f) && f.code == image_failure(e),
        spec_image_info(operation.image_bytes@) is Ok && picture_point(source, operation.placement) is None ==> r is Err,
        r matches Ok(c) ==> picture_inserted(*s, source, *operation, c),
        spec_image_info(operation.image_bytes@) is Ok && picture_point(source, operation.placement) is Some && r is Err
            ==> picture_blocked(*s, source, *operation),
{
    let info = match read_image_info(operation.image_bytes.as_slice()) {
        Ok(i) => i,
        Err(e) => return Err(image_info_error(e)),
    };
    let (extension, content_type) = format_names(info.format);
    let size = picture_dimensions(info.dimensions);
    let (body, at) = insertion_point(source, &operation.placement)?;
    let media = next_media_part_name(&s.parts, extension)?;
    let slot = picture_relationships(s)?;
    let document = picture_main(source, body, at, size, &slot.next_id, &operation.alt_text)?;
    let rel = slot.next_id.as_str().as_bytes();
    let media_bytes = media.as_str().as_bytes();
    let relation = image_relationship_element(rel, media_bytes);
    let rels = match append_xml_element(slot.bytes.as_slice(), relation.as_slice()) {
        Ok(v) => v,
        Err(e) => {
            proof {
                lemma_no_closing_tag(slot.bytes@, relation@);
            }
            return Err(e);
        },
    };
    let (types_name, types) = read_types(s, extension, content_type)?;
    let new_types = types_update(&types, extension, content_type)?;
    let ghost main_view = document@;
    let ghost media_view = media@;
    let ghost rels_view = rels@;
    let ghost types_view: Option<Seq<u8>> = match &new_types {
        Some(v) => Some(v@),
        None => None,
    };
    assert(rel@ == vstd::utf8::encode_utf8(slot.next_id@));
    assert(media_bytes@ == vstd::utf8::encode_utf8(media@));
    let c = assemble(s, document, media, content_type, operation, &slot, rels, types_name, new_types);
    proof {
        lemma_changes(*s, source, *operation, slot, types, c, info, body, at as int, main_view, media_view, rels_view, types_view);
    }
    Ok(c)
}

/// The parts of an insertion's changes, in their places.
pub open spec fn assembled(
    s: PackageSnapshot,
    c: PartChanges,
    main: Seq<u8>,
    media: Seq<char>,
    ct: Seq<u8>,
    image: Seq<u8>,
    m: RelationshipSlot,
    rels: Seq<u8>,
    new_types: Option<Seq<u8>>,
) -> bool {
    let n: int = 1 + (if m.exists { 1int } else { 0int }) + (if new_types is Some { 1int } else { 0int });
    &&& c.replaced@.len() == n
    &&& c.replaced@[0].0@ == s.main_name@ && c.replaced@[0].1@ == main
    &&& m.exists ==> c.replaced@[1].0@ == m.name@ && c.replaced@[1].1@ == rels
    &&& new_types matches Some(v) ==> c.replaced@[n - 1].0@ == CONTENT_TYPES_PART@ && c.replaced@[n - 1].1@ == v
    &&& c.added@.len() == if m.exists { 1int } else { 2int }
    &&& c.added@[0].name@ == media
    &&& vstd::utf8::encode_utf8(c.added@[0].content_type@) == ct
    &&& c.added@[0].bytes@ == image
    &&& !m.exists ==> c.added@[1].name@ == m.name@ && c.added@[1].content_type@ == RELATIONSHIPS_CONTENT_TYPE@
        && c.added@[1].bytes@ == rels
}

fn assemble(
    s: &PackageSnapshot,
    document: Vec<u8>,
    media: String,
    content_type: &str,
    operation: &InsertPicture,
    slot: &RelationshipSlot,
    rels: Vec<u8>,
    types_name: String,
    new_types: Option<Vec<u8>>,
) -> (c: PartChanges)
    requires
        types_name@ == CONTENT_TYPES_PART@,
    ensures
        assembled(
            *s,
            c,
            document@,
            media@,
            content_type.spec_bytes(),
            operation.image_bytes@,
            *slot,
            rels@,
            match new_types {
                Some(v) => Some(v@),
                None => None,
            },
        ),
{
    let ghost main = document@;
    let ghost media_view = media@;
    let ghost rels_view = rels@;
    let mut replaced: Vec<(String, Vec<u8>)> = Vec::new();
    let mut added: Vec<PackagePart> = Vec::new();
    replaced.push((s.main_name.clone(), document));
    added.push(PackagePart { name: media, content_type: content_type.to_owned(), bytes: copy_bytes(operation.image_bytes.as_slice()) });
    if slot.exists {
        replaced.push((slot.name.clone(), rels));
    } else {
        added.push(PackagePart { name: slot.name.clone(), content_type: RELATIONSHIPS_CONTENT_TYPE.to_owned(), bytes: rels });
    }
    match new_types {
        Some(v) => replaced.push((types_name, v)),
        None => {},
    }
    PartChanges { replaced, added }
}

proof fn lemma_changes(
    s: PackageSnapshot,
    d: &SourceDocument,
    op: InsertPicture,
    m: RelationshipSlot,
    t: SourceDocument,
    c: PartChanges,
    info: ImageInfo,
    body: NodeId,
    at: int,
    main: Seq<u8>,
    media: Seq<char>,
    rels: Seq<u8>,
    new_types: Option<Seq<u8>>,
)
    requires
        spec_image_info(op.image_bytes@) == Ok::<ImageInfo, ImageDimensionError>(info),
        picture_point(d, op.placement) == Some((body, at)),
        slot_found(s, m),
        types_read(s, t, format_extension(info.format), format_content_type(info.format)),
        assembled(s, c, main, media, format_content_type(info.format), op.image_bytes@, m, rels, new_types),
        main_with_picture(d, body, at, spec_picture_size(info.dimensions), vstd::utf8::encode_utf8(m.next_id@), op.alt_text)
            == Some(main),
        vstd::utf8::encode_utf8(media) == media_name(
            highest_media(s.parts@, s.parts@.len() as int) + 1,
            format_extension(info.format),
        ),
        spec_append_xml_element(
            m.bytes@,
            image_relationship_markup(vstd::utf8::encode_utf8(m.next_id@), vstd::utf8::encode_utf8(media)),
        ) == Some(rels),
        match new_types {
            Some(v) => types_change(&t, format_extension(info.format)) && spec_append_xml_element(
                t.bytes@,
                types_additions(&t, format_extension(info.format), format_content_type(info.format)),
            ) == Some(v),
            None => !types_change(&t, format_extension(info.format)),
        },
    ensures
        picture_inserted(s, d, op, c),
{
    reveal(picture_inserted);
    assert(picture_changes(s, d, op, m, t, c));
}

} // verus!
