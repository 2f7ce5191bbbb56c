use vstd::prelude::*;
use vstd::string::StringSliceAdditionalSpecFns;

use crate::document::spec_body;
use crate::numbers::{parse_i32, parse_u32, signed_value, unsigned_value};
use crate::protocol::{
    unsupported, FailureCode, OperationFailure, PageMargins, PageOrientation, PaperSize,
};
use crate::source::{NodeId, SourceDocument};
use crate::wordml::{attr_of, child, children_named, is_word, named_among, spec_child};

use crate::bytes::{push_bytes, push_str};
use crate::mutation::common::{
    apply_patches, arranged, attr_prefix, close_tag, direct_body_blocks, document_invalid,
    patched, qualified, qualify, span_keys, spec_word_prefix, word_prefix_for, Patch,
};
use crate::numbers::{decimal_digits, format_i64, format_u64, signed_digits};
use crate::order::stable_order;
use crate::protocol::SetPageSetup;
use crate::source::SourceSpan;

verus! {

/// The effective page layout of a safe, single-section main document.
#[derive(Clone, Copy, Debug, PartialEq, Eq, Structural)]
pub struct PageSetupInspection {
    pub margins: PageMargins,
    pub paper_size: Option<PaperSize>,
    pub orientation: PageOrientation,
}

/// Letter paper, portrait, in twips.
pub const LETTER: (u32, u32) = (12240u32, 15840u32);

/// A4 paper, portrait, in twips.
pub const A4: (u32, u32) = (11906u32, 16838u32);

pub const DEFAULT_MARGIN_TWIPS: i32 = 1440i32;

pub const MAX_MARGIN_TWIPS: i32 = 31680i32;

/// An optional numeric attribute of an optional element: `Ok(None)` when either is
/// missing, an error when the value is not a `u32`.
pub open spec fn number_u32(d: &SourceDocument, node: Option<NodeId>, name: Seq<u8>) -> Result<Option<u32>, ()> {
    match attr_of(d, node, name) {
        None => Ok(None),
        Some(v) => match unsigned_value(v) {
            Some(x) => if x <= u32::MAX {
                Ok(Some(x as u32))
            } else {
                Err(())
            },
            None => Err(()),
        },
    }
}

/// Like `number_u32`, for a signed 32-bit value.
pub open spec fn number_i32(d: &SourceDocument, node: Option<NodeId>, name: Seq<u8>) -> Result<Option<i32>, ()> {
    match attr_of(d, node, name) {
        None => Ok(None),
        Some(v) => match signed_value(v) {
            Some(x) => if i32::MIN <= x <= i32::MAX {
                Ok(Some(x as i32))
            } else {
                Err(())
            },
            None => Err(()),
        },
    }
}

fn read_u32(source: &SourceDocument, node: Option<NodeId>, name: &str) -> (r: Result<Option<u32>, ()>)
    requires
        source.wf(),
        node matches Some(c) ==> source.valid_id(c),
    ensures
        r == number_u32(source, node, name.spec_bytes()),
{
    match node {
        None => Ok(None),
        Some(c) => match source.attribute(c, name) {
            None => Ok(None),
            Some(v) => match parse_u32(v.as_slice()) {
                Some(x) => Ok(Some(x)),
                None => Err(()),
            },
        },
    }
}

fn read_i32(source: &SourceDocument, node: Option<NodeId>, name: &str) -> (r: Result<Option<i32>, ()>)
    requires
        source.wf(),
        node matches Some(c) ==> source.valid_id(c),
    ensures
        r == number_i32(source, node, name.spec_bytes()),
{
    match node {
        None => Ok(None),
        Some(c) => match source.attribute(c, name) {
            None => Ok(None),
            Some(v) => match parse_i32(v.as_slice()) {
                Some(x) => Ok(Some(x)),
                None => Err(()),
            },
        },
    }
}

/// The paper a portrait width and height (in either order) describe.
pub open spec fn spec_paper(width: u32, height: u32) -> Option<PaperSize> {
    let short = if width <= height {
        width
    } else {
        height
    };
    let long = if width <= height {
        height
    } else {
        width
    };
    if short == 12240 && long == 15840 {
        Some(PaperSize::Letter)
    } else if short == 11906 && long == 16838 {
        Some(PaperSize::A4)
    } else {
        None
    }
}

pub open spec fn spec_paper_dimensions(paper: PaperSize) -> (u32, u32) {
    match paper {
        PaperSize::Letter => (12240u32, 15840u32),
        PaperSize::A4 => (11906u32, 16838u32),
    }
}

/// The portrait width and height of a paper size.
pub fn paper_dimensions(paper: PaperSize) -> (r: (u32, u32))
    ensures
        r == spec_paper_dimensions(paper),
{
    match paper {
        PaperSize::Letter => LETTER,
        PaperSize::A4 => A4,
    }
}

/// The paper size whose dimensions these are, turned either way.
pub fn paper_from_dimensions(width: u32, height: u32) -> (r: Option<PaperSize>)
    ensures
        r == spec_paper(width, height),
{
    let short = if width <= height {
        width
    } else {
        height
    };
    let long = if width <= height {
        height
    } else {
        width
    };
    if short == LETTER.0 && long == LETTER.1 {
        Some(PaperSize::Letter)
    } else if short == A4.0 && long == A4.1 {
        Some(PaperSize::A4)
    } else {
        None
    }
}

/// A paper size is recognised from its own dimensions, in either orientation.
pub proof fn lemma_paper_round_trip(paper: PaperSize)
    ensures
        spec_paper(spec_paper_dimensions(paper).0, spec_paper_dimensions(paper).1) == Some(paper),
        spec_paper(spec_paper_dimensions(paper).1, spec_paper_dimensions(paper).0) == Some(paper),
{
}

/// Turning a page does not change its paper size.
pub proof fn lemma_paper_symmetric(width: u32, height: u32)
    ensures
        spec_paper(width, height) == spec_paper(height, width),
{
}

pub fn orientation_name(value: PageOrientation) -> (r: &'static str)
    ensures
        r@ == (match value {
            PageOrientation::Portrait => "portrait"@,
            PageOrientation::Landscape => "landscape"@,
        }),
{
    match value {
        PageOrientation::Portrait => "portrait",
        PageOrientation::Landscape => "landscape",
    }
}

/// The page setup a section's `w:pgSz` and `w:pgMar` give: the orientation the size
/// names (else landscape when wider than high), the paper its dimensions match, and its
/// margins. An error when a number there cannot be read.
pub open spec fn spec_page_setup_from(d: &SourceDocument, section: int) -> Result<PageSetupInspection, FailureCode> {
    let size = spec_child(d, section, "pgSz".spec_bytes());
    let mar = spec_child(d, section, "pgMar".spec_bytes());
    let w = number_u32(d, size, "w".spec_bytes());
    let h = number_u32(d, size, "h".spec_bytes());
    let top = number_i32(d, mar, "top".spec_bytes());
    let right = number_i32(d, mar, "right".spec_bytes());
    let bottom = number_i32(d, mar, "bottom".spec_bytes());
    let left = number_i32(d, mar, "left".spec_bytes());
    if w is Err || h is Err || top is Err || right is Err || bottom is Err || left is Err {
        Err(FailureCode::DocumentInvalid)
    } else {
        let (w, h) = (w->Ok_0, h->Ok_0);
        let orientation = match attr_of(d, size, "orient".spec_bytes()) {
            Some(v) => if v == "landscape".spec_bytes() {
                PageOrientation::Landscape
            } else {
                PageOrientation::Portrait
            },
            None => match (w, h) {
                (Some(a), Some(b)) => if a > b {
                    PageOrientation::Landscape
                } else {
                    PageOrientation::Portrait
                },
                _ => PageOrientation::Portrait,
            },
        };
        let paper_size = match (w, h) {
            (Some(a), Some(b)) => spec_paper(a, b),
            _ => None,
        };
        Ok(
            PageSetupInspection {
                margins: PageMargins {
                    top_twips: top->Ok_0,
                    right_twips: right->Ok_0,
                    bottom_twips: bottom->Ok_0,
                    left_twips: left->Ok_0,
                },
                paper_size,
                orientation,
            },
        )
    }
}

/// Reads the page setup of a section.
pub fn page_setup_from_section(source: &SourceDocument, section: NodeId) -> (r: Result<PageSetupInspection, OperationFailure>)
    requires
        source.wf(),
        source.valid_id(section),
    ensures
        match r {
            Ok(p) => spec_page_setup_from(source, section.0 as int) == Ok::<PageSetupInspection, FailureCode>(p),
            Err(e) => spec_page_setup_from(source, section.0 as int) == Err::<PageSetupInspection, FailureCode>(e.code),
        },
{
    let size = child(source, section, "pgSz");
    let mar = child(source, section, "pgMar");
    let malformed = OperationFailure::failed(FailureCode::DocumentInvalid, "section page properties are malformed");
    let w = match read_u32(source, size, "w") {
        Ok(v) => v,
        Err(_) => return Err(malformed),
    };
    let h = match read_u32(source, size, "h") {
        Ok(v) => v,
        Err(_) => return Err(malformed),
    };
    let top = match read_i32(source, mar, "top") {
        Ok(v) => v,
        Err(_) => return Err(malformed),
    };
    let right = match read_i32(source, mar, "right") {
        Ok(v) => v,
        Err(_) => return Err(malformed),
    };
    let bottom = match read_i32(source, mar, "bottom") {
        Ok(v) => v,
        Err(_) => return Err(malformed),
    };
    let left = match read_i32(source, mar, "left") {
        Ok(v) => v,
        Err(_) => return Err(malformed),
    };
    let orient = match size {
        Some(c) => source.attribute(c, "orient"),
        None => None,
    };
    let orientation = match orient {
        Some(v) => if crate::bytes::bytes_are(v.as_slice(), "landscape") {
            PageOrientation::Landscape
        } else {
            PageOrientation::Portrait
        },
        None => match (w, h) {
            (Some(a), Some(b)) => if a > b {
                PageOrientation::Landscape
            } else {
                PageOrientation::Portrait
            },
            _ => PageOrientation::Portrait,
        },
    };
    let paper_size = match (w, h) {
        (Some(a), Some(b)) => paper_from_dimensions(a, b),
        _ => None,
    };
    Ok(
        PageSetupInspection {
            margins: PageMargins { top_twips: top, right_twips: right, bottom_twips: bottom, left_twips: left },
            paper_size,
            orientation,
        },
    )
}

/// A direct body paragraph carries its own section properties.
pub open spec fn paragraph_section(d: &SourceDocument, p: NodeId) -> bool {
    exists|k: int|
        0 <= k < d.spec_children(p.0 as int).len() && is_word(d, (#[trigger] d.spec_children(p.0 as int)[k]).0 as int, "pPr".spec_bytes())
            && spec_child(d, d.spec_children(p.0 as int)[k].0 as int, "sectPr".spec_bytes()) is Some
}

/// The one section of a single-section main document: its body's section properties,
/// which must be the body's last child and carry no tracked change. Documents with
/// section breaks in paragraphs, or more than one body section, are not supported.
pub open spec fn spec_main_section(d: &SourceDocument, allow_missing: bool) -> Result<NodeId, FailureCode> {
    match spec_body(d) {
        Err(_) => Err(FailureCode::DocumentInvalid),
        Ok(body) => {
            let kids = d.spec_children(body.0 as int);
            let sections = named_among(d, kids, "sectPr".spec_bytes(), "sectPr".spec_bytes());
            let paragraphs = named_among(d, kids, "p".spec_bytes(), "p".spec_bytes());
            if sections.len() > 1 || exists|k: int| 0 <= k < paragraphs.len() && paragraph_section(d, #[trigger] paragraphs[k]) {
                Err(FailureCode::UnsupportedOperation)
            } else if sections.len() == 1 {
                if kids.last() != sections[0] {
                    Err(FailureCode::UnsupportedOperation)
                } else if spec_child(d, sections[0].0 as int, "sectPrChange".spec_bytes()) is Some {
                    Err(FailureCode::UnsupportedOperation)
                } else {
                    Ok(sections[0])
                }
            } else if allow_missing {
                Err(FailureCode::UnsupportedOperation)
            } else {
                Err(FailureCode::TargetNotFound)
            }
        },
    }
}

pub fn has_paragraph_section(source: &SourceDocument, p: NodeId) -> (r: bool)
    requires
        source.wf(),
        source.valid_id(p),
    ensures
        r == paragraph_section(source, p),
{
    let kids = source.children(p);
    let _end = source.subtree_end(p);
    let mut k: usize = 0;
    while k < kids.len()
        invariant
            source.wf(),
            kids@ == source.spec_children(p.0 as int),
            forall|j: int| 0 <= j < kids@.len() ==> source.valid_id(#[trigger] kids@[j]),
            k <= kids@.len(),
            forall|j: int| 0 <= j < k ==> !(is_word(source, (#[trigger] kids@[j]).0 as int, "pPr".spec_bytes())
                && spec_child(source, kids@[j].0 as int, "sectPr".spec_bytes()) is Some),
        decreases kids@.len() - k,
    {
        let c = kids[k];
        if crate::wordml::word(source, c, "pPr") && child(source, c, "sectPr").is_some() {
            return true;
        }
        k += 1;
    }
    false
}

pub fn main_section(source: &SourceDocument, allow_missing: bool) -> (r: Result<NodeId, OperationFailure>)
    requires
        source.wf(),
    ensures
        match r {
            Ok(s) => spec_main_section(source, allow_missing) == Ok::<NodeId, FailureCode>(s) && source.valid_id(s),
            Err(e) => spec_main_section(source, allow_missing) == Err::<NodeId, FailureCode>(e.code),
        },
{
    let (body, _blocks) = direct_body_blocks(source)?;
    let sections = children_named(source, body, "sectPr", "sectPr");
    let paragraphs = children_named(source, body, "p", "p");
    let mut k: usize = 0;
    while k < paragraphs.len()
        invariant
            source.wf(),
            forall|j: int| 0 <= j < paragraphs@.len() ==> source.valid_id(#[trigger] paragraphs@[j]),
            paragraphs@ == named_among(source, source.spec_children(body.0 as int), "p".spec_bytes(), "p".spec_bytes()),
            spec_body(source) == Ok::<NodeId, crate::wordml::SemanticError>(body),
            k <= paragraphs@.len(),
            forall|j: int| 0 <= j < k ==> !paragraph_section(source, #[trigger] paragraphs@[j]),
        decreases paragraphs@.len() - k,
    {
        if has_paragraph_section(source, paragraphs[k]) {
            proof {
                assert(paragraph_section(source, paragraphs@[k as int]));
            }
            return Err(unsupported("set_page_setup supports only one terminal main-document section"));
        }
        k += 1;
    }
    if sections.len() > 1 {
        return Err(unsupported("set_page_setup supports only one terminal main-document section"));
    }
    if sections.len() == 1 {
        let section = sections[0];
        let kids = source.children(body);
        let _end = source.subtree_end(body);
        proof {
            crate::source::lemma_child_listed(source, body.0 as int, section.0 as int);
        }
        if kids[kids.len() - 1] != section {
            return Err(unsupported("set_page_setup requires terminal body section properties"));
        }
        if child(source, section, "sectPrChange").is_some() {
            return Err(unsupported("set_page_setup does not edit tracked section properties"));
        }
        return Ok(section);
    }
    if allow_missing {
        return Err(unsupported("set_page_setup requires existing terminal section properties"));
    }
    Err(OperationFailure::failed(FailureCode::TargetNotFound, "document has no effective page setup"))
}

/// Inspects the effective page layout of the main document.
pub fn inspect_page_setup(source: &SourceDocument) -> (r: Result<PageSetupInspection, OperationFailure>)
    requires
        source.wf(),
    ensures
        match r {
            Ok(p) => spec_main_section(source, false) matches Ok(s) && spec_page_setup_from(source, s.0 as int)
                == Ok::<PageSetupInspection, FailureCode>(p),
            Err(e) => match spec_main_section(source, false) {
                Err(c) => c == e.code,
                Ok(s) => spec_page_setup_from(source, s.0 as int) == Err::<PageSetupInspection, FailureCode>(e.code),
            },
        },
{
    let section = main_section(source, false)?;
    page_setup_from_section(source, section)
}

/// The merged margins of a page-setup change: each requested margin, else the current
/// one, else one inch; refused unless all lie in `0..=31680` twips.
pub open spec fn pick(requested: Option<i32>, current: Option<i32>) -> i32 {
    match requested {
        Some(v) => v,
        None => match current {
            Some(v) => v,
            None => 1440,
        },
    }
}

pub open spec fn spec_merged(current: PageMargins, requested: Option<PageMargins>) -> PageMargins {
    let q = match requested {
        Some(m) => m,
        None => PageMargins { top_twips: None, right_twips: None, bottom_twips: None, left_twips: None },
    };
    PageMargins {
        top_twips: Some(pick(q.top_twips, current.top_twips)),
        right_twips: Some(pick(q.right_twips, current.right_twips)),
        bottom_twips: Some(pick(q.bottom_twips, current.bottom_twips)),
        left_twips: Some(pick(q.left_twips, current.left_twips)),
    }
}

pub open spec fn margin_ok(v: Option<i32>) -> bool {
    match v {
        Some(x) => 0 <= x <= 31680,
        None => true,
    }
}

fn pick_margin(requested: Option<i32>, current: Option<i32>) -> (r: i32)
    ensures
        r == pick(requested, current),
{
    match requested {
        Some(v) => v,
        None => match current {
            Some(v) => v,
            None => DEFAULT_MARGIN_TWIPS,
        },
    }
}

pub fn merged_margins(current: PageMargins, requested: Option<PageMargins>) -> (r: Result<PageMargins, OperationFailure>)
    ensures
        ({
            let m = spec_merged(current, requested);
            let ok = margin_ok(m.top_twips) && margin_ok(m.right_twips) && margin_ok(m.bottom_twips)
                && margin_ok(m.left_twips);
            match r {
                Ok(x) => ok && x == m,
                Err(e) => !ok && e.code == FailureCode::InvalidOperation,
            }
        }),
{
    let q = match requested {
        Some(m) => m,
        None => PageMargins { top_twips: None, right_twips: None, bottom_twips: None, left_twips: None },
    };
    let top = pick_margin(q.top_twips, current.top_twips);
    let right = pick_margin(q.right_twips, current.right_twips);
    let bottom = pick_margin(q.bottom_twips, current.bottom_twips);
    let left = pick_margin(q.left_twips, current.left_twips);
    if top < 0 || top > MAX_MARGIN_TWIPS || right < 0 || right > MAX_MARGIN_TWIPS || bottom < 0 || bottom
        > MAX_MARGIN_TWIPS || left < 0 || left > MAX_MARGIN_TWIPS {
        return Err(OperationFailure::failed(FailureCode::InvalidOperation, "page margins must be between 0 and 31680 twips"));
    }
    Ok(PageMargins { top_twips: Some(top), right_twips: Some(right), bottom_twips: Some(bottom), left_twips: Some(left) })
}

/// The width and height of a `w:pgSz`, both required.
pub fn page_dimensions(source: &SourceDocument, size: NodeId) -> (r: Result<(u32, u32), OperationFailure>)
    requires
        source.wf(),
        source.valid_id(size),
    ensures
        match r {
            Ok((w, h)) => number_u32(source, Some(size), "w".spec_bytes()) == Ok::<Option<u32>, ()>(Some(w))
                && number_u32(source, Some(size), "h".spec_bytes()) == Ok::<Option<u32>, ()>(Some(h)),
            Err(e) => e.code == FailureCode::UnsupportedOperation && !(number_u32(source, Some(size), "w".spec_bytes()) matches Ok(Some(_))
                && number_u32(source, Some(size), "h".spec_bytes()) matches Ok(Some(_))),
        },
{
    let w = match read_u32(source, Some(size), "w") {
        Ok(Some(v)) => v,
        _ => return Err(unsupported("set_page_setup requires complete page dimensions")),
    };
    let h = match read_u32(source, Some(size), "h") {
        Ok(Some(v)) => v,
        _ => return Err(unsupported("set_page_setup requires complete page dimensions")),
    };
    Ok((w, h))
}

/// The page size a change asks for, from the current size and orientation: a requested
/// paper replaces the size; a change from landscape turns the current size; then the
/// size is turned to match the resulting orientation.
pub open spec fn target_size(current: (u32, u32), before: PageOrientation, op: SetPageSetup) -> (u32, u32) {
    let orientation = match op.orientation {
        Some(o) => o,
        None => before,
    };
    let (w, h) = match op.paper_size {
        Some(p) => spec_paper_dimensions(p),
        None => if orientation != before && before == PageOrientation::Landscape {
            (current.1, current.0)
        } else {
            current
        },
    };
    if orientation == PageOrientation::Landscape && w < h {
        (h, w)
    } else if orientation == PageOrientation::Portrait && w > h {
        (h, w)
    } else {
        (w, h)
    }
}

/// The written size is turned the way the resulting orientation says, and keeps a
/// requested paper size.
pub proof fn lemma_target_size(current: (u32, u32), before: PageOrientation, op: SetPageSetup)
    ensures
        ({
            let (w, h) = target_size(current, before, op);
            let orientation = match op.orientation {
                Some(o) => o,
                None => before,
            };
            &&& orientation == PageOrientation::Landscape ==> w >= h
            &&& orientation == PageOrientation::Portrait ==> w <= h
            &&& op.paper_size matches Some(p) ==> spec_paper(w, h) == Some(p)
        }),
{
}

/// ` name="value"` with the attribute prefix `a`.
pub open spec fn attribute_markup(a: Seq<u8>, name: Seq<u8>, value: Seq<u8>) -> Seq<u8> {
    seq![0x20u8] + a + name + seq![0x3du8, 0x22u8] + value + seq![0x22u8]
}

pub fn push_attribute(out: &mut Vec<u8>, a: &[u8], name: &str, value: &[u8])
    ensures
        final(out)@ == old(out)@ + attribute_markup(a@, name.spec_bytes(), value@),
{
    out.push(0x20u8);
    push_bytes(out, a);
    push_str(out, name);
    out.push(0x3du8);
    out.push(0x22u8);
    push_bytes(out, value);
    out.push(0x22u8);
    assert(out@ =~= old(out)@ + attribute_markup(a@, name.spec_bytes(), value@));
}

pub open spec fn attr_prefix_of(prefix: Seq<u8>) -> Seq<u8> {
    if prefix.len() == 0 {
        Seq::<u8>::empty()
    } else {
        prefix + seq![0x3au8]
    }
}

pub open spec fn orientation_bytes(o: PageOrientation) -> Seq<u8> {
    match o {
        PageOrientation::Portrait => "portrait".spec_bytes(),
        PageOrientation::Landscape => "landscape".spec_bytes(),
    }
}

/// Orientation is written by its literal name, `portrait` or `landscape`; a page size
/// whose `orient` is `landscape` reads as landscape, and any other `orient` value as
/// portrait.
pub proof fn law_orientation_names(d: &SourceDocument, section: int)
    ensures
        orientation_bytes(PageOrientation::Portrait) == "portrait".spec_bytes(),
        orientation_bytes(PageOrientation::Landscape) == "landscape".spec_bytes(),
        spec_page_setup_from(d, section) matches Ok(p) ==> {
            let size = spec_child(d, section, "pgSz".spec_bytes());
            &&& attr_of(d, size, "orient".spec_bytes()) == Some("landscape".spec_bytes()) ==> p.orientation == PageOrientation::Landscape
            &&& (attr_of(d, size, "orient".spec_bytes()) matches Some(v) && v != "landscape".spec_bytes()) ==> p.orientation
                == PageOrientation::Portrait
        },
{
}

/// The `w:pgSz` written for a size and orientation.
pub open spec fn size_markup(prefix: Seq<u8>, w: u32, h: u32, o: PageOrientation) -> Seq<u8> {
    let a = attr_prefix_of(prefix);
    seq![0x3cu8] + qualified(prefix, "pgSz".spec_bytes()) + attribute_markup(a, "w".spec_bytes(), decimal_digits(w as nat))
        + attribute_markup(a, "h".spec_bytes(), decimal_digits(h as nat)) + attribute_markup(a, "orient".spec_bytes(), orientation_bytes(o))
        + seq![0x2fu8, 0x3eu8]
}

/// The written `w:pgSz` carries the width in `w`, the height in `h` and the orientation
/// in `orient`.
pub proof fn law_size_written(prefix: Seq<u8>, w: u32, h: u32, o: PageOrientation)
    ensures
        size_markup(prefix, w, h, o) == seq![0x3cu8] + qualified(prefix, "pgSz".spec_bytes())
            + attribute_markup(attr_prefix_of(prefix), "w".spec_bytes(), decimal_digits((w) as nat))
            + attribute_markup(attr_prefix_of(prefix), "h".spec_bytes(), decimal_digits((h) as nat))
            + attribute_markup(attr_prefix_of(prefix), "orient".spec_bytes(), orientation_bytes(o)) + seq![0x2fu8, 0x3eu8],
{
}

/// The header, footer and gutter distances of an existing `w:pgMar`, kept as written.
pub open spec fn preserved_markup(d: &SourceDocument, margin: Option<NodeId>, prefix: Seq<u8>) -> Seq<u8> {
    let a = attr_prefix_of(prefix);
    let one = |key: Seq<u8>| match attr_of(d, margin, key) {
        Some(v) => attribute_markup(a, key, v),
        None => Seq::<u8>::empty(),
    };
    one("header".spec_bytes()) + one("footer".spec_bytes()) + one("gutter".spec_bytes())
}

/// The `w:pgMar` written for margins, keeping the distances of the existing one.
pub open spec fn margin_markup(prefix: Seq<u8>, m: PageMargins, kept: Seq<u8>) -> Seq<u8> {
    let a = attr_prefix_of(prefix);
    seq![0x3cu8] + qualified(prefix, "pgMar".spec_bytes()) + attribute_markup(a, "top".spec_bytes(), signed_digits(m.top_twips->0 as int))
        + attribute_markup(a, "right".spec_bytes(), signed_digits(m.right_twips->0 as int))
        + attribute_markup(a, "bottom".spec_bytes(), signed_digits(m.bottom_twips->0 as int))
        + attribute_markup(a, "left".spec_bytes(), signed_digits(m.left_twips->0 as int)) + kept
        + seq![0x20u8, 0x2fu8, 0x3eu8]
}

/// Each margin of a section's page setup is read from the `w:pgMar` attribute of the
/// same name: top from `top`, right from `right`, bottom from `bottom`, left from `left`.
pub proof fn law_margins_read(d: &SourceDocument, section: int)
    ensures
        spec_page_setup_from(d, section) matches Ok(p) ==> {
            let mar = spec_child(d, section, "pgMar".spec_bytes());
            &&& number_i32(d, mar, "top".spec_bytes()) == Ok::<Option<i32>, ()>(p.margins.top_twips)
            &&& number_i32(d, mar, "right".spec_bytes()) == Ok::<Option<i32>, ()>(p.margins.right_twips)
            &&& number_i32(d, mar, "bottom".spec_bytes()) == Ok::<Option<i32>, ()>(p.margins.bottom_twips)
            &&& number_i32(d, mar, "left".spec_bytes()) == Ok::<Option<i32>, ()>(p.margins.left_twips)
            &&& forall|a: u32, b: u32|
                number_u32(d, spec_child(d, section, "pgSz".spec_bytes()), "w".spec_bytes()) == Ok::<Option<u32>, ()>(Some(a))
                    && number_u32(d, spec_child(d, section, "pgSz".spec_bytes()), "h".spec_bytes()) == Ok::<Option<u32>, ()>(Some(b))
                    && attr_of(d, spec_child(d, section, "pgSz".spec_bytes()), "orient".spec_bytes()) is None ==> (p.orientation
                    == PageOrientation::Landscape <==> a > b)
        },
{
}

/// The written `w:pgMar` carries each margin in the attribute of the same name, in the
/// order top, right, bottom, left, followed by the attributes it keeps; each attribute is
/// written as ` name="value"` with the margin's decimal value.
pub proof fn law_margins_written(prefix: Seq<u8>, m: PageMargins, kept: Seq<u8>)
    ensures
        ({
            let a = attr_prefix_of(prefix);
            margin_markup(prefix, m, kept) == seq![0x3cu8] + qualified(prefix, "pgMar".spec_bytes())
                + attribute_markup(a, "top".spec_bytes(), signed_digits((m.top_twips->0) as int))
                + attribute_markup(a, "right".spec_bytes(), signed_digits((m.right_twips->0) as int))
                + attribute_markup(a, "bottom".spec_bytes(), signed_digits((m.bottom_twips->0) as int))
                + attribute_markup(a, "left".spec_bytes(), signed_digits((m.left_twips->0) as int)) + kept
                + seq![0x20u8, 0x2fu8, 0x3eu8]
        }),
        forall|a: Seq<u8>, name: Seq<u8>, value: Seq<u8>|
            #[trigger] attribute_markup(a, name, value) == seq![0x20u8] + a + name + seq![0x3du8, 0x22u8] + value + seq![0x22u8],
{
}

pub fn preserved_margin_attributes(source: &SourceDocument, margin: Option<NodeId>, prefix: &[u8]) -> (r: Vec<u8>)
    requires
        source.wf(),
        margin matches Some(c) ==> source.valid_id(c),
    ensures
        r@ == preserved_markup(source, margin, prefix@),
{
    let a = attr_prefix(prefix);
    let mut out: Vec<u8> = Vec::new();
    match margin {
        Some(c) => {
            match source.attribute(c, "header") {
                Some(v) => push_attribute(&mut out, a.as_slice(), "header", v.as_slice()),
                None => {},
            }
            match source.attribute(c, "footer") {
                Some(v) => push_attribute(&mut out, a.as_slice(), "footer", v.as_slice()),
                None => {},
            }
            match source.attribute(c, "gutter") {
                Some(v) => push_attribute(&mut out, a.as_slice(), "gutter", v.as_slice()),
                None => {},
            }
        },
        None => {},
    }
    proof {
        assert(out@ =~= preserved_markup(source, margin, prefix@));
    }
    out
}

fn size_xml(prefix: &[u8], w: u32, h: u32, o: PageOrientation) -> (r: Vec<u8>)
    ensures
        r@ == size_markup(prefix@, w, h, o),
{
    let a = attr_prefix(prefix);
    let name = qualify(prefix, "pgSz");
    let mut out: Vec<u8> = Vec::new();
    out.push(0x3cu8);
    push_bytes(&mut out, name.as_slice());
    push_attribute(&mut out, a.as_slice(), "w", format_u64(w as u64).as_slice());
    push_attribute(&mut out, a.as_slice(), "h", format_u64(h as u64).as_slice());
    let o_name = orientation_name(o);
    push_attribute(&mut out, a.as_slice(), "orient", o_name.as_bytes());
    out.push(0x2fu8);
    out.push(0x3eu8);
    proof {
        assert(o_name.spec_bytes() == orientation_bytes(o));
        assert(out@ =~= size_markup(prefix@, w, h, o));
    }
    out
}

fn margin_xml(prefix: &[u8], m: PageMargins, kept: &[u8]) -> (r: Vec<u8>)
    requires
        m.top_twips is Some,
        m.right_twips is Some,
        m.bottom_twips is Some,
        m.left_twips is Some,
    ensures
        r@ == margin_markup(prefix@, m, kept@),
{
    let a = attr_prefix(prefix);
    let name = qualify(prefix, "pgMar");
    let mut out: Vec<u8> = Vec::new();
    out.push(0x3cu8);
    push_bytes(&mut out, name.as_slice());
    push_attribute(&mut out, a.as_slice(), "top", format_i64(m.top_twips.unwrap() as i64).as_slice());
    push_attribute(&mut out, a.as_slice(), "right", format_i64(m.right_twips.unwrap() as i64).as_slice());
    push_attribute(&mut out, a.as_slice(), "bottom", format_i64(m.bottom_twips.unwrap() as i64).as_slice());
    push_attribute(&mut out, a.as_slice(), "left", format_i64(m.left_twips.unwrap() as i64).as_slice());
    push_bytes(&mut out, kept);
    out.push(0x20u8);
    out.push(0x2fu8);
    out.push(0x3eu8);
    proof {
        assert(out@ =~= margin_markup(prefix@, m, kept@));
    }
    out
}

/// Where a missing section property is added: before the section's closing tag.
pub open spec fn section_end_insertion(d: &SourceDocument, section: NodeId, prefix: Seq<u8>) -> int {
    d.spec_span(section.0 as int).end - close_tag(qualified(prefix, "sectPr".spec_bytes())).len()
}

/// A patch that replaces an existing section property, or adds it before the section's
/// closing tag.
pub open spec fn property_patch_ok(d: &SourceDocument, section: NodeId, prefix: Seq<u8>, existing: Option<NodeId>, replacement: Seq<u8>, p: Patch) -> bool {
    &&& p.replacement@ == replacement
    &&& match existing {
        Some(n) => p.span == d.spec_span(n.0 as int),
        None => p.span.start == section_end_insertion(d, section, prefix) && p.span.end == p.span.start,
    }
}

pub fn section_property_patch(source: &SourceDocument, section: NodeId, prefix: &[u8], existing: Option<NodeId>, replacement: Vec<u8>) -> (r: Result<Patch, OperationFailure>)
    requires
        source.wf(),
        source.valid_id(section),
        existing matches Some(n) ==> source.valid_id(n),
    ensures
        match r {
            Ok(p) => property_patch_ok(source, section, prefix@, existing, replacement@, p)
                && p.span.start <= p.span.end <= source.bytes@.len(),
            Err(e) => existing is None && e.code == FailureCode::UnsupportedOperation
                && source.spec_span(section.0 as int).end - source.spec_span(section.0 as int).start
                < close_tag(qualified(prefix@, "sectPr".spec_bytes())).len(),
        },
{
    match existing {
        Some(n) => {
            let span = source.span(n);
            Ok(Patch { span, replacement })
        },
        None => {
            let span = source.span(section);
            let name = qualify(prefix, "sectPr");
            let width = span.end - span.start;
            if width < 3 || width - 3 < name.len() {
                return Err(unsupported("section properties have no closing tag"));
            }
            let at = span.end - 3 - name.len();
            Ok(Patch { span: SourceSpan { start: at, end: at }, replacement })
        },
    }
}

/// The current page size a change starts from: the section's `w:pgSz`, which must give
/// both dimensions, else Letter.
pub open spec fn current_size(d: &SourceDocument, size: Option<NodeId>) -> Option<(u32, u32)> {
    match size {
        None => Some((12240u32, 15840u32)),
        Some(_) => match (number_u32(d, size, "w".spec_bytes()), number_u32(d, size, "h".spec_bytes())) {
            (Ok(Some(a)), Ok(Some(b))) => Some((a, b)),
            _ => None,
        },
    }
}

/// The patches of a page-setup change: a new `w:pgSz` when the paper or the orientation
/// changes, then a new `w:pgMar` when the margins change; each replaces the existing
/// element or is added before the section's closing tag.
#[verifier::opaque]
pub open spec fn setup_patches_ok(d: &SourceDocument, op: SetPageSetup, s: NodeId, prefix: Seq<u8>, before: PageSetupInspection, current: (u32, u32), ps: Seq<Patch>) -> bool {
    let size = spec_child(d, s.0 as int, "pgSz".spec_bytes());
    let mar = spec_child(d, s.0 as int, "pgMar".spec_bytes());
    let o = match op.orientation {
        Some(x) => x,
        None => before.orientation,
    };
    let (w, h) = target_size(current, before.orientation, op);
    let m = spec_merged(before.margins, op.margins);
    let size_change = op.paper_size is Some || op.orientation is Some;
    let margin_change = op.margins is Some;
    &&& ps.len() == (if size_change { 1int } else { 0int }) + (if margin_change { 1int } else { 0int })
    &&& size_change ==> property_patch_ok(d, s, prefix, size, size_markup(prefix, w, h, o), ps[0])
    &&& margin_change ==> property_patch_ok(d, s, prefix, mar, margin_markup(prefix, m, preserved_markup(d, mar, prefix)), ps[ps.len() - 1])
}

/// The page setup read back from an edited part gives what was asked for.
pub open spec fn reads_back(out: Seq<u8>, op: SetPageSetup, o: PageOrientation, m: PageMargins) -> bool {
    exists|d2: SourceDocument| #![trigger d2.bytes] d2.wf() && d2.bytes@ == out && d2.faithful() && setup_matches(&d2, op, o, m)
}

/// The part's page setup has the requested paper, orientation and margins.
pub open spec fn setup_matches(d: &SourceDocument, op: SetPageSetup, o: PageOrientation, m: PageMargins) -> bool {
    match spec_main_section(d, false) {
        Ok(s) => match spec_page_setup_from(d, s.0 as int) {
            Ok(after) => (op.paper_size is Some ==> after.paper_size == op.paper_size)
                && (op.orientation is Some ==> after.orientation == o)
                && (op.margins is Some ==> after.margins == m),
            Err(_) => false,
        },
        Err(_) => false,
    }
}

/// The edited part parses, and its page setup has the requested paper, orientation and
/// margins.
#[verifier::opaque]
pub open spec fn setup_reads_all(out: Seq<u8>, op: SetPageSetup, o: PageOrientation, m: PageMargins) -> bool {
    &&& crate::source::accepts(out)
    &&& forall|d2: SourceDocument| #![trigger d2.bytes] d2.wf() && d2.bytes@ == out && d2.faithful() ==> setup_matches(&d2, op, o, m)
}

/// A section property can be replaced, or added before the section's closing tag.
pub open spec fn property_placeable(d: &SourceDocument, s: NodeId, prefix: Seq<u8>, existing: Option<NodeId>) -> bool {
    existing is Some || d.spec_span(s.0 as int).end - d.spec_span(s.0 as int).start >= close_tag(
        qualified(prefix, "sectPr".spec_bytes()),
    ).len()
}

/// The merged margins are each within 0..=31680 twips.
pub open spec fn margins_in_range(m: PageMargins) -> bool {
    margin_ok(m.top_twips) && margin_ok(m.right_twips) && margin_ok(m.bottom_twips) && margin_ok(m.left_twips)
}

/// A page-setup change stops before it patches: nothing is asked, the section or its
/// setup does not read, it has no prefix or no readable paper size, the merged margins
/// are out of range, or a new property cannot be placed.
#[verifier::opaque]
pub open spec fn setup_blocked(d: &SourceDocument, op: SetPageSetup) -> bool {
    if op.margins is None && op.paper_size is None && op.orientation is None {
        true
    } else {
        match spec_main_section(d, true) {
            Err(_) => true,
            Ok(s) => match (spec_page_setup_from(d, s.0 as int), spec_word_prefix(d, s.0 as int, "sectPr".spec_bytes())) {
                (Ok(before), Some(prefix)) => {
                    ||| current_size(d, spec_child(d, s.0 as int, "pgSz".spec_bytes())) is None
                    ||| !margins_in_range(spec_merged(before.margins, op.margins))
                    ||| (op.paper_size is Some || op.orientation is Some) && !property_placeable(d, s, prefix, spec_child(d, s.0 as int, "pgSz".spec_bytes()))
                    ||| op.margins is Some && !property_placeable(d, s, prefix, spec_child(d, s.0 as int, "pgMar".spec_bytes()))
                },
                _ => true,
            },
        }
    }
}

/// A page-setup change patched, in the order it applies them, with patches that overlap
/// or an edited part that does not read back with the requested setup. The patches and
/// their order are fixed by the section and the request (`setup_patches_ok`,
/// `stable_order`).
#[verifier::opaque]
pub open spec fn setup_misapplied(d: &SourceDocument, op: SetPageSetup) -> bool {
    exists|s: NodeId, prefix: Seq<u8>, before: PageSetupInspection, current: (u32, u32), ps: Seq<Patch>, order: Seq<usize>|
        #[trigger] setup_misapplied_with(d, op, s, prefix, before, current, ps, order)
}

/// `s` is the main section, read as `before`, with its `w:` prefix and current page
/// size; the patches `ps`, applied in `order`, are those of the page-setup change, and
/// they overlap or give an edited part that does not read back with the requested setup.
#[verifier::opaque]
pub open spec fn setup_misapplied_with(
    d: &SourceDocument,
    op: SetPageSetup,
    s: NodeId,
    prefix: Seq<u8>,
    before: PageSetupInspection,
    current: (u32, u32),
    ps: Seq<Patch>,
    order: Seq<usize>,
) -> bool {
    &&& spec_main_section(d, true) == Ok::<NodeId, FailureCode>(s)
    &&& spec_page_setup_from(d, s.0 as int) == Ok::<PageSetupInspection, FailureCode>(before)
    &&& spec_word_prefix(d, s.0 as int, "sectPr".spec_bytes()) == Some(prefix)
    &&& current_size(d, spec_child(d, s.0 as int, "pgSz".spec_bytes())) == Some(current)
    &&& setup_patches_ok(d, op, s, prefix, before, current, ps)
    &&& stable_order(order, span_keys(ps), ps.len() as int)
    &&& !crate::mutation::common::disjoint(arranged(ps, order)) || !setup_reads_all(
        patched(d.bytes@, arranged(ps, order)),
        op,
        match op.orientation {
            Some(x) => x,
            None => before.orientation,
        },
        spec_merged(before.margins, op.margins),
    )
}

proof fn lemma_setup_blocked(d: &SourceDocument, op: SetPageSetup)
    requires
        (op.margins is None && op.paper_size is None && op.orientation is None) || (spec_main_section(d, true) matches Ok(s)
            ==> (spec_page_setup_from(d, s.0 as int) is Err || spec_word_prefix(d, s.0 as int, "sectPr".spec_bytes()) is None)),
    ensures
        setup_blocked(d, op),
{
    reveal(setup_blocked);
}

proof fn lemma_setup_late(d: &SourceDocument, op: SetPageSetup, s: NodeId, before: PageSetupInspection, prefix: Seq<u8>)
    requires
        spec_main_section(d, true) == Ok::<NodeId, FailureCode>(s),
        spec_page_setup_from(d, s.0 as int) == Ok::<PageSetupInspection, FailureCode>(before),
        spec_word_prefix(d, s.0 as int, "sectPr".spec_bytes()) == Some(prefix),
        ({
            ||| current_size(d, spec_child(d, s.0 as int, "pgSz".spec_bytes())) is None
            ||| !margins_in_range(spec_merged(before.margins, op.margins))
            ||| (op.paper_size is Some || op.orientation is Some) && !property_placeable(d, s, prefix, spec_child(d, s.0 as int, "pgSz".spec_bytes()))
            ||| op.margins is Some && !property_placeable(d, s, prefix, spec_child(d, s.0 as int, "pgMar".spec_bytes()))
        }),
    ensures
        setup_blocked(d, op),
{
    reveal(setup_blocked);
}

proof fn lemma_setup_misapplied(
    d: &SourceDocument,
    op: SetPageSetup,
    s: NodeId,
    prefix: Seq<u8>,
    before: PageSetupInspection,
    current: (u32, u32),
    ps: Seq<Patch>,
    order: Seq<usize>,
)
    requires
        setup_misapplied_with(d, op, s, prefix, before, current, ps, order),
    ensures
        setup_misapplied(d, op),
{
    reveal(setup_misapplied);
    assert(setup_misapplied_with(d, op, s, prefix, before, current, ps, order));
}

/// Applies the patches of a page-setup change and reads the edited part back.
fn patch_and_check(
    source: &SourceDocument,
    patches: Vec<Patch>,
    operation: &SetPageSetup,
    orientation: PageOrientation,
    margins: PageMargins,
) -> (r: Result<Vec<u8>, OperationFailure>)
    requires
        crate::mutation::common::in_bounds(patches@, source.bytes@.len() as int),
    ensures
        match r {
            Ok(out) => (exists|order: Seq<usize>|
                stable_order(order, span_keys(patches@), patches@.len() as int) && out@ == patched(
                    source.bytes@,
                    arranged(patches@, order),
                )) && reads_back(out@, *operation, orientation, margins),
            Err(_) => exists|order: Seq<usize>|
                #[trigger] stable_order(order, span_keys(patches@), patches@.len() as int) && (!crate::mutation::common::disjoint(
                    arranged(patches@, order),
                ) || !setup_reads_all(patched(source.bytes@, arranged(patches@, order)), *operation, orientation, margins)),
        },
{
    let ghost ps = patches@;
    let out = apply_patches(source, patches)?;
    let ghost order = choose|order: Seq<usize>| stable_order(order, span_keys(ps), ps.len() as int)
        && crate::mutation::common::disjoint(arranged(ps, order)) && out@ == patched(source.bytes@, arranged(ps, order));
    check_setup(&out, operation, orientation, margins)?;
    Ok(out)
}

/// Reads an edited part back and checks its page setup./// Reads an edited part back and checks its page setup.
fn check_setup(out: &Vec<u8>, operation: &SetPageSetup, orientation: PageOrientation, margins: PageMargins) -> (r: Result<(), OperationFailure>)
    ensures
        r is Ok ==> reads_back(out@, *operation, orientation, margins),
        r is Err ==> !setup_reads_all(out@, *operation, orientation, margins),
{
    reveal(setup_reads_all);
    let reread = match SourceDocument::parse(crate::bytes::copy_bytes(out.as_slice())) {
        Ok(d) => d,
        Err(_) => return Err(document_invalid()),
    };
    assert(reread.bytes == reread.bytes);
    let after = match inspect_page_setup(&reread) {
        Ok(a) => a,
        Err(e) => {
            assert(!setup_matches(&reread, *operation, orientation, margins));
            return Err(e);
        },
    };
    let paper_ok = match operation.paper_size {
        Some(p) => match after.paper_size {
            Some(q) => p == q,
            None => false,
        },
        None => true,
    };
    let orientation_ok = operation.orientation.is_none() || after.orientation == orientation;
    let margins_ok = operation.margins.is_none() || (after.margins.top_twips == margins.top_twips
        && after.margins.right_twips == margins.right_twips && after.margins.bottom_twips
        == margins.bottom_twips && after.margins.left_twips == margins.left_twips);
    if !(paper_ok && orientation_ok && margins_ok) {
        assert(!setup_matches(&reread, *operation, orientation, margins));
        return Err(OperationFailure::failed(FailureCode::DocumentInvalid, "output page setup does not match request"));
    }
    assert(setup_matches(&reread, *operation, orientation, margins));
    Ok(())
}

/// Changes margins, paper size or orientation of the single terminal section of the
/// main document, and returns the edited main part. Only the section's `w:pgSz` and
/// `w:pgMar` are rewritten; the edited part is read back and must give the requested
/// setup.
#[verifier::rlimit(100)]
#[verifier::spinoff_prover]
pub fn set_page_setup_to_vec(source: &SourceDocument, operation: &SetPageSetup) -> (r: Result<Vec<u8>, OperationFailure>)
    requires
        source.wf(),
    ensures
        operation.margins is None && operation.paper_size is None && operation.orientation is None
            ==> match r {
                Err(e) => e.code == FailureCode::InvalidOperation,
                Ok(_) => false,
            },
        !(operation.margins is None && operation.paper_size is None && operation.orientation is None) ==> (
            spec_main_section(source, true) matches Err(c) ==> r matches Err(e) && e.code == c),
        r is Err ==> setup_blocked(source, *operation) || setup_misapplied(source, *operation),
        r matches Ok(out) ==> {
            &&& spec_main_section(source, true) matches Ok(s)
            &&& spec_page_setup_from(source, s.0 as int) matches Ok(before)
            &&& spec_word_prefix(source, s.0 as int, "sectPr".spec_bytes()) matches Some(prefix)
            &&& current_size(source, spec_child(source, s.0 as int, "pgSz".spec_bytes())) matches Some(current)
            &&& exists|ps: Seq<Patch>, order: Seq<usize>|
                setup_patches_ok(source, *operation, s, prefix, before, current, ps) && stable_order(order, span_keys(ps), ps.len() as int)
                    && out@ == patched(source.bytes@, arranged(ps, order))
            &&& reads_back(out@, *operation, match operation.orientation {
                Some(x) => x,
                None => before.orientation,
            }, spec_merged(before.margins, operation.margins))
        },
{
    if operation.margins.is_none() && operation.paper_size.is_none() && operation.orientation.is_none() {
        proof {
            lemma_setup_blocked(source, *operation);
        }
        return Err(OperationFailure::failed(FailureCode::InvalidOperation, "set_page_setup requires at least one change"));
    }
    let section = match main_section(source, true) {
        Ok(x) => x,
        Err(e) => {
            proof {
                lemma_setup_blocked(source, *operation);
            }
            return Err(e);
        },
    };
    let before = match page_setup_from_section(source, section) {
        Ok(x) => x,
        Err(e) => {
            proof {
                lemma_setup_blocked(source, *operation);
            }
            return Err(e);
        },
    };
    let prefix = match word_prefix_for(source, section, "sectPr") {
        Ok(x) => x,
        Err(e) => {
            proof {
                lemma_setup_blocked(source, *operation);
            }
            return Err(e);
        },
    };
    let size_node = child(source, section, "pgSz");
    let margin_node = child(source, section, "pgMar");
    let (current_w, current_h) = match size_node {
        Some(n) => match page_dimensions(source, n) {
            Ok(x) => x,
            Err(e) => {
                proof {
                    lemma_setup_late(source, *operation, section, before, prefix@);
                }
                return Err(e);
            },
        },
        None => LETTER,
    };
    let orientation = match operation.orientation {
        Some(o) => o,
        None => before.orientation,
    };
    let (mut width, mut height) = match operation.paper_size {
        Some(paper) => paper_dimensions(paper),
        None => if orientation != before.orientation && before.orientation == PageOrientation::Landscape {
            (current_h, current_w)
        } else {
            (current_w, current_h)
        },
    };
    if orientation == PageOrientation::Landscape && width < height {
        let t = width;
        width = height;
        height = t;
    } else if orientation == PageOrientation::Portrait && width > height {
        let t = width;
        width = height;
        height = t;
    }
    let margins = match merged_margins(before.margins, operation.margins) {
        Ok(x) => x,
        Err(e) => {
            proof {
                lemma_setup_late(source, *operation, section, before, prefix@);
            }
            return Err(e);
        },
    };
    let ghost target = target_size((current_w, current_h), before.orientation, *operation);
    assert(width == target.0 && height == target.1);
    let size_replacement = size_xml(prefix.as_slice(), width, height, orientation);
    let kept = preserved_margin_attributes(source, margin_node, prefix.as_slice());
    let margin_replacement = margin_xml(prefix.as_slice(), margins, kept.as_slice());
    let mut patches: Vec<Patch> = Vec::new();
    if operation.paper_size.is_some() || operation.orientation.is_some() {
        let p = match section_property_patch(source, section, prefix.as_slice(), size_node, size_replacement) {
            Ok(x) => x,
            Err(e) => {
                proof {
                    lemma_setup_late(source, *operation, section, before, prefix@);
                }
                return Err(e);
            },
        };
        patches.push(p);
    }
    if operation.margins.is_some() {
        let p = match section_property_patch(source, section, prefix.as_slice(), margin_node, margin_replacement) {
            Ok(x) => x,
            Err(e) => {
                proof {
                    lemma_setup_late(source, *operation, section, before, prefix@);
                }
                return Err(e);
            },
        };
        patches.push(p);
    }
    proof {
        assert(setup_patches_ok(source, *operation, section, prefix@, before, (current_w, current_h), patches@)) by {
            reveal(setup_patches_ok);
        }
    }
    let ghost ps = patches@;
    let ghost cur = (current_w, current_h);
    let out = match patch_and_check(source, patches, operation, orientation, margins) {
        Ok(o) => o,
        Err(e) => {
            proof {
                let order = choose|order: Seq<usize>| #[trigger] stable_order(order, span_keys(ps), ps.len() as int)
                    && (!crate::mutation::common::disjoint(arranged(ps, order)) || !setup_reads_all(
                    patched(source.bytes@, arranged(ps, order)),
                    *operation,
                    orientation,
                    margins,
                ));
                assert(setup_misapplied_with(source, *operation, section, prefix@, before, cur, ps, order)) by {
                    reveal(setup_misapplied_with);
                }
                lemma_setup_misapplied(source, *operation, section, prefix@, before, cur, ps, order);
            }
            return Err(e);
        },
    };
    Ok(out)
}

} // verus!
