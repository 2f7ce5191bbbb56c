use vstd::prelude::*;
use vstd::string::StringSliceAdditionalSpecFns;

use crate::bytes::{bytes_are, copy_range, push_bytes, push_str, utf8_string};
use crate::escape::{escape, escaped};
use crate::header_footer::{reference_local, HeaderFooterKind, Relationship};
use crate::mutation::common::{
    close_tag, last_open_angle, needs_space_preservation, open_tag, push_close, push_open,
    qualified, qualify, requires_space_preservation, spec_word_prefix, word_prefix,
    word_prefix_for, Patch,
};
use crate::mutation::header_footer::{
    page_number_alignment, page_number_paragraph_alignment, root_name,
    simple_header_footer_paragraph_text, simple_paragraph_text,
};
use crate::mutation::header_footer_part::reference_name;
use crate::mutation::page_setup::attr_prefix_of;
use crate::numbers::{decimal_digits, format_u64, parse_u32, unsigned_value};
use crate::package::{last_slash, PackagePart};
use crate::protocol::{unsupported, FailureCode, OperationFailure};
use crate::source::{NodeId, SourceDocument, SourceSpan};
use crate::wordml::{child, is_word, spec_child, word};

verus! {

/// Where an element's closing tag starts: its last `<` after the start of its own tag;
/// `None` for an element that closes itself.
pub open spec fn end_tag_start(d: &SourceDocument, id: NodeId) -> Option<int> {
    last_open_angle(d.bytes@, d.spec_span(id.0 as int).start + 1, d.spec_span(id.0 as int).end as int)
}

proof fn lemma_last_open_angle_bounds(b: Seq<u8>, lo: int, hi: int)
    ensures
        last_open_angle(b, lo, hi) matches Some(p) ==> lo <= p < hi,
    decreases hi - lo,
{
    if hi > lo && b[hi - 1] != 0x3cu8 {
        lemma_last_open_angle_bounds(b, lo, hi - 1);
    }
}

pub fn closing_tag_start(source: &SourceDocument, id: NodeId) -> (r: Result<usize, OperationFailure>)
    requires
        source.wf(),
        source.valid_id(id),
    ensures
        match r {
            Ok(p) => end_tag_start(source, id) == Some(p as int) && p <= source.bytes@.len(),
            Err(e) => end_tag_start(source, id) is None && e.code == FailureCode::UnsupportedOperation,
        },
{
    let span = source.span(id);
    let bytes = source.original_bytes();
    if span.start >= span.end {
        return Err(unsupported("element has no closing tag"));
    }
    let lo = span.start + 1;
    let mut i = span.end;
    while i > lo
        invariant
            lo <= i <= span.end <= bytes@.len(),
            lo == span.start + 1,
            span == source.spec_span(id.0 as int),
            bytes@ == source.bytes@,
            last_open_angle(bytes@, lo as int, span.end as int) == last_open_angle(bytes@, lo as int, i as int),
        decreases i - lo,
    {
        if bytes[i - 1] == 0x3cu8 {
            return Ok(i - 1);
        }
        i -= 1;
    }
    Err(unsupported("element has no closing tag"))
}

/// The first of `kids[from..]` that is a simple text paragraph.
pub open spec fn first_text_paragraph(d: &SourceDocument, kids: Seq<NodeId>, from: int) -> Option<NodeId>
    decreases kids.len() - from,
{
    if from < 0 || from >= kids.len() {
        None
    } else if simple_paragraph_text(d, kids[from]) is Some {
        Some(kids[from])
    } else {
        first_text_paragraph(d, kids, from + 1)
    }
}

/// The first of `kids[from..]` that is a page-number paragraph.
pub open spec fn first_page_paragraph(d: &SourceDocument, kids: Seq<NodeId>, from: int) -> Option<NodeId>
    decreases kids.len() - from,
{
    if from < 0 || from >= kids.len() {
        None
    } else if page_number_paragraph_alignment(d, kids[from]) is Some {
        Some(kids[from])
    } else {
        first_page_paragraph(d, kids, from + 1)
    }
}

/// The root's first simple text paragraph.
pub fn header_footer_text_paragraph(source: &SourceDocument) -> (r: Option<NodeId>)
    requires
        source.wf(),
    ensures
        r == first_text_paragraph(source, source.spec_children(0), 0),
        r matches Some(p) ==> source.valid_id(p),
{
    let kids = source.children(source.root());
    let _end = source.subtree_end(source.root());
    proof {
        crate::source::lemma_children(source, 0);
    }
    let mut k: usize = 0;
    while k < kids.len()
        invariant
            source.wf(),
            kids@ == source.spec_children(0),
            forall|j: int| 0 <= j < kids@.len() ==> source.valid_id(#[trigger] kids@[j]),
            k <= kids@.len(),
            first_text_paragraph(source, kids@, 0) == first_text_paragraph(source, kids@, k as int),
        decreases kids@.len() - k,
    {
        if simple_header_footer_paragraph_text(source, kids[k]).is_some() {
            return Some(kids[k]);
        }
        k += 1;
    }
    None
}

/// The root's first page-number paragraph.
pub fn page_number_paragraph(source: &SourceDocument) -> (r: Option<NodeId>)
    requires
        source.wf(),
    ensures
        r == first_page_paragraph(source, source.spec_children(0), 0),
        r matches Some(p) ==> source.valid_id(p),
{
    let kids = source.children(source.root());
    let _end = source.subtree_end(source.root());
    proof {
        crate::source::lemma_children(source, 0);
    }
    let mut k: usize = 0;
    while k < kids.len()
        invariant
            source.wf(),
            kids@ == source.spec_children(0),
            forall|j: int| 0 <= j < kids@.len() ==> source.valid_id(#[trigger] kids@[j]),
            k <= kids@.len(),
            first_page_paragraph(source, kids@, 0) == first_page_paragraph(source, kids@, k as int),
        decreases kids@.len() - k,
    {
        if page_number_alignment(source, kids[k]).is_some() {
            return Some(kids[k]);
        }
        k += 1;
    }
    None
}

/// The `xml:space` attribute a text element needs for `text`.
pub open spec fn space_markup(text: Seq<char>) -> Seq<u8> {
    if needs_space_preservation(text) {
        " xml:space=\"preserve\"".spec_bytes()
    } else {
        seq![]
    }
}

/// `<t>text</t>` in the namespace written as `prefix`, markup characters escaped.
pub open spec fn text_element_markup(prefix: Seq<u8>, text: Seq<char>) -> Seq<u8> {
    let t = qualified(prefix, "t".spec_bytes());
    open_tag(t + space_markup(text)) + escaped(vstd::utf8::encode_utf8(text)) + close_tag(t)
}

/// A header or footer text element for text that begins or ends with white space
/// carries `xml:space="preserve"`.
pub proof fn law_text_element_space(prefix: Seq<u8>, text: Seq<char>)
    requires
        text.len() > 0,
        crate::mutation::common::plain_white_space(text[0]) || crate::mutation::common::plain_white_space(text.last()),
    ensures
        text_element_markup(prefix, text) == open_tag(qualified(prefix, "t".spec_bytes()) + " xml:space=\"preserve\"".spec_bytes())
            + escaped(vstd::utf8::encode_utf8(text)) + close_tag(qualified(prefix, "t".spec_bytes())),
{
}

/// `<p><r><t>text</t></r></p>` in the namespace written as `prefix`.
pub open spec fn text_paragraph_markup(prefix: Seq<u8>, text: Seq<char>) -> Seq<u8> {
    let p = qualified(prefix, "p".spec_bytes());
    let r = qualified(prefix, "r".spec_bytes());
    open_tag(p) + open_tag(r) + text_element_markup(prefix, text) + close_tag(r) + close_tag(p)
}

pub fn push_text_element(out: &mut Vec<u8>, prefix: &[u8], text: &str)
    ensures
        final(out)@ == old(out)@ + text_element_markup(prefix@, text@),
{
    let t_name = qualify(prefix, "t");
    let mut t = qualify(prefix, "t");
    if requires_space_preservation(text) {
        push_str(&mut t, " xml:space=\"preserve\"");
    }
    proof {
        if !needs_space_preservation(text@) {
            assert(t@ =~= t_name@ + space_markup(text@));
        }
    }
    let body = escape(text.as_bytes());
    push_open(out, t.as_slice());
    push_bytes(out, body.as_slice());
    push_close(out, t_name.as_slice());
    assert(out@ =~= old(out)@ + text_element_markup(prefix@, text@));
}

pub fn text_paragraph_xml(prefix: &[u8], text: &str) -> (r: Vec<u8>)
    ensures
        r@ == text_paragraph_markup(prefix@, text@),
{
    let p = qualify(prefix, "p");
    let r = qualify(prefix, "r");
    let mut out: Vec<u8> = Vec::new();
    push_open(&mut out, p.as_slice());
    push_open(&mut out, r.as_slice());
    push_text_element(&mut out, prefix, text);
    push_close(&mut out, r.as_slice());
    push_close(&mut out, p.as_slice());
    assert(out@ =~= text_paragraph_markup(prefix@, text@));
    out
}

/// The text element of a simple text paragraph: the `t` in its first run.
pub open spec fn text_element(d: &SourceDocument, p: NodeId) -> Option<NodeId> {
    match spec_child(d, p.0 as int, "r".spec_bytes()) {
        Some(r) => spec_child(d, r.0 as int, "t".spec_bytes()),
        None => None,
    }
}

/// A patch that rewrites the text of a part's first simple text paragraph: its text
/// element is replaced by one holding `text`, in the paragraph's namespace prefix.
pub open spec fn text_patch_ok(d: &SourceDocument, text: Seq<char>, patch: Patch) -> bool {
    &&& first_text_paragraph(d, d.spec_children(0), 0) matches Some(p)
    &&& text_element(d, p) matches Some(t)
    &&& spec_word_prefix(d, p.0 as int, "p".spec_bytes()) matches Some(prefix)
    &&& patch.span == d.spec_span(t.0 as int)
    &&& patch.replacement@ == text_element_markup(prefix, text)
}

/// A part's first simple text paragraph has a text element and a namespace prefix.
pub open spec fn text_patchable(d: &SourceDocument) -> bool {
    &&& first_text_paragraph(d, d.spec_children(0), 0) matches Some(p)
    &&& text_element(d, p) is Some
    &&& spec_word_prefix(d, p.0 as int, "p".spec_bytes()) is Some
}

pub fn simple_text_patch(part: &SourceDocument, text: &str) -> (r: Result<Patch, OperationFailure>)
    requires
        part.wf(),
    ensures
        match r {
            Ok(p) => text_patch_ok(part, text@, p) && p.span.start <= p.span.end <= part.bytes@.len(),
            Err(e) => e.code == FailureCode::UnsupportedOperation && !text_patchable(part),
        },
{
    let paragraph = match header_footer_text_paragraph(part) {
        Some(p) => p,
        None => return Err(unsupported("header/footer has no simple text paragraph")),
    };
    let run = match child(part, paragraph, "r") {
        Some(r) => r,
        None => return Err(unsupported("header/footer text paragraph has no run")),
    };
    let value = match child(part, run, "t") {
        Some(t) => t,
        None => return Err(unsupported("header/footer text run has no text")),
    };
    let prefix = word_prefix(part, paragraph)?;
    let mut replacement: Vec<u8> = Vec::new();
    push_text_element(&mut replacement, prefix.as_slice(), text);
    assert(replacement@ =~= text_element_markup(prefix@, text@));
    let span = part.span(value);
    Ok(Patch { span, replacement })
}

/// The opening of a new header or footer part, up to its root's start tag.
pub open spec fn part_opening(kind: HeaderFooterKind) -> Seq<u8> {
    "<?xml version=\"1.0\" encoding=\"UTF-8\" standalone=\"yes\"?><w:".spec_bytes() + root_name(kind)
        + " xmlns:w=\"http://schemas.openxmlformats.org/wordprocessingml/2006/main\">".spec_bytes()
}

/// A new header or footer part holding `content`.
pub open spec fn part_markup(kind: HeaderFooterKind, content: Seq<u8>) -> Seq<u8> {
    part_opening(kind) + content + close_tag("w:".spec_bytes() + root_name(kind))
}

pub fn root_word(kind: HeaderFooterKind) -> (r: &'static str)
    ensures
        r.spec_bytes() == root_name(kind),
{
    match kind {
        HeaderFooterKind::Header => "hdr",
        HeaderFooterKind::Footer => "ftr",
    }
}

pub fn header_footer_part_xml(kind: HeaderFooterKind, content: &[u8]) -> (r: Vec<u8>)
    ensures
        r@ == part_markup(kind, content@),
{
    let root = root_word(kind);
    let mut out: Vec<u8> = Vec::new();
    push_str(&mut out, "<?xml version=\"1.0\" encoding=\"UTF-8\" standalone=\"yes\"?><w:");
    push_str(&mut out, root);
    push_str(&mut out, " xmlns:w=\"http://schemas.openxmlformats.org/wordprocessingml/2006/main\">");
    push_bytes(&mut out, content);
    let mut name: Vec<u8> = Vec::new();
    push_str(&mut name, "w:");
    push_str(&mut name, root);
    push_close(&mut out, name.as_slice());
    assert(out@ =~= part_markup(kind, content@));
    out
}

/// The name stem of new header or footer parts.
pub open spec fn part_stem(kind: HeaderFooterKind) -> Seq<u8> {
    match kind {
        HeaderFooterKind::Header => "/word/header".spec_bytes(),
        HeaderFooterKind::Footer => "/word/footer".spec_bytes(),
    }
}

/// The number `n` of a part named `stem` + `n` + `.xml`, where `n` reads as a `u32`.
pub open spec fn numbered(name: Seq<u8>, stem: Seq<u8>) -> Option<int> {
    let suffix = ".xml".spec_bytes();
    if name.len() >= stem.len() + suffix.len() && name.take(stem.len() as int) == stem
        && name.skip(name.len() - suffix.len()) == suffix {
        match unsigned_value(name.subrange(stem.len() as int, name.len() - suffix.len())) {
            Some(v) => if v <= u32::MAX {
                Some(v)
            } else {
                None
            },
            None => None,
        }
    } else {
        None
    }
}

/// The highest number among the numbered parts in `parts[..k]`, 0 without any.
pub open spec fn highest_number(parts: Seq<PackagePart>, stem: Seq<u8>, k: int) -> int
    decreases k,
{
    if k <= 0 {
        0
    } else {
        let m = highest_number(parts, stem, k - 1);
        match numbered(vstd::utf8::encode_utf8(parts[k - 1].name@), stem) {
            Some(v) => if v > m {
                v
            } else {
                m
            },
            None => m,
        }
    }
}

/// The name of a new part: the stem, the number, `.xml`.
pub open spec fn part_file_name(stem: Seq<u8>, n: int) -> Seq<u8> {
    stem + decimal_digits(n as nat) + ".xml".spec_bytes()
}

fn stem_name(kind: HeaderFooterKind) -> (r: &'static str)
    ensures
        r.spec_bytes() == part_stem(kind),
{
    match kind {
        HeaderFooterKind::Header => "/word/header",
        HeaderFooterKind::Footer => "/word/footer",
    }
}

fn number_of(name: &[u8], stem: &str) -> (r: Option<u32>)
    ensures
        match r {
            Some(v) => numbered(name@, stem.spec_bytes()) == Some(v as int),
            None => numbered(name@, stem.spec_bytes()) is None,
        },
{
    let s = stem.as_bytes();
    let suffix = crate::bytes::str_bytes(".xml");
    if name.len() < s.len() || name.len() - s.len() < suffix.len() {
        return None;
    }
    let head = copy_range(name, 0, s.len());
    let tail = copy_range(name, name.len() - suffix.len(), name.len());
    assert(head@ =~= name@.take(s@.len() as int));
    assert(tail@ =~= name@.skip(name@.len() - suffix@.len()));
    if !bytes_are(head.as_slice(), stem) || !crate::bytes::bytes_equal(tail.as_slice(), suffix.as_slice()) {
        return None;
    }
    let middle = copy_range(name, s.len(), name.len() - suffix.len());
    parse_u32(middle.as_slice())
}

/// Names the next header or footer part: one more than the highest number of the
/// existing `/word/headerN.xml` (or footer) parts.
pub fn next_header_footer_part_name(parts: &Vec<PackagePart>, kind: HeaderFooterKind) -> (r: Result<String, OperationFailure>)
    ensures
        match r {
            Ok(n) => highest_number(parts@, part_stem(kind), parts@.len() as int) < u32::MAX
                && vstd::utf8::encode_utf8(n@) == part_file_name(
                part_stem(kind),
                highest_number(parts@, part_stem(kind), parts@.len() as int) + 1,
            ),
            Err(e) => e.code == FailureCode::PackageConflict && highest_number(parts@, part_stem(kind), parts@.len() as int) >= u32::MAX,
        },
{
    let stem = stem_name(kind);
    let mut highest: u32 = 0;
    let mut k: usize = 0;
    while k < parts.len()
        invariant
            stem.spec_bytes() == part_stem(kind),
            k <= parts@.len(),
            highest as int == highest_number(parts@, part_stem(kind), k as int),
        decreases parts@.len() - k,
    {
        match number_of(parts[k].name.as_str().as_bytes(), stem) {
            Some(v) => {
                if v > highest {
                    highest = v;
                }
            },
            None => {},
        }
        k += 1;
    }
    if highest == u32::MAX {
        return Err(OperationFailure::failed(FailureCode::PackageConflict, "cannot allocate header/footer part"));
    }
    let next = highest + 1;
    let mut bytes: Vec<u8> = Vec::new();
    push_str(&mut bytes, stem);
    push_bytes(&mut bytes, format_u64(next as u64).as_slice());
    push_str(&mut bytes, ".xml");
    let ghost b = bytes@;
    assert(b =~= part_file_name(part_stem(kind), next as int));
    proof {
        vstd::utf8::encode_utf8_valid_utf8(stem@);
        vstd::utf8::encode_utf8_valid_utf8(".xml"@);
        crate::numbers::lemma_decimal_digits_utf8(next as nat);
        vstd::utf8::valid_utf8_concat(stem.spec_bytes(), crate::numbers::decimal_digits(next as nat));
        vstd::utf8::valid_utf8_concat(stem.spec_bytes() + crate::numbers::decimal_digits(next as nat), ".xml".spec_bytes());
    }
    match utf8_string(bytes) {
        Some(n) => {
            proof {
                vstd::utf8::decode_utf8_encode_utf8(b);
            }
            Ok(n)
        },
        None => Err(OperationFailure::failed(FailureCode::PackageConflict, "cannot allocate header/footer part")),
    }
}

/// `rId` and a number.
pub open spec fn relationship_id_bytes(n: int) -> Seq<u8> {
    "rId".spec_bytes() + decimal_digits(n as nat)
}

/// Whether some relationship has the id.
pub open spec fn id_used(rels: Seq<Relationship>, id: Seq<u8>) -> bool {
    exists|k: int| 0 <= k < rels.len() && vstd::utf8::encode_utf8(#[trigger] rels[k].id@) == id
}

fn is_used(rels: &Vec<Relationship>, id: &[u8]) -> (r: bool)
    ensures
        r == id_used(rels@, id@),
{
    let mut k: usize = 0;
    while k < rels.len()
        invariant
            k <= rels@.len(),
            forall|j: int| 0 <= j < k ==> vstd::utf8::encode_utf8(#[trigger] rels@[j].id@) != id@,
        decreases rels@.len() - k,
    {
        if crate::bytes::bytes_equal(rels[k].id.as_str().as_bytes(), id) {
            return true;
        }
        k += 1;
    }
    false
}

/// The first relationship id `rIdN`, N from 1, that no relationship has.
pub fn next_relationship_id(rels: &Vec<Relationship>) -> (r: Result<String, OperationFailure>)
    ensures
        match r {
            Ok(id) => exists|n: int|
                1 <= n <= u32::MAX && vstd::utf8::encode_utf8(id@) == relationship_id_bytes(n) && !id_used(
                    rels@,
                    relationship_id_bytes(n),
                ) && forall|m: int| 1 <= m < n ==> id_used(rels@, #[trigger] relationship_id_bytes(m)),
            Err(e) => e.code == FailureCode::PackageConflict && forall|m: int|
                1 <= m <= u32::MAX ==> id_used(rels@, #[trigger] relationship_id_bytes(m)),
        },
{
    let mut n: u32 = 1;
    loop
        invariant
            1 <= n,
            forall|m: int| 1 <= m < n ==> id_used(rels@, #[trigger] relationship_id_bytes(m)),
        decreases u32::MAX - n,
    {
        let mut id: Vec<u8> = Vec::new();
        push_str(&mut id, "rId");
        push_bytes(&mut id, format_u64(n as u64).as_slice());
        assert(id@ =~= relationship_id_bytes(n as int));
        if !is_used(rels, id.as_slice()) {
            let ghost b = id@;
            proof {
                vstd::utf8::encode_utf8_valid_utf8("rId"@);
                crate::numbers::lemma_decimal_digits_utf8(n as nat);
                vstd::utf8::valid_utf8_concat("rId".spec_bytes(), crate::numbers::decimal_digits(n as nat));
            }
            return match utf8_string(id) {
                Some(s) => {
                    proof {
                        vstd::utf8::decode_utf8_encode_utf8(b);
                    }
                    Ok(s)
                },
                None => Err(OperationFailure::failed(FailureCode::PackageConflict, "cannot allocate header/footer relationship")),
            };
        }
        if n == u32::MAX {
            assert forall|m: int| 1 <= m <= u32::MAX implies id_used(rels@, #[trigger] relationship_id_bytes(m)) by {
                if m < n {
                } else {
                    assert(m == n);
                }
            }
            return Err(OperationFailure::failed(FailureCode::PackageConflict, "cannot allocate header/footer relationship"));
        }
        n += 1;
    }
}

/// The namespace of office-document relationship attributes.
pub const OFFICE_RELATIONSHIPS_NAMESPACE: &'static str = "http://schemas.openxmlformats.org/officeDocument/2006/relationships";

/// A default section reference to the relationship `id`, in the section's namespace prefix.
pub open spec fn reference_markup(prefix: Seq<u8>, kind: HeaderFooterKind, id: Seq<u8>) -> Seq<u8> {
    seq![0x3cu8] + qualified(prefix, reference_local(kind)) + seq![0x20u8] + attr_prefix_of(prefix)
        + "type=\"default\" xmlns:r=\"".spec_bytes() + OFFICE_RELATIONSHIPS_NAMESPACE.spec_bytes()
        + "\" r:id=\"".spec_bytes() + id + "\"/>".spec_bytes()
}

pub fn header_footer_reference_xml(source: &SourceDocument, section: NodeId, kind: HeaderFooterKind, id: &[u8]) -> (r: Result<Vec<u8>, OperationFailure>)
    requires
        source.wf(),
        source.valid_id(section),
    ensures
        match r {
            Ok(v) => spec_word_prefix(source, section.0 as int, "sectPr".spec_bytes()) matches Some(prefix)
                && v@ == reference_markup(prefix, kind, id@),
            Err(e) => spec_word_prefix(source, section.0 as int, "sectPr".spec_bytes()) is None
                && e.code == FailureCode::UnsupportedOperation,
        },
{
    let prefix = word_prefix_for(source, section, "sectPr")?;
    let mut out: Vec<u8> = Vec::new();
    out.push(0x3cu8);
    push_bytes(&mut out, qualify(prefix.as_slice(), reference_name(kind)).as_slice());
    out.push(0x20u8);
    if prefix.len() > 0 {
        push_bytes(&mut out, prefix.as_slice());
        out.push(0x3au8);
    }
    push_str(&mut out, "type=\"default\" xmlns:r=\"");
    push_str(&mut out, OFFICE_RELATIONSHIPS_NAMESPACE);
    push_str(&mut out, "\" r:id=\"");
    push_bytes(&mut out, id);
    push_str(&mut out, "\"/>");
    assert(out@ =~= reference_markup(prefix@, kind, id@));
    Ok(out)
}

/// Whether a new reference of the kind goes before this section child: a header
/// reference goes before the first child that is not a header reference, or is a
/// footer reference; a footer reference before the first that is neither.
pub open spec fn goes_before(d: &SourceDocument, c: NodeId, kind: HeaderFooterKind) -> bool {
    match kind {
        HeaderFooterKind::Header => is_word(d, c.0 as int, "footerReference".spec_bytes()) || !is_word(
            d,
            c.0 as int,
            "headerReference".spec_bytes(),
        ),
        HeaderFooterKind::Footer => !is_word(d, c.0 as int, "headerReference".spec_bytes()) && !is_word(
            d,
            c.0 as int,
            "footerReference".spec_bytes(),
        ),
    }
}

pub open spec fn first_slot(d: &SourceDocument, kids: Seq<NodeId>, kind: HeaderFooterKind, from: int) -> Option<NodeId>
    decreases kids.len() - from,
{
    if from < 0 || from >= kids.len() {
        None
    } else if goes_before(d, kids[from], kind) {
        Some(kids[from])
    } else {
        first_slot(d, kids, kind, from + 1)
    }
}

/// Where a new reference is added to a section: before its first child it goes before,
/// else before the section's closing tag.
pub open spec fn reference_insertion(d: &SourceDocument, section: NodeId, kind: HeaderFooterKind) -> Option<int> {
    match first_slot(d, d.spec_children(section.0 as int), kind, 0) {
        Some(c) => Some(d.spec_span(c.0 as int).start as int),
        None => end_tag_start(d, section),
    }
}

pub fn section_reference_patch(source: &SourceDocument, section: NodeId, kind: HeaderFooterKind, reference: Vec<u8>) -> (r: Result<Patch, OperationFailure>)
    requires
        source.wf(),
        source.valid_id(section),
    ensures
        match r {
            Ok(p) => reference_insertion(source, section, kind) == Some(p.span.start as int)
                && p.span.end == p.span.start && p.span.start <= source.bytes@.len()
                && p.replacement@ == reference@,
            Err(e) => reference_insertion(source, section, kind) is None
                && e.code == FailureCode::UnsupportedOperation,
        },
{
    let kids = source.children(section);
    let _end = source.subtree_end(section);
    proof {
        crate::source::lemma_children(source, section.0 as int);
    }
    let mut k: usize = 0;
    while k < kids.len()
        invariant
            source.wf(),
            kids@ == source.spec_children(section.0 as int),
            forall|j: int| 0 <= j < kids@.len() ==> source.valid_id(#[trigger] kids@[j]),
            k <= kids@.len(),
            first_slot(source, kids@, kind, 0) == first_slot(source, kids@, kind, k as int),
        decreases kids@.len() - k,
    {
        let c = kids[k];
        let before = match kind {
            HeaderFooterKind::Header => word(source, c, "footerReference") || !word(source, c, "headerReference"),
            HeaderFooterKind::Footer => !word(source, c, "headerReference") && !word(source, c, "footerReference"),
        };
        if before {
            let at = source.span(c).start;
            return Ok(Patch { span: SourceSpan { start: at, end: at }, replacement: reference });
        }
        k += 1;
    }
    let at = closing_tag_start(source, section)?;
    Ok(Patch { span: SourceSpan { start: at, end: at }, replacement: reference })
}

/// The file name of a part: what follows its last `/`.
pub open spec fn file_name(name: Seq<u8>) -> Seq<u8> {
    match last_slash(name, name.len() as int) {
        Some(i) => name.subrange(i + 1, name.len() as int),
        None => name,
    }
}

pub(crate) fn part_file(name: &[u8]) -> (r: Vec<u8>)
    ensures
        r@ == file_name(name@),
{
    let mut i = name.len();
    while i > 0
        invariant
            i <= name@.len(),
            last_slash(name@, name@.len() as int) == last_slash(name@, i as int),
        decreases i,
    {
        if name[i - 1] == 0x2fu8 {
            return copy_range(name, i, name.len());
        }
        i -= 1;
    }
    copy_range(name, 0, name.len())
}

/// A relationship element for a new header or footer part.
pub open spec fn relationship_markup(id: Seq<u8>, rel_type: Seq<u8>, part: Seq<u8>) -> Seq<u8> {
    "<Relationship Id=\"".spec_bytes() + id + "\" Type=\"".spec_bytes() + rel_type + "\" Target=\"".spec_bytes()
        + file_name(part) + "\"/>".spec_bytes()
}

pub fn relationship_element(id: &[u8], rel_type: &str, part: &[u8]) -> (r: Vec<u8>)
    ensures
        r@ == relationship_markup(id@, rel_type.spec_bytes(), part@),
{
    let mut out: Vec<u8> = Vec::new();
    push_str(&mut out, "<Relationship Id=\"");
    push_bytes(&mut out, id);
    push_str(&mut out, "\" Type=\"");
    push_str(&mut out, rel_type);
    push_str(&mut out, "\" Target=\"");
    push_bytes(&mut out, part_file(part).as_slice());
    push_str(&mut out, "\"/>");
    assert(out@ =~= relationship_markup(id@, rel_type.spec_bytes(), part@));
    out
}

/// The name of the content-types part.
pub const CONTENT_TYPES_PART: &'static str = "/[Content_Types].xml";

/// `PartName="name"`, which marks a part that the content types already list.
pub open spec fn part_marker(name: Seq<u8>) -> Seq<u8> {
    "PartName=\"".spec_bytes() + name + "\"".spec_bytes()
}

/// An `Override` element giving a part its content type.
pub open spec fn override_markup(name: Seq<u8>, content_type: Seq<u8>) -> Seq<u8> {
    "<Override PartName=\"".spec_bytes() + name + "\" ContentType=\"".spec_bytes() + content_type
        + "\"/>".spec_bytes()
}

pub fn part_marker_bytes(name: &[u8]) -> (r: Vec<u8>)
    ensures
        r@ == part_marker(name@),
{
    let mut out: Vec<u8> = Vec::new();
    push_str(&mut out, "PartName=\"");
    push_bytes(&mut out, name);
    push_str(&mut out, "\"");
    assert(out@ =~= part_marker(name@));
    out
}

pub fn override_element(name: &[u8], content_type: &str) -> (r: Vec<u8>)
    ensures
        r@ == override_markup(name@, content_type.spec_bytes()),
{
    let mut out: Vec<u8> = Vec::new();
    push_str(&mut out, "<Override PartName=\"");
    push_bytes(&mut out, name);
    push_str(&mut out, "\" ContentType=\"");
    push_str(&mut out, content_type);
    push_str(&mut out, "\"/>");
    assert(out@ =~= override_markup(name@, content_type.spec_bytes()));
    out
}

} // verus!
