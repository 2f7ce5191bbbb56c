use vstd::prelude::*;
use vstd::string::StringSliceAdditionalSpecFns;

use crate::bytes::{bytes_are, utf8_string};
use crate::numbers::{parse_i32, parse_u32, signed_value, unsigned_value};
use crate::source::{source_error_code, NodeId, SourceDocument, SourceError};
use crate::wordml::{as_text, attr_of, attr_text, child, is_word, spec_child, string_view, word};

verus! {

#[derive(Clone, Copy, Debug, PartialEq, Eq, Hash, Structural)]
pub struct NumberingId(pub u32);

#[derive(Clone, Copy, Debug, PartialEq, Eq, Hash, Structural)]
pub struct AbstractNumberingId(pub u32);

#[derive(Clone, Copy, Debug, PartialEq, Eq, Structural)]
pub struct ListReference {
    pub num_id: NumberingId,
    pub level: u8,
}

#[derive(Clone, Debug, PartialEq, Eq)]
pub enum NumberFormat {
    Decimal,
    UpperRoman,
    LowerRoman,
    UpperLetter,
    LowerLetter,
    Bullet,
    NoNumbering,
    Unknown(String),
}

#[derive(Debug)]
pub struct NumberingLevel {
    pub source_id: NodeId,
    pub level: u8,
    pub start: Option<u32>,
    pub format: NumberFormat,
    pub text: Option<String>,
    pub suffix: Option<String>,
    pub left_indent_twips: Option<i32>,
    pub hanging_indent_twips: Option<i32>,
}

#[derive(Clone, Copy, Debug, PartialEq, Eq, Structural)]
pub struct NumberingInstance {
    pub source_id: NodeId,
    pub num_id: NumberingId,
    pub abstract_num_id: AbstractNumberingId,
}

/// One abstract numbering definition and its levels.
#[derive(Debug)]
pub struct AbstractNumbering {
    pub source_id: NodeId,
    pub id: AbstractNumberingId,
    pub levels: Vec<NumberingLevel>,
}

/// The numbering definitions of a numbering part.
#[derive(Debug)]
pub struct Numbering {
    pub source: SourceDocument,
    pub abstracts: Vec<AbstractNumbering>,
    pub instances: Vec<NumberingInstance>,
}

#[derive(Clone, Copy, Debug, PartialEq, Eq, Structural)]
pub enum NumberingError {
    Source(SourceError),
    InvalidNumberingRoot,
    MalformedNumbering,
    DuplicateId,
    MissingNumberingInstance(NumberingId),
    MissingAbstractNumbering(AbstractNumberingId),
    MissingLevel(u8),
    ExternalNumberingPart,
}

/// The machine-readable code of a numbering error.
pub open spec fn numbering_error_code(e: NumberingError) -> Seq<char> {
    match e {
        NumberingError::Source(e) => source_error_code(e),
        NumberingError::InvalidNumberingRoot => "INVALID_NUMBERING_ROOT"@,
        NumberingError::MalformedNumbering => "MALFORMED_NUMBERING"@,
        NumberingError::DuplicateId => "DUPLICATE_NUMBERING_ID"@,
        NumberingError::MissingNumberingInstance(_) => "MISSING_NUMBERING_INSTANCE"@,
        NumberingError::MissingAbstractNumbering(_) => "MISSING_ABSTRACT_NUMBERING"@,
        NumberingError::MissingLevel(_) => "MISSING_NUMBERING_LEVEL"@,
        NumberingError::ExternalNumberingPart => "EXTERNAL_NUMBERING_PART"@,
    }
}

impl NumberingError {
    pub fn code(&self) -> (r: &'static str)
        ensures
            r@ == numbering_error_code(*self),
    {
        match self {
            NumberingError::Source(e) => e.code(),
            NumberingError::InvalidNumberingRoot => "INVALID_NUMBERING_ROOT",
            NumberingError::MalformedNumbering => "MALFORMED_NUMBERING",
            NumberingError::DuplicateId => "DUPLICATE_NUMBERING_ID",
            NumberingError::MissingNumberingInstance(_) => "MISSING_NUMBERING_INSTANCE",
            NumberingError::MissingAbstractNumbering(_) => "MISSING_ABSTRACT_NUMBERING",
            NumberingError::MissingLevel(_) => "MISSING_NUMBERING_LEVEL",
            NumberingError::ExternalNumberingPart => "EXTERNAL_NUMBERING_PART",
        }
    }
}

/// An optional attribute value read as an unsigned 32-bit number: `None` when absent,
/// `Some(None)` when present but not a `u32`.
pub open spec fn u32_of(o: Option<Seq<u8>>) -> Option<Option<u32>> {
    match o {
        Some(b) => match unsigned_value(b) {
            Some(v) => if v <= u32::MAX {
                Some(Some(v as u32))
            } else {
                Some(None)
            },
            None => Some(None),
        },
        None => None,
    }
}

/// An optional attribute value read as a signed 32-bit number, like `u32_of`.
pub open spec fn i32_of(o: Option<Seq<u8>>) -> Option<Option<i32>> {
    match o {
        Some(b) => match signed_value(b) {
            Some(v) => if i32::MIN <= v <= i32::MAX {
                Some(Some(v as i32))
            } else {
                Some(None)
            },
            None => Some(None),
        },
        None => None,
    }
}

/// A required `u32` attribute; `MalformedNumbering` when it is absent or not a number.
fn attr_u32(source: &SourceDocument, node: NodeId, name: &str) -> (r: Result<u32, NumberingError>)
    requires
        source.wf(),
        source.valid_id(node),
    ensures
        match r {
            Ok(v) => u32_of(source.spec_attribute(node.0 as int, name.spec_bytes())) == Some(Some(v)),
            Err(e) => e == NumberingError::MalformedNumbering && !(u32_of(
                source.spec_attribute(node.0 as int, name.spec_bytes()),
            ) matches Some(Some(_))),
        },
{
    match source.attribute(node, name) {
        Some(v) => match parse_u32(v.as_slice()) {
            Some(n) => Ok(n),
            None => Err(NumberingError::MalformedNumbering),
        },
        None => Err(NumberingError::MalformedNumbering),
    }
}

/// The `val` attribute of an optional element read as a `u32`: `Ok(None)` when there is
/// no element, an error when the element is there but its value is missing or not a number.
pub open spec fn val_u32(d: &SourceDocument, node: Option<NodeId>) -> Result<Option<u32>, NumberingError> {
    match node {
        None => Ok(None),
        Some(c) => match u32_of(d.spec_attribute(c.0 as int, "val".spec_bytes())) {
            Some(Some(v)) => Ok(Some(v)),
            _ => Err(NumberingError::MalformedNumbering),
        },
    }
}

fn read_val_u32(source: &SourceDocument, node: Option<NodeId>) -> (r: Result<Option<u32>, NumberingError>)
    requires
        source.wf(),
        node matches Some(c) ==> source.valid_id(c),
    ensures
        r == val_u32(source, node),
{
    match node {
        Some(c) => match attr_u32(source, c, "val") {
            Ok(v) => Ok(Some(v)),
            Err(e) => Err(e),
        },
        None => Ok(None),
    }
}

/// An optional `i32` attribute of an optional node.
fn optional_i32(source: &SourceDocument, node: Option<NodeId>, name: &str) -> (r: Result<
    Option<i32>,
    NumberingError,
>)
    requires
        source.wf(),
        node matches Some(c) ==> source.valid_id(c),
    ensures
        match r {
            Ok(v) => match i32_of(attr_of(source, node, name.spec_bytes())) {
                Some(Some(x)) => v == Some(x),
                Some(None) => false,
                None => v is None,
            },
            Err(e) => e == NumberingError::MalformedNumbering && i32_of(
                attr_of(source, node, name.spec_bytes()),
            ) == Some(None::<i32>),
        },
{
    match node {
        Some(c) => match source.attribute(c, name) {
            Some(v) => match parse_i32(v.as_slice()) {
                Some(n) => Ok(Some(n)),
                None => Err(NumberingError::MalformedNumbering),
            },
            None => Ok(None),
        },
        None => Ok(None),
    }
}

/// The number format a `w:numFmt` value names.
pub open spec fn spec_format(v: Seq<u8>) -> NumberFormat {
    if v == "decimal".spec_bytes() {
        NumberFormat::Decimal
    } else if v == "upperRoman".spec_bytes() {
        NumberFormat::UpperRoman
    } else if v == "lowerRoman".spec_bytes() {
        NumberFormat::LowerRoman
    } else if v == "upperLetter".spec_bytes() {
        NumberFormat::UpperLetter
    } else if v == "lowerLetter".spec_bytes() {
        NumberFormat::LowerLetter
    } else if v == "bullet".spec_bytes() {
        NumberFormat::Bullet
    } else if v == "none".spec_bytes() {
        NumberFormat::NoNumbering
    } else {
        NumberFormat::Unknown(arbitrary())
    }
}

fn format(v: Vec<u8>) -> (r: NumberFormat)
    ensures
        !(r is Unknown) ==> r == spec_format(v@),
        r is Unknown ==> spec_format(v@) is Unknown,
        r matches NumberFormat::Unknown(s) ==> string_view(Some(s)) == as_text(Some(v@)) || (
        !vstd::utf8::valid_utf8(v@) && s@.len() == 0),
{
    if bytes_are(v.as_slice(), "decimal") {
        NumberFormat::Decimal
    } else if bytes_are(v.as_slice(), "upperRoman") {
        NumberFormat::UpperRoman
    } else if bytes_are(v.as_slice(), "lowerRoman") {
        NumberFormat::LowerRoman
    } else if bytes_are(v.as_slice(), "upperLetter") {
        NumberFormat::UpperLetter
    } else if bytes_are(v.as_slice(), "lowerLetter") {
        NumberFormat::LowerLetter
    } else if bytes_are(v.as_slice(), "bullet") {
        NumberFormat::Bullet
    } else if bytes_are(v.as_slice(), "none") {
        NumberFormat::NoNumbering
    } else {
        match utf8_string(v) {
            Some(s) => NumberFormat::Unknown(s),
            None => NumberFormat::Unknown(String::new()),
        }
    }
}

/// Whether a `w:lvl` element can be read: a level number that fits a byte, and
/// well-formed numbers wherever a start value or an indentation is given.
pub open spec fn level_readable(d: &SourceDocument, id: int) -> bool {
    let ind = match spec_child(d, id, "pPr".spec_bytes()) {
        Some(p) => spec_child(d, p.0 as int, "ind".spec_bytes()),
        None => None,
    };
    &&& u32_of(d.spec_attribute(id, "ilvl".spec_bytes())) matches Some(Some(l)) && l <= 255
    &&& val_u32(d, spec_child(d, id, "start".spec_bytes())) is Ok
    &&& i32_of(attr_of(d, ind, "left".spec_bytes())) != Some(None::<i32>)
    &&& i32_of(attr_of(d, ind, "hanging".spec_bytes())) != Some(None::<i32>)
}

/// The `val` attribute of the first child of `id` with the given name.
pub open spec fn child_attr(d: &SourceDocument, id: int, local: &str) -> Option<Seq<u8>> {
    attr_of(d, spec_child(d, id, local.spec_bytes()), "val".spec_bytes())
}

impl NumberingLevel {
    /// The level read from a `w:lvl` element.
    pub open spec fn reads(&self, d: &SourceDocument, id: int) -> bool {
        let ind = match spec_child(d, id, "pPr".spec_bytes()) {
            Some(p) => spec_child(d, p.0 as int, "ind".spec_bytes()),
            None => None,
        };
        &&& self.source_id.0 == id
        &&& u32_of(d.spec_attribute(id, "ilvl".spec_bytes())) == Some(Some(self.level as u32))
        &&& val_u32(d, spec_child(d, id, "start".spec_bytes())) == Ok::<Option<u32>, NumberingError>(self.start)
        &&& match child_attr(d, id, "numFmt") {
            Some(v) => (self.format is Unknown) == (spec_format(v) is Unknown) && (!(
            self.format is Unknown) ==> self.format == spec_format(v)),
            None => self.format is Unknown,
        }
        &&& string_view(self.text) == as_text(child_attr(d, id, "lvlText"))
        &&& string_view(self.suffix) == as_text(child_attr(d, id, "suff"))
        &&& match i32_of(attr_of(d, ind, "left".spec_bytes())) {
            Some(Some(v)) => self.left_indent_twips == Some(v),
            _ => self.left_indent_twips is None,
        }
        &&& match i32_of(attr_of(d, ind, "hanging".spec_bytes())) {
            Some(Some(v)) => self.hanging_indent_twips == Some(v),
            _ => self.hanging_indent_twips is None,
        }
    }
}

/// The `w:numFmt` value of a level names its format literally: `decimal`, `upperRoman`,
/// `lowerRoman`, `upperLetter`, `lowerLetter` and `bullet` read as those formats and
/// `none` as no numbering, and each of these formats is read from exactly that value.
pub proof fn law_number_formats(l: NumberingLevel, d: &SourceDocument, id: int)
    requires
        l.reads(d, id),
    ensures
        child_attr(d, id, "numFmt") == Some("decimal".spec_bytes()) ==> l.format == NumberFormat::Decimal,
        child_attr(d, id, "numFmt") == Some("upperRoman".spec_bytes()) ==> l.format == NumberFormat::UpperRoman,
        child_attr(d, id, "numFmt") == Some("lowerRoman".spec_bytes()) ==> l.format == NumberFormat::LowerRoman,
        child_attr(d, id, "numFmt") == Some("upperLetter".spec_bytes()) ==> l.format == NumberFormat::UpperLetter,
        child_attr(d, id, "numFmt") == Some("lowerLetter".spec_bytes()) ==> l.format == NumberFormat::LowerLetter,
        child_attr(d, id, "numFmt") == Some("bullet".spec_bytes()) ==> l.format == NumberFormat::Bullet,
        child_attr(d, id, "numFmt") == Some("none".spec_bytes()) ==> l.format == NumberFormat::NoNumbering,
        l.format == NumberFormat::Decimal ==> child_attr(d, id, "numFmt") == Some("decimal".spec_bytes()),
        l.format == NumberFormat::UpperRoman ==> child_attr(d, id, "numFmt") == Some("upperRoman".spec_bytes()),
        l.format == NumberFormat::LowerRoman ==> child_attr(d, id, "numFmt") == Some("lowerRoman".spec_bytes()),
        l.format == NumberFormat::UpperLetter ==> child_attr(d, id, "numFmt") == Some("upperLetter".spec_bytes()),
        l.format == NumberFormat::LowerLetter ==> child_attr(d, id, "numFmt") == Some("lowerLetter".spec_bytes()),
        l.format == NumberFormat::Bullet ==> child_attr(d, id, "numFmt") == Some("bullet".spec_bytes()),
        l.format == NumberFormat::NoNumbering ==> child_attr(d, id, "numFmt") == Some("none".spec_bytes()),
{
    reveal_strlit("decimal");
    reveal_strlit("upperRoman");
    reveal_strlit("lowerRoman");
    reveal_strlit("upperLetter");
    reveal_strlit("lowerLetter");
    reveal_strlit("bullet");
    reveal_strlit("none");
    vstd::string::is_ascii_spec_bytes("decimal");
    vstd::string::is_ascii_spec_bytes("upperRoman");
    vstd::string::is_ascii_spec_bytes("lowerRoman");
    vstd::string::is_ascii_spec_bytes("upperLetter");
    vstd::string::is_ascii_spec_bytes("lowerLetter");
    vstd::string::is_ascii_spec_bytes("bullet");
    vstd::string::is_ascii_spec_bytes("none");
    assert(vstd::string::is_ascii("decimal"));
    assert(vstd::string::is_ascii("upperRoman"));
    assert(vstd::string::is_ascii("lowerRoman"));
    assert(vstd::string::is_ascii("upperLetter"));
    assert(vstd::string::is_ascii("lowerLetter"));
    assert(vstd::string::is_ascii("bullet"));
    assert(vstd::string::is_ascii("none"));
    assert("upperRoman".spec_bytes()[0] != "lowerRoman".spec_bytes()[0]);
    assert("upperLetter".spec_bytes()[0] != "lowerLetter".spec_bytes()[0]);
    assert("upperRoman".spec_bytes()[5] != "upperLetter".spec_bytes()[5]);
    assert("lowerRoman".spec_bytes()[5] != "lowerLetter".spec_bytes()[5]);
    assert("upperRoman".spec_bytes()[0] != "lowerLetter".spec_bytes()[0]);
    assert("lowerRoman".spec_bytes()[0] != "upperLetter".spec_bytes()[0]);
    assert("decimal".spec_bytes()[0] != "bullet".spec_bytes()[0]);
    assert("decimal".spec_bytes()[0] != "none".spec_bytes()[0]);
    assert("bullet".spec_bytes()[0] != "none".spec_bytes()[0]);
}

/// Reads a `w:lvl` element.
fn parse_level(source: &SourceDocument, id: NodeId) -> (r: Result<NumberingLevel, NumberingError>)
    requires
        source.wf(),
        source.valid_id(id),
    ensures
        match r {
            Ok(l) => l.reads(source, id.0 as int),
            Err(e) => e == NumberingError::MalformedNumbering && !level_readable(source, id.0 as int),
        },
{
    let raw_level = attr_u32(source, id, "ilvl")?;
    if raw_level > 255 {
        return Err(NumberingError::MalformedNumbering);
    }
    let level = raw_level as u8;
    let format_node = child(source, id, "numFmt");
    let format = match format_node {
        Some(c) => match source.attribute(c, "val") {
            Some(v) => format(v),
            None => NumberFormat::Unknown(String::new()),
        },
        None => NumberFormat::Unknown(String::new()),
    };
    let start = read_val_u32(source, child(source, id, "start"))?;
    let text = attr_text(source, child(source, id, "lvlText"), "val");
    let suffix = attr_text(source, child(source, id, "suff"), "val");
    let ind = match child(source, id, "pPr") {
        Some(p) => child(source, p, "ind"),
        None => None,
    };
    let left_indent_twips = optional_i32(source, ind, "left")?;
    let hanging_indent_twips = optional_i32(source, ind, "hanging")?;
    Ok(
        NumberingLevel {
            source_id: id,
            level,
            start,
            format,
            text,
            suffix,
            left_indent_twips,
            hanging_indent_twips,
        },
    )
}


/// A `w:abstractNum` or `w:num` element of the numbering part whose required numbers
/// cannot be read, or a `w:lvl` of an abstract numbering that cannot be read.
pub open spec fn malformed_at(d: &SourceDocument, i: int) -> bool {
    let parent = d.spec_parent(i);
    ||| (parent == Some(NodeId(0)) && is_word(d, i, "abstractNum".spec_bytes()) && !(u32_of(
        d.spec_attribute(i, "abstractNumId".spec_bytes()),
    ) matches Some(Some(_))))
    ||| (parent matches Some(a) && d.spec_parent(a.0 as int) == Some(NodeId(0)) && is_word(
        d,
        a.0 as int,
        "abstractNum".spec_bytes(),
    ) && is_word(d, i, "lvl".spec_bytes()) && !level_readable(d, i))
    ||| (parent == Some(NodeId(0)) && is_word(d, i, "num".spec_bytes()) && (!(u32_of(
        d.spec_attribute(i, "numId".spec_bytes()),
    ) matches Some(Some(_))) || !(val_u32(d, spec_child(d, i, "abstractNumId".spec_bytes())) matches Ok(Some(_)))))
}

/// Two distinct definitions that share an identifier: abstract numberings, numbering
/// instances, or levels of one abstract numbering.
pub open spec fn duplicated_at(d: &SourceDocument, i: int, j: int) -> bool {
    &&& i != j
    &&& d.spec_parent(i) == d.spec_parent(j)
    &&& d.spec_parent(i) is Some
    &&& {
        ||| (d.spec_parent(i) == Some(NodeId(0)) && is_word(d, i, "abstractNum".spec_bytes())
            && is_word(d, j, "abstractNum".spec_bytes()) && u32_of(
            d.spec_attribute(i, "abstractNumId".spec_bytes()),
        ) == u32_of(d.spec_attribute(j, "abstractNumId".spec_bytes())))
        ||| (d.spec_parent(i) == Some(NodeId(0)) && is_word(d, i, "num".spec_bytes()) && is_word(
            d,
            j,
            "num".spec_bytes(),
        ) && u32_of(d.spec_attribute(i, "numId".spec_bytes())) == u32_of(
            d.spec_attribute(j, "numId".spec_bytes()),
        ))
        ||| (d.spec_parent(i) matches Some(a) && d.spec_parent(a.0 as int) == Some(NodeId(0))
            && is_word(d, a.0 as int, "abstractNum".spec_bytes())
            && is_word(d, i, "lvl".spec_bytes()) && is_word(d, j, "lvl".spec_bytes()) && u32_of(
            d.spec_attribute(i, "ilvl".spec_bytes()),
        ) == u32_of(d.spec_attribute(j, "ilvl".spec_bytes())))
    }
}

/// What a numbering holds is what its part says: each abstract numbering and instance
/// is a `w:abstractNum` or `w:num` child of the root with its identifiers, each abstract
/// numbering holds one level for each of its `w:lvl` children, in order, and every
/// `w:abstractNum` and `w:num` child of the root is read.
pub open spec fn numbering_reads(n: &Numbering, source: &SourceDocument) -> bool {
    &&& forall|k: int|
        0 <= k < n.abstracts@.len() ==> {
            let a = #[trigger] n.abstracts@[k];
            &&& source.valid_id(a.source_id)
            &&& source.spec_parent(a.source_id.0 as int) == Some(NodeId(0))
            &&& is_word(source, a.source_id.0 as int, "abstractNum".spec_bytes())
            &&& u32_of(source.spec_attribute(a.source_id.0 as int, "abstractNumId".spec_bytes()))
                == Some(Some(a.id.0))
            &&& forall|m: int| 0 <= m < a.levels@.len() ==> (#[trigger] a.levels@[m]).reads(source, a.levels@[m].source_id.0 as int) && source.valid_id(a.levels@[m].source_id) && source.spec_parent(a.levels@[m].source_id.0 as int) == Some(a.source_id)
            &&& level_ids(a.levels@) == crate::wordml::named_among(source, source.spec_children(a.source_id.0 as int), "lvl".spec_bytes(), "lvl".spec_bytes())
        }
    &&& forall|k: int|
        0 <= k < n.instances@.len() ==> {
            let x = #[trigger] n.instances@[k];
            &&& source.valid_id(x.source_id)
            &&& source.spec_parent(x.source_id.0 as int) == Some(NodeId(0))
            &&& is_word(source, x.source_id.0 as int, "num".spec_bytes())
            &&& u32_of(source.spec_attribute(x.source_id.0 as int, "numId".spec_bytes()))
                == Some(Some(x.num_id.0))
            &&& val_u32(source, spec_child(source, x.source_id.0 as int, "abstractNumId".spec_bytes())) == Ok::<Option<u32>, NumberingError>(Some(x.abstract_num_id.0))
        }
    &&& forall|i: int|
        0 <= i < source.nodes@.len() && source.spec_parent(i) == Some(NodeId(0)) ==> (is_word(
            source,
            i,
            "abstractNum".spec_bytes(),
        ) ==> exists|k: int| 0 <= k < n.abstracts@.len() && (#[trigger] n.abstracts@[k]).source_id.0 == i)
            && (is_word(source, i, "num".spec_bytes()) ==> exists|k: int|
            0 <= k < n.instances@.len() && (#[trigger] n.instances@[k]).source_id.0 == i)
}

impl Numbering {
    /// Identifiers are unique: abstract numberings, instances, and the levels of each
    /// abstract numbering.
    pub open spec fn wf(&self) -> bool {
        &&& self.source.wf()
        &&& forall|a: int, b: int|
            0 <= a < b < self.abstracts@.len() ==> (#[trigger] self.abstracts@[a]).id != (
            #[trigger] self.abstracts@[b]).id
        &&& forall|a: int, b: int|
            0 <= a < b < self.instances@.len() ==> (#[trigger] self.instances@[a]).num_id != (
            #[trigger] self.instances@[b]).num_id
        &&& forall|a: int|
            0 <= a < self.abstracts@.len() ==> distinct_levels(
                (#[trigger] self.abstracts@[a]).levels@,
            )
    }

    /// Reads a numbering part.
    pub fn parse(bytes: Vec<u8>) -> (r: Result<Numbering, NumberingError>)
        ensures
            r matches Ok(n) ==> n.wf() && n.source.bytes@ == bytes@ && n.source.faithful() && is_word(&n.source, 0, "numbering".spec_bytes())
                && numbering_reads(&n, &n.source),
            r matches Err(NumberingError::Source(_)) <==> !crate::source::accepts(bytes@),
            r is Err ==> r matches Err(NumberingError::Source(_)) || r == Err::<Numbering, NumberingError>(NumberingError::InvalidNumberingRoot)
                || r == Err::<Numbering, NumberingError>(NumberingError::MalformedNumbering)
                || r == Err::<Numbering, NumberingError>(NumberingError::DuplicateId),
            r == Err::<Numbering, NumberingError>(NumberingError::InvalidNumberingRoot) ==> exists|d: SourceDocument|
                #![trigger d.bytes]
                d.wf() && d.bytes@ == bytes@ && d.faithful() && !is_word(&d, 0, "numbering".spec_bytes()),
            r == Err::<Numbering, NumberingError>(NumberingError::MalformedNumbering) ==> exists|d: SourceDocument, i: int|
                #![trigger d.bytes, malformed_at(&d, i)]
                d.wf() && d.bytes@ == bytes@ && d.faithful() && 0 <= i < d.nodes@.len() && malformed_at(&d, i),
            r == Err::<Numbering, NumberingError>(NumberingError::DuplicateId) ==> exists|d: SourceDocument, i: int, j: int|
                #![trigger d.bytes, duplicated_at(&d, i, j)]
                d.wf() && d.bytes@ == bytes@ && d.faithful() && 0 <= i < d.nodes@.len() && 0 <= j < d.nodes@.len() && duplicated_at(&d, i, j),
    {
        match SourceDocument::parse(bytes) {
            Ok(source) => {
                let r = Numbering::from_source(source);
                proof {
                    assert(source.bytes == source.bytes);
                }
                r
            },
            Err(e) => Err(NumberingError::Source(e)),
        }
    }

    /// Reads the abstract numberings and numbering instances of a numbering part.
    pub fn from_source(source: SourceDocument) -> (r: Result<Numbering, NumberingError>)
        requires
            source.wf(),
        ensures
            (r == Err::<Numbering, NumberingError>(NumberingError::InvalidNumberingRoot)) == !is_word(
                &source,
                0,
                "numbering".spec_bytes(),
            ),
            r matches Ok(n) ==> n.wf() && n.source == source,
            r matches Ok(n) ==> numbering_reads(&n, &source),
            r == Err::<Numbering, NumberingError>(NumberingError::MalformedNumbering) ==> exists|i: int|
                0 <= i < source.nodes@.len() && malformed_at(&source, i),
            r == Err::<Numbering, NumberingError>(NumberingError::DuplicateId) ==> exists|i: int, j: int|
                0 <= i < source.nodes@.len() && 0 <= j < source.nodes@.len() && duplicated_at(&source, i, j),
            r is Err ==> r == Err::<Numbering, NumberingError>(NumberingError::InvalidNumberingRoot)
                || r == Err::<Numbering, NumberingError>(NumberingError::MalformedNumbering)
                || r == Err::<Numbering, NumberingError>(NumberingError::DuplicateId),
    {
        let root = source.root();
        if !word(&source, root, "numbering") {
            return Err(NumberingError::InvalidNumberingRoot);
        }
        let kids = source.children(root);
        let mut abstracts: Vec<AbstractNumbering> = Vec::new();
        let mut instances: Vec<NumberingInstance> = Vec::new();
        let mut k: usize = 0;
        while k < kids.len()
            invariant
                source.wf(),
                is_word(&source, 0, "numbering".spec_bytes()),
                root.0 == 0,
                kids@ == source.spec_children(0),
                forall|j: int| 0 <= j < kids@.len() ==> source.valid_id(#[trigger] kids@[j]) && source.spec_parent(kids@[j].0 as int) == Some(NodeId(0)),
                forall|j: int, l: int| 0 <= j < l < kids@.len() ==> (#[trigger] kids@[j]).0 < (#[trigger] kids@[l]).0,
                k <= kids@.len(),
                forall|a: int, b: int|
                    0 <= a < b < abstracts@.len() ==> (#[trigger] abstracts@[a]).id != (#[trigger] abstracts@[b]).id,
                forall|a: int, b: int|
                    0 <= a < b < instances@.len() ==> (#[trigger] instances@[a]).num_id != (#[trigger] instances@[b]).num_id,
                forall|a: int| 0 <= a < abstracts@.len() ==> distinct_levels((#[trigger] abstracts@[a]).levels@),
                forall|a: int| 0 <= a < abstracts@.len() ==> (#[trigger] abstracts@[a]).source_id.0 < below(kids@, k as int, source.nodes@.len() as int),
                forall|a: int| 0 <= a < instances@.len() ==> (#[trigger] instances@[a]).source_id.0 < below(kids@, k as int, source.nodes@.len() as int),
                forall|a: int|
                    0 <= a < abstracts@.len() ==> {
                        let x = #[trigger] abstracts@[a];
                        &&& source.valid_id(x.source_id)
                        &&& source.spec_parent(x.source_id.0 as int) == Some(NodeId(0))
                        &&& is_word(&source, x.source_id.0 as int, "abstractNum".spec_bytes())
                        &&& u32_of(source.spec_attribute(x.source_id.0 as int, "abstractNumId".spec_bytes())) == Some(Some(x.id.0))
                        &&& forall|m: int| 0 <= m < x.levels@.len() ==> (#[trigger] x.levels@[m]).reads(&source, x.levels@[m].source_id.0 as int) && source.valid_id(x.levels@[m].source_id) && source.spec_parent(x.levels@[m].source_id.0 as int) == Some(x.source_id)
                        &&& level_ids(x.levels@) == crate::wordml::named_among(&source, source.spec_children(x.source_id.0 as int), "lvl".spec_bytes(), "lvl".spec_bytes())
                    },
                forall|a: int|
                    0 <= a < instances@.len() ==> {
                        let x = #[trigger] instances@[a];
                        &&& source.valid_id(x.source_id)
                        &&& source.spec_parent(x.source_id.0 as int) == Some(NodeId(0))
                        &&& is_word(&source, x.source_id.0 as int, "num".spec_bytes())
                        &&& u32_of(source.spec_attribute(x.source_id.0 as int, "numId".spec_bytes())) == Some(Some(x.num_id.0))
                        &&& val_u32(&source, spec_child(&source, x.source_id.0 as int, "abstractNumId".spec_bytes())) == Ok::<Option<u32>, NumberingError>(Some(x.abstract_num_id.0))
                    },
                forall|j: int|
                    0 <= j < k ==> (is_word(&source, (#[trigger] kids@[j]).0 as int, "abstractNum".spec_bytes()) ==> exists|a: int| 0 <= a < abstracts@.len() && (#[trigger] abstracts@[a]).source_id == kids@[j])
                        && (is_word(&source, kids@[j].0 as int, "num".spec_bytes()) ==> exists|a: int| 0 <= a < instances@.len() && (#[trigger] instances@[a]).source_id == kids@[j]),
            decreases kids@.len() - k,
        {
            let id = kids[k];
            if word(&source, id, "abstractNum") {
                let abstract_id = match attr_u32(&source, id, "abstractNumId") {
                    Ok(v) => v,
                    Err(e) => {
                        proof {
                            assert(malformed_at(&source, id.0 as int));
                        }
                        return Err(e);
                    },
                };
                let levels = read_levels(&source, id)?;
                let ghost lv = levels@;
                assert(level_ids(lv) == crate::wordml::named_among(&source, source.spec_children(id.0 as int), "lvl".spec_bytes(), "lvl".spec_bytes()));
                match find_abstract(&abstracts, abstract_id) {
                    Some(a) => {
                        proof {
                            let other = abstracts@[a as int].source_id;
                            assert(duplicated_at(&source, other.0 as int, id.0 as int));
                        }
                        return Err(NumberingError::DuplicateId);
                    },
                    None => {},
                }
                let ghost prev = abstracts@;
                abstracts.push(AbstractNumbering { source_id: id, id: AbstractNumberingId(abstract_id), levels });
                proof {
                    assert(forall|a: int| 0 <= a < prev.len() ==> abstracts@[a] == prev[a]);
                    assert(abstracts@[prev.len() as int].levels@ == lv);
                    assert forall|j: int| 0 <= j < k + 1 && is_word(&source, (#[trigger] kids@[j]).0 as int, "abstractNum".spec_bytes()) implies exists|a: int| 0 <= a < abstracts@.len() && (#[trigger] abstracts@[a]).source_id == kids@[j] by {
                        if j == k {
                            assert(abstracts@[abstracts@.len() - 1].source_id == kids@[j]);
                        } else if is_word(&source, kids@[j].0 as int, "abstractNum".spec_bytes()) {
                            let a = choose|a: int| 0 <= a < prev.len() && (#[trigger] prev[a]).source_id == kids@[j];
                            assert(abstracts@[a] == prev[a]);
                        }
                    }
                }
            }
            if word(&source, id, "num") {
                let num_id = match attr_u32(&source, id, "numId") {
                    Ok(v) => v,
                    Err(e) => {
                        proof {
                            assert(malformed_at(&source, id.0 as int));
                        }
                        return Err(e);
                    },
                };
                let abstract_node = child(&source, id, "abstractNumId");
                let abstract_id = match read_val_u32(&source, abstract_node) {
                    Ok(Some(v)) => v,
                    _ => {
                        proof {
                            assert(malformed_at(&source, id.0 as int));
                        }
                        return Err(NumberingError::MalformedNumbering);
                    },
                };
                match find_instance(&instances, num_id) {
                    Some(a) => {
                        proof {
                            let other = instances@[a as int].source_id;
                            assert(duplicated_at(&source, other.0 as int, id.0 as int));
                        }
                        return Err(NumberingError::DuplicateId);
                    },
                    None => {},
                }
                let ghost prev = instances@;
                instances.push(NumberingInstance { source_id: id, num_id: NumberingId(num_id), abstract_num_id: AbstractNumberingId(abstract_id) });
                proof {
                    assert forall|j: int| 0 <= j < k + 1 && is_word(&source, (#[trigger] kids@[j]).0 as int, "num".spec_bytes()) implies exists|a: int| 0 <= a < instances@.len() && (#[trigger] instances@[a]).source_id == kids@[j] by {
                        if j == k {
                            assert(instances@[instances@.len() - 1].source_id == kids@[j]);
                        } else if is_word(&source, kids@[j].0 as int, "num".spec_bytes()) {
                            let a = choose|a: int| 0 <= a < prev.len() && (#[trigger] prev[a]).source_id == kids@[j];
                            assert(instances@[a] == prev[a]);
                        }
                    }
                }
            }
            k += 1;
        }
        proof {
            assert forall|i: int|
                0 <= i < source.nodes@.len() && source.spec_parent(i) == Some(NodeId(0)) implies (is_word(
                    &source,
                    i,
                    "abstractNum".spec_bytes(),
                ) ==> exists|a: int| 0 <= a < abstracts@.len() && (#[trigger] abstracts@[a]).source_id.0 == i)
                    && (is_word(&source, i, "num".spec_bytes()) ==> exists|a: int|
                    0 <= a < instances@.len() && (#[trigger] instances@[a]).source_id.0 == i) by {
                crate::source::lemma_child_listed(&source, 0, i);
                let j = choose|j: int| 0 <= j < kids@.len() && kids@[j].0 == i;
                assert(kids@[j] == NodeId(i as usize));
            }
        }
        Ok(Numbering { source, abstracts, instances })
    }
}

impl Numbering {
    /// The numbering part the definitions were read from.
    pub fn source(&self) -> (r: &SourceDocument)
        ensures
            *r == self.source,
    {
        &self.source
    }

    /// The number of abstract numbering definitions.
    pub fn abstract_count(&self) -> (r: usize)
        ensures
            r == self.abstracts@.len(),
    {
        self.abstracts.len()
    }

    /// The number of numbering instances.
    pub fn instance_count(&self) -> (r: usize)
        ensures
            r == self.instances@.len(),
    {
        self.instances.len()
    }

    /// The numbering instances, in document order.
    pub fn instances(&self) -> (r: &[NumberingInstance])
        ensures
            r@ == self.instances@,
    {
        self.instances.as_slice()
    }

    /// The level that a list reference names: through its numbering instance to the
    /// abstract numbering, then the level with the reference's level number.
    pub fn resolve(&self, reference: ListReference) -> (r: Result<&NumberingLevel, NumberingError>)
        ensures
            match r {
                Ok(l) => exists|i: int, a: int, m: int|
                    0 <= i < self.instances@.len() && 0 <= a < self.abstracts@.len() && 0 <= m
                        < self.abstracts@[a].levels@.len()
                        && (#[trigger] self.instances@[i]).num_id == reference.num_id
                        && (#[trigger] self.abstracts@[a]).id == self.instances@[i].abstract_num_id
                        && *l == (#[trigger] self.abstracts@[a].levels@[m])
                        && l.level == reference.level,
                Err(NumberingError::MissingNumberingInstance(x)) => x == reference.num_id
                    && forall|i: int| 0 <= i < self.instances@.len() ==> (#[trigger] self.instances@[i]).num_id != reference.num_id,
                Err(NumberingError::MissingAbstractNumbering(x)) => (exists|i: int|
                    0 <= i < self.instances@.len() && (#[trigger] self.instances@[i]).num_id == reference.num_id
                        && self.instances@[i].abstract_num_id == x)
                    && forall|a: int| 0 <= a < self.abstracts@.len() ==> (#[trigger] self.abstracts@[a]).id != x,
                Err(NumberingError::MissingLevel(x)) => x == reference.level && exists|i: int, a: int|
                    0 <= i < self.instances@.len() && 0 <= a < self.abstracts@.len()
                        && (#[trigger] self.instances@[i]).num_id == reference.num_id
                        && (#[trigger] self.abstracts@[a]).id == self.instances@[i].abstract_num_id
                        && forall|m: int| 0 <= m < self.abstracts@[a].levels@.len() ==> (#[trigger] self.abstracts@[a].levels@[m]).level != x,
                Err(_) => false,
            },
    {
        let i = match find_instance(&self.instances, reference.num_id.0) {
            Some(i) => i,
            None => return Err(NumberingError::MissingNumberingInstance(reference.num_id)),
        };
        let abstract_id = self.instances[i].abstract_num_id;
        let a = match find_abstract(&self.abstracts, abstract_id.0) {
            Some(a) => a,
            None => {
                proof {
                    assert(self.instances@[i as int].num_id == reference.num_id);
                }
                return Err(NumberingError::MissingAbstractNumbering(abstract_id));
            },
        };
        let m = match find_level(&self.abstracts[a].levels, reference.level) {
            Some(m) => m,
            None => {
                proof {
                    assert(self.instances@[i as int].num_id == reference.num_id);
                    assert(self.abstracts@[a as int].id == self.instances@[i as int].abstract_num_id);
                }
                return Err(NumberingError::MissingLevel(reference.level));
            },
        };
        proof {
            assert(self.instances@[i as int].num_id == reference.num_id);
            assert(self.abstracts@[a as int].id == self.instances@[i as int].abstract_num_id);
        }
        Ok(&self.abstracts[a].levels[m])
    }
}

/// The list reference of a paragraph's properties: `None` without `w:numPr` or without
/// a `w:numId` in it; level 0 when `w:ilvl` is absent.
pub open spec fn spec_list_reference(d: &SourceDocument, ppr: int) -> Result<Option<ListReference>, NumberingError> {
    match spec_child(d, ppr, "numPr".spec_bytes()) {
        None => Ok(None),
        Some(numpr) => {
            let num = val_u32(d, spec_child(d, numpr.0 as int, "numId".spec_bytes()));
            let lvl = val_u32(d, spec_child(d, numpr.0 as int, "ilvl".spec_bytes()));
            match (num, lvl) {
                (Err(e), _) => Err(e),
                (_, Err(e)) => Err(e),
                (Ok(n), Ok(l)) => {
                    let level: int = match l {
                        Some(v) => v as int,
                        None => 0,
                    };
                    if level > 255 {
                        Err(NumberingError::MalformedNumbering)
                    } else {
                        match n {
                            Some(num_id) => Ok(Some(ListReference { num_id: NumberingId(num_id), level: level as u8 })),
                            None => Ok(None),
                        }
                    }
                },
            }
        },
    }
}

/// Reads the list reference of a paragraph-properties element.
pub fn list_reference(source: &SourceDocument, ppr: NodeId) -> (r: Result<Option<ListReference>, NumberingError>)
    requires
        source.wf(),
        source.valid_id(ppr),
    ensures
        r == spec_list_reference(source, ppr.0 as int),
{
    let numpr = match child(source, ppr, "numPr") {
        Some(n) => n,
        None => return Ok(None),
    };
    let num = read_val_u32(source, child(source, numpr, "numId"))?;
    let lvl = read_val_u32(source, child(source, numpr, "ilvl"))?;
    let level: u32 = match lvl {
        Some(v) => v,
        None => 0,
    };
    if level > 255 {
        return Err(NumberingError::MalformedNumbering);
    }
    match num {
        Some(num_id) => Ok(Some(ListReference { num_id: NumberingId(num_id), level: level as u8 })),
        None => Ok(None),
    }
}

/// An upper bound of the node ids listed before `kids[k]`.
pub open spec fn below(kids: Seq<NodeId>, k: int, n: int) -> int {
    if 0 <= k < kids.len() {
        kids[k].0 as int
    } else {
        n
    }
}

fn find_abstract(abstracts: &Vec<AbstractNumbering>, id: u32) -> (r: Option<usize>)
    ensures
        match r {
            Some(a) => a < abstracts@.len() && abstracts@[a as int].id.0 == id,
            None => forall|b: int| 0 <= b < abstracts@.len() ==> (#[trigger] abstracts@[b]).id.0 != id,
        },
{
    let mut a: usize = 0;
    while a < abstracts.len()
        invariant
            a <= abstracts@.len(),
            forall|b: int| 0 <= b < a ==> (#[trigger] abstracts@[b]).id.0 != id,
        decreases abstracts@.len() - a,
    {
        if abstracts[a].id.0 == id {
            return Some(a);
        }
        a += 1;
    }
    None
}

fn find_instance(instances: &Vec<NumberingInstance>, id: u32) -> (r: Option<usize>)
    ensures
        match r {
            Some(a) => a < instances@.len() && instances@[a as int].num_id.0 == id,
            None => forall|b: int| 0 <= b < instances@.len() ==> (#[trigger] instances@[b]).num_id.0 != id,
        },
{
    let mut a: usize = 0;
    while a < instances.len()
        invariant
            a <= instances@.len(),
            forall|b: int| 0 <= b < a ==> (#[trigger] instances@[b]).num_id.0 != id,
        decreases instances@.len() - a,
    {
        if instances[a].num_id.0 == id {
            return Some(a);
        }
        a += 1;
    }
    None
}

fn find_level(levels: &Vec<NumberingLevel>, level: u8) -> (r: Option<usize>)
    ensures
        match r {
            Some(a) => a < levels@.len() && levels@[a as int].level == level,
            None => forall|b: int| 0 <= b < levels@.len() ==> (#[trigger] levels@[b]).level != level,
        },
{
    let mut a: usize = 0;
    while a < levels.len()
        invariant
            a <= levels@.len(),
            forall|b: int| 0 <= b < a ==> (#[trigger] levels@[b]).level != level,
        decreases levels@.len() - a,
    {
        if levels[a].level == level {
            return Some(a);
        }
        a += 1;
    }
    None
}

/// The levels of an abstract numbering have distinct level numbers.
pub open spec fn distinct_levels(levels: Seq<NumberingLevel>) -> bool {
    forall|a: int, b: int| 0 <= a < b < levels.len() ==> (#[trigger] levels[a]).level != (#[trigger] levels[b]).level
}

/// The nodes that some levels were read from.
pub open spec fn level_ids(levels: Seq<NumberingLevel>) -> Seq<NodeId> {
    levels.map_values(|l: NumberingLevel| l.source_id)
}

/// Reads the `w:lvl` children of a `w:abstractNum` element.
fn read_levels(source: &SourceDocument, id: NodeId) -> (r: Result<Vec<NumberingLevel>, NumberingError>)
    requires
        source.wf(),
        source.valid_id(id),
        source.spec_parent(id.0 as int) == Some(NodeId(0)),
        is_word(source, id.0 as int, "abstractNum".spec_bytes()),
    ensures
        match r {
            Ok(levels) => distinct_levels(levels@) && (forall|m: int| 0 <= m < levels@.len() ==> (#[trigger] levels@[m]).reads(source, levels@[m].source_id.0 as int) && source.valid_id(levels@[m].source_id) && source.spec_parent(levels@[m].source_id.0 as int) == Some(id))
                && level_ids(levels@) == crate::wordml::named_among(source, source.spec_children(id.0 as int), "lvl".spec_bytes(), "lvl".spec_bytes()),
            Err(e) => (e == NumberingError::MalformedNumbering && exists|i: int| 0 <= i < source.nodes@.len() && malformed_at(source, i))
                || (e == NumberingError::DuplicateId && exists|i: int, j: int| 0 <= i < source.nodes@.len() && 0 <= j < source.nodes@.len() && duplicated_at(source, i, j)),
        },
{
    let kids = source.children(id);
    let _end = source.subtree_end(id);
    let mut levels: Vec<NumberingLevel> = Vec::new();
    let mut k: usize = 0;
    while k < kids.len()
        invariant
            source.wf(),
            source.valid_id(id),
            source.spec_parent(id.0 as int) == Some(NodeId(0)),
            is_word(source, id.0 as int, "abstractNum".spec_bytes()),
            forall|j: int| 0 <= j < kids@.len() ==> source.valid_id(#[trigger] kids@[j]) && source.spec_parent(kids@[j].0 as int) == Some(id),
            k <= kids@.len(),
            distinct_levels(levels@),
            kids@ == source.spec_children(id.0 as int),
            forall|j: int, l: int| 0 <= j < l < kids@.len() ==> (#[trigger] kids@[j]).0 < (#[trigger] kids@[l]).0,
            forall|m: int| 0 <= m < levels@.len() ==> (#[trigger] levels@[m]).source_id.0 < below(kids@, k as int, source.nodes@.len() as int),
            forall|m: int| 0 <= m < levels@.len() ==> (#[trigger] levels@[m]).reads(source, levels@[m].source_id.0 as int) && source.valid_id(levels@[m].source_id) && source.spec_parent(levels@[m].source_id.0 as int) == Some(id) && is_word(source, levels@[m].source_id.0 as int, "lvl".spec_bytes()),
            level_ids(levels@) == crate::wordml::named_among(source, kids@.take(k as int), "lvl".spec_bytes(), "lvl".spec_bytes()),
        decreases kids@.len() - k,
    {
        let c = kids[k];
        assert(kids@.take(k as int + 1).drop_last() =~= kids@.take(k as int));
        let ghost before = levels@;
        if word(source, c, "lvl") {
            let level = match parse_level(source, c) {
                Ok(l) => l,
                Err(e) => {
                    proof {
                        assert(malformed_at(source, c.0 as int));
                    }
                    return Err(e);
                },
            };
            match find_level(&levels, level.level) {
                Some(m) => {
                    proof {
                        let other = levels@[m as int].source_id;
                        assert(duplicated_at(source, other.0 as int, c.0 as int));
                    }
                    return Err(NumberingError::DuplicateId);
                },
                None => {},
            }
            levels.push(level);
            assert(level_ids(levels@) =~= level_ids(before).push(c));
        }
        k += 1;
    }
    assert(kids@.take(kids@.len() as int) =~= kids@);
    Ok(levels)
}

/// The relationship type of numbering parts.
pub const NUMBERING_RELATIONSHIP: &'static str = "http://schemas.openxmlformats.org/officeDocument/2006/relationships/numbering";

/// The same relationship type in Strict Open XML.
pub const NUMBERING_RELATIONSHIP_STRICT: &'static str = "http://purl.oclc.org/ooxml/officeDocument/relationships/numbering";

pub open spec fn is_numbering_relationship(r: crate::header_footer::Relationship) -> bool {
    let t = vstd::utf8::encode_utf8(r.relationship_type@);
    t == NUMBERING_RELATIONSHIP.spec_bytes() || t == NUMBERING_RELATIONSHIP_STRICT.spec_bytes()
}

/// The index of the first numbering relationship at or after `from`.
pub open spec fn first_numbering(rels: Seq<crate::header_footer::Relationship>, from: int) -> Option<int>
    decreases rels.len() - from,
{
    if from < 0 || from >= rels.len() {
        None
    } else if is_numbering_relationship(rels[from]) {
        Some(from)
    } else {
        first_numbering(rels, from + 1)
    }
}

/// The numbering part of the main document, from the main part's relationships: `None`
/// without a numbering relationship, an error when the first one is external.
pub fn numbering_part(relationships: &[crate::header_footer::Relationship]) -> (r: Result<Option<String>, NumberingError>)
    ensures
        r == match first_numbering(relationships@, 0) {
            None => Ok(None),
            Some(k) => match relationships@[k].target {
                crate::header_footer::RelationshipTarget::Internal { part_name } => Ok(Some(part_name)),
                crate::header_footer::RelationshipTarget::External { .. } => Err(NumberingError::ExternalNumberingPart),
            },
        },
{
    let mut k: usize = 0;
    while k < relationships.len()
        invariant
            k <= relationships@.len(),
            first_numbering(relationships@, 0) == first_numbering(relationships@, k as int),
        decreases relationships@.len() - k,
    {
        let t = relationships[k].relationship_type.as_str().as_bytes();
        if crate::bytes::bytes_are(t, NUMBERING_RELATIONSHIP) || crate::bytes::bytes_are(t, NUMBERING_RELATIONSHIP_STRICT) {
            return match &relationships[k].target {
                crate::header_footer::RelationshipTarget::Internal { part_name } => Ok(Some(part_name.clone())),
                crate::header_footer::RelationshipTarget::External { .. } => Err(NumberingError::ExternalNumberingPart),
            };
        }
        k += 1;
    }
    Ok(None)
}

} // verus!
