use vstd::prelude::*;
use vstd::string::StringSliceAdditionalSpecFns;

use crate::numbers::{parse_i64, signed_value};
use crate::source::{NodeId, SourceDocument};
use crate::wordml::{
    as_text, attr_of, attr_text, child, collect_text, collected, is_word, last_child_named,
    last_named_before, spec_child, string_view, word, SemanticError,
};

verus! {

/// The Word 2010 namespace of `w14:checkbox`.
pub const WORD_2010: &'static str = "http://schemas.microsoft.com/office/word/2010/wordml";

/// The Word 2012 namespace of `w15:repeatingSection`.
pub const WORD_2012: &'static str = "http://schemas.microsoft.com/office/word/2012/wordml";

/// A read-only WordprocessingML content control (`w:sdt`) backed by source XML.
pub struct ContentControl<'a> {
    pub source: &'a SourceDocument,
    pub source_id: NodeId,
    pub properties_id: Option<NodeId>,
    pub content_id: Option<NodeId>,
}

#[derive(Clone, Debug, PartialEq, Eq)]
pub struct DataBinding {
    pub store_item_id: Option<String>,
    pub xpath: Option<String>,
    pub prefix_mappings: Option<String>,
}

#[derive(Clone, Debug, PartialEq, Eq)]
pub struct ContentControlListItem {
    pub display_text: Option<String>,
    pub value: Option<String>,
}

#[derive(Clone, Debug, PartialEq, Eq)]
pub struct DateMetadata {
    pub format: Option<String>,
    pub language_id: Option<String>,
    pub calendar: Option<String>,
}

#[derive(Clone, Copy, Debug, PartialEq, Eq, Structural)]
pub enum ContentControlKind {
    Text,
    RichText,
    Date,
    DropDownList,
    ComboBox,
    CheckBox,
    Picture,
    Group,
    RepeatingSection,
    RepeatingSectionItem,
    Unknown,
}

#[derive(Clone, Debug, PartialEq, Eq)]
pub struct ContentControlProperties {
    pub source_id: Option<NodeId>,
    pub id: Option<i64>,
    pub alias: Option<String>,
    pub tag: Option<String>,
    pub kind: ContentControlKind,
    pub lock: Option<String>,
    pub placeholder: Option<String>,
    pub data_binding: Option<DataBinding>,
    pub items: Vec<ContentControlListItem>,
    pub date: Option<DateMetadata>,
}

/// The kind a child of `w:sdtPr` declares, if it declares one.
pub open spec fn declared_kind(d: &SourceDocument, c: int) -> Option<ContentControlKind> {
    if is_word(d, c, "text".spec_bytes()) {
        Some(ContentControlKind::Text)
    } else if is_word(d, c, "richText".spec_bytes()) {
        Some(ContentControlKind::RichText)
    } else if is_word(d, c, "date".spec_bytes()) {
        Some(ContentControlKind::Date)
    } else if is_word(d, c, "dropDownList".spec_bytes()) {
        Some(ContentControlKind::DropDownList)
    } else if is_word(d, c, "comboBox".spec_bytes()) {
        Some(ContentControlKind::ComboBox)
    } else if is_word(d, c, "picture".spec_bytes()) {
        Some(ContentControlKind::Picture)
    } else if is_word(d, c, "group".spec_bytes()) {
        Some(ContentControlKind::Group)
    } else if d.is_named(c, WORD_2010.spec_bytes(), "checkbox".spec_bytes()) {
        Some(ContentControlKind::CheckBox)
    } else if d.is_named(c, WORD_2012.spec_bytes(), "repeatingSection".spec_bytes()) {
        Some(ContentControlKind::RepeatingSection)
    } else if d.is_named(c, WORD_2012.spec_bytes(), "repeatingSectionItem".spec_bytes()) {
        Some(ContentControlKind::RepeatingSectionItem)
    } else {
        None
    }
}

/// The kind declared by the first of `kids[from..]` that declares one.
pub open spec fn kind_from(d: &SourceDocument, kids: Seq<NodeId>, from: int) -> ContentControlKind
    decreases kids.len() - from,
{
    if from < 0 || from >= kids.len() {
        ContentControlKind::Unknown
    } else {
        match declared_kind(d, kids[from].0 as int) {
            Some(k) => k,
            None => kind_from(d, kids, from + 1),
        }
    }
}

/// The `w:sdtPr` child that declares a content control's kind names it literally:
/// `w:text`, `w:richText`, `w:date`, `w:dropDownList`, `w:comboBox`, `w:picture` and
/// `w:group`, and `w14:checkbox`, `w15:repeatingSection` and
/// `w15:repeatingSectionItem`; each kind is declared by exactly that element.
pub proof fn law_declared_kinds(d: &SourceDocument, c: int)
    ensures
        is_word(d, c, "text".spec_bytes()) ==> declared_kind(d, c) == Some(ContentControlKind::Text),
        is_word(d, c, "richText".spec_bytes()) ==> declared_kind(d, c) == Some(ContentControlKind::RichText),
        is_word(d, c, "date".spec_bytes()) ==> declared_kind(d, c) == Some(ContentControlKind::Date),
        is_word(d, c, "dropDownList".spec_bytes()) ==> declared_kind(d, c) == Some(ContentControlKind::DropDownList),
        is_word(d, c, "comboBox".spec_bytes()) ==> declared_kind(d, c) == Some(ContentControlKind::ComboBox),
        is_word(d, c, "picture".spec_bytes()) ==> declared_kind(d, c) == Some(ContentControlKind::Picture),
        is_word(d, c, "group".spec_bytes()) ==> declared_kind(d, c) == Some(ContentControlKind::Group),
        d.is_named(c, WORD_2010.spec_bytes(), "checkbox".spec_bytes()) ==> declared_kind(d, c) == Some(ContentControlKind::CheckBox),
        d.is_named(c, WORD_2012.spec_bytes(), "repeatingSection".spec_bytes()) ==> declared_kind(d, c) == Some(
            ContentControlKind::RepeatingSection,
        ),
        d.is_named(c, WORD_2012.spec_bytes(), "repeatingSectionItem".spec_bytes()) ==> declared_kind(d, c) == Some(
            ContentControlKind::RepeatingSectionItem,
        ),
        declared_kind(d, c) == Some(ContentControlKind::Text) ==> is_word(d, c, "text".spec_bytes()),
        declared_kind(d, c) == Some(ContentControlKind::RichText) ==> is_word(d, c, "richText".spec_bytes()),
        declared_kind(d, c) == Some(ContentControlKind::Date) ==> is_word(d, c, "date".spec_bytes()),
        declared_kind(d, c) == Some(ContentControlKind::DropDownList) ==> is_word(d, c, "dropDownList".spec_bytes()),
        declared_kind(d, c) == Some(ContentControlKind::ComboBox) ==> is_word(d, c, "comboBox".spec_bytes()),
        declared_kind(d, c) == Some(ContentControlKind::Picture) ==> is_word(d, c, "picture".spec_bytes()),
        declared_kind(d, c) == Some(ContentControlKind::Group) ==> is_word(d, c, "group".spec_bytes()),
        declared_kind(d, c) == Some(ContentControlKind::CheckBox) ==> d.is_named(c, WORD_2010.spec_bytes(), "checkbox".spec_bytes()),
        declared_kind(d, c) == Some(ContentControlKind::RepeatingSection) ==> d.is_named(c, WORD_2012.spec_bytes(), "repeatingSection".spec_bytes()),
        declared_kind(d, c) == Some(ContentControlKind::RepeatingSectionItem) ==> d.is_named(
            c,
            WORD_2012.spec_bytes(),
            "repeatingSectionItem".spec_bytes(),
        ),
        declared_kind(d, c) != Some(ContentControlKind::Unknown),
{
    reveal_strlit("text");
    vstd::string::is_ascii_spec_bytes("text");
    assert(vstd::string::is_ascii("text"));
    reveal_strlit("richText");
    vstd::string::is_ascii_spec_bytes("richText");
    assert(vstd::string::is_ascii("richText"));
    reveal_strlit("date");
    vstd::string::is_ascii_spec_bytes("date");
    assert(vstd::string::is_ascii("date"));
    reveal_strlit("dropDownList");
    vstd::string::is_ascii_spec_bytes("dropDownList");
    assert(vstd::string::is_ascii("dropDownList"));
    reveal_strlit("comboBox");
    vstd::string::is_ascii_spec_bytes("comboBox");
    assert(vstd::string::is_ascii("comboBox"));
    reveal_strlit("picture");
    vstd::string::is_ascii_spec_bytes("picture");
    assert(vstd::string::is_ascii("picture"));
    reveal_strlit("group");
    vstd::string::is_ascii_spec_bytes("group");
    assert(vstd::string::is_ascii("group"));
    reveal_strlit("checkbox");
    vstd::string::is_ascii_spec_bytes("checkbox");
    assert(vstd::string::is_ascii("checkbox"));
    reveal_strlit("repeatingSection");
    vstd::string::is_ascii_spec_bytes("repeatingSection");
    assert(vstd::string::is_ascii("repeatingSection"));
    reveal_strlit("repeatingSectionItem");
    vstd::string::is_ascii_spec_bytes("repeatingSectionItem");
    assert(vstd::string::is_ascii("repeatingSectionItem"));
    assert("text".spec_bytes()[0] != "date".spec_bytes()[0]);
    assert("richText".spec_bytes()[0] != "comboBox".spec_bytes()[0]);
    assert("richText".spec_bytes()[0] != "checkbox".spec_bytes()[0]);
    assert("comboBox".spec_bytes()[1] != "checkbox".spec_bytes()[1]);
}

/// A content control's kind is the one its first declaring `w:sdtPr` child names: a
/// `w:dropDownList` child there makes a drop-down list, a `w:comboBox` child a combo box.
pub proof fn law_first_declaration(d: &SourceDocument, kids: Seq<NodeId>, from: int)
    requires
        0 <= from < kids.len(),
    ensures
        is_word(d, kids[from].0 as int, "dropDownList".spec_bytes()) ==> kind_from(d, kids, from) == ContentControlKind::DropDownList,
        is_word(d, kids[from].0 as int, "comboBox".spec_bytes()) ==> kind_from(d, kids, from) == ContentControlKind::ComboBox,
        is_word(d, kids[from].0 as int, "text".spec_bytes()) ==> kind_from(d, kids, from) == ContentControlKind::Text,
        is_word(d, kids[from].0 as int, "date".spec_bytes()) ==> kind_from(d, kids, from) == ContentControlKind::Date,
        d.is_named(kids[from].0 as int, WORD_2010.spec_bytes(), "checkbox".spec_bytes()) ==> kind_from(d, kids, from)
            == ContentControlKind::CheckBox,
{
    law_declared_kinds(d, kids[from].0 as int);
}

fn declared_kind_exec(source: &SourceDocument, c: NodeId) -> (r: Option<ContentControlKind>)
    ensures
        r == declared_kind(source, c.0 as int),
{
    if word(source, c, "text") {
        Some(ContentControlKind::Text)
    } else if word(source, c, "richText") {
        Some(ContentControlKind::RichText)
    } else if word(source, c, "date") {
        Some(ContentControlKind::Date)
    } else if word(source, c, "dropDownList") {
        Some(ContentControlKind::DropDownList)
    } else if word(source, c, "comboBox") {
        Some(ContentControlKind::ComboBox)
    } else if word(source, c, "picture") {
        Some(ContentControlKind::Picture)
    } else if word(source, c, "group") {
        Some(ContentControlKind::Group)
    } else if source.is_element_named(c, WORD_2010, "checkbox") {
        Some(ContentControlKind::CheckBox)
    } else if source.is_element_named(c, WORD_2012, "repeatingSection") {
        Some(ContentControlKind::RepeatingSection)
    } else if source.is_element_named(c, WORD_2012, "repeatingSectionItem") {
        Some(ContentControlKind::RepeatingSectionItem)
    } else {
        None
    }
}

/// The kind declared by the first child of `w:sdtPr` that declares one.
fn kind(source: &SourceDocument, properties_id: NodeId) -> (r: ContentControlKind)
    requires
        source.wf(),
        source.valid_id(properties_id),
    ensures
        r == kind_from(source, source.spec_children(properties_id.0 as int), 0),
{
    let kids = source.children(properties_id);
    let mut k: usize = 0;
    while k < kids.len()
        invariant
            kids@ == source.spec_children(properties_id.0 as int),
            k <= kids@.len(),
            kind_from(source, kids@, 0) == kind_from(source, kids@, k as int),
        decreases kids@.len() - k,
    {
        match declared_kind_exec(source, kids[k]) {
            Some(found) => {
                return found;
            },
            None => {},
        }
        k += 1;
    }
    ContentControlKind::Unknown
}

/// An optional attribute value read as a signed 64-bit number.
pub open spec fn i64_of(o: Option<Seq<u8>>) -> Option<i64> {
    match o {
        Some(b) => match signed_value(b) {
            Some(v) => if i64::MIN <= v <= i64::MAX {
                Some(v as i64)
            } else {
                None
            },
            None => None,
        },
        None => None,
    }
}

/// The last child of `w:sdtPr` with the given name.
pub open spec fn last_property(d: &SourceDocument, p: int, local: Seq<u8>) -> Option<NodeId> {
    last_named_before(d, d.spec_children(p), d.spec_children(p).len() as int, local, local)
}

/// The `val` of the given first child of an optional node.
pub open spec fn child_val(d: &SourceDocument, node: Option<NodeId>, local: Seq<u8>) -> Option<Seq<u8>> {
    match node {
        Some(c) => attr_of(d, spec_child(d, c.0 as int, local), "val".spec_bytes()),
        None => None,
    }
}

/// The list entries named `w:listItem` among `kids[..upto]`.
pub open spec fn list_items(d: &SourceDocument, kids: Seq<NodeId>, upto: int) -> Seq<NodeId>
    decreases upto,
{
    if upto <= 0 || upto > kids.len() {
        seq![]
    } else if is_word(d, kids[upto - 1].0 as int, "listItem".spec_bytes()) {
        list_items(d, kids, upto - 1).push(kids[upto - 1])
    } else {
        list_items(d, kids, upto - 1)
    }
}

pub open spec fn spec_list_items(d: &SourceDocument, list: Option<NodeId>) -> Seq<NodeId> {
    match list {
        Some(l) => list_items(d, d.spec_children(l.0 as int), d.spec_children(l.0 as int).len() as int),
        None => seq![],
    }
}

impl<'a> ContentControl<'a> {
    pub open spec fn wf(&self) -> bool {
        &&& self.source.wf()
        &&& self.source.valid_id(self.source_id)
        &&& is_word(self.source, self.source_id.0 as int, "sdt".spec_bytes())
        &&& self.properties_id == spec_child(self.source, self.source_id.0 as int, "sdtPr".spec_bytes())
        &&& self.content_id == spec_child(self.source, self.source_id.0 as int, "sdtContent".spec_bytes())
        &&& self.properties_id matches Some(p) ==> self.source.valid_id(p)
        &&& self.content_id matches Some(c) ==> self.source.valid_id(c)
    }

    pub fn source_id(&self) -> (r: NodeId)
        ensures
            r == self.source_id,
    {
        self.source_id
    }

    pub fn properties_id(&self) -> (r: Option<NodeId>)
        ensures
            r == self.properties_id,
    {
        self.properties_id
    }

    pub fn content_id(&self) -> (r: Option<NodeId>)
        ensures
            r == self.content_id,
    {
        self.content_id
    }

    /// The visible text: the `w:t` text inside the content region, in document order.
    pub fn visible_text(&self) -> (r: Result<String, SemanticError>)
        requires
            self.wf(),
        ensures
            match r {
                Ok(text) => match self.content_id {
                    Some(c) => {
                        let span = self.source.spec_span(c.0 as int);
                        collected(
                            self.source,
                            "t".spec_bytes(),
                            span.start as int,
                            span.end as int,
                            true,
                            self.source.nodes@.len() as int,
                        ) matches Some(t) && text@ == vstd::utf8::decode_utf8(t)
                    },
                    None => text@.len() == 0,
                },
                Err(_) => match self.content_id {
                    Some(c) => {
                        let span = self.source.spec_span(c.0 as int);
                        match collected(
                            self.source,
                            "t".spec_bytes(),
                            span.start as int,
                            span.end as int,
                            true,
                            self.source.nodes@.len() as int,
                        ) {
                            Some(t) => !vstd::utf8::valid_utf8(t),
                            None => true,
                        }
                    },
                    None => false,
                },
            },
    {
        let content = match self.content_id {
            Some(c) => c,
            None => {
                return Ok(String::new());
            },
        };
        let span = self.source.span(content);
        let bytes = collect_text(self.source, "t", span.start, span.end, true)?;
        match crate::bytes::utf8_string(bytes) {
            Some(t) => Ok(t),
            None => Err(SemanticError::InvalidTextNode),
        }
    }

    /// The declared properties of the control, read from `w:sdtPr`. Where a property
    /// element occurs more than once, the last one counts.
    pub fn properties(&self) -> (r: ContentControlProperties)
        requires
            self.wf(),
        ensures
            r.source_id == self.properties_id,
            ({
                let d = self.source;
                match self.properties_id {
                    Some(p) => {
                        let p = p.0 as int;
                        &&& r.id == i64_of(attr_of(d, last_property(d, p, "id".spec_bytes()), "val".spec_bytes()))
                        &&& string_view(r.alias) == as_text(attr_of(d, last_property(d, p, "alias".spec_bytes()), "val".spec_bytes()))
                        &&& string_view(r.tag) == as_text(attr_of(d, last_property(d, p, "tag".spec_bytes()), "val".spec_bytes()))
                        &&& string_view(r.lock) == as_text(attr_of(d, last_property(d, p, "lock".spec_bytes()), "val".spec_bytes()))
                        &&& string_view(r.placeholder) == as_text(child_val(d, last_property(d, p, "placeholder".spec_bytes()), "docPart".spec_bytes()))
                        &&& r.kind == kind_from(d, d.spec_children(p), 0)
                        &&& (r.data_binding is Some <==> last_property(d, p, "dataBinding".spec_bytes()) is Some)
                        &&& r.data_binding matches Some(b) ==> {
                            let node = last_property(d, p, "dataBinding".spec_bytes());
                            &&& string_view(b.store_item_id) == as_text(attr_of(d, node, "storeItemID".spec_bytes()))
                            &&& string_view(b.xpath) == as_text(attr_of(d, node, "xpath".spec_bytes()))
                            &&& string_view(b.prefix_mappings) == as_text(attr_of(d, node, "prefixMappings".spec_bytes()))
                        }
                        &&& (r.date is Some <==> last_property(d, p, "date".spec_bytes()) is Some)
                        &&& r.date matches Some(m) ==> {
                            let node = last_property(d, p, "date".spec_bytes());
                            &&& string_view(m.format) == as_text(child_val(d, node, "dateFormat".spec_bytes()))
                            &&& string_view(m.language_id) == as_text(child_val(d, node, "lid".spec_bytes()))
                            &&& string_view(m.calendar) == as_text(child_val(d, node, "calendar".spec_bytes()))
                        }
                        &&& {
                            let list = last_named_before(d, d.spec_children(p), d.spec_children(p).len() as int, "dropDownList".spec_bytes(), "comboBox".spec_bytes());
                            let items = spec_list_items(d, list);
                            &&& r.items@.len() == items.len()
                            &&& forall|k: int| 0 <= k < items.len() ==> {
                                &&& string_view((#[trigger] r.items@[k]).display_text) == as_text(attr_of(d, Some(items[k]), "displayText".spec_bytes()))
                                &&& string_view(r.items@[k].value) == as_text(attr_of(d, Some(items[k]), "value".spec_bytes()))
                            }
                        }
                    },
                    None => {
                        &&& r.id is None && r.alias is None && r.tag is None && r.lock is None
                        &&& r.placeholder is None && r.data_binding is None && r.date is None
                        &&& r.items@.len() == 0 && r.kind == ContentControlKind::Unknown
                    },
                }
            }),
    {
        let d = self.source;
        let p = match self.properties_id {
            Some(p) => p,
            None => {
                return ContentControlProperties {
                    source_id: None,
                    id: None,
                    alias: None,
                    tag: None,
                    kind: ContentControlKind::Unknown,
                    lock: None,
                    placeholder: None,
                    data_binding: None,
                    items: Vec::new(),
                    date: None,
                };
            },
        };
        let id_node = last_child_named(d, p, "id", "id");
        let id = match id_node {
            Some(c) => match d.attribute(c, "val") {
                Some(v) => parse_i64(v.as_slice()),
                None => None,
            },
            None => None,
        };
        let alias = attr_text(d, last_child_named(d, p, "alias", "alias"), "val");
        let tag = attr_text(d, last_child_named(d, p, "tag", "tag"), "val");
        let lock = attr_text(d, last_child_named(d, p, "lock", "lock"), "val");
        let placeholder = match last_child_named(d, p, "placeholder", "placeholder") {
            Some(c) => attr_text(d, child(d, c, "docPart"), "val"),
            None => None,
        };
        let data_binding = match last_child_named(d, p, "dataBinding", "dataBinding") {
            Some(c) => Some(
                DataBinding {
                    store_item_id: attr_text(d, Some(c), "storeItemID"),
                    xpath: attr_text(d, Some(c), "xpath"),
                    prefix_mappings: attr_text(d, Some(c), "prefixMappings"),
                },
            ),
            None => None,
        };
        let date = match last_child_named(d, p, "date", "date") {
            Some(c) => Some(
                DateMetadata {
                    format: attr_text(d, child(d, c, "dateFormat"), "val"),
                    language_id: attr_text(d, child(d, c, "lid"), "val"),
                    calendar: attr_text(d, child(d, c, "calendar"), "val"),
                },
            ),
            None => None,
        };
        let list = last_child_named(d, p, "dropDownList", "comboBox");
        let items = match list {
            Some(l) => list_entries(d, l),
            None => Vec::new(),
        };
        ContentControlProperties {
            source_id: Some(p),
            id,
            alias,
            tag,
            kind: kind(d, p),
            lock,
            placeholder,
            data_binding,
            items,
            date,
        }
    }
}

/// The `w:listItem` entries of a list control, in document order.
fn list_entries(source: &SourceDocument, list: NodeId) -> (r: Vec<ContentControlListItem>)
    requires
        source.wf(),
        source.valid_id(list),
    ensures
        ({
            let items = spec_list_items(source, Some(list));
            &&& r@.len() == items.len()
            &&& forall|k: int| 0 <= k < items.len() ==> {
                &&& string_view((#[trigger] r@[k]).display_text) == as_text(attr_of(source, Some(items[k]), "displayText".spec_bytes()))
                &&& string_view(r@[k].value) == as_text(attr_of(source, Some(items[k]), "value".spec_bytes()))
            }
        }),
{
    let kids = source.children(list);
    let _end = source.subtree_end(list);
    let mut out: Vec<ContentControlListItem> = Vec::new();
    let mut k: usize = 0;
    while k < kids.len()
        invariant
            source.wf(),
            kids@ == source.spec_children(list.0 as int),
            forall|j: int| 0 <= j < kids@.len() ==> source.valid_id(#[trigger] kids@[j]),
            k <= kids@.len(),
            ({
                let items = list_items(source, kids@, k as int);
                &&& out@.len() == items.len()
                &&& forall|m: int| 0 <= m < items.len() ==> {
                    &&& string_view((#[trigger] out@[m]).display_text) == as_text(attr_of(source, Some(items[m]), "displayText".spec_bytes()))
                    &&& string_view(out@[m].value) == as_text(attr_of(source, Some(items[m]), "value".spec_bytes()))
                }
            }),
        decreases kids@.len() - k,
    {
        let c = kids[k];
        if word(source, c, "listItem") {
            let item = ContentControlListItem {
                display_text: attr_text(source, Some(c), "displayText"),
                value: attr_text(source, Some(c), "value"),
            };
            out.push(item);
        }
        k += 1;
    }
    out
}

/// The content controls of a document, in document order.
pub fn content_controls<'a>(source: &'a SourceDocument) -> (r: Vec<ContentControl<'a>>)
    requires
        source.wf(),
    ensures
        forall|k: int| 0 <= k < r@.len() ==> (#[trigger] r@[k]).wf() && r@[k].source == source,
        forall|k: int, l: int| 0 <= k < l < r@.len() ==> (#[trigger] r@[k]).source_id.0 < (#[trigger] r@[l]).source_id.0,
        forall|i: int|
            0 <= i < source.nodes@.len() && is_word(source, i, "sdt".spec_bytes()) ==> exists|k: int|
                0 <= k < r@.len() && (#[trigger] r@[k]).source_id.0 == i,
{
    let n = source.node_count();
    let mut out: Vec<ContentControl<'a>> = Vec::new();
    let mut i: usize = 0;
    while i < n
        invariant
            source.wf(),
            n == source.nodes@.len(),
            i <= n,
            forall|k: int| 0 <= k < out@.len() ==> (#[trigger] out@[k]).wf() && out@[k].source == source && out@[k].source_id.0 < i,
            forall|k: int, l: int| 0 <= k < l < out@.len() ==> (#[trigger] out@[k]).source_id.0 < (#[trigger] out@[l]).source_id.0,
            forall|m: int|
                0 <= m < i && is_word(source, m, "sdt".spec_bytes()) ==> exists|k: int|
                    0 <= k < out@.len() && (#[trigger] out@[k]).source_id.0 == m,
        decreases n - i,
    {
        let id = NodeId(i);
        if word(source, id, "sdt") {
            let control = ContentControl {
                source,
                source_id: id,
                properties_id: child(source, id, "sdtPr"),
                content_id: child(source, id, "sdtContent"),
            };
            let ghost prev = out@;
            out.push(control);
            proof {
                assert forall|m: int|
                    0 <= m < i + 1 && is_word(source, m, "sdt".spec_bytes()) implies exists|k: int|
                        0 <= k < out@.len() && (#[trigger] out@[k]).source_id.0 == m by {
                    if m == i {
                        assert(out@[out@.len() - 1].source_id.0 == m);
                    } else {
                        let k = choose|k: int| 0 <= k < prev.len() && (#[trigger] prev[k]).source_id.0 == m;
                        assert(out@[k] == prev[k]);
                    }
                }
            }
        }
        i += 1;
    }
    out
}

} // verus!
