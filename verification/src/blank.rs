use vstd::prelude::*;
use vstd::string::StringSliceAdditionalSpecFns;

use crate::bytes::str_bytes;
use crate::package::{part_view, PackagePart, PackageSnapshot};

verus! {

/// The content types of a blank document.
pub const BLANK_CONTENT_TYPES: &'static str = r#"<?xml version="1.0" encoding="UTF-8" standalone="yes"?><Types xmlns="http://schemas.openxmlformats.org/package/2006/content-types"><Default Extension="rels" ContentType="application/vnd.openxmlformats-package.relationships+xml"/><Default Extension="xml" ContentType="application/xml"/><Override PartName="/word/document.xml" ContentType="application/vnd.openxmlformats-officedocument.wordprocessingml.document.main+xml"/><Override PartName="/word/styles.xml" ContentType="application/vnd.openxmlformats-officedocument.wordprocessingml.styles+xml"/><Override PartName="/word/settings.xml" ContentType="application/vnd.openxmlformats-officedocument.wordprocessingml.settings+xml"/></Types>"#;

/// The root relationships of a blank document: its main document.
pub const BLANK_ROOT_RELS: &'static str = r#"<?xml version="1.0" encoding="UTF-8" standalone="yes"?><Relationships xmlns="http://schemas.openxmlformats.org/package/2006/relationships"><Relationship Id="rId1" Type="http://schemas.openxmlformats.org/officeDocument/2006/relationships/officeDocument" Target="word/document.xml"/></Relationships>"#;

/// The main document's relationships: styles and settings.
pub const BLANK_DOCUMENT_RELS: &'static str = r#"<?xml version="1.0" encoding="UTF-8" standalone="yes"?><Relationships xmlns="http://schemas.openxmlformats.org/package/2006/relationships"><Relationship Id="rId1" Type="http://schemas.openxmlformats.org/officeDocument/2006/relationships/styles" Target="styles.xml"/><Relationship Id="rId2" Type="http://schemas.openxmlformats.org/officeDocument/2006/relationships/settings" Target="settings.xml"/></Relationships>"#;

/// The main document: an empty body with one Letter section and one-inch margins.
pub const BLANK_DOCUMENT: &'static str = r#"<?xml version="1.0" encoding="UTF-8" standalone="yes"?><w:document xmlns:w="http://schemas.openxmlformats.org/wordprocessingml/2006/main"><w:body><w:sectPr><w:pgSz w:w="12240" w:h="15840"/><w:pgMar w:top="1440" w:right="1440" w:bottom="1440" w:left="1440" w:header="720" w:footer="720" w:gutter="0"/></w:sectPr></w:body></w:document>"#;

/// The authoring styles: Normal, Title and three heading levels.
pub const BLANK_STYLES: &'static str = r#"<?xml version="1.0" encoding="UTF-8" standalone="yes"?><w:styles xmlns:w="http://schemas.openxmlformats.org/wordprocessingml/2006/main"><w:docDefaults><w:rPrDefault><w:rPr><w:rFonts w:ascii="Arial" w:hAnsi="Arial" w:cs="Arial"/><w:sz w:val="22"/></w:rPr></w:rPrDefault><w:pPrDefault><w:pPr><w:spacing w:after="120" w:line="264" w:lineRule="auto"/></w:pPr></w:pPrDefault></w:docDefaults><w:style w:type="paragraph" w:default="1" w:styleId="Normal"><w:name w:val="Normal"/></w:style><w:style w:type="paragraph" w:styleId="Title"><w:name w:val="Title"/><w:basedOn w:val="Normal"/><w:pPr><w:spacing w:before="0" w:after="240"/><w:keepNext/></w:pPr><w:rPr><w:b/><w:sz w:val="40"/></w:rPr></w:style><w:style w:type="paragraph" w:styleId="Heading1"><w:name w:val="Heading 1"/><w:basedOn w:val="Normal"/><w:pPr><w:spacing w:before="240" w:after="120"/><w:keepNext/></w:pPr><w:rPr><w:b/><w:sz w:val="32"/></w:rPr></w:style><w:style w:type="paragraph" w:styleId="Heading2"><w:name w:val="Heading 2"/><w:basedOn w:val="Normal"/><w:pPr><w:spacing w:before="200" w:after="100"/><w:keepNext/></w:pPr><w:rPr><w:b/><w:sz w:val="28"/></w:rPr></w:style><w:style w:type="paragraph" w:styleId="Heading3"><w:name w:val="Heading 3"/><w:basedOn w:val="Normal"/><w:pPr><w:spacing w:before="160" w:after="80"/><w:keepNext/></w:pPr><w:rPr><w:b/><w:sz w:val="24"/></w:rPr></w:style></w:styles>"#;

/// The settings: Word 2013 compatibility.
pub const BLANK_SETTINGS: &'static str = r#"<?xml version="1.0" encoding="UTF-8" standalone="yes"?><w:settings xmlns:w="http://schemas.openxmlformats.org/wordprocessingml/2006/main"><w:compat><w:compatSetting w:name="compatibilityMode" w:uri="http://schemas.microsoft.com/office/word" w:val="15"/></w:compat></w:settings>"#;

/// The parts of a blank document, in the order it is written: name, content type, text.
pub open spec fn blank_parts() -> Seq<(Seq<char>, Seq<char>, Seq<u8>)> {
    seq![
        ("/[Content_Types].xml"@, "application/xml"@, BLANK_CONTENT_TYPES.spec_bytes()),
        ("/_rels/.rels"@, "application/vnd.openxmlformats-package.relationships+xml"@, BLANK_ROOT_RELS.spec_bytes()),
        ("/word/document.xml"@, "application/vnd.openxmlformats-officedocument.wordprocessingml.document.main+xml"@, BLANK_DOCUMENT.spec_bytes()),
        ("/word/_rels/document.xml.rels"@, "application/vnd.openxmlformats-package.relationships+xml"@, BLANK_DOCUMENT_RELS.spec_bytes()),
        ("/word/styles.xml"@, "application/vnd.openxmlformats-officedocument.wordprocessingml.styles+xml"@, BLANK_STYLES.spec_bytes()),
        ("/word/settings.xml"@, "application/vnd.openxmlformats-officedocument.wordprocessingml.settings+xml"@, BLANK_SETTINGS.spec_bytes()),
    ]
}

fn blank_part(name: &str, content_type: &str, text: &str) -> (r: PackagePart)
    ensures
        part_view(r) == (name@, content_type@, text.spec_bytes()),
{
    PackagePart { name: name.to_owned(), content_type: content_type.to_owned(), bytes: str_bytes(text) }
}

/// A small deterministic document suitable for ordinary authoring: content types, root
/// relationships, an empty main document with one section, its relationships, the
/// authoring styles and the settings.
pub fn blank_package() -> (r: PackageSnapshot)
    ensures
        r.main_name@ == "/word/document.xml"@,
        r.parts@.len() == 6,
        forall|k: int| 0 <= k < 6 ==> part_view(#[trigger] r.parts@[k]) == blank_parts()[k],
{
    let mut parts: Vec<PackagePart> = Vec::new();
    parts.push(blank_part("/[Content_Types].xml", "application/xml", BLANK_CONTENT_TYPES));
    parts.push(blank_part("/_rels/.rels", "application/vnd.openxmlformats-package.relationships+xml", BLANK_ROOT_RELS));
    parts.push(blank_part("/word/document.xml", "application/vnd.openxmlformats-officedocument.wordprocessingml.document.main+xml", BLANK_DOCUMENT));
    parts.push(blank_part("/word/_rels/document.xml.rels", "application/vnd.openxmlformats-package.relationships+xml", BLANK_DOCUMENT_RELS));
    parts.push(blank_part("/word/styles.xml", "application/vnd.openxmlformats-officedocument.wordprocessingml.styles+xml", BLANK_STYLES));
    parts.push(blank_part("/word/settings.xml", "application/vnd.openxmlformats-officedocument.wordprocessingml.settings+xml", BLANK_SETTINGS));
    PackageSnapshot { parts, main_name: "/word/document.xml".to_owned() }
}

} // verus!
