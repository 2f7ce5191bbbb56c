use opensuite_docx::header_footer::HeaderFooterKind;
use opensuite_docx::mutation::header_footer::{
    simple_header_footer_content, HeaderFooterInspection, PageNumberInspection,
};
use opensuite_docx::mutation::header_footer_part::inspect_header_footer;
use opensuite_docx::mutation::header_footer_text::set_header_footer_text_to_vec;
use opensuite_docx::mutation::page_number::{inspect_page_number, set_page_number_to_vec};
use opensuite_docx::package::{apply_changes, PackagePart, PackageSnapshot, PartChanges};
use opensuite_docx::protocol::{FailureCode, PageNumberAlignment, SetHeaderFooterText, SetPageNumber};
use opensuite_docx::source::SourceDocument;

const WORD: &str = "http://schemas.openxmlformats.org/wordprocessingml/2006/main";
const CONTENT_TYPES: &str = r#"<?xml version="1.0" encoding="UTF-8" standalone="yes"?><Types xmlns="http://schemas.openxmlformats.org/package/2006/content-types"><Default Extension="rels" ContentType="application/vnd.openxmlformats-package.relationships+xml"/><Default Extension="xml" ContentType="application/xml"/><Override PartName="/word/document.xml" ContentType="application/vnd.openxmlformats-officedocument.wordprocessingml.document.main+xml"/><Override PartName="/word/styles.xml" ContentType="application/vnd.openxmlformats-officedocument.wordprocessingml.styles+xml"/><Override PartName="/word/settings.xml" ContentType="application/vnd.openxmlformats-officedocument.wordprocessingml.settings+xml"/></Types>"#;
const ROOT_RELS: &str = r#"<?xml version="1.0" encoding="UTF-8" standalone="yes"?><Relationships xmlns="http://schemas.openxmlformats.org/package/2006/relationships"><Relationship Id="rId1" Type="http://schemas.openxmlformats.org/officeDocument/2006/relationships/officeDocument" Target="word/document.xml"/></Relationships>"#;
const DOCUMENT_RELS: &str = r#"<?xml version="1.0" encoding="UTF-8" standalone="yes"?><Relationships xmlns="http://schemas.openxmlformats.org/package/2006/relationships"><Relationship Id="rId1" Type="http://schemas.openxmlformats.org/officeDocument/2006/relationships/styles" Target="styles.xml"/><Relationship Id="rId2" Type="http://schemas.openxmlformats.org/officeDocument/2006/relationships/settings" Target="settings.xml"/></Relationships>"#;
const DOCUMENT: &str = r#"<?xml version="1.0" encoding="UTF-8" standalone="yes"?><w:document xmlns:w="http://schemas.openxmlformats.org/wordprocessingml/2006/main"><w:body><w:sectPr><w:pgSz w:w="12240" w:h="15840"/><w:pgMar w:top="1440" w:right="1440" w:bottom="1440" w:left="1440" w:header="720" w:footer="720" w:gutter="0"/></w:sectPr></w:body></w:document>"#;
const STYLES: &str = r#"<?xml version="1.0" encoding="UTF-8" standalone="yes"?><w:styles xmlns:w="http://schemas.openxmlformats.org/wordprocessingml/2006/main"></w:styles>"#;
const SETTINGS: &str = r#"<?xml version="1.0" encoding="UTF-8" standalone="yes"?><w:settings xmlns:w="http://schemas.openxmlformats.org/wordprocessingml/2006/main"></w:settings>"#;

fn part(name: &str, content_type: &str, bytes: &str) -> PackagePart {
    PackagePart { name: name.to_owned(), content_type: content_type.to_owned(), bytes: bytes.as_bytes().to_vec() }
}

fn blank() -> PackageSnapshot {
    PackageSnapshot {
        parts: vec![
            part("/[Content_Types].xml", "application/xml", CONTENT_TYPES),
            part("/_rels/.rels", "application/vnd.openxmlformats-package.relationships+xml", ROOT_RELS),
            part("/word/document.xml", "application/vnd.openxmlformats-officedocument.wordprocessingml.document.main+xml", DOCUMENT),
            part("/word/_rels/document.xml.rels", "application/vnd.openxmlformats-package.relationships+xml", DOCUMENT_RELS),
            part("/word/styles.xml", "application/vnd.openxmlformats-officedocument.wordprocessingml.styles+xml", STYLES),
            part("/word/settings.xml", "application/vnd.openxmlformats-officedocument.wordprocessingml.settings+xml", SETTINGS),
        ],
        main_name: "/word/document.xml".to_owned(),
    }
}

fn with_relationships_namespace(xml: &str) -> String {
    xml.replace("<w:document ", "<w:document xmlns:r=\"http://schemas.openxmlformats.org/officeDocument/2006/relationships\" ")
}

fn main_source(package: &PackageSnapshot) -> SourceDocument {
    let main = package.parts.iter().find(|p| p.name == package.main_name).unwrap();
    SourceDocument::parse(main.bytes.clone()).unwrap()
}

fn part_bytes<'a>(package: &'a PackageSnapshot, name: &str) -> &'a [u8] {
    &package.parts.iter().find(|p| p.name == name).unwrap().bytes
}

fn apply(package: &PackageSnapshot, changes: &PartChanges) -> PackageSnapshot {
    apply_changes(package, changes)
}

fn set_text(package: &PackageSnapshot, kind: HeaderFooterKind, text: Option<&str>) -> PackageSnapshot {
    let source = main_source(package);
    let operation = SetHeaderFooterText { kind, text: text.map(|t| t.to_owned()) };
    let changes = set_header_footer_text_to_vec(package, &source, &operation).unwrap();
    apply(package, &changes)
}

fn set_page(package: &PackageSnapshot, kind: HeaderFooterKind, alignment: Option<PageNumberAlignment>) -> PackageSnapshot {
    let source = main_source(package);
    let changes = set_page_number_to_vec(package, &source, &SetPageNumber { kind, alignment }).unwrap();
    apply(package, &changes)
}

fn inspect(package: &PackageSnapshot, kind: HeaderFooterKind) -> HeaderFooterInspection {
    inspect_header_footer(package, &main_source(package), kind).unwrap()
}

fn contains(haystack: &[u8], needle: &str) -> bool {
    haystack.windows(needle.len()).any(|w| w == needle.as_bytes())
}

#[test]
fn creates_replaces_and_clears_independent_default_header_footer_text() {
    let package = set_text(&blank(), HeaderFooterKind::Header, Some("ACME Corporation"));
    assert_eq!(inspect(&package, HeaderFooterKind::Header), HeaderFooterInspection::SimpleText("ACME Corporation".to_owned()));
    let package = set_text(&package, HeaderFooterKind::Footer, Some("Confidential"));
    assert_eq!(inspect(&package, HeaderFooterKind::Header), HeaderFooterInspection::SimpleText("ACME Corporation".to_owned()));
    assert_eq!(inspect(&package, HeaderFooterKind::Footer), HeaderFooterInspection::SimpleText("Confidential".to_owned()));
    let package = set_text(&package, HeaderFooterKind::Header, None);
    assert_eq!(inspect(&package, HeaderFooterKind::Header), HeaderFooterInspection::Absent);
    assert_eq!(inspect(&package, HeaderFooterKind::Footer), HeaderFooterInspection::SimpleText("Confidential".to_owned()));
}

#[test]
fn page_numbers_coexist_with_simple_header_footer_text_and_update_in_place() {
    let package = set_text(&blank(), HeaderFooterKind::Footer, Some("Confidential"));
    let package = set_page(&package, HeaderFooterKind::Footer, Some(PageNumberAlignment::Center));
    assert_eq!(
        inspect(&package, HeaderFooterKind::Footer),
        HeaderFooterInspection::SimpleTextAndPageNumber("Confidential".to_owned(), PageNumberAlignment::Center)
    );
    let package = set_text(&package, HeaderFooterKind::Footer, Some("Internal"));
    let package = set_page(&package, HeaderFooterKind::Footer, Some(PageNumberAlignment::Right));
    assert_eq!(
        inspect_page_number(&package, &main_source(&package)).unwrap(),
        PageNumberInspection::Footer(PageNumberAlignment::Right)
    );
    let package = set_page(&package, HeaderFooterKind::Footer, None);
    assert_eq!(inspect(&package, HeaderFooterKind::Footer), HeaderFooterInspection::SimpleText("Internal".to_owned()));
}

#[test]
fn creates_header_page_number_and_rejects_unfamiliar_fields() {
    let package = set_page(&blank(), HeaderFooterKind::Header, Some(PageNumberAlignment::Right));
    assert_eq!(
        inspect_page_number(&package, &main_source(&package)).unwrap(),
        PageNumberInspection::Header(PageNumberAlignment::Right)
    );
    let invalid = SourceDocument::parse(format!(r#"<w:hdr xmlns:w="{WORD}"><w:p><w:pPr><w:jc w:val="right"/></w:pPr><w:fldSimple w:instr=" NUMPAGES "/></w:p></w:hdr>"#).into_bytes()).unwrap();
    assert!(simple_header_footer_content(&invalid, HeaderFooterKind::Header).is_none());
    assert!(contains(part_bytes(&package, "/word/header1.xml"), " PAGE "));
}

#[test]
fn new_parts_get_a_relationship_a_reference_and_a_content_type() {
    let package = set_text(&blank(), HeaderFooterKind::Footer, Some("A & B"));
    let rels = part_bytes(&package, "/word/_rels/document.xml.rels");
    assert!(contains(rels, r#"<Relationship Id="rId3" Type="http://schemas.openxmlformats.org/officeDocument/2006/relationships/footer" Target="footer1.xml"/></Relationships>"#));
    let types = part_bytes(&package, "/[Content_Types].xml");
    assert!(contains(types, r#"<Override PartName="/word/footer1.xml" ContentType="application/vnd.openxmlformats-officedocument.wordprocessingml.footer+xml"/></Types>"#));
    let main = part_bytes(&package, "/word/document.xml");
    assert!(contains(main, r#"<w:sectPr><w:footerReference w:type="default" xmlns:r="http://schemas.openxmlformats.org/officeDocument/2006/relationships" r:id="rId3"/><w:pgSz"#));
    assert_eq!(
        part_bytes(&package, "/word/footer1.xml"),
        format!(r#"<?xml version="1.0" encoding="UTF-8" standalone="yes"?><w:ftr xmlns:w="{WORD}"><w:p><w:r><w:t>A &amp; B</w:t></w:r></w:p></w:ftr>"#).as_bytes()
    );
    let package = set_text(&package, HeaderFooterKind::Header, Some(" spaced "));
    let main = part_bytes(&package, "/word/document.xml");
    assert!(contains(main, r#"r:id="rId4"/><w:footerReference"#));
    assert!(contains(part_bytes(&package, "/word/header1.xml"), r#"<w:t xml:space="preserve"> spaced </w:t>"#));
}

#[test]
fn clearing_an_absent_header_changes_nothing_and_page_number_needs_a_target() {
    let package = blank();
    let source = main_source(&package);
    let changes = set_header_footer_text_to_vec(&package, &source, &SetHeaderFooterText { kind: HeaderFooterKind::Header, text: None }).unwrap();
    assert_eq!(changes.replaced.len(), 1);
    assert_eq!(changes.replaced[0].1, DOCUMENT.as_bytes());
    assert!(changes.added.is_empty());
    let error = set_page_number_to_vec(&package, &source, &SetPageNumber { kind: HeaderFooterKind::Footer, alignment: None }).unwrap_err();
    assert_eq!(error.code, FailureCode::TargetNotFound);
    assert_eq!(inspect_page_number(&package, &source).unwrap(), PageNumberInspection::Absent);
}

#[test]
fn two_page_numbers_and_ambiguous_references_are_unsupported() {
    let package = set_page(&blank(), HeaderFooterKind::Header, Some(PageNumberAlignment::Left));
    let package = set_page(&package, HeaderFooterKind::Footer, Some(PageNumberAlignment::Center));
    assert_eq!(inspect(&package, HeaderFooterKind::Footer), HeaderFooterInspection::SimplePageNumber(PageNumberAlignment::Center));
    assert_eq!(inspect_page_number(&package, &main_source(&package)).unwrap(), PageNumberInspection::Unsupported);
    let doubled = with_relationships_namespace(DOCUMENT).replace(
        "<w:sectPr>",
        r#"<w:sectPr><w:headerReference w:type="default" r:id="rId1"/><w:headerReference w:type="default" r:id="rId2"/>"#,
    );
    let mut package = blank();
    package.parts[2].bytes = doubled.into_bytes();
    assert_eq!(inspect(&package, HeaderFooterKind::Header), HeaderFooterInspection::Unsupported);
    let error = set_header_footer_text_to_vec(&package, &main_source(&package), &SetHeaderFooterText { kind: HeaderFooterKind::Header, text: Some("x".to_owned()) }).unwrap_err();
    assert_eq!(error.code, FailureCode::UnsupportedOperation);
}

#[test]
fn a_reference_to_a_missing_relationship_is_unsupported() {
    let mut package = blank();
    package.parts[2].bytes = with_relationships_namespace(DOCUMENT)
        .replace("<w:sectPr>", r#"<w:sectPr><w:footerReference w:type="default" r:id="rId9"/>"#)
        .into_bytes();
    let error = inspect_header_footer(&package, &main_source(&package), HeaderFooterKind::Footer).unwrap_err();
    assert_eq!(error.code, FailureCode::UnsupportedOperation);
    assert_eq!(inspect(&package, HeaderFooterKind::Header), HeaderFooterInspection::Absent);
}
