use opensuite_docx::blank::{blank_package, BLANK_DOCUMENT};
use opensuite_docx::document::DocxDocument;
use opensuite_docx::header_footer::HeaderFooterKind;
use opensuite_docx::mutation::common::direct_body_blocks;
use opensuite_docx::mutation::header_footer::HeaderFooterInspection;
use opensuite_docx::mutation::header_footer_part::inspect_header_footer;
use opensuite_docx::mutation::header_footer_text::set_header_footer_text_to_vec;
use opensuite_docx::numbering::numbering_part;
use opensuite_docx::package::{
    apply_changes, content_type_for, main_document_name, parse_relationships, PackagePart, PartChanges,
};
use opensuite_docx::protocol::{FailureCode, SetHeaderFooterText};
use opensuite_docx::source::SourceDocument;

fn part_text(parts: &[PackagePart], name: &str) -> Vec<u8> {
    parts.iter().find(|p| p.name == name).unwrap().bytes.clone()
}

#[test]
fn the_blank_package_opens_as_an_empty_document() {
    let package = blank_package();
    assert_eq!(package, blank_package_again());
    let types = SourceDocument::parse(part_text(&package.parts, "/[Content_Types].xml")).unwrap();
    assert_eq!(
        content_type_for(&types, b"/word/document.xml").unwrap(),
        b"application/vnd.openxmlformats-officedocument.wordprocessingml.document.main+xml".to_vec()
    );
    assert_eq!(
        content_type_for(&types, b"/word/_rels/document.xml.rels").unwrap(),
        b"application/vnd.openxmlformats-package.relationships+xml".to_vec()
    );
    assert_eq!(content_type_for(&types, b"/word/media/image1.png"), None);
    let root = SourceDocument::parse(part_text(&package.parts, "/_rels/.rels")).unwrap();
    let relationships = parse_relationships(&root, &b"/".to_vec());
    assert_eq!(main_document_name(&relationships).unwrap(), "/word/document.xml");
    let main = SourceDocument::parse(part_text(&package.parts, &package.main_name)).unwrap();
    assert_eq!(main.original_bytes(), BLANK_DOCUMENT.as_bytes());
    assert!(DocxDocument::new(&main).is_ok());
    assert_eq!(inspect_header_footer(&package, &main, HeaderFooterKind::Header).unwrap(), HeaderFooterInspection::Absent);
    let document_rels = SourceDocument::parse(part_text(&package.parts, "/word/_rels/document.xml.rels")).unwrap();
    let relationships = parse_relationships(&document_rels, &b"/word/".to_vec());
    assert_eq!(relationships.len(), 2);
    assert_eq!(numbering_part(&relationships).unwrap(), None);
    let styles = String::from_utf8(part_text(&package.parts, "/word/styles.xml")).unwrap();
    assert!(styles.contains("w:after=\"120\""));
    assert!(styles.contains("w:line=\"264\""));
    assert!(styles.contains("w:sz w:val=\"32\""));
}

fn blank_package_again() -> opensuite_docx::package::PackageSnapshot {
    blank_package()
}

#[test]
fn changes_replace_named_parts_and_append_new_ones() {
    let package = blank_package();
    let changes = PartChanges {
        replaced: vec![("/word/styles.xml".to_owned(), b"<a/>".to_vec()), ("/word/styles.xml".to_owned(), b"<b/>".to_vec())],
        added: vec![PackagePart { name: "/word/extra.xml".to_owned(), content_type: "application/xml".to_owned(), bytes: b"<c/>".to_vec() }],
    };
    let changed = apply_changes(&package, &changes);
    assert_eq!(changed.parts.len(), 7);
    assert_eq!(part_text(&changed.parts, "/word/styles.xml"), b"<b/>".to_vec());
    assert_eq!(changed.parts[6].name, "/word/extra.xml");
    assert_eq!(changed.parts[2], package.parts[2]);
}

#[test]
fn a_header_cannot_be_added_without_the_main_relationships_part() {
    let mut package = blank_package();
    package.parts.retain(|p| p.name != "/word/_rels/document.xml.rels");
    let main = SourceDocument::parse(part_text(&package.parts, &package.main_name)).unwrap();
    let error = set_header_footer_text_to_vec(&package, &main, &SetHeaderFooterText { kind: HeaderFooterKind::Header, text: Some("x".to_owned()) }).unwrap_err();
    assert_eq!(error.code, FailureCode::MissingPart);
}

#[test]
fn creates_a_deterministic_valid_document_with_authoring_styles() {
    let first = blank_package();
    assert_eq!(first, blank_package());
    let main = SourceDocument::parse(part_text(&first.parts, &first.main_name)).unwrap();
    assert_eq!(direct_body_blocks(&main).unwrap().1.len(), 0);
    let styles = String::from_utf8(part_text(&first.parts, "/word/styles.xml")).unwrap();
    for name in ["Normal", "Title", "Heading 1", "Heading 2", "Heading 3"] {
        assert!(styles.contains(&format!("<w:name w:val=\"{name}\"/>")));
    }
    assert!(styles.contains("w:after=\"120\""));
    assert!(styles.contains("w:line=\"264\""));
    assert!(styles.contains("w:sz w:val=\"32\""));
    let settings = String::from_utf8(part_text(&first.parts, "/word/settings.xml")).unwrap();
    assert!(settings.contains("w:name=\"compatibilityMode\""));
    assert!(settings.contains("w:val=\"15\""));
    let relationships = String::from_utf8(part_text(&first.parts, "/word/_rels/document.xml.rels")).unwrap();
    assert!(relationships.contains("relationships/settings"));
    assert!(first.parts.iter().any(|p| p.name == "/[Content_Types].xml"));
}
