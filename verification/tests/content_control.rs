use opensuite_docx::content_control::ContentControlKind;
use opensuite_docx::document::DocxDocument;
use opensuite_docx::source::SourceDocument;

const WORD: &str = "http://schemas.openxmlformats.org/wordprocessingml/2006/main";

#[test]
fn accepts_missing_optional_content_control_parts() {
    let source = SourceDocument::parse(format!("<document xmlns=\"{WORD}\"><body><sdt/><p><sdt><sdtPr><date><dateFormat val=\"M/d/yyyy\"/><lid val=\"en-US\"/><calendar val=\"gregorian\"/></date></sdtPr></sdt></p></body></document>").into_bytes()).unwrap();
    let controls: Vec<_> = DocxDocument::new(&source)
        .unwrap()
        .content_controls()
        .into_iter()
        .collect();
    assert_eq!(controls.len(), 2);
    assert_eq!(controls[0].properties_id(), None);
    assert_eq!(controls[0].content_id(), None);
    assert_eq!(controls[0].visible_text().unwrap(), "");
    assert_eq!(
        controls[1].properties().date.unwrap().format.as_deref(),
        Some("M/d/yyyy")
    );
}

#[test]
fn discovers_metadata_content_and_nested_controls_in_source_order() {
    let source = SourceDocument::parse(format!(
        "<x:document xmlns:x=\"{WORD}\" xmlns:y=\"http://schemas.microsoft.com/office/word/2010/wordml\"><x:body><x:sdt><x:sdtPr><x:id x:val=\"123\"/><x:alias x:val=\"Customer Name\"/><x:tag x:val=\"customer_name\"/><x:lock x:val=\"sdtLocked\"/><x:placeholder><x:docPart x:val=\"DefaultName\"/></x:placeholder><x:dataBinding x:storeItemID=\"{{id}}\" x:xpath=\"/root/name\" x:prefixMappings=\"xmlns:a='urn:a'\"/><x:text/></x:sdtPr><x:sdtContent><x:p><x:r><x:t>Acme &amp; Co</x:t></x:r><x:sdt><x:sdtPr><x:dropDownList><x:listItem x:displayText=\"Approved\" x:value=\"approved\"/></x:dropDownList></x:sdtPr><x:sdtContent><x:r><x:t> Approved </x:t></x:r></x:sdtContent></x:sdt></x:p></x:sdtContent></x:sdt><x:p><x:sdt><x:sdtPr><y:checkbox/></x:sdtPr><x:sdtContent><x:r><x:t>Checked</x:t></x:r></x:sdtContent></x:sdt></x:p><x:tbl><x:tr><x:tc><x:sdt><x:sdtContent><x:p><x:r><x:t>Cell</x:t></x:r></x:p></x:sdtContent></x:sdt></x:tc></x:tr></x:tbl><x:sdt><x:unknown/></x:sdt></x:body></x:document>"
    ).into_bytes()).unwrap();
    let document = DocxDocument::new(&source).unwrap();
    let controls: Vec<_> = document.content_controls().into_iter().collect();

    assert_eq!(controls.len(), 5);
    let properties = controls[0].properties();
    assert_eq!(properties.id, Some(123));
    assert_eq!(properties.alias.as_deref(), Some("Customer Name"));
    assert_eq!(properties.tag.as_deref(), Some("customer_name"));
    assert_eq!(properties.kind, ContentControlKind::Text);
    assert_eq!(properties.lock.as_deref(), Some("sdtLocked"));
    assert_eq!(properties.placeholder.as_deref(), Some("DefaultName"));
    assert_eq!(
        properties.data_binding.unwrap().xpath.as_deref(),
        Some("/root/name")
    );
    assert_eq!(controls[0].visible_text().unwrap(), "Acme & Co Approved ");
    assert_eq!(
        controls[1].properties().items[0].value.as_deref(),
        Some("approved")
    );
    assert_eq!(controls[2].properties().kind, ContentControlKind::CheckBox);
    assert_eq!(controls[3].visible_text().unwrap(), "Cell");
    assert_eq!(controls[4].properties().kind, ContentControlKind::Unknown);
    assert!(controls
        .iter()
        .all(|control| source.node(control.source_id()).is_some()));
}
