use opensuite_docx::document::DocxDocument;
use opensuite_docx::field::{FieldError, FieldKind, FieldState};
use opensuite_docx::source::SourceDocument;

const WORD: &str = "http://schemas.openxmlformats.org/wordprocessingml/2006/main";

#[test]
fn discovers_simple_complex_nested_and_table_fields() {
    let source = SourceDocument::parse(format!(
        "<x:document xmlns:x=\"{WORD}\"><x:body><x:p><x:fldSimple x:instr=\"DATE\"><x:r><x:t>September 4</x:t></x:r></x:fldSimple></x:p><x:p><x:r><x:fldChar x:fldCharType=\"begin\"/></x:r><x:r><x:instrText xml:space=\"preserve\"> MERGEFIELD </x:instrText></x:r><x:r><x:instrText>CustomerName </x:instrText></x:r><x:r><x:fldChar x:fldCharType=\"separate\"/></x:r><x:r><x:t>Acme Corp</x:t></x:r><x:r><x:fldChar x:fldCharType=\"end\"/></x:r></x:p><x:p><x:r><x:fldChar x:fldCharType=\"begin\"/></x:r><x:r><x:instrText>OUTER</x:instrText></x:r><x:r><x:fldChar x:fldCharType=\"separate\"/></x:r><x:r><x:t>A</x:t></x:r><x:r><x:fldChar x:fldCharType=\"begin\"/></x:r><x:r><x:instrText>INNER</x:instrText></x:r><x:r><x:fldChar x:fldCharType=\"separate\"/></x:r><x:r><x:t>B</x:t></x:r><x:r><x:fldChar x:fldCharType=\"end\"/></x:r><x:r><x:t>C</x:t></x:r><x:r><x:fldChar x:fldCharType=\"end\"/></x:r></x:p><x:tbl><x:tr><x:tc><x:p><x:fldSimple x:instr=\"PAGE\"><x:r><x:t>1</x:t></x:r></x:fldSimple></x:p></x:tc></x:tr></x:tbl></x:body></x:document>"
    ).into_bytes()).unwrap();
    let fields = DocxDocument::new(&source).unwrap().fields();
    let fields: Vec<_> = fields.iter().iter().collect();

    assert_eq!(fields.len(), 5);
    assert_eq!(fields[0].kind(), FieldKind::Simple);
    assert_eq!(fields[0].instruction().unwrap().as_deref(), Some("DATE"));
    assert_eq!(
        fields[0].result_text().unwrap().as_deref(),
        Some("September 4")
    );
    assert_eq!(
        fields[1].instruction().unwrap().as_deref(),
        Some(" MERGEFIELD CustomerName ")
    );
    assert_eq!(
        fields[1].result_text().unwrap().as_deref(),
        Some("Acme Corp")
    );
    assert!(fields[1].has_separator());
    assert_eq!(fields[2].instruction().unwrap().as_deref(), Some("OUTER"));
    assert_eq!(fields[2].result_text().unwrap().as_deref(), Some("ABC"));
    assert_eq!(fields[3].instruction().unwrap().as_deref(), Some("INNER"));
    assert_eq!(fields[3].result_text().unwrap().as_deref(), Some("B"));
    assert_eq!(fields[4].instruction().unwrap().as_deref(), Some("PAGE"));
    assert_eq!(fields[4].result_text().unwrap().as_deref(), Some("1"));
    assert!(fields
        .iter()
        .all(|field| source.node(field.source_id()).is_some()));
}

#[test]
fn keeps_unterminated_fields_and_reports_unmatched_markers() {
    let source = SourceDocument::parse(format!(
        "<document xmlns=\"{WORD}\"><body><p><r><fldChar fldCharType=\"end\"/></r><r><fldChar fldCharType=\"begin\"/></r><r><instrText>DATE</instrText></r></p></body></document>"
    ).into_bytes()).unwrap();
    let fields = DocxDocument::new(&source).unwrap().fields();
    let field = fields.iter().iter().next().unwrap();

    assert_eq!(field.state(), FieldState::Unterminated);
    assert_eq!(field.instruction().unwrap().as_deref(), Some("DATE"));
    assert_eq!(field.result_text().unwrap(), None);
    assert!(matches!(
        fields.errors().iter().next(),
        Some(FieldError::UnmatchedEnd(_))
    ));
    assert!(fields
        .errors()
        .iter()
        .any(|error| matches!(error, FieldError::UnterminatedBegin(_))));
}

#[test]
fn leaves_complete_fields_without_a_separator_without_a_result() {
    let source = SourceDocument::parse(format!(
        "<document xmlns=\"{WORD}\"><body><p><r><fldChar fldCharType=\"begin\"/></r><r><instrText>DATE</instrText></r><r><fldChar fldCharType=\"end\"/></r></p></body></document>"
    ).into_bytes()).unwrap();
    let fields = DocxDocument::new(&source).unwrap().fields();
    let field = fields.iter().iter().next().unwrap();

    assert_eq!(field.state(), FieldState::Complete);
    assert!(!field.has_separator());
    assert_eq!(field.instruction().unwrap().as_deref(), Some("DATE"));
    assert_eq!(field.result_text().unwrap(), None);
}

#[test]
fn counts_fields_and_reports_error_codes() {
    let source = SourceDocument::parse(format!(
        "<document xmlns=\"{WORD}\"><body><p><r><fldChar fldCharType=\"separate\"/></r></p></body></document>"
    ).into_bytes()).unwrap();
    let fields = DocxDocument::new(&source).unwrap().fields();
    assert!(fields.is_empty());
    assert_eq!(fields.len(), 0);
    assert_eq!(fields.errors().len(), 1);
    assert!(!fields.errors()[0].code().is_empty());
}
