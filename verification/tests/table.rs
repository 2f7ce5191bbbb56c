use opensuite_docx::mutation::page_break::{body_block_signatures, BlockKind};
use opensuite_docx::mutation::table::create_table_to_vec;
use opensuite_docx::protocol::{CreateTable, FailureCode, ParagraphPlacement};
use opensuite_docx::source::SourceDocument;

const BLANK: &str = r#"<?xml version="1.0" encoding="UTF-8" standalone="yes"?><w:document xmlns:w="http://schemas.openxmlformats.org/wordprocessingml/2006/main"><w:body><w:sectPr><w:pgSz w:w="12240" w:h="15840"/><w:pgMar w:top="1440" w:right="1440" w:bottom="1440" w:left="1440" w:header="720" w:footer="720" w:gutter="0"/></w:sectPr></w:body></w:document>"#;

#[test]
fn table_creates_a_readable_table_with_positive_grid_widths() {
    creates_a_readable_table_with_positive_grid_widths();
}

#[test]
fn table_lifecycle_creates_a_readable_table_with_positive_grid_widths() {
    creates_a_readable_table_with_positive_grid_widths();
}

fn creates_a_readable_table_with_positive_grid_widths() {
    let source = SourceDocument::parse(BLANK.as_bytes().to_vec()).unwrap();
    let output = create_table_to_vec(
        &source,
        &CreateTable {
            rows: vec![
                vec!["A".to_owned(), "B".to_owned()],
                vec!["1".to_owned(), "2".to_owned()],
            ],
            placement: ParagraphPlacement::End,
        },
    )
    .unwrap();
    let source = SourceDocument::parse(output).unwrap();
    let xml = String::from_utf8(source.original_bytes().to_vec()).unwrap();
    assert!(xml.contains("<w:tblBorders>"));
    assert!(xml.contains("<w:tblCellMar>"));
    assert!(xml.contains("w:w=\"9360\""));
    assert!(xml.contains("w:before=\"0\" w:after=\"0\""));
    assert!(!xml.contains("w:w:w") && !xml.contains("w:wbefore"));
    assert!(!xml.contains("w:gridCol w:w=\"0\""));
    assert!(xml.contains("<w:gridCol w:w=\"4680\"/><w:gridCol w:w=\"4680\"/>"));
    let signatures = body_block_signatures(&source).unwrap();
    assert_eq!(signatures, vec![(BlockKind::Table, b"AB12".to_vec())]);
}

#[test]
fn shares_out_the_remainder_of_the_grid_and_rejects_ragged_rows() {
    let source = SourceDocument::parse(BLANK.as_bytes().to_vec()).unwrap();
    let output = create_table_to_vec(
        &source,
        &CreateTable {
            rows: vec![vec![" x ".to_owned(), "y".to_owned(), "&".to_owned(), String::new(), String::new(), String::new(), String::new()]],
            placement: ParagraphPlacement::Start,
        },
    )
    .unwrap();
    let xml = String::from_utf8(output).unwrap();
    assert!(xml.contains("<w:gridCol w:w=\"1338\"/><w:gridCol w:w=\"1337\"/>"));
    assert!(xml.contains("<w:t xml:space=\"preserve\"> x </w:t>"));
    assert!(xml.contains("<w:t>&amp;</w:t>"));
    let ragged = create_table_to_vec(
        &source,
        &CreateTable {
            rows: vec![vec!["a".to_owned()], vec![]],
            placement: ParagraphPlacement::End,
        },
    );
    let error = ragged.unwrap_err();
    assert_eq!(error.code, FailureCode::InvalidOperation);
    assert_eq!(error.reason_code, Some("INVALID_TABLE_DIMENSIONS"));
}
