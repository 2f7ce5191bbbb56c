use opensuite_docx::blank::BLANK_DOCUMENT;
use opensuite_docx::mutation::table::create_table_to_vec;
use opensuite_docx::mutation::table_cell_lookup::resolve_table_cell;
use opensuite_docx::protocol::{CreateTable, FailureCode, ParagraphPlacement, TableCellTarget};
use opensuite_docx::source::SourceDocument;

fn two_tables() -> SourceDocument {
    let source = SourceDocument::parse(BLANK_DOCUMENT.as_bytes().to_vec()).unwrap();
    let bytes = create_table_to_vec(
        &source,
        &CreateTable {
            rows: vec![
                vec!["Name".into(), "Role".into(), "City".into()],
                vec!["Alice".into(), "CEO".into(), "Paris".into()],
                vec!["Bob".into(), "CTO".into(), "Rome".into()],
            ],
            placement: ParagraphPlacement::End,
        },
    )
    .unwrap();
    let source = SourceDocument::parse(bytes).unwrap();
    let bytes = create_table_to_vec(
        &source,
        &CreateTable {
            rows: vec![vec!["Name".into(), "Role".into()], vec!["Bob".into(), "CFO".into()]],
            placement: ParagraphPlacement::End,
        },
    )
    .unwrap();
    SourceDocument::parse(bytes).unwrap()
}

fn by_handle(h: &str) -> TableCellTarget {
    TableCellTarget { row_label: String::new(), column_header: String::new(), occurrence: None, handle: Some(h.into()) }
}

fn by_label(row: &str, column: &str, occurrence: Option<usize>) -> TableCellTarget {
    TableCellTarget { row_label: row.into(), column_header: column.into(), occurrence, handle: None }
}

#[test]
fn resolves_a_cell_by_handle_with_its_place() {
    let source = two_tables();
    let cell = resolve_table_cell(&source, &by_handle("t0:r2:c2")).unwrap();
    assert_eq!(cell.text, b"Rome".to_vec());
    assert_eq!((cell.table_index, cell.row_index, cell.column_index), (0, 2, 2));
    let cell = resolve_table_cell(&source, &by_handle("t1:r1:c1")).unwrap();
    assert_eq!(cell.text, b"CFO".to_vec());
}

#[test]
fn resolves_a_cell_by_row_label_and_column_header_across_tables() {
    let source = two_tables();
    let cell = resolve_table_cell(&source, &by_label(" Alice ", "Role ", None)).unwrap();
    assert_eq!(cell.text, b"CEO".to_vec());
    assert_eq!((cell.table_index, cell.row_index, cell.column_index), (0, 0, 0));
    let cell = resolve_table_cell(&source, &by_label("Bob", "Role", Some(0))).unwrap();
    assert_eq!(cell.text, b"CTO".to_vec());
    let cell = resolve_table_cell(&source, &by_label("Bob", "Role", Some(1))).unwrap();
    assert_eq!(cell.text, b"CFO".to_vec());
}

#[test]
fn reports_missing_and_ambiguous_cells() {
    let source = two_tables();
    assert_eq!(resolve_table_cell(&source, &by_handle("t0:r3:c0")).unwrap_err().code, FailureCode::TargetNotFound);
    assert_eq!(resolve_table_cell(&source, &by_handle("t0:r0:c3")).unwrap_err().code, FailureCode::TargetNotFound);
    assert_eq!(resolve_table_cell(&source, &by_handle("t2:r0:c0")).unwrap_err().code, FailureCode::TargetNotFound);
    assert_eq!(resolve_table_cell(&source, &by_handle("t0:r0")).unwrap_err().code, FailureCode::PreconditionFailed);
    assert_eq!(resolve_table_cell(&source, &by_label("Dave", "Role", None)).unwrap_err().code, FailureCode::TargetNotFound);
    assert_eq!(resolve_table_cell(&source, &by_label("Alice", "Name", None)).unwrap_err().code, FailureCode::TargetNotFound);
    assert_eq!(resolve_table_cell(&source, &by_label("Bob", "Role", Some(2))).unwrap_err().code, FailureCode::TargetNotFound);
    assert_eq!(resolve_table_cell(&source, &by_label("Bob", "Role", None)).unwrap_err().code, FailureCode::TargetAmbiguous);
}
