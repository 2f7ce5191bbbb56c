use opensuite_docx::mutation::table_edit::{all_table_rows, delete_table_row_to_vec, delete_table_to_vec};
use opensuite_docx::mutation::table_column::{delete_table_column_to_vec, insert_table_column_after_to_vec};
use opensuite_docx::mutation::table_row::{insert_table_row_after_to_vec, insert_table_rows_after_to_vec};
use opensuite_docx::package::{apply_changes, PackagePart, PackageSnapshot, PartChanges};
use opensuite_docx::protocol::{
    DeleteTable, DeleteTableColumn, DeleteTableRow, InsertTableColumnAfter, FailureCode, InsertTableRowAfter, InsertTableRowsAfter, TableRowTarget,
    TableTarget,
};
use opensuite_docx::source::SourceDocument;

const WORD: &str = "http://schemas.openxmlformats.org/wordprocessingml/2006/main";

fn parse(xml: &str) -> SourceDocument {
    SourceDocument::parse(xml.as_bytes().to_vec()).unwrap()
}

fn rows_of(bytes: &[u8]) -> Vec<Vec<Vec<String>>> {
    let source = SourceDocument::parse(bytes.to_vec()).unwrap();
    all_table_rows(&source)
        .unwrap()
        .into_iter()
        .map(|table| {
            table
                .into_iter()
                .map(|row| row.into_iter().map(|cell| String::from_utf8(cell).unwrap()).collect())
                .collect()
        })
        .collect()
}

fn strings(rows: &[&[&str]]) -> Vec<Vec<String>> {
    rows.iter().map(|row| row.iter().map(|c| (*c).to_owned()).collect()).collect()
}

/// A package holding the main part and one unrelated payload.
fn fixture(document: &str) -> PackageSnapshot {
    PackageSnapshot {
        parts: vec![
            PackagePart { name: "/word/document.xml".to_owned(), content_type: "application/xml".to_owned(), bytes: document.as_bytes().to_vec() },
            PackagePart { name: "/word/media/image.bin".to_owned(), content_type: "application/octet-stream".to_owned(), bytes: vec![1, 2, 3] },
        ],
        main_name: "/word/document.xml".to_owned(),
    }
}

fn entry(package: &PackageSnapshot, name: &str) -> Vec<u8> {
    package.parts.iter().find(|p| p.name == name).unwrap().bytes.clone()
}

fn with_main(package: &PackageSnapshot, main: Vec<u8>) -> PackageSnapshot {
    apply_changes(package, &PartChanges { replaced: vec![(package.main_name.clone(), main)], added: Vec::new() })
}

fn row_operation(headers: &[&str], after: &str, cells: &[&str]) -> InsertTableRowAfter {
    InsertTableRowAfter {
        table: TableTarget { header_cells: headers.iter().map(|v| (*v).to_owned()).collect(), occurrence: None, handle: None },
        after: TableRowTarget { first_cell_text: after.to_owned(), occurrence: None, handle: None },
        cells: cells.iter().map(|v| (*v).to_owned()).collect(),
    }
}

fn row_execute(package: &PackageSnapshot, operation: &InsertTableRowAfter) -> Result<Vec<u8>, opensuite_docx::protocol::OperationFailure> {
    let source = SourceDocument::parse(entry(package, "/word/document.xml")).unwrap();
    insert_table_row_after_to_vec(&source, operation)
}

fn rows_execute(package: &PackageSnapshot, operation: &InsertTableRowsAfter) -> Result<Vec<u8>, opensuite_docx::protocol::OperationFailure> {
    let source = SourceDocument::parse(entry(package, "/word/document.xml")).unwrap();
    insert_table_rows_after_to_vec(&source, operation)
}

#[test]
fn inserts_a_safe_row_after_a_semantic_anchor_and_preserves_tables() {
    let xml = format!(
        "<w:document xmlns:w=\"{WORD}\"><w:body><w:p><w:r><w:t>Before</w:t></w:r></w:p><w:tbl><w:tr><w:tc><w:tcPr><w:shd w:fill=\"DDDDDD\"/></w:tcPr><w:p><w:pPr><w:jc w:val=\"center\"/></w:pPr><w:r><w:rPr><w:b/></w:rPr><w:t>Name</w:t></w:r></w:p></w:tc><w:tc><w:p><w:r><w:t>Role</w:t></w:r></w:p></w:tc></w:tr><w:tr><w:tc><w:tcPr><w:shd w:fill=\"EEEEEE\"/></w:tcPr><w:p><w:pPr><w:jc w:val=\"left\"/></w:pPr><w:r><w:rPr><w:i/></w:rPr><w:t>Alice</w:t></w:r></w:p></w:tc><w:tc><w:p><w:r><w:t>CEO</w:t></w:r></w:p></w:tc></w:tr><w:tr><w:tc><w:tcPr><w:shd w:fill=\"EEEEEE\"/></w:tcPr><w:p><w:pPr><w:jc w:val=\"left\"/></w:pPr><w:r><w:rPr><w:i/></w:rPr><w:t>Bob</w:t></w:r></w:p></w:tc><w:tc><w:p><w:r><w:t>CTO</w:t></w:r></w:p></w:tc></w:tr></w:tbl><w:tbl><w:tr><w:tc><w:p><w:r><w:t>Other</w:t></w:r></w:p></w:tc><w:tc><w:p><w:r><w:t>Table</w:t></w:r></w:p></w:tc></w:tr><w:tr><w:tc><w:p><w:r><w:t>Keep</w:t></w:r></w:p></w:tc><w:tc><w:p><w:r><w:t>Same</w:t></w:r></w:p></w:tc></w:tr></w:tbl></w:body></w:document>"
    );
    let input = fixture(&xml);
    let output = row_execute(&input, &row_operation(&["Name", "Role"], "Bob", &[" Charlie ", "CFO & < >"])).unwrap();
    let package = with_main(&input, output.clone());
    assert_eq!(
        rows_of(&entry(&package, "/word/document.xml")),
        vec![
            strings(&[&["Name", "Role"], &["Alice", "CEO"], &["Bob", "CTO"], &[" Charlie ", "CFO & < >"]]),
            strings(&[&["Other", "Table"], &["Keep", "Same"]]),
        ]
    );
    let output_xml = String::from_utf8(output).unwrap();
    assert!(output_xml.contains("xml:space=\"preserve\"> Charlie </w:t>"));
    assert!(output_xml.contains("CFO &amp; &lt; &gt;"));
    assert!(output_xml.contains("<w:shd w:fill=\"EEEEEE\"/>"));
    assert_eq!(entry(&package, "/word/media/image.bin"), vec![1, 2, 3]);
}

#[test]
fn inserts_multiple_rows_contiguously_and_validates_all_rows_first() {
    let xml = format!(
        "<w:document xmlns:w=\"{WORD}\"><w:body><w:tbl><w:tr><w:tc><w:p><w:r><w:t>Name</w:t></w:r></w:p></w:tc><w:tc><w:p><w:r><w:t>Role</w:t></w:r></w:p></w:tc></w:tr><w:tr><w:tc><w:p><w:r><w:t>Alice</w:t></w:r></w:p></w:tc><w:tc><w:p><w:r><w:t>CEO</w:t></w:r></w:p></w:tc></w:tr><w:tr><w:tc><w:p><w:r><w:t>Bob</w:t></w:r></w:p></w:tc><w:tc><w:p><w:r><w:t>CTO</w:t></w:r></w:p></w:tc></w:tr></w:tbl></w:body></w:document>"
    );
    let input = fixture(&xml);
    let operation = InsertTableRowsAfter {
        table: TableTarget { header_cells: vec!["Name".to_owned(), "Role".to_owned()], occurrence: None, handle: None },
        after: TableRowTarget { first_cell_text: "Alice".to_owned(), occurrence: None, handle: None },
        rows: strings(&[&["Charlie", "CFO"], &["David", "COO"], &["Emma", ""]]),
    };
    let output = rows_execute(&input, &operation).unwrap();
    let package = with_main(&input, output);
    assert_eq!(
        rows_of(&entry(&package, "/word/document.xml"))[0][2..],
        strings(&[&["Charlie", "CFO"], &["David", "COO"], &["Emma", ""], &["Bob", "CTO"]])[..]
    );
    assert_eq!(entry(&package, "/word/media/image.bin"), vec![1, 2, 3]);

    let after_final = InsertTableRowsAfter {
        table: TableTarget { header_cells: Vec::new(), occurrence: None, handle: Some("t0".to_owned()) },
        after: TableRowTarget { first_cell_text: String::new(), occurrence: None, handle: Some("t0:r2".to_owned()) },
        rows: strings(&[&["Final one", "CIO"], &["Final two", "CPO"]]),
    };
    let output = rows_execute(&input, &after_final).unwrap();
    assert_eq!(rows_of(&output)[0][3..], strings(&[&["Final one", "CIO"], &["Final two", "CPO"]])[..]);

    let mut invalid = operation;
    invalid.rows[1].pop();
    assert_eq!(rows_execute(&input, &invalid).unwrap_err().code, FailureCode::PreconditionFailed);
}

#[test]
fn rejects_unsafe_or_ambiguous_row_insertions() {
    let table = "<w:tbl><w:tr><w:tc><w:p><w:r><w:t>Name</w:t></w:r></w:p></w:tc><w:tc><w:p><w:r><w:t>Role</w:t></w:r></w:p></w:tc></w:tr><w:tr><w:tc><w:p><w:r><w:t>Bob</w:t></w:r></w:p></w:tc><w:tc><w:p><w:r><w:t>CTO</w:t></w:r></w:p></w:tc></w:tr></w:tbl>";
    let input = fixture(&format!("<w:document xmlns:w=\"{WORD}\"><w:body>{table}{table}</w:body></w:document>"));
    let operation = row_operation(&["Name", "Role"], "Bob", &["Charlie", "CFO"]);
    assert_eq!(row_execute(&input, &operation).unwrap_err().code, FailureCode::TargetAmbiguous);
    let wrong = row_operation(&["Name", "Role"], "Bob", &["Charlie"]);
    let single = fixture(&format!("<w:document xmlns:w=\"{WORD}\"><w:body>{table}</w:body></w:document>"));
    assert_eq!(row_execute(&single, &wrong).unwrap_err().code, FailureCode::PreconditionFailed);
}

fn two_tables() -> String {
    format!(
        "<w:document xmlns:w=\"{WORD}\"><w:body><w:tbl><w:tr><w:tc><w:p><w:r><w:t>Name</w:t></w:r></w:p></w:tc></w:tr><w:tr><w:tc><w:p><w:r><w:t>Alice</w:t></w:r></w:p></w:tc></w:tr><w:tr><w:tc><w:p><w:r><w:t>Bob</w:t></w:r></w:p></w:tc></w:tr></w:tbl><w:p/><w:tbl><w:tr><w:tc><w:p><w:r><w:t> Other </w:t></w:r></w:p></w:tc></w:tr></w:tbl></w:body></w:document>"
    )
}

fn target(headers: &[&str], handle: Option<&str>) -> TableTarget {
    TableTarget { header_cells: headers.iter().map(|v| (*v).to_owned()).collect(), occurrence: None, handle: handle.map(|h| h.to_owned()) }
}

#[test]
fn deletes_a_table_by_trimmed_header_or_handle() {
    let source = parse(&two_tables());
    let output = delete_table_to_vec(&source, &DeleteTable { table: target(&["Other"], None) }).unwrap();
    assert_eq!(rows_of(&output), vec![strings(&[&["Name"], &["Alice"], &["Bob"]])]);
    let output = delete_table_to_vec(&source, &DeleteTable { table: target(&[], Some("t0")) }).unwrap();
    assert_eq!(rows_of(&output), vec![strings(&[&[" Other "]])]);
    assert!(String::from_utf8(output).unwrap().contains("<w:body><w:p/><w:tbl>"));
    let missing = delete_table_to_vec(&source, &DeleteTable { table: target(&["Nothing"], None) }).unwrap_err();
    assert_eq!(missing.code, FailureCode::TargetNotFound);
    let malformed = delete_table_to_vec(&source, &DeleteTable { table: target(&[], Some("x0")) }).unwrap_err();
    assert_eq!(malformed.code, FailureCode::PreconditionFailed);
}

#[test]
fn deletes_one_row_by_handle_but_never_the_last() {
    let source = parse(&two_tables());
    let operation = DeleteTableRow {
        table: target(&["Name"], None),
        row: TableRowTarget { first_cell_text: String::new(), occurrence: None, handle: Some("t0:r1".to_owned()) },
    };
    let output = delete_table_row_to_vec(&source, &operation).unwrap();
    assert_eq!(rows_of(&output), vec![strings(&[&["Name"], &["Bob"]]), strings(&[&[" Other "]])]);
    let wrong_table = DeleteTableRow { row: TableRowTarget { handle: Some("t1:r1".to_owned()), ..operation.row.clone() }, ..operation.clone() };
    assert_eq!(delete_table_row_to_vec(&source, &wrong_table).unwrap_err().code, FailureCode::TargetNotFound);
    let no_handle = DeleteTableRow { row: TableRowTarget { handle: None, ..operation.row.clone() }, ..operation.clone() };
    assert_eq!(delete_table_row_to_vec(&source, &no_handle).unwrap_err().code, FailureCode::PreconditionFailed);
    let last = DeleteTableRow { table: target(&["Other"], None), row: TableRowTarget { handle: Some("t1:r0".to_owned()), ..operation.row.clone() } };
    let error = delete_table_row_to_vec(&source, &last).unwrap_err();
    assert_eq!(error.code, FailureCode::PreconditionFailed);
    assert_eq!(error.reason_code, Some("LAST_TABLE_ROW"));
}

#[test]
fn merged_or_uneven_tables_are_refused_with_a_reason() {
    let merged = parse(&format!(
        "<w:document xmlns:w=\"{WORD}\"><w:body><w:tbl><w:tr><w:tc><w:tcPr><w:gridSpan w:val=\"2\"/></w:tcPr><w:p><w:r><w:t>Wide</w:t></w:r></w:p></w:tc></w:tr><w:tr><w:tc><w:p/></w:tc><w:tc><w:p/></w:tc></w:tr></w:tbl></w:body></w:document>"
    ));
    let error = delete_table_to_vec(&merged, &DeleteTable { table: target(&["Wide"], None) }).unwrap_err();
    assert_eq!(error.code, FailureCode::UnsupportedOperation);
    assert_eq!(error.reason_code, Some("MERGED_TABLE_STRUCTURE"));
    let uneven = parse(&format!(
        "<w:document xmlns:w=\"{WORD}\"><w:body><w:tbl><w:tr><w:tc><w:p><w:r><w:t>A</w:t></w:r></w:p></w:tc></w:tr><w:tr><w:tc><w:p/></w:tc><w:tc><w:p/></w:tc></w:tr></w:tbl></w:body></w:document>"
    ));
    let error = insert_table_row_after_to_vec(&uneven, &row_operation(&["A"], "", &["x"])).unwrap_err();
    assert_eq!(error.reason_code, Some("NON_RECTANGULAR_TABLE"));
}

fn grid_table() -> String {
    format!(
        "<w:document xmlns:w=\"{WORD}\"><w:body><w:tbl><w:tblGrid><w:gridCol w:w=\"2400\"/><w:gridCol w:w=\"3600\"/></w:tblGrid><w:tr><w:tc><w:tcPr><w:tcW w:w=\"2400\" w:type=\"dxa\"/></w:tcPr><w:p><w:r><w:t>Name</w:t></w:r></w:p></w:tc><w:tc><w:tcPr><w:tcW w:w=\"3600\" w:type=\"dxa\"/></w:tcPr><w:p><w:r><w:rPr><w:b/></w:rPr><w:t>Role</w:t></w:r></w:p></w:tc></w:tr><w:tr><w:tc><w:tcPr><w:tcW w:w=\"2400\" w:type=\"dxa\"/></w:tcPr><w:p><w:r><w:t>Alice</w:t></w:r></w:p></w:tc><w:tc><w:tcPr><w:tcW w:w=\"3600\" w:type=\"dxa\"/></w:tcPr><w:p><w:r><w:rPr><w:b/></w:rPr><w:t>CEO</w:t></w:r></w:p></w:tc></w:tr><w:tr><w:tc><w:tcPr><w:tcW w:w=\"2400\" w:type=\"dxa\"/></w:tcPr><w:p><w:r><w:t>Bob</w:t></w:r></w:p></w:tc><w:tc><w:tcPr><w:tcW w:w=\"3600\" w:type=\"dxa\"/></w:tcPr><w:p><w:r><w:rPr><w:b/></w:rPr><w:t>CTO</w:t></w:r></w:p></w:tc></w:tr></w:tbl></w:body></w:document>"
    )
}

#[test]
fn table_inserts_a_grid_aware_table_column() {
    inserts_a_grid_aware_table_column();
}

#[test]
fn table_column_inserts_a_grid_aware_table_column() {
    inserts_a_grid_aware_table_column();
}

fn inserts_a_grid_aware_table_column() {
    let input = fixture(&grid_table());
    let operation = InsertTableColumnAfter {
        table: TableTarget { header_cells: vec!["Name".to_owned(), "Role".to_owned()], occurrence: None, handle: None },
        after_column_header: "Role".to_owned(),
        after_column_handle: Some("t0:c1".to_owned()),
        header: "Location".to_owned(),
        cells: vec!["New York".to_owned(), String::new()],
    };
    let source = SourceDocument::parse(entry(&input, "/word/document.xml")).unwrap();
    let output = insert_table_column_after_to_vec(&source, &operation).unwrap();
    let package = with_main(&input, output.clone());
    assert_eq!(
        rows_of(&entry(&package, "/word/document.xml"))[0],
        strings(&[&["Name", "Role", "Location"], &["Alice", "CEO", "New York"], &["Bob", "CTO", ""]])
    );
    let xml = String::from_utf8(output).unwrap();
    assert_eq!(xml.matches("<w:gridCol").count(), 3);
    assert!(xml.contains("<w:rPr><w:b/></w:rPr><w:t>Location</w:t>"));
}

#[test]
fn inserts_a_column_by_header_and_checks_cell_counts() {
    let source = parse(&grid_table());
    let mut operation = InsertTableColumnAfter {
        table: TableTarget { header_cells: vec!["Name".to_owned(), "Role".to_owned()], occurrence: None, handle: None },
        after_column_header: " Name ".to_owned(),
        after_column_handle: None,
        header: "Age".to_owned(),
        cells: vec!["40".to_owned(), "41".to_owned()],
    };
    let output = insert_table_column_after_to_vec(&source, &operation).unwrap();
    assert_eq!(rows_of(&output)[0], strings(&[&["Name", "Age", "Role"], &["Alice", "40", "CEO"], &["Bob", "41", "CTO"]]));
    operation.cells.pop();
    assert_eq!(insert_table_column_after_to_vec(&source, &operation).unwrap_err().code, FailureCode::PreconditionFailed);
    operation.cells.push("41".to_owned());
    operation.after_column_header = "Nothing".to_owned();
    assert_eq!(insert_table_column_after_to_vec(&source, &operation).unwrap_err().code, FailureCode::TargetNotFound);
    operation.after_column_handle = Some("t1:c0".to_owned());
    assert_eq!(insert_table_column_after_to_vec(&source, &operation).unwrap_err().code, FailureCode::PreconditionFailed);
    let gridless = parse(&two_tables());
    let error = insert_table_column_after_to_vec(
        &gridless,
        &InsertTableColumnAfter {
            table: target(&["Name"], None),
            after_column_header: "Name".to_owned(),
            after_column_handle: None,
            header: "X".to_owned(),
            cells: vec!["a".to_owned(), "b".to_owned()],
        },
    )
    .unwrap_err();
    assert_eq!(error.code, FailureCode::UnsupportedOperation);
}

#[test]
fn deletes_a_column_with_its_grid_column_but_never_the_last() {
    let source = parse(&grid_table());
    let operation = DeleteTableColumn { table: target(&["Name", "Role"], None), column_header: "Role".to_owned(), column_handle: None };
    let output = delete_table_column_to_vec(&source, &operation).unwrap();
    assert_eq!(rows_of(&output)[0], strings(&[&["Name"], &["Alice"], &["Bob"]]));
    let xml = String::from_utf8(output.clone()).unwrap();
    assert_eq!(xml.matches("<w:gridCol").count(), 1);
    let narrowed = SourceDocument::parse(output).unwrap();
    let last = DeleteTableColumn { table: target(&["Name"], None), column_header: "Name".to_owned(), column_handle: None };
    let error = delete_table_column_to_vec(&narrowed, &last).unwrap_err();
    assert_eq!(error.code, FailureCode::PreconditionFailed);
    assert_eq!(error.reason_code, Some("LAST_TABLE_COLUMN"));
    let by_handle = DeleteTableColumn { table: target(&[], Some("t0")), column_header: String::new(), column_handle: Some("t0:c0".to_owned()) };
    assert_eq!(rows_of(&delete_table_column_to_vec(&source, &by_handle).unwrap())[0], strings(&[&["Role"], &["CEO"], &["CTO"]]));
    let beyond = DeleteTableColumn { column_handle: Some("t0:c5".to_owned()), ..by_handle };
    assert_eq!(delete_table_column_to_vec(&source, &beyond).unwrap_err().code, FailureCode::TargetNotFound);
}
