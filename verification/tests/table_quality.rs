use opensuite_docx::blank::BLANK_DOCUMENT;
use opensuite_docx::mutation::table::create_table_to_vec;
use opensuite_docx::mutation::table_edit::all_table_rows;
use opensuite_docx::mutation::table_shading::set_table_cell_shading_to_vec;
use opensuite_docx::mutation::table_formatting::set_table_formatting_to_vec;
use opensuite_docx::mutation::table_width::set_table_column_widths_to_vec;
use opensuite_docx::protocol::{
    CreateTable, FailureCode, ParagraphPlacement, PropertyPatch, SetTableCellShading, SetTableColumnWidths,
    SetTableFormatting, TableAlignment, TableBorders, TableCellMargins, TableCellShadingUpdate, TableCellTarget,
    TableFormattingPatch, TableTarget,
};
use opensuite_docx::source::SourceDocument;

const WORD: &str = "http://schemas.openxmlformats.org/wordprocessingml/2006/main";

fn xml_of(bytes: &[u8]) -> String {
    String::from_utf8(bytes.to_vec()).unwrap()
}

fn handle(h: &str) -> TableCellTarget {
    TableCellTarget { row_label: String::new(), column_header: String::new(), occurrence: None, handle: Some(h.into()) }
}

fn labelled(row: &str, column: &str) -> TableCellTarget {
    TableCellTarget { row_label: row.into(), column_header: column.into(), occurrence: None, handle: None }
}

fn header_target(headers: &[&str]) -> TableTarget {
    TableTarget { header_cells: headers.iter().map(|h| (*h).to_owned()).collect(), occurrence: None, handle: None }
}

#[test]
fn sets_widths_and_header_shading_without_rewriting_other_properties() {
    let source = SourceDocument::parse(BLANK_DOCUMENT.as_bytes().to_vec()).unwrap();
    let bytes = create_table_to_vec(
        &source,
        &CreateTable {
            rows: vec![vec!["Name".into(), "Notes".into()], vec!["A".into(), "Long value".into()]],
            placement: ParagraphPlacement::End,
        },
    )
    .unwrap();
    let source = SourceDocument::parse(bytes).unwrap();
    let table = header_target(&["Name", "Notes"]);
    let bytes = set_table_column_widths_to_vec(
        &source,
        &SetTableColumnWidths { table: table.clone(), widths_twips: vec![2400, 6960] },
    )
    .unwrap();
    let source = SourceDocument::parse(bytes).unwrap();
    let bytes = set_table_cell_shading_to_vec(
        &source,
        &SetTableCellShading {
            table: table.clone(),
            updates: vec![
                TableCellShadingUpdate { target: handle("t0:r0:c0"), fill: Some("e9eef5".into()) },
                TableCellShadingUpdate { target: handle("t0:r0:c1"), fill: Some("E9EEF5".into()) },
            ],
        },
    )
    .unwrap();
    let source = SourceDocument::parse(bytes).unwrap();
    let xml = xml_of(source.original_bytes());
    assert!(xml.contains(r#"<w:gridCol w:w="2400"/><w:gridCol w:w="6960"/>"#));
    assert_eq!(xml.matches(r#"w:fill="E9EEF5""#).count(), 2);
    for (target, reason_code) in [
        (labelled("Missing", "Notes"), "TABLE_ROW_NOT_FOUND"),
        (labelled("A", "Missing"), "TABLE_COLUMN_NOT_FOUND"),
    ] {
        let result = set_table_cell_shading_to_vec(
            &source,
            &SetTableCellShading {
                table: table.clone(),
                updates: vec![TableCellShadingUpdate { target, fill: Some("E9EEF5".into()) }],
            },
        )
        .unwrap_err();
        assert_eq!(result.reason_code, Some(reason_code));
    }
    assert!(set_table_column_widths_to_vec(
        &source,
        &SetTableColumnWidths { table: table.clone(), widths_twips: vec![0, 1] }
    )
    .is_err());
    assert!(set_table_column_widths_to_vec(
        &source,
        &SetTableColumnWidths { table: table.clone(), widths_twips: vec![3000] }
    )
    .is_err());
    let cleared = set_table_cell_shading_to_vec(
        &source,
        &SetTableCellShading {
            table,
            updates: vec![TableCellShadingUpdate { target: handle("t0:r0:c0"), fill: None }],
        },
    )
    .unwrap();
    assert!(xml_of(&cleared).contains("Long value"));
}

fn plain_table(first_cell_properties: &str) -> String {
    format!(
        "<w:document xmlns:w=\"{WORD}\"><w:body><w:tbl><w:tblGrid><w:gridCol w:w=\"100\"/><w:gridCol w:w=\"100\"/></w:tblGrid><w:tr><w:tc>{first_cell_properties}<w:p><w:r><w:t>Name</w:t></w:r></w:p></w:tc><w:tc><w:p><w:r><w:t>Role</w:t></w:r></w:p></w:tc></w:tr><w:tr><w:tc><w:p><w:r><w:t>Ann</w:t></w:r></w:p></w:tc><w:tc><w:p><w:r><w:t>Chair</w:t></w:r></w:p></w:tc></w:tr></w:tbl></w:body></w:document>"
    )
}

#[test]
fn widths_replace_existing_cell_widths_and_add_missing_ones() {
    let source = SourceDocument::parse(plain_table("<w:tcPr><w:tcW w:w=\"5\" w:type=\"dxa\"/><w:vAlign w:val=\"top\"/></w:tcPr>").into_bytes()).unwrap();
    let out = set_table_column_widths_to_vec(
        &source,
        &SetTableColumnWidths { table: header_target(&["Name", "Role"]), widths_twips: vec![1200, 31680] },
    )
    .unwrap();
    let xml = xml_of(&out);
    assert_eq!(
        xml,
        format!(
            "<w:document xmlns:w=\"{WORD}\"><w:body><w:tbl><w:tblGrid><w:gridCol w:w=\"1200\"/><w:gridCol w:w=\"31680\"/></w:tblGrid><w:tr><w:tc><w:tcPr><w:tcW w:w=\"1200\" w:type=\"dxa\"/><w:vAlign w:val=\"top\"/></w:tcPr><w:p><w:r><w:t>Name</w:t></w:r></w:p></w:tc><w:tc><w:tcPr><w:tcW w:w=\"31680\" w:type=\"dxa\"/></w:tcPr><w:p><w:r><w:t>Role</w:t></w:r></w:p></w:tc></w:tr><w:tr><w:tc><w:tcPr><w:tcW w:w=\"1200\" w:type=\"dxa\"/></w:tcPr><w:p><w:r><w:t>Ann</w:t></w:r></w:p></w:tc><w:tc><w:tcPr><w:tcW w:w=\"31680\" w:type=\"dxa\"/></w:tcPr><w:p><w:r><w:t>Chair</w:t></w:r></w:p></w:tc></w:tr></w:tbl></w:body></w:document>"
        )
    );
    let rows = all_table_rows(&SourceDocument::parse(out).unwrap()).unwrap();
    assert_eq!(rows[0][1][1], b"Chair".to_vec());
}

#[test]
fn widths_are_refused_out_of_range_or_without_a_grid() {
    let source = SourceDocument::parse(plain_table("").into_bytes()).unwrap();
    let too_wide = set_table_column_widths_to_vec(
        &source,
        &SetTableColumnWidths { table: header_target(&["Name", "Role"]), widths_twips: vec![100, 31681] },
    )
    .unwrap_err();
    assert_eq!(too_wide.code, FailureCode::InvalidOperation);
    let missing = set_table_column_widths_to_vec(
        &source,
        &SetTableColumnWidths { table: header_target(&["Nobody"]), widths_twips: vec![100, 100] },
    )
    .unwrap_err();
    assert_eq!(missing.code, FailureCode::TargetNotFound);
    let gridless = plain_table("").replace("<w:tblGrid><w:gridCol w:w=\"100\"/><w:gridCol w:w=\"100\"/></w:tblGrid>", "");
    let source = SourceDocument::parse(gridless.into_bytes()).unwrap();
    let refused = set_table_column_widths_to_vec(
        &source,
        &SetTableColumnWidths { table: header_target(&["Name", "Role"]), widths_twips: vec![100, 100] },
    )
    .unwrap_err();
    assert_eq!(refused.code, FailureCode::UnsupportedOperation);
}

#[test]
fn shading_by_labels_replaces_clears_and_refuses_bad_requests() {
    let source = SourceDocument::parse(plain_table("<w:tcPr><w:shd w:val=\"clear\" w:color=\"auto\" w:fill=\"000000\"/></w:tcPr>").into_bytes()).unwrap();
    let table = header_target(&["Name", "Role"]);
    let out = set_table_cell_shading_to_vec(
        &source,
        &SetTableCellShading {
            table: table.clone(),
            updates: vec![TableCellShadingUpdate { target: labelled("Ann", "Role"), fill: Some("a1b2c3".into()) }],
        },
    )
    .unwrap();
    assert!(xml_of(&out).contains(
        "<w:tc><w:tcPr><w:shd w:val=\"clear\" w:color=\"auto\" w:fill=\"A1B2C3\"/></w:tcPr><w:p><w:r><w:t>Chair</w:t>"
    ));
    let cleared = set_table_cell_shading_to_vec(
        &source,
        &SetTableCellShading { table: table.clone(), updates: vec![TableCellShadingUpdate { target: handle("t0:r0:c0"), fill: None }] },
    )
    .unwrap();
    assert!(xml_of(&cleared).contains("<w:tc><w:tcPr></w:tcPr><w:p><w:r><w:t>Name</w:t>"));
    let nothing_to_clear = set_table_cell_shading_to_vec(
        &source,
        &SetTableCellShading { table: table.clone(), updates: vec![TableCellShadingUpdate { target: handle("t0:r1:c1"), fill: None }] },
    )
    .unwrap_err();
    assert_eq!(nothing_to_clear.code, FailureCode::PreconditionFailed);
    let bad_fill = set_table_cell_shading_to_vec(
        &source,
        &SetTableCellShading { table: table.clone(), updates: vec![TableCellShadingUpdate { target: handle("t0:r1:c1"), fill: Some("12345G".into()) }] },
    )
    .unwrap_err();
    assert_eq!(bad_fill.code, FailureCode::InvalidOperation);
    let twice = set_table_cell_shading_to_vec(
        &source,
        &SetTableCellShading {
            table: table.clone(),
            updates: vec![
                TableCellShadingUpdate { target: handle("t0:r1:c1"), fill: Some("FFFFFF".into()) },
                TableCellShadingUpdate { target: labelled("Ann", "Role"), fill: Some("000000".into()) },
            ],
        },
    )
    .unwrap_err();
    assert_eq!(twice.code, FailureCode::PreconditionFailed);
    let foreign = set_table_cell_shading_to_vec(
        &source,
        &SetTableCellShading { table: table.clone(), updates: vec![TableCellShadingUpdate { target: handle("t1:r0:c0"), fill: None }] },
    )
    .unwrap_err();
    assert_eq!(foreign.code, FailureCode::PreconditionFailed);
    let out_of_range = set_table_cell_shading_to_vec(
        &source,
        &SetTableCellShading { table: table.clone(), updates: vec![TableCellShadingUpdate { target: handle("t0:r0:c2"), fill: None }] },
    )
    .unwrap_err();
    assert_eq!(out_of_range.code, FailureCode::TargetNotFound);
    let none = set_table_cell_shading_to_vec(&source, &SetTableCellShading { table, updates: vec![] }).unwrap_err();
    assert_eq!(none.code, FailureCode::PreconditionFailed);
}

#[test]
fn shading_refuses_cells_with_several_paragraphs() {
    let xml = plain_table("").replace(
        "<w:p><w:r><w:t>Chair</w:t></w:r></w:p>",
        "<w:p><w:r><w:t>Chair</w:t></w:r></w:p><w:p><w:r><w:t>Vice</w:t></w:r></w:p>",
    );
    let source = SourceDocument::parse(xml.into_bytes()).unwrap();
    let refused = set_table_cell_shading_to_vec(
        &source,
        &SetTableCellShading {
            table: header_target(&["Name", "Role"]),
            updates: vec![TableCellShadingUpdate { target: handle("t0:r1:c1"), fill: Some("ABCDEF".into()) }],
        },
    )
    .unwrap_err();
    assert_eq!(refused.code, FailureCode::UnsupportedOperation);
    assert_eq!(refused.reason_code, Some("MULTIPLE_PARAGRAPHS"));
}

fn formatting(alignment: Option<PropertyPatch<TableAlignment>>, margins: Option<PropertyPatch<TableCellMargins>>, borders: Option<PropertyPatch<TableBorders>>) -> SetTableFormatting {
    SetTableFormatting {
        table: header_target(&["Name", "Role"]),
        formatting: TableFormattingPatch { alignment, cell_margins: margins, borders },
    }
}

#[test]
fn formatting_replaces_adds_and_clears_direct_table_properties() {
    let with_properties = plain_table("").replace(
        "<w:tbl><w:tblGrid>",
        "<w:tbl><w:tblPr><w:tblStyle w:val=\"Plain\"/><w:jc w:val=\"left\"/></w:tblPr><w:tblGrid>",
    );
    let source = SourceDocument::parse(with_properties.clone().into_bytes()).unwrap();
    let out = set_table_formatting_to_vec(
        &source,
        &formatting(Some(PropertyPatch::Apply(TableAlignment::Center)), None, Some(PropertyPatch::Apply(TableBorders::Nil))),
    )
    .unwrap();
    let edge = |e: &str| format!("<w:{e} w:val=\"nil\" w:sz=\"4\" w:space=\"0\" w:color=\"auto\"/>");
    let borders = format!(
        "<w:tblBorders>{}{}{}{}{}{}</w:tblBorders>",
        edge("top"),
        edge("bottom"),
        edge("left"),
        edge("right"),
        edge("insideH"),
        edge("insideV")
    );
    assert_eq!(
        xml_of(&out),
        with_properties.replace(
            "<w:jc w:val=\"left\"/></w:tblPr>",
            &format!("<w:jc w:val=\"center\"/>{borders}</w:tblPr>")
        )
    );
    let cleared = set_table_formatting_to_vec(&source, &formatting(Some(PropertyPatch::Clear), None, Some(PropertyPatch::Clear))).unwrap();
    assert_eq!(xml_of(&cleared), with_properties.replace("<w:jc w:val=\"left\"/>", ""));
    let empty = set_table_formatting_to_vec(&source, &formatting(None, None, None)).unwrap_err();
    assert_eq!(empty.code, FailureCode::PreconditionFailed);
}

#[test]
fn formatting_gives_a_table_without_properties_new_ones() {
    let bare = plain_table("");
    let source = SourceDocument::parse(bare.clone().into_bytes()).unwrap();
    let margins = TableCellMargins { top_twips: 0, left_twips: 108, bottom_twips: 0, right_twips: 108 };
    let out = set_table_formatting_to_vec(
        &source,
        &formatting(Some(PropertyPatch::Apply(TableAlignment::Right)), Some(PropertyPatch::Apply(margins)), Some(PropertyPatch::Clear)),
    )
    .unwrap();
    assert_eq!(
        xml_of(&out),
        bare.replace(
            "<w:tbl><w:tblGrid>",
            "<w:tbl><w:tblPr><w:jc w:val=\"right\"/><w:tblCellMar><w:top w:w=\"0\" w:type=\"dxa\"/><w:left w:w=\"108\" w:type=\"dxa\"/><w:bottom w:w=\"0\" w:type=\"dxa\"/><w:right w:w=\"108\" w:type=\"dxa\"/></w:tblCellMar></w:tblPr><w:tblGrid>"
        )
    );
    let unchanged = set_table_formatting_to_vec(&source, &formatting(Some(PropertyPatch::Clear), None, None)).unwrap();
    assert_eq!(xml_of(&unchanged), bare);
    let merged = bare.replace("<w:tc><w:p><w:r><w:t>Ann", "<w:tc><w:tcPr><w:gridSpan w:val=\"1\"/></w:tcPr><w:p><w:r><w:t>Ann");
    let source = SourceDocument::parse(merged.into_bytes()).unwrap();
    let refused = set_table_formatting_to_vec(&source, &formatting(Some(PropertyPatch::Clear), None, None)).unwrap_err();
    assert_eq!(refused.code, FailureCode::UnsupportedOperation);
    assert_eq!(refused.reason_code, Some("MERGED_TABLE_STRUCTURE"));
}
