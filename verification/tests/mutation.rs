use opensuite_docx::mutation::common::{apply_patches, resolve_body_block_handle, Patch};
use opensuite_docx::mutation::page_break::{
    body_block_signatures, delete_page_break_to_vec, insert_page_break_to_vec, BlockKind,
};
use opensuite_docx::mutation::page_setup::{
    inspect_page_setup, paper_dimensions, paper_from_dimensions, set_page_setup_to_vec,
};
use opensuite_docx::mutation::paragraph::{
    delete_paragraph_to_vec, insert_paragraph_after, insert_paragraph_to_vec, insert_paragraphs_to_vec, is_safe_to_delete, paragraph_fragment,
    resolve_paragraph_anchor,
};
use opensuite_docx::protocol::{
    DeletePageBreak, DeleteParagraph, FailureCode, InsertPageBreak, InsertParagraph, InsertParagraphAfter,
    InsertParagraphs, PageBreakTarget, PageMargins, PageOrientation, PaperSize,
    ParagraphPlacement, SetPageSetup, TextTarget,
};
use opensuite_docx::source::{SourceDocument, SourceSpan};

const WORD: &str = "http://schemas.openxmlformats.org/wordprocessingml/2006/main";

const BLANK: &str = r#"<?xml version="1.0" encoding="UTF-8" standalone="yes"?><w:document xmlns:w="http://schemas.openxmlformats.org/wordprocessingml/2006/main"><w:body><w:sectPr><w:pgSz w:w="12240" w:h="15840"/><w:pgMar w:top="1440" w:right="1440" w:bottom="1440" w:left="1440" w:header="720" w:footer="720" w:gutter="0"/></w:sectPr></w:body></w:document>"#;

fn parse(bytes: Vec<u8>) -> SourceDocument {
    SourceDocument::parse(bytes).unwrap()
}

fn fixture_main() -> SourceDocument {
    parse(format!("<w:document xmlns:w=\"{WORD}\"><w:body><w:p><w:r><w:t>OLD UNIQUE TEXT</w:t></w:r></w:p><w:p><w:r><w:t>Duplicate</w:t></w:r><w:r><w:t>Duplicate</w:t></w:r></w:p><w:p><w:r><w:t>Cross </w:t></w:r><w:r><w:t>run</w:t></w:r></w:p><w:p><w:r><w:t>Linked </w:t></w:r><w:hyperlink><w:r><w:t>text</w:t></w:r></w:hyperlink></w:p><w:p><w:del><w:r><w:delText>OLD DELETED</w:delText></w:r></w:del><w:ins><w:r><w:t>NEW INSERTED</w:t></w:r></w:ins></w:p></w:body></w:document>").into_bytes())
}

#[test]
fn uses_the_anchor_prefix_for_strict_wordprocessingml() {
    let strict = "http://purl.oclc.org/ooxml/wordprocessingml/main";
    let source = SourceDocument::parse(format!("<word:document xmlns:word=\"{strict}\"><word:body><word:p><word:r><word:t>needle</word:t></word:r></word:p><word:sectPr/></word:body></word:document>").into_bytes()).unwrap();
    let (_, paragraph) = resolve_paragraph_anchor(
        &source,
        &TextTarget {
            text: "needle".to_owned(),
            occurrence: None,
        },
    )
    .unwrap();
    assert_eq!(
        paragraph_fragment(&source, paragraph, "new").unwrap(),
        b"<word:p><word:r><word:t>new</word:t></word:r></word:p>"
    );
}

#[test]
fn inserts_plain_paragraphs_with_escaped_and_preserved_text() {
    let source = fixture_main();
    let out = insert_paragraph_to_vec(
        &source,
        &InsertParagraph {
            placement: ParagraphPlacement::After {
                handle: "b0".to_owned(),
            },
            text: "New & < > paragraph".to_owned(),
        },
    )
    .unwrap();
    let xml = String::from_utf8(out).unwrap();
    assert!(xml.contains("<w:t>OLD UNIQUE TEXT</w:t></w:r></w:p><w:p><w:r><w:t>New &amp; &lt; &gt; paragraph</w:t></w:r></w:p>"));
    for (text, expected) in [
        (" hello ", " xml:space=\"preserve\"> hello "),
        ("你好", ">你好<"),
        ("", "<w:p></w:p>"),
    ] {
        let out = insert_paragraph_to_vec(
            &source,
            &InsertParagraph {
                placement: ParagraphPlacement::End,
                text: text.to_owned(),
            },
        )
        .unwrap();
        assert!(String::from_utf8(out).unwrap().contains(expected));
    }
    let many = insert_paragraphs_to_vec(
        &source,
        &InsertParagraphs {
            placement: ParagraphPlacement::Start,
            texts: vec!["one".to_owned(), "two".to_owned()],
        },
    )
    .unwrap();
    assert!(String::from_utf8(many)
        .unwrap()
        .contains("<w:body><w:p><w:r><w:t>one</w:t></w:r></w:p><w:p><w:r><w:t>two</w:t></w:r></w:p><w:p>"));
    let none = insert_paragraphs_to_vec(
        &source,
        &InsertParagraphs {
            placement: ParagraphPlacement::Start,
            texts: vec![],
        },
    );
    assert_eq!(none.unwrap_err().code, FailureCode::InvalidOperation);
    let missing = insert_paragraph_to_vec(
        &source,
        &InsertParagraph {
            placement: ParagraphPlacement::Before {
                handle: "b99".to_owned(),
            },
            text: "x".to_owned(),
        },
    );
    assert_eq!(missing.unwrap_err().code, FailureCode::TargetNotFound);
    let malformed = resolve_body_block_handle(&source, "p1");
    assert_eq!(malformed.unwrap_err().code, FailureCode::PreconditionFailed);
}

#[test]
fn resolves_anchors_by_occurrence_and_deletes_only_plain_paragraphs() {
    let source = fixture_main();
    let ambiguous = resolve_paragraph_anchor(
        &source,
        &TextTarget {
            text: "Duplicate".to_owned(),
            occurrence: None,
        },
    );
    assert_eq!(ambiguous.unwrap_err().code, FailureCode::TargetAmbiguous);
    let second = resolve_paragraph_anchor(
        &source,
        &TextTarget {
            text: "Duplicate".to_owned(),
            occurrence: Some(1),
        },
    );
    assert!(second.is_ok());
    let out = delete_paragraph_to_vec(
        &source,
        &DeleteParagraph {
            target: TextTarget {
                text: "OLD UNIQUE".to_owned(),
                occurrence: None,
            },
        },
    )
    .unwrap();
    let xml = String::from_utf8(out).unwrap();
    assert!(!xml.contains("OLD UNIQUE"));
    assert!(xml.contains("<w:body><w:p><w:r><w:t>Duplicate</w:t>"));
    let linked = delete_paragraph_to_vec(
        &source,
        &DeleteParagraph {
            target: TextTarget {
                text: "Linked".to_owned(),
                occurrence: None,
            },
        },
    );
    assert!(linked.is_ok());
    let revised = delete_paragraph_to_vec(
        &source,
        &DeleteParagraph {
            target: TextTarget {
                text: "NEW INSERTED".to_owned(),
                occurrence: None,
            },
        },
    );
    assert_eq!(revised.unwrap_err().code, FailureCode::UnsupportedOperation);
    let absent = resolve_paragraph_anchor(
        &source,
        &TextTarget {
            text: "nowhere".to_owned(),
            occurrence: None,
        },
    );
    assert_eq!(absent.unwrap_err().code, FailureCode::TargetNotFound);
}

#[test]
fn inserts_and_deletes_page_breaks_at_every_body_placement() {
    let mut source = parse(BLANK.as_bytes().to_vec());
    for placement in [
        ParagraphPlacement::Start,
        ParagraphPlacement::End,
        ParagraphPlacement::Before {
            handle: "b1".to_owned(),
        },
        ParagraphPlacement::After {
            handle: "b1".to_owned(),
        },
    ] {
        let bytes = insert_page_break_to_vec(&source, &InsertPageBreak { placement }).unwrap();
        source = parse(bytes);
    }
    let signatures = body_block_signatures(&source).unwrap();
    assert_eq!(signatures.len(), 4);
    assert!(signatures
        .iter()
        .all(|(kind, text)| *kind == BlockKind::PageBreak && text.is_empty()));
    assert!(String::from_utf8(source.original_bytes().to_vec())
        .unwrap()
        .contains("<w:p><w:r><w:br w:type=\"page\"/></w:r></w:p><w:sectPr>"));
    let output = delete_page_break_to_vec(
        &source,
        &DeletePageBreak {
            target: PageBreakTarget {
                handle: "b2".to_owned(),
            },
        },
    )
    .unwrap();
    let source = parse(output);
    assert_eq!(body_block_signatures(&source).unwrap().len(), 3);
    let not_a_break = delete_page_break_to_vec(
        &fixture_main(),
        &DeletePageBreak {
            target: PageBreakTarget {
                handle: "b0".to_owned(),
            },
        },
    );
    assert_eq!(not_a_break.unwrap_err().code, FailureCode::TargetNotFound);
}

#[test]
fn page_setup_updates_one_terminal_section_without_touching_body_or_margin_extras() {
    let source = parse(BLANK.as_bytes().to_vec());
    let bytes = insert_paragraph_to_vec(
        &source,
        &InsertParagraph {
            text: "body stays here".to_owned(),
            placement: ParagraphPlacement::End,
        },
    )
    .unwrap();
    let source = parse(bytes);
    let before = inspect_page_setup(&source).unwrap();
    assert_eq!(before.paper_size, Some(PaperSize::Letter));
    assert_eq!(before.orientation, PageOrientation::Portrait);
    let bytes = set_page_setup_to_vec(
        &source,
        &SetPageSetup {
            margins: Some(PageMargins {
                top_twips: Some(720),
                right_twips: None,
                bottom_twips: None,
                left_twips: None,
            }),
            paper_size: Some(PaperSize::A4),
            orientation: Some(PageOrientation::Landscape),
        },
    )
    .unwrap();
    let source = parse(bytes);
    let setup = inspect_page_setup(&source).unwrap();
    assert_eq!(setup.paper_size, Some(PaperSize::A4));
    assert_eq!(setup.orientation, PageOrientation::Landscape);
    assert_eq!(setup.margins.top_twips, Some(720));
    assert_eq!(setup.margins.right_twips, Some(1440));
    let xml = String::from_utf8(source.original_bytes().to_vec()).unwrap();
    assert!(xml.contains("w:header=\"720\" w:footer=\"720\" w:gutter=\"0\""));
    assert!(xml.contains("<w:pgSz w:w=\"16838\" w:h=\"11906\" w:orient=\"landscape\"/>"));
    assert!(xml.contains("<w:p><w:r><w:t>body stays here</w:t></w:r></w:p>"));
}

#[test]
fn page_setup_rejects_multiple_sections() {
    let source = parse(format!("<w:document xmlns:w=\"{WORD}\"><w:body><w:p><w:pPr><w:sectPr/></w:pPr></w:p><w:sectPr/></w:body></w:document>").into_bytes());
    let result = set_page_setup_to_vec(
        &source,
        &SetPageSetup {
            margins: None,
            paper_size: Some(PaperSize::Letter),
            orientation: None,
        },
    );
    assert!(result.is_err());
}

#[test]
fn page_setup_rejects_multiple_sections_and_empty_or_out_of_range_changes() {
    let source = parse(format!("<w:document xmlns:w=\"{WORD}\"><w:body><w:p><w:pPr><w:sectPr/></w:pPr></w:p><w:sectPr/></w:body></w:document>").into_bytes());
    let result = set_page_setup_to_vec(
        &source,
        &SetPageSetup {
            margins: None,
            paper_size: Some(PaperSize::Letter),
            orientation: None,
        },
    );
    assert_eq!(result.unwrap_err().code, FailureCode::UnsupportedOperation);
    let blank = parse(BLANK.as_bytes().to_vec());
    let nothing = set_page_setup_to_vec(
        &blank,
        &SetPageSetup {
            margins: None,
            paper_size: None,
            orientation: None,
        },
    );
    assert_eq!(nothing.unwrap_err().code, FailureCode::InvalidOperation);
    let too_wide = set_page_setup_to_vec(
        &blank,
        &SetPageSetup {
            margins: Some(PageMargins {
                top_twips: Some(40000),
                right_twips: None,
                bottom_twips: None,
                left_twips: None,
            }),
            paper_size: None,
            orientation: None,
        },
    );
    assert_eq!(too_wide.unwrap_err().code, FailureCode::InvalidOperation);
    let turned = set_page_setup_to_vec(
        &blank,
        &SetPageSetup {
            margins: None,
            paper_size: None,
            orientation: Some(PageOrientation::Landscape),
        },
    )
    .unwrap();
    let setup = inspect_page_setup(&parse(turned)).unwrap();
    assert_eq!(setup.orientation, PageOrientation::Landscape);
    assert_eq!(setup.paper_size, Some(PaperSize::Letter));
}

#[test]
fn applies_patches_in_span_order_and_refuses_overlaps() {
    let source = parse(b"<a>0123456789</a>".to_vec());
    let out = apply_patches(
        &source,
        vec![
            Patch {
                span: SourceSpan { start: 8, end: 10 },
                replacement: b"X".to_vec(),
            },
            Patch {
                span: SourceSpan { start: 3, end: 3 },
                replacement: b"Y".to_vec(),
            },
        ],
    )
    .unwrap();
    assert_eq!(out, b"<a>Y01234X789</a>".to_vec());
    let overlap = apply_patches(
        &source,
        vec![
            Patch {
                span: SourceSpan { start: 3, end: 6 },
                replacement: vec![],
            },
            Patch {
                span: SourceSpan { start: 5, end: 7 },
                replacement: vec![],
            },
        ],
    );
    assert_eq!(overlap.unwrap_err().code, FailureCode::UnsupportedOperation);
}

#[test]
fn recognises_paper_sizes_in_either_orientation() {
    for paper in [PaperSize::Letter, PaperSize::A4] {
        let (w, h) = paper_dimensions(paper);
        assert_eq!(paper_from_dimensions(w, h), Some(paper));
        assert_eq!(paper_from_dimensions(h, w), Some(paper));
    }
    assert_eq!(paper_from_dimensions(12240, 15841), None);
}

fn delete_operation(text: &str) -> DeleteParagraph {
    DeleteParagraph { target: TextTarget { text: text.to_owned(), occurrence: None } }
}

#[test]
fn deletes_one_body_paragraph_without_changing_neighbor_or_other_part_bytes() {
    let source = fixture_main();
    let (_, paragraph) = resolve_paragraph_anchor(
        &source,
        &TextTarget { text: "OLD UNIQUE TEXT".to_owned(), occurrence: None },
    )
    .unwrap();
    let span = source.span(paragraph);
    let mut expected = source.original_bytes()[..span.start].to_vec();
    expected.extend_from_slice(&source.original_bytes()[span.end..]);
    let out = delete_paragraph_to_vec(&source, &delete_operation("OLD UNIQUE TEXT")).unwrap();
    assert_eq!(out, expected);
    let body = body_block_signatures(&parse(out)).unwrap();
    assert_eq!(body[0], (BlockKind::Paragraph, b"DuplicateDuplicate".to_vec()));
    assert!(!body.iter().any(|(_, text)| String::from_utf8_lossy(text).contains("OLD UNIQUE TEXT")));
}

#[test]
fn deletion_uses_shared_occurrence_and_rejects_unsafe_ranges_or_wrappers() {
    let source = fixture_main();
    assert_eq!(
        delete_paragraph_to_vec(&source, &delete_operation("Duplicate")).unwrap_err().code,
        FailureCode::TargetAmbiguous
    );
    let mut operation = delete_operation("Duplicate");
    operation.target.occurrence = Some(1);
    assert!(delete_paragraph_to_vec(&source, &operation).is_ok());
    for xml in [
        format!("<w:document xmlns:w=\"{WORD}\"><w:body><w:tbl><w:tr><w:tc><w:p><w:r><w:t>needle</w:t></w:r></w:p></w:tc></w:tr></w:tbl></w:body></w:document>"),
        format!("<w:document xmlns:w=\"{WORD}\"><w:body><w:p><w:pPr><w:sectPr/></w:pPr><w:r><w:t>needle</w:t></w:r></w:p><w:sectPr/></w:body></w:document>"),
        format!("<w:document xmlns:w=\"{WORD}\"><w:body><w:sdt><w:sdtContent><w:p><w:r><w:t>needle</w:t></w:r></w:p></w:sdtContent></w:sdt></w:body></w:document>"),
        format!("<w:document xmlns:w=\"{WORD}\"><w:body><w:p><w:ins><w:r><w:t>needle</w:t></w:r></w:ins></w:p></w:body></w:document>"),
        format!("<w:document xmlns:w=\"{WORD}\"><w:body><w:p><w:bookmarkStart w:id=\"1\" w:name=\"mark\"/><w:r><w:t>needle</w:t></w:r><w:bookmarkEnd w:id=\"1\"/></w:p></w:body></w:document>"),
        format!("<w:document xmlns:w=\"{WORD}\"><w:body><w:p><w:commentRangeStart w:id=\"1\"/><w:r><w:t>needle</w:t></w:r><w:commentRangeEnd w:id=\"1\"/><w:r><w:commentReference w:id=\"1\"/></w:r></w:p></w:body></w:document>"),
        format!("<w:document xmlns:w=\"{WORD}\"><w:body><w:p><w:fldSimple w:instr=\"DATE\"><w:r><w:t>needle</w:t></w:r></w:fldSimple></w:p></w:body></w:document>"),
    ] {
        let source = parse(xml.into_bytes());
        let result = resolve_paragraph_anchor(&source, &TextTarget { text: "needle".to_owned(), occurrence: None });
        if let Ok((_, paragraph)) = result {
            assert!(!is_safe_to_delete(&source, paragraph));
        } else {
            assert_eq!(result.unwrap_err().code, FailureCode::UnsupportedOperation);
        }
    }
}

#[test]
fn blank_document_supports_ordered_paragraph_authoring() {
    let mut artifact = BLANK.as_bytes().to_vec();
    for (text, placement) in [
        ("Heading", ParagraphPlacement::End),
        ("First", ParagraphPlacement::After { handle: "b0".to_owned() }),
        ("Middle", ParagraphPlacement::Before { handle: "b1".to_owned() }),
        ("Start", ParagraphPlacement::Start),
    ] {
        let source = parse(artifact);
        artifact = insert_paragraph_to_vec(&source, &InsertParagraph { text: text.to_owned(), placement }).unwrap();
    }
    let blocks = body_block_signatures(&parse(artifact)).unwrap();
    assert_eq!(
        blocks.iter().map(|(_, text)| String::from_utf8(text.clone()).unwrap()).collect::<Vec<_>>(),
        ["Start", "Heading", "Middle", "First"]
    );
}

#[test]
fn inserts_a_paragraph_before_a_table_without_rewriting_it() {
    let table = "<w:tbl><w:tblPr><w:tblW w:w=\"0\" w:type=\"auto\"/></w:tblPr><w:tr><w:tc><w:p><w:r><w:t>Cell</w:t></w:r></w:p></w:tc></w:tr></w:tbl>";
    let input = format!("<w:document xmlns:w=\"{WORD}\"><w:body>{table}<w:sectPr/></w:body></w:document>");
    let source = parse(input.clone().into_bytes());
    let output = insert_paragraph_to_vec(
        &source,
        &InsertParagraph { text: "Above table".to_owned(), placement: ParagraphPlacement::Before { handle: "b0".to_owned() } },
    )
    .unwrap();
    let blocks = body_block_signatures(&parse(output.clone())).unwrap();
    assert_eq!(blocks[0], (BlockKind::Paragraph, b"Above table".to_vec()));
    assert_eq!(blocks[1].0, BlockKind::Table);
    assert!(String::from_utf8(output).unwrap().contains(table));
    assert!(input.contains("<w:tbl>"));
}

fn insert_operation(anchor: &str, text: &str) -> InsertParagraphAfter {
    InsertParagraphAfter { anchor: TextTarget { text: anchor.to_owned(), occurrence: None }, text: text.to_owned() }
}

#[test]
fn inserts_plain_paragraph_after_a_safe_anchor_and_preserves_other_parts() {
    let source = fixture_main();
    let out = insert_paragraph_after(&source, &insert_operation("OLD UNIQUE TEXT", "New & < > paragraph")).unwrap();
    let xml = String::from_utf8(out.clone()).unwrap();
    assert!(xml.contains("<w:t>OLD UNIQUE TEXT</w:t></w:r></w:p><w:p><w:r><w:t>New &amp; &lt; &gt; paragraph</w:t></w:r></w:p>"));
    let blocks = body_block_signatures(&parse(out)).unwrap();
    assert_eq!(blocks[1], (BlockKind::Paragraph, b"New & < > paragraph".to_vec()));
}

#[test]
fn inserts_whitespace_unicode_and_empty_paragraphs() {
    for (text, expected) in [(" hello ", " xml:space=\"preserve\"> hello "), ("你好", ">你好<"), ("", "<w:p></w:p>")] {
        let source = fixture_main();
        let out = insert_paragraph_after(&source, &insert_operation("OLD UNIQUE TEXT", text)).unwrap();
        assert!(String::from_utf8(out).unwrap().contains(expected));
    }
}

#[test]
fn rejects_ambiguous_and_unsafe_structural_anchors() {
    let source = fixture_main();
    assert_eq!(
        insert_paragraph_after(&source, &insert_operation("Duplicate", "new")).unwrap_err().code,
        FailureCode::TargetAmbiguous
    );
    let mut occurrence = insert_operation("Duplicate", "new");
    occurrence.anchor.occurrence = Some(1);
    assert!(insert_paragraph_after(&source, &occurrence).is_ok());
    for xml in [
        format!("<w:document xmlns:w=\"{WORD}\"><w:body><w:tbl><w:tr><w:tc><w:p><w:r><w:t>needle</w:t></w:r></w:p></w:tc></w:tr></w:tbl></w:body></w:document>"),
        format!("<w:document xmlns:w=\"{WORD}\"><w:body><w:p><w:pPr><w:sectPr/></w:pPr><w:r><w:t>needle</w:t></w:r></w:p></w:body></w:document>"),
        format!("<w:document xmlns:w=\"{WORD}\"><w:body><w:p><w:ins><w:r><w:t>needle</w:t></w:r></w:ins></w:p></w:body></w:document>"),
    ] {
        let source = parse(xml.into_bytes());
        assert_eq!(
            resolve_paragraph_anchor(&source, &TextTarget { text: "needle".to_owned(), occurrence: None }).unwrap_err().code,
            FailureCode::UnsupportedOperation
        );
    }
}
