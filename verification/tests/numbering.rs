use opensuite_docx::numbering::{
    list_reference, AbstractNumberingId, ListReference, NumberFormat, Numbering, NumberingError,
    NumberingId,
};
use opensuite_docx::source::{NodeId, SourceDocument};

const WORD: &str = "http://schemas.openxmlformats.org/wordprocessingml/2006/main";

fn first_paragraph_properties(source: &SourceDocument, nth: usize) -> NodeId {
    let mut seen = 0;
    for i in 0..source.node_count() {
        if source.has_local_name(NodeId(i), "pPr") {
            if seen == nth {
                return NodeId(i);
            }
            seen += 1;
        }
    }
    panic!("no paragraph properties")
}

#[test]
fn resolves_numbering_and_prefers_direct_paragraph_references() {
    let numbering = Numbering::parse(format!(
        "<n:numbering xmlns:n=\"{WORD}\"><n:abstractNum n:abstractNumId=\"1\"><n:lvl n:ilvl=\"0\"><n:start n:val=\"1\"/><n:numFmt n:val=\"decimal\"/><n:lvlText n:val=\"%1.\"/><n:suff n:val=\"space\"/><n:pPr><n:ind n:left=\"720\" n:hanging=\"360\"/></n:pPr></n:lvl><n:lvl n:ilvl=\"1\"><n:numFmt n:val=\"bullet\"/><n:lvlText n:val=\"•\"/></n:lvl></n:abstractNum><n:num n:numId=\"4\"><n:abstractNumId n:val=\"1\"/></n:num><n:num n:numId=\"5\"><n:abstractNumId n:val=\"1\"/></n:num></n:numbering>"
    ).into_bytes()).unwrap();
    let source = SourceDocument::parse(format!(
        "<d:document xmlns:d=\"{WORD}\"><d:body><d:p><d:pPr><d:pStyle d:val=\"List\"/></d:pPr><d:r><d:t>Style</d:t></d:r></d:p><d:p><d:pPr><d:pStyle d:val=\"List\"/><d:numPr><d:numId d:val=\"5\"/><d:ilvl d:val=\"1\"/></d:numPr></d:pPr><d:r><d:t>Direct</d:t></d:r></d:p></d:body></d:document>"
    ).into_bytes()).unwrap();

    assert_eq!(
        list_reference(&source, first_paragraph_properties(&source, 0)).unwrap(),
        None
    );
    let reference = list_reference(&source, first_paragraph_properties(&source, 1))
        .unwrap()
        .unwrap();
    assert_eq!(
        reference,
        ListReference {
            num_id: NumberingId(5),
            level: 1
        }
    );
    let level = numbering.resolve(reference).unwrap();
    assert_eq!(level.format, NumberFormat::Bullet);
    assert_eq!(level.text.as_deref(), Some("•"));
    assert_eq!(level.left_indent_twips, None);
    assert!(numbering.source().node(level.source_id).is_some());
    assert!(numbering
        .instances()
        .iter()
        .all(|instance| numbering.source().node(instance.source_id).is_some()));
    let decimal = numbering
        .resolve(ListReference {
            num_id: NumberingId(4),
            level: 0,
        })
        .unwrap();
    assert_eq!(decimal.format, NumberFormat::Decimal);
    assert_eq!(decimal.left_indent_twips, Some(720));
    assert_eq!(decimal.hanging_indent_twips, Some(360));
    assert_eq!(decimal.start, Some(1));
    assert_eq!(decimal.suffix.as_deref(), Some("space"));
    assert_eq!(numbering.abstract_count(), 1);
    assert_eq!(numbering.instance_count(), 2);
}

#[test]
fn returns_typed_errors_for_missing_abstracts_and_levels() {
    let missing_abstract = Numbering::parse(format!(
        "<numbering xmlns=\"{WORD}\"><num numId=\"4\"><abstractNumId val=\"9\"/></num></numbering>"
    ).into_bytes()).unwrap();
    assert!(matches!(
        missing_abstract.resolve(ListReference {
            num_id: NumberingId(4),
            level: 0
        }),
        Err(NumberingError::MissingAbstractNumbering(AbstractNumberingId(9)))
    ));

    let missing_level = Numbering::parse(format!(
        "<numbering xmlns=\"{WORD}\"><abstractNum abstractNumId=\"1\"><lvl ilvl=\"0\"><numFmt val=\"decimal\"/></lvl></abstractNum><num numId=\"4\"><abstractNumId val=\"1\"/></num></numbering>"
    ).into_bytes()).unwrap();
    assert!(matches!(
        missing_level.resolve(ListReference {
            num_id: NumberingId(4),
            level: 1
        }),
        Err(NumberingError::MissingLevel(1))
    ));
}

#[test]
fn rejects_duplicate_and_malformed_numbering_definitions() {
    let duplicate = Numbering::parse(format!(
        "<numbering xmlns=\"{WORD}\"><num numId=\"4\"><abstractNumId val=\"1\"/></num><num numId=\"4\"><abstractNumId val=\"2\"/></num></numbering>"
    ).into_bytes());
    assert_eq!(duplicate.err(), Some(NumberingError::DuplicateId));
    let malformed = Numbering::parse(format!(
        "<numbering xmlns=\"{WORD}\"><abstractNum abstractNumId=\"x\"/></numbering>"
    ).into_bytes());
    assert_eq!(malformed.err(), Some(NumberingError::MalformedNumbering));
    let missing_start_value = Numbering::parse(format!(
        "<numbering xmlns=\"{WORD}\"><abstractNum abstractNumId=\"1\"><lvl ilvl=\"0\"><start/></lvl></abstractNum></numbering>"
    ).into_bytes());
    assert_eq!(missing_start_value.err(), Some(NumberingError::MalformedNumbering));
    let wrong_root = Numbering::parse(format!("<styles xmlns=\"{WORD}\"/>").into_bytes());
    assert_eq!(wrong_root.err(), Some(NumberingError::InvalidNumberingRoot));
    assert_eq!(
        NumberingError::InvalidNumberingRoot.code(),
        "INVALID_NUMBERING_ROOT"
    );
    let missing_instance = Numbering::parse(format!("<numbering xmlns=\"{WORD}\"/>").into_bytes())
        .unwrap()
        .resolve(ListReference {
            num_id: NumberingId(1),
            level: 0,
        })
        .err();
    assert_eq!(
        missing_instance,
        Some(NumberingError::MissingNumberingInstance(NumberingId(1)))
    );
}

#[test]
fn reads_unknown_formats_and_rejects_levels_above_a_byte() {
    let numbering = Numbering::parse(format!(
        "<numbering xmlns=\"{WORD}\"><abstractNum abstractNumId=\"1\"><lvl ilvl=\"2\"><numFmt val=\"ordinal\"/><pPr><ind left=\"-15\"/></pPr></lvl></abstractNum><num numId=\"3\"><abstractNumId val=\"1\"/></num></numbering>"
    ).into_bytes()).unwrap();
    let level = numbering
        .resolve(ListReference {
            num_id: NumberingId(3),
            level: 2,
        })
        .unwrap();
    assert_eq!(level.format, NumberFormat::Unknown("ordinal".to_owned()));
    assert_eq!(level.left_indent_twips, Some(-15));
    let too_deep = Numbering::parse(format!(
        "<numbering xmlns=\"{WORD}\"><abstractNum abstractNumId=\"1\"><lvl ilvl=\"256\"/></abstractNum></numbering>"
    ).into_bytes());
    assert_eq!(too_deep.err(), Some(NumberingError::MalformedNumbering));
}
