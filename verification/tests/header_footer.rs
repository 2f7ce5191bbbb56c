use opensuite_docx::header_footer::{
    references, HeaderFooter, HeaderFooterError, HeaderFooterKind, HeaderFooterReference,
    HeaderFooterType, Relationship, RelationshipTarget,
};
use opensuite_docx::source::{NodeId, SourceDocument};

const WORD: &str = "http://schemas.openxmlformats.org/wordprocessingml/2006/main";
const HEADER: &str = "http://schemas.openxmlformats.org/officeDocument/2006/relationships/header";
const FOOTER: &str = "http://schemas.openxmlformats.org/officeDocument/2006/relationships/footer";

fn section(source: &SourceDocument) -> NodeId {
    (0..source.node_count())
        .map(NodeId)
        .find(|id| source.has_local_name(*id, "sectPr"))
        .unwrap()
}

fn relationship(id: &str, kind: &str, target: RelationshipTarget) -> Relationship {
    Relationship {
        id: id.to_owned(),
        relationship_type: kind.to_owned(),
        target,
    }
}

fn internal(name: &str) -> RelationshipTarget {
    RelationshipTarget::Internal {
        part_name: name.to_owned(),
    }
}

#[test]
fn resolves_declared_references_and_reuses_container_blocks() {
    let source = SourceDocument::parse(format!(
        "<w:document xmlns:w=\"{WORD}\" xmlns:r=\"http://schemas.openxmlformats.org/officeDocument/2006/relationships\"><w:body><w:p/><w:sectPr><w:headerReference w:type=\"default\" r:id=\"rId1\"/><w:headerReference w:type=\"first\" r:id=\"rId2\"/><w:headerReference w:type=\"even\" r:id=\"rId3\"/><w:footerReference w:type=\"default\" r:id=\"rId4\"/><w:footerReference w:type=\"first\" r:id=\"rId5\"/><w:footerReference w:type=\"even\" r:id=\"rId6\"/><w:pgSz w:w=\"12240\" w:h=\"15840\"/></w:sectPr></w:body></w:document>"
    ).into_bytes()).unwrap();
    let section = section(&source);
    let headers = references(&source, section, HeaderFooterKind::Header);
    let footers = references(&source, section, HeaderFooterKind::Footer);

    assert_eq!(headers.len(), 3);
    assert_eq!(footers.len(), 3);
    assert_eq!(headers[0].reference_type(), &HeaderFooterType::Default);
    assert_eq!(headers[1].reference_type(), &HeaderFooterType::First);
    assert_eq!(headers[2].reference_type(), &HeaderFooterType::Even);
    assert_eq!(footers[0].reference_type(), &HeaderFooterType::Default);
    assert_eq!(footers[1].reference_type(), &HeaderFooterType::First);
    assert_eq!(footers[2].reference_type(), &HeaderFooterType::Even);
    assert_eq!(headers[0].relationship_id(), Some("rId1"));
    assert_eq!(footers[2].kind(), HeaderFooterKind::Footer);
    assert!(source.node(headers[0].source_id()).is_some());

    let relationships = vec![
        relationship("rId1", HEADER, internal("/content/heads/default.xml")),
        relationship("rId4", FOOTER, internal("/content/feet/default.xml")),
    ];
    let name = HeaderFooter::part_for(&headers[0], HeaderFooterKind::Header, &relationships).unwrap();
    assert_eq!(name, "/content/heads/default.xml");
    let header = HeaderFooter::from_part(
        name,
        format!("<w:hdr xmlns:w=\"{WORD}\"><w:p><w:r><w:t>Company Annual Report</w:t></w:r></w:p></w:hdr>").into_bytes(),
        HeaderFooterKind::Header,
    )
    .unwrap();
    assert!(header.source().node(header.root_id()).is_some());
    assert_eq!(header.kind(), HeaderFooterKind::Header);
    let footer_name =
        HeaderFooter::part_for(&footers[0], HeaderFooterKind::Footer, &relationships).unwrap();
    assert_eq!(footer_name, "/content/feet/default.xml");
}

#[test]
fn reports_missing_relationships_without_loading_a_part() {
    let mut reference = HeaderFooterReference {
        source_id: NodeId(0),
        kind: HeaderFooterKind::Header,
        reference_type: HeaderFooterType::Default,
        relationship_id: Some("rId1".to_owned()),
    };
    reference.relationship_id = Some("missing".to_owned());
    let relationships = vec![relationship("rId1", HEADER, internal("/word/header1.xml"))];
    assert!(matches!(
        HeaderFooter::part_for(&reference, HeaderFooterKind::Header, &relationships),
        Err(HeaderFooterError::MissingRelationship(_))
    ));
    reference.relationship_id = None;
    assert_eq!(
        reference.resolve_part(&relationships),
        Err(HeaderFooterError::MissingRelationshipId)
    );
}

#[test]
fn rejects_external_and_invalid_header_parts() {
    let reference = |relationship_id: &str| HeaderFooterReference {
        source_id: NodeId(0),
        kind: HeaderFooterKind::Header,
        reference_type: HeaderFooterType::Default,
        relationship_id: Some(relationship_id.to_owned()),
    };
    let relationships = vec![
        relationship(
            "external",
            HEADER,
            RelationshipTarget::External {
                target: "https://example.com/header.xml".to_owned(),
            },
        ),
        relationship("invalid", HEADER, internal("/word/header2.xml")),
        relationship("footer", FOOTER, internal("/word/footer1.xml")),
    ];
    assert!(matches!(
        HeaderFooter::part_for(&reference("external"), HeaderFooterKind::Header, &relationships),
        Err(HeaderFooterError::ExternalTarget)
    ));
    let name =
        HeaderFooter::part_for(&reference("invalid"), HeaderFooterKind::Header, &relationships)
            .unwrap();
    assert!(matches!(
        HeaderFooter::from_part(name.clone(), format!("<w:ftr xmlns:w=\"{WORD}\"/>").into_bytes(), HeaderFooterKind::Header),
        Err(HeaderFooterError::InvalidRoot(HeaderFooterKind::Header))
    ));
    assert!(matches!(
        HeaderFooter::from_part(name, b"<w:hdr".to_vec(), HeaderFooterKind::Header),
        Err(HeaderFooterError::Source(_))
    ));
    assert_eq!(
        HeaderFooter::part_for(&reference("footer"), HeaderFooterKind::Header, &relationships),
        Err(HeaderFooterError::WrongRelationshipType)
    );
    assert_eq!(
        HeaderFooter::part_for(&reference("invalid"), HeaderFooterKind::Footer, &relationships),
        Err(HeaderFooterError::WrongKind)
    );
    assert_eq!(
        HeaderFooterError::InvalidRoot(HeaderFooterKind::Footer).code(),
        "INVALID_FOOTER_ROOT"
    );
}

#[test]
fn reads_unknown_and_missing_reference_types() {
    let source = SourceDocument::parse(format!(
        "<w:sectPr xmlns:w=\"{WORD}\"><w:headerReference w:type=\"odd\"/><w:headerReference/></w:sectPr>"
    ).into_bytes()).unwrap();
    let headers = references(&source, source.root(), HeaderFooterKind::Header);
    assert_eq!(headers.len(), 2);
    assert_eq!(
        headers[0].reference_type(),
        &HeaderFooterType::Unknown("odd".to_owned())
    );
    assert_eq!(
        headers[1].reference_type(),
        &HeaderFooterType::Unknown(String::new())
    );
    assert_eq!(headers[1].relationship_id(), None);
}
