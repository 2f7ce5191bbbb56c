use opensuite_docx::source::{NodeId, SourceDocument, SourceError};

#[test]
fn indexes_nodes_in_document_order_with_spans_and_parents() {
    let bytes = b"<a xmlns=\"urn:x\"><b k=\"v\">t&amp;</b><!--c--><c/></a>".to_vec();
    let source = SourceDocument::parse(bytes.clone()).unwrap();
    assert_eq!(source.original_bytes(), &bytes[..]);
    assert_eq!(source.root(), NodeId(0));
    let kids = source.children(NodeId(0));
    assert_eq!(kids.len(), 3);
    assert!(source.is_element_named(kids[0], "urn:x", "b"));
    assert_eq!(source.attribute(kids[0], "k"), Some(b"v".to_vec()));
    assert_eq!(source.parent(kids[0]), Some(NodeId(0)));
    let span = source.span(kids[2]);
    assert_eq!(&bytes[span.start..span.end], b"<c/>");
    assert!(source.has_local_name(kids[2], "c"));
    assert_eq!(source.subtree_end(NodeId(0)), source.node_count());
}

#[test]
fn rejects_mismatched_tags_and_unbound_prefixes() {
    assert!(matches!(
        SourceDocument::parse(b"<a></b>".to_vec()),
        Err(SourceError::MismatchedEndTag(_))
    ));
    assert!(matches!(
        SourceDocument::parse(b"<p:a/>".to_vec()),
        Err(SourceError::UnboundPrefix(_))
    ));
    assert!(matches!(
        SourceDocument::parse(b"".to_vec()),
        Err(SourceError::MissingRoot)
    ));
}
