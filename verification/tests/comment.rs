use opensuite_docx::comment::{comments_part, CommentError, CommentIssue, CommentMetadata, CommentSet};
use opensuite_docx::header_footer::{Relationship, RelationshipTarget};
use opensuite_docx::source::SourceDocument;

const WORD: &str = "http://schemas.openxmlformats.org/wordprocessingml/2006/main";

fn comments_part_bytes() -> Vec<u8> {
    format!(
        "<w:comments xmlns:w=\"{WORD}\">\
<w:comment w:id=\"7\" w:author=\"Alice\" w:initials=\"AL\"><w:p><w:r><w:t>Please verify &amp; keep</w:t></w:r></w:p><w:p><w:r><w:t xml:space=\"preserve\">Second line </w:t></w:r></w:p></w:comment>\
<w:comment w:id=\"8\" w:author=\"Bob\"><w:p><w:r><w:t>Second</w:t></w:r></w:p></w:comment>\
<w:comment w:id=\"9\"><w:p><w:r><w:t>Orphan</w:t></w:r></w:p></w:comment>\
<w:comment w:id=\"10\"><w:p><w:r><w:t>End only</w:t></w:r></w:p></w:comment>\
<w:comment w:id=\"11\"><w:p><w:r><w:t>Start only</w:t></w:r></w:p></w:comment>\
</w:comments>"
    )
    .into_bytes()
}

fn main_part() -> SourceDocument {
    SourceDocument::parse(
        format!(
            "<w:document xmlns:w=\"{WORD}\"><w:body>\
<w:p><w:commentRangeStart w:id=\"7\"/><w:r><w:t>alpha</w:t></w:r><w:commentRangeEnd w:id=\"7\"/><w:r><w:commentReference w:id=\"7\"/></w:r></w:p>\
<w:p><w:commentRangeStart w:id=\"8\"/><w:r><w:t>beta</w:t></w:r><w:commentRangeEnd w:id=\"8\"/><w:r><w:commentReference w:id=\"8\"/></w:r></w:p>\
<w:p><w:commentRangeEnd w:id=\"10\"/><w:commentRangeStart w:id=\"42\"/><w:commentRangeStart w:id=\"11\"/></w:p>\
</w:body></w:document>"
        )
        .into_bytes(),
    )
    .unwrap()
}

#[test]
fn loads_comments_in_anchor_order_with_metadata_and_body_text() {
    let document = main_part();
    let comments = CommentSet::load(comments_part_bytes(), &document).unwrap();
    let values = comments.comments();

    assert_eq!(values.len(), 5);
    assert_eq!(values[0].id(), Some("7"));
    assert_eq!(values[0].metadata().author.as_deref(), Some("Alice"));
    assert_eq!(values[0].metadata().initials.as_deref(), Some("AL"));
    assert_eq!(values[0].text().unwrap(), "Please verify & keep\nSecond line ");
    assert!(values[0].has_range());
    assert!(values[0].has_reference());
    assert_eq!(values[1].id(), Some("8"));
    assert!(values[1].has_range());
    assert!(values[1].has_reference());
    assert_eq!(values[2].id(), Some("10"));
    assert!(!values[2].has_range());
    assert_eq!(values[3].id(), Some("11"));
    assert!(!values[3].has_range());
    assert_eq!(values[4].id(), Some("9"));
    assert!(!values[4].has_range());
    assert!(!values[4].has_reference());
    assert_eq!(values[4].metadata(), CommentMetadata::default());
    let codes = comments
        .errors()
        .iter()
        .map(CommentIssue::code)
        .collect::<Vec<_>>();
    assert_eq!(
        codes,
        [
            "UNMATCHED_COMMENT_RANGE_END",
            "MISSING_COMMENT_ENTRY",
            "UNMATCHED_COMMENT_RANGE_START",
        ]
    );
    assert_eq!(
        comments.errors()[1],
        CommentIssue::MissingCommentEntry("42".to_owned())
    );
}

#[test]
fn accepts_a_document_without_a_comments_relationship() {
    let relationships = vec![Relationship {
        id: "rId1".to_owned(),
        relationship_type:
            "http://schemas.openxmlformats.org/officeDocument/2006/relationships/styles".to_owned(),
        target: RelationshipTarget::Internal {
            part_name: "/word/styles.xml".to_owned(),
        },
    }];
    assert_eq!(comments_part(&relationships), Ok(None));
    let comments = CommentSet::empty();
    assert_eq!(comments.comments().len(), 0);
    assert_eq!(comments.errors().len(), 0);
}

#[test]
fn finds_the_comments_part_and_rejects_external_targets() {
    let internal = vec![Relationship {
        id: "rId4".to_owned(),
        relationship_type:
            "http://schemas.openxmlformats.org/officeDocument/2006/relationships/comments".to_owned(),
        target: RelationshipTarget::Internal {
            part_name: "/word/comments.xml".to_owned(),
        },
    }];
    assert_eq!(
        comments_part(&internal),
        Ok(Some("/word/comments.xml".to_owned()))
    );
    let external = vec![Relationship {
        id: "rId4".to_owned(),
        relationship_type: "http://purl.oclc.org/ooxml/officeDocument/relationships/comments"
            .to_owned(),
        target: RelationshipTarget::External {
            target: "https://example.com/comments.xml".to_owned(),
        },
    }];
    assert_eq!(
        comments_part(&external),
        Err(CommentError::ExternalCommentsPart)
    );
}

#[test]
fn reports_duplicate_ids_missing_ids_and_duplicate_markers() {
    let part = format!(
        "<comments xmlns=\"{WORD}\"><comment id=\"1\"/><comment id=\"1\"/><comment/></comments>"
    )
    .into_bytes();
    let document = SourceDocument::parse(
        format!(
            "<document xmlns=\"{WORD}\"><body><p><commentRangeStart id=\"1\"/><commentRangeStart id=\"1\"/><commentRangeEnd id=\"1\"/><commentRangeEnd id=\"1\"/><commentReference id=\"1\"/><commentReference id=\"1\"/><commentReference/></p></body></document>"
        )
        .into_bytes(),
    )
    .unwrap();
    let comments = CommentSet::load(part, &document).unwrap();
    let codes = comments
        .errors()
        .iter()
        .map(CommentIssue::code)
        .collect::<Vec<_>>();
    assert_eq!(
        codes,
        [
            "DUPLICATE_COMMENT_ID",
            "MISSING_COMMENT_ID",
            "DUPLICATE_COMMENT_RANGE_START",
            "DUPLICATE_COMMENT_RANGE_END",
            "DUPLICATE_COMMENT_REFERENCE",
            "MISSING_COMMENT_ID",
        ]
    );
    let values = comments.comments();
    assert_eq!(values.len(), 3);
    assert!(values[0].has_range());
    assert_eq!(values[1].id(), Some("1"));
    assert!(!values[1].has_range());
    assert_eq!(values[2].id(), None);
}

#[test]
fn rejects_a_comments_part_with_another_root() {
    let document = main_part();
    let result = CommentSet::load(format!("<document xmlns=\"{WORD}\"/>").into_bytes(), &document);
    assert_eq!(result.err(), Some(CommentError::InvalidCommentsRoot));
    assert_eq!(CommentError::InvalidCommentsRoot.code(), "INVALID_COMMENTS_ROOT");
    let malformed = CommentSet::load(b"<comments".to_vec(), &document);
    assert!(matches!(malformed, Err(CommentError::Source(_))));
}
