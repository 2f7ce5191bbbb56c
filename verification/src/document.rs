use vstd::prelude::*;
use vstd::string::StringSliceAdditionalSpecFns;

use crate::content_control::{content_controls, ContentControl};
use crate::field::{fields, FieldSet};
use crate::source::{NodeId, SourceDocument};
use crate::wordml::{child, is_word, spec_child, word, SemanticError};

verus! {

/// A main document part: a `w:document` element with a `w:body`.
pub struct DocxDocument<'a> {
    pub source: &'a SourceDocument,
    pub body: NodeId,
}

/// The body the main document part declares, or why it has none.
pub open spec fn spec_body(d: &SourceDocument) -> Result<NodeId, SemanticError> {
    if !is_word(d, 0, "document".spec_bytes()) {
        Err(SemanticError::InvalidDocumentRoot)
    } else {
        match spec_child(d, 0, "body".spec_bytes()) {
            Some(b) => Ok(b),
            None => Err(SemanticError::MissingBody),
        }
    }
}

impl<'a> DocxDocument<'a> {
    pub open spec fn wf(&self) -> bool {
        &&& self.source.wf()
        &&& spec_body(self.source) == Ok::<NodeId, SemanticError>(self.body)
        &&& self.source.valid_id(self.body)
        &&& is_word(self.source, self.body.0 as int, "body".spec_bytes())
    }

    /// Reads the main document structure: the document element and its body.
    pub fn new(source: &'a SourceDocument) -> (r: Result<DocxDocument<'a>, SemanticError>)
        requires
            source.wf(),
        ensures
            match r {
                Ok(d) => d.wf() && d.source == source,
                Err(e) => spec_body(source) == Err::<NodeId, SemanticError>(e),
            },
    {
        let root = source.root();
        if !word(source, root, "document") {
            return Err(SemanticError::InvalidDocumentRoot);
        }
        match child(source, root, "body") {
            Some(body) => Ok(DocxDocument { source, body }),
            None => Err(SemanticError::MissingBody),
        }
    }

    pub fn body_id(&self) -> (r: NodeId)
        ensures
            r == self.body,
    {
        self.body
    }

    /// The fields of the document (see `crate::field::fields`).
    pub fn fields(&self) -> (r: FieldSet<'a>)
        requires
            self.wf(),
        ensures
            crate::field::fields_discovered(self.source, r),
    {
        fields(self.source)
    }

    /// The content controls of the document: one for each `w:sdt` element, in document
    /// order.
    pub fn content_controls(&self) -> (r: Vec<ContentControl<'a>>)
        requires
            self.wf(),
        ensures
            forall|k: int| 0 <= k < r@.len() ==> (#[trigger] r@[k]).wf() && r@[k].source == self.source,
            forall|k: int, l: int| 0 <= k < l < r@.len() ==> (#[trigger] r@[k]).source_id.0 < (#[trigger] r@[l]).source_id.0,
            forall|i: int|
                0 <= i < self.source.nodes@.len() && is_word(self.source, i, "sdt".spec_bytes()) ==> exists|k: int|
                    0 <= k < r@.len() && (#[trigger] r@[k]).source_id.0 == i,
    {
        content_controls(self.source)
    }
}

} // verus!
