# opensuite_docx

Reading and source-preserving editing of WordprocessingML (DOCX) documents, verified
with Verus.

A document is indexed from its original XML bytes (`source`), read as fields, content
controls, comments, numbering and headers and footers, and edited by byte patches on the
original part (`mutation`), so that everything an edit does not touch stays byte for
byte. The readers state exactly what they return over a specification of the XML index
that the parser is proved to build from the bytes. The edits state the bytes they produce
as patches of the original part, the failure codes with the inputs that give them, and
that a successful edit reads back as requested. Each edit also states why it may fail:
a failure comes only with one of the listed reasons, or when the output it planned would
not have read back as requested.

- `src/` — the verified library: the XML source index, WordprocessingML readers, the
  package model (parts, relationships, content types) and the edits (paragraphs, page
  breaks, page setup, headers and footers, page numbers, tables, pictures).
- `tests/` — tests on concrete documents.
- `app/` — a command-line front end that reads and writes DOCX (ZIP) packages and prints
  JSON.
