use vstd::prelude::*;

verus! {

/// The machine-readable category of a refused or failed edit.
#[derive(Clone, Copy, Debug, PartialEq, Eq, Structural)]
pub enum FailureCode {
    InvalidOperation,
    TargetNotFound,
    TargetAmbiguous,
    PreconditionFailed,
    UnsupportedOperation,
    DocumentInvalid,
    PackageConflict,
    MissingPart,
    UnsupportedImageFormat,
    MalformedImage,
}

/// The text of a failure code.
pub open spec fn failure_code_text(e: FailureCode) -> Seq<char> {
    match e {
        FailureCode::InvalidOperation => "INVALID_OPERATION"@,
        FailureCode::TargetNotFound => "TARGET_NOT_FOUND"@,
        FailureCode::TargetAmbiguous => "TARGET_AMBIGUOUS"@,
        FailureCode::PreconditionFailed => "PRECONDITION_FAILED"@,
        FailureCode::UnsupportedOperation => "UNSUPPORTED_OPERATION"@,
        FailureCode::DocumentInvalid => "DOCUMENT_INVALID"@,
        FailureCode::PackageConflict => "PACKAGE_CONFLICT"@,
        FailureCode::MissingPart => "MISSING_PART"@,
        FailureCode::UnsupportedImageFormat => "UNSUPPORTED_IMAGE_FORMAT"@,
        FailureCode::MalformedImage => "MALFORMED_IMAGE"@,
    }
}

impl FailureCode {
    pub fn as_str(&self) -> (r: &'static str)
        ensures
            r@ == failure_code_text(*self),
    {
        match self {
            FailureCode::InvalidOperation => "INVALID_OPERATION",
            FailureCode::TargetNotFound => "TARGET_NOT_FOUND",
            FailureCode::TargetAmbiguous => "TARGET_AMBIGUOUS",
            FailureCode::PreconditionFailed => "PRECONDITION_FAILED",
            FailureCode::UnsupportedOperation => "UNSUPPORTED_OPERATION",
            FailureCode::DocumentInvalid => "DOCUMENT_INVALID",
            FailureCode::PackageConflict => "PACKAGE_CONFLICT",
            FailureCode::MissingPart => "MISSING_PART",
            FailureCode::UnsupportedImageFormat => "UNSUPPORTED_IMAGE_FORMAT",
            FailureCode::MalformedImage => "MALFORMED_IMAGE",
        }
    }
}

/// Why an edit was not applied: a code, a message for people, and an optional finer
/// reason code.
#[derive(Clone, Copy, Debug, PartialEq, Eq)]
pub struct OperationFailure {
    pub code: FailureCode,
    pub message: &'static str,
    pub reason_code: Option<&'static str>,
}

impl OperationFailure {
    pub fn failed(code: FailureCode, message: &'static str) -> (r: OperationFailure)
        ensures
            r.code == code,
            r.message == message,
            r.reason_code is None,
    {
        OperationFailure { code, message, reason_code: None }
    }

    pub fn with_reason_code(self, reason: &'static str) -> (r: OperationFailure)
        ensures
            r.code == self.code,
            r.message == self.message,
            r.reason_code == Some(reason),
    {
        OperationFailure { code: self.code, message: self.message, reason_code: Some(reason) }
    }
}

/// An unsupported edit.
pub fn unsupported(message: &'static str) -> (r: OperationFailure)
    ensures
        r.code == FailureCode::UnsupportedOperation,
        r.message == message,
{
    OperationFailure::failed(FailureCode::UnsupportedOperation, message)
}

#[derive(Clone, Copy, Debug, PartialEq, Eq, Structural)]
pub enum PageNumberAlignment {
    Left,
    Center,
    Right,
}

/// A change of the text of the default header or footer; `None` removes the text.
#[derive(Clone, Debug, PartialEq, Eq)]
pub struct SetHeaderFooterText {
    pub kind: crate::header_footer::HeaderFooterKind,
    pub text: Option<String>,
}

/// A change of the page number of the default header or footer; `None` removes it.
#[derive(Clone, Copy, Debug, PartialEq, Eq)]
pub struct SetPageNumber {
    pub kind: crate::header_footer::HeaderFooterKind,
    pub alignment: Option<PageNumberAlignment>,
}

/// Where new body content goes: at the start or end of the body, or before or after a
/// body block named by its handle (`b` and its index among the direct body blocks).
#[derive(Clone, Debug, PartialEq, Eq)]
pub enum ParagraphPlacement {
    Start,
    End,
    Before { handle: String },
    After { handle: String },
}

#[derive(Clone, Copy, Debug, PartialEq, Eq, Structural)]
pub enum PaperSize {
    Letter,
    A4,
}

#[derive(Clone, Copy, Debug, PartialEq, Eq, Structural)]
pub enum PageOrientation {
    Portrait,
    Landscape,
}

/// Page margins in twips; `None` where a margin is not given.
#[derive(Clone, Copy, Debug, Default, PartialEq, Eq, Structural)]
pub struct PageMargins {
    pub top_twips: Option<i32>,
    pub right_twips: Option<i32>,
    pub bottom_twips: Option<i32>,
    pub left_twips: Option<i32>,
}

/// A change of margins, paper size or orientation.
#[derive(Clone, Copy, Debug, PartialEq, Eq, Structural)]
pub struct SetPageSetup {
    pub margins: Option<PageMargins>,
    pub paper_size: Option<PaperSize>,
    pub orientation: Option<PageOrientation>,
}

#[derive(Clone, Debug, PartialEq, Eq)]
pub struct InsertPageBreak {
    pub placement: ParagraphPlacement,
}

#[derive(Clone, Debug, PartialEq, Eq)]
pub struct PageBreakTarget {
    pub handle: String,
}

#[derive(Clone, Debug, PartialEq, Eq)]
pub struct DeletePageBreak {
    pub target: PageBreakTarget,
}

#[derive(Clone, Debug, PartialEq, Eq)]
pub struct InsertParagraph {
    pub placement: ParagraphPlacement,
    pub text: String,
}

/// Inserts one plain paragraph after the paragraph a text target anchors to.
#[derive(Clone, Debug, PartialEq, Eq)]
pub struct InsertParagraphAfter {
    pub anchor: TextTarget,
    pub text: String,
}

#[derive(Clone, Debug, PartialEq, Eq)]
pub struct InsertParagraphs {
    pub placement: ParagraphPlacement,
    pub texts: Vec<String>,
}

/// A text to find, and which of its occurrences when it occurs more than once.
#[derive(Clone, Debug, PartialEq, Eq)]
pub struct TextTarget {
    pub text: String,
    pub occurrence: Option<usize>,
}

#[derive(Clone, Debug, PartialEq, Eq)]
pub struct DeleteParagraph {
    pub target: TextTarget,
}

#[derive(Clone, Debug, PartialEq, Eq)]
pub struct CreateTable {
    pub placement: ParagraphPlacement,
    pub rows: Vec<Vec<String>>,
}

/// A direct body table: by its handle (`t` and its index among the direct body tables),
/// else by the texts of its header row; `occurrence` picks one of several matches.
#[derive(Clone, Debug, PartialEq, Eq)]
pub struct TableTarget {
    pub header_cells: Vec<String>,
    pub occurrence: Option<usize>,
    pub handle: Option<String>,
}

/// A row of a table: by its handle (`tN:rM`), else by the text of its first cell.
#[derive(Clone, Debug, PartialEq, Eq)]
pub struct TableRowTarget {
    pub first_cell_text: String,
    pub occurrence: Option<usize>,
    pub handle: Option<String>,
}

/// Deletes one direct body table.
#[derive(Clone, Debug, PartialEq, Eq)]
pub struct DeleteTable {
    pub table: TableTarget,
}

/// Deletes one row, named by its handle, of a direct body table.
#[derive(Clone, Debug, PartialEq, Eq)]
pub struct DeleteTableRow {
    pub table: TableTarget,
    pub row: TableRowTarget,
}

/// Inserts one row after a row of a direct body table.
#[derive(Clone, Debug, PartialEq, Eq)]
pub struct InsertTableRowAfter {
    pub table: TableTarget,
    pub after: TableRowTarget,
    pub cells: Vec<String>,
}

/// Inserts several rows, in order, after a row of a direct body table.
#[derive(Clone, Debug, PartialEq, Eq)]
pub struct InsertTableRowsAfter {
    pub table: TableTarget,
    pub after: TableRowTarget,
    pub rows: Vec<Vec<String>>,
}

/// Inserts a column after a column of a direct body table, named by its handle
/// (`tN:cM`) or its header text.
#[derive(Clone, Debug, PartialEq, Eq)]
pub struct InsertTableColumnAfter {
    pub table: TableTarget,
    pub after_column_header: String,
    pub after_column_handle: Option<String>,
    pub header: String,
    pub cells: Vec<String>,
}

/// Deletes a column of a direct body table, named by its handle or its header text.
#[derive(Clone, Debug, PartialEq, Eq)]
pub struct DeleteTableColumn {
    pub table: TableTarget,
    pub column_header: String,
    pub column_handle: Option<String>,
}

/// Sets the width of every column of a direct body table, in twips, one per column.
#[derive(Clone, Debug, PartialEq, Eq)]
pub struct SetTableColumnWidths {
    pub table: TableTarget,
    pub widths_twips: Vec<u16>,
}

/// A cell of a table: by its handle (`tN:rM:cK`), else by the text of its row's first
/// cell and the header text of its column; `occurrence` picks one of several matches.
#[derive(Clone, Debug, PartialEq, Eq)]
pub struct TableCellTarget {
    pub row_label: String,
    pub column_header: String,
    pub occurrence: Option<usize>,
    pub handle: Option<String>,
}

/// The shading of one cell: a six-digit RGB fill, or none to clear it.
#[derive(Clone, Debug, PartialEq, Eq)]
pub struct TableCellShadingUpdate {
    pub target: TableCellTarget,
    pub fill: Option<String>,
}

/// Sets or clears the shading of several cells of one direct body table.
#[derive(Clone, Debug, PartialEq, Eq)]
pub struct SetTableCellShading {
    pub table: TableTarget,
    pub updates: Vec<TableCellShadingUpdate>,
}

/// A change of one property: set it to a value, or clear it.
#[derive(Clone, Debug, PartialEq, Eq)]
pub enum PropertyPatch<T> {
    Apply(T),
    Clear,
}

/// How a table sits between the margins.
#[derive(Clone, Copy, Debug, PartialEq, Eq, Structural)]
pub enum TableAlignment {
    Left,
    Center,
    Right,
}

/// The borders of a table: a single-line grid, or none at all (`nil`).
#[derive(Clone, Copy, Debug, PartialEq, Eq, Structural)]
pub enum TableBorders {
    Grid,
    Nil,
}

/// The default cell margins of a table, in twips.
#[derive(Clone, Copy, Debug, PartialEq, Eq, Structural)]
pub struct TableCellMargins {
    pub top_twips: u16,
    pub left_twips: u16,
    pub bottom_twips: u16,
    pub right_twips: u16,
}

/// The direct table properties to change; a property left `None` is kept.
#[derive(Clone, Debug, PartialEq, Eq)]
pub struct TableFormattingPatch {
    pub alignment: Option<PropertyPatch<TableAlignment>>,
    pub cell_margins: Option<PropertyPatch<TableCellMargins>>,
    pub borders: Option<PropertyPatch<TableBorders>>,
}

/// Changes the direct properties of a direct body table.
#[derive(Clone, Debug, PartialEq, Eq)]
pub struct SetTableFormatting {
    pub table: TableTarget,
    pub formatting: TableFormattingPatch,
}

/// Inserts one inline PNG or JPEG picture, in a paragraph of its own, at a body placement.
#[derive(Clone, Debug, PartialEq, Eq)]
pub struct InsertPicture {
    pub image_bytes: Vec<u8>,
    pub placement: ParagraphPlacement,
    pub alt_text: Option<String>,
}

/// Names a picture: by the name and description of its drawing properties, with
/// `occurrence` picking one of several, or by a handle.
#[derive(Clone, Debug, PartialEq, Eq)]
pub struct PictureTarget {
    pub handle: Option<String>,
    pub name: Option<String>,
    pub description: Option<String>,
    pub occurrence: Option<usize>,
}

/// An image payload and its content type.
#[derive(Clone, Debug, PartialEq, Eq)]
pub struct PictureReplacement {
    pub content_type: String,
    pub bytes: Vec<u8>,
}

/// Replaces the image of one picture, keeping its drawing, size and relationship.
#[derive(Clone, Debug, PartialEq, Eq)]
pub struct ReplacePicture {
    pub target: PictureTarget,
    pub replacement: PictureReplacement,
}

} // verus!
