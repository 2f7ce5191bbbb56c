//! Source-aware WordprocessingML infrastructure over indexed XML parts.

pub mod image_dimensions;
pub mod escape;
pub mod bytes;
pub mod source;
pub mod wordml;
pub mod field;
pub mod numbers;
pub mod content_control;
pub mod document;
pub mod numbering;
pub mod header_footer;
pub mod comment;
pub mod order;
pub mod protocol;
pub mod package;
pub mod blank;
pub mod mutation;
