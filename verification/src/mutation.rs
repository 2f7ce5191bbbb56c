//! Source-preserving edits of a WordprocessingML main part: each edit is a set of byte
//! patches on the original part, so everything it does not touch stays byte-for-byte.

pub mod common;
pub mod page_setup;
pub mod page_break;
pub mod paragraph;
pub mod table;
pub mod header_footer;
pub mod header_footer_part;
pub mod header_footer_markup;
pub mod header_footer_text;
pub mod page_number;
pub mod table_edit;
pub mod table_row;
pub mod table_column;
pub mod table_width;
pub mod table_cell;
pub mod table_cell_lookup;
pub mod table_shading;
pub mod table_formatting;
pub mod picture_parts;
pub mod picture;
pub mod picture_replace;
