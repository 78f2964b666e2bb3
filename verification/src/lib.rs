//! Decoder for the glyph outlines of TrueType fonts.
//!
//! The font is a byte buffer. Every function here is a pure function of that
//! buffer: it reads big-endian fields at computed offsets and reports a read
//! past the end of the buffer as an error instead of panicking.
//!
//! The way through a font: `parse_table_offsets` reads the table directory,
//! `get_num_glyphs` and `get_glyph_offsets` the location of each glyph,
//! `get_glyph_id` finds the glyph of a character, and `get_glyph` decodes its
//! outline. `decode_font` does all of this for a set of characters.

pub mod error;
pub mod reader;
pub mod tables;
pub mod location;
pub mod charmap;
pub mod outline;
pub mod font;
pub mod markup;

pub use charmap::get_glyph_id;
pub use error::DecodeError;
pub use font::{
    decode_font, decode_glyph, render_font, resolve_glyph_id, sorted_unique, unique_chars, Font,
};
pub use location::{get_glyph_offsets, get_num_glyphs};
pub use markup::{
    lexer, parser, styled_runs, FontStyle, FontWeight, Node, Style, Token, TokenType,
};
pub use outline::{get_glyph, get_glyph_coordinates, Contour, Point, SimpleGlyph};
pub use reader::{to_i16, to_i32, to_string, to_u16, to_u32, to_u8};
pub use tables::{parse_table_offsets, table_offset};
