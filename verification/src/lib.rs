//! FIGlet-style banner fonts: the font model, the smushing rule engine and
//! the layout decisions that say how far two glyphs may be pushed together.
//!
//! - `text`: a font file as bytes: lines, fields, numerals, glyph rows.
//! - `flags`: the packed layout field of a header.
//! - `font`: header options, fitting rules and the font itself.
//! - `alphabet`: glyphs and the table of the supported character codes.
//! - `smush`: the rules that merge two sub-characters.
//! - `layout`: rule cascades, horizontal overlap and the vertical verdict.
//! - `output`: the options of one rendering.

pub mod alphabet;
pub mod flags;
pub mod font;
pub mod layout;
pub mod output;
pub mod smush;
pub mod text;
