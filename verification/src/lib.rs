//! Rewrapping of plain text to a fixed column width.
//!
//! A logical line is cut into chunks of at most `width` characters by a
//! greedy scan, and every chunk is rendered as one output line under one of
//! five layout modes: left, center and right alignment, flush, and flush with
//! hyphenation. All positions and widths count characters, never bytes, so a
//! line may hold any text.
//!
//! - `mode`: the modes and their names.
//! - `layout`: how a mode renders a chunk and what the chunk carries over.
//! - `chunk`: the chunks that a logical line falls into, and its output
//!   lines.
//! - `scan`: the scanner, which reads a line character by character.
//! - `wrap`: the functions that wrap one logical line.
//! - `paragraph`: whole texts, wrapped line by line or by paragraphs.
//! - `laws`, `kept`: what holds of the output, proved for every input.
//! - `text`: helpers on strings.

pub mod chunk;
pub mod kept;
pub mod laws;
pub mod layout;
pub mod mode;
pub mod paragraph;
pub mod scan;
pub mod text;
pub mod wrap;
