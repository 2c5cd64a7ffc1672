//! A bidirectional transcoder between ordinary text and a private symbolic
//! alphabet written with two glyphs, plus a marker glyph that flags an
//! uppercase source letter.
//!
//! The fixed table maps 67 source characters (uppercase Latin letters, digits,
//! and ASCII punctuation) to distinct glyph strings. Encoding walks the input
//! character by character, decoding splits the input into whitespace-separated
//! tokens; characters or tokens outside the table are collected and reported,
//! never silently dropped into the output.

pub mod chars;
pub mod glyphs;
pub mod alphabet;
pub mod textops;
pub mod codec;
pub mod laws;
