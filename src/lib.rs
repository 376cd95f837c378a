//! A parser for a line-oriented mesh text format that produces a packed,
//! interleaved vertex buffer of position and normal triples.
pub mod error;
pub mod laws;
pub mod obj;
pub mod text;
