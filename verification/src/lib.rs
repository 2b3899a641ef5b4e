//! Text transformations for a pipe filter: literal and pattern-based
//! find/replace, and selection of whitespace-delimited fields by index.
//!
//! Every function is pure: it takes the buffered input and returns a new
//! string or a typed error. Contracts are stated over the character
//! sequences (`Seq<char>`) that strings denote.

pub mod engine;
pub mod error;
pub mod fields;
pub mod input;
pub mod number;
pub mod pattern;
pub mod replace;
pub mod select;
pub mod text;
