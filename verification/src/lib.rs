//! A compact, immutable UTF-8 string whose short values live inside one
//! machine word and whose long values live in a length-prefixed heap block.
//!
//! - [`word`]: the encoded word, its tags, and how an address is folded
//!   into it.
//! - [`vint`]: the variable-length integer that heads a heap block.
//! - [`string`]: the string, its constructors and its accessors.
//! - [`interop`]: equality, hashing and conversions.
//! - [`laws`]: what holds of every string.
//! - [`utf8`]: what is taken from std's strings.
//! - [`bench`]: random strings for measurements.

pub mod bench;
pub mod interop;
pub mod laws;
pub mod string;
pub mod utf8;
pub mod vint;
pub mod word;

pub use crate::string::ColdString;
