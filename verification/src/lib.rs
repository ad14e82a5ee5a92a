//! Finds hashtags in text: a `#` that opens a word, followed by a run of
//! characters that may stand in a hashtag.
//!
//! The scanner is a small state machine over a token stream. Its behaviour is
//! fixed by the spec functions of [`machine`]; [`laws`] proves what holds of
//! every result.

pub mod classify;
pub mod hashtag;
pub mod laws;
pub mod machine;
pub mod parser;
pub mod token;

pub use crate::hashtag::Hashtag;
pub use crate::parser::HashtagParser;
