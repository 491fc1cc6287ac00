//! Text-file collection: an ignore-rule matcher layered over built-in binary
//! extension globs, a text/binary classifier on a leading byte sample, and the
//! assembly of the annotated output.

pub mod config;
pub mod file_handling;
pub mod args;
