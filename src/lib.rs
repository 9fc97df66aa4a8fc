//! Trailing-whitespace and end-of-file newline normalization of text files.

pub mod file_text;
pub mod laws;
pub mod normalize;
pub mod report;
pub mod whitespace;
