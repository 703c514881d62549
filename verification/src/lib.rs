//! Lexical analysis for a small scripting language: a scanner that turns a
//! source text into a terminated sequence of classified tokens, each carrying
//! the exact source substring it was scanned from and the line it starts on.

pub mod errors;
pub mod laws;
pub mod model;
pub mod scan;
pub mod token;
