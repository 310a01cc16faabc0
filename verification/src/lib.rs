//! A lexer for a small C-like scripting language: the token model, a
//! byte-indexed scanner with one byte of lookahead, and the model of scanning
//! that the scanner is proved against.

pub mod ascii;
pub mod class;
pub mod token;
pub mod scan;
pub mod lexer;
pub mod parser;
