//! Lexical scanner, expression parser and diagnostic substrate for the Clue
//! surface language: a C/Rust-flavored language that compiles to Lua.

pub mod error;
pub mod laws;
pub mod text;
pub mod parser;
pub mod scan_model;
pub mod scanner;
pub mod token;
