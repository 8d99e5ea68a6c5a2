//! Front end of a small line-oriented scripting language: tokenizing,
//! statement validation and evaluation against a growing variable environment.

pub mod laws;
pub mod lexer;
pub mod math;
pub mod parser;
pub mod syntax_elements;
pub mod text;
pub mod types;
pub mod variables;
