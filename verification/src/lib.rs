//! Front end for the FeO scripting language: a tokeniser that turns source
//! text into lexical tokens, and a recursive-descent parser that turns the
//! same kind of text into an abstract syntax tree.

pub mod ast;
pub mod chars;
pub mod laws;
pub mod parser;
pub mod tokenise;
