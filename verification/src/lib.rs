//! A lexical scanner for a small scripting language: it turns source text
//! into tokens, each with its category, its lexeme and its line.
//!
//! [`grammar`] says in mathematical terms what the tokens of a text are,
//! [`scanner`] computes them, and [`theorems`] states what holds of them.

pub mod grammar;
pub mod keywords;
pub mod lexer_types;
pub mod scanner;
pub mod text;
pub mod theorems;
