//! The reserved words.

use crate::grammar::keyword;
use crate::lexer_types::TokenType;
use crate::text::same_text;
use vstd::prelude::*;

verus! {

/// Looks `text` up among the reserved words: the category of the keyword
/// that it spells, or `None` where it spells none. The table is fixed and
/// the match exact, so `And` is no keyword though `and` is.
pub fn lookup(text: &str) -> (r: Option<TokenType>)
    ensures
        match r {
            Some(kind) => keyword(text@) == Some(kind@),
            None => keyword(text@) is None,
        },
{
    if same_text(text, "and") {
        Some(TokenType::AND)
    } else if same_text(text, "class") {
        Some(TokenType::CLASS)
    } else if same_text(text, "else") {
        Some(TokenType::ELSE)
    } else if same_text(text, "false") {
        Some(TokenType::FALSE)
    } else if same_text(text, "for") {
        Some(TokenType::FOR)
    } else if same_text(text, "fun") {
        Some(TokenType::FUN)
    } else if same_text(text, "if") {
        Some(TokenType::IF)
    } else if same_text(text, "nil") {
        Some(TokenType::NIL)
    } else if same_text(text, "or") {
        Some(TokenType::OR)
    } else if same_text(text, "print") {
        Some(TokenType::PRINT)
    } else if same_text(text, "return") {
        Some(TokenType::RETURN)
    } else if same_text(text, "super") {
        Some(TokenType::SUPER)
    } else if same_text(text, "this") {
        Some(TokenType::THIS)
    } else if same_text(text, "true") {
        Some(TokenType::TRUE)
    } else if same_text(text, "var") {
        Some(TokenType::VAR)
    } else if same_text(text, "while") {
        Some(TokenType::WHILE)
    } else {
        None
    }
}

} // verus!
