//! What the tokens of a source text are, stated over sequences of
//! characters: the classes of characters, the extent of each lexeme, the
//! item that stands at a position and the scan that follows from it.

use crate::lexer_types::{LexFault, TokenKind, TokenView};
use vstd::prelude::*;

verus! {

/// An ASCII decimal digit.
pub open spec fn digit(c: char) -> bool {
    '0' <= c && c <= '9'
}

/// An ASCII letter or an underscore: what may begin an identifier.
pub open spec fn alpha(c: char) -> bool {
    ('a' <= c && c <= 'z') || ('A' <= c && c <= 'Z') || c == '_'
}

/// What may continue an identifier.
pub open spec fn alpha_numeric(c: char) -> bool {
    alpha(c) || digit(c)
}

/// White space between tokens: space, carriage return, tab or newline.
pub open spec fn blank(c: char) -> bool {
    c == ' ' || c == '\r' || c == '\t' || c == '\n'
}

/// The character of `s` at index `i`, and the NUL character past its end.
pub open spec fn char_at(s: Seq<char>, i: int) -> char {
    if 0 <= i < s.len() {
        s[i]
    } else {
        '\0'
    }
}

/// The end of the longest run of characters that satisfy `keep`, starting
/// at index `from` of `s`: the first index from there on whose character
/// does not satisfy it, or the length of `s`.
pub open spec fn run_end(s: Seq<char>, from: int, keep: spec_fn(char) -> bool) -> int
    decreases s.len() - from,
{
    if 0 <= from < s.len() && keep(s[from]) {
        run_end(s, from + 1, keep)
    } else {
        from
    }
}

/// The end of the run of digits that starts at `from`.
pub open spec fn digits_end(s: Seq<char>, from: int) -> int {
    run_end(s, from, |c: char| digit(c))
}

/// The end of the run of letters, digits and underscores that starts at `from`.
pub open spec fn word_end(s: Seq<char>, from: int) -> int {
    run_end(s, from, |c: char| alpha_numeric(c))
}

/// The index of the first newline from `from` on, or the length of `s`.
pub open spec fn line_end(s: Seq<char>, from: int) -> int {
    run_end(s, from, |c: char| c != '\n')
}

/// The index of the first double quote from `from` on, or the length of `s`.
pub open spec fn quote_at(s: Seq<char>, from: int) -> int {
    run_end(s, from, |c: char| c != '"')
}

/// The end of the number literal whose digits continue at `from`: the run
/// of digits and, where a dot and a digit follow it, the fraction too.
pub open spec fn number_end(s: Seq<char>, from: int) -> int {
    let whole = digits_end(s, from);
    if char_at(s, whole) == '.' && digit(char_at(s, whole + 1)) {
        digits_end(s, whole + 1)
    } else {
        whole
    }
}

/// The keyword that `word` spells, if it spells one. The match is exact
/// and case-sensitive.
pub open spec fn keyword(word: Seq<char>) -> Option<TokenKind> {
    if word == "and"@ {
        Some(TokenKind::And)
    } else if word == "class"@ {
        Some(TokenKind::Class)
    } else if word == "else"@ {
        Some(TokenKind::Else)
    } else if word == "false"@ {
        Some(TokenKind::False)
    } else if word == "for"@ {
        Some(TokenKind::For)
    } else if word == "fun"@ {
        Some(TokenKind::Fun)
    } else if word == "if"@ {
        Some(TokenKind::If)
    } else if word == "nil"@ {
        Some(TokenKind::Nil)
    } else if word == "or"@ {
        Some(TokenKind::Or)
    } else if word == "print"@ {
        Some(TokenKind::Print)
    } else if word == "return"@ {
        Some(TokenKind::Return)
    } else if word == "super"@ {
        Some(TokenKind::Super)
    } else if word == "this"@ {
        Some(TokenKind::This)
    } else if word == "true"@ {
        Some(TokenKind::True)
    } else if word == "var"@ {
        Some(TokenKind::Var)
    } else if word == "while"@ {
        Some(TokenKind::While)
    } else {
        None
    }
}

/// The category of a word: its keyword, or an identifier.
pub open spec fn word_kind(word: Seq<char>) -> TokenKind {
    match keyword(word) {
        Some(kind) => kind,
        None => TokenKind::Identifier,
    }
}

/// The number of newlines among the first `p` characters of `s`.
pub open spec fn newlines_before(s: Seq<char>, p: int) -> int
    decreases p,
{
    if p <= 0 {
        0
    } else {
        newlines_before(s, p - 1) + if char_at(s, p - 1) == '\n' {
            1int
        } else {
            0int
        }
    }
}

/// The number, counted from 1, of the line that holds index `p` of `s`.
pub open spec fn line_at(s: Seq<char>, p: int) -> int {
    1 + newlines_before(s, p)
}

/// What stands at one position of a source text.
pub enum Item {
    /// A token of category `kind` whose lexeme ends before index `end`.
    Token { kind: TokenKind, end: int },
    /// White space or a comment up to index `end`, which gives no token.
    Skip { end: int },
    /// Nothing that can be read: the scan stops with `fault`, having
    /// consumed the text up to index `end`.
    Fault { fault: LexFault, end: int },
}

/// The token that starts with one of the four operator characters that an
/// equals sign may follow.
pub open spec fn operator_at(s: Seq<char>, p: int, short: TokenKind, long: TokenKind) -> Item {
    if char_at(s, p + 1) == '=' {
        Item::Token { kind: long, end: p + 2 }
    } else {
        Item::Token { kind: short, end: p + 1 }
    }
}

/// What stands at index `p` of the source text `s`.
pub open spec fn item_at(s: Seq<char>, p: int) -> Item
    recommends
        0 <= p < s.len(),
{
    let c = s[p];
    if c == '(' {
        Item::Token { kind: TokenKind::LeftParen, end: p + 1 }
    } else if c == ')' {
        Item::Token { kind: TokenKind::RightParen, end: p + 1 }
    } else if c == '{' {
        Item::Token { kind: TokenKind::LeftBrace, end: p + 1 }
    } else if c == '}' {
        Item::Token { kind: TokenKind::RightBrace, end: p + 1 }
    } else if c == ',' {
        Item::Token { kind: TokenKind::Comma, end: p + 1 }
    } else if c == '.' {
        Item::Token { kind: TokenKind::Dot, end: p + 1 }
    } else if c == '-' {
        Item::Token { kind: TokenKind::Minus, end: p + 1 }
    } else if c == '+' {
        Item::Token { kind: TokenKind::Plus, end: p + 1 }
    } else if c == ';' {
        Item::Token { kind: TokenKind::Semicolon, end: p + 1 }
    } else if c == '*' {
        Item::Token { kind: TokenKind::Star, end: p + 1 }
    } else if c == '!' {
        operator_at(s, p, TokenKind::Bang, TokenKind::BangEqual)
    } else if c == '=' {
        operator_at(s, p, TokenKind::Equal, TokenKind::EqualEqual)
    } else if c == '<' {
        operator_at(s, p, TokenKind::Less, TokenKind::LessEqual)
    } else if c == '>' {
        operator_at(s, p, TokenKind::Greater, TokenKind::GreaterEqual)
    } else if c == '/' {
        if char_at(s, p + 1) == '/' {
            Item::Skip { end: line_end(s, p + 2) }
        } else {
            Item::Token { kind: TokenKind::Slash, end: p + 1 }
        }
    } else if blank(c) {
        Item::Skip { end: p + 1 }
    } else if c == '"' {
        let close = quote_at(s, p + 1);
        if close < s.len() {
            Item::Token { kind: TokenKind::Text(s.subrange(p + 1, close)), end: close + 1 }
        } else {
            Item::Fault {
                fault: LexFault::UnterminatedString { line: line_at(s, s.len() as int) },
                end: s.len() as int,
            }
        }
    } else if digit(c) {
        let end = number_end(s, p + 1);
        Item::Token { kind: TokenKind::Number(s.subrange(p, end)), end }
    } else if alpha(c) {
        let end = word_end(s, p + 1);
        Item::Token { kind: word_kind(s.subrange(p, end)), end }
    } else {
        Item::Fault {
            fault: LexFault::UnexpectedCharacter { char: c, line: line_at(s, p) },
            end: p + 1,
        }
    }
}

/// The token that ends every scan: no text, on the line where the input ends.
pub open spec fn end_marker(s: Seq<char>) -> TokenView {
    TokenView { kind: TokenKind::Eof, lexeme: Seq::empty(), line: line_at(s, s.len() as int) }
}

/// Tells whether a token sequence is closed by the end marker.
pub open spec fn ended(tokens: Seq<TokenView>) -> bool {
    tokens.len() > 0 && tokens.last().kind == TokenKind::Eof
}

/// What a scan yields: the tokens in order, the fault that stopped it, if
/// one did, and the index up to which it consumed the text.
pub struct Run {
    pub tokens: Seq<TokenView>,
    pub fault: Option<LexFault>,
    pub end: int,
}

/// `run` with the tokens `first` before its own.
pub open spec fn after(first: Seq<TokenView>, run: Run) -> Run {
    Run { tokens: first + run.tokens, fault: run.fault, end: run.end }
}

/// The scan of the source text `s` from index `p` on: item after item up
/// to the first fault, and the end marker once the text is exhausted.
pub open spec fn run_from(s: Seq<char>, p: int) -> Run
    decreases s.len() - p,
{
    if 0 <= p < s.len() {
        proof {
            lemma_item_end(s, p);
        }
        match item_at(s, p) {
            Item::Token { kind, end } => after(
                seq![TokenView { kind, lexeme: s.subrange(p, end), line: line_at(s, p) }],
                run_from(s, end),
            ),
            Item::Skip { end } => run_from(s, end),
            Item::Fault { fault, end } => Run { tokens: Seq::empty(), fault: Some(fault), end },
        }
    } else {
        Run { tokens: seq![end_marker(s)], fault: None, end: p }
    }
}

/// The tokens of the source text `s`, or the fault that stops its scan.
pub open spec fn tokenize(s: Seq<char>) -> Result<Seq<TokenView>, LexFault> {
    match run_from(s, 0).fault {
        Some(fault) => Err(fault),
        None => Ok(run_from(s, 0).tokens),
    }
}

/// No item of a text is an end marker.
pub proof fn lemma_item_kind(s: Seq<char>, p: int)
    requires
        0 <= p < s.len(),
    ensures
        match item_at(s, p) {
            Item::Token { kind, end } => kind != TokenKind::Eof,
            _ => true,
        },
{
}

/// A run starts no earlier than `from`, ends within the text, holds only
/// characters that satisfy `keep`, and stops at one that does not.
pub proof fn lemma_run_end(s: Seq<char>, from: int, keep: spec_fn(char) -> bool)
    requires
        0 <= from <= s.len(),
    ensures
        from <= run_end(s, from, keep) <= s.len(),
        forall|i: int| from <= i < run_end(s, from, keep) ==> keep(#[trigger] s[i]),
        run_end(s, from, keep) < s.len() ==> !keep(s[run_end(s, from, keep)]),
    decreases s.len() - from,
{
    if from < s.len() && keep(s[from]) {
        lemma_run_end(s, from + 1, keep);
    }
}

/// A number literal ends within the text, at or after `from`.
pub proof fn lemma_number_end(s: Seq<char>, from: int)
    requires
        0 <= from <= s.len(),
    ensures
        from <= number_end(s, from) <= s.len(),
{
    let whole = digits_end(s, from);
    lemma_run_end(s, from, |c: char| digit(c));
    if char_at(s, whole) == '.' && digit(char_at(s, whole + 1)) {
        lemma_run_end(s, whole + 1, |c: char| digit(c));
    }
}

/// Every item is at least one character long and ends within the text.
pub proof fn lemma_item_end(s: Seq<char>, p: int)
    requires
        0 <= p < s.len(),
    ensures
        match item_at(s, p) {
            Item::Token { kind, end } => p < end <= s.len(),
            Item::Skip { end } => p < end <= s.len(),
            Item::Fault { fault, end } => p < end <= s.len(),
        },
{
    let c = s[p];
    if c == '/' && char_at(s, p + 1) == '/' {
        lemma_run_end(s, p + 2, |c: char| c != '\n');
    } else if c == '"' {
        lemma_run_end(s, p + 1, |c: char| c != '"');
    } else if digit(c) {
        lemma_number_end(s, p + 1);
    } else if alpha(c) {
        lemma_run_end(s, p + 1, |c: char| alpha_numeric(c));
    }
}

/// No more newlines stand before an index than characters do.
pub proof fn lemma_newlines_bound(s: Seq<char>, p: int)
    requires
        0 <= p,
    ensures
        0 <= newlines_before(s, p) <= p,
    decreases p,
{
    if p > 0 {
        lemma_newlines_bound(s, p - 1);
    }
}

} // verus!
