//! Tokens, their categories and the faults of a scan, each with the
//! mathematical value that contracts speak of.

use vstd::prelude::*;

verus! {

/// The lexical category of a token.
///
/// A string literal carries the text between its quotes. A number literal
/// carries its decimal text, digits with an optional fraction, from which
/// its numeric value is read.
#[allow(non_camel_case_types)]
#[derive(Debug, PartialEq, Eq)]
pub enum TokenType {
    // Single-character tokens.
    LEFT_PAREN,
    RIGHT_PAREN,
    LEFT_BRACE,
    RIGHT_BRACE,
    COMMA,
    DOT,
    MINUS,
    PLUS,
    SEMICOLON,
    SLASH,
    STAR,
    // One or two character tokens.
    BANG,
    BANG_EQUAL,
    EQUAL,
    EQUAL_EQUAL,
    GREATER,
    GREATER_EQUAL,
    LESS,
    LESS_EQUAL,
    // Literals.
    IDENTIFIER,
    STRING(String),
    NUMBER(String),
    // Keywords.
    AND,
    CLASS,
    ELSE,
    FALSE,
    FUN,
    FOR,
    IF,
    NIL,
    OR,
    PRINT,
    RETURN,
    SUPER,
    THIS,
    TRUE,
    VAR,
    WHILE,
    EOF,
}

/// A token category as a mathematical value: the view of a [`TokenType`].
pub enum TokenKind {
    LeftParen,
    RightParen,
    LeftBrace,
    RightBrace,
    Comma,
    Dot,
    Minus,
    Plus,
    Semicolon,
    Slash,
    Star,
    Bang,
    BangEqual,
    Equal,
    EqualEqual,
    Greater,
    GreaterEqual,
    Less,
    LessEqual,
    Identifier,
    Text(Seq<char>),
    Number(Seq<char>),
    And,
    Class,
    Else,
    False,
    Fun,
    For,
    If,
    Nil,
    Or,
    Print,
    Return,
    Super,
    This,
    True,
    Var,
    While,
    Eof,
}

impl View for TokenType {
    type V = TokenKind;

    open spec fn view(&self) -> TokenKind {
        match self {
            TokenType::LEFT_PAREN => TokenKind::LeftParen,
            TokenType::RIGHT_PAREN => TokenKind::RightParen,
            TokenType::LEFT_BRACE => TokenKind::LeftBrace,
            TokenType::RIGHT_BRACE => TokenKind::RightBrace,
            TokenType::COMMA => TokenKind::Comma,
            TokenType::DOT => TokenKind::Dot,
            TokenType::MINUS => TokenKind::Minus,
            TokenType::PLUS => TokenKind::Plus,
            TokenType::SEMICOLON => TokenKind::Semicolon,
            TokenType::SLASH => TokenKind::Slash,
            TokenType::STAR => TokenKind::Star,
            TokenType::BANG => TokenKind::Bang,
            TokenType::BANG_EQUAL => TokenKind::BangEqual,
            TokenType::EQUAL => TokenKind::Equal,
            TokenType::EQUAL_EQUAL => TokenKind::EqualEqual,
            TokenType::GREATER => TokenKind::Greater,
            TokenType::GREATER_EQUAL => TokenKind::GreaterEqual,
            TokenType::LESS => TokenKind::Less,
            TokenType::LESS_EQUAL => TokenKind::LessEqual,
            TokenType::IDENTIFIER => TokenKind::Identifier,
            TokenType::STRING(text) => TokenKind::Text(text@),
            TokenType::NUMBER(text) => TokenKind::Number(text@),
            TokenType::AND => TokenKind::And,
            TokenType::CLASS => TokenKind::Class,
            TokenType::ELSE => TokenKind::Else,
            TokenType::FALSE => TokenKind::False,
            TokenType::FUN => TokenKind::Fun,
            TokenType::FOR => TokenKind::For,
            TokenType::IF => TokenKind::If,
            TokenType::NIL => TokenKind::Nil,
            TokenType::OR => TokenKind::Or,
            TokenType::PRINT => TokenKind::Print,
            TokenType::RETURN => TokenKind::Return,
            TokenType::SUPER => TokenKind::Super,
            TokenType::THIS => TokenKind::This,
            TokenType::TRUE => TokenKind::True,
            TokenType::VAR => TokenKind::Var,
            TokenType::WHILE => TokenKind::While,
            TokenType::EOF => TokenKind::Eof,
        }
    }
}

impl Clone for TokenType {
    fn clone(&self) -> (r: TokenType)
        ensures
            r@ == self@,
    {
        match self {
            TokenType::LEFT_PAREN => TokenType::LEFT_PAREN,
            TokenType::RIGHT_PAREN => TokenType::RIGHT_PAREN,
            TokenType::LEFT_BRACE => TokenType::LEFT_BRACE,
            TokenType::RIGHT_BRACE => TokenType::RIGHT_BRACE,
            TokenType::COMMA => TokenType::COMMA,
            TokenType::DOT => TokenType::DOT,
            TokenType::MINUS => TokenType::MINUS,
            TokenType::PLUS => TokenType::PLUS,
            TokenType::SEMICOLON => TokenType::SEMICOLON,
            TokenType::SLASH => TokenType::SLASH,
            TokenType::STAR => TokenType::STAR,
            TokenType::BANG => TokenType::BANG,
            TokenType::BANG_EQUAL => TokenType::BANG_EQUAL,
            TokenType::EQUAL => TokenType::EQUAL,
            TokenType::EQUAL_EQUAL => TokenType::EQUAL_EQUAL,
            TokenType::GREATER => TokenType::GREATER,
            TokenType::GREATER_EQUAL => TokenType::GREATER_EQUAL,
            TokenType::LESS => TokenType::LESS,
            TokenType::LESS_EQUAL => TokenType::LESS_EQUAL,
            TokenType::IDENTIFIER => TokenType::IDENTIFIER,
            TokenType::STRING(text) => TokenType::STRING(text.clone()),
            TokenType::NUMBER(text) => TokenType::NUMBER(text.clone()),
            TokenType::AND => TokenType::AND,
            TokenType::CLASS => TokenType::CLASS,
            TokenType::ELSE => TokenType::ELSE,
            TokenType::FALSE => TokenType::FALSE,
            TokenType::FUN => TokenType::FUN,
            TokenType::FOR => TokenType::FOR,
            TokenType::IF => TokenType::IF,
            TokenType::NIL => TokenType::NIL,
            TokenType::OR => TokenType::OR,
            TokenType::PRINT => TokenType::PRINT,
            TokenType::RETURN => TokenType::RETURN,
            TokenType::SUPER => TokenType::SUPER,
            TokenType::THIS => TokenType::THIS,
            TokenType::TRUE => TokenType::TRUE,
            TokenType::VAR => TokenType::VAR,
            TokenType::WHILE => TokenType::WHILE,
            TokenType::EOF => TokenType::EOF,
        }
    }
}

/// A token as a mathematical value: the view of a [`Token`].
pub struct TokenView {
    pub kind: TokenKind,
    pub lexeme: Seq<char>,
    pub line: int,
}

/// A classified lexeme: its category, the source text that produced it and
/// the number, counted from 1, of the line on which it begins.
#[derive(Debug, PartialEq, Eq)]
pub struct Token {
    type_: TokenType,
    lexeme: String,
    line: usize,
}

impl View for Token {
    type V = TokenView;

    closed spec fn view(&self) -> TokenView {
        TokenView { kind: self.type_@, lexeme: self.lexeme@, line: self.line as int }
    }
}

impl Clone for Token {
    fn clone(&self) -> (r: Token)
        ensures
            r@ == self@,
    {
        Token { type_: self.type_.clone(), lexeme: self.lexeme.clone(), line: self.line }
    }
}

impl Token {
    pub fn new(type_: TokenType, lexeme: String, line: usize) -> (r: Token)
        ensures
            r@ == (TokenView { kind: type_@, lexeme: lexeme@, line: line as int }),
    {
        Token { type_, lexeme, line }
    }

    /// The category of the token.
    pub fn token_type(&self) -> (r: &TokenType)
        ensures
            r@ == self@.kind,
    {
        &self.type_
    }

    /// The source text that produced the token.
    pub fn lexeme(&self) -> (r: &str)
        ensures
            r@ == self@.lexeme,
    {
        self.lexeme.as_str()
    }

    /// The number, counted from 1, of the line on which the token begins.
    pub fn line(&self) -> (r: usize)
        ensures
            r == self@.line,
    {
        self.line
    }
}

/// The views of the tokens of a sequence, in the same order.
pub open spec fn views(tokens: Seq<Token>) -> Seq<TokenView> {
    tokens.map_values(|t: Token| t@)
}

/// Why a scan stopped, as a mathematical value: the view of a [`LexError`].
pub enum LexFault {
    UnexpectedCharacter { char: char, line: int },
    UnterminatedString { line: int },
}

/// The failure that ends a scan.
#[derive(Debug, Clone, Copy, PartialEq, Eq)]
pub enum LexError {
    /// `char`, met on line `line`, begins no token.
    UnexpectedCharacter { char: char, line: usize },
    /// The input ended, on line `line`, inside a string literal.
    UnterminatedString { line: usize },
}

impl View for LexError {
    type V = LexFault;

    open spec fn view(&self) -> LexFault {
        match self {
            LexError::UnexpectedCharacter { char, line } => LexFault::UnexpectedCharacter {
                char: *char,
                line: *line as int,
            },
            LexError::UnterminatedString { line } => LexFault::UnterminatedString {
                line: *line as int,
            },
        }
    }
}

} // verus!
