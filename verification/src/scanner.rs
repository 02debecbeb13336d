//! The scanner: one pass over the source text, token by token.

use crate::grammar::{
    alpha, alpha_numeric, char_at, digit, digits_end, end_marker, ended, item_at,
    lemma_item_end, lemma_item_kind, lemma_newlines_bound, lemma_run_end, line_at, line_end,
    number_end, quote_at, run_from, tokenize, word_end, word_kind, Item, Run,
};
use crate::keywords::lookup;
use crate::lexer_types::{views, LexError, LexFault, Token, TokenKind, TokenType, TokenView};
use crate::text::{chars_of, text_between};
use vstd::prelude::*;

verus! {

/// A scanner over one source text: the text, the tokens read so far, the
/// bounds of the lexeme being read and the line that the scan has reached.
#[allow(non_camel_case_types)]
pub struct scanner {
    /// The characters of the text, and after them one NUL, which is what
    /// `peek` reads at the end of the text.
    source: Vec<char>,
    tokens: Vec<Token>,
    /// Where the lexeme being read begins.
    start: usize,
    /// The next character to read.
    current: usize,
    /// Between two items, the line of `current`; within one, that of `start`.
    line: usize,
}

/// The views of a token sequence grow with it.
proof fn lemma_views_push(tokens: Seq<Token>, token: Token)
    ensures
        views(tokens.push(token)) == views(tokens).push(token@),
{
    assert(views(tokens.push(token)) =~= views(tokens).push(token@));
}

/// The line does not change over text that holds no newline.
proof fn lemma_same_line(s: Seq<char>, from: int, to: int)
    requires
        0 <= from <= to <= s.len(),
        forall|i: int| from <= i < to ==> s[i] != '\n',
    ensures
        line_at(s, to) == line_at(s, from),
    decreases to - from,
{
    if from < to {
        lemma_same_line(s, from, to - 1);
    }
}

impl scanner {
    /// The source text that the scanner reads.
    pub closed spec fn text(&self) -> Seq<char> {
        self.source@.drop_last()
    }

    /// The index of the next character to read.
    pub closed spec fn position(&self) -> int {
        self.current as int
    }

    /// The tokens read so far, in order.
    pub closed spec fn scanned(&self) -> Seq<TokenView> {
        views(self.tokens@)
    }

    /// The scanner stands between two items of its text: its position lies
    /// within the text and its line counter is the line of that position.
    pub closed spec fn wf(&self) -> bool {
        &&& self.in_bounds()
        &&& self.line == line_at(self.text(), self.current as int)
        &&& self.unmarked() || self.complete()
    }

    /// No token read so far is the end marker.
    spec fn unmarked(&self) -> bool {
        forall|i: int|
            0 <= i < self.tokens@.len() ==> (#[trigger] views(self.tokens@)[i]).kind
                != TokenKind::Eof
    }

    /// The whole text is read, and the end marker closes the tokens and
    /// stands nowhere else among them.
    spec fn complete(&self) -> bool {
        &&& self.current == self.text().len()
        &&& self.tokens@.len() > 0
        &&& views(self.tokens@).last() == end_marker(self.text())
        &&& forall|i: int|
            0 <= i < self.tokens@.len() - 1 ==> (#[trigger] views(self.tokens@)[i]).kind
                != TokenKind::Eof
    }

    /// What is left to scan: nothing once the end marker is read, and
    /// before that the text from the current position on.
    pub open spec fn remainder(&self) -> Run {
        if ended(self.scanned()) {
            Run { tokens: Seq::empty(), fault: None, end: self.position() }
        } else {
            run_from(self.text(), self.position())
        }
    }

    /// The buffer holds the text and, after it, one NUL, and the lexeme being
    /// read lies within the text.
    spec fn in_bounds(&self) -> bool {
        &&& 0 < self.source@.len() <= usize::MAX
        &&& self.source@.last() == '\0'
        &&& self.start <= self.current <= self.text().len()
    }

    /// `self` is `before` moved on to index `current`, and nothing else.
    spec fn moved(&self, before: scanner, current: int) -> bool {
        &&& self.source == before.source
        &&& self.tokens == before.tokens
        &&& self.start == before.start
        &&& self.current == current
        &&& self.line == before.line
    }

    /// `self` is `before` moved on to index `current`, with one more token
    /// of category `kind`: the lexeme from `start` to `current`, on the
    /// line that `before` counts.
    spec fn emitted(&self, before: scanner, current: int, kind: TokenKind) -> bool {
        &&& self.source == before.source
        &&& self.start == before.start
        &&& self.current == current
        &&& self.line == before.line
        &&& views(self.tokens@) == views(before.tokens@).push(
            TokenView {
                kind,
                lexeme: before.text().subrange(before.start as int, current),
                line: before.line as int,
            },
        )
    }

    /// A scanner at the start of `source`, on line 1, with no token read.
    pub fn new(source: String) -> (r: scanner)
        ensures
            r.wf(),
            r.text() == source@,
            r.position() == 0,
            r.scanned() == Seq::<TokenView>::empty(),
    {
        let mut buffer = chars_of(source.as_str());
        buffer.push('\0');
        let r = scanner { source: buffer, start: 0, current: 0, line: 1, tokens: Vec::new() };
        assert(r.text() =~= source@);
        assert(r.source@.len() == r.source.len());
        assert(r.scanned() =~= Seq::<TokenView>::empty());
        r
    }

    /// Scans what is left of the text: appends its tokens to those read so
    /// far, up to the end marker or to the first fault, and reports that
    /// fault. Once the end marker is read, nothing is left and nothing
    /// changes.
    pub fn scan_tokens(&mut self) -> (r: Result<(), LexError>)
        requires
            old(self).wf(),
        ensures
            final(self).wf(),
            final(self).text() == old(self).text(),
            final(self).scanned() == old(self).scanned() + old(self).remainder().tokens,
            final(self).position() == old(self).remainder().end,
            match r {
                Ok(_) => old(self).remainder().fault is None,
                Err(e) => old(self).remainder().fault == Some(e@),
            },
            r is Ok <==> ended(final(self).scanned()),
    {
        let ghost s = self.text();
        let ghost before = views(self.tokens@);
        if self.finished() {
            assert(before + Seq::<TokenView>::empty() =~= before);
            return Ok(());
        }
        let ghost whole = run_from(s, self.current as int);
        assert(before + whole.tokens =~= views(self.tokens@) + whole.tokens);
        while !self.is_at_end()
            invariant
                self.wf(),
                self.unmarked(),
                s == self.text(),
                s == old(self).text(),
                whole == old(self).remainder(),
                before == views(old(self).tokens@),
                before + whole.tokens == views(self.tokens@) + run_from(
                    s,
                    self.current as int,
                ).tokens,
                whole.fault == run_from(s, self.current as int).fault,
                whole.end == run_from(s, self.current as int).end,
            decreases self.text().len() - self.current,
        {
            self.start = self.current;
            let ghost p = self.current as int;
            let ghost read = views(self.tokens@);
            proof {
                lemma_item_end(s, p);
            }
            match self.scan_token() {
                Ok(_) => {
                    assert(read + run_from(s, p).tokens =~= views(self.tokens@) + run_from(
                        s,
                        self.current as int,
                    ).tokens);
                },
                Err(e) => {
                    assert(read + run_from(s, p).tokens =~= read);
                    return Err(e);
                },
            }
        }
        let last = Token::new(TokenType::EOF, String::new(), self.line);
        proof {
            lemma_views_push(self.tokens@, last);
            assert(views(self.tokens@) + run_from(s, self.current as int).tokens =~= views(
                self.tokens@,
            ).push(last@));
        }
        self.tokens.push(last);
        Ok(())
    }

    /// Tells whether the end marker has been read.
    fn finished(&self) -> (r: bool)
        ensures
            r == ended(self.scanned()),
    {
        let n = self.tokens.len();
        if n == 0 {
            return false;
        }
        match self.tokens[n - 1].token_type() {
            TokenType::EOF => true,
            _ => false,
        }
    }

    /// Tells whether `r` is what a scan of what is left returns: the tokens
    /// read before it and those of the rest, or the fault that stops it.
    pub open spec fn yields(&self, r: Result<Vec<Token>, LexError>) -> bool {
        match r {
            Ok(tokens) => self.remainder().fault is None && views(tokens@) == self.scanned()
                + self.remainder().tokens,
            Err(e) => self.remainder().fault == Some(e@),
        }
    }

    /// Scans what is left of the text and hands the tokens over: those
    /// read before the call and those of the rest. The end marker closes
    /// them and stands nowhere else. Where a fault stops the scan, the
    /// fault is returned and the tokens are not.
    ///
    /// Of a scanner that has read nothing yet, this returns the tokens of
    /// the whole text.
    pub fn scan_all(self) -> (r: Result<Vec<Token>, LexError>)
        requires
            self.wf(),
        ensures
            self.yields(r),
            self.position() == 0 && self.scanned().len() == 0 ==> match r {
                Ok(tokens) => tokenize(self.text()) == Ok::<Seq<TokenView>, LexFault>(
                    views(tokens@),
                ),
                Err(e) => tokenize(self.text()) == Err::<Seq<TokenView>, LexFault>(e@),
            },
            r matches Ok(tokens) ==> {
                &&& tokens@.len() > 0
                &&& views(tokens@).last() == end_marker(self.text())
                &&& forall|i: int|
                    0 <= i < tokens@.len() - 1 ==> (#[trigger] views(tokens@)[i]).kind
                        != TokenKind::Eof
            },
    {
        let mut this = self;
        proof {
            if self.scanned().len() == 0 {
                let rest = run_from(self.text(), self.position()).tokens;
                assert(self.scanned() + rest =~= rest);
            }
        }
        match this.scan_tokens() {
            Ok(_) => {
                proof {
                    this.end_marker_is_last();
                }
                Ok(this.tokens)
            },
            Err(e) => Err(e),
        }
    }

    /// Among the tokens read so far the end marker can only be the last,
    /// and it is read only once the whole text is.
    pub proof fn end_marker_is_last(&self)
        requires
            self.wf(),
        ensures
            forall|i: int|
                0 <= i < self.scanned().len() && (#[trigger] self.scanned()[i]).kind
                    == TokenKind::Eof ==> {
                    &&& i == self.scanned().len() - 1
                    &&& self.scanned()[i] == end_marker(self.text())
                    &&& self.position() == self.text().len()
                },
    {
    }

    /// Reads the item at the current position: one token, or white space
    /// or a comment, which give none.
    fn scan_token(&mut self) -> (r: Result<(), LexError>)
        requires
            old(self).wf(),
            old(self).start == old(self).current,
            old(self).current < old(self).text().len(),
        ensures
            final(self).wf(),
            final(self).unmarked(),
            final(self).source == old(self).source,
            match item_at(old(self).text(), old(self).current as int) {
                Item::Token { kind, end } => {
                    &&& r is Ok
                    &&& final(self).current == end
                    &&& views(final(self).tokens@) == views(old(self).tokens@).push(
                        TokenView {
                            kind,
                            lexeme: old(self).text().subrange(old(self).current as int, end),
                            line: line_at(old(self).text(), old(self).current as int),
                        },
                    )
                },
                Item::Skip { end } => {
                    &&& r is Ok
                    &&& final(self).current == end
                    &&& final(self).tokens == old(self).tokens
                },
                Item::Fault { fault, end } => {
                    &&& r is Err
                    &&& r->Err_0@ == fault
                    &&& final(self).current == end
                    &&& final(self).tokens == old(self).tokens
                },
            },
    {
        let ghost s = self.text();
        let ghost p = self.current as int;
        proof {
            lemma_newlines_bound(s, p);
            lemma_item_end(s, p);
            lemma_item_kind(s, p);
        }
        let c: char = self.advance();
        match c {
            '(' => self.add_token(TokenType::LEFT_PAREN),
            ')' => self.add_token(TokenType::RIGHT_PAREN),
            '{' => self.add_token(TokenType::LEFT_BRACE),
            '}' => self.add_token(TokenType::RIGHT_BRACE),
            ',' => self.add_token(TokenType::COMMA),
            '.' => self.add_token(TokenType::DOT),
            '-' => self.add_token(TokenType::MINUS),
            '+' => self.add_token(TokenType::PLUS),
            ';' => self.add_token(TokenType::SEMICOLON),
            '*' => self.add_token(TokenType::STAR),
            '!' => {
                if self.match_('=') {
                    self.add_token(TokenType::BANG_EQUAL);
                } else {
                    self.add_token(TokenType::BANG);
                }
            },
            '=' => {
                if self.match_('=') {
                    self.add_token(TokenType::EQUAL_EQUAL);
                } else {
                    self.add_token(TokenType::EQUAL);
                }
            },
            '<' => {
                if self.match_('=') {
                    self.add_token(TokenType::LESS_EQUAL);
                } else {
                    self.add_token(TokenType::LESS);
                }
            },
            '>' => {
                if self.match_('=') {
                    self.add_token(TokenType::GREATER_EQUAL);
                } else {
                    self.add_token(TokenType::GREATER);
                }
            },
            '"' => {
                return self.string();
            },
            '/' => {
                if self.match_('/') {
                    while self.peek() != '\n' && !self.is_at_end()
                        invariant
                            self.in_bounds(),
                            self.moved(*old(self), self.current as int),
                            s == self.text(),
                            p + 2 <= self.current,
                            line_end(s, self.current as int) == line_end(s, p + 2),
                        decreases self.text().len() - self.current,
                    {
                        self.advance();
                    }
                    proof {
                        lemma_run_end(s, p + 2, |c: char| c != '\n');
                    }
                } else {
                    self.add_token(TokenType::SLASH);
                }
            },
            ' ' => {},
            '\r' => {},
            '\t' => {},
            '\n' => {
                self.line += 1;
                return Ok(());
            },
            _ => {
                if self.is_digit(c) {
                    proof {
                        let whole = digits_end(s, p + 1);
                        lemma_run_end(s, p + 1, |c: char| digit(c));
                        if char_at(s, whole) == '.' && digit(char_at(s, whole + 1)) {
                            lemma_run_end(s, whole + 1, |c: char| digit(c));
                        }
                    }
                    self.number();
                } else if self.is_alpha(c) {
                    proof {
                        lemma_run_end(s, p + 1, |c: char| alpha_numeric(c));
                    }
                    self.identifier();
                } else {
                    return Err(LexError::UnexpectedCharacter { char: c, line: self.line });
                }
            },
        }
        proof {
            lemma_same_line(s, p, self.current as int);
        }
        Ok(())
    }

    /// Reads the rest of a word and adds its token: the keyword that the
    /// word spells, or an identifier.
    fn identifier(&mut self)
        requires
            old(self).in_bounds(),
        ensures
            final(self).emitted(
                *old(self),
                word_end(old(self).text(), old(self).current as int),
                word_kind(
                    old(self).text().subrange(
                        old(self).start as int,
                        word_end(old(self).text(), old(self).current as int),
                    ),
                ),
            ),
    {
        let ghost s = self.text();
        while self.is_alpha_numerical(self.peek())
            invariant
                self.in_bounds(),
                self.moved(*old(self), self.current as int),
                s == self.text(),
                word_end(s, self.current as int) == word_end(s, old(self).current as int),
            decreases self.text().len() - self.current,
        {
            self.advance();
        }
        let text = self.lexeme(self.start, self.current);
        match lookup(text.as_str()) {
            Some(kind) => self.add_token(kind),
            None => self.add_token(TokenType::IDENTIFIER),
        }
    }

    /// Reads the rest of a number literal and adds its token: the digits
    /// and, where a dot and a digit follow them, the fraction.
    fn number(&mut self)
        requires
            old(self).in_bounds(),
        ensures
            final(self).emitted(
                *old(self),
                number_end(old(self).text(), old(self).current as int),
                TokenKind::Number(
                    old(self).text().subrange(
                        old(self).start as int,
                        number_end(old(self).text(), old(self).current as int),
                    ),
                ),
            ),
    {
        let ghost s = self.text();
        while self.is_digit(self.peek())
            invariant
                self.in_bounds(),
                self.moved(*old(self), self.current as int),
                s == self.text(),
                digits_end(s, self.current as int) == digits_end(s, old(self).current as int),
            decreases self.text().len() - self.current,
        {
            self.advance();
        }
        if self.peek() == '.' && self.is_digit(self.peek_next()) {
            let ghost whole = self.current as int;
            self.advance();
            while self.is_digit(self.peek())
                invariant
                    self.in_bounds(),
                    self.moved(*old(self), self.current as int),
                    s == self.text(),
                    digits_end(s, self.current as int) == digits_end(s, whole + 1),
                decreases self.text().len() - self.current,
            {
                self.advance();
            }
        }
        let text = self.lexeme(self.start, self.current);
        self.add_token(TokenType::NUMBER(text));
    }

    /// Tells whether `c` is an ASCII decimal digit.
    fn is_digit(&self, c: char) -> (r: bool)
        ensures
            r == digit(c),
    {
        c >= '0' && c <= '9'
    }

    /// The character after the next one, or NUL where the text ends before it.
    fn peek_next(&self) -> (c: char)
        requires
            self.in_bounds(),
        ensures
            c == char_at(self.text(), self.current + 1),
    {
        if self.is_at_end() {
            return '\0';
        }
        self.source[self.current + 1]
    }

    /// Reads the rest of a string literal, whose opening quote has been
    /// read, and adds its token, or fails where the text ends before the
    /// closing quote.
    fn string(&mut self) -> (r: Result<(), LexError>)
        requires
            old(self).wf(),
            old(self).unmarked(),
            old(self).start < old(self).current,
            line_at(old(self).text(), old(self).start as int) == old(self).line,
        ensures
            final(self).wf(),
            final(self).unmarked(),
            final(self).source == old(self).source,
            final(self).start == old(self).start,
            quote_at(old(self).text(), old(self).current as int) < old(self).text().len() ==> {
                &&& r is Ok
                &&& final(self).current == quote_at(old(self).text(), old(self).current as int)
                    + 1
                &&& views(final(self).tokens@) == views(old(self).tokens@).push(
                    TokenView {
                        kind: TokenKind::Text(
                            old(self).text().subrange(
                                old(self).start + 1,
                                quote_at(old(self).text(), old(self).current as int),
                            ),
                        ),
                        lexeme: old(self).text().subrange(
                            old(self).start as int,
                            quote_at(old(self).text(), old(self).current as int) + 1,
                        ),
                        line: old(self).line as int,
                    },
                )
            },
            quote_at(old(self).text(), old(self).current as int) >= old(self).text().len() ==> {
                &&& r == Err::<(), LexError>(
                    LexError::UnterminatedString { line: final(self).line },
                )
                &&& final(self).current == old(self).text().len()
                &&& final(self).tokens == old(self).tokens
            },
    {
        let ghost s = self.text();
        let mut line: usize = self.line;
        proof {
            lemma_run_end(s, self.current as int, |c: char| c != '"');
        }
        while self.peek() != '"' && !self.is_at_end()
            invariant
                self.in_bounds(),
                self.moved(*old(self), self.current as int),
                s == self.text(),
                line == line_at(s, self.current as int),
                quote_at(s, self.current as int) == quote_at(s, old(self).current as int),
            decreases self.text().len() - self.current,
        {
            proof {
                lemma_newlines_bound(s, self.current as int);
            }
            if self.peek() == '\n' {
                line += 1;
            }
            self.advance();
        }
        if self.is_at_end() {
            self.line = line;
            return Err(LexError::UnterminatedString { line });
        }
        self.advance();
        let value = self.lexeme(self.start + 1, self.current - 1);
        self.add_token(TokenType::STRING(value));
        self.line = line;
        Ok(())
    }

    /// The next character, or NUL at the end of the text.
    fn peek(&self) -> (c: char)
        requires
            self.in_bounds(),
        ensures
            c == char_at(self.text(), self.current as int),
    {
        self.source[self.current]
    }

    /// Reads the next character.
    fn advance(&mut self) -> (c: char)
        requires
            old(self).in_bounds(),
            old(self).current < old(self).text().len(),
        ensures
            c == old(self).text()[old(self).current as int],
            final(self).in_bounds(),
            final(self).moved(*old(self), old(self).current + 1),
    {
        self.current += 1;
        self.source[self.current - 1]
    }

    /// Adds the token of category `type_` whose lexeme runs from `start`
    /// to the current position.
    fn add_token(&mut self, type_: TokenType)
        requires
            old(self).in_bounds(),
        ensures
            final(self).emitted(*old(self), old(self).current as int, type_@),
            final(self).in_bounds(),
    {
        let text: String = self.lexeme(self.start, self.current);
        let token = Token::new(type_, text, self.line);
        proof {
            lemma_views_push(self.tokens@, token);
        }
        self.tokens.push(token);
    }

    /// Tells whether `c` may begin an identifier.
    fn is_alpha(&self, c: char) -> (r: bool)
        ensures
            r == alpha(c),
    {
        (c >= 'a' && c <= 'z') || (c >= 'A' && c <= 'Z') || c == '_'
    }

    /// Tells whether `c` may continue an identifier.
    fn is_alpha_numerical(&self, c: char) -> (r: bool)
        ensures
            r == alpha_numeric(c),
    {
        if self.is_alpha(c) {
            return true;
        } else if self.is_digit(c) {
            return true;
        }
        false
    }

    /// Tells whether the whole text has been read.
    fn is_at_end(&self) -> (r: bool)
        requires
            self.in_bounds(),
        ensures
            r == (self.current >= self.text().len()),
    {
        self.current + 1 >= self.source.len()
    }

    /// The text from index `from` up to, not including, index `to`.
    fn lexeme(&self, from: usize, to: usize) -> (r: String)
        requires
            self.in_bounds(),
            from <= to <= self.text().len(),
        ensures
            r@ == self.text().subrange(from as int, to as int),
    {
        let r = text_between(&self.source, from, to);
        assert(r@ =~= self.text().subrange(from as int, to as int));
        r
    }

    /// A copy of the tokens read so far.
    pub fn get_tokens(&self) -> (r: Vec<Token>)
        ensures
            views(r@) == self.scanned(),
    {
        let r = self.tokens.clone();
        assert(views(r@) =~= views(self.tokens@));
        r
    }

    /// Reads the next character if it is `expected`, and tells whether it was.
    fn match_(&mut self, expected: char) -> (r: bool)
        requires
            old(self).in_bounds(),
        ensures
            final(self).in_bounds(),
            r == (old(self).current < old(self).text().len() && old(self).text()[old(
                self,
            ).current as int] == expected),
            final(self).moved(
                *old(self),
                if r {
                    old(self).current + 1
                } else {
                    old(self).current as int
                },
            ),
    {
        if self.is_at_end() {
            return false;
        }
        if self.source[self.current] != expected {
            return false;
        }
        self.current += 1;
        return true;
    }
}

} // verus!
