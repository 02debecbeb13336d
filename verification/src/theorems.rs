//! What holds of every scan: where the end marker stands, what literals
//! carry, that equal texts give equal tokens, and that lexemes and the
//! text between them make up the source again.

use crate::grammar::{
    blank, char_at, digit, digits_end, end_marker, item_at, lemma_item_end, lemma_item_kind,
    lemma_run_end, line_end, number_end, quote_at, run_end, run_from, tokenize, Item,
};
use crate::lexer_types::{views, LexError, Token, TokenKind, TokenView};
use crate::scanner::scanner;
use vstd::prelude::*;

verus! {

/// The lexemes of a token sequence, in the same order.
pub open spec fn lexemes(tokens: Seq<TokenView>) -> Seq<Seq<char>> {
    tokens.map_values(|t: TokenView| t.lexeme)
}

/// Text that gives no token: white space and comments, each comment from
/// its two slashes to the next newline or to the end of the text.
pub open spec fn trivia(g: Seq<char>) -> bool
    decreases g.len(),
{
    if g.len() == 0 {
        true
    } else if blank(g[0]) {
        trivia(g.skip(1))
    } else if g[0] == '/' && char_at(g, 1) == '/' {
        proof {
            lemma_run_end(g, 2, |c: char| c != '\n');
        }
        trivia(g.skip(line_end(g, 2)))
    } else {
        false
    }
}

/// Where the white space and comments that start at index `p` of `s` end:
/// the index of the next token or fault, or the length of `s`.
pub open spec fn trivia_end(s: Seq<char>, p: int) -> int
    decreases s.len() - p,
{
    if 0 <= p < s.len() {
        proof {
            lemma_item_end(s, p);
        }
        match item_at(s, p) {
            Item::Skip { end } => trivia_end(s, end),
            _ => p,
        }
    } else {
        p
    }
}

/// The text that a scan of `s` from index `p` on passes over before each
/// of its tokens, the end marker included, in order.
pub open spec fn gaps_from(s: Seq<char>, p: int) -> Seq<Seq<char>>
    decreases s.len() - p,
{
    let q = trivia_end(s, p);
    if 0 <= p <= q < s.len() {
        proof {
            lemma_item_end(s, q);
        }
        match item_at(s, q) {
            Item::Token { kind, end } => seq![s.subrange(p, q)] + gaps_from(s, end),
            _ => Seq::empty(),
        }
    } else {
        seq![s.subrange(p, q)]
    }
}

/// The text made of `gaps` and `lexemes` in turn, a gap first.
pub open spec fn weave(gaps: Seq<Seq<char>>, lexemes: Seq<Seq<char>>) -> Seq<char>
    decreases gaps.len(),
{
    if gaps.len() == 0 || lexemes.len() == 0 {
        Seq::empty()
    } else {
        gaps[0] + lexemes[0] + weave(gaps.drop_first(), lexemes.drop_first())
    }
}

/// The end marker closes every scan that no fault stops, and stands
/// nowhere else: a token of a scan is the end marker if and only if the
/// scan met no fault and the token is its last.
pub proof fn theorem_end_marker_last(s: Seq<char>, p: int)
    requires
        0 <= p <= s.len(),
    ensures
        run_from(s, p).fault is None ==> run_from(s, p).tokens.len() > 0 && run_from(
            s,
            p,
        ).tokens.last() == end_marker(s),
        forall|i: int|
            0 <= i < run_from(s, p).tokens.len() ==> ((#[trigger] run_from(s, p).tokens[i]).kind
                == TokenKind::Eof <==> run_from(s, p).fault is None && i == run_from(
                s,
                p,
            ).tokens.len() - 1),
    decreases s.len() - p,
{
    if p < s.len() {
        lemma_item_end(s, p);
        lemma_item_kind(s, p);
        match item_at(s, p) {
            Item::Token { kind, end } => {
                theorem_end_marker_last(s, end);
                let rest = run_from(s, end);
                let run = run_from(s, p);
                assert forall|i: int| 0 <= i < run.tokens.len() implies ((
                #[trigger] run.tokens[i]).kind == TokenKind::Eof <==> run.fault is None && i
                    == run.tokens.len() - 1) by {
                    if i > 0 {
                        assert(run.tokens[i] == rest.tokens[i - 1]);
                    }
                }
            },
            Item::Skip { end } => {
                theorem_end_marker_last(s, end);
            },
            Item::Fault { fault, end } => {},
        }
    }
}

/// A scan ends within its text, at the end where no fault stops it.
pub proof fn theorem_run_end(s: Seq<char>, p: int)
    requires
        0 <= p <= s.len(),
    ensures
        p <= run_from(s, p).end <= s.len(),
        run_from(s, p).fault is None ==> run_from(s, p).end == s.len(),
    decreases s.len() - p,
{
    if p < s.len() {
        lemma_item_end(s, p);
        match item_at(s, p) {
            Item::Token { kind, end } => {
                theorem_run_end(s, end);
            },
            Item::Skip { end } => {
                theorem_run_end(s, end);
            },
            Item::Fault { fault, end } => {},
        }
    }
}

/// The white space and comments at index `p` end within the text, at an
/// index where none begins.
proof fn lemma_trivia_end(s: Seq<char>, p: int)
    requires
        0 <= p <= s.len(),
    ensures
        p <= trivia_end(s, p) <= s.len(),
        trivia_end(s, p) < s.len() ==> !(item_at(s, trivia_end(s, p)) is Skip),
        run_from(s, p) == run_from(s, trivia_end(s, p)),
    decreases s.len() - p,
{
    if p < s.len() {
        lemma_item_end(s, p);
        match item_at(s, p) {
            Item::Skip { end } => {
                lemma_trivia_end(s, end);
            },
            _ => {},
        }
    }
}

/// A run within a part of a text ends where the run in the whole text
/// does, if that is within the part.
proof fn lemma_run_end_within(
    s: Seq<char>,
    p: int,
    q: int,
    from: int,
    keep: spec_fn(char) -> bool,
)
    requires
        0 <= p <= from <= q <= s.len(),
        run_end(s, from, keep) <= q,
    ensures
        run_end(s.subrange(p, q), from - p, keep) == run_end(s, from, keep) - p,
    decreases q - from,
{
    let g = s.subrange(p, q);
    lemma_run_end(s, from, keep);
    if from < q && keep(s[from]) {
        assert(g[from - p] == s[from]);
        lemma_run_end_within(s, p, q, from + 1, keep);
    }
}

/// What a scan passes over between two tokens is white space and comments.
proof fn lemma_gap_is_trivia(s: Seq<char>, p: int)
    requires
        0 <= p <= s.len(),
    ensures
        trivia(s.subrange(p, trivia_end(s, p))),
    decreases s.len() - p,
{
    lemma_trivia_end(s, p);
    let q = trivia_end(s, p);
    let g = s.subrange(p, q);
    if p < s.len() {
        lemma_item_end(s, p);
        match item_at(s, p) {
            Item::Skip { end } => {
                lemma_trivia_end(s, end);
                lemma_gap_is_trivia(s, end);
                assert(q == trivia_end(s, end));
                assert(g[0] == s[p]);
                if s[p] == '/' {
                    assert(char_at(s, p + 1) == '/');
                    assert(end == line_end(s, p + 2));
                    lemma_run_end(s, p + 2, |c: char| c != '\n');
                    assert(g[1] == s[p + 1]);
                    lemma_run_end_within(s, p, q, p + 2, |c: char| c != '\n');
                    assert(g.skip(line_end(g, 2)) =~= s.subrange(end, q));
                } else {
                    assert(g.skip(1) =~= s.subrange(end, q));
                }
            },
            _ => {
                assert(g.len() == 0);
            },
        }
    } else {
        assert(g.len() == 0);
    }
}

/// Weaving the gaps of a scan with the lexemes of its tokens gives back
/// the text that was scanned, and every gap is white space and comments.
pub proof fn theorem_weave_from(s: Seq<char>, p: int)
    requires
        0 <= p <= s.len(),
        run_from(s, p).fault is None,
    ensures
        gaps_from(s, p).len() == run_from(s, p).tokens.len(),
        forall|i: int| 0 <= i < gaps_from(s, p).len() ==> trivia(#[trigger] gaps_from(s, p)[i]),
        weave(gaps_from(s, p), lexemes(run_from(s, p).tokens)) == s.subrange(p, s.len() as int),
    decreases s.len() - p,
{
    let q = trivia_end(s, p);
    let gaps = gaps_from(s, p);
    let run = run_from(s, p);
    lemma_trivia_end(s, p);
    lemma_gap_is_trivia(s, p);
    if q < s.len() {
        lemma_item_end(s, q);
        match item_at(s, q) {
            Item::Token { kind, end } => {
                theorem_weave_from(s, end);
                let rest = run_from(s, end);
                let more = gaps_from(s, end);
                assert(gaps.drop_first() =~= more);
                assert(lexemes(run.tokens).drop_first() =~= lexemes(rest.tokens));
                assert(lexemes(run.tokens)[0] == s.subrange(q, end));
                assert(s.subrange(p, q) + s.subrange(q, end) + s.subrange(end, s.len() as int)
                    =~= s.subrange(p, s.len() as int));
                assert forall|i: int| 0 <= i < gaps.len() implies trivia(#[trigger] gaps[i]) by {
                    if i > 0 {
                        assert(gaps[i] == more[i - 1]);
                    }
                }
            },
            _ => {},
        }
    } else {
        assert(lexemes(run.tokens)[0] =~= Seq::<char>::empty());
        assert(weave(gaps.drop_first(), lexemes(run.tokens).drop_first()) =~= Seq::<char>::empty());
        assert(s.subrange(p, q) + Seq::<char>::empty() + Seq::<char>::empty() =~= s.subrange(
            p,
            s.len() as int,
        ));
    }
}

/// Decimal digits, at least one.
pub open spec fn digits(t: Seq<char>) -> bool {
    t.len() > 0 && forall|i: int| 0 <= i < t.len() ==> digit(#[trigger] t[i])
}

/// The text of a number: digits, or digits, a dot and digits.
pub open spec fn decimal(t: Seq<char>) -> bool {
    digits(t) || exists|k: int|
        0 < k < t.len() && digits(#[trigger] t.take(k)) && t[k] == '.' && digits(t.skip(k + 1))
}

/// The text of a string literal: its lexeme without the two quotes, and
/// no quote within.
pub open spec fn quoted(text: Seq<char>, lexeme: Seq<char>) -> bool {
    &&& lexeme == seq!['"'] + text + seq!['"']
    &&& forall|i: int| 0 <= i < text.len() ==> #[trigger] text[i] != '"'
}

/// A token that is a literal holds what its lexeme spells.
pub open spec fn literal(token: TokenView) -> bool {
    match token.kind {
        TokenKind::Number(text) => text == token.lexeme && decimal(text),
        TokenKind::Text(text) => quoted(text, token.lexeme),
        _ => true,
    }
}

/// The number literal that starts at a digit is digits, or digits, a dot
/// and digits.
proof fn lemma_number_is_decimal(s: Seq<char>, p: int)
    requires
        0 <= p < s.len(),
        digit(s[p]),
    ensures
        decimal(s.subrange(p, number_end(s, p + 1))),
{
    let whole = digits_end(s, p + 1);
    let end = number_end(s, p + 1);
    let t = s.subrange(p, end);
    lemma_run_end(s, p + 1, |c: char| digit(c));
    if char_at(s, whole) == '.' && digit(char_at(s, whole + 1)) {
        lemma_run_end(s, whole + 1, |c: char| digit(c));
        let k = whole - p;
        assert(digits(t.take(k))) by {
            assert forall|i: int| 0 <= i < t.take(k).len() implies digit(
                #[trigger] t.take(k)[i],
            ) by {
                assert(t.take(k)[i] == s[p + i]);
            }
        }
        assert(digits(t.skip(k + 1))) by {
            assert forall|i: int| 0 <= i < t.skip(k + 1).len() implies digit(
                #[trigger] t.skip(k + 1)[i],
            ) by {
                assert(t.skip(k + 1)[i] == s[whole + 1 + i]);
            }
        }
        assert(t[k] == '.');
    } else {
        assert forall|i: int| 0 <= i < t.len() implies digit(#[trigger] t[i]) by {
            assert(t[i] == s[p + i]);
        }
    }
}

/// Every literal among the tokens of a scan holds what its lexeme
/// spells: a number its whole lexeme, which is digits with or without a
/// fraction, and a string the text between its quotes.
pub proof fn theorem_literals(s: Seq<char>, p: int)
    requires
        0 <= p <= s.len(),
    ensures
        forall|i: int|
            0 <= i < run_from(s, p).tokens.len() ==> literal(#[trigger] run_from(s, p).tokens[i]),
    decreases s.len() - p,
{
    if p < s.len() {
        lemma_item_end(s, p);
        match item_at(s, p) {
            Item::Token { kind, end } => {
                theorem_literals(s, end);
                let rest = run_from(s, end);
                let run = run_from(s, p);
                let first = run.tokens[0];
                assert(literal(first)) by {
                    let c = s[p];
                    if c == '"' {
                        let close = quote_at(s, p + 1);
                        lemma_run_end(s, p + 1, |c: char| c != '"');
                        let text = s.subrange(p + 1, close);
                        assert(first.lexeme =~= seq!['"'] + text + seq!['"']);
                        assert forall|i: int| 0 <= i < text.len() implies #[trigger] text[i]
                            != '"' by {
                            assert(text[i] == s[p + 1 + i]);
                        }
                    } else if digit(c) {
                        lemma_number_is_decimal(s, p);
                    }
                }
                assert forall|i: int| 0 <= i < run.tokens.len() implies literal(
                    #[trigger] run.tokens[i],
                ) by {
                    if i > 0 {
                        assert(run.tokens[i] == rest.tokens[i - 1]);
                    }
                }
            },
            Item::Skip { end } => {
                theorem_literals(s, end);
            },
            Item::Fault { fault, end } => {},
        }
    }
}

/// Scanning is a function of the text: two scans of the same text from
/// the same state return the same fault, or tokens that agree one by one
/// in category, lexeme and line.
pub proof fn theorem_same_text_same_tokens(
    a: scanner,
    b: scanner,
    x: Result<Vec<Token>, LexError>,
    y: Result<Vec<Token>, LexError>,
)
    requires
        a.text() == b.text(),
        a.position() == b.position(),
        a.scanned() == b.scanned(),
        a.yields(x),
        b.yields(y),
    ensures
        match (x, y) {
            (Ok(t), Ok(u)) => views(t@) == views(u@),
            (Err(e), Err(f)) => e == f,
            _ => false,
        },
{
}

/// The lexemes of the tokens of a text, in order and with the white space
/// and comments between them put back, make up the text again.
pub proof fn theorem_reconstruction(s: Seq<char>)
    requires
        tokenize(s) is Ok,
    ensures
        gaps_from(s, 0).len() == tokenize(s)->Ok_0.len(),
        forall|i: int| 0 <= i < gaps_from(s, 0).len() ==> trivia(#[trigger] gaps_from(s, 0)[i]),
        weave(gaps_from(s, 0), lexemes(tokenize(s)->Ok_0)) == s,
{
    theorem_weave_from(s, 0);
    assert(s.subrange(0, s.len() as int) =~= s);
}

} // verus!
