use lexer::lexer_types::{LexError, Token, TokenType};
use lexer::scanner::scanner;

fn scan(source: &str) -> Result<Vec<Token>, LexError> {
    scanner::new(source.to_string()).scan_all()
}

fn kinds(source: &str) -> Vec<TokenType> {
    scan(source).unwrap().iter().map(|t| t.token_type().clone()).collect()
}

fn lexemes(source: &str) -> Vec<String> {
    scan(source).unwrap().iter().map(|t| t.lexeme().to_string()).collect()
}

fn lines(source: &str) -> Vec<usize> {
    scan(source).unwrap().iter().map(|t| t.line()).collect()
}

fn number(text: &str) -> TokenType {
    TokenType::NUMBER(text.to_string())
}

fn string(text: &str) -> TokenType {
    TokenType::STRING(text.to_string())
}

fn value_of(kind: &TokenType) -> f64 {
    match kind {
        TokenType::NUMBER(text) => text.parse::<f64>().unwrap(),
        other => panic!("{:?} is no number", other),
    }
}

#[test]
fn empty_input_gives_only_the_end_marker() {
    let tokens = scan("").unwrap();
    assert_eq!(tokens.len(), 1);
    assert_eq!(*tokens[0].token_type(), TokenType::EOF);
    assert_eq!(tokens[0].lexeme(), "");
    assert_eq!(tokens[0].line(), 1);
}

#[test]
fn variable_declaration() {
    let tokens = scan("var x = 10.5;\n").unwrap();
    assert_eq!(tokens.len(), 6);
    assert_eq!(*tokens[0].token_type(), TokenType::VAR);
    assert_eq!(*tokens[1].token_type(), TokenType::IDENTIFIER);
    assert_eq!(tokens[1].lexeme(), "x");
    assert_eq!(*tokens[2].token_type(), TokenType::EQUAL);
    assert_eq!(*tokens[3].token_type(), number("10.5"));
    assert_eq!(value_of(tokens[3].token_type()), 10.5);
    assert_eq!(*tokens[4].token_type(), TokenType::SEMICOLON);
    assert_eq!(*tokens[5].token_type(), TokenType::EOF);
    assert_eq!(lexemes("var x = 10.5;\n"), vec!["var", "x", "=", "10.5", ";", ""]);
    assert_eq!(lines("var x = 10.5;\n"), vec![1, 1, 1, 1, 1, 2]);
}

#[test]
fn comment_gives_no_token() {
    let tokens = scan("// comment\n(").unwrap();
    assert_eq!(tokens.len(), 2);
    assert_eq!(*tokens[0].token_type(), TokenType::LEFT_PAREN);
    assert_eq!(tokens[0].line(), 2);
    assert_eq!(*tokens[1].token_type(), TokenType::EOF);
    assert_eq!(tokens[1].line(), 2);
}

#[test]
fn unterminated_string_fails() {
    assert_eq!(scan("\"abc"), Err(LexError::UnterminatedString { line: 1 }));
}

#[test]
fn two_character_operators() {
    assert_eq!(
        kinds("!= <= == >="),
        vec![
            TokenType::BANG_EQUAL,
            TokenType::LESS_EQUAL,
            TokenType::EQUAL_EQUAL,
            TokenType::GREATER_EQUAL,
            TokenType::EOF,
        ]
    );
    assert_eq!(lexemes("!= <= == >="), vec!["!=", "<=", "==", ">=", ""]);
}

#[test]
fn trailing_dot_is_no_part_of_a_number() {
    let tokens = scan("123.").unwrap();
    assert_eq!(tokens.len(), 3);
    assert_eq!(*tokens[0].token_type(), number("123"));
    assert_eq!(value_of(tokens[0].token_type()), 123.0);
    assert_eq!(tokens[0].lexeme(), "123");
    assert_eq!(*tokens[1].token_type(), TokenType::DOT);
    assert_eq!(*tokens[2].token_type(), TokenType::EOF);
}

#[test]
fn unexpected_character_fails() {
    assert_eq!(scan("@"), Err(LexError::UnexpectedCharacter { char: '@', line: 1 }));
}

#[test]
fn one_character_operators() {
    assert_eq!(
        kinds("! < = >"),
        vec![
            TokenType::BANG,
            TokenType::LESS,
            TokenType::EQUAL,
            TokenType::GREATER,
            TokenType::EOF,
        ]
    );
    assert_eq!(kinds("!"), vec![TokenType::BANG, TokenType::EOF]);
    assert_eq!(
        kinds("a<b"),
        vec![TokenType::IDENTIFIER, TokenType::LESS, TokenType::IDENTIFIER, TokenType::EOF]
    );
}

#[test]
fn operators_take_the_longest_match_first() {
    assert_eq!(kinds("==="), vec![TokenType::EQUAL_EQUAL, TokenType::EQUAL, TokenType::EOF]);
    assert_eq!(kinds("!=="), vec![TokenType::BANG_EQUAL, TokenType::EQUAL, TokenType::EOF]);
    assert_eq!(kinds("<=>"), vec![TokenType::LESS_EQUAL, TokenType::GREATER, TokenType::EOF]);
    assert_eq!(kinds("=!"), vec![TokenType::EQUAL, TokenType::BANG, TokenType::EOF]);
}

#[test]
fn punctuation() {
    assert_eq!(
        kinds("(){},.-+;/*"),
        vec![
            TokenType::LEFT_PAREN,
            TokenType::RIGHT_PAREN,
            TokenType::LEFT_BRACE,
            TokenType::RIGHT_BRACE,
            TokenType::COMMA,
            TokenType::DOT,
            TokenType::MINUS,
            TokenType::PLUS,
            TokenType::SEMICOLON,
            TokenType::SLASH,
            TokenType::STAR,
            TokenType::EOF,
        ]
    );
}

#[test]
fn every_keyword_has_its_own_kind() {
    assert_eq!(
        kinds("and class else false for fun if nil or print return super this true var while"),
        vec![
            TokenType::AND,
            TokenType::CLASS,
            TokenType::ELSE,
            TokenType::FALSE,
            TokenType::FOR,
            TokenType::FUN,
            TokenType::IF,
            TokenType::NIL,
            TokenType::OR,
            TokenType::PRINT,
            TokenType::RETURN,
            TokenType::SUPER,
            TokenType::THIS,
            TokenType::TRUE,
            TokenType::VAR,
            TokenType::WHILE,
            TokenType::EOF,
        ]
    );
}

#[test]
fn keywords_match_exactly() {
    assert_eq!(kinds("And"), vec![TokenType::IDENTIFIER, TokenType::EOF]);
    assert_eq!(kinds("VAR"), vec![TokenType::IDENTIFIER, TokenType::EOF]);
    assert_eq!(kinds("classy"), vec![TokenType::IDENTIFIER, TokenType::EOF]);
    assert_eq!(kinds("clas"), vec![TokenType::IDENTIFIER, TokenType::EOF]);
    assert_eq!(kinds("or_"), vec![TokenType::IDENTIFIER, TokenType::EOF]);
    assert_eq!(kinds("if1"), vec![TokenType::IDENTIFIER, TokenType::EOF]);
}

#[test]
fn identifiers() {
    assert_eq!(lexemes("_a1 b_2 C"), vec!["_a1", "b_2", "C", ""]);
    assert_eq!(
        kinds("_a1 b_2 C"),
        vec![
            TokenType::IDENTIFIER,
            TokenType::IDENTIFIER,
            TokenType::IDENTIFIER,
            TokenType::EOF
        ]
    );
    assert_eq!(lexemes("t"), vec!["t", ""]);
    assert_eq!(kinds("t"), vec![TokenType::IDENTIFIER, TokenType::EOF]);
}

#[test]
fn an_identifier_does_not_start_with_a_digit() {
    assert_eq!(kinds("1a"), vec![number("1"), TokenType::IDENTIFIER, TokenType::EOF]);
    assert_eq!(lexemes("1a"), vec!["1", "a", ""]);
}

#[test]
fn white_space_gives_no_token() {
    assert_eq!(kinds(" \t\r\n"), vec![TokenType::EOF]);
    assert_eq!(lines(" \t\r\n"), vec![2]);
    assert_eq!(kinds("\t(\r )"), vec![TokenType::LEFT_PAREN, TokenType::RIGHT_PAREN, TokenType::EOF]);
}

#[test]
fn newlines_count_lines() {
    assert_eq!(lines("a\nb\n\nc"), vec![1, 2, 4, 4]);
    assert_eq!(lines("\n\n\n"), vec![4]);
    assert_eq!(lines("a\r\nb"), vec![1, 2, 2]);
}

#[test]
fn string_literal() {
    let tokens = scan("\"abc\"").unwrap();
    assert_eq!(tokens.len(), 2);
    assert_eq!(*tokens[0].token_type(), string("abc"));
    assert_eq!(tokens[0].lexeme(), "\"abc\"");
    assert_eq!(tokens[0].line(), 1);
}

#[test]
fn empty_string_literal() {
    assert_eq!(kinds("\"\""), vec![string(""), TokenType::EOF]);
    assert_eq!(lexemes("\"\""), vec!["\"\"", ""]);
}

#[test]
fn string_literal_holds_any_text() {
    assert_eq!(kinds("\"// no comment\""), vec![string("// no comment"), TokenType::EOF]);
    assert_eq!(kinds("\"h\u{e9}llo \u{4e16}\""), vec![string("h\u{e9}llo \u{4e16}"), TokenType::EOF]);
    assert_eq!(kinds("\"a\\\" b"), vec![string("a\\"), TokenType::IDENTIFIER, TokenType::EOF]);
}

#[test]
fn string_literal_over_several_lines() {
    let tokens = scan("\"a\nb\" x").unwrap();
    assert_eq!(tokens.len(), 3);
    assert_eq!(*tokens[0].token_type(), string("a\nb"));
    assert_eq!(tokens[0].lexeme(), "\"a\nb\"");
    assert_eq!(tokens[0].line(), 1);
    assert_eq!(*tokens[1].token_type(), TokenType::IDENTIFIER);
    assert_eq!(tokens[1].line(), 2);
    assert_eq!(tokens[2].line(), 2);
}

#[test]
fn unterminated_string_reports_the_line_where_the_text_ends() {
    assert_eq!(scan("\"a\nb\n"), Err(LexError::UnterminatedString { line: 3 }));
    assert_eq!(scan("x\n\"a\nb"), Err(LexError::UnterminatedString { line: 3 }));
    assert_eq!(scan("\""), Err(LexError::UnterminatedString { line: 1 }));
    assert_eq!(scan("\"a\" \"b"), Err(LexError::UnterminatedString { line: 1 }));
}

#[test]
fn unexpected_character_reports_its_line() {
    assert_eq!(scan("a\n\n#"), Err(LexError::UnexpectedCharacter { char: '#', line: 3 }));
    assert_eq!(scan("\u{e9}"), Err(LexError::UnexpectedCharacter { char: '\u{e9}', line: 1 }));
    assert_eq!(scan("a @ $"), Err(LexError::UnexpectedCharacter { char: '@', line: 1 }));
    assert_eq!(scan("\0"), Err(LexError::UnexpectedCharacter { char: '\0', line: 1 }));
}

#[test]
fn numbers() {
    assert_eq!(kinds("0"), vec![number("0"), TokenType::EOF]);
    assert_eq!(kinds("12.34"), vec![number("12.34"), TokenType::EOF]);
    assert_eq!(value_of(&kinds("12.34")[0]), 12.34);
    assert_eq!(value_of(&kinds("007")[0]), 7.0);
    assert_eq!(
        kinds("1.2.3"),
        vec![number("1.2"), TokenType::DOT, number("3"), TokenType::EOF]
    );
    assert_eq!(kinds(".5"), vec![TokenType::DOT, number("5"), TokenType::EOF]);
    assert_eq!(
        kinds("1.a"),
        vec![number("1"), TokenType::DOT, TokenType::IDENTIFIER, TokenType::EOF]
    );
    assert_eq!(
        kinds("1..2"),
        vec![number("1"), TokenType::DOT, TokenType::DOT, number("2"), TokenType::EOF]
    );
    assert_eq!(kinds("-1"), vec![TokenType::MINUS, number("1"), TokenType::EOF]);
}

#[test]
fn a_long_number_keeps_all_its_digits() {
    let text = "123456789012345678901234567890.000000000000000000001";
    assert_eq!(kinds(text), vec![number(text), TokenType::EOF]);
}

#[test]
fn comments() {
    assert_eq!(kinds("a // b c"), vec![TokenType::IDENTIFIER, TokenType::EOF]);
    assert_eq!(kinds("//"), vec![TokenType::EOF]);
    assert_eq!(kinds("// \"open"), vec![TokenType::EOF]);
    assert_eq!(
        kinds("a // b\nc"),
        vec![TokenType::IDENTIFIER, TokenType::IDENTIFIER, TokenType::EOF]
    );
    assert_eq!(lines("a // b\nc"), vec![1, 2, 2]);
    assert_eq!(kinds("///"), vec![TokenType::EOF]);
}

#[test]
fn slash() {
    assert_eq!(
        kinds("a / b"),
        vec![TokenType::IDENTIFIER, TokenType::SLASH, TokenType::IDENTIFIER, TokenType::EOF]
    );
    assert_eq!(kinds("/"), vec![TokenType::SLASH, TokenType::EOF]);
    assert_eq!(kinds("/ /"), vec![TokenType::SLASH, TokenType::SLASH, TokenType::EOF]);
}

#[test]
fn the_end_marker_is_last_and_only_last() {
    for source in ["", "a", "a b c", "// c", "1 + 2\n", "\"s\"", "print x;\n\n"] {
        let found = kinds(source);
        assert_eq!(found.last(), Some(&TokenType::EOF));
        assert_eq!(found.iter().filter(|k| **k == TokenType::EOF).count(), 1);
    }
}

#[test]
fn scanning_twice_gives_the_same_tokens() {
    for source in ["var x = 10.5;\n", "\"a\nb\" // c\n!= 1.5", "fun f(a, b) { return a + b; }"] {
        assert_eq!(scan(source), scan(source));
    }
    for source in ["@", "a \"b", "1 $ 2"] {
        assert_eq!(scan(source), scan(source));
    }
}

#[test]
fn lexemes_and_gaps_make_up_the_text() {
    let source = "  var x = 1.5; // set\n\tprint(\"a b\");\n";
    let gaps = [
        "  ", " ", " ", " ", "", " // set\n\t", "", "", "", "", "\n",
    ];
    let words = lexemes(source);
    assert_eq!(words.len(), gaps.len());
    let mut text = String::new();
    for i in 0..gaps.len() {
        text.push_str(gaps[i]);
        text.push_str(&words[i]);
    }
    assert_eq!(text, source);
}

#[test]
fn scan_tokens_reads_into_the_scanner() {
    let mut s = scanner::new("a + 1".to_string());
    assert_eq!(s.get_tokens(), vec![]);
    assert_eq!(s.scan_tokens(), Ok(()));
    let tokens = s.get_tokens();
    assert_eq!(tokens.len(), 4);
    assert_eq!(tokens[0], Token::new(TokenType::IDENTIFIER, "a".to_string(), 1));
    assert_eq!(tokens[1], Token::new(TokenType::PLUS, "+".to_string(), 1));
    assert_eq!(tokens[2], Token::new(number("1"), "1".to_string(), 1));
    assert_eq!(tokens[3], Token::new(TokenType::EOF, "".to_string(), 1));
    assert_eq!(s.scan_all(), Ok(tokens));
}

#[test]
fn scan_tokens_keeps_what_came_before_a_fault() {
    let mut s = scanner::new("a\nb @ c".to_string());
    assert_eq!(s.scan_tokens(), Err(LexError::UnexpectedCharacter { char: '@', line: 2 }));
    assert_eq!(
        s.get_tokens(),
        vec![
            Token::new(TokenType::IDENTIFIER, "a".to_string(), 1),
            Token::new(TokenType::IDENTIFIER, "b".to_string(), 2),
        ]
    );
}

#[test]
fn scan_tokens_appends_the_rest_of_the_text() {
    let mut s = scanner::new("a @ b".to_string());
    assert_eq!(s.scan_tokens(), Err(LexError::UnexpectedCharacter { char: '@', line: 1 }));
    assert_eq!(s.scan_tokens(), Ok(()));
    assert_eq!(
        s.get_tokens(),
        vec![
            Token::new(TokenType::IDENTIFIER, "a".to_string(), 1),
            Token::new(TokenType::IDENTIFIER, "b".to_string(), 1),
            Token::new(TokenType::EOF, "".to_string(), 1),
        ]
    );
}

#[test]
fn scan_tokens_reads_the_end_marker_once() {
    let mut s = scanner::new("a\n".to_string());
    assert_eq!(s.scan_tokens(), Ok(()));
    let tokens = s.get_tokens();
    assert_eq!(
        tokens,
        vec![
            Token::new(TokenType::IDENTIFIER, "a".to_string(), 1),
            Token::new(TokenType::EOF, "".to_string(), 2),
        ]
    );
    assert_eq!(s.scan_tokens(), Ok(()));
    assert_eq!(s.get_tokens(), tokens);
    let mut empty = scanner::new(String::new());
    assert_eq!(empty.scan_tokens(), Ok(()));
    assert_eq!(empty.scan_tokens(), Ok(()));
    assert_eq!(empty.get_tokens(), vec![Token::new(TokenType::EOF, "".to_string(), 1)]);
}

#[test]
fn scan_tokens_after_an_unterminated_string_finds_the_end() {
    let mut s = scanner::new("x \"a\nb".to_string());
    assert_eq!(s.scan_tokens(), Err(LexError::UnterminatedString { line: 2 }));
    assert_eq!(s.scan_tokens(), Ok(()));
    assert_eq!(
        s.get_tokens(),
        vec![
            Token::new(TokenType::IDENTIFIER, "x".to_string(), 1),
            Token::new(TokenType::EOF, "".to_string(), 2),
        ]
    );
}

#[test]
fn scan_all_fails_on_the_first_fault() {
    assert_eq!(scan("a @ \"b"), Err(LexError::UnexpectedCharacter { char: '@', line: 1 }));
    assert_eq!(scan("a \"b @"), Err(LexError::UnterminatedString { line: 1 }));
}

#[test]
fn a_small_program() {
    let source = "class A {\n  fun f(n) {\n    if (n <= 1) return nil;\n    while (true) print this.x / 2;\n  }\n}\n";
    let expected = vec![
        (TokenType::CLASS, "class", 1),
        (TokenType::IDENTIFIER, "A", 1),
        (TokenType::LEFT_BRACE, "{", 1),
        (TokenType::FUN, "fun", 2),
        (TokenType::IDENTIFIER, "f", 2),
        (TokenType::LEFT_PAREN, "(", 2),
        (TokenType::IDENTIFIER, "n", 2),
        (TokenType::RIGHT_PAREN, ")", 2),
        (TokenType::LEFT_BRACE, "{", 2),
        (TokenType::IF, "if", 3),
        (TokenType::LEFT_PAREN, "(", 3),
        (TokenType::IDENTIFIER, "n", 3),
        (TokenType::LESS_EQUAL, "<=", 3),
        (number("1"), "1", 3),
        (TokenType::RIGHT_PAREN, ")", 3),
        (TokenType::RETURN, "return", 3),
        (TokenType::NIL, "nil", 3),
        (TokenType::SEMICOLON, ";", 3),
        (TokenType::WHILE, "while", 4),
        (TokenType::LEFT_PAREN, "(", 4),
        (TokenType::TRUE, "true", 4),
        (TokenType::RIGHT_PAREN, ")", 4),
        (TokenType::PRINT, "print", 4),
        (TokenType::THIS, "this", 4),
        (TokenType::DOT, ".", 4),
        (TokenType::IDENTIFIER, "x", 4),
        (TokenType::SLASH, "/", 4),
        (number("2"), "2", 4),
        (TokenType::SEMICOLON, ";", 4),
        (TokenType::RIGHT_BRACE, "}", 5),
        (TokenType::RIGHT_BRACE, "}", 6),
        (TokenType::EOF, "", 7),
    ];
    let tokens = scan(source).unwrap();
    assert_eq!(tokens.len(), expected.len());
    for (token, (kind, lexeme, line)) in tokens.iter().zip(expected) {
        assert_eq!(*token, Token::new(kind, lexeme.to_string(), line));
    }
}
