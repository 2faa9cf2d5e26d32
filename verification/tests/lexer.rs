use liquid_front::errors::TemplateError;
use liquid_front::lexer::{LexedToken, Lexer, Token};

fn compare_tokens(lexer: &Lexer, expected_tokens: Vec<LexedToken>) {
    let mut tokens = lexer.tokens().unwrap();
    for expected in expected_tokens {
        let actual = tokens.next_match().unwrap().unwrap();
        assert_eq!(expected, actual);
    }
}

fn tok(kind: Token, value: &str) -> LexedToken {
    (kind, value.to_string())
}

#[test]
fn new_creates_a_new_instance() {
    let lexer = Lexer::new("doSomthing | filter");
    assert_eq!("doSomthing | filter", lexer.scanner.rest().unwrap());
}

#[test]
fn tokens_when_given_a_blank_string() {
    let lexer = Lexer::new("");
    let mut tokens = lexer.tokens().unwrap();
    assert_eq!(None, tokens.next_match().unwrap());
}

#[test]
fn tokens_when_given_a_whitespace_only_string() {
    let lexer = Lexer::new("  \t \n\r ");
    let mut tokens = lexer.tokens().unwrap();
    assert_eq!(None, tokens.next_match().unwrap());
}

#[test]
fn tokens_parses_identifiers() {
    let lexer = Lexer::new("high five?");
    let expected = vec![tok(Token::Identifier, "high"), tok(Token::Identifier, "five?")];

    compare_tokens(&lexer, expected);
}

#[test]
fn tokens_knows_that_identifiers_dont_start_with_numbers() {
    let lexer = Lexer::new("2foo 5.0bar");
    let expected = vec![
        tok(Token::Number, "2"),
        tok(Token::Identifier, "foo"),
        tok(Token::Number, "5.0"),
        tok(Token::Identifier, "bar"),
    ];

    compare_tokens(&lexer, expected);
}

#[test]
fn tokens_parses_string_literals() {
    let lexer = Lexer::new(r#" 'this is a test""' "wat 'lol'" "#);
    let expected = vec![
        tok(Token::String, r#"'this is a test""'"#),
        tok(Token::String, r#""wat 'lol'""#),
    ];

    compare_tokens(&lexer, expected);
}

#[test]
fn tokens_parses_integers() {
    let lexer = Lexer::new("hi 50");
    let expected = vec![tok(Token::Identifier, "hi"), tok(Token::Number, "50")];

    compare_tokens(&lexer, expected);
}

#[test]
fn tokens_parses_floats() {
    let lexer = Lexer::new("hi 5.0");
    let expected = vec![tok(Token::Identifier, "hi"), tok(Token::Number, "5.0")];

    compare_tokens(&lexer, expected);
}

#[test]
fn tokens_parses_comparisons() {
    let lexer = Lexer::new("== <> contains");
    let expected = vec![
        tok(Token::Comparison, "=="),
        tok(Token::Comparison, "<>"),
        tok(Token::Comparison, "contains"),
    ];

    compare_tokens(&lexer, expected);
}

#[test]
fn tokens_parses_range_operator() {
    let lexer = Lexer::new("1..10");
    let expected = vec![
        tok(Token::Number, "1"),
        tok(Token::Range, ".."),
        tok(Token::Number, "10"),
    ];

    compare_tokens(&lexer, expected);
}

#[test]
fn tokens_parses_special_characters() {
    let lexer = Lexer::new("[hi], (| .:) - ?cool");
    let expected = vec![
        tok(Token::OpenSquare, "["),
        tok(Token::Identifier, "hi"),
        tok(Token::CloseSquare, "]"),
        tok(Token::Comma, ","),
        tok(Token::OpenRound, "("),
        tok(Token::Pipe, "|"),
        tok(Token::Dot, "."),
        tok(Token::Colon, ":"),
        tok(Token::CloseRound, ")"),
        tok(Token::Dash, "-"),
        tok(Token::Question, "?"),
        tok(Token::Identifier, "cool"),
    ];

    compare_tokens(&lexer, expected);
}

#[test]
fn tokens_skips_internal_whitespace() {
    let lexer = Lexer::new("five|\n\t ==");
    let expected = vec![
        tok(Token::Identifier, "five"),
        tok(Token::Pipe, "|"),
        tok(Token::Comparison, "=="),
    ];

    compare_tokens(&lexer, expected);
}

#[test]
fn tokens_freaks_out_with_syntax_error() {
    let lexer = Lexer::new("%");
    let mut tokens = lexer.tokens().unwrap();
    assert_eq!(
        Err(TemplateError::Lexical { ch: '%', at: 0 }),
        tokens.next_match()
    );
}

#[test]
fn tokens_start_from_the_scanner_position() {
    let mut lexer = Lexer::new("abc def");
    lexer.scanner.skip(4);
    let mut tokens = lexer.tokens().unwrap();
    assert_eq!(
        Some(tok(Token::Identifier, "def")),
        tokens.next_match().unwrap()
    );
}

#[test]
fn lexical_error_carries_the_offset() {
    let lexer = Lexer::new("hi %");
    let mut tokens = lexer.tokens().unwrap();
    assert_eq!(Some(tok(Token::Identifier, "hi")), tokens.next_match().unwrap());
    assert_eq!(
        Err(TemplateError::Lexical { ch: '%', at: 3 }),
        tokens.next_match()
    );
}
