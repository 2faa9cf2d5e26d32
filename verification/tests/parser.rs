use liquid_front::errors::TemplateError;
use liquid_front::lexer::Token;
use liquid_front::parser::Parser;

#[test]
fn jump_moves_the_current_index() {
    let mut parser = Parser::new("wat: 7").unwrap();
    parser.jump(2).unwrap();

    assert!(parser.is_current(Token::Number));
}

#[test]
fn jump_can_move_backwards() {
    let mut parser = Parser::new("wat: 7").unwrap();
    parser.jump(2).unwrap();
    parser.jump(-1).unwrap();

    assert!(parser.is_current(Token::Colon));
}

#[test]
fn jump_panics_when_index_goes_below_zero() {
    let mut parser = Parser::new("wat: 7").unwrap();
    assert_eq!(Err(TemplateError::CursorUnderflow), parser.jump(-1));
}

#[test]
fn jump_back_after_forward_restores_the_index() {
    let mut parser = Parser::new("wat: 7").unwrap();
    assert!(parser.is_current(Token::Identifier));
    parser.jump(2).unwrap();
    parser.jump(-1).unwrap();
    parser.jump(-1).unwrap();
    assert!(parser.is_current(Token::Identifier));
}

#[test]
fn consume_things() {
    let mut parser = Parser::new("wat: 7").unwrap();
    assert_eq!("wat", parser.consume(Token::Identifier).unwrap());
    assert_eq!(":", parser.consume(Token::Colon).unwrap());
    assert_eq!("7", parser.consume(Token::Number).unwrap());
}

#[test]
fn consume_returns_none_when_token_doesnt_match() {
    let mut parser = Parser::new("wat: 7").unwrap();
    assert_eq!(None, parser.consume(Token::Number));
    assert_eq!(None, parser.consume(Token::Colon));
    assert!(parser.consume(Token::Identifier).is_some());
}

#[test]
fn is_current_checks_token_type() {
    let mut parser = Parser::new("wat 6 Peter Hegemon").unwrap();

    assert!(parser.is_current(Token::Identifier));
    parser.consume(Token::Identifier);

    assert_eq!(false, parser.is_current(Token::Comparison));
    assert!(parser.is_current(Token::Number));
    assert!(parser.is_current_offset(Token::Identifier, 1));
    assert_eq!(false, parser.is_current_offset(Token::Number, 1));
}

#[test]
fn is_current_offset_returns_false_when_offset_is_not_valid() {
    let mut parser = Parser::new("wat 6 Peter Hegemon").unwrap();
    parser.jump(1).unwrap();

    assert!(parser.is_current_offset(Token::Number, 0));
    assert!(parser.is_current_offset(Token::Identifier, -1));
    assert_eq!(false, parser.is_current_offset(Token::Identifier, -2));
}

#[test]
fn expression_parsing_identifiers_strings_and_numbers() {
    let mut parser = Parser::new("hi.there hi?[5].there? hi.there.bob").unwrap();
    assert_eq!("hi.there", parser.expression().unwrap().unwrap());
    assert_eq!("hi?[5].there?", parser.expression().unwrap().unwrap());
    assert_eq!("hi.there.bob", parser.expression().unwrap().unwrap());

    let mut parser = Parser::new("567 6.0 'lol' \"wut\"").unwrap();
    assert_eq!("567", parser.expression().unwrap().unwrap());
    assert_eq!("6.0", parser.expression().unwrap().unwrap());
    assert_eq!("'lol'", parser.expression().unwrap().unwrap());
    assert_eq!("\"wut\"", parser.expression().unwrap().unwrap());
}

#[test]
fn expression_parsing_ranges() {
    let mut parser = Parser::new("(5..7) (1.5..9.6) (young..old) (hi[5].wat..old)").unwrap();
    assert_eq!("(5..7)", parser.expression().unwrap().unwrap());
    assert_eq!("(1.5..9.6)", parser.expression().unwrap().unwrap());
    assert_eq!("(young..old)", parser.expression().unwrap().unwrap());
    assert_eq!("(hi[5].wat..old)", parser.expression().unwrap().unwrap());
}

#[test]
fn expression_past_the_last_token_is_none() {
    let mut parser = Parser::new("5").unwrap();
    assert_eq!(Some("5".to_string()), parser.expression().unwrap());
    assert_eq!(Ok(None), parser.expression());

    let mut empty = Parser::new("").unwrap();
    assert_eq!(Ok(None), empty.expression());
}

#[test]
fn expression_rejects_a_token_that_cannot_start_one() {
    let mut parser = Parser::new("| hi").unwrap();
    assert_eq!(Err(TemplateError::Syntax { at: 0 }), parser.expression());
}

#[test]
fn expression_reports_a_missing_closing_bracket() {
    let mut parser = Parser::new("hi[5").unwrap();
    assert!(matches!(
        parser.expression(),
        Err(TemplateError::Syntax { .. })
    ));
}

#[test]
fn expression_rejects_a_too_deeply_nested_path() {
    let mut source = String::new();
    for _ in 0..70 {
        source.push_str("a[");
    }
    source.push('1');
    for _ in 0..70 {
        source.push(']');
    }
    let mut parser = Parser::new(&source).unwrap();
    assert_eq!(Err(TemplateError::NestingTooDeep), parser.expression());
}

#[test]
fn new_reports_the_first_lexical_fault() {
    match Parser::new("wat %") {
        Err(e) => assert_eq!(TemplateError::Lexical { ch: '%', at: 4 }, e),
        Ok(_) => panic!("a lexical fault was expected"),
    }
}
