use calculator::ast::Token;
use calculator::lexer::{LexError, Lexer};

#[test]
fn test_num_token() {
    let mut lexer = Lexer::new("345671");
    assert_eq!(Token::Num("345671".to_string()), lexer.next_token().unwrap());
    assert_eq!(345671.0, "345671".parse::<f64>().unwrap());
}

#[test]
fn test_mult_num_tokens() {
    let mut lexer = Lexer::new("7560 2371 2903");
    assert_eq!(Token::Num("7560".to_string()), lexer.next_token().unwrap());
    assert_eq!(Token::Num("2371".to_string()), lexer.next_token().unwrap());
    assert_eq!(Token::Num("2903".to_string()), lexer.next_token().unwrap());
}

#[test]
fn test_add() {
    let mut lexer = Lexer::new("+");
    assert_eq!(Token::Add, lexer.next_token().unwrap());
}

#[test]
fn test_sub() {
    let mut lexer = Lexer::new("-");
    assert_eq!(Token::Sub, lexer.next_token().unwrap());
}

#[test]
fn test_mul() {
    let mut lexer = Lexer::new("*");
    assert_eq!(Token::Mul, lexer.next_token().unwrap());
}

#[test]
fn test_div() {
    let mut lexer = Lexer::new("/");
    assert_eq!(Token::Div, lexer.next_token().unwrap());
}

#[test]
fn test_parens() {
    let mut lexer = Lexer::new("()");
    assert_eq!(Token::LParen, lexer.next_token().unwrap());
    assert_eq!(Token::RParen, lexer.next_token().unwrap());
}

#[test]
fn test_ident() {
    let mut lexer = Lexer::new("lol");
    assert_eq!(Token::Ident("lol".to_string()), lexer.next_token().unwrap());
}

#[test]
fn lexes_decimal_literal() {
    let mut lexer = Lexer::new("1.25");
    assert_eq!(Token::Num("1.25".to_string()), lexer.next_token().unwrap());
}

#[test]
fn lexes_function_and_identifier() {
    let mut lexer = Lexer::new("sin sinus");
    assert_eq!(
        Token::Func(calculator::ast::Func::Sin),
        lexer.next_token().unwrap()
    );
    assert_eq!(Token::Ident("sinus".to_string()), lexer.next_token().unwrap());
}

#[test]
fn skips_whitespace_kinds() {
    let mut lexer = Lexer::new(" \t\n7");
    assert_eq!(Token::Num("7".to_string()), lexer.next_token().unwrap());
}

#[test]
fn eof_is_absorbing() {
    let mut lexer = Lexer::new("1");
    assert_eq!(Token::Num("1".to_string()), lexer.next_token().unwrap());
    assert_eq!(Token::Eof, lexer.next_token().unwrap());
    assert_eq!(Token::Eof, lexer.next_token().unwrap());
}

#[test]
fn invalid_char_is_reported_and_repeats() {
    let mut lexer = Lexer::new("1 $ 2");
    assert_eq!(Token::Num("1".to_string()), lexer.next_token().unwrap());
    assert_eq!(
        Err(LexError::InvalidChar("$".to_string())),
        lexer.next_token()
    );
    assert_eq!(
        Err(LexError::InvalidChar("$".to_string())),
        lexer.next_token()
    );
}

#[test]
fn two_decimal_points_are_rejected() {
    let mut lexer = Lexer::new("1.2.3");
    assert_eq!(
        Err(LexError::InvalidChar("1.2.3".to_string())),
        lexer.next_token()
    );
}

#[test]
fn set_source_restarts() {
    let mut lexer = Lexer::new("1");
    assert_eq!(Token::Num("1".to_string()), lexer.next_token().unwrap());
    lexer.set_source("2");
    assert_eq!(Token::Num("2".to_string()), lexer.next_token().unwrap());
}

#[test]
fn equals_and_caret_lex() {
    let mut lexer = Lexer::new("=^");
    assert_eq!(Token::Equals, lexer.next_token().unwrap());
    assert_eq!(Token::Pow, lexer.next_token().unwrap());
}
