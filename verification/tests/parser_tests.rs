use calculator::ast::{Expr, Token};
use calculator::parser::{ParseError, Parser};

fn num(s: &str) -> Box<Expr> {
    Box::new(Expr::Num(s.to_string()))
}

#[test]
fn basic_add() {
    let mut parser = Parser::new("1+1").unwrap();
    let expected_expr = Expr::Add(num("1"), num("1"));
    assert_eq!(parser.parse().unwrap(), expected_expr);
}

#[test]
fn basic_sub() {
    let mut parser = Parser::new("1-1").unwrap();
    let expected_expr = Expr::Sub(num("1"), num("1"));
    assert_eq!(parser.parse().unwrap(), expected_expr);
}

#[test]
fn basic_mul() {
    let mut parser = Parser::new("1*1").unwrap();
    let expected_expr = Expr::Mul(num("1"), num("1"));
    assert_eq!(parser.parse().unwrap(), expected_expr);
}

#[test]
fn basic_div() {
    let mut parser = Parser::new("1/1").unwrap();
    let expected_expr = Expr::Div(num("1"), num("1"));
    assert_eq!(parser.parse().unwrap(), expected_expr);
}

#[test]
fn basic_paren() {
    let mut parser = Parser::new("1*(1+1)").unwrap();
    let expected_expr = Expr::Mul(num("1"), Box::new(Expr::Add(num("1"), num("1"))));
    assert_eq!(parser.parse().unwrap(), expected_expr);
}

#[test]
fn basic_func() {
    let mut parser = Parser::new("sin(1 + 1)").unwrap();
    let expected_expr = Expr::Sin(Box::new(Expr::Add(num("1"), num("1"))));
    assert_eq!(parser.parse().unwrap(), expected_expr);
}

#[test]
fn func_multiplication() {
    let mut parser = Parser::new("5sin(1 + 1)").unwrap();
    let expected_expr = Expr::Mul(
        num("5"),
        Box::new(Expr::Sin(Box::new(Expr::Add(num("1"), num("1"))))),
    );
    assert_eq!(parser.parse().unwrap(), expected_expr);
}

#[test]
fn constant() {
    let mut parser = Parser::new("pi").unwrap();
    let expected_expr = Expr::Ident("pi".to_string());
    assert_eq!(parser.parse().unwrap(), expected_expr);
}

#[test]
fn assignment() {
    let mut parser = Parser::new("a = 5").unwrap();
    let expected_expr = Expr::Assign("a".to_string(), num("5"));
    assert_eq!(parser.parse().unwrap(), expected_expr);
}

#[test]
fn ord_of_ops() {
    let mut parser = Parser::new("1/(1+1)*1+2").unwrap();
    let expected_expr = Expr::Add(
        Box::new(Expr::Mul(
            Box::new(Expr::Div(num("1"), Box::new(Expr::Add(num("1"), num("1"))))),
            num("1"),
        )),
        num("2"),
    );
    assert_eq!(parser.parse().unwrap(), expected_expr);
}

#[test]
fn assignment_takes_the_whole_sum() {
    let mut parser = Parser::new("x = 1 + 2").unwrap();
    let expected_expr = Expr::Assign(
        "x".to_string(),
        Box::new(Expr::Add(num("1"), num("2"))),
    );
    assert_eq!(parser.parse().unwrap(), expected_expr);
}

#[test]
fn power_binds_tighter_than_product() {
    let mut parser = Parser::new("3*2^2").unwrap();
    let expected_expr = Expr::Mul(num("3"), Box::new(Expr::Pow(num("2"), num("2"))));
    assert_eq!(parser.parse().unwrap(), expected_expr);
}

#[test]
fn product_binds_tighter_than_sum() {
    let mut parser = Parser::new("1+2*3").unwrap();
    let expected_expr = Expr::Add(num("1"), Box::new(Expr::Mul(num("2"), num("3"))));
    assert_eq!(parser.parse().unwrap(), expected_expr);
}

#[test]
fn negation_parses_as_prefix() {
    let mut parser = Parser::new("-2^2").unwrap();
    let expected_expr = Expr::Pow(Box::new(Expr::Neg(num("2"))), num("2"));
    assert_eq!(parser.parse().unwrap(), expected_expr);
}

#[test]
fn paren_juxtaposition_multiplies() {
    let mut parser = Parser::new("(3+4)(2+1)").unwrap();
    let expected_expr = Expr::Mul(
        Box::new(Expr::Add(num("3"), num("4"))),
        Box::new(Expr::Add(num("2"), num("1"))),
    );
    assert_eq!(parser.parse().unwrap(), expected_expr);
}

#[test]
fn identifier_juxtaposition_multiplies() {
    let mut parser = Parser::new("2pi").unwrap();
    let expected_expr = Expr::Mul(num("2"), Box::new(Expr::Ident("pi".to_string())));
    assert_eq!(parser.parse().unwrap(), expected_expr);
}

#[test]
fn missing_close_paren_is_expect_error() {
    let mut parser = Parser::new("(1+2").unwrap();
    assert_eq!(
        Err(ParseError::ExpectErr(Token::RParen, Token::Eof)),
        parser.parse()
    );
}

#[test]
fn number_left_of_equals_is_invalid_input() {
    let mut parser = Parser::new("5 = 3").unwrap();
    assert_eq!(
        Err(ParseError::InvalidInput(Token::Equals)),
        parser.parse()
    );
}

#[test]
fn invalid_character_exhausts_the_stream() {
    assert!(matches!(
        Parser::new("$"),
        Err(ParseError::TokenStreamExhausted)
    ));
    let mut parser = Parser::new("1+1$").unwrap();
    assert_eq!(Err(ParseError::TokenStreamExhausted), parser.parse());
}

#[test]
fn empty_input_is_unknown_atom() {
    let mut parser = Parser::new("").unwrap();
    assert_eq!(Err(ParseError::UnknownAtom(Token::Eof)), parser.parse());
}
