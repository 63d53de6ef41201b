use calculator::ast::{get_function_token, Expr, Func, Precedence, Token};

#[test]
fn test_token() {
    let num = Token::Num("32".to_string());
    assert_eq!(Token::Num("32".to_string()), num);
    assert_eq!(32.0, "32".parse::<f64>().unwrap());
}

#[test]
fn test_expr() {
    let addition = Expr::Add(
        Box::new(Expr::Num("32".to_string())),
        Box::new(Expr::Num("16".to_string())),
    );
    assert_eq!(
        Expr::Add(
            Box::new(Expr::Num("32".to_string())),
            Box::new(Expr::Num("16".to_string()))
        ),
        addition
    );
}

#[test]
fn ast_test_token() {
    let num = Token::Num("32".to_string());
    assert_eq!(Token::Num("32".to_string()), num);
}

#[test]
fn ast_test_expr() {
    let addition = Expr::Add(
        Box::new(Expr::Num("32".to_string())),
        Box::new(Expr::Num("16".to_string())),
    );
    assert_eq!(
        Expr::Add(
            Box::new(Expr::Num("32".to_string())),
            Box::new(Expr::Num("16".to_string()))
        ),
        addition
    );
}

#[test]
fn precedences_of_tokens() {
    assert_eq!(Precedence::Sum, Token::Add.get_precedence());
    assert_eq!(Precedence::Sum, Token::Sub.get_precedence());
    assert_eq!(Precedence::Product, Token::Mul.get_precedence());
    assert_eq!(Precedence::Product, Token::Div.get_precedence());
    assert_eq!(Precedence::Power, Token::Pow.get_precedence());
    assert_eq!(Precedence::Function, Token::Func(Func::Sin).get_precedence());
    assert_eq!(Precedence::Assign, Token::Equals.get_precedence());
    assert_eq!(Precedence::Lowest, Token::LParen.get_precedence());
    assert_eq!(Precedence::Lowest, Token::Eof.get_precedence());
}

#[test]
fn reserved_function_names() {
    assert_eq!(Some(Token::Func(Func::Abs)), get_function_token("abs"));
    assert_eq!(Some(Token::Func(Func::Floor)), get_function_token("floor"));
    assert_eq!(Some(Token::Func(Func::Log)), get_function_token("log"));
    assert_eq!(Some(Token::Func(Func::Ln)), get_function_token("ln"));
    assert_eq!(Some(Token::Func(Func::Sin)), get_function_token("sin"));
    assert_eq!(Some(Token::Func(Func::Cos)), get_function_token("cos"));
    assert_eq!(Some(Token::Func(Func::Tan)), get_function_token("tan"));
    assert_eq!(Some(Token::Func(Func::Arcsin)), get_function_token("arcsin"));
    assert_eq!(Some(Token::Func(Func::Arccos)), get_function_token("arccos"));
    assert_eq!(Some(Token::Func(Func::Arctan)), get_function_token("arctan"));
    assert_eq!(None, get_function_token("sine"));
    assert_eq!(None, get_function_token("Sin"));
    assert_eq!(None, get_function_token(""));
}

#[test]
fn token_descriptions() {
    assert_eq!("Num(32)", Token::Num("32".to_string()).describe().as_str());
    assert_eq!("Add", Token::Add.describe().as_str());
    assert_eq!("=", Token::Equals.describe().as_str());
    assert_eq!("Sin", Token::Func(Func::Sin).describe().as_str());
    assert_eq!("lol", Token::Ident("lol".to_string()).describe().as_str());
    assert_eq!("Eof", Token::Eof.describe().as_str());
}
