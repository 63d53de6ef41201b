//! The shared vocabulary of the engine: lexical tokens, precedence levels,
//! and the abstract syntax tree of expressions.
//!
//! A numeric literal is carried as its text (digits with at most one decimal
//! point); the bits of the IEEE-754 double it denotes are produced by the
//! caller of the evaluation machine, never inside the engine.

use vstd::prelude::*;

use vstd::string::StrSliceExecFns;
use vstd::string::StringExecFns;

verus! {

/// The unary functions the calculator supports, a closed enumeration.
#[derive(Debug, PartialEq, Eq, Structural, Copy, Clone)]
pub enum Func {
    Abs,
    Floor,
    Log,
    Ln,
    Sin,
    Cos,
    Tan,
    Arcsin,
    Arccos,
    Arctan,
}

/// The precedence levels, in declaration order.
///
/// Binding strength is given by [`prec_rank`], not by declaration order:
/// assignment binds loosest of all operators (just above `Lowest`, the floor
/// passed to a fresh parse), so that `x = 1 + 2` parses as an assignment of
/// the whole sum.
#[derive(Debug, PartialEq, Eq, Structural, Copy, Clone)]
pub enum Precedence {
    Lowest,
    Sum,
    Product,
    Power,
    Function,
    Prefix,
    Assign,
}

/// Binding strength of a precedence level. A parse at threshold `min` folds
/// an infix operator only while `prec_rank(min) < prec_rank(op level)`.
pub open spec fn prec_rank(p: Precedence) -> nat {
    match p {
        Precedence::Lowest => 0,
        Precedence::Assign => 1,
        Precedence::Sum => 2,
        Precedence::Product => 3,
        Precedence::Power => 4,
        Precedence::Function => 5,
        Precedence::Prefix => 6,
    }
}

/// Executable binding strength, the exact mirror of [`prec_rank`].
pub fn rank_of(p: Precedence) -> (r: u8)
    ensures
        r as nat == prec_rank(p),
{
    match p {
        Precedence::Lowest => 0,
        Precedence::Assign => 1,
        Precedence::Sum => 2,
        Precedence::Product => 3,
        Precedence::Power => 4,
        Precedence::Function => 5,
        Precedence::Prefix => 6,
    }
}

/// True when `a` binds strictly less tightly than `b`.
pub fn prec_lt(a: Precedence, b: Precedence) -> (r: bool)
    ensures
        r == (prec_rank(a) < prec_rank(b)),
{
    rank_of(a) < rank_of(b)
}

/// A lexical token. `Num` carries the literal text exactly as written.
#[derive(Debug, PartialEq)]
pub enum Token {
    Num(String),
    Add,
    Sub,
    Mul,
    Div,
    Pow,
    RParen,
    LParen,
    Equals,
    Func(Func),
    Ident(String),
    Eof,
}

/// The mathematical model of a token. `Bad` marks the place where the
/// tokenizer met text it cannot lex (an invalid character, or a numeric
/// literal with more than one decimal point); it carries the offending text.
pub ghost enum TokenV {
    Num(Seq<char>),
    Add,
    Sub,
    Mul,
    Div,
    Pow,
    RParen,
    LParen,
    Equals,
    Func(Func),
    Ident(Seq<char>),
    Eof,
    Bad(Seq<char>),
}

impl View for Token {
    type V = TokenV;

    open spec fn view(&self) -> TokenV {
        match self {
            Token::Num(s) => TokenV::Num(s@),
            Token::Add => TokenV::Add,
            Token::Sub => TokenV::Sub,
            Token::Mul => TokenV::Mul,
            Token::Div => TokenV::Div,
            Token::Pow => TokenV::Pow,
            Token::RParen => TokenV::RParen,
            Token::LParen => TokenV::LParen,
            Token::Equals => TokenV::Equals,
            Token::Func(f) => TokenV::Func(*f),
            Token::Ident(s) => TokenV::Ident(s@),
            Token::Eof => TokenV::Eof,
        }
    }
}

/// The precedence level a token claims when it stands as an infix operator.
pub open spec fn token_prec(t: TokenV) -> Precedence {
    match t {
        TokenV::Add | TokenV::Sub => Precedence::Sum,
        TokenV::Mul | TokenV::Div => Precedence::Product,
        TokenV::Pow => Precedence::Power,
        TokenV::Func(_) => Precedence::Function,
        TokenV::Equals => Precedence::Assign,
        _ => Precedence::Lowest,
    }
}

impl Token {
    /// Returns the precedence of this token.
    pub fn get_precedence(&self) -> (p: Precedence)
        ensures
            p == token_prec(self@),
    {
        match self {
            Token::Add | Token::Sub => Precedence::Sum,
            Token::Mul | Token::Div => Precedence::Product,
            Token::Pow => Precedence::Power,
            Token::Func(_) => Precedence::Function,
            Token::Equals => Precedence::Assign,
            _ => Precedence::Lowest,
        }
    }
}

/// The reserved function name mapping: exactly the ten lowercase names.
pub open spec fn func_of_name(n: Seq<char>) -> Option<Func> {
    if n == "abs"@ {
        Some(Func::Abs)
    } else if n == "floor"@ {
        Some(Func::Floor)
    } else if n == "log"@ {
        Some(Func::Log)
    } else if n == "ln"@ {
        Some(Func::Ln)
    } else if n == "sin"@ {
        Some(Func::Sin)
    } else if n == "cos"@ {
        Some(Func::Cos)
    } else if n == "tan"@ {
        Some(Func::Tan)
    } else if n == "arcsin"@ {
        Some(Func::Arcsin)
    } else if n == "arccos"@ {
        Some(Func::Arccos)
    } else if n == "arctan"@ {
        Some(Func::Arctan)
    } else {
        None
    }
}

/// Compares two string slices character by character.
pub fn str_eq(a: &str, b: &str) -> (r: bool)
    ensures
        r == (a@ == b@),
{
    let alen = a.unicode_len();
    let blen = b.unicode_len();
    if alen != blen {
        assert(a@ != b@) by {
            assert(a@.len() != b@.len());
        }
        return false;
    }
    let mut i: usize = 0;
    while i < alen
        invariant
            alen == a@.len(),
            blen == b@.len(),
            alen == blen,
            i <= alen,
            forall|j: int| 0 <= j < i ==> a@[j] == b@[j],
        decreases alen - i,
    {
        if a.get_char(i) != b.get_char(i) {
            return false;
        }
        i = i + 1;
    }
    assert(a@ =~= b@);
    true
}

/// Takes a string slice and returns the corresponding function token, if the
/// text is one of the reserved function names. Otherwise returns `None`.
pub fn get_function_token(s: &str) -> (r: Option<Token>)
    ensures
        r matches Some(t) ==> func_of_name(s@) matches Some(f) && t == Token::Func(f),
        r is None ==> func_of_name(s@) is None,
{
    if str_eq(s, "abs") {
        Some(Token::Func(Func::Abs))
    } else if str_eq(s, "floor") {
        Some(Token::Func(Func::Floor))
    } else if str_eq(s, "log") {
        Some(Token::Func(Func::Log))
    } else if str_eq(s, "ln") {
        Some(Token::Func(Func::Ln))
    } else if str_eq(s, "sin") {
        Some(Token::Func(Func::Sin))
    } else if str_eq(s, "cos") {
        Some(Token::Func(Func::Cos))
    } else if str_eq(s, "tan") {
        Some(Token::Func(Func::Tan))
    } else if str_eq(s, "arcsin") {
        Some(Token::Func(Func::Arcsin))
    } else if str_eq(s, "arccos") {
        Some(Token::Func(Func::Arccos))
    } else if str_eq(s, "arctan") {
        Some(Token::Func(Func::Arctan))
    } else {
        None
    }
}

/// An expression tree. Leaves are numeric literals (their text) and
/// identifiers; every non-leaf node exclusively owns its children.
#[derive(Debug, PartialEq)]
pub enum Expr {
    Num(String),
    Add(Box<Expr>, Box<Expr>),
    Sub(Box<Expr>, Box<Expr>),
    Mul(Box<Expr>, Box<Expr>),
    Div(Box<Expr>, Box<Expr>),
    Pow(Box<Expr>, Box<Expr>),
    Neg(Box<Expr>),
    Abs(Box<Expr>),
    Floor(Box<Expr>),
    Log(Box<Expr>),
    Ln(Box<Expr>),
    Sin(Box<Expr>),
    Cos(Box<Expr>),
    Tan(Box<Expr>),
    Arcsin(Box<Expr>),
    Arccos(Box<Expr>),
    Arctan(Box<Expr>),
    Ident(String),
    Assign(String, Box<Expr>),
}

/// The mathematical model of an expression tree.
pub ghost enum ExprV {
    Num(Seq<char>),
    Add(Box<ExprV>, Box<ExprV>),
    Sub(Box<ExprV>, Box<ExprV>),
    Mul(Box<ExprV>, Box<ExprV>),
    Div(Box<ExprV>, Box<ExprV>),
    Pow(Box<ExprV>, Box<ExprV>),
    Neg(Box<ExprV>),
    Abs(Box<ExprV>),
    Floor(Box<ExprV>),
    Log(Box<ExprV>),
    Ln(Box<ExprV>),
    Sin(Box<ExprV>),
    Cos(Box<ExprV>),
    Tan(Box<ExprV>),
    Arcsin(Box<ExprV>),
    Arccos(Box<ExprV>),
    Arctan(Box<ExprV>),
    Ident(Seq<char>),
    Assign(Seq<char>, Box<ExprV>),
}

/// The model of an expression: the same tree with strings abstracted to
/// character sequences.
pub open spec fn expr_view(e: Expr) -> ExprV
    decreases e,
{
    match e {
        Expr::Num(s) => ExprV::Num(s@),
        Expr::Add(l, r) => ExprV::Add(Box::new(expr_view(*l)), Box::new(expr_view(*r))),
        Expr::Sub(l, r) => ExprV::Sub(Box::new(expr_view(*l)), Box::new(expr_view(*r))),
        Expr::Mul(l, r) => ExprV::Mul(Box::new(expr_view(*l)), Box::new(expr_view(*r))),
        Expr::Div(l, r) => ExprV::Div(Box::new(expr_view(*l)), Box::new(expr_view(*r))),
        Expr::Pow(l, r) => ExprV::Pow(Box::new(expr_view(*l)), Box::new(expr_view(*r))),
        Expr::Neg(a) => ExprV::Neg(Box::new(expr_view(*a))),
        Expr::Abs(a) => ExprV::Abs(Box::new(expr_view(*a))),
        Expr::Floor(a) => ExprV::Floor(Box::new(expr_view(*a))),
        Expr::Log(a) => ExprV::Log(Box::new(expr_view(*a))),
        Expr::Ln(a) => ExprV::Ln(Box::new(expr_view(*a))),
        Expr::Sin(a) => ExprV::Sin(Box::new(expr_view(*a))),
        Expr::Cos(a) => ExprV::Cos(Box::new(expr_view(*a))),
        Expr::Tan(a) => ExprV::Tan(Box::new(expr_view(*a))),
        Expr::Arcsin(a) => ExprV::Arcsin(Box::new(expr_view(*a))),
        Expr::Arccos(a) => ExprV::Arccos(Box::new(expr_view(*a))),
        Expr::Arctan(a) => ExprV::Arctan(Box::new(expr_view(*a))),
        Expr::Ident(s) => ExprV::Ident(s@),
        Expr::Assign(s, v) => ExprV::Assign(s@, Box::new(expr_view(*v))),
    }
}

impl View for Expr {
    type V = ExprV;

    open spec fn view(&self) -> ExprV {
        expr_view(*self)
    }
}

/// The printed form of a token, as used in error messages.
pub open spec fn token_text(t: TokenV) -> Seq<char> {
    match t {
        TokenV::Num(lit) => "Num("@ + lit + ")"@,
        TokenV::Add => "Add"@,
        TokenV::Sub => "Sub"@,
        TokenV::Mul => "Mul"@,
        TokenV::Div => "Div"@,
        TokenV::Pow => "Pow"@,
        TokenV::LParen => "("@,
        TokenV::RParen => ")"@,
        TokenV::Equals => "="@,
        TokenV::Func(f) => func_text(f),
        TokenV::Ident(s) => s,
        TokenV::Eof => "Eof"@,
        TokenV::Bad(cs) => cs,
    }
}

/// The printed form of a function kind.
pub open spec fn func_text(f: Func) -> Seq<char> {
    match f {
        Func::Abs => "Abs"@,
        Func::Floor => "Floor"@,
        Func::Log => "Log"@,
        Func::Ln => "Ln"@,
        Func::Sin => "Sin"@,
        Func::Cos => "Cos"@,
        Func::Tan => "Tan"@,
        Func::Arcsin => "Arcsin"@,
        Func::Arccos => "Arccos"@,
        Func::Arctan => "Arctan"@,
    }
}

impl Token {
    /// Renders the token for an error message.
    pub fn describe(&self) -> (r: String)
        ensures
            r@ == token_text(self@),
    {
        match self {
            Token::Num(lit) => {
                let mut s = String::from_str("Num(");
                s.append(lit.as_str());
                s.append(")");
                s
            },
            Token::Add => String::from_str("Add"),
            Token::Sub => String::from_str("Sub"),
            Token::Mul => String::from_str("Mul"),
            Token::Div => String::from_str("Div"),
            Token::Pow => String::from_str("Pow"),
            Token::LParen => String::from_str("("),
            Token::RParen => String::from_str(")"),
            Token::Equals => String::from_str("="),
            Token::Func(f) => match f {
                Func::Abs => String::from_str("Abs"),
                Func::Floor => String::from_str("Floor"),
                Func::Log => String::from_str("Log"),
                Func::Ln => String::from_str("Ln"),
                Func::Sin => String::from_str("Sin"),
                Func::Cos => String::from_str("Cos"),
                Func::Tan => String::from_str("Tan"),
                Func::Arcsin => String::from_str("Arcsin"),
                Func::Arccos => String::from_str("Arccos"),
                Func::Arctan => String::from_str("Arctan"),
            },
            Token::Ident(s) => s.clone(),
            Token::Eof => String::from_str("Eof"),
        }
    }
}

} // verus!
