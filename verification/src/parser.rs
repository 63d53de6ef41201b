//! The parser: precedence-climbing recursive descent over the token stream,
//! producing an expression tree.
//!
//! The executable parser pulls tokens lazily with a two-token window
//! (current and one lookahead). Its meaning is the specification parser
//! below, which reads the same stream by index.

use vstd::prelude::*;

use crate::ast::{expr_view, prec_rank, prec_lt, token_prec, Expr, ExprV, Func, Precedence, Token,
    TokenV};
use crate::lexer::{is_terminal, lex_full, lemma_lex_rec_wf, lemma_pull, pos_n, stream_wf, tok_at,
    Lexer};

verus! {

/// Defines the various errors that can occur during parsing. Each carries the
/// tokens involved; `TokenStreamExhausted` says the tokenizer could not
/// produce the next token the parser asked for.
#[derive(Debug, PartialEq)]
pub enum ParseError {
    ExpectErr(Token, Token),
    UnknownAtom(Token),
    InvalidInput(Token),
    TokenStreamExhausted,
}

/// The model of a parse error.
pub ghost enum ParseErrV {
    ExpectErr(TokenV, TokenV),
    UnknownAtom(TokenV),
    InvalidInput(TokenV),
    TokenStreamExhausted,
}

impl View for ParseError {
    type V = ParseErrV;

    open spec fn view(&self) -> ParseErrV {
        match self {
            ParseError::ExpectErr(want, got) => ParseErrV::ExpectErr(want@, got@),
            ParseError::UnknownAtom(t) => ParseErrV::UnknownAtom(t@),
            ParseError::InvalidInput(t) => ParseErrV::InvalidInput(t@),
            ParseError::TokenStreamExhausted => ParseErrV::TokenStreamExhausted,
        }
    }
}

/// A successful parse: the tree, and the stream index it stopped at.
pub ghost struct ParseOk {
    pub e: ExprV,
    pub n: nat,
}

/// Advancing the reader from state `n` pulls the token at index `n + 2`;
/// if the stream is unlexable there, the parser stops.
pub open spec fn p_adv(toks: Seq<TokenV>, n: nat) -> Result<nat, ParseErrV> {
    if tok_at(toks, n + 2) is Bad {
        Err(ParseErrV::TokenStreamExhausted)
    } else {
        Ok(n + 1)
    }
}

/// How much of the stream is left before the terminal token.
pub open spec fn m_of(toks: Seq<TokenV>, n: nat) -> nat {
    if n + 1 <= toks.len() {
        (toks.len() - 1 - n) as nat
    } else {
        0
    }
}

/// Wraps an operand in the tree node of the given unary function.
pub open spec fn fexpr(f: Func, e: ExprV) -> ExprV {
    match f {
        Func::Abs => ExprV::Abs(Box::new(e)),
        Func::Floor => ExprV::Floor(Box::new(e)),
        Func::Log => ExprV::Log(Box::new(e)),
        Func::Ln => ExprV::Ln(Box::new(e)),
        Func::Sin => ExprV::Sin(Box::new(e)),
        Func::Cos => ExprV::Cos(Box::new(e)),
        Func::Tan => ExprV::Tan(Box::new(e)),
        Func::Arcsin => ExprV::Arcsin(Box::new(e)),
        Func::Arccos => ExprV::Arccos(Box::new(e)),
        Func::Arctan => ExprV::Arctan(Box::new(e)),
    }
}

/// The infix operator tokens.
pub open spec fn is_binop(t: TokenV) -> bool {
    t is Add || t is Sub || t is Mul || t is Div || t is Pow
}

/// The tree node an infix operator token builds.
pub open spec fn mk_bin(op: TokenV, l: ExprV, r: ExprV) -> ExprV {
    match op {
        TokenV::Add => ExprV::Add(Box::new(l), Box::new(r)),
        TokenV::Sub => ExprV::Sub(Box::new(l), Box::new(r)),
        TokenV::Mul => ExprV::Mul(Box::new(l), Box::new(r)),
        TokenV::Div => ExprV::Div(Box::new(l), Box::new(r)),
        TokenV::Pow => ExprV::Pow(Box::new(l), Box::new(r)),
        _ => l,
    }
}

/// Parses one atom at state `n`: a number (with implicit multiplication when
/// a parenthesis, function, or identifier follows), a function application, an
/// identifier (assignment or implicit multiplication when the lookahead says
/// so), a negation, or a parenthesized expression.
pub open spec fn p_atom(toks: Seq<TokenV>, n: nat) -> Result<ParseOk, ParseErrV>
    decreases m_of(toks, n), 0nat,
    when stream_wf(toks)
{
    match tok_at(toks, n) {
        TokenV::Sub => match p_adv(toks, n) {
            Err(e) => Err(e),
            Ok(n1) => match p_expr(toks, n1, Precedence::Prefix) {
                Err(e) => Err(e),
                Ok(p) => Ok(ParseOk { e: ExprV::Neg(Box::new(p.e)), n: p.n }),
            },
        },
        TokenV::Num(lit) => match p_adv(toks, n) {
            Err(e) => Err(e),
            Ok(n1) => match tok_at(toks, n1) {
                TokenV::LParen | TokenV::Func(_) | TokenV::Ident(_) => match p_expr(
                    toks,
                    n1,
                    Precedence::Product,
                ) {
                    Err(e) => Err(e),
                    Ok(p) => Ok(
                        ParseOk {
                            e: ExprV::Mul(Box::new(ExprV::Num(lit)), Box::new(p.e)),
                            n: p.n,
                        },
                    ),
                },
                _ => Ok(ParseOk { e: ExprV::Num(lit), n: n1 }),
            },
        },
        TokenV::Func(f) => match p_adv(toks, n) {
            Err(e) => Err(e),
            Ok(n1) => match p_expr(toks, n1, Precedence::Function) {
                Err(e) => Err(e),
                Ok(p) => Ok(ParseOk { e: fexpr(f, p.e), n: p.n }),
            },
        },
        TokenV::Ident(name) => match p_adv(toks, n) {
            Err(e) => Err(e),
            Ok(n1) => match tok_at(toks, n1) {
                TokenV::Equals => match p_adv(toks, n1) {
                    Err(e) => Err(e),
                    Ok(n2) => match p_expr(toks, n2, Precedence::Assign) {
                        Err(e) => Err(e),
                        Ok(p) => Ok(
                            ParseOk { e: ExprV::Assign(name, Box::new(p.e)), n: p.n },
                        ),
                    },
                },
                TokenV::LParen | TokenV::Num(_) | TokenV::Func(_) => match p_expr(
                    toks,
                    n1,
                    Precedence::Product,
                ) {
                    Err(e) => Err(e),
                    Ok(p) => Ok(
                        ParseOk {
                            e: ExprV::Mul(Box::new(ExprV::Ident(name)), Box::new(p.e)),
                            n: p.n,
                        },
                    ),
                },
                _ => Ok(ParseOk { e: ExprV::Ident(name), n: n1 }),
            },
        },
        TokenV::LParen => match p_adv(toks, n) {
            Err(e) => Err(e),
            Ok(n1) => match p_expr(toks, n1, Precedence::Lowest) {
                Err(e) => Err(e),
                Ok(p) => if tok_at(toks, p.n) is RParen {
                    match p_adv(toks, p.n) {
                        Err(e) => Err(e),
                        Ok(n2) => if n < n2 {
                            if tok_at(toks, n2) is LParen {
                                match p_expr(toks, n2, Precedence::Product) {
                                    Err(e) => Err(e),
                                    Ok(q) => Ok(
                                        ParseOk {
                                            e: ExprV::Mul(Box::new(p.e), Box::new(q.e)),
                                            n: q.n,
                                        },
                                    ),
                                }
                            } else {
                                Ok(ParseOk { e: p.e, n: n2 })
                            }
                        } else {
                            Err(ParseErrV::TokenStreamExhausted)
                        },
                    }
                } else {
                    Err(ParseErrV::ExpectErr(TokenV::RParen, tok_at(toks, p.n)))
                },
            },
        },
        t => Err(ParseErrV::UnknownAtom(t)),
    }
}

/// Folds one infix operator into `left`, parsing the right operand at the
/// operator's own level.
pub open spec fn p_infix(toks: Seq<TokenV>, n: nat, left: ExprV) -> Result<ParseOk, ParseErrV>
    decreases m_of(toks, n), 0nat,
    when stream_wf(toks)
{
    let cur = tok_at(toks, n);
    if is_binop(cur) {
        match p_adv(toks, n) {
            Err(e) => Err(e),
            Ok(n1) => match p_expr(toks, n1, token_prec(cur)) {
                Err(e) => Err(e),
                Ok(p) => Ok(ParseOk { e: mk_bin(cur, left, p.e), n: p.n }),
            },
        }
    } else {
        Err(ParseErrV::InvalidInput(cur))
    }
}

/// The climbing loop: while the current token binds more tightly than the
/// threshold, fold it as an infix operator into the left side.
pub open spec fn p_loop(toks: Seq<TokenV>, n: nat, left: ExprV, min: Precedence) -> Result<
    ParseOk,
    ParseErrV,
>
    decreases m_of(toks, n), 1nat,
    when stream_wf(toks)
{
    let cur = tok_at(toks, n);
    if !(cur is Eof) && prec_rank(min) < prec_rank(token_prec(cur)) {
        match p_infix(toks, n, left) {
            Err(e) => Err(e),
            Ok(p) => if n < p.n {
                p_loop(toks, p.n, p.e, min)
            } else {
                Err(ParseErrV::TokenStreamExhausted)
            },
        }
    } else {
        Ok(ParseOk { e: left, n })
    }
}

/// Parses one expression at state `n`: an atom, then the climbing loop at the
/// given threshold.
pub open spec fn p_expr(toks: Seq<TokenV>, n: nat, min: Precedence) -> Result<ParseOk, ParseErrV>
    decreases m_of(toks, n), 2nat,
    when stream_wf(toks)
{
    match p_atom(toks, n) {
        Err(e) => Err(e),
        Ok(p) => if n < p.n {
            p_loop(toks, p.n, p.e, min)
        } else {
            Err(ParseErrV::TokenStreamExhausted)
        },
    }
}

/// A whole parse of a token stream, from its start, at the lowest threshold.
pub open spec fn p_parse(toks: Seq<TokenV>) -> Result<ParseOk, ParseErrV> {
    p_expr(toks, 0, Precedence::Lowest)
}

/// Constructing a parser fails exactly when one of the first two tokens of
/// the stream is unlexable.
pub open spec fn p_init_fails(toks: Seq<TokenV>) -> bool {
    tok_at(toks, 0) is Bad || tok_at(toks, 1) is Bad
}

/// At a non-terminal token the stream has strictly more left: advancing
/// shrinks the measure.
proof fn lemma_nonterminal_m(toks: Seq<TokenV>, n: nat)
    requires
        stream_wf(toks),
        !is_terminal(tok_at(toks, n)),
    ensures
        n + 1 < toks.len(),
        m_of(toks, n) >= 1,
        forall|k: nat| n < k ==> #[trigger] m_of(toks, k) < m_of(toks, n),
{
    if n + 1 >= toks.len() {
        assert(tok_at(toks, n) == toks.last());
    }
}

/// An independent copy of a token.
fn token_dup(t: &Token) -> (r: Token)
    ensures
        r == *t,
{
    match t {
        Token::Num(s) => Token::Num(s.clone()),
        Token::Add => Token::Add,
        Token::Sub => Token::Sub,
        Token::Mul => Token::Mul,
        Token::Div => Token::Div,
        Token::Pow => Token::Pow,
        Token::RParen => Token::RParen,
        Token::LParen => Token::LParen,
        Token::Equals => Token::Equals,
        Token::Func(f) => Token::Func(*f),
        Token::Ident(s) => Token::Ident(s.clone()),
        Token::Eof => Token::Eof,
    }
}

/// Token equality on the models.
fn token_eq(a: &Token, b: &Token) -> (r: bool)
    ensures
        r == (a@ == b@),
{
    match (a, b) {
        (Token::Num(x), Token::Num(y)) => crate::ast::str_eq(x.as_str(), y.as_str()),
        (Token::Ident(x), Token::Ident(y)) => crate::ast::str_eq(x.as_str(), y.as_str()),
        (Token::Func(f), Token::Func(g)) => f == g,
        (Token::Add, Token::Add) => true,
        (Token::Sub, Token::Sub) => true,
        (Token::Mul, Token::Mul) => true,
        (Token::Div, Token::Div) => true,
        (Token::Pow, Token::Pow) => true,
        (Token::RParen, Token::RParen) => true,
        (Token::LParen, Token::LParen) => true,
        (Token::Equals, Token::Equals) => true,
        (Token::Eof, Token::Eof) => true,
        _ => false,
    }
}

/// An object that takes a source text and parses it into a tree of `Expr`.
/// It reads the token stream through a two-token window: the current token
/// and one of lookahead.
pub struct Parser<'a> {
    lexer: Lexer<'a>,
    current: Token,
    peek: Token,
    toks: Ghost<Seq<TokenV>>,
    n: Ghost<nat>,
}

impl<'a> Parser<'a> {
    /// The token stream being parsed.
    pub closed spec fn toks(&self) -> Seq<TokenV> {
        self.toks@
    }

    /// The reader state: how many tokens have been consumed.
    pub closed spec fn at(&self) -> nat {
        self.n@
    }

    /// Well-formedness: the window holds the stream's tokens at the reader
    /// state, and the tokenizer stands right after the lookahead.
    pub closed spec fn wf(&self) -> bool {
        &&& self.lexer.wf()
        &&& self.toks@ == lex_full(self.lexer.text())
        &&& stream_wf(self.toks@)
        &&& self.current@ == tok_at(self.toks@, self.n@)
        &&& self.peek@ == tok_at(self.toks@, self.n@ + 1)
        &&& !(self.current@ is Bad)
        &&& !(self.peek@ is Bad)
        &&& self.lexer.at() == pos_n(self.lexer.text(), 0, self.n@ + 2)
    }

    /// Takes a source text and returns a `Parser` over it, or a `ParseError`
    /// when the text does not begin with two lexable tokens.
    pub fn new(source: &'a str) -> (r: Result<Self, ParseError>)
        ensures
            match r {
                Ok(p) => p.wf() && p.toks() == lex_full(source@) && p.at() == 0 && !p_init_fails(
                    lex_full(source@),
                ),
                Err(e) => p_init_fails(lex_full(source@)) && e@
                    == ParseErrV::TokenStreamExhausted,
            },
    {
        let ghost s = source@;
        let mut lexer = Lexer::new(source);
        proof {
            lemma_lex_rec_wf(s, 0);
            lemma_pull(s, 0, 0);
        }
        let current = match lexer.next_token() {
            Ok(t) => t,
            Err(_) => {
                return Err(ParseError::TokenStreamExhausted);
            },
        };
        proof {
            lemma_pull(s, 0, 1);
        }
        let peek = match lexer.next_token() {
            Ok(t) => t,
            Err(_) => {
                return Err(ParseError::TokenStreamExhausted);
            },
        };
        Ok(Parser { lexer, current, peek, toks: Ghost(lex_full(s)), n: Ghost(0) })
    }

    /// Steps the window one token forward and hands back the token that was
    /// current. On a tokenizer error nothing changes.
    fn bump(&mut self) -> (r: Result<Token, ParseError>)
        requires
            old(self).wf(),
        ensures
            final(self).wf(),
            final(self).toks() == old(self).toks(),
            match p_adv(old(self).toks(), old(self).at()) {
                Ok(n1) => r matches Ok(t) && t@ == tok_at(old(self).toks(), old(self).at())
                    && final(self).at() == n1,
                Err(ev) => r matches Err(e) && e@ == ev && *final(self) == *old(self),
            },
    {
        let ghost s = self.lexer.text();
        let ghost n = self.n@;
        proof {
            lemma_pull(s, 0, n + 2);
        }
        match self.lexer.next_token() {
            Err(_) => Err(ParseError::TokenStreamExhausted),
            Ok(t) => {
                let mut out = t;
                core::mem::swap(&mut self.peek, &mut out);
                core::mem::swap(&mut self.current, &mut out);
                proof {
                    self.n@ = n + 1;
                }
                Ok(out)
            },
        }
    }

    /// Consumes the current token if it is the expected one, else reports
    /// what was expected and what stood there.
    fn expect(&mut self, expected: Token) -> (r: Result<(), ParseError>)
        requires
            old(self).wf(),
        ensures
            final(self).wf(),
            final(self).toks() == old(self).toks(),
            ({
                let cur = tok_at(old(self).toks(), old(self).at());
                if cur == expected@ {
                    match p_adv(old(self).toks(), old(self).at()) {
                        Ok(n1) => r is Ok && final(self).at() == n1,
                        Err(ev) => r matches Err(e) && e@ == ev,
                    }
                } else {
                    &&& r matches Err(e) && e@ == ParseErrV::ExpectErr(expected@, cur)
                    &&& final(self).at() == old(self).at()
                }
            }),
    {
        if token_eq(&expected, &self.current) {
            match self.bump() {
                Ok(_) => Ok(()),
                Err(e) => Err(e),
            }
        } else {
            Err(ParseError::ExpectErr(expected, token_dup(&self.current)))
        }
    }

    /// Parses a single atom of an expression. This can be just a number or an
    /// entire sub-expression.
    #[verifier::rlimit(100)]
    fn parse_atom(&mut self) -> (r: Result<Expr, ParseError>)
        requires
            old(self).wf(),
        ensures
            final(self).wf(),
            final(self).toks() == old(self).toks(),
            match p_atom(old(self).toks(), old(self).at()) {
                Ok(p) => r matches Ok(e) && e@ == p.e && final(self).at() == p.n,
                Err(ev) => r matches Err(pe) && pe@ == ev,
            },
            r is Ok ==> old(self).at() < final(self).at(),
        decreases m_of(self.toks(), self.at()), 0nat,
    {
        proof {
            reveal_with_fuel(expr_view, 4);
        }
        match &self.current {
            Token::Sub => {
                proof {
                    lemma_nonterminal_m(self.toks@, self.n@);
                }
                match self.bump() {
                    Ok(_) => (),
                    Err(e) => {
                        return Err(e);
                    },
                }
                let operand = match self.parse_expr(Precedence::Prefix) {
                    Ok(e) => e,
                    Err(e) => {
                        return Err(e);
                    },
                };
                Ok(Expr::Neg(Box::new(operand)))
            },
            Token::Num(_) => {
                proof {
                    lemma_nonterminal_m(self.toks@, self.n@);
                }
                let t = match self.bump() {
                    Ok(t) => t,
                    Err(e) => {
                        return Err(e);
                    },
                };
                let lit = match t {
                    Token::Num(s) => s,
                    _ => vstd::pervasive::unreached(),
                };
                match &self.current {
                    Token::LParen | Token::Func(_) | Token::Ident(_) => {
                        let right = match self.parse_expr(Precedence::Product) {
                            Ok(e) => e,
                            Err(e) => {
                                return Err(e);
                            },
                        };
                        Ok(Expr::Mul(Box::new(Expr::Num(lit)), Box::new(right)))
                    },
                    _ => Ok(Expr::Num(lit)),
                }
            },
            Token::Func(_) => {
                proof {
                    lemma_nonterminal_m(self.toks@, self.n@);
                }
                let t = match self.bump() {
                    Ok(t) => t,
                    Err(e) => {
                        return Err(e);
                    },
                };
                let f = match t {
                    Token::Func(f) => f,
                    _ => vstd::pervasive::unreached(),
                };
                let operand = match self.parse_expr(Precedence::Function) {
                    Ok(e) => e,
                    Err(e) => {
                        return Err(e);
                    },
                };
                Ok(Self::function_expr(f, operand))
            },
            Token::Ident(_) => {
                proof {
                    lemma_nonterminal_m(self.toks@, self.n@);
                }
                let t = match self.bump() {
                    Ok(t) => t,
                    Err(e) => {
                        return Err(e);
                    },
                };
                let name = match t {
                    Token::Ident(s) => s,
                    _ => vstd::pervasive::unreached(),
                };
                match &self.current {
                    Token::Equals => {
                        proof {
                            lemma_nonterminal_m(self.toks@, self.n@);
                        }
                        match self.bump() {
                            Ok(_) => (),
                            Err(e) => {
                                return Err(e);
                            },
                        }
                        let value = match self.parse_expr(Precedence::Assign) {
                            Ok(e) => e,
                            Err(e) => {
                                return Err(e);
                            },
                        };
                        Ok(Expr::Assign(name, Box::new(value)))
                    },
                    Token::LParen | Token::Num(_) | Token::Func(_) => {
                        let right = match self.parse_expr(Precedence::Product) {
                            Ok(e) => e,
                            Err(e) => {
                                return Err(e);
                            },
                        };
                        Ok(Expr::Mul(Box::new(Expr::Ident(name)), Box::new(right)))
                    },
                    _ => Ok(Expr::Ident(name)),
                }
            },
            Token::LParen => {
                proof {
                    lemma_nonterminal_m(self.toks@, self.n@);
                }
                match self.bump() {
                    Ok(_) => (),
                    Err(e) => {
                        return Err(e);
                    },
                }
                let inner = match self.parse_expr(Precedence::Lowest) {
                    Ok(e) => e,
                    Err(e) => {
                        return Err(e);
                    },
                };
                match self.expect(Token::RParen) {
                    Ok(_) => (),
                    Err(e) => {
                        return Err(e);
                    },
                }
                if matches!(&self.current, Token::LParen) {
                    let right = match self.parse_expr(Precedence::Product) {
                        Ok(e) => e,
                        Err(e) => {
                            return Err(e);
                        },
                    };
                    Ok(Expr::Mul(Box::new(inner), Box::new(right)))
                } else {
                    Ok(inner)
                }
            },
            _ => Err(ParseError::UnknownAtom(token_dup(&self.current))),
        }
    }

    /// Parses an expression with an infix operator: consumes the operator and
    /// parses the right operand at the operator's own level.
    fn parse_infix_op(&mut self, left: Expr) -> (r: Result<Expr, ParseError>)
        requires
            old(self).wf(),
        ensures
            final(self).wf(),
            final(self).toks() == old(self).toks(),
            match p_infix(old(self).toks(), old(self).at(), left@) {
                Ok(p) => r matches Ok(e) && e@ == p.e && final(self).at() == p.n,
                Err(ev) => r matches Err(pe) && pe@ == ev,
            },
            r is Ok ==> old(self).at() < final(self).at(),
        decreases m_of(self.toks(), self.at()), 0nat,
    {
        let op_prec = match &self.current {
            Token::Add | Token::Sub => Precedence::Sum,
            Token::Mul | Token::Div => Precedence::Product,
            Token::Pow => Precedence::Power,
            _ => {
                return Err(ParseError::InvalidInput(token_dup(&self.current)));
            },
        };
        proof {
            lemma_nonterminal_m(self.toks@, self.n@);
        }
        let op = match self.bump() {
            Ok(t) => t,
            Err(e) => {
                return Err(e);
            },
        };
        let right = match self.parse_expr(op_prec) {
            Ok(e) => e,
            Err(e) => {
                return Err(e);
            },
        };
        match op {
            Token::Add => Ok(Expr::Add(Box::new(left), Box::new(right))),
            Token::Sub => Ok(Expr::Sub(Box::new(left), Box::new(right))),
            Token::Mul => Ok(Expr::Mul(Box::new(left), Box::new(right))),
            Token::Div => Ok(Expr::Div(Box::new(left), Box::new(right))),
            Token::Pow => Ok(Expr::Pow(Box::new(left), Box::new(right))),
            _ => vstd::pervasive::unreached(),
        }
    }

    /// Parses one expression: an atom, then the climbing loop while the
    /// current token binds more tightly than `min`.
    fn parse_expr(&mut self, min: Precedence) -> (r: Result<Expr, ParseError>)
        requires
            old(self).wf(),
        ensures
            final(self).wf(),
            final(self).toks() == old(self).toks(),
            match p_expr(old(self).toks(), old(self).at(), min) {
                Ok(p) => r matches Ok(e) && e@ == p.e && final(self).at() == p.n,
                Err(ev) => r matches Err(pe) && pe@ == ev,
            },
            r is Ok ==> old(self).at() < final(self).at(),
        decreases m_of(self.toks(), self.at()), 1nat,
    {
        let ghost toks = self.toks@;
        let ghost n0 = self.n@;
        let mut left = match self.parse_atom() {
            Ok(e) => e,
            Err(e) => {
                return Err(e);
            },
        };
        while !matches!(&self.current, Token::Eof) && prec_lt(min, self.current.get_precedence())
            invariant
                self.wf(),
                self.toks@ == toks,
                toks == old(self).toks(),
                n0 == old(self).at(),
                n0 < self.n@,
                p_loop(toks, self.n@, left@, min) == p_expr(toks, n0, min),
            decreases m_of(toks, self.n@), 1nat,
        {
            proof {
                lemma_nonterminal_m(toks, self.n@);
            }
            left = match self.parse_infix_op(left) {
                Ok(e) => e,
                Err(e) => {
                    return Err(e);
                },
            };
        }
        Ok(left)
    }

    /// Returns a single `Expr` that represents the tree of the entire
    /// computation, or the error met while parsing.
    pub fn parse(&mut self) -> (r: Result<Expr, ParseError>)
        requires
            old(self).wf(),
        ensures
            final(self).wf(),
            final(self).toks() == old(self).toks(),
            match p_expr(old(self).toks(), old(self).at(), Precedence::Lowest) {
                Ok(p) => r matches Ok(e) && e@ == p.e && final(self).at() == p.n,
                Err(ev) => r matches Err(pe) && pe@ == ev,
            },
    {
        match self.parse_expr(Precedence::Lowest) {
            Ok(e) => Ok(e),
            Err(e) => Err(e),
        }
    }

    /// Takes a function kind and an operand and returns the matching unary
    /// tree node.
    fn function_expr(f: Func, e: Expr) -> (r: Expr)
        ensures
            r@ == fexpr(f, e@),
    {
        match f {
            Func::Abs => Expr::Abs(Box::new(e)),
            Func::Floor => Expr::Floor(Box::new(e)),
            Func::Log => Expr::Log(Box::new(e)),
            Func::Ln => Expr::Ln(Box::new(e)),
            Func::Sin => Expr::Sin(Box::new(e)),
            Func::Cos => Expr::Cos(Box::new(e)),
            Func::Tan => Expr::Tan(Box::new(e)),
            Func::Arcsin => Expr::Arcsin(Box::new(e)),
            Func::Arccos => Expr::Arccos(Box::new(e)),
            Func::Arctan => Expr::Arctan(Box::new(e)),
        }
    }
}

} // verus!
