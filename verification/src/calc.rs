//! The calculator facade: owns one environment and one calculation log,
//! balances parentheses, sequences tokenize, parse and evaluate, and records
//! each successful calculation.
//!
//! A calculation runs in two halves. [`Calculator::calculate`] balances and
//! parses the text and starts an [`Evaluation`] on a copy of the
//! environment; the caller drives the machine, computing each primitive
//! operation; [`Calculator::commit`] then adopts the finished machine's
//! environment and appends the log entry. A failed calculation is simply
//! never committed, so the environment and the log are left exactly as they
//! were.

use vstd::prelude::*;

use crate::ast::{token_text, Precedence};
use crate::env::Environment;
use crate::eval::{eval, EvalError, Evaluation};
use crate::lexer::lex_full;
use crate::parser::{p_expr, p_init_fails, ParseError, ParseErrV, Parser};
use vstd::string::StrSliceExecFns;
use vstd::string::StringExecFns;

verus! {

/// The bits of the IEEE-754 double closest to the circle constant, seeded as
/// the constant `pi`.
pub const PI_BITS: u64 = 0x400921FB54442D18;

/// The bits of the IEEE-754 double closest to Euler's number, seeded as the
/// constant `e`.
pub const E_BITS: u64 = 0x4005BF0A8B145769;

/// A log of prior calculations: the balanced text of each, and the bits of
/// its value.
pub type Calculations = Vec<(String, u64)>;

/// How many times `c` occurs in `s`.
pub open spec fn count_char(s: Seq<char>, c: char) -> nat
    decreases s.len(),
{
    if s.len() == 0 {
        0
    } else {
        count_char(s.drop_last(), c) + if s.last() == c {
            1nat
        } else {
            0nat
        }
    }
}

/// A character occurs no more often than the text is long.
pub proof fn lemma_count_le(s: Seq<char>, c: char)
    ensures
        count_char(s, c) <= s.len(),
    decreases s.len(),
{
    if s.len() > 0 {
        lemma_count_le(s.drop_last(), c);
    }
}

/// The paren-balanced form of a text: unmatched opening parentheses are
/// closed at the end; surplus closing parentheses have that many trailing
/// characters cut off.
pub open spec fn balanced_text(s: Seq<char>) -> Seq<char> {
    let opens = count_char(s, '(') as int;
    let closes = count_char(s, ')') as int;
    if opens == closes {
        s
    } else if opens > closes {
        s + Seq::new((opens - closes) as nat, |i: int| ')')
    } else {
        s.take(s.len() - (closes - opens))
    }
}

/// The log as a mathematical sequence of (text, value bits) pairs.
pub open spec fn log_view(calcs: Seq<(String, u64)>) -> Seq<(Seq<char>, u64)> {
    calcs.map_values(|p: (String, u64)| (p.0@, p.1))
}

/// The class of a calculation failure, kept machine-readable beside the
/// message: text that cannot be tokenized, text that cannot be parsed, or a
/// variable that is not bound.
#[derive(Debug, PartialEq, Eq, Structural, Copy, Clone)]
pub enum CalcErrorKind {
    Lexical,
    Parse,
    UnknownVariable,
}

/// Defines a calculator error: the failure's class, and a human-readable
/// message describing it.
#[derive(Debug)]
pub struct CalculatorError {
    kind: CalcErrorKind,
    message: String,
}

/// The message a parse failure carries.
pub open spec fn parse_err_text(e: ParseErrV) -> Seq<char> {
    match e {
        ParseErrV::ExpectErr(want, got) => "Expected "@ + token_text(want) + ", got "@
            + token_text(got),
        ParseErrV::UnknownAtom(t) => "Unknown atom: "@ + token_text(t),
        ParseErrV::InvalidInput(t) => "parse_infix_op: Expected infix_op, got "@ + token_text(t),
        ParseErrV::TokenStreamExhausted => "Invalid character entered."@,
    }
}

/// The class a parse failure belongs to.
pub open spec fn parse_err_kind(e: ParseErrV) -> CalcErrorKind {
    match e {
        ParseErrV::TokenStreamExhausted => CalcErrorKind::Lexical,
        _ => CalcErrorKind::Parse,
    }
}

impl CalculatorError {
    /// The failure's class.
    pub closed spec fn kind_spec(&self) -> CalcErrorKind {
        self.kind
    }

    /// The message's text.
    pub closed spec fn msg(&self) -> Seq<char> {
        self.message@
    }

    /// The failure's class.
    pub fn kind(&self) -> (r: CalcErrorKind)
        ensures
            r == self.kind_spec(),
    {
        self.kind
    }

    /// The human-readable message.
    pub fn message(&self) -> (r: String)
        ensures
            r@ == self.msg(),
    {
        self.message.clone()
    }

    /// Collapses a parse failure into a calculator error.
    pub fn from_parse(e: ParseError) -> (r: CalculatorError)
        ensures
            r.kind_spec() == parse_err_kind(e@),
            r.msg() == parse_err_text(e@),
    {
        match e {
            ParseError::ExpectErr(want, got) => {
                let mut m = String::from_str("Expected ");
                let w = want.describe();
                m.append(w.as_str());
                m.append(", got ");
                let g = got.describe();
                m.append(g.as_str());
                CalculatorError { kind: CalcErrorKind::Parse, message: m }
            },
            ParseError::UnknownAtom(t) => {
                let mut m = String::from_str("Unknown atom: ");
                let d = t.describe();
                m.append(d.as_str());
                CalculatorError { kind: CalcErrorKind::Parse, message: m }
            },
            ParseError::InvalidInput(t) => {
                let mut m = String::from_str("parse_infix_op: Expected infix_op, got ");
                let d = t.describe();
                m.append(d.as_str());
                CalculatorError { kind: CalcErrorKind::Parse, message: m }
            },
            ParseError::TokenStreamExhausted => CalculatorError {
                kind: CalcErrorKind::Lexical,
                message: String::from_str("Invalid character entered."),
            },
        }
    }

    /// Collapses an evaluation failure into a calculator error.
    pub fn from_eval(e: EvalError) -> (r: CalculatorError)
        ensures
            r.kind_spec() == CalcErrorKind::UnknownVariable,
            e matches EvalError::UnknownVar(x) ==> r.msg() == "Unknown variable: "@ + x@,
    {
        match e {
            EvalError::UnknownVar(x) => {
                let mut m = String::from_str("Unknown variable: ");
                m.append(x.as_str());
                CalculatorError { kind: CalcErrorKind::UnknownVariable, message: m }
            },
        }
    }
}

/// The body of a calculation request, as a web front end submits it.
pub struct Calculation {
    pub calc: String,
}

/// A calculator that maintains the log of all prior calculations as well as
/// the currently defined constants and variables.
pub struct Calculator {
    env: Environment,
    calcs: Calculations,
}

impl Calculator {
    /// Well-formedness of the session state.
    pub closed spec fn wf(&self) -> bool {
        self.env.wf()
    }

    /// The environment: what every name is bound to.
    pub closed spec fn env_map(&self) -> Map<Seq<char>, u64> {
        self.env@
    }

    /// The log of calculations made, oldest first.
    pub closed spec fn log(&self) -> Seq<(Seq<char>, u64)> {
        log_view(self.calcs@)
    }

    /// Returns a `Calculator` with a given environment and prior log of
    /// calculations.
    pub fn from(env: Environment, calcs: Calculations) -> (r: Self)
        requires
            env.wf(),
        ensures
            r.wf(),
            r.env_map() == env@,
            r.log() == log_view(calcs@),
    {
        Calculator { env, calcs }
    }

    /// Returns a `Calculator` with an empty log and an environment holding
    /// the constants `pi` and `e`.
    pub fn new() -> (r: Self)
        ensures
            r.wf(),
            r.env_map() == Map::<Seq<char>, u64>::empty().insert("pi"@, PI_BITS).insert(
                "e"@,
                E_BITS,
            ),
            r.log() == Seq::<(Seq<char>, u64)>::empty(),
    {
        let mut env = Environment::new();
        env.insert(String::from_str("pi"), PI_BITS);
        env.insert(String::from_str("e"), E_BITS);
        let r = Calculator { env, calcs: Vec::new() };
        proof {
            assert(r.log() =~= Seq::<(Seq<char>, u64)>::empty());
        }
        r
    }

    /// Balances the parentheses of a text: appends the missing `)` or cuts
    /// the trailing surplus.
    fn balance_parens(s: &str) -> (r: String)
        ensures
            r@ == balanced_text(s@),
    {
        let n = s.unicode_len();
        let mut opens: usize = 0;
        let mut closes: usize = 0;
        let mut i: usize = 0;
        while i < n
            invariant
                n == s@.len(),
                i <= n,
                opens == count_char(s@.subrange(0, i as int), '('),
                closes == count_char(s@.subrange(0, i as int), ')'),
                opens <= i,
                closes <= i,
            decreases n - i,
        {
            let c = s.get_char(i);
            proof {
                assert(s@.subrange(0, i + 1).drop_last() =~= s@.subrange(0, i as int));
                assert(s@.subrange(0, i + 1).last() == s@[i as int]);
            }
            if c == '(' {
                opens = opens + 1;
            } else if c == ')' {
                closes = closes + 1;
            }
            i = i + 1;
        }
        proof {
            assert(s@.subrange(0, n as int) =~= s@);
        }
        if opens == closes {
            String::from_str(s)
        } else if opens > closes {
            let k = opens - closes;
            let mut out = String::from_str(s);
            let mut j: usize = 0;
            while j < k
                invariant
                    j <= k,
                    out@ =~= s@ + Seq::new(j as nat, |m: int| ')'),
                decreases k - j,
            {
                out.append(")");
                proof {
                    reveal_strlit(")");
                    assert(out@ =~= s@ + Seq::new((j + 1) as nat, |m: int| ')'));
                }
                j = j + 1;
            }
            proof {
                assert(out@ =~= balanced_text(s@));
            }
            out
        } else {
            let k = closes - opens;
            proof {
                lemma_count_le(s@, ')');
            }
            let cut = s.substring_char(0, n - k);
            proof {
                assert(cut@ =~= balanced_text(s@));
            }
            String::from_str(cut)
        }
    }

    /// Returns the log of calculations: each balanced input text with the
    /// bits of its value, oldest first.
    pub fn get_log(&self) -> (r: Calculations)
        ensures
            log_view(r@) == self.log(),
    {
        let n = self.calcs.len();
        let mut out: Calculations = Vec::new();
        let mut i: usize = 0;
        while i < n
            invariant
                n == self.calcs@.len(),
                i <= n,
                out@ =~= self.calcs@.subrange(0, i as int),
            decreases n - i,
        {
            let text = self.calcs[i].0.clone();
            out.push((text, self.calcs[i].1));
            assert(out@ =~= self.calcs@.subrange(0, i + 1 as int));
            i = i + 1;
        }
        proof {
            assert(out@ =~= self.calcs@);
        }
        out
    }

    /// Takes a text that represents a mathematical expression, balances its
    /// parentheses, and parses it: the result is a pending [`Evaluation`] of
    /// the parsed tree against a copy of the session environment, or the
    /// lexical or parse failure, collapsed. Nothing of the session changes
    /// until [`Calculator::commit`].
    pub fn calculate(&self, input: &str) -> (r: Result<Evaluation, CalculatorError>)
        requires
            self.wf(),
        ensures
            ({
                let toks = lex_full(balanced_text(input@));
                match r {
                    Ok(ev) => {
                        &&& !p_init_fails(toks)
                        &&& p_expr(toks, 0, Precedence::Lowest) matches Ok(p) && ev.expr0() == p.e
                        &&& ev.inv()
                        &&& !ev.waiting()
                        &&& !ev.failed()
                        &&& ev.history() == Seq::<(crate::eval::ReqV, u64)>::empty()
                        &&& ev.env_start() == self.env_map()
                        &&& ev.cur_env() == self.env_map()
                        &&& ev.input_text() == balanced_text(input@)
                    },
                    Err(ce) => {
                        &&& if p_init_fails(toks) {
                            ce.kind_spec() == CalcErrorKind::Lexical && ce.msg() == parse_err_text(
                                ParseErrV::TokenStreamExhausted,
                            )
                        } else {
                            p_expr(toks, 0, Precedence::Lowest) matches Err(pe)
                                && ce.kind_spec() == parse_err_kind(pe) && ce.msg()
                                == parse_err_text(pe)
                        }
                    },
                }
            }),
    {
        let balanced = Self::balance_parens(input);
        let ghost toks = lex_full(balanced@);
        let mut parser = match Parser::new(balanced.as_str()) {
            Ok(p) => p,
            Err(e) => {
                return Err(CalculatorError::from_parse(e));
            },
        };
        let ast = match parser.parse() {
            Ok(a) => a,
            Err(e) => {
                return Err(CalculatorError::from_parse(e));
            },
        };
        let mut machine = eval(ast, self.env.duplicate());
        machine.set_text(balanced);
        Ok(machine)
    }

    /// Adopts a finished evaluation: the session environment becomes the
    /// machine's (with every assignment applied), the balanced text and the
    /// value's bits are appended to the log, and the bits are returned.
    pub fn commit(&mut self, ev: Evaluation) -> (r: u64)
        requires
            old(self).wf(),
            ev.inv(),
            ev.finished(),
        ensures
            final(self).wf(),
            r == ev.value(),
            final(self).env_map() == ev.cur_env(),
            final(self).log() == old(self).log().push((ev.input_text(), ev.value())),
    {
        let ghost pre = self.calcs@;
        let (v, env, text) = ev.into_parts();
        self.env = env;
        self.calcs.push((text, v));
        proof {
            assert(log_view(self.calcs@) =~= log_view(pre).push((ev.input_text(), ev.value())));
        }
        v
    }
}

} // verus!
