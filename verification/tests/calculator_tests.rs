use calculator::ast::Func;
use calculator::calc::{CalcErrorKind, Calculator, CalculatorError};
use calculator::env::Environment;
use calculator::eval::{BinOp, EvalStep, Evaluation, UnOp};

fn apply_bin(op: BinOp, a: f64, b: f64) -> f64 {
    match op {
        BinOp::Add => a + b,
        BinOp::Sub => a - b,
        BinOp::Mul => a * b,
        BinOp::Div => a / b,
        BinOp::Pow => a.powf(b),
    }
}

fn apply_un(op: UnOp, a: f64) -> f64 {
    match op {
        UnOp::Neg => -a,
        UnOp::Fun(Func::Abs) => a.abs(),
        UnOp::Fun(Func::Floor) => a.floor(),
        UnOp::Fun(Func::Log) => a.log10(),
        UnOp::Fun(Func::Ln) => a.ln(),
        UnOp::Fun(Func::Sin) => a.sin(),
        UnOp::Fun(Func::Cos) => a.cos(),
        UnOp::Fun(Func::Tan) => a.tan(),
        UnOp::Fun(Func::Arcsin) => a.asin(),
        UnOp::Fun(Func::Arccos) => a.acos(),
        UnOp::Fun(Func::Arctan) => a.atan(),
    }
}

fn calculate(calc: &mut Calculator, line: &str) -> Result<f64, CalculatorError> {
    let mut machine: Evaluation = calc.calculate(line)?;
    loop {
        match machine.advance() {
            EvalStep::Lit(lit) => {
                let x: f64 = lit.parse().unwrap();
                machine.supply(x.to_bits());
            }
            EvalStep::Bin(op, a, b) => {
                let r = apply_bin(op, f64::from_bits(a), f64::from_bits(b));
                machine.supply(r.to_bits());
            }
            EvalStep::Un(op, a) => {
                let r = apply_un(op, f64::from_bits(a));
                machine.supply(r.to_bits());
            }
            EvalStep::Done(_) => {
                return Ok(f64::from_bits(calc.commit(machine)));
            }
            EvalStep::Fail(e) => {
                return Err(CalculatorError::from_eval(e));
            }
        }
    }
}

#[test]
fn round_trip_values() {
    let mut c = Calculator::new();
    assert_eq!(2.0, calculate(&mut c, "1*(1+1)/2+2-1").unwrap());
    assert_eq!(4.0, calculate(&mut c, "2^2").unwrap());
    assert_eq!(11.5, calculate(&mut c, "3*2^2-1/2").unwrap());
}

#[test]
fn implicit_multiplication() {
    let mut c = Calculator::new();
    assert_eq!(9.0, calculate(&mut c, "3(2+1)").unwrap());
    assert_eq!(21.0, calculate(&mut c, "(3+4)(2+1)").unwrap());
    assert_eq!(0.0, calculate(&mut c, "5sin(0)").unwrap());
    assert_eq!(
        2.0 * std::f64::consts::PI,
        calculate(&mut c, "2pi").unwrap()
    );
}

#[test]
fn assignment_persists() {
    let mut c = Calculator::new();
    assert_eq!(5.0, calculate(&mut c, "a = 5").unwrap());
    assert_eq!(6.0, calculate(&mut c, "a + 1").unwrap());
}

#[test]
fn seeded_constants() {
    let mut c = Calculator::new();
    assert_eq!(std::f64::consts::PI, calculate(&mut c, "pi").unwrap());
    assert_eq!(std::f64::consts::E, calculate(&mut c, "e").unwrap());
}

#[test]
fn constants_can_be_overwritten() {
    let mut c = Calculator::new();
    assert_eq!(3.0, calculate(&mut c, "pi = 3").unwrap());
    assert_eq!(3.0, calculate(&mut c, "pi").unwrap());
}

#[test]
fn paren_balancing_appends_missing_close() {
    let mut c = Calculator::new();
    let open = calculate(&mut c, "1+(2+3").unwrap();
    let closed = calculate(&mut c, "1+(2+3)").unwrap();
    assert_eq!(closed, open);
    assert_eq!(6.0, open);
}

#[test]
fn paren_balancing_cuts_trailing_surplus() {
    let mut c = Calculator::new();
    let extra = calculate(&mut c, "1+2)").unwrap();
    let plain = calculate(&mut c, "1+2").unwrap();
    assert_eq!(plain, extra);
    assert_eq!(3.0, extra);
}

#[test]
fn balanced_text_is_logged() {
    let mut c = Calculator::new();
    calculate(&mut c, "1+(2+3").unwrap();
    let log = c.get_log();
    assert_eq!(1, log.len());
    assert_eq!("1+(2+3)", log[0].0.as_str());
    assert_eq!(6.0, f64::from_bits(log[0].1));
}

#[test]
fn unknown_identifier_leaves_state_unchanged() {
    let mut c = Calculator::new();
    calculate(&mut c, "a = 5").unwrap();
    let before = c.get_log().len();
    let err = calculate(&mut c, "undefined_var + 1").unwrap_err();
    assert_eq!(CalcErrorKind::UnknownVariable, err.kind());
    assert_eq!(
        "Unknown variable: undefined_var",
        err.message().as_str()
    );
    assert_eq!(before, c.get_log().len());
    assert_eq!(6.0, calculate(&mut c, "a + 1").unwrap());
}

#[test]
fn failed_assignment_is_not_committed() {
    let mut c = Calculator::new();
    let err = calculate(&mut c, "(a = 5) + undefined_var").unwrap_err();
    assert_eq!(CalcErrorKind::UnknownVariable, err.kind());
    let err2 = calculate(&mut c, "a").unwrap_err();
    assert_eq!(CalcErrorKind::UnknownVariable, err2.kind());
}

#[test]
fn log_grows_by_one_per_success_only() {
    let mut c = Calculator::new();
    assert_eq!(0, c.get_log().len());
    calculate(&mut c, "1+1").unwrap();
    assert_eq!(1, c.get_log().len());
    calculate(&mut c, "$").unwrap_err();
    assert_eq!(1, c.get_log().len());
    calculate(&mut c, "undefined_var").unwrap_err();
    assert_eq!(1, c.get_log().len());
    calculate(&mut c, "2*3").unwrap();
    let log = c.get_log();
    assert_eq!(2, log.len());
    assert_eq!("1+1", log[0].0.as_str());
    assert_eq!(2.0, f64::from_bits(log[0].1));
    assert_eq!("2*3", log[1].0.as_str());
    assert_eq!(6.0, f64::from_bits(log[1].1));
}

#[test]
fn assignment_binds_loosest() {
    let mut c = Calculator::new();
    assert_eq!(3.0, calculate(&mut c, "x = 1 + 2").unwrap());
    assert_eq!(3.0, calculate(&mut c, "x").unwrap());
}

#[test]
fn precedence_of_operators() {
    let mut c = Calculator::new();
    assert_eq!(7.0, calculate(&mut c, "1+2*3").unwrap());
    assert_eq!(13.0, calculate(&mut c, "1+3*2^2").unwrap());
    assert_eq!(2.5, calculate(&mut c, "1/2+2").unwrap());
}

#[test]
fn lexical_error_kind_and_message() {
    let mut c = Calculator::new();
    let err = calculate(&mut c, "1 # 2").unwrap_err();
    assert_eq!(CalcErrorKind::Lexical, err.kind());
    assert_eq!("Invalid character entered.", err.message().as_str());
    let err2 = calculate(&mut c, "1.2.3").unwrap_err();
    assert_eq!(CalcErrorKind::Lexical, err2.kind());
}

#[test]
fn parse_error_kind_and_message() {
    let mut c = Calculator::new();
    let err = calculate(&mut c, "5 = 3").unwrap_err();
    assert_eq!(CalcErrorKind::Parse, err.kind());
    assert_eq!(
        "parse_infix_op: Expected infix_op, got =",
        err.message().as_str()
    );
    let err2 = calculate(&mut c, "").unwrap_err();
    assert_eq!(CalcErrorKind::Parse, err2.kind());
    assert_eq!("Unknown atom: Eof", err2.message().as_str());
}

#[test]
fn session_restore_through_from() {
    let mut env = Environment::new();
    env.insert("x".to_string(), 4.0f64.to_bits());
    let prior = vec![("x = 4".to_string(), 4.0f64.to_bits())];
    let mut c = Calculator::from(env, prior);
    assert_eq!(1, c.get_log().len());
    assert_eq!(8.0, calculate(&mut c, "2x").unwrap());
    assert_eq!(2, c.get_log().len());
}

#[test]
fn chained_assignment() {
    let mut c = Calculator::new();
    assert_eq!(3.0, calculate(&mut c, "x = y = 3").unwrap());
    assert_eq!(3.0, calculate(&mut c, "x").unwrap());
    assert_eq!(3.0, calculate(&mut c, "y").unwrap());
}
