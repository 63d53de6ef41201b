use calculator::ast::{Expr, Func};
use calculator::env::Environment;
use calculator::eval::{eval, BinOp, EvalError, EvalStep, Evaluation, UnOp};
use calculator::parser::Parser;

fn apply_bin(op: BinOp, a: f64, b: f64) -> f64 {
    match op {
        BinOp::Add => a + b,
        BinOp::Sub => a - b,
        BinOp::Mul => a * b,
        BinOp::Div => a / b,
        BinOp::Pow => a.powf(b),
    }
}

fn apply_un(op: UnOp, a: f64) -> f64 {
    match op {
        UnOp::Neg => -a,
        UnOp::Fun(Func::Abs) => a.abs(),
        UnOp::Fun(Func::Floor) => a.floor(),
        UnOp::Fun(Func::Log) => a.log10(),
        UnOp::Fun(Func::Ln) => a.ln(),
        UnOp::Fun(Func::Sin) => a.sin(),
        UnOp::Fun(Func::Cos) => a.cos(),
        UnOp::Fun(Func::Tan) => a.tan(),
        UnOp::Fun(Func::Arcsin) => a.asin(),
        UnOp::Fun(Func::Arccos) => a.acos(),
        UnOp::Fun(Func::Arctan) => a.atan(),
    }
}

fn drive(mut machine: Evaluation) -> Result<(f64, Evaluation), EvalError> {
    loop {
        match machine.advance() {
            EvalStep::Lit(lit) => {
                let x: f64 = lit.parse().unwrap();
                machine.supply(x.to_bits());
            }
            EvalStep::Bin(op, a, b) => {
                let r = apply_bin(op, f64::from_bits(a), f64::from_bits(b));
                machine.supply(r.to_bits());
            }
            EvalStep::Un(op, a) => {
                let r = apply_un(op, f64::from_bits(a));
                machine.supply(r.to_bits());
            }
            EvalStep::Done(v) => return Ok((f64::from_bits(v), machine)),
            EvalStep::Fail(e) => return Err(e),
        }
    }
}

fn eval_value(ast: Expr) -> f64 {
    let machine = eval(ast, Environment::new());
    drive(machine).unwrap().0
}

#[test]
fn test_eval() {
    let ast = Parser::new("1*(1+1)/2+2-1").unwrap().parse().unwrap();
    let evaled = eval_value(ast);
    assert_eq!(2.0, evaled);
}

#[test]
fn test_eval2() {
    let ast = Parser::new("12*2/24 + 1 / 25 - 1.04").unwrap().parse().unwrap();
    let evaled = eval_value(ast);
    assert_eq!(0.0, evaled);
}

#[test]
fn exp_eval() {
    let ast = Parser::new("2^2").unwrap().parse().unwrap();
    println!("{:?}", ast);
    let evaled = eval_value(ast);
    assert_eq!(4.0, evaled);
}

#[test]
fn ord_of_op_test() {
    let ast = Parser::new("3*2^2-1/2").unwrap().parse().unwrap();
    println!("{:?}", ast);
    let evaled = eval_value(ast);
    assert_eq!(11.5, evaled);
}

#[test]
fn distribute_prop() {
    let ast = Parser::new("3(2+1)").unwrap().parse().unwrap();
    println!("{:?}", ast);
    let evaled = eval_value(ast);
    assert_eq!(9.0, evaled);
}

#[test]
fn paren_expr_mul() {
    let ast = Parser::new("(3+4)(2+1)").unwrap().parse().unwrap();
    println!("{:?}", ast);
    let evaled = eval_value(ast);
    assert_eq!(21.0, evaled);
}

#[test]
fn eval_test_eval() {
    let ast = Parser::new("1*(1+1)/2+2-1").unwrap().parse().unwrap();
    let evaled = eval_value(ast);
    assert_eq!(2.0, evaled);
}

#[test]
fn eval_test_eval2() {
    let ast = Parser::new("12*2/24 + 1 / 25 - 1.04").unwrap().parse().unwrap();
    let evaled = eval_value(ast);
    assert_eq!(0.0, evaled);
}

#[test]
fn eval_exp_eval() {
    let ast = Parser::new("2^2").unwrap().parse().unwrap();
    println!("{:?}", ast);
    let evaled = eval_value(ast);
    assert_eq!(4.0, evaled);
}

#[test]
fn eval_ord_of_op_test() {
    let ast = Parser::new("3*2^2-1/2").unwrap().parse().unwrap();
    println!("{:?}", ast);
    let evaled = eval_value(ast);
    assert_eq!(11.5, evaled);
}

#[test]
fn eval_distribute_prop() {
    let ast = Parser::new("3(2+1)").unwrap().parse().unwrap();
    println!("{:?}", ast);
    let evaled = eval_value(ast);
    assert_eq!(9.0, evaled);
}

#[test]
fn eval_paren_expr_mul() {
    let ast = Parser::new("(3+4)(2+1)").unwrap().parse().unwrap();
    println!("{:?}", ast);
    let evaled = eval_value(ast);
    assert_eq!(21.0, evaled);
}

#[test]
fn unknown_variable_fails() {
    let ast = Parser::new("q + 1").unwrap().parse().unwrap();
    let machine = eval(ast, Environment::new());
    assert_eq!(
        Err(EvalError::UnknownVar("q".to_string())),
        drive(machine).map(|p| p.0)
    );
}

#[test]
fn assignment_updates_the_environment() {
    let ast = Parser::new("a = 2 + 3").unwrap().parse().unwrap();
    let machine = eval(ast, Environment::new());
    let (value, finished) = drive(machine).unwrap();
    assert_eq!(5.0, value);
    let ast2 = Parser::new("a * 2").unwrap().parse().unwrap();
    let (_, env, _) = finished.into_parts();
    let machine2 = eval(ast2, env);
    assert_eq!(10.0, drive(machine2).unwrap().0);
}

#[test]
fn environment_lookup_reads_stored_bits() {
    let mut env = Environment::new();
    env.insert("x".to_string(), 2.5f64.to_bits());
    assert_eq!(Some(2.5f64.to_bits()), env.get("x"));
    assert_eq!(None, env.get("y"));
    let ast = Parser::new("x + x").unwrap().parse().unwrap();
    assert_eq!(5.0, drive(eval(ast, env)).unwrap().0);
}

#[test]
fn unary_functions_evaluate() {
    let ast = Parser::new("abs(0-3) + floor(1.5)").unwrap().parse().unwrap();
    assert_eq!(4.0, eval_value(ast));
    let ast2 = Parser::new("cos(0) + sin(0)").unwrap().parse().unwrap();
    assert_eq!(1.0, eval_value(ast2));
    let ast3 = Parser::new("log(100) + ln(1)").unwrap().parse().unwrap();
    assert_eq!(2.0, eval_value(ast3));
    let ast4 = Parser::new("arcsin(0) + arccos(1) + arctan(0) + tan(0)")
        .unwrap()
        .parse()
        .unwrap();
    assert_eq!(0.0, eval_value(ast4));
}

#[test]
fn division_by_zero_follows_the_floats() {
    let ast = Parser::new("1/0").unwrap().parse().unwrap();
    assert_eq!(f64::INFINITY, eval_value(ast));
}

#[test]
fn negation_evaluates() {
    let ast = Parser::new("-2^2").unwrap().parse().unwrap();
    assert_eq!(4.0, eval_value(ast));
    let ast2 = Parser::new("1 - -2").unwrap().parse().unwrap();
    assert_eq!(3.0, eval_value(ast2));
}
