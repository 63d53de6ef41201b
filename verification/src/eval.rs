//! The evaluator: reduces an expression tree to the bits of a numeric value
//! against a variable environment.
//!
//! The engine never computes floating-point arithmetic itself. Evaluation is
//! a machine that walks the tree in left-to-right order and, at every numeric
//! literal and every primitive operation, hands the request to its caller and
//! consumes the answer bits the caller supplies. The history of requests and
//! answers is the machine's ghost record; the contracts state that the final
//! value and environment are exactly those of the recursive evaluation
//! [`eval_with`] under that history.

use vstd::prelude::*;

use crate::ast::{Expr, ExprV, Func};
use crate::env::Environment;

verus! {

/// A primitive binary operation on numeric values.
#[derive(Debug, PartialEq, Eq, Structural, Copy, Clone)]
pub enum BinOp {
    Add,
    Sub,
    Mul,
    Div,
    Pow,
}

/// A primitive unary operation on numeric values: negation, or one of the
/// named functions.
#[derive(Debug, PartialEq, Eq, Structural, Copy, Clone)]
pub enum UnOp {
    Neg,
    Fun(Func),
}

/// A request the machine hands to its caller: parse a numeric literal, or
/// apply a primitive operation to the given operand bits.
pub ghost enum ReqV {
    Lit(Seq<char>),
    Bin(BinOp, u64, u64),
    Un(UnOp, u64),
}

/// The outcome of a (partial) evaluation: a value, an unknown variable, or a
/// history that does not answer the requests evaluation makes (`Stuck` never
/// happens in a run of the machine).
pub ghost enum RResV {
    Val(u64),
    Unknown(Seq<char>),
    Stuck,
}

/// Outcome, environment after, and how much of the history was consumed.
pub ghost struct ROut {
    pub res: RResV,
    pub env: Map<Seq<char>, u64>,
    pub used: nat,
}

/// The answer the history gives to a request at position `j`, if it is there.
pub open spec fn apply_req(req: ReqV, env: Map<Seq<char>, u64>, hist: Seq<(ReqV, u64)>, j: nat) -> ROut {
    if j < hist.len() && hist[j as int].0 == req {
        ROut { res: RResV::Val(hist[j as int].1), env, used: j + 1 }
    } else {
        ROut { res: RResV::Stuck, env, used: j }
    }
}

/// Continues a unary evaluation: applies the operation request to the
/// operand's outcome.
pub open spec fn finish_un(op: UnOp, o: ROut, hist: Seq<(ReqV, u64)>) -> ROut {
    match o.res {
        RResV::Val(v) => apply_req(ReqV::Un(op, v), o.env, hist, o.used),
        _ => o,
    }
}

/// Recursive evaluation of a tree under a history of answers, consuming the
/// history left to right: the meaning of the evaluation machine.
///
/// A literal consumes one answer (its bits). An identifier reads the
/// environment and fails with `Unknown` when the name is unbound. An
/// assignment evaluates its value, stores it, and yields it. A binary node
/// evaluates left then right, then consumes the answer to the operation
/// request on the two operand values; a unary node likewise with one operand.
pub open spec fn eval_with(e: ExprV, env: Map<Seq<char>, u64>, hist: Seq<(ReqV, u64)>, k: nat) -> ROut
    decreases esize(e), 1nat,
{
    match e {
        ExprV::Num(lit) => apply_req(ReqV::Lit(lit), env, hist, k),
        ExprV::Ident(x) => if env.contains_key(x) {
            ROut { res: RResV::Val(env[x]), env, used: k }
        } else {
            ROut { res: RResV::Unknown(x), env, used: k }
        },
        ExprV::Assign(x, e1) => {
            let o = eval_with(*e1, env, hist, k);
            match o.res {
                RResV::Val(v) => ROut { res: RResV::Val(v), env: o.env.insert(x, v), used: o.used },
                _ => o,
            }
        },
        ExprV::Add(l, r) => eval_bin_with(BinOp::Add, *l, *r, env, hist, k),
        ExprV::Sub(l, r) => eval_bin_with(BinOp::Sub, *l, *r, env, hist, k),
        ExprV::Mul(l, r) => eval_bin_with(BinOp::Mul, *l, *r, env, hist, k),
        ExprV::Div(l, r) => eval_bin_with(BinOp::Div, *l, *r, env, hist, k),
        ExprV::Pow(l, r) => eval_bin_with(BinOp::Pow, *l, *r, env, hist, k),
        ExprV::Neg(a) => finish_un(UnOp::Neg, eval_with(*a, env, hist, k), hist),
        ExprV::Abs(a) => finish_un(UnOp::Fun(Func::Abs), eval_with(*a, env, hist, k), hist),
        ExprV::Floor(a) => finish_un(UnOp::Fun(Func::Floor), eval_with(*a, env, hist, k), hist),
        ExprV::Log(a) => finish_un(UnOp::Fun(Func::Log), eval_with(*a, env, hist, k), hist),
        ExprV::Ln(a) => finish_un(UnOp::Fun(Func::Ln), eval_with(*a, env, hist, k), hist),
        ExprV::Sin(a) => finish_un(UnOp::Fun(Func::Sin), eval_with(*a, env, hist, k), hist),
        ExprV::Cos(a) => finish_un(UnOp::Fun(Func::Cos), eval_with(*a, env, hist, k), hist),
        ExprV::Tan(a) => finish_un(UnOp::Fun(Func::Tan), eval_with(*a, env, hist, k), hist),
        ExprV::Arcsin(a) => finish_un(UnOp::Fun(Func::Arcsin), eval_with(*a, env, hist, k), hist),
        ExprV::Arccos(a) => finish_un(UnOp::Fun(Func::Arccos), eval_with(*a, env, hist, k), hist),
        ExprV::Arctan(a) => finish_un(UnOp::Fun(Func::Arctan), eval_with(*a, env, hist, k), hist),
    }
}

/// Left operand, right operand, then the operation request.
pub open spec fn eval_bin_with(
    op: BinOp,
    l: ExprV,
    r: ExprV,
    env: Map<Seq<char>, u64>,
    hist: Seq<(ReqV, u64)>,
    k: nat,
) -> ROut
    decreases esize(l) + esize(r) + 1, 0nat,
{
    let a = eval_with(l, env, hist, k);
    match a.res {
        RResV::Val(av) => {
            let b = eval_with(r, a.env, hist, a.used);
            match b.res {
                RResV::Val(bv) => apply_req(ReqV::Bin(op, av, bv), b.env, hist, b.used),
                _ => b,
            }
        },
        _ => a,
    }
}

/// A unit of pending machine work: evaluate a subtree, apply an operation to
/// values already computed, or store the value on top under a name.
#[derive(Debug)]
pub enum Task {
    Ev(Expr),
    Bin(BinOp),
    Un(UnOp),
    Store(String),
}

/// The model of a unit of work.
pub ghost enum TaskV {
    Ev(ExprV),
    Bin(BinOp),
    Un(UnOp),
    Store(Seq<char>),
}

impl View for Task {
    type V = TaskV;

    open spec fn view(&self) -> TaskV {
        match self {
            Task::Ev(e) => TaskV::Ev(e@),
            Task::Bin(op) => TaskV::Bin(*op),
            Task::Un(op) => TaskV::Un(*op),
            Task::Store(x) => TaskV::Store(x@),
        }
    }
}

/// Structural size of a tree.
pub open spec fn esize(e: ExprV) -> nat
    decreases e,
{
    match e {
        ExprV::Num(_) => 1,
        ExprV::Ident(_) => 1,
        ExprV::Assign(_, e1) => 1 + esize(*e1),
        ExprV::Add(l, r) => 1 + esize(*l) + esize(*r),
        ExprV::Sub(l, r) => 1 + esize(*l) + esize(*r),
        ExprV::Mul(l, r) => 1 + esize(*l) + esize(*r),
        ExprV::Div(l, r) => 1 + esize(*l) + esize(*r),
        ExprV::Pow(l, r) => 1 + esize(*l) + esize(*r),
        ExprV::Neg(a) => 1 + esize(*a),
        ExprV::Abs(a) => 1 + esize(*a),
        ExprV::Floor(a) => 1 + esize(*a),
        ExprV::Log(a) => 1 + esize(*a),
        ExprV::Ln(a) => 1 + esize(*a),
        ExprV::Sin(a) => 1 + esize(*a),
        ExprV::Cos(a) => 1 + esize(*a),
        ExprV::Tan(a) => 1 + esize(*a),
        ExprV::Arcsin(a) => 1 + esize(*a),
        ExprV::Arccos(a) => 1 + esize(*a),
        ExprV::Arctan(a) => 1 + esize(*a),
    }
}

/// Size of a unit of work, for termination of the machine.
pub open spec fn task_m(t: TaskV) -> nat {
    match t {
        TaskV::Ev(e) => 2 * esize(e),
        TaskV::Bin(_) => 1,
        TaskV::Un(_) => 1,
        TaskV::Store(_) => 1,
    }
}

/// Size of a whole work stack.
pub open spec fn work_m(w: Seq<TaskV>) -> nat
    decreases w.len(),
{
    if w.len() == 0 {
        0
    } else {
        work_m(w.drop_last()) + task_m(w.last())
    }
}

pub proof fn lemma_wm_push(w: Seq<TaskV>, t: TaskV)
    ensures
        work_m(w.push(t)) == work_m(w) + task_m(t),
{
    assert(w.push(t).drop_last() =~= w);
}

/// Runs the machine's remaining work on the value stack: the small-step
/// counterpart of [`eval_with`], processing the stack top first.
pub open spec fn run_work(
    work: Seq<TaskV>,
    vals: Seq<u64>,
    env: Map<Seq<char>, u64>,
    hist: Seq<(ReqV, u64)>,
    k: nat,
) -> ROut
    decreases work_m(work), 1nat,
{
    if work.len() == 0 {
        ROut {
            res: if vals.len() == 1 {
                RResV::Val(vals[0])
            } else {
                RResV::Stuck
            },
            env,
            used: k,
        }
    } else {
        let rest = work.drop_last();
        match work.last() {
            TaskV::Ev(e) => match e {
                ExprV::Num(lit) => {
                    if k < hist.len() && hist[k as int].0 == ReqV::Lit(lit) {
                        run_work(rest, vals.push(hist[k as int].1), env, hist, k + 1)
                    } else {
                        ROut { res: RResV::Stuck, env, used: k }
                    }
                },
                ExprV::Ident(x) => {
                    if env.contains_key(x) {
                        run_work(rest, vals.push(env[x]), env, hist, k)
                    } else {
                        ROut { res: RResV::Unknown(x), env, used: k }
                    }
                },
                ExprV::Assign(x, e1) => {
                    proof {
                        lemma_wm_push(rest, TaskV::Store(x));
                        lemma_wm_push(rest.push(TaskV::Store(x)), TaskV::Ev(*e1));
                    }
                    run_work(
                        rest.push(TaskV::Store(x)).push(TaskV::Ev(*e1)),
                        vals,
                        env,
                        hist,
                        k,
                    )
                },
                ExprV::Add(l, r) => run_bin(rest, BinOp::Add, *l, *r, vals, env, hist, k),
                ExprV::Sub(l, r) => run_bin(rest, BinOp::Sub, *l, *r, vals, env, hist, k),
                ExprV::Mul(l, r) => run_bin(rest, BinOp::Mul, *l, *r, vals, env, hist, k),
                ExprV::Div(l, r) => run_bin(rest, BinOp::Div, *l, *r, vals, env, hist, k),
                ExprV::Pow(l, r) => run_bin(rest, BinOp::Pow, *l, *r, vals, env, hist, k),
                ExprV::Neg(a) => run_un(rest, UnOp::Neg, *a, vals, env, hist, k),
                ExprV::Abs(a) => run_un(rest, UnOp::Fun(Func::Abs), *a, vals, env, hist, k),
                ExprV::Floor(a) => run_un(rest, UnOp::Fun(Func::Floor), *a, vals, env, hist, k),
                ExprV::Log(a) => run_un(rest, UnOp::Fun(Func::Log), *a, vals, env, hist, k),
                ExprV::Ln(a) => run_un(rest, UnOp::Fun(Func::Ln), *a, vals, env, hist, k),
                ExprV::Sin(a) => run_un(rest, UnOp::Fun(Func::Sin), *a, vals, env, hist, k),
                ExprV::Cos(a) => run_un(rest, UnOp::Fun(Func::Cos), *a, vals, env, hist, k),
                ExprV::Tan(a) => run_un(rest, UnOp::Fun(Func::Tan), *a, vals, env, hist, k),
                ExprV::Arcsin(a) => run_un(rest, UnOp::Fun(Func::Arcsin), *a, vals, env, hist, k),
                ExprV::Arccos(a) => run_un(rest, UnOp::Fun(Func::Arccos), *a, vals, env, hist, k),
                ExprV::Arctan(a) => run_un(rest, UnOp::Fun(Func::Arctan), *a, vals, env, hist, k),
            },
            TaskV::Bin(op) => {
                if vals.len() >= 2 {
                    let bv = vals.last();
                    let av = vals[vals.len() - 2];
                    if k < hist.len() && hist[k as int].0 == ReqV::Bin(op, av, bv) {
                        run_work(
                            rest,
                            vals.drop_last().drop_last().push(hist[k as int].1),
                            env,
                            hist,
                            k + 1,
                        )
                    } else {
                        ROut { res: RResV::Stuck, env, used: k }
                    }
                } else {
                    ROut { res: RResV::Stuck, env, used: k }
                }
            },
            TaskV::Un(op) => {
                if vals.len() >= 1 {
                    let av = vals.last();
                    if k < hist.len() && hist[k as int].0 == ReqV::Un(op, av) {
                        run_work(rest, vals.drop_last().push(hist[k as int].1), env, hist, k + 1)
                    } else {
                        ROut { res: RResV::Stuck, env, used: k }
                    }
                } else {
                    ROut { res: RResV::Stuck, env, used: k }
                }
            },
            TaskV::Store(x) => {
                if vals.len() >= 1 {
                    run_work(rest, vals, env.insert(x, vals.last()), hist, k)
                } else {
                    ROut { res: RResV::Stuck, env, used: k }
                }
            },
        }
    }
}

/// Expansion of a binary node on the work stack.
pub open spec fn run_bin(
    rest: Seq<TaskV>,
    op: BinOp,
    l: ExprV,
    r: ExprV,
    vals: Seq<u64>,
    env: Map<Seq<char>, u64>,
    hist: Seq<(ReqV, u64)>,
    k: nat,
) -> ROut
    decreases work_m(rest) + 2 + 2 * esize(l) + 2 * esize(r), 0nat,
{
    proof {
        lemma_wm_push(rest, TaskV::Bin(op));
        lemma_wm_push(rest.push(TaskV::Bin(op)), TaskV::Ev(r));
        lemma_wm_push(rest.push(TaskV::Bin(op)).push(TaskV::Ev(r)), TaskV::Ev(l));
    }
    run_work(
        rest.push(TaskV::Bin(op)).push(TaskV::Ev(r)).push(TaskV::Ev(l)),
        vals,
        env,
        hist,
        k,
    )
}

/// Expansion of a unary node on the work stack.
pub open spec fn run_un(
    rest: Seq<TaskV>,
    op: UnOp,
    a: ExprV,
    vals: Seq<u64>,
    env: Map<Seq<char>, u64>,
    hist: Seq<(ReqV, u64)>,
    k: nat,
) -> ROut
    decreases work_m(rest) + 2 + 2 * esize(a), 0nat,
{
    proof {
        lemma_wm_push(rest, TaskV::Un(op));
        lemma_wm_push(rest.push(TaskV::Un(op)), TaskV::Ev(a));
    }
    run_work(rest.push(TaskV::Un(op)).push(TaskV::Ev(a)), vals, env, hist, k)
}

/// Continuing after an evaluation outcome: push the value and keep running,
/// or stop with the error.
pub open spec fn compose(o: ROut, work: Seq<TaskV>, vals: Seq<u64>, hist: Seq<(ReqV, u64)>) -> ROut {
    match o.res {
        RResV::Val(v) => run_work(work, vals.push(v), o.env, hist, o.used),
        _ => o,
    }
}

/// The machine agrees with the recursive evaluation: running a work stack
/// whose top is a subtree equals evaluating the subtree and continuing with
/// its value.
pub proof fn lemma_run_eval(
    work: Seq<TaskV>,
    vals: Seq<u64>,
    e: ExprV,
    env: Map<Seq<char>, u64>,
    hist: Seq<(ReqV, u64)>,
    k: nat,
)
    ensures
        run_work(work.push(TaskV::Ev(e)), vals, env, hist, k) == compose(
            eval_with(e, env, hist, k),
            work,
            vals,
            hist,
        ),
    decreases esize(e), 1nat,
{
    assert(work.push(TaskV::Ev(e)).drop_last() =~= work);
    match e {
        ExprV::Num(_) => {},
        ExprV::Ident(_) => {},
        ExprV::Assign(x, e1) => {
            let w1 = work.push(TaskV::Store(x));
            lemma_run_eval(w1, vals, *e1, env, hist, k);
            let o1 = eval_with(*e1, env, hist, k);
            match o1.res {
                RResV::Val(v) => {
                    assert(run_work(w1, vals.push(v), o1.env, hist, o1.used) == run_work(
                        work,
                        vals.push(v),
                        o1.env.insert(x, v),
                        hist,
                        o1.used,
                    )) by {
                        assert(w1.drop_last() =~= work);
                        assert(vals.push(v).last() == v);
                    }
                },
                _ => {},
            }
        },
        ExprV::Add(l, r) => {
            lemma_run_eval_bin(work, vals, BinOp::Add, *l, *r, env, hist, k);
        },
        ExprV::Sub(l, r) => {
            lemma_run_eval_bin(work, vals, BinOp::Sub, *l, *r, env, hist, k);
        },
        ExprV::Mul(l, r) => {
            lemma_run_eval_bin(work, vals, BinOp::Mul, *l, *r, env, hist, k);
        },
        ExprV::Div(l, r) => {
            lemma_run_eval_bin(work, vals, BinOp::Div, *l, *r, env, hist, k);
        },
        ExprV::Pow(l, r) => {
            lemma_run_eval_bin(work, vals, BinOp::Pow, *l, *r, env, hist, k);
        },
        ExprV::Neg(a) => {
            lemma_run_eval_un(work, vals, UnOp::Neg, *a, env, hist, k);
        },
        ExprV::Abs(a) => {
            lemma_run_eval_un(work, vals, UnOp::Fun(Func::Abs), *a, env, hist, k);
        },
        ExprV::Floor(a) => {
            lemma_run_eval_un(work, vals, UnOp::Fun(Func::Floor), *a, env, hist, k);
        },
        ExprV::Log(a) => {
            lemma_run_eval_un(work, vals, UnOp::Fun(Func::Log), *a, env, hist, k);
        },
        ExprV::Ln(a) => {
            lemma_run_eval_un(work, vals, UnOp::Fun(Func::Ln), *a, env, hist, k);
        },
        ExprV::Sin(a) => {
            lemma_run_eval_un(work, vals, UnOp::Fun(Func::Sin), *a, env, hist, k);
        },
        ExprV::Cos(a) => {
            lemma_run_eval_un(work, vals, UnOp::Fun(Func::Cos), *a, env, hist, k);
        },
        ExprV::Tan(a) => {
            lemma_run_eval_un(work, vals, UnOp::Fun(Func::Tan), *a, env, hist, k);
        },
        ExprV::Arcsin(a) => {
            lemma_run_eval_un(work, vals, UnOp::Fun(Func::Arcsin), *a, env, hist, k);
        },
        ExprV::Arccos(a) => {
            lemma_run_eval_un(work, vals, UnOp::Fun(Func::Arccos), *a, env, hist, k);
        },
        ExprV::Arctan(a) => {
            lemma_run_eval_un(work, vals, UnOp::Fun(Func::Arctan), *a, env, hist, k);
        },
    }
}

proof fn lemma_run_eval_bin(
    work: Seq<TaskV>,
    vals: Seq<u64>,
    op: BinOp,
    l: ExprV,
    r: ExprV,
    env: Map<Seq<char>, u64>,
    hist: Seq<(ReqV, u64)>,
    k: nat,
)
    ensures
        run_bin(work, op, l, r, vals, env, hist, k) == compose(
            eval_bin_with(op, l, r, env, hist, k),
            work,
            vals,
            hist,
        ),
    decreases esize(l) + esize(r) + 1, 0nat,
{
    let w2 = work.push(TaskV::Bin(op));
    let w1 = w2.push(TaskV::Ev(r));
    lemma_run_eval(w1, vals, l, env, hist, k);
    let a = eval_with(l, env, hist, k);
    match a.res {
        RResV::Val(av) => {
            lemma_run_eval(w2, vals.push(av), r, a.env, hist, a.used);
            let b = eval_with(r, a.env, hist, a.used);
            match b.res {
                RResV::Val(bv) => {
                    let vs = vals.push(av).push(bv);
                    assert(w2.drop_last() =~= work);
                    assert(vs.len() == vals.len() + 2);
                    assert(vs.last() == bv);
                    assert(vs[vs.len() - 2] == av);
                    assert(vs.drop_last().drop_last() =~= vals);
                },
                _ => {},
            }
        },
        _ => {},
    }
}

proof fn lemma_run_eval_un(
    work: Seq<TaskV>,
    vals: Seq<u64>,
    op: UnOp,
    a: ExprV,
    env: Map<Seq<char>, u64>,
    hist: Seq<(ReqV, u64)>,
    k: nat,
)
    ensures
        run_un(work, op, a, vals, env, hist, k) == compose(
            finish_un(op, eval_with(a, env, hist, k), hist),
            work,
            vals,
            hist,
        ),
    decreases esize(a) + 1, 0nat,
{
    let w1 = work.push(TaskV::Un(op));
    lemma_run_eval(w1, vals, a, env, hist, k);
    let o = eval_with(a, env, hist, k);
    match o.res {
        RResV::Val(v) => {
            let vs = vals.push(v);
            assert(w1.drop_last() =~= work);
            assert(vs.last() == v);
            assert(vs.drop_last() =~= vals);
        },
        _ => {},
    }
}

/// The view of a work vector.
pub open spec fn tasks_view(s: Seq<Task>) -> Seq<TaskV> {
    s.map_values(|t: Task| t@)
}

/// The work-stack task a pending request re-materializes.
pub open spec fn req_task(r: ReqV) -> TaskV {
    match r {
        ReqV::Lit(lit) => TaskV::Ev(ExprV::Num(lit)),
        ReqV::Bin(op, _, _) => TaskV::Bin(op),
        ReqV::Un(op, _) => TaskV::Un(op),
    }
}

/// The operand values a pending request re-materializes.
pub open spec fn req_vals(r: ReqV, vals: Seq<u64>) -> Seq<u64> {
    match r {
        ReqV::Lit(_) => vals,
        ReqV::Bin(_, a, b) => vals.push(a).push(b),
        ReqV::Un(_, a) => vals.push(a),
    }
}

/// Stack discipline: processing the work top-first from `avail` values on
/// the stack ends with exactly one value.
pub open spec fn shape(w: Seq<TaskV>, avail: int) -> bool
    decreases w.len(),
{
    if w.len() == 0 {
        avail == 1
    } else {
        match w.last() {
            TaskV::Ev(_) => shape(w.drop_last(), avail + 1),
            TaskV::Bin(_) => avail >= 2 && shape(w.drop_last(), avail - 1),
            TaskV::Un(_) => avail >= 1 && shape(w.drop_last(), avail),
            TaskV::Store(_) => avail >= 1 && shape(w.drop_last(), avail),
        }
    }
}

/// Defines the error that can occur during evaluation: a variable that is
/// not bound in the environment, named.
#[derive(Debug, PartialEq)]
pub enum EvalError {
    UnknownVar(String),
}

/// One step of the evaluation machine as seen by its driver: a request to
/// parse a literal or apply a primitive operation (answered through
/// [`Evaluation::supply`]), the finished value's bits, or a failure.
#[derive(Debug)]
pub enum EvalStep {
    Lit(String),
    Bin(BinOp, u64, u64),
    Un(UnOp, u64),
    Done(u64),
    Fail(EvalError),
}

/// A running evaluation: the machine state between steps.
pub struct Evaluation {
    work: Vec<Task>,
    vals: Vec<u64>,
    env: Environment,
    text: String,
    hist: Ghost<Seq<(ReqV, u64)>>,
    preq: Ghost<ReqV>,
    wait: Ghost<bool>,
    fail: Ghost<bool>,
    e0: Ghost<ExprV>,
    env0: Ghost<Map<Seq<char>, u64>>,
}

impl Evaluation {
    /// A request is outstanding; the next call must be `supply`.
    pub closed spec fn waiting(&self) -> bool {
        self.wait@
    }

    /// The machine stopped at an unbound variable.
    pub closed spec fn failed(&self) -> bool {
        self.fail@
    }

    /// The requests made so far, each with the answer supplied.
    pub closed spec fn history(&self) -> Seq<(ReqV, u64)> {
        self.hist@
    }

    /// The outstanding request, when `waiting`.
    pub closed spec fn pending(&self) -> ReqV {
        self.preq@
    }

    /// The tree being evaluated.
    pub closed spec fn expr0(&self) -> ExprV {
        self.e0@
    }

    /// The environment the evaluation started from.
    pub closed spec fn env_start(&self) -> Map<Seq<char>, u64> {
        self.env0@
    }

    /// The working environment, with the assignments made so far.
    pub closed spec fn cur_env(&self) -> Map<Seq<char>, u64> {
        self.env@
    }

    /// The text this evaluation was started for.
    pub closed spec fn input_text(&self) -> Seq<char> {
        self.text@
    }

    /// The final value, once `finished`.
    pub closed spec fn value(&self) -> u64 {
        self.vals@[0]
    }

    /// The machine has reduced the tree to one value.
    pub closed spec fn finished(&self) -> bool {
        !self.wait@ && !self.fail@ && self.work@.len() == 0
    }

    spec fn virt_work(&self) -> Seq<TaskV> {
        if self.wait@ {
            tasks_view(self.work@).push(req_task(self.preq@))
        } else {
            tasks_view(self.work@)
        }
    }

    spec fn virt_vals(&self) -> Seq<u64> {
        if self.wait@ {
            req_vals(self.preq@, self.vals@)
        } else {
            self.vals@
        }
    }

    /// The machine invariant: the stack discipline holds, and for every
    /// answer history extending the one recorded, running the remaining work
    /// equals the recursive evaluation of the whole tree under that history.
    pub closed spec fn inv(&self) -> bool {
        &&& self.env.wf()
        &&& (!self.fail@ ==> shape(self.virt_work(), self.virt_vals().len() as int))
        &&& (!self.fail@ ==> forall|h: Seq<(ReqV, u64)>|
            #![trigger h.take(self.hist@.len() as int)]
            (h.len() >= self.hist@.len() && h.take(self.hist@.len() as int) == self.hist@)
                ==> run_work(self.virt_work(), self.virt_vals(), self.env@, h, self.hist@.len())
                == eval_with(self.e0@, self.env0@, h, 0))
    }

    /// Answers the outstanding request with the bits `v`, recording the pair
    /// in the history.
    pub fn supply(&mut self, v: u64)
        requires
            old(self).inv(),
            old(self).waiting(),
            !old(self).failed(),
        ensures
            final(self).inv(),
            !final(self).waiting(),
            !final(self).failed(),
            final(self).history() == old(self).history().push((old(self).pending(), v)),
            final(self).expr0() == old(self).expr0(),
            final(self).env_start() == old(self).env_start(),
            final(self).cur_env() == old(self).cur_env(),
            final(self).input_text() == old(self).input_text(),
    {
        let ghost oldh = self.hist@;
        let ghost req = self.preq@;
        let ghost w = tasks_view(self.work@);
        let ghost ovals = self.vals@;
        self.vals.push(v);
        proof {
            self.hist@ = oldh.push((req, v));
            self.wait@ = false;
        }
        proof {
            let newh = self.hist@;
            assert(newh.take(oldh.len() as int) =~= oldh);
            assert(shape(w, ovals.len() as int + 1)) by {
                assert(w.push(req_task(req)).drop_last() =~= w);
                assert(w.push(req_task(req)).last() == req_task(req));
            }
            assert forall|h: Seq<(ReqV, u64)>|
                (h.len() >= newh.len() && h.take(newh.len() as int) == newh) implies run_work(
                self.virt_work(),
                self.virt_vals(),
                self.env@,
                h,
                newh.len(),
            ) == eval_with(self.e0@, self.env0@, h, 0) by {
                let k = oldh.len();
                assert(h.take(k as int) =~= oldh) by {
                    assert(h.take(newh.len() as int) == newh);
                    assert(forall|i: int| 0 <= i < k ==> h[i] == newh[i]);
                }
                assert(h.len() >= k);
                let ow = w.push(req_task(req));
                let ov = req_vals(req, ovals);
                assert(run_work(ow, ov, self.env@, h, k) == eval_with(self.e0@, self.env0@, h, 0));
                assert(h[k as int] == newh[k as int]);
                assert(h[k as int] == (req, v));
                assert(ow.drop_last() =~= w);
                assert(ow.last() == req_task(req));
                match req {
                    ReqV::Lit(lit) => {
                        assert(run_work(ow, ov, self.env@, h, k) == run_work(
                            w,
                            ovals.push(v),
                            self.env@,
                            h,
                            k + 1,
                        ));
                    },
                    ReqV::Bin(op, a, b) => {
                        let vs = ovals.push(a).push(b);
                        assert(vs.last() == b);
                        assert(vs[vs.len() - 2] == a);
                        assert(vs.drop_last().drop_last() =~= ovals);
                        assert(run_work(ow, ov, self.env@, h, k) == run_work(
                            w,
                            ovals.push(v),
                            self.env@,
                            h,
                            k + 1,
                        ));
                    },
                    ReqV::Un(op, a) => {
                        let vs = ovals.push(a);
                        assert(vs.last() == a);
                        assert(vs.drop_last() =~= ovals);
                        assert(run_work(ow, ov, self.env@, h, k) == run_work(
                            w,
                            ovals.push(v),
                            self.env@,
                            h,
                            k + 1,
                        ));
                    },
                }
            }
        }
    }
}

/// Begins evaluating a tree against an environment. The machine owns the
/// environment; the caller drives it with [`Evaluation::advance`] and
/// [`Evaluation::supply`].
pub fn eval(ast: Expr, env: Environment) -> (r: Evaluation)
    requires
        env.wf(),
    ensures
        r.inv(),
        !r.waiting(),
        !r.failed(),
        r.history() == Seq::<(ReqV, u64)>::empty(),
        r.expr0() == ast@,
        r.env_start() == env@,
        r.cur_env() == env@,
        r.input_text() == Seq::<char>::empty(),
        !r.finished(),
{
    let ghost ev = ast@;
    let ghost env_v = env@;
    let mut work: Vec<Task> = Vec::new();
    work.push(Task::Ev(ast));
    let vals: Vec<u64> = Vec::new();
    let r = Evaluation {
        work,
        vals,
        env,
        text: String::new(),
        hist: Ghost(Seq::empty()),
        preq: Ghost(ReqV::Lit(Seq::empty())),
        wait: Ghost(false),
        fail: Ghost(false),
        e0: Ghost(ev),
        env0: Ghost(env_v),
    };
    proof {
        let w0 = tasks_view(r.work@);
        assert(w0 =~= Seq::<TaskV>::empty().push(TaskV::Ev(ev)));
        assert(w0.drop_last() =~= Seq::<TaskV>::empty());
        assert(w0.last() == TaskV::Ev(ev));
        assert(shape(Seq::<TaskV>::empty(), 1));
        assert(shape(w0, 0));
        assert forall|h: Seq<(ReqV, u64)>|
            (h.len() >= 0 && h.take(0) == Seq::<(ReqV, u64)>::empty()) implies run_work(
            w0,
            Seq::empty(),
            env_v,
            h,
            0,
        ) == eval_with(ev, env_v, h, 0) by {
            lemma_run_eval(Seq::empty(), Seq::empty(), ev, env_v, h, 0);
            let o = eval_with(ev, env_v, h, 0);
            assert(run_work(w0, Seq::empty(), env_v, h, 0) == run_work(
                Seq::<TaskV>::empty().push(TaskV::Ev(ev)),
                Seq::empty(),
                env_v,
                h,
                0,
            ));
            match o.res {
                RResV::Val(v) => {
                    assert(Seq::<u64>::empty().push(v).len() == 1);
                    assert(Seq::<u64>::empty().push(v)[0] == v);
                },
                _ => {},
            }
        }
    }
    r
}

proof fn lemma_push_parts(w: Seq<TaskV>, t: TaskV, whole: Seq<TaskV>)
    requires
        w.push(t) == whole,
    ensures
        whole.len() == w.len() + 1,
        whole.last() == t,
        whole.drop_last() == w,
{
    assert(whole.drop_last() =~= w);
}

/// The tree node of a binary operation.
pub open spec fn bin_node(op: BinOp, l: ExprV, r: ExprV) -> ExprV {
    match op {
        BinOp::Add => ExprV::Add(Box::new(l), Box::new(r)),
        BinOp::Sub => ExprV::Sub(Box::new(l), Box::new(r)),
        BinOp::Mul => ExprV::Mul(Box::new(l), Box::new(r)),
        BinOp::Div => ExprV::Div(Box::new(l), Box::new(r)),
        BinOp::Pow => ExprV::Pow(Box::new(l), Box::new(r)),
    }
}

/// The tree node of a unary operation.
pub open spec fn un_node(op: UnOp, a: ExprV) -> ExprV {
    match op {
        UnOp::Neg => ExprV::Neg(Box::new(a)),
        UnOp::Fun(Func::Abs) => ExprV::Abs(Box::new(a)),
        UnOp::Fun(Func::Floor) => ExprV::Floor(Box::new(a)),
        UnOp::Fun(Func::Log) => ExprV::Log(Box::new(a)),
        UnOp::Fun(Func::Ln) => ExprV::Ln(Box::new(a)),
        UnOp::Fun(Func::Sin) => ExprV::Sin(Box::new(a)),
        UnOp::Fun(Func::Cos) => ExprV::Cos(Box::new(a)),
        UnOp::Fun(Func::Tan) => ExprV::Tan(Box::new(a)),
        UnOp::Fun(Func::Arcsin) => ExprV::Arcsin(Box::new(a)),
        UnOp::Fun(Func::Arccos) => ExprV::Arccos(Box::new(a)),
        UnOp::Fun(Func::Arctan) => ExprV::Arctan(Box::new(a)),
    }
}

impl Evaluation {
    /// The pre-transition machine state the invariant speaks of, when a task
    /// with the given model has just been taken off the work stack.
    spec fn mid_inv(&self, t: TaskV) -> bool {
        let w = tasks_view(self.work@).push(t);
        &&& !self.wait@
        &&& !self.fail@
        &&& self.env.wf()
        &&& shape(w, self.vals@.len() as int)
        &&& forall|h: Seq<(ReqV, u64)>|
            #![trigger h.take(self.hist@.len() as int)]
            (h.len() >= self.hist@.len() && h.take(self.hist@.len() as int) == self.hist@)
                ==> run_work(w, self.vals@, self.env@, h, self.hist@.len()) == eval_with(
                self.e0@,
                self.env0@,
                h,
                0,
            )
    }

    /// Expands a binary node: the operation task, then the right and left
    /// operands on top.
    #[verifier::rlimit(100)]
    fn push_bin(&mut self, op: BinOp, l: Box<Expr>, r: Box<Expr>)
        requires
            old(self).mid_inv(TaskV::Ev(bin_node(op, l@, r@))),
        ensures
            final(self).inv(),
            !final(self).waiting(),
            !final(self).failed(),
            final(self).hist@ == old(self).hist@,
            final(self).e0@ == old(self).e0@,
            final(self).env0@ == old(self).env0@,
            final(self).text@ == old(self).text@,
            work_m(tasks_view(final(self).work@)) < work_m(
                tasks_view(old(self).work@).push(TaskV::Ev(bin_node(op, l@, r@))),
            ),
    {
        let ghost node = bin_node(op, l@, r@);
        let ghost w0 = tasks_view(self.work@);
        let ghost lv = l@;
        let ghost rv = r@;
        let ghost k = self.hist@.len();
        self.work.push(Task::Bin(op));
        self.work.push(Task::Ev(*r));
        self.work.push(Task::Ev(*l));
        proof {
            let w3 = tasks_view(self.work@);
            assert(w3 =~= w0.push(TaskV::Bin(op)).push(TaskV::Ev(rv)).push(TaskV::Ev(lv)));
            let wb = w0.push(TaskV::Bin(op));
            let wr = wb.push(TaskV::Ev(rv));
            assert(wb.drop_last() =~= w0);
            assert(wr.drop_last() =~= wb);
            assert(w3.drop_last() =~= wr);
            let wn = w0.push(TaskV::Ev(node));
            assert(wn.drop_last() =~= w0);
            let avail = self.vals@.len() as int;
            assert(shape(wn, avail));
            assert(shape(w0, avail + 1));
            assert(shape(w3, avail)) by {
                assert(shape(wb, avail + 2));
                assert(shape(wr, avail + 1));
            }
            lemma_wm_push(w0, TaskV::Bin(op));
            lemma_wm_push(wb, TaskV::Ev(rv));
            lemma_wm_push(wr, TaskV::Ev(lv));
            lemma_wm_push(w0, TaskV::Ev(node));
            assert(esize(node) == 1 + esize(lv) + esize(rv)) by {
                match op {
                    BinOp::Add => {},
                    BinOp::Sub => {},
                    BinOp::Mul => {},
                    BinOp::Div => {},
                    BinOp::Pow => {},
                }
            }
            assert forall|h: Seq<(ReqV, u64)>|
                (h.len() >= k && h.take(k as int) == self.hist@) implies run_work(
                w3,
                self.vals@,
                self.env@,
                h,
                k,
            ) == eval_with(self.e0@, self.env0@, h, 0) by {
                assert(run_work(wn, self.vals@, self.env@, h, k) == eval_with(
                    self.e0@,
                    self.env0@,
                    h,
                    0,
                ));
                assert(wn.last() == TaskV::Ev(node));
                assert(wn.drop_last() == w0);
                match op {
                    BinOp::Add => {
                        assert(node == ExprV::Add(Box::new(lv), Box::new(rv)));
                    },
                    BinOp::Sub => {
                        assert(node == ExprV::Sub(Box::new(lv), Box::new(rv)));
                    },
                    BinOp::Mul => {
                        assert(node == ExprV::Mul(Box::new(lv), Box::new(rv)));
                    },
                    BinOp::Div => {
                        assert(node == ExprV::Div(Box::new(lv), Box::new(rv)));
                    },
                    BinOp::Pow => {
                        assert(node == ExprV::Pow(Box::new(lv), Box::new(rv)));
                    },
                }
                assert(run_work(wn, self.vals@, self.env@, h, k) == run_bin(
                    w0,
                    op,
                    lv,
                    rv,
                    self.vals@,
                    self.env@,
                    h,
                    k,
                ));
                assert(run_bin(w0, op, lv, rv, self.vals@, self.env@, h, k) == run_work(
                    w0.push(TaskV::Bin(op)).push(TaskV::Ev(rv)).push(TaskV::Ev(lv)),
                    self.vals@,
                    self.env@,
                    h,
                    k,
                ));
            }
        }
    }

    /// Expands a unary node: the operation task, then the operand on top.
    #[verifier::rlimit(100)]
    fn push_un(&mut self, op: UnOp, a: Box<Expr>)
        requires
            old(self).mid_inv(TaskV::Ev(un_node(op, a@))),
        ensures
            final(self).inv(),
            !final(self).waiting(),
            !final(self).failed(),
            final(self).hist@ == old(self).hist@,
            final(self).e0@ == old(self).e0@,
            final(self).env0@ == old(self).env0@,
            final(self).text@ == old(self).text@,
            work_m(tasks_view(final(self).work@)) < work_m(
                tasks_view(old(self).work@).push(TaskV::Ev(un_node(op, a@))),
            ),
    {
        let ghost node = un_node(op, a@);
        let ghost w0 = tasks_view(self.work@);
        let ghost av = a@;
        let ghost k = self.hist@.len();
        self.work.push(Task::Un(op));
        self.work.push(Task::Ev(*a));
        proof {
            let w2 = tasks_view(self.work@);
            assert(w2 =~= w0.push(TaskV::Un(op)).push(TaskV::Ev(av)));
            let wu = w0.push(TaskV::Un(op));
            assert(wu.drop_last() =~= w0);
            assert(w2.drop_last() =~= wu);
            let wn = w0.push(TaskV::Ev(node));
            assert(wn.drop_last() =~= w0);
            let avail = self.vals@.len() as int;
            assert(shape(wn, avail));
            assert(shape(w0, avail + 1));
            assert(shape(w2, avail)) by {
                assert(shape(wu, avail + 1));
            }
            lemma_wm_push(w0, TaskV::Un(op));
            lemma_wm_push(wu, TaskV::Ev(av));
            lemma_wm_push(w0, TaskV::Ev(node));
            assert(esize(node) == 1 + esize(av)) by {
                match op {
                    UnOp::Neg => {},
                    UnOp::Fun(f) => {
                        match f {
                            Func::Abs => {},
                            Func::Floor => {},
                            Func::Log => {},
                            Func::Ln => {},
                            Func::Sin => {},
                            Func::Cos => {},
                            Func::Tan => {},
                            Func::Arcsin => {},
                            Func::Arccos => {},
                            Func::Arctan => {},
                        }
                    },
                }
            }
            assert forall|h: Seq<(ReqV, u64)>|
                (h.len() >= k && h.take(k as int) == self.hist@) implies run_work(
                w2,
                self.vals@,
                self.env@,
                h,
                k,
            ) == eval_with(self.e0@, self.env0@, h, 0) by {
                assert(run_work(wn, self.vals@, self.env@, h, k) == eval_with(
                    self.e0@,
                    self.env0@,
                    h,
                    0,
                ));
                assert(wn.last() == TaskV::Ev(node));
                assert(wn.drop_last() == w0);
                match op {
                    UnOp::Neg => {},
                    UnOp::Fun(f) => {
                        match f {
                            Func::Abs => {},
                            Func::Floor => {},
                            Func::Log => {},
                            Func::Ln => {},
                            Func::Sin => {},
                            Func::Cos => {},
                            Func::Tan => {},
                            Func::Arcsin => {},
                            Func::Arccos => {},
                            Func::Arctan => {},
                        }
                    },
                }
                assert(run_work(wn, self.vals@, self.env@, h, k) == run_un(
                    w0,
                    op,
                    av,
                    self.vals@,
                    self.env@,
                    h,
                    k,
                ));
                assert(run_un(w0, op, av, self.vals@, self.env@, h, k) == run_work(
                    w0.push(TaskV::Un(op)).push(TaskV::Ev(av)),
                    self.vals@,
                    self.env@,
                    h,
                    k,
                ));
            }
        }
    }

    /// Handles one subtree unit of work that has just been taken off the
    /// stack: dispatches on the node, either continuing silently or handing
    /// a step to the driver.
    #[verifier::rlimit(100)]
    fn step_ev(&mut self, e: Expr) -> (r: Option<EvalStep>)
        requires
            old(self).mid_inv(TaskV::Ev(e@)),
        ensures
            final(self).hist@ == old(self).hist@,
            final(self).e0@ == old(self).e0@,
            final(self).env0@ == old(self).env0@,
            final(self).text@ == old(self).text@,
            match r {
                None => final(self).inv() && !final(self).wait@ && !final(self).fail@ && work_m(
                    tasks_view(final(self).work@),
                ) < work_m(tasks_view(old(self).work@).push(TaskV::Ev(e@))),
                Some(s) => match s {
                    EvalStep::Lit(lit) => final(self).inv() && final(self).wait@
                        && !final(self).fail@ && final(self).preq@ == ReqV::Lit(lit@),
                    EvalStep::Fail(err) => final(self).inv() && final(self).fail@ && (
                    err matches EvalError::UnknownVar(x) && eval_with(
                        final(self).e0@,
                        final(self).env0@,
                        final(self).hist@,
                        0,
                    ).res == RResV::Unknown(x@)),
                    _ => false,
                },
            },
    {
        let ghost w0 = tasks_view(self.work@);
        let ghost w_pre = w0.push(TaskV::Ev(e@));
        let ghost vals_pre = self.vals@;
        let ghost k = self.hist@.len();
        proof {
            lemma_push_parts(w0, TaskV::Ev(e@), w_pre);
            lemma_wm_push(w0, TaskV::Ev(e@));
        }
        match e {
            Expr::Num(lit) => {
                let ghost litv = lit@;
                proof {
                    self.wait@ = true;
                    self.preq@ = ReqV::Lit(litv);
                    assert(self.virt_work() =~= w_pre);
                    assert(self.virt_vals() =~= vals_pre);
                }
                Some(EvalStep::Lit(lit))
            },
            Expr::Ident(x) => {
                match self.env.get(x.as_str()) {
                    Some(v) => {
                        self.vals.push(v);
                        proof {
                            assert(shape(w0, vals_pre.len() as int + 1));
                            assert forall|h: Seq<(ReqV, u64)>|
                                (h.len() >= k && h.take(k as int) == self.hist@) implies run_work(
                                w0,
                                self.vals@,
                                self.env@,
                                h,
                                k,
                            ) == eval_with(self.e0@, self.env0@, h, 0) by {
                                assert(run_work(w_pre, vals_pre, self.env@, h, k) == eval_with(
                                    self.e0@,
                                    self.env0@,
                                    h,
                                    0,
                                ));
                            }
                        }
                        None
                    },
                    None => {
                        proof {
                            let h = self.hist@;
                            assert(h.take(k as int) =~= h);
                            assert(run_work(w_pre, vals_pre, self.env@, h, k) == eval_with(
                                self.e0@,
                                self.env0@,
                                h,
                                0,
                            ));
                            self.fail@ = true;
                        }
                        Some(EvalStep::Fail(EvalError::UnknownVar(x)))
                    },
                }
            },
            Expr::Assign(x, e1) => {
                let ghost xv = x@;
                let ghost e1v = (*e1)@;
                let ghost node = ExprV::Assign(xv, Box::new(e1v));
                self.work.push(Task::Store(x));
                self.work.push(Task::Ev(*e1));
                proof {
                    let w2 = tasks_view(self.work@);
                    assert(w2 =~= w0.push(TaskV::Store(xv)).push(TaskV::Ev(e1v)));
                    let ws = w0.push(TaskV::Store(xv));
                    assert(ws.drop_last() =~= w0);
                    assert(w2.drop_last() =~= ws);
                    let avail = self.vals@.len() as int;
                    assert(shape(w2, avail)) by {
                        assert(shape(ws, avail + 1));
                    }
                    lemma_wm_push(w0, TaskV::Store(xv));
                    lemma_wm_push(ws, TaskV::Ev(e1v));
                    assert forall|h: Seq<(ReqV, u64)>|
                        (h.len() >= k && h.take(k as int) == self.hist@) implies run_work(
                        w2,
                        self.vals@,
                        self.env@,
                        h,
                        k,
                    ) == eval_with(self.e0@, self.env0@, h, 0) by {
                        assert(run_work(w_pre, vals_pre, self.env@, h, k) == eval_with(
                            self.e0@,
                            self.env0@,
                            h,
                            0,
                        ));
                    }
                }
                None
            },
            Expr::Add(l, r) => {
                self.push_bin(BinOp::Add, l, r);
                None
            },
            Expr::Sub(l, r) => {
                self.push_bin(BinOp::Sub, l, r);
                None
            },
            Expr::Mul(l, r) => {
                self.push_bin(BinOp::Mul, l, r);
                None
            },
            Expr::Div(l, r) => {
                self.push_bin(BinOp::Div, l, r);
                None
            },
            Expr::Pow(l, r) => {
                self.push_bin(BinOp::Pow, l, r);
                None
            },
            Expr::Neg(a) => {
                self.push_un(UnOp::Neg, a);
                None
            },
            Expr::Abs(a) => {
                self.push_un(UnOp::Fun(Func::Abs), a);
                None
            },
            Expr::Floor(a) => {
                self.push_un(UnOp::Fun(Func::Floor), a);
                None
            },
            Expr::Log(a) => {
                self.push_un(UnOp::Fun(Func::Log), a);
                None
            },
            Expr::Ln(a) => {
                self.push_un(UnOp::Fun(Func::Ln), a);
                None
            },
            Expr::Sin(a) => {
                self.push_un(UnOp::Fun(Func::Sin), a);
                None
            },
            Expr::Cos(a) => {
                self.push_un(UnOp::Fun(Func::Cos), a);
                None
            },
            Expr::Tan(a) => {
                self.push_un(UnOp::Fun(Func::Tan), a);
                None
            },
            Expr::Arcsin(a) => {
                self.push_un(UnOp::Fun(Func::Arcsin), a);
                None
            },
            Expr::Arccos(a) => {
                self.push_un(UnOp::Fun(Func::Arccos), a);
                None
            },
            Expr::Arctan(a) => {
                self.push_un(UnOp::Fun(Func::Arctan), a);
                None
            },
        }
    }

    /// Runs the machine until it needs its caller: the result names a
    /// request (to be answered through [`Evaluation::supply`]), the finished
    /// value's bits, or the evaluation failure. Once finished, the recorded
    /// history determines the value and environment exactly, as
    /// [`eval_with`] states.
    #[verifier::rlimit(100)]
    pub fn advance(&mut self) -> (r: EvalStep)
        requires
            old(self).inv(),
            !old(self).waiting(),
            !old(self).failed(),
        ensures
            final(self).inv(),
            final(self).history() == old(self).history(),
            final(self).expr0() == old(self).expr0(),
            final(self).env_start() == old(self).env_start(),
            final(self).input_text() == old(self).input_text(),
            match r {
                EvalStep::Done(v) => final(self).finished() && final(self).value() == v
                    && eval_with(final(self).expr0(), final(self).env_start(), final(self).history(), 0)
                    == (ROut {
                    res: RResV::Val(v),
                    env: final(self).cur_env(),
                    used: final(self).history().len(),
                }),
                EvalStep::Fail(err) => final(self).failed() && (err matches EvalError::UnknownVar(x)
                    && eval_with(
                    final(self).expr0(),
                    final(self).env_start(),
                    final(self).history(),
                    0,
                ).res == RResV::Unknown(x@)),
                EvalStep::Lit(lit) => final(self).waiting() && !final(self).failed()
                    && final(self).pending() == ReqV::Lit(lit@),
                EvalStep::Bin(op, a, b) => final(self).waiting() && !final(self).failed()
                    && final(self).pending() == ReqV::Bin(op, a, b),
                EvalStep::Un(op, a) => final(self).waiting() && !final(self).failed()
                    && final(self).pending() == ReqV::Un(op, a),
            },
    {
        loop
            invariant
                self.inv(),
                !self.waiting(),
                !self.failed(),
                self.history() == old(self).history(),
                self.expr0() == old(self).expr0(),
                self.env_start() == old(self).env_start(),
                self.input_text() == old(self).input_text(),
            decreases work_m(tasks_view(self.work@)),
        {
            let ghost w_pre = tasks_view(self.work@);
            let ghost vals_pre = self.vals@;
            let ghost k = self.hist@.len();
            proof {
                assert(self.hist@.take(k as int) =~= self.hist@);
            }
            match self.work.pop() {
                None => {
                    proof {
                        let h = self.hist@;
                        assert(run_work(w_pre, vals_pre, self.env@, h, k) == eval_with(
                            self.e0@,
                            self.env0@,
                            h,
                            0,
                        ));
                        assert(w_pre.len() == 0);
                        assert(vals_pre.len() == 1);
                    }
                    let v = self.vals[0];
                    return EvalStep::Done(v);
                },
                Some(task) => {
                    match task {
                        Task::Ev(e) => {
                            proof {
                                assert(tasks_view(self.work@).push(TaskV::Ev(e@)) =~= w_pre);
                            }
                            match self.step_ev(e) {
                                None => (),
                                Some(s) => {
                                    return s;
                                },
                            }
                        },
                        Task::Bin(op) => {
                            proof {
                                assert(tasks_view(self.work@).push(TaskV::Bin(op)) =~= w_pre);
                                lemma_push_parts(tasks_view(self.work@), TaskV::Bin(op), w_pre);
                                assert(vals_pre.len() >= 2);
                            }
                            let b = match self.vals.pop() {
                                Some(v) => v,
                                None => vstd::pervasive::unreached(),
                            };
                            let a = match self.vals.pop() {
                                Some(v) => v,
                                None => vstd::pervasive::unreached(),
                            };
                            proof {
                                self.wait@ = true;
                                self.preq@ = ReqV::Bin(op, a, b);
                                assert(self.virt_work() =~= w_pre);
                                assert(self.virt_vals() =~= vals_pre) by {
                                    assert(vals_pre.drop_last().drop_last() =~= self.vals@);
                                    assert(self.vals@.push(a) =~= vals_pre.drop_last());
                                    assert(self.vals@.push(a).push(b) =~= vals_pre);
                                }
                            }
                            return EvalStep::Bin(op, a, b);
                        },
                        Task::Un(op) => {
                            proof {
                                assert(tasks_view(self.work@).push(TaskV::Un(op)) =~= w_pre);
                                lemma_push_parts(tasks_view(self.work@), TaskV::Un(op), w_pre);
                                assert(vals_pre.len() >= 1);
                            }
                            let a = match self.vals.pop() {
                                Some(v) => v,
                                None => vstd::pervasive::unreached(),
                            };
                            proof {
                                self.wait@ = true;
                                self.preq@ = ReqV::Un(op, a);
                                assert(self.virt_work() =~= w_pre);
                                assert(self.virt_vals() =~= vals_pre) by {
                                    assert(self.vals@.push(a) =~= vals_pre);
                                }
                            }
                            return EvalStep::Un(op, a);
                        },
                        Task::Store(x) => {
                            proof {
                                assert(tasks_view(self.work@).push(TaskV::Store(x@)) =~= w_pre);
                                lemma_push_parts(tasks_view(self.work@), TaskV::Store(x@), w_pre);
                                assert(vals_pre.len() >= 1);
                            }
                            let last_i = self.vals.len() - 1;
                            let v = self.vals[last_i];
                            let ghost w = tasks_view(self.work@);
                            let ghost env_pre = self.env@;
                            let ghost xv = x@;
                            self.env.insert(x, v);
                            proof {
                                lemma_wm_push(w, TaskV::Store(xv));
                                assert forall|h: Seq<(ReqV, u64)>|
                                    (h.len() >= k && h.take(k as int) == self.hist@) implies
                                    run_work(w, self.vals@, self.env@, h, k) == eval_with(
                                    self.e0@,
                                    self.env0@,
                                    h,
                                    0,
                                ) by {
                                    assert(run_work(w_pre, vals_pre, env_pre, h, k) == eval_with(
                                        self.e0@,
                                        self.env0@,
                                        h,
                                        0,
                                    ));
                                    assert(vals_pre.last() == v);
                                }
                            }
                        },
                    }
                },
            }
        }
    }


    /// Attaches the text this evaluation answers for, kept for the log.
    pub fn set_text(&mut self, text: String)
        ensures
            final(self).inv() == old(self).inv(),
            final(self).waiting() == old(self).waiting(),
            final(self).failed() == old(self).failed(),
            final(self).finished() == old(self).finished(),
            final(self).history() == old(self).history(),
            final(self).expr0() == old(self).expr0(),
            final(self).env_start() == old(self).env_start(),
            final(self).cur_env() == old(self).cur_env(),
            final(self).value() == old(self).value(),
            final(self).input_text() == text@,
    {
        self.text = text;
    }

    /// Surrenders the finished machine: the value's bits, the environment
    /// with every assignment applied, and the text evaluated.
    pub fn into_parts(self) -> (r: (u64, Environment, String))
        requires
            self.inv(),
            self.finished(),
        ensures
            r.0 == self.value(),
            r.1@ == self.cur_env(),
            r.1.wf(),
            r.2@ == self.input_text(),
    {
        let Evaluation { work: _, vals, env, text, .. } = self;
        proof {
            assert(vals@.len() == 1);
        }
        let v = vals[0];
        (v, env, text)
    }
}

} // verus!
