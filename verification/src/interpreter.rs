//! The interpreter: runs statements in order, printing the value of every
//! expression statement. Integer arithmetic wraps around; dividing by zero stops
//! the run with an error at the operator.

use vstd::prelude::*;
use vstd::wrapping::i64_specs;

use crate::ast::{
    BinOp, Block, CmpOp, Expr, Node, Program, Stmt, StmtView, lemma_stmts_view_index, stmt_view,
    stmts_view,
};
use crate::diagnostics::{Diagnostic, Span, error_at};
use crate::env::{Env, extends};
use crate::text::{push_signed_decimal, signed_decimal};

verus! {

#[derive(Debug, Clone, Copy, PartialEq, Eq, Structural)]
pub enum Value {
    Int(i64),
    Bool(bool),
}

/// How a value is printed.
pub open spec fn value_text(v: Value) -> Seq<char> {
    match v {
        Value::Int(n) => signed_decimal(n as int),
        Value::Bool(b) => if b {
            "true"@
        } else {
            "false"@
        },
    }
}

impl Value {
    /// The text that printing the value writes.
    pub fn to_text(&self) -> (s: String)
        ensures
            s@ == value_text(*self),
    {
        match self {
            Value::Int(n) => {
                let mut s = String::new();
                push_signed_decimal(&mut s, *n);
                assert(s@ =~= value_text(*self));
                s
            },
            Value::Bool(b) => if *b {
                String::from_str("true")
            } else {
                String::from_str("false")
            },
        }
    }
}

/// Division that rounds toward zero, as Rust's integer division does.
pub open spec fn truncated_quotient(a: int, b: int) -> int {
    let q = (if a < 0 {
        -a
    } else {
        a
    }) / (if b < 0 {
        -b
    } else {
        b
    });
    if (a < 0) != (b < 0) {
        -q
    } else {
        q
    }
}

/// `i64::wrapping_div`: the truncated quotient, except that `MIN / -1` wraps to `MIN`.
pub open spec fn wrapping_div(a: i64, b: i64) -> i64 {
    if b == -1 {
        i64_specs::wrapping_sub(0, a)
    } else {
        truncated_quotient(a as int, b as int) as i64
    }
}

/// What an arithmetic operator computes on two integers (`Div` for `b != 0`).
pub open spec fn arithmetic(op: BinOp, a: i64, b: i64) -> i64 {
    match op {
        BinOp::Add => i64_specs::wrapping_add(a, b),
        BinOp::Sub => i64_specs::wrapping_sub(a, b),
        BinOp::Mul => i64_specs::wrapping_mul(a, b),
        BinOp::Div => wrapping_div(a, b),
    }
}

pub open spec fn comparison(op: CmpOp, a: i64, b: i64) -> bool {
    match op {
        CmpOp::Eq => a == b,
        CmpOp::Ne => a != b,
        CmpOp::Lt => a < b,
        CmpOp::Le => a <= b,
        CmpOp::Gt => a > b,
        CmpOp::Ge => a >= b,
    }
}

/// What evaluating an expression comes to: a value, a division by zero at the
/// operator's span, or nowhere (an unbound name, or an operand of the wrong kind).
pub enum Outcome {
    Value(Value),
    DivisionByZero(Span),
    Stuck,
}

pub open spec fn eval(e: Node<Expr>, env: Map<Seq<char>, Value>) -> Outcome
    decreases e,
{
    match e.inner {
        Expr::Integer(n) => Outcome::Value(Value::Int(n)),
        Expr::Bool(b) => Outcome::Value(Value::Bool(b)),
        Expr::Ident(name) => if env.contains_key(name@) {
            Outcome::Value(env[name@])
        } else {
            Outcome::Stuck
        },
        Expr::Neg(operand) => match eval(*operand, env) {
            Outcome::Value(Value::Int(v)) => Outcome::Value(Value::Int(i64_specs::wrapping_sub(0, v))),
            Outcome::Value(Value::Bool(_)) => Outcome::Stuck,
            other => other,
        },
        Expr::Binary { op, op_span, left, right } => match eval(*left, env) {
            Outcome::Value(Value::Int(l)) => match eval(*right, env) {
                Outcome::Value(Value::Int(r)) => if op == BinOp::Div && r == 0 {
                    Outcome::DivisionByZero(op_span)
                } else {
                    Outcome::Value(Value::Int(arithmetic(op, l, r)))
                },
                Outcome::Value(Value::Bool(_)) => Outcome::Stuck,
                other => other,
            },
            Outcome::Value(Value::Bool(_)) => Outcome::Stuck,
            other => other,
        },
        Expr::Compare { op, left, right, .. } => match eval(*left, env) {
            Outcome::Value(Value::Int(l)) => match eval(*right, env) {
                Outcome::Value(Value::Int(r)) => Outcome::Value(Value::Bool(comparison(op, l, r))),
                Outcome::Value(Value::Bool(_)) => Outcome::Stuck,
                other => other,
            },
            Outcome::Value(Value::Bool(_)) => Outcome::Stuck,
            other => other,
        },
    }
}

/// How a run ended.
pub enum Status {
    Done,
    Failed(Span),
    Stuck,
}

/// A run: the bindings at its end, the values it printed, and how it ended.
pub struct Run {
    pub env: Map<Seq<char>, Value>,
    pub out: Seq<Value>,
    pub status: Status,
}

pub open spec fn run(env: Map<Seq<char>, Value>, out: Seq<Value>, status: Status) -> Run {
    Run { env, out, status }
}

/// A block runs in a scope of its own: the bindings made inside are forgotten.
pub open spec fn scoped(r: Run, env: Map<Seq<char>, Value>) -> Run {
    run(env, r.out, r.status)
}

pub open spec fn exec_stmt(s: Node<StmtView>, env: Map<Seq<char>, Value>) -> Run
    decreases s,
{
    match s.inner {
        StmtView::Let { name, value, .. } => match eval(value, env) {
            Outcome::Value(v) => run(env.insert(name@, v), Seq::empty(), Status::Done),
            Outcome::DivisionByZero(sp) => run(env, Seq::empty(), Status::Failed(sp)),
            Outcome::Stuck => run(env, Seq::empty(), Status::Stuck),
        },
        StmtView::Expr(e) => match eval(e, env) {
            Outcome::Value(v) => run(env, seq![v], Status::Done),
            Outcome::DivisionByZero(sp) => run(env, Seq::empty(), Status::Failed(sp)),
            Outcome::Stuck => run(env, Seq::empty(), Status::Stuck),
        },
        StmtView::If { condition, then_block, else_block } => match eval(condition, env) {
            Outcome::Value(Value::Bool(true)) => scoped(exec_stmts(then_block, env), env),
            Outcome::Value(Value::Bool(false)) => match else_block {
                Some(b) => scoped(exec_stmts(b, env), env),
                None => run(env, Seq::empty(), Status::Done),
            },
            Outcome::Value(Value::Int(_)) => run(env, Seq::empty(), Status::Stuck),
            Outcome::DivisionByZero(sp) => run(env, Seq::empty(), Status::Failed(sp)),
            Outcome::Stuck => run(env, Seq::empty(), Status::Stuck),
        },
        StmtView::Block(b) => scoped(exec_stmts(b, env), env),
    }
}

pub open spec fn exec_stmts(ss: Seq<Node<StmtView>>, env: Map<Seq<char>, Value>) -> Run
    decreases ss,
{
    if ss.len() == 0 {
        run(env, Seq::empty(), Status::Done)
    } else {
        let first = exec_stmts(ss.drop_last(), env);
        if first.status is Done {
            let last = exec_stmt(ss.last(), first.env);
            run(last.env, first.out + last.out, last.status)
        } else {
            first
        }
    }
}

/// The run of a program from no bindings.
pub open spec fn program_run(stmts: Seq<Node<StmtView>>) -> Run {
    exec_stmts(stmts, Map::empty())
}

/// Once a run of the first `k` statements has stopped, running more of them
/// changes nothing.
pub proof fn stopped_runs_stay_stopped(ss: Seq<Node<StmtView>>, env: Map<Seq<char>, Value>, k: int, m: int)
    requires
        0 <= k <= m <= ss.len(),
        !(exec_stmts(ss.take(k), env).status is Done),
    ensures
        exec_stmts(ss.take(m), env) == exec_stmts(ss.take(k), env),
    decreases m - k,
{
    if m > k {
        stopped_runs_stay_stopped(ss, env, k, m - 1);
        assert(ss.take(m).drop_last() =~= ss.take(m - 1));
    }
}

fn divide(a: i64, b: i64) -> (q: i64)
    requires
        b != 0,
    ensures
        q == wrapping_div(a, b),
{
    if b == -1 {
        0i64.wrapping_sub(a)
    } else if b > 0 {
        a / b
    } else if b == i64::MIN {
        if a == i64::MIN {
            1
        } else {
            0
        }
    } else {
        let q = a / (-b);
        assert(q == truncated_quotient(a as int, -b as int));
        proof {
            let m: int = if a < 0 {
                -(a as int)
            } else {
                a as int
            };
            vstd::arithmetic::div_mod::lemma_div_is_ordered_by_denominator(m, 2, -b as int);
        }
        -q
    }
}

fn division_by_zero(span: Span) -> (d: Diagnostic)
    ensures
        d@ == error_at("division by zero"@, span),
{
    Diagnostic::error(String::from_str("division by zero"), span)
}

/// Runs a program from no bindings. The value of each expression statement is
/// appended to `out`, in order. A division by zero stops the run with an error
/// at the operator.
pub fn interpret(program: &Program, out: &mut Vec<Value>) -> (r: Result<(), Diagnostic>)
    requires
        !(program_run(program.statements()).status is Stuck),
    ensures
        final(out)@ == old(out)@ + program_run(program.statements()).out,
        match program_run(program.statements()).status {
            Status::Done => r is Ok,
            Status::Failed(sp) => r matches Err(d) && d@ == error_at("division by zero"@, sp),
            Status::Stuck => false,
        },
{
    let mut interp = Interpreter::new();
    interp.run_stmts(&program.stmts, out)
}

struct Interpreter {
    env: Env<Value>,
}

impl Interpreter {
    fn new() -> (i: Interpreter)
        ensures
            i.env.map() == Map::<Seq<char>, Value>::empty(),
    {
        Interpreter { env: Env::new() }
    }

    fn eval_expr(&self, node: &Node<Expr>) -> (r: Result<Value, Diagnostic>)
        requires
            !(eval(*node, self.env.map()) is Stuck),
        ensures
            match eval(*node, self.env.map()) {
                Outcome::Value(v) => r == Ok::<Value, Diagnostic>(v),
                Outcome::DivisionByZero(sp) => r matches Err(d) && d@ == error_at(
                    "division by zero"@,
                    sp,
                ),
                Outcome::Stuck => false,
            },
        decreases node,
    {
        match &node.inner {
            Expr::Integer(n) => Ok(Value::Int(*n)),
            Expr::Bool(b) => Ok(Value::Bool(*b)),
            Expr::Ident(name) => match self.env.get(name) {
                Some(v) => Ok(v),
                // An unbound name gets the run stuck, which the precondition rules out.
                None => Ok(Value::Int(0)),
            },
            Expr::Neg(operand) => {
                let v = self.eval_expr(operand)?;
                match v {
                    Value::Int(n) => Ok(Value::Int(0i64.wrapping_sub(n))),
                    // A boolean operand gets the run stuck, which the precondition rules out.
                    Value::Bool(b) => Ok(Value::Bool(b)),
                }
            },
            Expr::Binary { op, op_span, left, right } => {
                let l = match self.eval_expr(left)? {
                    Value::Int(l) => l,
                    Value::Bool(_) => 0,
                };
                let r = match self.eval_expr(right)? {
                    Value::Int(r) => r,
                    Value::Bool(_) => 0,
                };
                let result = match op {
                    BinOp::Add => l.wrapping_add(r),
                    BinOp::Sub => l.wrapping_sub(r),
                    BinOp::Mul => l.wrapping_mul(r),
                    BinOp::Div => {
                        if r == 0 {
                            return Err(division_by_zero(*op_span));
                        }
                        divide(l, r)
                    },
                };
                Ok(Value::Int(result))
            },
            Expr::Compare { op, left, right, .. } => {
                let l = match self.eval_expr(left)? {
                    Value::Int(l) => l,
                    Value::Bool(_) => 0,
                };
                let r = match self.eval_expr(right)? {
                    Value::Int(r) => r,
                    Value::Bool(_) => 0,
                };
                let b = match op {
                    CmpOp::Eq => l == r,
                    CmpOp::Ne => l != r,
                    CmpOp::Lt => l < r,
                    CmpOp::Le => l <= r,
                    CmpOp::Gt => l > r,
                    CmpOp::Ge => l >= r,
                };
                Ok(Value::Bool(b))
            },
        }
    }

    fn run_stmts(&mut self, stmts: &Vec<Node<Stmt>>, out: &mut Vec<Value>) -> (r: Result<(), Diagnostic>)
        requires
            !(exec_stmts(stmts_view(stmts@), old(self).env.map()).status is Stuck),
        ensures
            ({
                let spec = exec_stmts(stmts_view(stmts@), old(self).env.map());
                &&& final(out)@ == old(out)@ + spec.out
                &&& final(self).env.map() == spec.env
                &&& spec.status is Done ==> r is Ok
                &&& spec.status matches Status::Failed(sp) ==> r matches Err(d) && d@ == error_at(
                    "division by zero"@,
                    sp,
                )
            }),
            extends(final(self).env.log(), old(self).env.log()),
        decreases stmts,
    {
        let ghost ss = stmts_view(stmts@);
        let ghost env0 = self.env.map();
        let ghost out0 = out@;
        proof {
            lemma_stmts_view_index(stmts@);
            assert(ss.take(0) =~= Seq::<Node<StmtView>>::empty());
            assert(out@ =~= out0 + Seq::<Value>::empty());
        }
        let mut i: usize = 0;
        while i < stmts.len()
            invariant
                i <= stmts.len(),
                ss == stmts_view(stmts@),
                ss.len() == stmts@.len(),
                forall|k: int| 0 <= k < stmts@.len() ==> #[trigger] ss[k] == stmt_view(stmts@[k]),
                exec_stmts(ss.take(i as int), env0).status is Done,
                exec_stmts(ss.take(i as int), env0).env == self.env.map(),
                out@ == out0 + exec_stmts(ss.take(i as int), env0).out,
                !(exec_stmts(ss, env0).status is Stuck),
                extends(self.env.log(), old(self).env.log()),
                env0 == old(self).env.map(),
                out0 == old(out)@,
            decreases stmts.len() - i,
        {
            proof {
                assert(ss.take(i + 1).drop_last() =~= ss.take(i as int));
                assert(ss.take(i + 1).last() == stmt_view(stmts@[i as int]));
                if !(exec_stmts(ss.take(i + 1), env0).status is Done) {
                    stopped_runs_stay_stopped(ss, env0, i + 1, ss.len() as int);
                    assert(ss.take(ss.len() as int) =~= ss);
                }
            }
            let ghost before = out@;
            let step = self.run_stmt(&stmts[i], out);
            proof {
                let first = exec_stmts(ss.take(i as int), env0);
                let last = exec_stmt(stmt_view(stmts@[i as int]), first.env);
                assert(out@ =~= out0 + exec_stmts(ss.take(i + 1), env0).out);
            }
            match step {
                Ok(()) => {},
                Err(d) => {
                    proof {
                        stopped_runs_stay_stopped(ss, env0, i + 1, ss.len() as int);
                        assert(ss.take(ss.len() as int) =~= ss);
                    }
                    return Err(d);
                },
            }
            i = i + 1;
        }
        assert(ss.take(stmts.len() as int) =~= ss);
        Ok(())
    }

    fn run_block(&mut self, block: &Block, out: &mut Vec<Value>) -> (r: Result<(), Diagnostic>)
        requires
            !(exec_stmts(stmts_view(block.stmts@), old(self).env.map()).status is Stuck),
        ensures
            ({
                let spec = exec_stmts(stmts_view(block.stmts@), old(self).env.map());
                &&& final(out)@ == old(out)@ + spec.out
                &&& spec.status is Done ==> r is Ok
                &&& spec.status matches Status::Failed(sp) ==> r matches Err(d) && d@ == error_at(
                    "division by zero"@,
                    sp,
                )
            }),
            final(self).env.log() == old(self).env.log(),
            final(self).env.map() == old(self).env.map(),
        decreases block,
    {
        let mark = self.env.depth();
        let r = self.run_stmts(&block.stmts, out);
        self.env.truncate(mark);
        r
    }

    fn run_stmt(&mut self, node: &Node<Stmt>, out: &mut Vec<Value>) -> (r: Result<(), Diagnostic>)
        requires
            !(exec_stmt(stmt_view(*node), old(self).env.map()).status is Stuck),
        ensures
            ({
                let spec = exec_stmt(stmt_view(*node), old(self).env.map());
                &&& final(out)@ == old(out)@ + spec.out
                &&& final(self).env.map() == spec.env
                &&& spec.status is Done ==> r is Ok
                &&& spec.status matches Status::Failed(sp) ==> r matches Err(d) && d@ == error_at(
                    "division by zero"@,
                    sp,
                )
            }),
            extends(final(self).env.log(), old(self).env.log()),
        decreases node,
    {
        match &node.inner {
            Stmt::Let { name, value, .. } => {
                let v = self.eval_expr(value)?;
                self.env.insert(name.clone(), v);
                assert(out@ =~= old(out)@ + Seq::<Value>::empty());
                Ok(())
            },
            Stmt::Expr(e) => {
                let v = self.eval_expr(e)?;
                out.push(v);
                assert(out@ =~= old(out)@ + seq![v]);
                Ok(())
            },
            Stmt::If { condition, then_block, else_block } => {
                let c = self.eval_expr(condition)?;
                let taken = match c {
                    Value::Bool(b) => b,
                    Value::Int(_) => false,
                };
                if taken {
                    self.run_block(then_block, out)
                } else {
                    match else_block {
                        Some(b) => self.run_block(b, out),
                        None => {
                            assert(out@ =~= old(out)@ + Seq::<Value>::empty());
                            Ok(())
                        },
                    }
                }
            },
            Stmt::Block(b) => self.run_block(b, out),
        }
    }
}


/// A block, or an `if` with its blocks, leaves the values of names as they were.
pub proof fn blocks_keep_values(s: Node<StmtView>, env: Map<Seq<char>, Value>)
    requires
        s.inner is If || s.inner is Block,
    ensures
        exec_stmt(s, env).env == env,
{
}

/// A comparison of two integers comes out true exactly when they stand in the
/// order that its operator names.
pub proof fn comparisons_follow_integer_order(
    op: CmpOp,
    op_span: Span,
    left: Node<Expr>,
    right: Node<Expr>,
    span: Span,
    env: Map<Seq<char>, Value>,
    a: i64,
    b: i64,
)
    requires
        eval(left, env) == Outcome::Value(Value::Int(a)),
        eval(right, env) == Outcome::Value(Value::Int(b)),
    ensures
        ({
            let r = eval(
                (Node {
                    inner: Expr::Compare { op, op_span, left: Box::new(left), right: Box::new(right) },
                    span,
                }),
                env,
            );
            &&& op == CmpOp::Eq ==> r == Outcome::Value(Value::Bool(a == b))
            &&& op == CmpOp::Ne ==> r == Outcome::Value(Value::Bool(a != b))
            &&& op == CmpOp::Lt ==> r == Outcome::Value(Value::Bool(a < b))
            &&& op == CmpOp::Le ==> r == Outcome::Value(Value::Bool(a <= b))
            &&& op == CmpOp::Gt ==> r == Outcome::Value(Value::Bool(a > b))
            &&& op == CmpOp::Ge ==> r == Outcome::Value(Value::Bool(a >= b))
        }),
{
}

/// Arithmetic on two integers: `+`, `-` and `*` give the exact sum, difference
/// and product whenever it fits in `i64`; `/` by a positive number rounds toward
/// zero; `/` by zero stops the evaluation at the operator.
pub proof fn arithmetic_on_integers(
    op: BinOp,
    op_span: Span,
    left: Node<Expr>,
    right: Node<Expr>,
    span: Span,
    env: Map<Seq<char>, Value>,
    a: i64,
    b: i64,
)
    requires
        eval(left, env) == Outcome::Value(Value::Int(a)),
        eval(right, env) == Outcome::Value(Value::Int(b)),
    ensures
        ({
            let r = eval(
                (Node {
                    inner: Expr::Binary { op, op_span, left: Box::new(left), right: Box::new(right) },
                    span,
                }),
                env,
            );
            &&& op == BinOp::Add && i64::MIN <= a + b <= i64::MAX ==> r == Outcome::Value(
                Value::Int((a + b) as i64),
            )
            &&& op == BinOp::Sub && i64::MIN <= a - b <= i64::MAX ==> r == Outcome::Value(
                Value::Int((a - b) as i64),
            )
            &&& op == BinOp::Mul && i64::MIN <= a * b <= i64::MAX ==> r == Outcome::Value(
                Value::Int((a * b) as i64),
            )
            &&& op == BinOp::Div && b == 0 ==> r == Outcome::DivisionByZero(op_span)
            &&& op == BinOp::Div && b > 0 && a >= 0 ==> r == Outcome::Value(Value::Int(((a as int) / (b as int)) as i64))
            &&& op == BinOp::Div && b > 0 && a < 0 ==> r == Outcome::Value(
                Value::Int((-((-(a as int)) / (b as int))) as i64),
            )
        }),
{
    if op == BinOp::Mul && i64::MIN <= a * b <= i64::MAX {
        let v = a * b;
        assert(i64_specs::signed_crop(v) == v) by (nonlinear_arith)
            requires
                i64::MIN <= v <= i64::MAX,
        {
        }
    }
    if b > 0 {
        let m: int = if a < 0 { -(a as int) } else { a as int };
        let d: int = b as int;
        assert(0 <= m / d <= m) by (nonlinear_arith)
            requires
                d > 0,
                m >= 0,
        {
        }
    }
}

} // verus!
