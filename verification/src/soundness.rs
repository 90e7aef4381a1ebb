//! Type soundness: a program that type checks without errors never gets stuck
//! when it runs. Every name it reads is bound and every operand has the kind
//! its operator needs; the one way a run can stop early is a division by zero.

use vstd::prelude::*;

use crate::ast::{Expr, Node, StmtView};
use crate::interpreter::{Outcome, Value, eval, exec_stmt, exec_stmts, program_run};
use crate::type_checker::{
    Type, check_expr, check_stmt, check_stmts, condition_errors, type_errors,
};

verus! {

pub open spec fn type_of(v: Value) -> Type {
    match v {
        Value::Int(_) => Type::Int,
        Value::Bool(_) => Type::Bool,
    }
}

/// Every name that `types` binds is bound in `values`, to a value of its type.
pub open spec fn agrees(values: Map<Seq<char>, Value>, types: Map<Seq<char>, Type>) -> bool {
    forall|k: Seq<char>|
        #[trigger] types.contains_key(k) ==> values.contains_key(k) && type_of(values[k])
            == types[k]
}

/// An expression that gets no type has been reported.
pub proof fn untyped_expressions_are_reported(e: Node<Expr>, types: Map<Seq<char>, Type>)
    ensures
        check_expr(e, types).0 is None ==> check_expr(e, types).1.len() > 0,
    decreases e,
{
    match e.inner {
        Expr::Neg(operand) => {
            untyped_expressions_are_reported(*operand, types);
        },
        Expr::Binary { left, right, .. } => {
            untyped_expressions_are_reported(*left, types);
            untyped_expressions_are_reported(*right, types);
        },
        Expr::Compare { left, right, .. } => {
            untyped_expressions_are_reported(*left, types);
            untyped_expressions_are_reported(*right, types);
        },
        _ => {},
    }
}

/// An expression of type `t` evaluates to a value of type `t`, or divides by zero.
pub proof fn lemma_eval_typed(
    e: Node<Expr>,
    values: Map<Seq<char>, Value>,
    types: Map<Seq<char>, Type>,
)
    requires
        agrees(values, types),
        check_expr(e, types).0 is Some,
    ensures
        match eval(e, values) {
            Outcome::Value(v) => type_of(v) == check_expr(e, types).0->0,
            Outcome::DivisionByZero(_) => true,
            Outcome::Stuck => false,
        },
    decreases e,
{
    match e.inner {
        Expr::Neg(operand) => {
            lemma_eval_typed(*operand, values, types);
        },
        Expr::Binary { left, right, .. } => {
            lemma_eval_typed(*left, values, types);
            lemma_eval_typed(*right, values, types);
        },
        Expr::Compare { left, right, .. } => {
            lemma_eval_typed(*left, values, types);
            lemma_eval_typed(*right, values, types);
        },
        _ => {},
    }
}

pub proof fn lemma_stmt_sound(
    s: Node<StmtView>,
    values: Map<Seq<char>, Value>,
    types: Map<Seq<char>, Type>,
)
    requires
        agrees(values, types),
        check_stmt(s, types).1.len() == 0,
    ensures
        !(exec_stmt(s, values).status is Stuck),
        exec_stmt(s, values).status is Done ==> agrees(
            exec_stmt(s, values).env,
            check_stmt(s, types).0,
        ),
    decreases s,
{
    match s.inner {
        StmtView::Let { name, value, .. } => {
            untyped_expressions_are_reported(value, types);
            lemma_eval_typed(value, values, types);
            let t = check_expr(value, types).0->0;
            match eval(value, values) {
                Outcome::Value(v) => {
                    let nv = values.insert(name@, v);
                    let nt = types.insert(name@, t);
                    assert forall|k: Seq<char>| #[trigger] nt.contains_key(k) implies nv.contains_key(
                        k,
                    ) && type_of(nv[k]) == nt[k] by {
                        if k != name@ {
                            assert(types.contains_key(k));
                        }
                    }
                },
                _ => {},
            }
        },
        StmtView::Expr(e) => {
            untyped_expressions_are_reported(e, types);
            lemma_eval_typed(e, values, types);
        },
        StmtView::If { condition, then_block, else_block } => {
            let (t, d) = check_expr(condition, types);
            let d_then = check_stmts(then_block, types).1;
            let d_else = match else_block {
                Some(b) => check_stmts(b, types).1,
                None => Seq::empty(),
            };
            assert(check_stmt(s, types).1 == d + condition_errors(t, condition) + d_then + d_else);
            assert(d.len() == 0);
            assert(condition_errors(t, condition).len() == 0);
            assert(d_then.len() == 0);
            assert(d_else.len() == 0);
            untyped_expressions_are_reported(condition, types);
            lemma_eval_typed(condition, values, types);
            lemma_stmts_sound(then_block, values, types);
            match else_block {
                Some(b) => {
                    lemma_stmts_sound(b, values, types);
                },
                None => {},
            }
        },
        StmtView::Block(b) => {
            lemma_stmts_sound(b, values, types);
        },
    }
}

pub proof fn lemma_stmts_sound(
    ss: Seq<Node<StmtView>>,
    values: Map<Seq<char>, Value>,
    types: Map<Seq<char>, Type>,
)
    requires
        agrees(values, types),
        check_stmts(ss, types).1.len() == 0,
    ensures
        !(exec_stmts(ss, values).status is Stuck),
        exec_stmts(ss, values).status is Done ==> agrees(
            exec_stmts(ss, values).env,
            check_stmts(ss, types).0,
        ),
    decreases ss,
{
    if ss.len() > 0 {
        let (e1, d1) = check_stmts(ss.drop_last(), types);
        let (e2, d2) = check_stmt(ss.last(), e1);
        assert(check_stmts(ss, types).1 == d1 + d2);
        assert(d1.len() == 0 && d2.len() == 0);
        lemma_stmts_sound(ss.drop_last(), values, types);
        let first = exec_stmts(ss.drop_last(), values);
        if first.status is Done {
            lemma_stmt_sound(ss.last(), first.env, e1);
        }
    }
}

/// A program that type checks without errors never gets stuck: running it
/// either finishes or stops at a division by zero.
pub proof fn well_typed_programs_do_not_get_stuck(stmts: Seq<Node<StmtView>>)
    requires
        type_errors(stmts).len() == 0,
    ensures
        !(program_run(stmts).status is Stuck),
{
    lemma_stmts_sound(stmts, Map::empty(), Map::empty());
}

} // verus!
