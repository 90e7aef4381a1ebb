//! The type checker: every expression is `Int` or `Bool`; operators take `Int`
//! operands, comparisons give `Bool`, and an `if` condition must be `Bool`.
//! Bindings made inside a block are forgotten when the block ends.

use vstd::prelude::*;

use crate::ast::{
    BinOp, Block, CmpOp, Expr, Node, Program, Stmt, StmtView, lemma_stmts_view_index, stmt_view,
    stmts_view,
};
use crate::diagnostics::{Diagnostic, DiagnosticView, Span, error_at, push_diagnostic, views};
use crate::env::{Env, extends};

verus! {

#[derive(Debug, Clone, Copy, PartialEq, Eq, Structural)]
pub enum Type {
    Int,
    Bool,
}

/// What `{:?}` writes for a type.
pub open spec fn type_text(t: Type) -> Seq<char> {
    match t {
        Type::Int => "Int"@,
        Type::Bool => "Bool"@,
    }
}

/// What `{:?}` writes for an arithmetic operator.
pub open spec fn binop_name(op: BinOp) -> Seq<char> {
    match op {
        BinOp::Add => "Add"@,
        BinOp::Sub => "Sub"@,
        BinOp::Mul => "Mul"@,
        BinOp::Div => "Div"@,
    }
}

/// What `{:?}` writes for a comparison operator.
pub open spec fn cmpop_name(op: CmpOp) -> Seq<char> {
    match op {
        CmpOp::Eq => "Eq"@,
        CmpOp::Ne => "Ne"@,
        CmpOp::Lt => "Lt"@,
        CmpOp::Le => "Le"@,
        CmpOp::Gt => "Gt"@,
        CmpOp::Ge => "Ge"@,
    }
}

pub open spec fn operand_message(op: Seq<char>, side: Seq<char>, t: Type) -> Seq<char> {
    "operator '"@ + op + "' requires Int on "@ + side + ", got "@ + type_text(t)
}

/// The type of an expression in `env`, or `None`, and the errors found in it.
pub open spec fn check_expr(e: Node<Expr>, env: Map<Seq<char>, Type>) -> (Option<Type>, Seq<
    DiagnosticView,
>)
    decreases e,
{
    match e.inner {
        Expr::Integer(_) => (Some(Type::Int), Seq::empty()),
        Expr::Bool(_) => (Some(Type::Bool), Seq::empty()),
        Expr::Ident(name) => if env.contains_key(name@) {
            (Some(env[name@]), Seq::empty())
        } else {
            (
                None,
                seq![
                    error_at(
                        "internal: name '"@ + name@ + "' not in type environment"@,
                        e.span,
                    ),
                ],
            )
        },
        Expr::Neg(operand) => {
            let (t, d) = check_expr(*operand, env);
            match t {
                None => (None, d),
                Some(ty) => if ty != Type::Int {
                    (
                        None,
                        d.push(
                            error_at("operator '-' requires Int, got "@ + type_text(ty), operand.span),
                        ),
                    )
                } else {
                    (Some(Type::Int), d)
                },
            }
        },
        Expr::Binary { op, left, right, .. } => {
            let (lt, ld) = check_expr(*left, env);
            match lt {
                None => (None, ld),
                Some(l) => {
                    let (rt, rd) = check_expr(*right, env);
                    match rt {
                        None => (None, ld + rd),
                        Some(r) => if l != Type::Int {
                            (
                                None,
                                (ld + rd).push(
                                    error_at(operand_message(binop_name(op), "left"@, l), left.span),
                                ),
                            )
                        } else if r != Type::Int {
                            (
                                None,
                                (ld + rd).push(
                                    error_at(
                                        operand_message(binop_name(op), "right"@, r),
                                        right.span,
                                    ),
                                ),
                            )
                        } else {
                            (Some(Type::Int), ld + rd)
                        },
                    }
                },
            }
        },
        Expr::Compare { op, left, right, .. } => {
            let (lt, ld) = check_expr(*left, env);
            match lt {
                None => (None, ld),
                Some(l) => {
                    let (rt, rd) = check_expr(*right, env);
                    match rt {
                        None => (None, ld + rd),
                        Some(r) => if l != Type::Int {
                            (
                                None,
                                (ld + rd).push(
                                    error_at(operand_message(cmpop_name(op), "left"@, l), left.span),
                                ),
                            )
                        } else if r != Type::Int {
                            (
                                None,
                                (ld + rd).push(
                                    error_at(
                                        operand_message(cmpop_name(op), "right"@, r),
                                        right.span,
                                    ),
                                ),
                            )
                        } else {
                            (Some(Type::Bool), ld + rd)
                        },
                    }
                },
            }
        },
    }
}

/// The errors in an `if` condition whose type came out as `t`.
pub open spec fn condition_errors(t: Option<Type>, condition: Node<Expr>) -> Seq<DiagnosticView> {
    match t {
        Some(ty) => if ty != Type::Bool {
            seq![error_at("'if' condition must be Bool, got "@ + type_text(ty), condition.span)]
        } else {
            Seq::empty()
        },
        None => Seq::empty(),
    }
}

/// The environment after a statement, and the errors found in it.
pub open spec fn check_stmt(s: Node<StmtView>, env: Map<Seq<char>, Type>) -> (Map<
    Seq<char>,
    Type,
>, Seq<DiagnosticView>)
    decreases s,
{
    match s.inner {
        StmtView::Let { name, value, .. } => {
            let (t, d) = check_expr(value, env);
            match t {
                Some(ty) => (env.insert(name@, ty), d),
                None => (env, d),
            }
        },
        StmtView::Expr(e) => (env, check_expr(e, env).1),
        StmtView::If { condition, then_block, else_block } => {
            let (t, d) = check_expr(condition, env);
            let d_then = check_stmts(then_block, env).1;
            let d_else = match else_block {
                Some(b) => check_stmts(b, env).1,
                None => Seq::empty(),
            };
            (env, d + condition_errors(t, condition) + d_then + d_else)
        },
        StmtView::Block(b) => (env, check_stmts(b, env).1),
    }
}

/// The environment after a sequence of statements, and the errors found in them.
pub open spec fn check_stmts(ss: Seq<Node<StmtView>>, env: Map<Seq<char>, Type>) -> (Map<
    Seq<char>,
    Type,
>, Seq<DiagnosticView>)
    decreases ss,
{
    if ss.len() == 0 {
        (env, Seq::empty())
    } else {
        let (e1, d1) = check_stmts(ss.drop_last(), env);
        let (e2, d2) = check_stmt(ss.last(), e1);
        (e2, d1 + d2)
    }
}

/// The type errors of a program.
pub open spec fn type_errors(stmts: Seq<Node<StmtView>>) -> Seq<DiagnosticView> {
    check_stmts(stmts, Map::empty()).1
}

fn push_type_text(s: &mut String, t: Type)
    ensures
        final(s)@ == old(s)@ + type_text(t),
{
    match t {
        Type::Int => s.append("Int"),
        Type::Bool => s.append("Bool"),
    }
}

fn push_binop_name(s: &mut String, op: BinOp)
    ensures
        final(s)@ == old(s)@ + binop_name(op),
{
    match op {
        BinOp::Add => s.append("Add"),
        BinOp::Sub => s.append("Sub"),
        BinOp::Mul => s.append("Mul"),
        BinOp::Div => s.append("Div"),
    }
}

fn push_cmpop_name(s: &mut String, op: CmpOp)
    ensures
        final(s)@ == old(s)@ + cmpop_name(op),
{
    match op {
        CmpOp::Eq => s.append("Eq"),
        CmpOp::Ne => s.append("Ne"),
        CmpOp::Lt => s.append("Lt"),
        CmpOp::Le => s.append("Le"),
        CmpOp::Gt => s.append("Gt"),
        CmpOp::Ge => s.append("Ge"),
    }
}

/// "operator '<op>' requires Int on <side>, got <type>", where `op` is already written.
fn operand_text(op: String, left_side: bool, t: Type) -> (s: String)
    ensures
        s@ == operand_message(
            op@,
            if left_side {
                "left"@
            } else {
                "right"@
            },
            t,
        ),
{
    let mut s = String::from_str("operator '");
    s.append(op.as_str());
    s.append("' requires Int on ");
    if left_side {
        s.append("left");
    } else {
        s.append("right");
    }
    s.append(", got ");
    push_type_text(&mut s, t);
    let ghost side = if left_side {
        "left"@
    } else {
        "right"@
    };
    assert(s@ =~= operand_message(op@, side, t));
    s
}

/// Type checks a program; returns the errors in order.
pub fn type_check(program: &Program) -> (ds: Vec<Diagnostic>)
    ensures
        views(ds@) == type_errors(program.statements()),
{
    let mut checker = TypeChecker::new();
    checker.check_stmts(&program.stmts);
    assert(views(checker.diagnostics@) =~= type_errors(program.statements()));
    checker.diagnostics
}

struct TypeChecker {
    env: Env<Type>,
    diagnostics: Vec<Diagnostic>,
}

impl TypeChecker {
    fn new() -> (c: TypeChecker)
        ensures
            c.env.map() == Map::<Seq<char>, Type>::empty(),
            views(c.diagnostics@) == Seq::<DiagnosticView>::empty(),
    {
        let c = TypeChecker { env: Env::new(), diagnostics: Vec::new() };
        assert(views(c.diagnostics@) =~= Seq::<DiagnosticView>::empty());
        c
    }

    fn error(&mut self, message: String, span: Span)
        ensures
            final(self).env == old(self).env,
            views(final(self).diagnostics@) == views(old(self).diagnostics@).push(
                error_at(message@, span),
            ),
    {
        push_diagnostic(&mut self.diagnostics, Diagnostic::error(message, span));
    }

    fn check_expr(&mut self, node: &Node<Expr>) -> (t: Option<Type>)
        ensures
            final(self).env == old(self).env,
            t == check_expr(*node, old(self).env.map()).0,
            views(final(self).diagnostics@) == views(old(self).diagnostics@) + check_expr(
                *node,
                old(self).env.map(),
            ).1,
        decreases node,
    {
        let ghost env = self.env.map();
        let ghost base = views(self.diagnostics@);
        match &node.inner {
            Expr::Integer(_) => {
                assert(views(self.diagnostics@) =~= base + Seq::<DiagnosticView>::empty());
                Some(Type::Int)
            },
            Expr::Bool(_) => {
                assert(views(self.diagnostics@) =~= base + Seq::<DiagnosticView>::empty());
                Some(Type::Bool)
            },
            Expr::Ident(name) => match self.env.get(name) {
                Some(ty) => {
                    assert(views(self.diagnostics@) =~= base + Seq::<DiagnosticView>::empty());
                    Some(ty)
                },
                None => {
                    let mut message = String::from_str("internal: name '");
                    message.append(name.as_str());
                    message.append("' not in type environment");
                    self.error(message, node.span);
                    assert(views(self.diagnostics@) =~= base + check_expr(*node, env).1);
                    None
                },
            },
            Expr::Neg(operand) => {
                let ty = match self.check_expr(operand) {
                    Some(ty) => ty,
                    None => {
                        return None;
                    },
                };
                if ty != Type::Int {
                    let mut message = String::from_str("operator '-' requires Int, got ");
                    push_type_text(&mut message, ty);
                    self.error(message, operand.span);
                    assert(views(self.diagnostics@) =~= base + check_expr(*node, env).1);
                    return None;
                }
                Some(Type::Int)
            },
            Expr::Binary { op, left, right, .. } => {
                let left_ty = match self.check_expr(left) {
                    Some(t) => t,
                    None => {
                        return None;
                    },
                };
                let right_ty = match self.check_expr(right) {
                    Some(t) => t,
                    None => {
                        assert(views(self.diagnostics@) =~= base + check_expr(*node, env).1);
                        return None;
                    },
                };
                if left_ty != Type::Int {
                    let mut name = String::new();
                    push_binop_name(&mut name, *op);
                    self.error(operand_text(name, true, left_ty), left.span);
                    assert(views(self.diagnostics@) =~= base + check_expr(*node, env).1);
                    return None;
                }
                if right_ty != Type::Int {
                    let mut name = String::new();
                    push_binop_name(&mut name, *op);
                    self.error(operand_text(name, false, right_ty), right.span);
                    assert(views(self.diagnostics@) =~= base + check_expr(*node, env).1);
                    return None;
                }
                assert(views(self.diagnostics@) =~= base + check_expr(*node, env).1);
                Some(Type::Int)
            },
            Expr::Compare { op, left, right, .. } => {
                let left_ty = match self.check_expr(left) {
                    Some(t) => t,
                    None => {
                        return None;
                    },
                };
                let right_ty = match self.check_expr(right) {
                    Some(t) => t,
                    None => {
                        assert(views(self.diagnostics@) =~= base + check_expr(*node, env).1);
                        return None;
                    },
                };
                if left_ty != Type::Int {
                    let mut name = String::new();
                    push_cmpop_name(&mut name, *op);
                    self.error(operand_text(name, true, left_ty), left.span);
                    assert(views(self.diagnostics@) =~= base + check_expr(*node, env).1);
                    return None;
                }
                if right_ty != Type::Int {
                    let mut name = String::new();
                    push_cmpop_name(&mut name, *op);
                    self.error(operand_text(name, false, right_ty), right.span);
                    assert(views(self.diagnostics@) =~= base + check_expr(*node, env).1);
                    return None;
                }
                assert(views(self.diagnostics@) =~= base + check_expr(*node, env).1);
                Some(Type::Bool)
            },
        }
    }

    fn check_stmts(&mut self, stmts: &Vec<Node<Stmt>>)
        ensures
            final(self).env.map() == check_stmts(stmts_view(stmts@), old(self).env.map()).0,
            views(final(self).diagnostics@) == views(old(self).diagnostics@) + check_stmts(
                stmts_view(stmts@),
                old(self).env.map(),
            ).1,
            extends(final(self).env.log(), old(self).env.log()),
        decreases stmts,
    {
        let ghost ss = stmts_view(stmts@);
        let ghost env0 = self.env.map();
        let ghost base = views(self.diagnostics@);
        let ghost mut acc: Seq<DiagnosticView> = Seq::empty();
        proof {
            lemma_stmts_view_index(stmts@);
            assert(ss.take(0) =~= Seq::<Node<StmtView>>::empty());
            assert(views(self.diagnostics@) =~= base + acc);
        }
        let mut i: usize = 0;
        while i < stmts.len()
            invariant
                i <= stmts.len(),
                ss == stmts_view(stmts@),
                ss.len() == stmts@.len(),
                forall|k: int| 0 <= k < stmts@.len() ==> #[trigger] ss[k] == stmt_view(stmts@[k]),
                check_stmts(ss.take(i as int), env0) == (self.env.map(), acc),
                views(self.diagnostics@) == base + acc,
                extends(self.env.log(), old(self).env.log()),
                env0 == old(self).env.map(),
                base == views(old(self).diagnostics@),
            decreases stmts.len() - i,
        {
            let ghost before = self.env.map();
            self.check_stmt(&stmts[i]);
            proof {
                assert(ss.take(i + 1).drop_last() =~= ss.take(i as int));
                assert(ss.take(i + 1).last() == stmt_view(stmts@[i as int]));
                let d = check_stmt(stmt_view(stmts@[i as int]), before).1;
                assert(views(self.diagnostics@) =~= base + (acc + d));
                acc = acc + d;
            }
            i = i + 1;
        }
        assert(ss.take(stmts.len() as int) =~= ss);
    }

    fn check_block(&mut self, block: &Block)
        ensures
            final(self).env.log() == old(self).env.log(),
            views(final(self).diagnostics@) == views(old(self).diagnostics@) + check_stmts(
                stmts_view(block.stmts@),
                old(self).env.map(),
            ).1,
        decreases block,
    {
        let mark = self.env.depth();
        self.check_stmts(&block.stmts);
        self.env.truncate(mark);
    }

    fn check_stmt(&mut self, node: &Node<Stmt>)
        ensures
            final(self).env.map() == check_stmt(stmt_view(*node), old(self).env.map()).0,
            views(final(self).diagnostics@) == views(old(self).diagnostics@) + check_stmt(
                stmt_view(*node),
                old(self).env.map(),
            ).1,
            extends(final(self).env.log(), old(self).env.log()),
        decreases node,
    {
        let ghost env = self.env.map();
        let ghost base = views(self.diagnostics@);
        match &node.inner {
            Stmt::Let { name, value, .. } => {
                match self.check_expr(value) {
                    Some(ty) => {
                        self.env.insert(name.clone(), ty);
                    },
                    None => {},
                }
            },
            Stmt::Expr(e) => {
                self.check_expr(e);
            },
            Stmt::If { condition, then_block, else_block } => {
                let t = self.check_expr(condition);
                match t {
                    Some(ty) => {
                        if ty != Type::Bool {
                            let mut message = String::from_str("'if' condition must be Bool, got ");
                            push_type_text(&mut message, ty);
                            self.error(message, condition.span);
                        }
                    },
                    None => {},
                }
                assert(views(self.diagnostics@) =~= base + check_expr(**condition, env).1
                    + condition_errors(t, **condition));
                self.check_block(then_block);
                match else_block {
                    Some(b) => {
                        self.check_block(b);
                    },
                    None => {},
                }
                assert(views(self.diagnostics@) =~= base + check_stmt(stmt_view(*node), env).1);
            },
            Stmt::Block(b) => {
                self.check_block(b);
            },
        }
    }
}


/// A block, or an `if` with its blocks, leaves the types of names as they were:
/// a binding made inside a block ends with the block.
pub proof fn blocks_keep_types(s: Node<StmtView>, env: Map<Seq<char>, Type>)
    requires
        s.inner is If || s.inner is Block,
    ensures
        check_stmt(s, env).0 == env,
{
}

/// Comparisons take integers and give a boolean: a comparison has a type only
/// when both operands are `Int`, and then it is `Bool`. When both operands have
/// a type but the left one is not `Int`, the comparison has none and its last
/// error is at the left operand, naming the type found there; when only the
/// right one is not `Int`, likewise at the right operand.
pub proof fn comparisons_take_integers(
    op: CmpOp,
    op_span: Span,
    left: Node<Expr>,
    right: Node<Expr>,
    span: Span,
    env: Map<Seq<char>, Type>,
)
    ensures
        ({
            let (t, d) = check_expr(
                (Node {
                    inner: Expr::Compare { op, op_span, left: Box::new(left), right: Box::new(right) },
                    span,
                }),
                env,
            );
            let (lt, ld) = check_expr(left, env);
            let (rt, rd) = check_expr(right, env);
            &&& t is Some ==> t == Some(Type::Bool) && lt == Some(Type::Int) && rt == Some(Type::Int)
            &&& lt == Some(Type::Int) && rt == Some(Type::Int) ==> t == Some(Type::Bool) && d == ld + rd
            &&& (lt is Some && lt.unwrap() != Type::Int && rt is Some) ==> t is None && d.len() > 0
                && d.last() == error_at(operand_message(cmpop_name(op), "left"@, lt.unwrap()), left.span)
            &&& (lt == Some(Type::Int) && rt is Some && rt.unwrap() != Type::Int) ==> t is None && d.len()
                > 0 && d.last() == error_at(operand_message(cmpop_name(op), "right"@, rt.unwrap()), right.span)
        }),
{
}

/// Arithmetic takes integers and gives an integer: `+`, `-`, `*` and `/` have a
/// type only when both operands are `Int`, and then it is `Int`. When both
/// operands have a type but the left one is not `Int`, the last error is at the
/// left operand; when only the right one is not `Int`, at the right operand.
pub proof fn arithmetic_takes_integers(
    op: BinOp,
    op_span: Span,
    left: Node<Expr>,
    right: Node<Expr>,
    span: Span,
    env: Map<Seq<char>, Type>,
)
    ensures
        ({
            let (t, d) = check_expr(
                (Node {
                    inner: Expr::Binary { op, op_span, left: Box::new(left), right: Box::new(right) },
                    span,
                }),
                env,
            );
            let (lt, ld) = check_expr(left, env);
            let (rt, rd) = check_expr(right, env);
            &&& t is Some ==> t == Some(Type::Int) && lt == Some(Type::Int) && rt == Some(Type::Int)
            &&& lt == Some(Type::Int) && rt == Some(Type::Int) ==> t == Some(Type::Int) && d == ld + rd
            &&& (lt is Some && lt.unwrap() != Type::Int && rt is Some) ==> t is None && d.len() > 0
                && d.last() == error_at(operand_message(binop_name(op), "left"@, lt.unwrap()), left.span)
            &&& (lt == Some(Type::Int) && rt is Some && rt.unwrap() != Type::Int) ==> t is None && d.len()
                > 0 && d.last() == error_at(operand_message(binop_name(op), "right"@, rt.unwrap()), right.span)
        }),
{
}

/// Negation takes an integer: `-e` has a type only when `e` is `Int`, and then
/// it is `Int`; a typed operand of another type gets an error at the operand.
pub proof fn negation_takes_integers(operand: Node<Expr>, span: Span, env: Map<Seq<char>, Type>)
    ensures
        ({
            let (t, d) = check_expr((Node { inner: Expr::Neg(Box::new(operand)), span }), env);
            let (ot, od) = check_expr(operand, env);
            &&& t is Some <==> ot == Some(Type::Int)
            &&& t is Some ==> t == Some(Type::Int) && d == od
            &&& (ot is Some && ot.unwrap() != Type::Int) ==> d.len() > 0 && d.last().span == operand.span
        }),
{
}

} // verus!
