//! Name resolution: every name is bound by an earlier `let` before it is used,
//! and a name is bound at most once where it is visible. Bindings made inside a
//! block are forgotten when the block ends.

use vstd::prelude::*;

use crate::ast::{
    Block, Expr, Node, Program, Stmt, StmtView, lemma_stmts_view_index, stmt_view, stmts_view,
};
use crate::diagnostics::{Diagnostic, DiagnosticView, Span, error_at, push_diagnostic, views};
use crate::env::{Env, extends};
use crate::text::{decimal, push_decimal};

verus! {

pub open spec fn undefined_message(name: Seq<char>) -> Seq<char> {
    "undefined name '"@ + name + "'"@
}

pub open spec fn redefined_message(name: Seq<char>, prior: Span) -> Seq<char> {
    "name '"@ + name + "' is already defined (first defined at "@ + decimal(prior.start as nat)
        + ":"@ + decimal(prior.end as nat) + ")"@
}

/// The errors for the names used in `e` that `defined` does not bind, left to right.
pub open spec fn resolve_expr(e: Node<Expr>, defined: Map<Seq<char>, Span>) -> Seq<
    DiagnosticView,
>
    decreases e,
{
    match e.inner {
        Expr::Ident(name) => if defined.contains_key(name@) {
            Seq::empty()
        } else {
            seq![error_at(undefined_message(name@), e.span)]
        },
        Expr::Integer(_) => Seq::empty(),
        Expr::Bool(_) => Seq::empty(),
        Expr::Binary { left, right, .. } => resolve_expr(*left, defined) + resolve_expr(
            *right,
            defined,
        ),
        Expr::Compare { left, right, .. } => resolve_expr(*left, defined) + resolve_expr(
            *right,
            defined,
        ),
        Expr::Neg(operand) => resolve_expr(*operand, defined),
    }
}

/// The names bound after a statement (each with the span where it was bound),
/// and the errors found in it.
pub open spec fn resolve_stmt(s: Node<StmtView>, defined: Map<Seq<char>, Span>) -> (Map<
    Seq<char>,
    Span,
>, Seq<DiagnosticView>)
    decreases s,
{
    match s.inner {
        StmtView::Let { name, name_span, value } => {
            let d = resolve_expr(value, defined);
            if defined.contains_key(name@) {
                (
                    defined,
                    d.push(error_at(redefined_message(name@, defined[name@]), name_span)),
                )
            } else {
                (defined.insert(name@, name_span), d)
            }
        },
        StmtView::Expr(e) => (defined, resolve_expr(e, defined)),
        StmtView::If { condition, then_block, else_block } => {
            let d = resolve_expr(condition, defined);
            let d_then = resolve_stmts(then_block, defined).1;
            let d_else = match else_block {
                Some(b) => resolve_stmts(b, defined).1,
                None => Seq::empty(),
            };
            (defined, d + d_then + d_else)
        },
        StmtView::Block(b) => (defined, resolve_stmts(b, defined).1),
    }
}

pub open spec fn resolve_stmts(ss: Seq<Node<StmtView>>, defined: Map<Seq<char>, Span>) -> (Map<
    Seq<char>,
    Span,
>, Seq<DiagnosticView>)
    decreases ss,
{
    if ss.len() == 0 {
        (defined, Seq::empty())
    } else {
        let (d1, e1) = resolve_stmts(ss.drop_last(), defined);
        let (d2, e2) = resolve_stmt(ss.last(), d1);
        (d2, e1 + e2)
    }
}

/// The name resolution errors of a program.
pub open spec fn resolution_errors(stmts: Seq<Node<StmtView>>) -> Seq<DiagnosticView> {
    resolve_stmts(stmts, Map::empty()).1
}

/// Resolves the names of a program; returns the errors in order.
pub fn resolve(program: &Program) -> (ds: Vec<Diagnostic>)
    ensures
        views(ds@) == resolution_errors(program.statements()),
{
    let mut resolver = Resolver::new();
    resolver.resolve_stmts(&program.stmts);
    assert(views(resolver.diagnostics@) =~= resolution_errors(program.statements()));
    resolver.diagnostics
}

struct Resolver {
    defined: Env<Span>,
    diagnostics: Vec<Diagnostic>,
}

impl Resolver {
    fn new() -> (r: Resolver)
        ensures
            r.defined.map() == Map::<Seq<char>, Span>::empty(),
            views(r.diagnostics@) == Seq::<DiagnosticView>::empty(),
    {
        let r = Resolver { defined: Env::new(), diagnostics: Vec::new() };
        assert(views(r.diagnostics@) =~= Seq::<DiagnosticView>::empty());
        r
    }

    fn error(&mut self, message: String, span: Span)
        ensures
            final(self).defined == old(self).defined,
            views(final(self).diagnostics@) == views(old(self).diagnostics@).push(
                error_at(message@, span),
            ),
    {
        push_diagnostic(&mut self.diagnostics, Diagnostic::error(message, span));
    }

    fn resolve_expr(&mut self, node: &Node<Expr>)
        ensures
            final(self).defined == old(self).defined,
            views(final(self).diagnostics@) == views(old(self).diagnostics@) + resolve_expr(
                *node,
                old(self).defined.map(),
            ),
        decreases node,
    {
        let ghost defined = self.defined.map();
        let ghost base = views(self.diagnostics@);
        match &node.inner {
            Expr::Ident(name) => {
                if self.defined.get(name).is_none() {
                    let mut message = String::from_str("undefined name '");
                    message.append(name.as_str());
                    message.append("'");
                    self.error(message, node.span);
                }
            },
            Expr::Integer(_) => {},
            Expr::Bool(_) => {},
            Expr::Binary { left, right, .. } => {
                self.resolve_expr(left);
                self.resolve_expr(right);
            },
            Expr::Compare { left, right, .. } => {
                self.resolve_expr(left);
                self.resolve_expr(right);
            },
            Expr::Neg(operand) => {
                self.resolve_expr(operand);
            },
        }
        assert(views(self.diagnostics@) =~= base + resolve_expr(*node, defined));
    }

    fn resolve_stmts(&mut self, stmts: &Vec<Node<Stmt>>)
        ensures
            final(self).defined.map() == resolve_stmts(stmts_view(stmts@), old(self).defined.map()).0,
            views(final(self).diagnostics@) == views(old(self).diagnostics@) + resolve_stmts(
                stmts_view(stmts@),
                old(self).defined.map(),
            ).1,
            extends(final(self).defined.log(), old(self).defined.log()),
        decreases stmts,
    {
        let ghost ss = stmts_view(stmts@);
        let ghost env0 = self.defined.map();
        let ghost base = views(self.diagnostics@);
        let ghost mut acc: Seq<DiagnosticView> = Seq::empty();
        proof {
            lemma_stmts_view_index(stmts@);
            assert(ss.take(0) =~= Seq::<Node<StmtView>>::empty());
            assert(views(self.diagnostics@) =~= base + acc);
        }
        let mut i: usize = 0;
        while i < stmts.len()
            invariant
                i <= stmts.len(),
                ss == stmts_view(stmts@),
                ss.len() == stmts@.len(),
                forall|k: int| 0 <= k < stmts@.len() ==> #[trigger] ss[k] == stmt_view(stmts@[k]),
                resolve_stmts(ss.take(i as int), env0) == (self.defined.map(), acc),
                views(self.diagnostics@) == base + acc,
                extends(self.defined.log(), old(self).defined.log()),
                env0 == old(self).defined.map(),
                base == views(old(self).diagnostics@),
            decreases stmts.len() - i,
        {
            let ghost before = self.defined.map();
            self.resolve_stmt(&stmts[i]);
            proof {
                assert(ss.take(i + 1).drop_last() =~= ss.take(i as int));
                assert(ss.take(i + 1).last() == stmt_view(stmts@[i as int]));
                let d = resolve_stmt(stmt_view(stmts@[i as int]), before).1;
                assert(views(self.diagnostics@) =~= base + (acc + d));
                acc = acc + d;
            }
            i = i + 1;
        }
        assert(ss.take(stmts.len() as int) =~= ss);
    }

    fn resolve_block(&mut self, block: &Block)
        ensures
            final(self).defined.log() == old(self).defined.log(),
            views(final(self).diagnostics@) == views(old(self).diagnostics@) + resolve_stmts(
                stmts_view(block.stmts@),
                old(self).defined.map(),
            ).1,
        decreases block,
    {
        let mark = self.defined.depth();
        self.resolve_stmts(&block.stmts);
        self.defined.truncate(mark);
    }

    fn resolve_stmt(&mut self, node: &Node<Stmt>)
        ensures
            final(self).defined.map() == resolve_stmt(stmt_view(*node), old(self).defined.map()).0,
            views(final(self).diagnostics@) == views(old(self).diagnostics@) + resolve_stmt(
                stmt_view(*node),
                old(self).defined.map(),
            ).1,
            extends(final(self).defined.log(), old(self).defined.log()),
        decreases node,
    {
        let ghost defined = self.defined.map();
        let ghost base = views(self.diagnostics@);
        match &node.inner {
            Stmt::Let { name, name_span, value } => {
                self.resolve_expr(value);
                match self.defined.get(name) {
                    Some(prior) => {
                        let mut message = String::from_str("name '");
                        message.append(name.as_str());
                        message.append("' is already defined (first defined at ");
                        push_decimal(&mut message, prior.start as u64);
                        message.append(":");
                        push_decimal(&mut message, prior.end as u64);
                        message.append(")");
                        self.error(message, *name_span);
                        assert(views(self.diagnostics@) =~= base + resolve_stmt(
                            stmt_view(*node),
                            defined,
                        ).1);
                    },
                    None => {
                        self.defined.insert(name.clone(), *name_span);
                    },
                }
            },
            Stmt::Expr(e) => {
                self.resolve_expr(e);
            },
            Stmt::If { condition, then_block, else_block } => {
                self.resolve_expr(condition);
                self.resolve_block(then_block);
                match else_block {
                    Some(b) => {
                        self.resolve_block(b);
                    },
                    None => {},
                }
                assert(views(self.diagnostics@) =~= base + resolve_stmt(stmt_view(*node), defined).1);
            },
            Stmt::Block(b) => {
                self.resolve_block(b);
            },
        }
    }
}


/// A block, or an `if` with its blocks, leaves the bound names as they were: a
/// name bound inside a block is unbound again after it.
pub proof fn blocks_keep_bindings(s: Node<StmtView>, defined: Map<Seq<char>, Span>)
    requires
        s.inner is If || s.inner is Block,
    ensures
        resolve_stmt(s, defined).0 == defined,
{
}

/// Every use of a name in an expression, with the span of the use, left to right.
pub open spec fn name_uses(e: Node<Expr>) -> Seq<(Seq<char>, Span)>
    decreases e,
{
    match e.inner {
        Expr::Ident(name) => seq![(name@, e.span)],
        Expr::Integer(_) => Seq::empty(),
        Expr::Bool(_) => Seq::empty(),
        Expr::Binary { left, right, .. } => name_uses(*left) + name_uses(*right),
        Expr::Compare { left, right, .. } => name_uses(*left) + name_uses(*right),
        Expr::Neg(operand) => name_uses(*operand),
    }
}

/// An "undefined name" error at each of `uses` whose name `defined` does not
/// bind, in order.
pub open spec fn unbound_uses(uses: Seq<(Seq<char>, Span)>, defined: Map<Seq<char>, Span>) -> Seq<
    DiagnosticView,
>
    decreases uses.len(),
{
    if uses.len() == 0 {
        Seq::empty()
    } else {
        let u = uses.last();
        unbound_uses(uses.drop_last(), defined) + if defined.contains_key(u.0) {
            Seq::<DiagnosticView>::empty()
        } else {
            seq![error_at(undefined_message(u.0), u.1)]
        }
    }
}

proof fn lemma_unbound_uses_append(
    a: Seq<(Seq<char>, Span)>,
    b: Seq<(Seq<char>, Span)>,
    defined: Map<Seq<char>, Span>,
)
    ensures
        unbound_uses(a + b, defined) == unbound_uses(a, defined) + unbound_uses(b, defined),
    decreases b.len(),
{
    if b.len() == 0 {
        assert(a + b =~= a);
        assert(unbound_uses(a, defined) + unbound_uses(b, defined) =~= unbound_uses(a, defined));
    } else {
        lemma_unbound_uses_append(a, b.drop_last(), defined);
        assert((a + b).drop_last() =~= a + b.drop_last());
        assert((a + b).last() == b.last());
        let tail = if defined.contains_key(b.last().0) {
            Seq::<DiagnosticView>::empty()
        } else {
            seq![error_at(undefined_message(b.last().0), b.last().1)]
        };
        assert(unbound_uses(a, defined) + unbound_uses(b.drop_last(), defined) + tail
            =~= unbound_uses(a, defined) + (unbound_uses(b.drop_last(), defined) + tail));
    }
}

proof fn lemma_unbound_uses_none(uses: Seq<(Seq<char>, Span)>, defined: Map<Seq<char>, Span>)
    ensures
        unbound_uses(uses, defined).len() == 0 <==> forall|k: int|
            0 <= k < uses.len() ==> defined.contains_key(#[trigger] uses[k].0),
    decreases uses.len(),
{
    if uses.len() > 0 {
        lemma_unbound_uses_none(uses.drop_last(), defined);
        if unbound_uses(uses, defined).len() == 0 {
            assert forall|k: int| 0 <= k < uses.len() implies defined.contains_key(
                #[trigger] uses[k].0,
            ) by {
                if k < uses.len() - 1 {
                    assert(uses.drop_last()[k] == uses[k]);
                }
            }
        }
        if forall|k: int| 0 <= k < uses.len() ==> defined.contains_key(#[trigger] uses[k].0) {
            assert(defined.contains_key(uses[uses.len() - 1].0));
            assert forall|k: int| 0 <= k < uses.drop_last().len() implies defined.contains_key(
                #[trigger] uses.drop_last()[k].0,
            ) by {
                assert(uses.drop_last()[k] == uses[k]);
            }
        }
    }
}

/// Name resolution of an expression reports exactly the uses of names that
/// `defined` does not bind: one "undefined name" error at each such use, in
/// the order of the uses, wherever in the expression it stands. So it reports
/// nothing exactly when every name used is bound.
pub proof fn every_unbound_use_is_reported(e: Node<Expr>, defined: Map<Seq<char>, Span>)
    ensures
        resolve_expr(e, defined) == unbound_uses(name_uses(e), defined),
        resolve_expr(e, defined).len() == 0 <==> forall|k: int|
            0 <= k < name_uses(e).len() ==> defined.contains_key(#[trigger] name_uses(e)[k].0),
    decreases e,
{
    match e.inner {
        Expr::Ident(name) => {
            let uses = name_uses(e);
            assert(uses.drop_last() =~= Seq::<(Seq<char>, Span)>::empty());
            assert(unbound_uses(uses.drop_last(), defined) == Seq::<DiagnosticView>::empty());
            assert(uses.last() == (name@, e.span));
            assert(resolve_expr(e, defined) =~= unbound_uses(uses, defined));
        },
        Expr::Integer(_) => {},
        Expr::Bool(_) => {},
        Expr::Binary { left, right, .. } => {
            every_unbound_use_is_reported(*left, defined);
            every_unbound_use_is_reported(*right, defined);
            lemma_unbound_uses_append(name_uses(*left), name_uses(*right), defined);
        },
        Expr::Compare { left, right, .. } => {
            every_unbound_use_is_reported(*left, defined);
            every_unbound_use_is_reported(*right, defined);
            lemma_unbound_uses_append(name_uses(*left), name_uses(*right), defined);
        },
        Expr::Neg(operand) => {
            every_unbound_use_is_reported(*operand, defined);
        },
    }
    lemma_unbound_uses_none(name_uses(e), defined);
}

} // verus!
