//! The syntax tree, and the view of statements that the specifications use.

use vstd::prelude::*;

use crate::diagnostics::Span;

verus! {

/// A syntax tree node with the span of source it covers.
#[derive(Debug, Clone, PartialEq)]
pub struct Node<T> {
    pub inner: T,
    pub span: Span,
}

impl<T> Node<T> {
    pub fn new(inner: T, span: Span) -> (n: Node<T>)
        ensures
            n == (Node { inner, span }),
    {
        Node { inner, span }
    }
}

#[derive(Debug, Clone, Copy, PartialEq, Eq, Structural)]
pub enum BinOp {
    Add,
    Sub,
    Mul,
    Div,
}

#[derive(Debug, Clone, Copy, PartialEq, Eq, Structural)]
pub enum CmpOp {
    Eq,
    Ne,
    Lt,
    Le,
    Gt,
    Ge,
}

#[derive(Debug, PartialEq)]
pub enum Expr {
    Integer(i64),
    Bool(bool),
    Ident(String),
    Binary { op: BinOp, op_span: Span, left: Box<Node<Expr>>, right: Box<Node<Expr>> },
    Compare { op: CmpOp, op_span: Span, left: Box<Node<Expr>>, right: Box<Node<Expr>> },
    Neg(Box<Node<Expr>>),
}

#[derive(Debug, PartialEq)]
pub struct Block {
    pub stmts: Vec<Node<Stmt>>,
}

#[derive(Debug, PartialEq)]
pub enum Stmt {
    Let { name: String, name_span: Span, value: Box<Node<Expr>> },
    Expr(Node<Expr>),
    If { condition: Box<Node<Expr>>, then_block: Block, else_block: Option<Block> },
    Block(Block),
}

#[derive(Debug, PartialEq)]
pub struct Program {
    pub stmts: Vec<Node<Stmt>>,
}

/// A statement as the specifications see it: blocks are sequences.
pub enum StmtView {
    Let { name: String, name_span: Span, value: Node<Expr> },
    Expr(Node<Expr>),
    If {
        condition: Node<Expr>,
        then_block: Seq<Node<StmtView>>,
        else_block: Option<Seq<Node<StmtView>>>,
    },
    Block(Seq<Node<StmtView>>),
}

/// A statement as the specifications see it.
pub open spec fn stmt_inner_view(s: Stmt) -> StmtView
    decreases s,
{
    match s {
        Stmt::Let { name, name_span, value } => StmtView::Let { name, name_span, value: *value },
        Stmt::Expr(e) => StmtView::Expr(e),
        Stmt::If { condition, then_block, else_block } => StmtView::If {
            condition: *condition,
            then_block: stmts_view(then_block.stmts@),
            else_block: match else_block {
                Some(b) => Some(stmts_view(b.stmts@)),
                None => None,
            },
        },
        Stmt::Block(b) => StmtView::Block(stmts_view(b.stmts@)),
    }
}

pub open spec fn stmt_view(n: Node<Stmt>) -> Node<StmtView>
    decreases n,
{
    Node { inner: stmt_inner_view(n.inner), span: n.span }
}

pub open spec fn stmts_view(s: Seq<Node<Stmt>>) -> Seq<Node<StmtView>>
    decreases s,
{
    if s.len() == 0 {
        Seq::empty()
    } else {
        stmts_view(s.drop_last()).push(stmt_view(s.last()))
    }
}

pub open spec fn opt_stmt_view(n: Option<Node<Stmt>>) -> Option<Node<StmtView>> {
    match n {
        Some(s) => Some(stmt_view(s)),
        None => None,
    }
}

impl Program {
    /// The statements of the program, as the specifications see them.
    pub open spec fn statements(&self) -> Seq<Node<StmtView>> {
        stmts_view(self.stmts@)
    }
}

pub proof fn lemma_stmts_view_push(s: Seq<Node<Stmt>>, n: Node<Stmt>)
    ensures
        stmts_view(s.push(n)) == stmts_view(s).push(stmt_view(n)),
{
    assert(s.push(n).drop_last() =~= s);
}

pub proof fn lemma_stmts_view_index(s: Seq<Node<Stmt>>)
    ensures
        stmts_view(s).len() == s.len(),
        forall|i: int| 0 <= i < s.len() ==> #[trigger] stmts_view(s)[i] == stmt_view(s[i]),
    decreases s.len(),
{
    if s.len() > 0 {
        lemma_stmts_view_index(s.drop_last());
    }
}


// ---------------------------------------------------------------------------
// Copies
fn copy_expr(e: &Expr) -> (r: Expr)
    ensures
        r == *e,
    decreases e,
{
    match e {
        Expr::Integer(n) => Expr::Integer(*n),
        Expr::Bool(b) => Expr::Bool(*b),
        Expr::Ident(name) => Expr::Ident(name.clone()),
        Expr::Binary { op, op_span, left, right } => Expr::Binary {
            op: *op,
            op_span: *op_span,
            left: Box::new(Node { inner: copy_expr(&left.inner), span: left.span }),
            right: Box::new(Node { inner: copy_expr(&right.inner), span: right.span }),
        },
        Expr::Compare { op, op_span, left, right } => Expr::Compare {
            op: *op,
            op_span: *op_span,
            left: Box::new(Node { inner: copy_expr(&left.inner), span: left.span }),
            right: Box::new(Node { inner: copy_expr(&right.inner), span: right.span }),
        },
        Expr::Neg(operand) => Expr::Neg(
            Box::new(Node { inner: copy_expr(&operand.inner), span: operand.span }),
        ),
    }
}

impl Clone for Expr {
    fn clone(&self) -> (r: Expr)
        ensures
            r == *self,
    {
        copy_expr(self)
    }
}

fn copy_stmt_inner(s: &Stmt) -> (r: Stmt)
    ensures
        stmt_inner_view(r) == stmt_inner_view(*s),
    decreases s,
{
    match s {
        Stmt::Let { name, name_span, value } => Stmt::Let {
            name: name.clone(),
            name_span: *name_span,
            value: Box::new(Node { inner: copy_expr(&value.inner), span: value.span }),
        },
        Stmt::Expr(e) => Stmt::Expr(Node { inner: copy_expr(&e.inner), span: e.span }),
        Stmt::If { condition, then_block, else_block } => Stmt::If {
            condition: Box::new(Node { inner: copy_expr(&condition.inner), span: condition.span }),
            then_block: Block { stmts: copy_stmts(&then_block.stmts) },
            else_block: match else_block {
                Some(b) => Some(Block { stmts: copy_stmts(&b.stmts) }),
                None => None,
            },
        },
        Stmt::Block(b) => Stmt::Block(Block { stmts: copy_stmts(&b.stmts) }),
    }
}

fn copy_stmts(stmts: &Vec<Node<Stmt>>) -> (r: Vec<Node<Stmt>>)
    ensures
        stmts_view(r@) == stmts_view(stmts@),
    decreases stmts,
{
    let mut r: Vec<Node<Stmt>> = Vec::new();
    let mut i: usize = 0;
    assert(stmts@.take(0) =~= Seq::<Node<Stmt>>::empty());
    assert(r@ =~= Seq::<Node<Stmt>>::empty());
    while i < stmts.len()
        invariant
            i <= stmts.len(),
            stmts_view(r@) == stmts_view(stmts@.take(i as int)),
        decreases stmts.len() - i,
    {
        let c = Node { inner: copy_stmt_inner(&stmts[i].inner), span: stmts[i].span };
        proof {
            lemma_stmts_view_push(r@, c);
            lemma_stmts_view_push(stmts@.take(i as int), stmts@[i as int]);
            assert(stmts@.take(i as int).push(stmts@[i as int]) =~= stmts@.take(i + 1));
        }
        r.push(c);
        i = i + 1;
    }
    assert(stmts@.take(stmts.len() as int) =~= stmts@);
    r
}

impl Clone for Block {
    fn clone(&self) -> (r: Block)
        ensures
            stmts_view(r.stmts@) == stmts_view(self.stmts@),
    {
        Block { stmts: copy_stmts(&self.stmts) }
    }
}

impl Clone for Stmt {
    fn clone(&self) -> (r: Stmt)
        ensures
            stmt_inner_view(r) == stmt_inner_view(*self),
    {
        copy_stmt_inner(self)
    }
}

impl Clone for Program {
    fn clone(&self) -> (r: Program)
        ensures
            r.statements() == self.statements(),
    {
        Program { stmts: copy_stmts(&self.stmts) }
    }
}

} // verus!
