//! The grammar that the parser follows, as functions from a token sequence and a
//! position to what is parsed there, the position after it, and the diagnostics
//! reported on the way, in order.
//!
//! ```text
//! program    := statement* Eof
//! statement  := let_stmt | if_stmt | block | expression ';'
//! let_stmt   := 'let' IDENT '=' expression ';'
//! if_stmt    := 'if' expression block ('else' block)?
//! block      := '{' statement* '}'
//! expression := sum (('==' | '!=' | '<' | '<=' | '>' | '>=') sum)*
//! sum        := product (('+' | '-') product)*
//! product    := unary (('*' | '/') unary)*
//! unary      := '-' unary | primary
//! primary    := INTEGER | IDENT | 'true' | 'false' | '(' expression ')'
//! ```
//!
//! A statement that fails to parse is skipped up to the next ';' (which is
//! consumed), '}' or end of input. The position never moves past the last token,
//! and no step moves past an `Eof`, so what follows the first `Eof` is never read.
//! Each recursive step is taken only when the position has moved on; the
//! parser proves that it always has, so these guards never change the result.

use vstd::prelude::*;

use crate::ast::{BinOp, CmpOp, Expr, Node, StmtView};
use crate::diagnostics::{DiagnosticView, Span, error_at};
use crate::token::{Token, TokenKind, kind_debug};

verus! {

/// What a parse step produced, where it stopped, and what it reported.
pub struct Parsed<T> {
    pub value: T,
    pub pos: int,
    pub diags: Seq<DiagnosticView>,
}

pub open spec fn parsed<T>(value: T, pos: int, diags: Seq<DiagnosticView>) -> Parsed<T> {
    Parsed { value, pos, diags }
}

/// A token sequence that the parser accepts: it holds an `Eof`.
pub open spec fn well_formed(toks: Seq<Token>) -> bool {
    exists|i: int| 0 <= i < toks.len() && #[trigger] kind_at(toks, i) == TokenKind::Eof
}

pub open spec fn kind_at(toks: Seq<Token>, p: int) -> TokenKind {
    toks[p].kind
}

pub open spec fn span_at(toks: Seq<Token>, p: int) -> Span {
    toks[p].span
}

/// The position after `p`; the last token is never passed.
pub open spec fn next_pos(toks: Seq<Token>, p: int) -> int {
    if p + 1 < toks.len() {
        p + 1
    } else {
        p
    }
}

/// The position moved strictly forward and is still on a token.
pub open spec fn moved(toks: Seq<Token>, from: int, to: int) -> bool {
    from < to < toks.len()
}

/// The position did not move back and is still on a token.
pub open spec fn kept(toks: Seq<Token>, from: int, to: int) -> bool {
    from <= to < toks.len()
}

pub open spec fn covering(first: Span, last: Span) -> Span {
    Span { start: first.start, end: last.end }
}

// ---------------------------------------------------------------------------
// Expressions
pub open spec fn primary(toks: Seq<Token>, p: int) -> Parsed<Option<Node<Expr>>>
    decreases toks.len() - p, 0int,
{
    let span = span_at(toks, p);
    match kind_at(toks, p) {
        TokenKind::Integer(n) => parsed(
            Some(Node { inner: Expr::Integer(n), span }),
            next_pos(toks, p),
            Seq::empty(),
        ),
        TokenKind::Ident(name) => parsed(
            Some(Node { inner: Expr::Ident(name), span }),
            next_pos(toks, p),
            Seq::empty(),
        ),
        TokenKind::True => parsed(
            Some(Node { inner: Expr::Bool(true), span }),
            next_pos(toks, p),
            Seq::empty(),
        ),
        TokenKind::False => parsed(
            Some(Node { inner: Expr::Bool(false), span }),
            next_pos(toks, p),
            Seq::empty(),
        ),
        TokenKind::LParen => {
            let q = next_pos(toks, p);
            if moved(toks, p, q) {
                let inner = expression(toks, q);
                if kind_at(toks, inner.pos) == TokenKind::RParen {
                    parsed(inner.value, next_pos(toks, inner.pos), inner.diags)
                } else {
                    parsed(
                        inner.value,
                        inner.pos,
                        inner.diags.push(error_at("expected ')'"@, span_at(toks, inner.pos))),
                    )
                }
            } else {
                parsed(None, q, Seq::empty())
            }
        },
        TokenKind::Unknown(_) => parsed(None, next_pos(toks, p), Seq::empty()),
        TokenKind::Eof => parsed(None, p, seq![error_at("unexpected end of input"@, span)]),
        other => parsed(
            None,
            next_pos(toks, p),
            seq![error_at("unexpected token: "@ + kind_debug(other), span)],
        ),
    }
}

pub open spec fn unary(toks: Seq<Token>, p: int) -> Parsed<Option<Node<Expr>>>
    decreases toks.len() - p, 1int,
{
    if kind_at(toks, p) == TokenKind::Minus {
        let q = next_pos(toks, p);
        if moved(toks, p, q) {
            let operand = unary(toks, q);
            let value = match operand.value {
                Some(o) => Some(
                    Node { inner: Expr::Neg(Box::new(o)), span: covering(span_at(toks, p), o.span) },
                ),
                None => None,
            };
            parsed(value, operand.pos, operand.diags)
        } else {
            parsed(None, q, Seq::empty())
        }
    } else {
        primary(toks, p)
    }
}

pub open spec fn product_op(k: TokenKind) -> Option<BinOp> {
    match k {
        TokenKind::Star => Some(BinOp::Mul),
        TokenKind::Slash => Some(BinOp::Div),
        _ => None,
    }
}

pub open spec fn sum_op(k: TokenKind) -> Option<BinOp> {
    match k {
        TokenKind::Plus => Some(BinOp::Add),
        TokenKind::Minus => Some(BinOp::Sub),
        _ => None,
    }
}

pub open spec fn compare_op(k: TokenKind) -> Option<CmpOp> {
    match k {
        TokenKind::EqEq => Some(CmpOp::Eq),
        TokenKind::BangEq => Some(CmpOp::Ne),
        TokenKind::Lt => Some(CmpOp::Lt),
        TokenKind::LtEq => Some(CmpOp::Le),
        TokenKind::Gt => Some(CmpOp::Gt),
        TokenKind::GtEq => Some(CmpOp::Ge),
        _ => None,
    }
}

pub open spec fn binary(op: BinOp, op_span: Span, left: Node<Expr>, right: Node<Expr>) -> Node<
    Expr,
> {
    Node {
        inner: Expr::Binary { op, op_span, left: Box::new(left), right: Box::new(right) },
        span: covering(left.span, right.span),
    }
}

pub open spec fn compare(op: CmpOp, op_span: Span, left: Node<Expr>, right: Node<Expr>) -> Node<
    Expr,
> {
    Node {
        inner: Expr::Compare { op, op_span, left: Box::new(left), right: Box::new(right) },
        span: covering(left.span, right.span),
    }
}

/// The rest of a product after its operand `left`, from position `p`.
pub open spec fn product_rest(
    toks: Seq<Token>,
    p: int,
    left: Node<Expr>,
    diags: Seq<DiagnosticView>,
) -> Parsed<Option<Node<Expr>>>
    decreases toks.len() - p, 2int,
{
    match product_op(kind_at(toks, p)) {
        None => parsed(Some(left), p, diags),
        Some(op) => {
            let q = next_pos(toks, p);
            if moved(toks, p, q) {
                let right = unary(toks, q);
                match right.value {
                    None => parsed(None, right.pos, diags + right.diags),
                    Some(r) => if kept(toks, q, right.pos) {
                        product_rest(
                            toks,
                            right.pos,
                            binary(op, span_at(toks, p), left, r),
                            diags + right.diags,
                        )
                    } else {
                        parsed(None, right.pos, diags + right.diags)
                    },
                }
            } else {
                parsed(None, q, diags)
            }
        },
    }
}

pub open spec fn product(toks: Seq<Token>, p: int) -> Parsed<Option<Node<Expr>>>
    decreases toks.len() - p, 3int,
{
    let left = unary(toks, p);
    match left.value {
        None => left,
        Some(l) => if kept(toks, p, left.pos) {
            product_rest(toks, left.pos, l, left.diags)
        } else {
            left
        },
    }
}

pub open spec fn sum_rest(
    toks: Seq<Token>,
    p: int,
    left: Node<Expr>,
    diags: Seq<DiagnosticView>,
) -> Parsed<Option<Node<Expr>>>
    decreases toks.len() - p, 4int,
{
    match sum_op(kind_at(toks, p)) {
        None => parsed(Some(left), p, diags),
        Some(op) => {
            let q = next_pos(toks, p);
            if moved(toks, p, q) {
                let right = product(toks, q);
                match right.value {
                    None => parsed(None, right.pos, diags + right.diags),
                    Some(r) => if kept(toks, q, right.pos) {
                        sum_rest(
                            toks,
                            right.pos,
                            binary(op, span_at(toks, p), left, r),
                            diags + right.diags,
                        )
                    } else {
                        parsed(None, right.pos, diags + right.diags)
                    },
                }
            } else {
                parsed(None, q, diags)
            }
        },
    }
}

pub open spec fn sum(toks: Seq<Token>, p: int) -> Parsed<Option<Node<Expr>>>
    decreases toks.len() - p, 5int,
{
    let left = product(toks, p);
    match left.value {
        None => left,
        Some(l) => if kept(toks, p, left.pos) {
            sum_rest(toks, left.pos, l, left.diags)
        } else {
            left
        },
    }
}

pub open spec fn comparison_rest(
    toks: Seq<Token>,
    p: int,
    left: Node<Expr>,
    diags: Seq<DiagnosticView>,
) -> Parsed<Option<Node<Expr>>>
    decreases toks.len() - p, 6int,
{
    match compare_op(kind_at(toks, p)) {
        None => parsed(Some(left), p, diags),
        Some(op) => {
            let q = next_pos(toks, p);
            if moved(toks, p, q) {
                let right = sum(toks, q);
                match right.value {
                    None => parsed(None, right.pos, diags + right.diags),
                    Some(r) => if kept(toks, q, right.pos) {
                        comparison_rest(
                            toks,
                            right.pos,
                            compare(op, span_at(toks, p), left, r),
                            diags + right.diags,
                        )
                    } else {
                        parsed(None, right.pos, diags + right.diags)
                    },
                }
            } else {
                parsed(None, q, diags)
            }
        },
    }
}

pub open spec fn comparison(toks: Seq<Token>, p: int) -> Parsed<Option<Node<Expr>>>
    decreases toks.len() - p, 7int,
{
    let left = sum(toks, p);
    match left.value {
        None => left,
        Some(l) => if kept(toks, p, left.pos) {
            comparison_rest(toks, left.pos, l, left.diags)
        } else {
            left
        },
    }
}

pub open spec fn expression(toks: Seq<Token>, p: int) -> Parsed<Option<Node<Expr>>>
    decreases toks.len() - p, 8int,
{
    comparison(toks, p)
}

/// An expression that must be followed by the end of input.
pub open spec fn whole_expression(toks: Seq<Token>, p: int) -> Parsed<Option<Node<Expr>>> {
    let e = expression(toks, p);
    if kind_at(toks, e.pos) == TokenKind::Eof {
        e
    } else {
        parsed(
            e.value,
            e.pos,
            e.diags.push(
                error_at(
                    "unexpected token after expression: "@ + kind_debug(kind_at(toks, e.pos)),
                    span_at(toks, e.pos),
                ),
            ),
        )
    }
}

// ---------------------------------------------------------------------------
// Statements
pub open spec fn let_statement(toks: Seq<Token>, p: int) -> Parsed<Option<Node<StmtView>>> {
    let let_span = span_at(toks, p);
    let p1 = next_pos(toks, p);
    match kind_at(toks, p1) {
        TokenKind::Ident(name) => {
            let name_span = span_at(toks, p1);
            let p2 = next_pos(toks, p1);
            if kind_at(toks, p2) == TokenKind::Eq {
                let value = expression(toks, next_pos(toks, p2));
                match value.value {
                    None => parsed(None, value.pos, value.diags),
                    Some(v) => if kind_at(toks, value.pos) == TokenKind::Semicolon {
                        parsed(
                            Some(
                                Node {
                                    inner: StmtView::Let { name, name_span, value: v },
                                    span: covering(let_span, v.span),
                                },
                            ),
                            next_pos(toks, value.pos),
                            value.diags,
                        )
                    } else {
                        parsed(
                            None,
                            value.pos,
                            value.diags.push(
                                error_at(
                                    "expected ';' after 'let' statement"@,
                                    span_at(toks, value.pos),
                                ),
                            ),
                        )
                    },
                }
            } else {
                parsed(
                    None,
                    p2,
                    seq![error_at("expected '=' after binding name"@, span_at(toks, p2))],
                )
            }
        },
        _ => parsed(
            None,
            p1,
            seq![error_at("expected identifier after 'let'"@, span_at(toks, p1))],
        ),
    }
}

pub open spec fn expression_statement(toks: Seq<Token>, p: int) -> Parsed<Option<Node<StmtView>>> {
    let e = expression(toks, p);
    match e.value {
        None => parsed(None, e.pos, e.diags),
        Some(x) => if kind_at(toks, e.pos) == TokenKind::Semicolon {
            parsed(
                Some(Node { inner: StmtView::Expr(x), span: x.span }),
                next_pos(toks, e.pos),
                e.diags,
            )
        } else {
            parsed(
                None,
                e.pos,
                e.diags.push(
                    error_at("expected ';' after expression"@, span_at(toks, e.pos)),
                ),
            )
        },
    }
}

/// Skipping after a statement that failed: up to and including the next ';', or
/// up to the next '}' or the end of input.
pub open spec fn recover(toks: Seq<Token>, p: int) -> int
    decreases toks.len() - p,
{
    match kind_at(toks, p) {
        TokenKind::Eof | TokenKind::RBrace => p,
        TokenKind::Semicolon => next_pos(toks, p),
        _ => {
            let q = next_pos(toks, p);
            if moved(toks, p, q) {
                recover(toks, q)
            } else {
                q
            }
        },
    }
}

pub open spec fn statement(toks: Seq<Token>, p: int) -> Parsed<Option<Node<StmtView>>>
    decreases toks.len() - p, 4int,
{
    match kind_at(toks, p) {
        TokenKind::Let => let_statement(toks, p),
        TokenKind::If => if_statement(toks, p),
        TokenKind::LBrace => block_statement(toks, p),
        _ => expression_statement(toks, p),
    }
}

pub open spec fn if_statement(toks: Seq<Token>, p: int) -> Parsed<Option<Node<StmtView>>>
    decreases toks.len() - p, 3int,
{
    let if_span = span_at(toks, p);
    let q = next_pos(toks, p);
    let c = expression(toks, q);
    match c.value {
        None => parsed(None, c.pos, c.diags),
        Some(condition) => if kept(toks, p, c.pos) {
            let t = block(toks, c.pos);
            match t.value {
                None => parsed(None, t.pos, c.diags + t.diags),
                Some((then_block, then_end)) => if kind_at(toks, t.pos) == TokenKind::Else {
                    let r = next_pos(toks, t.pos);
                    if kept(toks, p, r) {
                        let e = block(toks, r);
                        match e.value {
                            None => parsed(None, e.pos, c.diags + t.diags + e.diags),
                            Some((else_block, else_end)) => parsed(
                                Some(
                                    Node {
                                        inner: StmtView::If {
                                            condition,
                                            then_block,
                                            else_block: Some(else_block),
                                        },
                                        span: Span { start: if_span.start, end: else_end },
                                    },
                                ),
                                e.pos,
                                c.diags + t.diags + e.diags,
                            ),
                        }
                    } else {
                        parsed(None, r, c.diags + t.diags)
                    }
                } else {
                    parsed(
                        Some(
                            Node {
                                inner: StmtView::If { condition, then_block, else_block: None },
                                span: Span { start: if_span.start, end: then_end },
                            },
                        ),
                        t.pos,
                        c.diags + t.diags,
                    )
                },
            }
        } else {
            parsed(None, c.pos, c.diags)
        },
    }
}

pub open spec fn block_statement(toks: Seq<Token>, p: int) -> Parsed<Option<Node<StmtView>>>
    decreases toks.len() - p, 3int,
{
    let start = span_at(toks, p).start;
    let b = block(toks, p);
    match b.value {
        None => parsed(None, b.pos, b.diags),
        Some((stmts, end)) => parsed(
            Some(Node { inner: StmtView::Block(stmts), span: Span { start, end } }),
            b.pos,
            b.diags,
        ),
    }
}

/// A braced block: its statements and the end offset of its closing brace.
pub open spec fn block(toks: Seq<Token>, p: int) -> Parsed<Option<(Seq<Node<StmtView>>, usize)>>
    decreases toks.len() - p, 2int,
{
    if kind_at(toks, p) != TokenKind::LBrace {
        parsed(None, p, seq![error_at("expected '{'"@, span_at(toks, p))])
    } else {
        let q = next_pos(toks, p);
        if moved(toks, p, q) {
            let items = block_items(toks, q, Seq::empty(), Seq::empty());
            let e = items.pos;
            if kind_at(toks, e) == TokenKind::RBrace {
                parsed(Some((items.value, span_at(toks, e).end)), next_pos(toks, e), items.diags)
            } else {
                parsed(None, e, items.diags.push(error_at("expected '}'"@, span_at(toks, e))))
            }
        } else {
            parsed(None, q, Seq::empty())
        }
    }
}

/// The statements of a block from position `p` on, after `stmts` and `diags`.
pub open spec fn block_items(
    toks: Seq<Token>,
    p: int,
    stmts: Seq<Node<StmtView>>,
    diags: Seq<DiagnosticView>,
) -> Parsed<Seq<Node<StmtView>>>
    decreases toks.len() - p, 5int,
{
    if kind_at(toks, p) == TokenKind::RBrace || kind_at(toks, p) == TokenKind::Eof {
        parsed(stmts, p, diags)
    } else {
        let s = statement(toks, p);
        match s.value {
            Some(st) => if moved(toks, p, s.pos) {
                block_items(toks, s.pos, stmts.push(st), diags + s.diags)
            } else {
                parsed(stmts, s.pos, diags + s.diags)
            },
            None => {
                let y = recover(toks, s.pos);
                if moved(toks, p, y) {
                    block_items(toks, y, stmts, diags + s.diags)
                } else {
                    parsed(stmts, y, diags + s.diags)
                }
            },
        }
    }
}

/// The statements of a program from position `p` on, after `stmts` and `diags`.
pub open spec fn program_items(
    toks: Seq<Token>,
    p: int,
    stmts: Seq<Node<StmtView>>,
    diags: Seq<DiagnosticView>,
) -> Parsed<Seq<Node<StmtView>>>
    decreases toks.len() - p,
{
    if kind_at(toks, p) == TokenKind::Eof {
        parsed(stmts, p, diags)
    } else {
        let s = statement(toks, p);
        match s.value {
            Some(st) => if moved(toks, p, s.pos) {
                program_items(toks, s.pos, stmts.push(st), diags + s.diags)
            } else {
                parsed(stmts, s.pos, diags + s.diags)
            },
            None => {
                let y = recover(toks, s.pos);
                if moved(toks, p, y) {
                    program_items(toks, y, stmts, diags + s.diags)
                } else {
                    parsed(stmts, y, diags + s.diags)
                }
            },
        }
    }
}

/// The statements of a program from position `p` on.
pub open spec fn program(toks: Seq<Token>, p: int) -> Parsed<Seq<Node<StmtView>>> {
    program_items(toks, p, Seq::empty(), Seq::empty())
}

// ---------------------------------------------------------------------------
// Laws
/// The token at `q` is an operand by itself: a number, a name, `true` or
/// `false`, read without a diagnostic.
pub open spec fn one_token_operand(toks: Seq<Token>, q: int) -> bool {
    &&& primary(toks, q).value is Some
    &&& primary(toks, q).pos == q + 1
    &&& primary(toks, q).diags == Seq::<DiagnosticView>::empty()
}

proof fn lemma_one_token_product(toks: Seq<Token>, q: int)
    requires
        0 <= q,
        q + 1 < toks.len(),
        one_token_operand(toks, q),
        product_op(kind_at(toks, q + 1)) is None,
    ensures
        unary(toks, q) == primary(toks, q),
        product(toks, q) == primary(toks, q),
{
    assert(kind_at(toks, q) != TokenKind::Minus);
    let a = primary(toks, q).value->0;
    assert(product_rest(toks, q + 1, a, Seq::empty()) == parsed(
        Some(a),
        q + 1,
        Seq::<DiagnosticView>::empty(),
    ));
}

/// `+` and `-` associate to the left: `a op1 b op2 c`, with one-token operands
/// and no arithmetic operator after `c`, is read as `(a op1 b) op2 c`, where
/// `+` is addition and `-` subtraction.
pub proof fn additive_operators_associate_left(toks: Seq<Token>, p: int)
    requires
        0 <= p,
        p + 5 < toks.len(),
        one_token_operand(toks, p),
        one_token_operand(toks, p + 2),
        one_token_operand(toks, p + 4),
        kind_at(toks, p + 1) == TokenKind::Plus || kind_at(toks, p + 1) == TokenKind::Minus,
        kind_at(toks, p + 3) == TokenKind::Plus || kind_at(toks, p + 3) == TokenKind::Minus,
        kind_at(toks, p + 5) != TokenKind::Plus,
        kind_at(toks, p + 5) != TokenKind::Minus,
        kind_at(toks, p + 5) != TokenKind::Star,
        kind_at(toks, p + 5) != TokenKind::Slash,
    ensures
        ({
            let r = sum(toks, p);
            let op1 = if kind_at(toks, p + 1) == TokenKind::Plus { BinOp::Add } else { BinOp::Sub };
            let op2 = if kind_at(toks, p + 3) == TokenKind::Plus { BinOp::Add } else { BinOp::Sub };
            &&& r.pos == p + 5
            &&& r.diags == Seq::<DiagnosticView>::empty()
            &&& r.value matches Some(e)
            &&& e.inner matches Expr::Binary { op: o2, left: l, right: c, .. }
            &&& o2 == op2
            &&& Some(*c) == primary(toks, p + 4).value
            &&& l.inner matches Expr::Binary { op: o1, left: a, right: b, .. }
            &&& o1 == op1
            &&& Some(*a) == primary(toks, p).value
            &&& Some(*b) == primary(toks, p + 2).value
        }),
{
    let e = Seq::<DiagnosticView>::empty();
    assert(e + e =~= e);
    lemma_one_token_product(toks, p);
    lemma_one_token_product(toks, p + 2);
    lemma_one_token_product(toks, p + 4);
    let a = primary(toks, p).value->0;
    let b = primary(toks, p + 2).value->0;
    let c = primary(toks, p + 4).value->0;
    let op1 = sum_op(kind_at(toks, p + 1))->0;
    let op2 = sum_op(kind_at(toks, p + 3))->0;
    let ab = binary(op1, span_at(toks, p + 1), a, b);
    let abc = binary(op2, span_at(toks, p + 3), ab, c);
    assert(sum_rest(toks, p + 5, abc, e) == parsed(Some(abc), p + 5, e));
    assert(sum_rest(toks, p + 3, ab, e) == parsed(Some(abc), p + 5, e));
    assert(sum_rest(toks, p + 1, a, e) == parsed(Some(abc), p + 5, e));
}

/// `*` and `/` associate to the left: `a op1 b op2 c`, with one-token operands
/// and no `*` or `/` after `c`, is read as `(a op1 b) op2 c`, where `*` is
/// multiplication and `/` division.
pub proof fn multiplicative_operators_associate_left(toks: Seq<Token>, p: int)
    requires
        0 <= p,
        p + 5 < toks.len(),
        one_token_operand(toks, p),
        one_token_operand(toks, p + 2),
        one_token_operand(toks, p + 4),
        kind_at(toks, p + 1) == TokenKind::Star || kind_at(toks, p + 1) == TokenKind::Slash,
        kind_at(toks, p + 3) == TokenKind::Star || kind_at(toks, p + 3) == TokenKind::Slash,
        kind_at(toks, p + 5) != TokenKind::Star,
        kind_at(toks, p + 5) != TokenKind::Slash,
    ensures
        ({
            let r = product(toks, p);
            let op1 = if kind_at(toks, p + 1) == TokenKind::Star { BinOp::Mul } else { BinOp::Div };
            let op2 = if kind_at(toks, p + 3) == TokenKind::Star { BinOp::Mul } else { BinOp::Div };
            &&& r.pos == p + 5
            &&& r.diags == Seq::<DiagnosticView>::empty()
            &&& r.value matches Some(e)
            &&& e.inner matches Expr::Binary { op: o2, left: l, right: c, .. }
            &&& o2 == op2
            &&& Some(*c) == primary(toks, p + 4).value
            &&& l.inner matches Expr::Binary { op: o1, left: a, right: b, .. }
            &&& o1 == op1
            &&& Some(*a) == primary(toks, p).value
            &&& Some(*b) == primary(toks, p + 2).value
        }),
{
    let e = Seq::<DiagnosticView>::empty();
    assert(e + e =~= e);
    assert(kind_at(toks, p) != TokenKind::Minus);
    assert(kind_at(toks, p + 2) != TokenKind::Minus);
    assert(kind_at(toks, p + 4) != TokenKind::Minus);
    assert(unary(toks, p) == primary(toks, p));
    assert(unary(toks, p + 2) == primary(toks, p + 2));
    assert(unary(toks, p + 4) == primary(toks, p + 4));
    let a = primary(toks, p).value->0;
    let b = primary(toks, p + 2).value->0;
    let c = primary(toks, p + 4).value->0;
    let op1 = product_op(kind_at(toks, p + 1))->0;
    let op2 = product_op(kind_at(toks, p + 3))->0;
    let ab = binary(op1, span_at(toks, p + 1), a, b);
    let abc = binary(op2, span_at(toks, p + 3), ab, c);
    assert(product_rest(toks, p + 5, abc, e) == parsed(Some(abc), p + 5, e));
    assert(product_rest(toks, p + 3, ab, e) == parsed(Some(abc), p + 5, e));
    assert(product_rest(toks, p + 1, a, e) == parsed(Some(abc), p + 5, e));
}

/// `*` and `/` bind tighter than `+` and `-`: `a op1 b op2 c`, with `op1` one of
/// `+` `-`, `op2` one of `*` `/`, one-token operands and no arithmetic operator
/// after `c`, is read as `a op1 (b op2 c)`.
pub proof fn multiplication_binds_tighter_than_addition(toks: Seq<Token>, p: int)
    requires
        0 <= p,
        p + 5 < toks.len(),
        one_token_operand(toks, p),
        one_token_operand(toks, p + 2),
        one_token_operand(toks, p + 4),
        kind_at(toks, p + 1) == TokenKind::Plus || kind_at(toks, p + 1) == TokenKind::Minus,
        kind_at(toks, p + 3) == TokenKind::Star || kind_at(toks, p + 3) == TokenKind::Slash,
        kind_at(toks, p + 5) != TokenKind::Plus,
        kind_at(toks, p + 5) != TokenKind::Minus,
        kind_at(toks, p + 5) != TokenKind::Star,
        kind_at(toks, p + 5) != TokenKind::Slash,
    ensures
        ({
            let r = sum(toks, p);
            let op1 = if kind_at(toks, p + 1) == TokenKind::Plus { BinOp::Add } else { BinOp::Sub };
            let op2 = if kind_at(toks, p + 3) == TokenKind::Star { BinOp::Mul } else { BinOp::Div };
            &&& r.pos == p + 5
            &&& r.diags == Seq::<DiagnosticView>::empty()
            &&& r.value matches Some(e)
            &&& e.inner matches Expr::Binary { op: o1, left: a, right: bc, .. }
            &&& o1 == op1
            &&& Some(*a) == primary(toks, p).value
            &&& bc.inner matches Expr::Binary { op: o2, left: b, right: c, .. }
            &&& o2 == op2
            &&& Some(*b) == primary(toks, p + 2).value
            &&& Some(*c) == primary(toks, p + 4).value
        }),
{
    let e = Seq::<DiagnosticView>::empty();
    assert(e + e =~= e);
    lemma_one_token_product(toks, p);
    lemma_one_token_product(toks, p + 4);
    assert(kind_at(toks, p + 2) != TokenKind::Minus);
    assert(unary(toks, p + 2) == primary(toks, p + 2));
    let a = primary(toks, p).value->0;
    let b = primary(toks, p + 2).value->0;
    let c = primary(toks, p + 4).value->0;
    let op1 = sum_op(kind_at(toks, p + 1))->0;
    let op2 = product_op(kind_at(toks, p + 3))->0;
    let bc = binary(op2, span_at(toks, p + 3), b, c);
    let abc = binary(op1, span_at(toks, p + 1), a, bc);
    assert(product_rest(toks, p + 5, bc, e) == parsed(Some(bc), p + 5, e));
    assert(product_rest(toks, p + 3, b, e) == parsed(Some(bc), p + 5, e));
    assert(product(toks, p + 2) == parsed(Some(bc), p + 5, e));
    assert(sum_rest(toks, p + 5, abc, e) == parsed(Some(abc), p + 5, e));
    assert(sum_rest(toks, p + 1, a, e) == parsed(Some(abc), p + 5, e));
}

} // verus!
