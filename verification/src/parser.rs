//! The parser: recursive descent over the token sequence, following
//! [`crate::grammar`] step for step.

use vstd::prelude::*;

use crate::ast::{
    BinOp, Block, CmpOp, Expr, Node, Program, Stmt, StmtView, lemma_stmts_view_push,
    opt_stmt_view, stmts_view,
};
use crate::diagnostics::{Diagnostic, DiagnosticView, Span, error_at, push_diagnostic, views};
use crate::grammar::{
    Parsed, block, block_items, block_statement, comparison, comparison_rest, expression,
    expression_statement, if_statement, kind_at, let_statement, next_pos, primary, product,
    product_rest, program, program_items, recover, span_at, statement, sum, sum_rest, unary,
    well_formed, whole_expression,
};
use crate::token::{Token, TokenKind, kinds_equal, push_kind_debug, same_kind};

verus! {

pub struct Parser {
    tokens: Vec<Token>,
    pos: usize,
    diagnostics: Vec<Diagnostic>,
    /// An `Eof` that the position has not passed.
    end: Ghost<int>,
}

/// A parse step from `before` to `after` did what `p` says.
pub open spec fn follows<T>(before: Parser, after: Parser, p: Parsed<T>) -> bool {
    &&& after.wf()
    &&& after.tokens() == before.tokens()
    &&& after.position() == p.pos
    &&& after.reported() == before.reported() + p.diags
}

/// The position did not move back, and moved on unless it was on `Eof`.
pub open spec fn progressed(before: Parser, after: Parser) -> bool {
    &&& before.position() <= after.position()
    &&& kind_at(before.tokens(), before.position()) != TokenKind::Eof ==> before.position()
        < after.position()
}

pub open spec fn block_view(r: Option<(Block, usize)>) -> Option<(Seq<Node<StmtView>>, usize)> {
    match r {
        Some((b, e)) => Some((stmts_view(b.stmts@), e)),
        None => None,
    }
}

impl Parser {
    /// The tokens being parsed.
    pub closed spec fn tokens(&self) -> Seq<Token> {
        self.tokens@
    }

    /// The position of the next token to read.
    pub closed spec fn position(&self) -> int {
        self.pos as int
    }

    /// The diagnostics reported so far.
    pub closed spec fn reported(&self) -> Seq<DiagnosticView> {
        views(self.diagnostics@)
    }

    pub closed spec fn wf(&self) -> bool {
        &&& self.pos <= self.end@ < self.tokens.len()
        &&& kind_at(self.tokens@, self.end@) == TokenKind::Eof
    }

    /// A parser at the start of `tokens`, which hold an `Eof`.
    pub fn new(tokens: Vec<Token>) -> (p: Parser)
        requires
            well_formed(tokens@),
        ensures
            p.wf(),
            p.tokens() == tokens@,
            p.position() == 0,
            p.reported() == Seq::<DiagnosticView>::empty(),
    {
        let ghost e = choose|i: int|
            0 <= i < tokens@.len() && #[trigger] kind_at(tokens@, i) == TokenKind::Eof;
        let p = Parser { tokens, pos: 0, diagnostics: Vec::new(), end: Ghost(e) };
        assert(p.reported() =~= Seq::<DiagnosticView>::empty());
        p
    }

    fn peek_kind(&self) -> (k: &TokenKind)
        requires
            self.wf(),
        ensures
            *k == kind_at(self.tokens@, self.pos as int),
    {
        &self.tokens[self.pos].kind
    }

    fn current_span(&self) -> (s: Span)
        requires
            self.wf(),
        ensures
            s == span_at(self.tokens@, self.pos as int),
    {
        self.tokens[self.pos].span
    }

    fn at_eof(&self) -> (b: bool)
        requires
            self.wf(),
        ensures
            b == (kind_at(self.tokens@, self.pos as int) == TokenKind::Eof),
    {
        match self.peek_kind() {
            TokenKind::Eof => true,
            _ => false,
        }
    }

    fn advance(&mut self)
        requires
            old(self).wf(),
        ensures
            old(self).pos < old(self).end@ ==> final(self).wf(),
            final(self).end == old(self).end,
            final(self).pos < final(self).tokens.len(),
            final(self).tokens@ == old(self).tokens@,
            final(self).diagnostics@ == old(self).diagnostics@,
            final(self).pos == next_pos(old(self).tokens@, old(self).pos as int),
            kind_at(old(self).tokens@, old(self).pos as int) != TokenKind::Eof ==> final(self).pos
                == old(self).pos + 1,
    {
        if self.pos + 1 < self.tokens.len() {
            self.pos = self.pos + 1;
        }
    }

    fn error(&mut self, message: &str, span: Span)
        requires
            old(self).wf(),
        ensures
            final(self).wf(),
            final(self).tokens@ == old(self).tokens@,
            final(self).pos == old(self).pos,
            final(self).reported() == old(self).reported().push(error_at(message@, span)),
    {
        let text = String::from_str(message);
        push_diagnostic(&mut self.diagnostics, Diagnostic::error(text, span));
    }

    /// Consumes the expected token, or reports `message`.
    fn expect(&mut self, kind: &TokenKind, message: &str) -> (r: Option<Span>)
        requires
            old(self).wf(),
        ensures
            *kind != TokenKind::Eof ==> final(self).wf(),
            final(self).pos < final(self).tokens.len(),
            final(self).tokens@ == old(self).tokens@,
            ({
                let hit = same_kind(kind_at(old(self).tokens@, old(self).pos as int), *kind);
                let span = span_at(old(self).tokens@, old(self).pos as int);
                &&& hit ==> r == Some(span) && final(self).pos == next_pos(
                    old(self).tokens@,
                    old(self).pos as int,
                ) && final(self).reported() == old(self).reported()
                &&& !hit ==> r is None && final(self).pos == old(self).pos
                    && final(self).reported() == old(self).reported().push(
                    error_at(message@, span),
                )
            }),
    {
        let hit = kinds_equal(self.peek_kind(), kind);
        let span = self.current_span();
        if hit {
            self.advance();
            Some(span)
        } else {
            self.error(message, span);
            None
        }
    }

    /// The diagnostics reported while parsing.
    pub fn finish(self) -> (ds: Vec<Diagnostic>)
        ensures
            views(ds@) == self.reported(),
    {
        self.diagnostics
    }

    fn parse_primary(&mut self) -> (r: Option<Node<Expr>>)
        requires
            old(self).wf(),
        ensures
            follows(*old(self), *final(self), primary(old(self).tokens(), old(self).position())),
            r == primary(old(self).tokens(), old(self).position()).value,
            progressed(*old(self), *final(self)),
        decreases old(self).tokens@.len() - old(self).pos, 0int,
    {
        let ghost toks = self.tokens@;
        let ghost p = self.pos as int;
        let ghost base = self.reported();
        let span = self.current_span();
        match self.peek_kind() {
            TokenKind::Integer(n) => {
                let n = *n;
                self.advance();
                assert(self.reported() =~= base + Seq::<DiagnosticView>::empty());
                Some(Node::new(Expr::Integer(n), span))
            },
            TokenKind::Ident(name) => {
                let name = name.clone();
                self.advance();
                assert(self.reported() =~= base + Seq::<DiagnosticView>::empty());
                Some(Node::new(Expr::Ident(name), span))
            },
            TokenKind::True => {
                self.advance();
                assert(self.reported() =~= base + Seq::<DiagnosticView>::empty());
                Some(Node::new(Expr::Bool(true), span))
            },
            TokenKind::False => {
                self.advance();
                assert(self.reported() =~= base + Seq::<DiagnosticView>::empty());
                Some(Node::new(Expr::Bool(false), span))
            },
            TokenKind::LParen => {
                self.advance();
                let inner = self.parse_expr();
                let close = match self.peek_kind() {
                    TokenKind::RParen => true,
                    _ => false,
                };
                if close {
                    self.advance();
                } else {
                    let at = self.current_span();
                    self.error("expected ')'", at);
                }
                assert(self.reported() =~= base + primary(toks, p).diags);
                inner
            },
            TokenKind::Unknown(_) => {
                self.advance();
                assert(self.reported() =~= base + Seq::<DiagnosticView>::empty());
                None
            },
            TokenKind::Eof => {
                self.error("unexpected end of input", span);
                assert(self.reported() =~= base + primary(toks, p).diags);
                None
            },
            other => {
                let mut message = String::from_str("unexpected token: ");
                push_kind_debug(&mut message, other);
                push_diagnostic(&mut self.diagnostics, Diagnostic::error(message, span));
                self.advance();
                assert(self.reported() =~= base + primary(toks, p).diags);
                None
            },
        }
    }

    fn parse_unary(&mut self) -> (r: Option<Node<Expr>>)
        requires
            old(self).wf(),
        ensures
            follows(*old(self), *final(self), unary(old(self).tokens(), old(self).position())),
            r == unary(old(self).tokens(), old(self).position()).value,
            progressed(*old(self), *final(self)),
        decreases old(self).tokens@.len() - old(self).pos, 1int,
    {
        let is_minus = match self.peek_kind() {
            TokenKind::Minus => true,
            _ => false,
        };
        if is_minus {
            let minus_span = self.current_span();
            self.advance();
            let operand = self.parse_unary();
            match operand {
                Some(o) => {
                    let span = Span::new(minus_span.start, o.span.end);
                    Some(Node::new(Expr::Neg(Box::new(o)), span))
                },
                None => None,
            }
        } else {
            self.parse_primary()
        }
    }

    fn parse_multiplicative(&mut self) -> (r: Option<Node<Expr>>)
        requires
            old(self).wf(),
        ensures
            follows(*old(self), *final(self), product(old(self).tokens(), old(self).position())),
            r == product(old(self).tokens(), old(self).position()).value,
            progressed(*old(self), *final(self)),
        decreases old(self).tokens@.len() - old(self).pos, 3int,
    {
        let ghost toks = self.tokens@;
        let ghost p0 = self.pos as int;
        let ghost base = self.reported();
        let first = self.parse_unary();
        let mut left = match first {
            Some(l) => l,
            None => {
                return None;
            },
        };
        let ghost mut acc = unary(toks, p0).diags;
        loop
            invariant
                self.wf(),
                self.tokens@ == toks,
                p0 == old(self).pos,
                toks == old(self).tokens@,
                base == old(self).reported(),
                product(toks, p0) == product_rest(toks, self.pos as int, left, acc),
                self.reported() == base + acc,
                p0 <= self.pos,
                kind_at(toks, p0) != TokenKind::Eof ==> p0 < self.pos,
            decreases self.tokens@.len() - self.pos,
        {
            let op = match self.peek_kind() {
                TokenKind::Star => Some(BinOp::Mul),
                TokenKind::Slash => Some(BinOp::Div),
                _ => None,
            };
            let op = match op {
                Some(op) => op,
                None => {
                    return Some(left);
                },
            };
            let ghost p = self.pos as int;
            let op_span = self.current_span();
            self.advance();
            let right = self.parse_unary();
            proof {
                assert(self.reported() =~= base + (acc + unary(toks, p + 1).diags));
                acc = acc + unary(toks, p + 1).diags;
            }
            match right {
                None => {
                    return None;
                },
                Some(r) => {
                    let span = Span::new(left.span.start, r.span.end);
                    left = Node::new(
                        Expr::Binary { op, op_span, left: Box::new(left), right: Box::new(r) },
                        span,
                    );
                },
            }
        }
    }

    fn parse_additive(&mut self) -> (r: Option<Node<Expr>>)
        requires
            old(self).wf(),
        ensures
            follows(*old(self), *final(self), sum(old(self).tokens(), old(self).position())),
            r == sum(old(self).tokens(), old(self).position()).value,
            progressed(*old(self), *final(self)),
        decreases old(self).tokens@.len() - old(self).pos, 5int,
    {
        let ghost toks = self.tokens@;
        let ghost p0 = self.pos as int;
        let ghost base = self.reported();
        let first = self.parse_multiplicative();
        let mut left = match first {
            Some(l) => l,
            None => {
                return None;
            },
        };
        let ghost mut acc = product(toks, p0).diags;
        loop
            invariant
                self.wf(),
                self.tokens@ == toks,
                p0 == old(self).pos,
                toks == old(self).tokens@,
                base == old(self).reported(),
                sum(toks, p0) == sum_rest(toks, self.pos as int, left, acc),
                self.reported() == base + acc,
                p0 <= self.pos,
                kind_at(toks, p0) != TokenKind::Eof ==> p0 < self.pos,
            decreases self.tokens@.len() - self.pos,
        {
            let op = match self.peek_kind() {
                TokenKind::Plus => Some(BinOp::Add),
                TokenKind::Minus => Some(BinOp::Sub),
                _ => None,
            };
            let op = match op {
                Some(op) => op,
                None => {
                    return Some(left);
                },
            };
            let ghost p = self.pos as int;
            let op_span = self.current_span();
            self.advance();
            let right = self.parse_multiplicative();
            proof {
                assert(self.reported() =~= base + (acc + product(toks, p + 1).diags));
                acc = acc + product(toks, p + 1).diags;
            }
            match right {
                None => {
                    return None;
                },
                Some(r) => {
                    let span = Span::new(left.span.start, r.span.end);
                    left = Node::new(
                        Expr::Binary { op, op_span, left: Box::new(left), right: Box::new(r) },
                        span,
                    );
                },
            }
        }
    }

    fn parse_comparison(&mut self) -> (r: Option<Node<Expr>>)
        requires
            old(self).wf(),
        ensures
            follows(*old(self), *final(self), comparison(old(self).tokens(), old(self).position())),
            r == comparison(old(self).tokens(), old(self).position()).value,
            progressed(*old(self), *final(self)),
        decreases old(self).tokens@.len() - old(self).pos, 7int,
    {
        let ghost toks = self.tokens@;
        let ghost p0 = self.pos as int;
        let ghost base = self.reported();
        let first = self.parse_additive();
        let mut left = match first {
            Some(l) => l,
            None => {
                return None;
            },
        };
        let ghost mut acc = sum(toks, p0).diags;
        loop
            invariant
                self.wf(),
                self.tokens@ == toks,
                p0 == old(self).pos,
                toks == old(self).tokens@,
                base == old(self).reported(),
                comparison(toks, p0) == comparison_rest(toks, self.pos as int, left, acc),
                self.reported() == base + acc,
                p0 <= self.pos,
                kind_at(toks, p0) != TokenKind::Eof ==> p0 < self.pos,
            decreases self.tokens@.len() - self.pos,
        {
            let op = match self.peek_kind() {
                TokenKind::EqEq => Some(CmpOp::Eq),
                TokenKind::BangEq => Some(CmpOp::Ne),
                TokenKind::Lt => Some(CmpOp::Lt),
                TokenKind::LtEq => Some(CmpOp::Le),
                TokenKind::Gt => Some(CmpOp::Gt),
                TokenKind::GtEq => Some(CmpOp::Ge),
                _ => None,
            };
            let op = match op {
                Some(op) => op,
                None => {
                    return Some(left);
                },
            };
            let ghost p = self.pos as int;
            let op_span = self.current_span();
            self.advance();
            let right = self.parse_additive();
            proof {
                assert(self.reported() =~= base + (acc + sum(toks, p + 1).diags));
                acc = acc + sum(toks, p + 1).diags;
            }
            match right {
                None => {
                    return None;
                },
                Some(r) => {
                    let span = Span::new(left.span.start, r.span.end);
                    left = Node::new(
                        Expr::Compare { op, op_span, left: Box::new(left), right: Box::new(r) },
                        span,
                    );
                },
            }
        }
    }

    fn parse_expr(&mut self) -> (r: Option<Node<Expr>>)
        requires
            old(self).wf(),
        ensures
            follows(*old(self), *final(self), expression(old(self).tokens(), old(self).position())),
            r == expression(old(self).tokens(), old(self).position()).value,
            progressed(*old(self), *final(self)),
        decreases old(self).tokens@.len() - old(self).pos, 8int,
    {
        self.parse_comparison()
    }

    fn at_block_end(&self) -> (b: bool)
        requires
            self.wf(),
        ensures
            b == (kind_at(self.tokens@, self.pos as int) == TokenKind::RBrace || kind_at(
                self.tokens@,
                self.pos as int,
            ) == TokenKind::Eof),
    {
        match self.peek_kind() {
            TokenKind::RBrace => true,
            TokenKind::Eof => true,
            _ => false,
        }
    }

    /// Skips the rest of a statement that failed to parse.
    fn synchronize(&mut self)
        requires
            old(self).wf(),
        ensures
            final(self).wf(),
            final(self).tokens@ == old(self).tokens@,
            final(self).diagnostics@ == old(self).diagnostics@,
            final(self).pos == recover(old(self).tokens@, old(self).pos as int),
            old(self).pos <= final(self).pos,
    {
        let ghost toks = self.tokens@;
        let ghost p0 = self.pos as int;
        while !self.at_block_end()
            invariant
                self.wf(),
                self.tokens@ == toks,
                self.diagnostics@ == old(self).diagnostics@,
                recover(toks, p0) == recover(toks, self.pos as int),
                p0 <= self.pos,
                toks == old(self).tokens@,
                p0 == old(self).pos,
            decreases self.tokens@.len() - self.pos,
        {
            let semicolon = match self.peek_kind() {
                TokenKind::Semicolon => true,
                _ => false,
            };
            self.advance();
            if semicolon {
                return;
            }
        }
    }

    fn parse_let_stmt(&mut self) -> (r: Option<Node<Stmt>>)
        requires
            old(self).wf(),
            kind_at(old(self).tokens@, old(self).pos as int) == TokenKind::Let,
        ensures
            follows(*old(self), *final(self), let_statement(old(self).tokens(), old(self).position())),
            opt_stmt_view(r) == let_statement(old(self).tokens(), old(self).position()).value,
            progressed(*old(self), *final(self)),
    {
        let ghost toks = self.tokens@;
        let ghost p = self.pos as int;
        let ghost base = self.reported();
        let let_span = self.current_span();
        self.advance();
        let name = match self.peek_kind() {
            TokenKind::Ident(n) => n.clone(),
            _ => {
                let span = self.current_span();
                self.error("expected identifier after 'let'", span);
                assert(self.reported() =~= base + let_statement(toks, p).diags);
                return None;
            },
        };
        let name_span = self.current_span();
        self.advance();
        let eq = self.expect(&TokenKind::Eq, "expected '=' after binding name");
        if eq.is_none() {
            assert(self.reported() =~= base + let_statement(toks, p).diags);
            return None;
        }
        let value = match self.parse_expr() {
            Some(v) => v,
            None => {
                return None;
            },
        };
        let semi = self.expect(&TokenKind::Semicolon, "expected ';' after 'let' statement");
        if semi.is_none() {
            assert(self.reported() =~= base + let_statement(toks, p).diags);
            return None;
        }
        let span = Span::new(let_span.start, value.span.end);
        Some(Node::new(Stmt::Let { name, name_span, value: Box::new(value) }, span))
    }

    fn parse_expr_stmt(&mut self) -> (r: Option<Node<Stmt>>)
        requires
            old(self).wf(),
        ensures
            follows(
                *old(self),
                *final(self),
                expression_statement(old(self).tokens(), old(self).position()),
            ),
            opt_stmt_view(r) == expression_statement(old(self).tokens(), old(self).position()).value,
            progressed(*old(self), *final(self)),
    {
        let ghost toks = self.tokens@;
        let ghost p = self.pos as int;
        let ghost base = self.reported();
        let expr = match self.parse_expr() {
            Some(e) => e,
            None => {
                return None;
            },
        };
        let semi = self.expect(&TokenKind::Semicolon, "expected ';' after expression");
        if semi.is_none() {
            assert(self.reported() =~= base + expression_statement(toks, p).diags);
            return None;
        }
        let span = expr.span;
        Some(Node::new(Stmt::Expr(expr), span))
    }

    fn parse_stmt(&mut self) -> (r: Option<Node<Stmt>>)
        requires
            old(self).wf(),
        ensures
            follows(*old(self), *final(self), statement(old(self).tokens(), old(self).position())),
            opt_stmt_view(r) == statement(old(self).tokens(), old(self).position()).value,
            progressed(*old(self), *final(self)),
        decreases old(self).tokens@.len() - old(self).pos, 4int,
    {
        let which: u8 = match self.peek_kind() {
            TokenKind::Let => 0,
            TokenKind::If => 1,
            TokenKind::LBrace => 2,
            _ => 3,
        };
        if which == 0 {
            self.parse_let_stmt()
        } else if which == 1 {
            self.parse_if_stmt()
        } else if which == 2 {
            self.parse_block_stmt()
        } else {
            self.parse_expr_stmt()
        }
    }

    fn parse_if_stmt(&mut self) -> (r: Option<Node<Stmt>>)
        requires
            old(self).wf(),
            kind_at(old(self).tokens@, old(self).pos as int) == TokenKind::If,
        ensures
            follows(*old(self), *final(self), if_statement(old(self).tokens(), old(self).position())),
            opt_stmt_view(r) == if_statement(old(self).tokens(), old(self).position()).value,
            progressed(*old(self), *final(self)),
        decreases old(self).tokens@.len() - old(self).pos, 3int,
    {
        let ghost toks = self.tokens@;
        let ghost p = self.pos as int;
        let ghost base = self.reported();
        let if_span = self.current_span();
        self.advance();
        let condition = match self.parse_expr() {
            Some(c) => c,
            None => {
                return None;
            },
        };
        let ghost c_diags = expression(toks, p + 1).diags;
        let ghost c_pos = self.pos as int;
        let (then_block, then_end) = match self.parse_block() {
            Some(b) => b,
            None => {
                assert(self.reported() =~= base + if_statement(toks, p).diags);
                return None;
            },
        };
        let ghost t_diags = block(toks, c_pos).diags;
        let ghost t_pos = self.pos as int;
        let is_else = match self.peek_kind() {
            TokenKind::Else => true,
            _ => false,
        };
        if is_else {
            self.advance();
            match self.parse_block() {
                Some((else_block, else_end)) => {
                    assert(self.reported() =~= base + if_statement(toks, p).diags);
                    let span = Span::new(if_span.start, else_end);
                    Some(
                        Node::new(
                            Stmt::If {
                                condition: Box::new(condition),
                                then_block,
                                else_block: Some(else_block),
                            },
                            span,
                        ),
                    )
                },
                None => {
                    assert(self.reported() =~= base + if_statement(toks, p).diags);
                    None
                },
            }
        } else {
            assert(self.reported() =~= base + if_statement(toks, p).diags);
            let span = Span::new(if_span.start, then_end);
            Some(
                Node::new(
                    Stmt::If { condition: Box::new(condition), then_block, else_block: None },
                    span,
                ),
            )
        }
    }

    fn parse_block(&mut self) -> (r: Option<(Block, usize)>)
        requires
            old(self).wf(),
        ensures
            follows(*old(self), *final(self), block(old(self).tokens(), old(self).position())),
            block_view(r) == block(old(self).tokens(), old(self).position()).value,
            old(self).pos <= final(self).pos,
            kind_at(old(self).tokens@, old(self).pos as int) == TokenKind::LBrace ==> old(self).pos
                < final(self).pos,
        decreases old(self).tokens@.len() - old(self).pos, 2int,
    {
        let ghost toks = self.tokens@;
        let ghost p = self.pos as int;
        let ghost base = self.reported();
        let is_lbrace = match self.peek_kind() {
            TokenKind::LBrace => true,
            _ => false,
        };
        if !is_lbrace {
            let span = self.current_span();
            self.error("expected '{'", span);
            assert(self.reported() =~= base + block(toks, p).diags);
            return None;
        }
        self.advance();
        let ghost q = self.pos as int;
        let mut stmts: Vec<Node<Stmt>> = Vec::new();
        let ghost mut acc: Seq<DiagnosticView> = Seq::empty();
        assert(stmts_view(stmts@) =~= Seq::<Node<StmtView>>::empty());
        assert(self.reported() =~= base + acc);
        while !self.at_block_end()
            invariant
                self.wf(),
                self.tokens@ == toks,
                toks == old(self).tokens@,
                p == old(self).pos,
                base == old(self).reported(),
                q == p + 1,
                block_items(toks, q, Seq::empty(), Seq::empty()) == block_items(
                    toks,
                    self.pos as int,
                    stmts_view(stmts@),
                    acc,
                ),
                self.reported() == base + acc,
                q <= self.pos,
            decreases self.tokens@.len() - self.pos,
        {
            let ghost at = self.pos as int;
            match self.parse_stmt() {
                Some(st) => {
                    proof {
                        lemma_stmts_view_push(stmts@, st);
                    }
                    stmts.push(st);
                },
                None => {
                    self.synchronize();
                },
            }
            proof {
                assert(self.reported() =~= base + (acc + statement(toks, at).diags));
                acc = acc + statement(toks, at).diags;
            }
        }
        let is_rbrace = match self.peek_kind() {
            TokenKind::RBrace => true,
            _ => false,
        };
        if is_rbrace {
            let end = self.current_span().end;
            self.advance();
            Some((Block { stmts }, end))
        } else {
            let span = self.current_span();
            self.error("expected '}'", span);
            assert(self.reported() =~= base + block(toks, p).diags);
            None
        }
    }

    fn parse_block_stmt(&mut self) -> (r: Option<Node<Stmt>>)
        requires
            old(self).wf(),
            kind_at(old(self).tokens@, old(self).pos as int) == TokenKind::LBrace,
        ensures
            follows(*old(self), *final(self), block_statement(old(self).tokens(), old(self).position())),
            opt_stmt_view(r) == block_statement(old(self).tokens(), old(self).position()).value,
            progressed(*old(self), *final(self)),
        decreases old(self).tokens@.len() - old(self).pos, 3int,
    {
        let start = self.current_span().start;
        match self.parse_block() {
            Some((block, end)) => Some(Node::new(Stmt::Block(block), Span::new(start, end))),
            None => None,
        }
    }

    /// Parses statements up to the end of input, skipping the rest of each
    /// statement that fails to parse.
    pub fn parse_program(&mut self) -> (prog: Program)
        requires
            old(self).wf(),
        ensures
            follows(*old(self), *final(self), program(old(self).tokens(), old(self).position())),
            prog.statements() == program(old(self).tokens(), old(self).position()).value,
            kind_at(final(self).tokens(), final(self).position()) == TokenKind::Eof,
    {
        let ghost toks = self.tokens@;
        let ghost p = self.pos as int;
        let ghost base = self.reported();
        let mut stmts: Vec<Node<Stmt>> = Vec::new();
        let ghost mut acc: Seq<DiagnosticView> = Seq::empty();
        assert(stmts_view(stmts@) =~= Seq::<Node<StmtView>>::empty());
        assert(self.reported() =~= base + acc);
        while !self.at_eof()
            invariant
                self.wf(),
                self.tokens@ == toks,
                toks == old(self).tokens@,
                p == old(self).pos,
                base == old(self).reported(),
                program_items(toks, p, Seq::empty(), Seq::empty()) == program_items(
                    toks,
                    self.pos as int,
                    stmts_view(stmts@),
                    acc,
                ),
                self.reported() == base + acc,
            decreases self.tokens@.len() - self.pos,
        {
            let ghost at = self.pos as int;
            match self.parse_stmt() {
                Some(st) => {
                    proof {
                        lemma_stmts_view_push(stmts@, st);
                    }
                    stmts.push(st);
                },
                None => {
                    self.synchronize();
                },
            }
            proof {
                assert(self.reported() =~= base + (acc + statement(toks, at).diags));
                acc = acc + statement(toks, at).diags;
            }
        }
        Program { stmts }
    }

    /// Parses one expression that must be followed by the end of input.
    pub fn parse(&mut self) -> (r: Option<Node<Expr>>)
        requires
            old(self).wf(),
        ensures
            follows(*old(self), *final(self), whole_expression(old(self).tokens(), old(self).position())),
            r == whole_expression(old(self).tokens(), old(self).position()).value,
    {
        let ghost toks = self.tokens@;
        let ghost p = self.pos as int;
        let ghost base = self.reported();
        let result = self.parse_expr();
        if !self.at_eof() {
            let span = self.current_span();
            let mut message = String::from_str("unexpected token after expression: ");
            push_kind_debug(&mut message, self.peek_kind());
            push_diagnostic(&mut self.diagnostics, Diagnostic::error(message, span));
            assert(self.reported() =~= base + whole_expression(toks, p).diags);
        }
        result
    }
}

} // verus!
