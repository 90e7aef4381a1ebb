//! Tokens: what the lexer produces and the parser reads.

use vstd::prelude::*;

use crate::diagnostics::Span;
use crate::text::{
    char_debug, char_debug_text, push_signed_decimal, signed_decimal, str_debug, str_debug_text,
};

verus! {

#[derive(Debug, Clone, PartialEq)]
pub enum TokenKind {
    Integer(i64),
    Ident(String),
    Let,
    If,
    Else,
    True,
    False,
    Plus,
    Minus,
    Star,
    Slash,
    Eq,
    EqEq,
    BangEq,
    Lt,
    LtEq,
    Gt,
    GtEq,
    LParen,
    RParen,
    LBrace,
    RBrace,
    Semicolon,
    Eof,
    Unknown(char),
}

#[derive(Debug, Clone, PartialEq)]
pub struct Token {
    pub kind: TokenKind,
    pub span: Span,
}

impl Token {
    pub fn new(kind: TokenKind, start: usize, end: usize) -> (t: Token)
        ensures
            t == (Token { kind, span: Span { start, end } }),
    {
        Token { kind, span: Span::new(start, end) }
    }
}

/// Two token kinds are equal as `==` compares them: by variant, and by the
/// number, the name's characters or the character they carry.
pub open spec fn same_kind(a: TokenKind, b: TokenKind) -> bool {
    match (a, b) {
        (TokenKind::Ident(x), TokenKind::Ident(y)) => x@ == y@,
        _ => a == b,
    }
}

/// Compares two token kinds.
pub fn kinds_equal(a: &TokenKind, b: &TokenKind) -> (r: bool)
    ensures
        r == same_kind(*a, *b),
{
    match (a, b) {
        (TokenKind::Integer(x), TokenKind::Integer(y)) => *x == *y,
        (TokenKind::Ident(x), TokenKind::Ident(y)) => *x == *y,
        (TokenKind::Unknown(x), TokenKind::Unknown(y)) => *x == *y,
        (TokenKind::Let, TokenKind::Let) => true,
        (TokenKind::If, TokenKind::If) => true,
        (TokenKind::Else, TokenKind::Else) => true,
        (TokenKind::True, TokenKind::True) => true,
        (TokenKind::False, TokenKind::False) => true,
        (TokenKind::Plus, TokenKind::Plus) => true,
        (TokenKind::Minus, TokenKind::Minus) => true,
        (TokenKind::Star, TokenKind::Star) => true,
        (TokenKind::Slash, TokenKind::Slash) => true,
        (TokenKind::Eq, TokenKind::Eq) => true,
        (TokenKind::EqEq, TokenKind::EqEq) => true,
        (TokenKind::BangEq, TokenKind::BangEq) => true,
        (TokenKind::Lt, TokenKind::Lt) => true,
        (TokenKind::LtEq, TokenKind::LtEq) => true,
        (TokenKind::Gt, TokenKind::Gt) => true,
        (TokenKind::GtEq, TokenKind::GtEq) => true,
        (TokenKind::LParen, TokenKind::LParen) => true,
        (TokenKind::RParen, TokenKind::RParen) => true,
        (TokenKind::LBrace, TokenKind::LBrace) => true,
        (TokenKind::RBrace, TokenKind::RBrace) => true,
        (TokenKind::Semicolon, TokenKind::Semicolon) => true,
        (TokenKind::Eof, TokenKind::Eof) => true,
        _ => false,
    }
}

/// A token kind as the lexer's specification describes it: the kind itself, or
/// for an identifier, the characters of its name.
pub enum Lexeme {
    Kind(TokenKind),
    Name(Seq<char>),
}

impl Lexeme {
    /// The token kind `k` is the one this lexeme describes.
    pub open spec fn describes(self, k: TokenKind) -> bool {
        match self {
            Lexeme::Kind(x) => k == x,
            Lexeme::Name(t) => k matches TokenKind::Ident(n) && n@ == t,
        }
    }
}

/// The text that `{:?}` writes for a token kind.
pub open spec fn kind_debug(k: TokenKind) -> Seq<char> {
    match k {
        TokenKind::Integer(n) => "Integer("@ + signed_decimal(n as int) + ")"@,
        TokenKind::Ident(s) => "Ident("@ + str_debug(s@) + ")"@,
        TokenKind::Let => "Let"@,
        TokenKind::If => "If"@,
        TokenKind::Else => "Else"@,
        TokenKind::True => "True"@,
        TokenKind::False => "False"@,
        TokenKind::Plus => "Plus"@,
        TokenKind::Minus => "Minus"@,
        TokenKind::Star => "Star"@,
        TokenKind::Slash => "Slash"@,
        TokenKind::Eq => "Eq"@,
        TokenKind::EqEq => "EqEq"@,
        TokenKind::BangEq => "BangEq"@,
        TokenKind::Lt => "Lt"@,
        TokenKind::LtEq => "LtEq"@,
        TokenKind::Gt => "Gt"@,
        TokenKind::GtEq => "GtEq"@,
        TokenKind::LParen => "LParen"@,
        TokenKind::RParen => "RParen"@,
        TokenKind::LBrace => "LBrace"@,
        TokenKind::RBrace => "RBrace"@,
        TokenKind::Semicolon => "Semicolon"@,
        TokenKind::Eof => "Eof"@,
        TokenKind::Unknown(c) => "Unknown("@ + char_debug(c) + ")"@,
    }
}

/// Appends what `{:?}` writes for a token kind.
pub fn push_kind_debug(s: &mut String, k: &TokenKind)
    ensures
        final(s)@ == old(s)@ + kind_debug(*k),
{
    match k {
        TokenKind::Integer(n) => {
            s.append("Integer(");
            push_signed_decimal(s, *n);
            s.append(")");
        },
        TokenKind::Ident(name) => {
            s.append("Ident(");
            let d = str_debug_text(name.as_str());
            s.append(d.as_str());
            s.append(")");
        },
        TokenKind::Unknown(c) => {
            s.append("Unknown(");
            let d = char_debug_text(*c);
            s.append(d.as_str());
            s.append(")");
        },
        TokenKind::Let => s.append("Let"),
        TokenKind::If => s.append("If"),
        TokenKind::Else => s.append("Else"),
        TokenKind::True => s.append("True"),
        TokenKind::False => s.append("False"),
        TokenKind::Plus => s.append("Plus"),
        TokenKind::Minus => s.append("Minus"),
        TokenKind::Star => s.append("Star"),
        TokenKind::Slash => s.append("Slash"),
        TokenKind::Eq => s.append("Eq"),
        TokenKind::EqEq => s.append("EqEq"),
        TokenKind::BangEq => s.append("BangEq"),
        TokenKind::Lt => s.append("Lt"),
        TokenKind::LtEq => s.append("LtEq"),
        TokenKind::Gt => s.append("Gt"),
        TokenKind::GtEq => s.append("GtEq"),
        TokenKind::LParen => s.append("LParen"),
        TokenKind::RParen => s.append("RParen"),
        TokenKind::LBrace => s.append("LBrace"),
        TokenKind::RBrace => s.append("RBrace"),
        TokenKind::Semicolon => s.append("Semicolon"),
        TokenKind::Eof => s.append("Eof"),
    }
    assert(final(s)@ =~= old(s)@ + kind_debug(*k));
}

} // verus!
