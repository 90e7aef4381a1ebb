//! The lexer: source text to tokens.
//!
//! The specification reads the source as a sequence of characters and says, for
//! every character position, which token starts there (after white space), where
//! the next one begins, and which diagnostic, if any, the token comes with. Spans
//! are byte offsets into the UTF-8 encoding of the source.

use vstd::prelude::*;
use vstd::utf8::encode_utf8;

use crate::diagnostics::{Diagnostic, DiagnosticView, Span, error_at, push_diagnostic, views};
use crate::text::{
    alphabetic, alphanumeric, byte_offset, char_is_alphabetic, char_is_alphanumeric,
    char_is_ascii_digit, char_is_whitespace, char_width, chars_of, decimal, digit_char,
    is_ascii_digit, is_ascii_letter, is_whitespace, lemma_byte_offset_monotone,
    lemma_byte_offset_step, lemma_offsets_bounded,
};
use crate::token::{Lexeme, Token, TokenKind};

verus! {

// ---------------------------------------------------------------------------
// The specification
/// The first position at or after `i` that does not hold white space.
pub open spec fn skip_whitespace(s: Seq<char>, i: int) -> int
    decreases s.len() - i,
{
    if 0 <= i < s.len() && is_whitespace(s[i]) {
        skip_whitespace(s, i + 1)
    } else {
        i
    }
}

/// The first position at or after `i` that does not hold an ASCII digit.
pub open spec fn scan_digits(s: Seq<char>, i: int) -> int
    decreases s.len() - i,
{
    if 0 <= i < s.len() && is_ascii_digit(s[i]) {
        scan_digits(s, i + 1)
    } else {
        i
    }
}

/// A character that continues a name: a letter, a digit or '_'. No white-space
/// character is alphanumeric, which the call that tests it states.
pub open spec fn is_word_char(c: char) -> bool {
    (alphanumeric(c) && !is_whitespace(c)) || c == '_'
}

/// The first position at or after `i` that does not hold a character of a name.
pub open spec fn scan_word(s: Seq<char>, i: int) -> int
    decreases s.len() - i,
{
    if 0 <= i < s.len() && is_word_char(s[i]) {
        scan_word(s, i + 1)
    } else {
        i
    }
}

/// The value of a numeral of ASCII digits.
pub open spec fn digits_value(t: Seq<char>) -> nat
    decreases t.len(),
{
    if t.len() == 0 {
        0
    } else {
        digits_value(t.drop_last()) * 10 + ((t.last() as int) - ('0' as int)) as nat
    }
}

/// The token kind of a word: a keyword, or else a name.
pub open spec fn word_lexeme(t: Seq<char>) -> Lexeme {
    if t == seq!['l', 'e', 't'] {
        Lexeme::Kind(TokenKind::Let)
    } else if t == seq!['t', 'r', 'u', 'e'] {
        Lexeme::Kind(TokenKind::True)
    } else if t == seq!['f', 'a', 'l', 's', 'e'] {
        Lexeme::Kind(TokenKind::False)
    } else if t == seq!['i', 'f'] {
        Lexeme::Kind(TokenKind::If)
    } else if t == seq!['e', 'l', 's', 'e'] {
        Lexeme::Kind(TokenKind::Else)
    } else {
        Lexeme::Name(t)
    }
}

/// One token of the specification: what it is, where it lies, where the next
/// token's search starts, and the diagnostic that comes with it.
pub struct Lexed {
    pub lexeme: Lexeme,
    pub span: Span,
    pub next: int,
    pub diagnostic: Option<DiagnosticView>,
}

pub open spec fn lexed(lexeme: Lexeme, s: Seq<char>, i: int, next: int) -> Lexed {
    Lexed {
        lexeme,
        span: Span { start: byte_offset(s, i) as usize, end: byte_offset(s, next) as usize },
        next,
        diagnostic: None,
    }
}

pub open spec fn operator(k: TokenKind, s: Seq<char>, i: int) -> Lexed {
    lexed(Lexeme::Kind(k), s, i, i + 1)
}

/// An operator of one character, or of two when the next character is '='.
pub open spec fn with_eq(one: TokenKind, two: TokenKind, s: Seq<char>, i: int) -> Lexed {
    if i + 1 < s.len() && s[i + 1] == '=' {
        lexed(Lexeme::Kind(two), s, i, i + 2)
    } else {
        lexed(Lexeme::Kind(one), s, i, i + 1)
    }
}

pub open spec fn unknown_message(c: char) -> Seq<char> {
    "unknown character '"@.push(c) + "'"@
}

pub open spec fn overflow_message(text: Seq<char>) -> Seq<char> {
    "integer literal '"@ + text + "' overflows i64"@
}

/// The token that starts at position `i`, which holds no white space.
pub open spec fn lex_at(s: Seq<char>, i: int) -> Lexed {
    if i >= s.len() {
        lexed(Lexeme::Kind(TokenKind::Eof), s, s.len() as int, s.len() as int)
    } else {
        let c = s[i];
        if c == '+' {
            operator(TokenKind::Plus, s, i)
        } else if c == '-' {
            operator(TokenKind::Minus, s, i)
        } else if c == '*' {
            operator(TokenKind::Star, s, i)
        } else if c == '/' {
            operator(TokenKind::Slash, s, i)
        } else if c == '(' {
            operator(TokenKind::LParen, s, i)
        } else if c == ')' {
            operator(TokenKind::RParen, s, i)
        } else if c == '{' {
            operator(TokenKind::LBrace, s, i)
        } else if c == '}' {
            operator(TokenKind::RBrace, s, i)
        } else if c == ';' {
            operator(TokenKind::Semicolon, s, i)
        } else if c == '=' {
            with_eq(TokenKind::Eq, TokenKind::EqEq, s, i)
        } else if c == '<' {
            with_eq(TokenKind::Lt, TokenKind::LtEq, s, i)
        } else if c == '>' {
            with_eq(TokenKind::Gt, TokenKind::GtEq, s, i)
        } else if c == '!' {
            if i + 1 < s.len() && s[i + 1] == '=' {
                lexed(Lexeme::Kind(TokenKind::BangEq), s, i, i + 2)
            } else {
                let t = lexed(Lexeme::Kind(TokenKind::Unknown('!')), s, i, i + 1);
                Lexed { diagnostic: Some(error_at(unknown_message('!'), t.span)), ..t }
            }
        } else if is_ascii_digit(c) {
            let end = scan_digits(s, i + 1);
            let text = s.subrange(i, end);
            if digits_value(text) <= i64::MAX {
                lexed(Lexeme::Kind(TokenKind::Integer(digits_value(text) as i64)), s, i, end)
            } else {
                let t = lexed(Lexeme::Kind(TokenKind::Integer(0)), s, i, end);
                Lexed { diagnostic: Some(error_at(overflow_message(text), t.span)), ..t }
            }
        } else if alphabetic(c) || c == '_' {
            let end = scan_word(s, i + 1);
            lexed(word_lexeme(s.subrange(i, end)), s, i, end)
        } else {
            let t = lexed(Lexeme::Kind(TokenKind::Unknown(c)), s, i, i + 1);
            Lexed { diagnostic: Some(error_at(unknown_message(c), t.span)), ..t }
        }
    }
}

/// The token found by a search that starts at position `i`.
pub open spec fn next_lexed(s: Seq<char>, i: int) -> Lexed {
    lex_at(s, skip_whitespace(s, i))
}

pub open spec fn option_seq<T>(o: Option<T>) -> Seq<T> {
    match o {
        Some(x) => seq![x],
        None => Seq::empty(),
    }
}

/// All tokens from position `i` on, up to and including `Eof`, with their spans,
/// and the diagnostics that come with them, in order.
pub open spec fn lex_from(s: Seq<char>, i: int) -> (Seq<(Lexeme, Span)>, Seq<DiagnosticView>)
    decreases s.len() - i,
{
    let t = next_lexed(s, i);
    let here = seq![(t.lexeme, t.span)];
    let d = option_seq(t.diagnostic);
    if t.lexeme != Lexeme::Kind(TokenKind::Eof) && i < t.next <= s.len() {
        let rest = lex_from(s, t.next);
        (here + rest.0, d + rest.1)
    } else {
        (here, d)
    }
}

/// The tokens of a source text, and the lexer's diagnostics for it.
pub open spec fn lex(s: Seq<char>) -> (Seq<(Lexeme, Span)>, Seq<DiagnosticView>) {
    lex_from(s, 0)
}

/// `tokens` are the tokens that `lexemes` describe, span for span.
pub open spec fn described_by(tokens: Seq<Token>, lexemes: Seq<(Lexeme, Span)>) -> bool {
    &&& tokens.len() == lexemes.len()
    &&& forall|k: int|
        0 <= k < tokens.len() ==> (#[trigger] lexemes[k]).0.describes(tokens[k].kind)
            && tokens[k].span == lexemes[k].1
}


// ---------------------------------------------------------------------------
// Facts about the specification


pub proof fn lemma_skip_whitespace_bounds(s: Seq<char>, i: int)
    requires
        0 <= i <= s.len(),
    ensures
        i <= skip_whitespace(s, i) <= s.len(),
        skip_whitespace(s, i) < s.len() ==> !is_whitespace(s[skip_whitespace(s, i)]),
    decreases s.len() - i,
{
    if i < s.len() && is_whitespace(s[i]) {
        lemma_skip_whitespace_bounds(s, i + 1);
    }
}

pub proof fn lemma_scan_digits_bounds(s: Seq<char>, i: int)
    requires
        0 <= i <= s.len(),
    ensures
        i <= scan_digits(s, i) <= s.len(),
    decreases s.len() - i,
{
    if i < s.len() && is_ascii_digit(s[i]) {
        lemma_scan_digits_bounds(s, i + 1);
    }
}

pub proof fn lemma_scan_word_bounds(s: Seq<char>, i: int)
    requires
        0 <= i <= s.len(),
    ensures
        i <= scan_word(s, i) <= s.len(),
    decreases s.len() - i,
{
    if i < s.len() && is_word_char(s[i]) {
        lemma_scan_word_bounds(s, i + 1);
    }
}

/// A token other than `Eof` takes at least one character, and only the end of
/// the text gives `Eof`.
pub proof fn lemma_lex_at_progress(s: Seq<char>, i: int)
    requires
        0 <= i <= s.len(),
    ensures
        i < s.len() ==> i < lex_at(s, i).next <= s.len(),
        i < s.len() ==> lex_at(s, i).lexeme != Lexeme::Kind(TokenKind::Eof),
        i == s.len() ==> lex_at(s, i).lexeme == Lexeme::Kind(TokenKind::Eof) && lex_at(s, i).next
            == i,
{
    if i < s.len() {
        lemma_scan_digits_bounds(s, i + 1);
        lemma_scan_word_bounds(s, i + 1);
        let t = s.subrange(i, scan_word(s, i + 1));
        assert(word_lexeme(t) != Lexeme::Kind(TokenKind::Eof));
    }
}

pub proof fn lemma_lex_from_unfold(s: Seq<char>, i: int)
    requires
        0 <= i <= s.len(),
    ensures
        ({
            let t = next_lexed(s, i);
            let j = skip_whitespace(s, i);
            &&& i <= j <= s.len()
            &&& j < s.len() ==> i < t.next <= s.len() && t.lexeme != Lexeme::Kind(TokenKind::Eof)
                && lex_from(s, i) == (seq![(t.lexeme, t.span)] + lex_from(s, t.next).0,
                option_seq(t.diagnostic) + lex_from(s, t.next).1)
            &&& j == s.len() ==> t.lexeme == Lexeme::Kind(TokenKind::Eof) && t.next == s.len()
                && lex_from(s, i) == (seq![(t.lexeme, t.span)], option_seq(t.diagnostic))
        }),
{
    lemma_skip_whitespace_bounds(s, i);
    lemma_lex_at_progress(s, skip_whitespace(s, i));
}

// ---------------------------------------------------------------------------
// Laws
/// The tokens found from position `i` on end with `Eof`, and no other token is `Eof`.
pub proof fn tokens_end_with_eof(s: Seq<char>, i: int)
    requires
        0 <= i <= s.len(),
    ensures
        lex_from(s, i).0.len() > 0,
        lex_from(s, i).0.last().0 == Lexeme::Kind(TokenKind::Eof),
        forall|k: int|
            0 <= k < lex_from(s, i).0.len() - 1 ==> (#[trigger] lex_from(s, i).0[k]).0
                != Lexeme::Kind(TokenKind::Eof),
    decreases s.len() - i,
{
    lemma_lex_from_unfold(s, i);
    let t = next_lexed(s, i);
    if skip_whitespace(s, i) < s.len() {
        tokens_end_with_eof(s, t.next);
        let rest = lex_from(s, t.next).0;
        let all = lex_from(s, i).0;
        assert(all == seq![(t.lexeme, t.span)] + rest);
        assert forall|k: int| 0 <= k < all.len() - 1 implies (#[trigger] all[k]).0 != Lexeme::Kind(
            TokenKind::Eof,
        ) by {
            if k > 0 {
                assert(all[k] == rest[k - 1]);
            }
        }
    }
}

/// The spans of the tokens found from position `i` on lie in order within the
/// source, none before the byte offset of `i`: each ends where or before the
/// next one starts.
pub proof fn token_spans_are_ordered(s: Seq<char>, i: int)
    requires
        0 <= i <= s.len(),
        byte_offset(s, s.len() as int) <= usize::MAX,
    ensures
        ({
            let toks = lex_from(s, i).0;
            &&& forall|k: int|
                0 <= k < toks.len() ==> byte_offset(s, i) <= (#[trigger] toks[k]).1.start
                    <= toks[k].1.end <= byte_offset(s, s.len() as int)
            &&& forall|k: int|
                0 <= k < toks.len() - 1 ==> (#[trigger] toks[k]).1.end <= toks[k + 1].1.start
        }),
    decreases s.len() - i,
{
    lemma_lex_from_unfold(s, i);
    let j = skip_whitespace(s, i);
    let t = next_lexed(s, i);
    let all = lex_from(s, i).0;
    lemma_byte_offset_monotone(s, i, j);
    lemma_offsets_bounded(s, j);
    lemma_skip_whitespace_bounds(s, i);
    lemma_lex_at_progress(s, j);
    if j < s.len() {
        lemma_byte_offset_monotone(s, j, t.next);
        lemma_offsets_bounded(s, t.next);
        token_spans_are_ordered(s, t.next);
        let rest = lex_from(s, t.next).0;
        assert(all == seq![(t.lexeme, t.span)] + rest);
        lemma_scan_digits_bounds(s, j + 1);
        lemma_scan_word_bounds(s, j + 1);
        assert(t.span.start == byte_offset(s, j) && t.span.end == byte_offset(s, t.next));
        assert forall|k: int| 0 <= k < all.len() implies byte_offset(s, i) <= (
        #[trigger] all[k]).1.start <= all[k].1.end <= byte_offset(s, s.len() as int) by {
            if k > 0 {
                assert(all[k] == rest[k - 1]);
            }
        }
        assert forall|k: int| 0 <= k < all.len() - 1 implies (#[trigger] all[k]).1.end <= all[k
            + 1].1.start by {
            assert(all[k + 1] == rest[k]);
            if k > 0 {
                assert(all[k] == rest[k - 1]);
            }
        }
    } else {
        assert(all == seq![(t.lexeme, t.span)]);
        assert(s.take(s.len() as int) =~= s);
    }
}

/// The diagnostic that comes with a single token.
proof fn lemma_token_diagnostic(s: Seq<char>, j: int)
    requires
        0 <= j <= s.len(),
    ensures
        ({
            let t = lex_at(s, j);
            &&& t.lexeme matches Lexeme::Kind(TokenKind::Unknown(c)) ==> t.diagnostic == Some(
                error_at(unknown_message(c), t.span),
            )
            &&& t.diagnostic matches Some(d) ==> d.span == t.span && t.lexeme is Kind && (
            t.lexeme->Kind_0 is Unknown || t.lexeme->Kind_0 == TokenKind::Integer(0))
        }),
{
    if j < s.len() {
        lemma_scan_word_bounds(s, j + 1);
        let w = word_lexeme(s.subrange(j, scan_word(s, j + 1)));
        assert(!(w matches Lexeme::Kind(TokenKind::Unknown(_))));
    }
}

/// The lexer reports exactly the tokens it could not read as written: every
/// character that starts no token is reported at its span, and every report is
/// at the span of such a token or of an integer literal read as 0 because it
/// does not fit in `i64`.
#[verifier::rlimit(40)]
pub proof fn unreadable_tokens_are_reported(s: Seq<char>, i: int)
    requires
        0 <= i <= s.len(),
    ensures
        ({
            let (toks, diags) = lex_from(s, i);
            &&& forall|k: int|
                0 <= k < toks.len() ==> ((#[trigger] toks[k]).0 matches Lexeme::Kind(
                    TokenKind::Unknown(c),
                ) ==> exists|m: int|
                    0 <= m < diags.len() && #[trigger] diags[m] == error_at(
                        unknown_message(c),
                        toks[k].1,
                    ))
            &&& forall|m: int|
                0 <= m < diags.len() ==> exists|k: int|
                    0 <= k < toks.len() && (#[trigger] diags[m]).span == #[trigger] toks[k].1 && (
                    toks[k].0 is Kind && (toks[k].0->Kind_0 is Unknown || toks[k].0->Kind_0
                        == TokenKind::Integer(0)))
        }),
    decreases s.len() - i,
{
    lemma_lex_from_unfold(s, i);
    let j = skip_whitespace(s, i);
    let t = next_lexed(s, i);
    let (toks, diags) = lex_from(s, i);
    let here = option_seq(t.diagnostic);
    lemma_skip_whitespace_bounds(s, i);
    lemma_token_diagnostic(s, j);
    if j < s.len() {
        unreadable_tokens_are_reported(s, t.next);
        let (rt, rd) = lex_from(s, t.next);
        assert(toks == seq![(t.lexeme, t.span)] + rt);
        assert(diags == here + rd);
        assert forall|k: int|
            0 <= k < toks.len() implies ((#[trigger] toks[k]).0 matches Lexeme::Kind(
                TokenKind::Unknown(c),
            ) ==> exists|m: int|
                0 <= m < diags.len() && #[trigger] diags[m] == error_at(
                    unknown_message(c),
                    toks[k].1,
                )) by {
            if k == 0 {
                if let Lexeme::Kind(TokenKind::Unknown(c)) = toks[k].0 {
                    assert(diags[0] == error_at(unknown_message(c), toks[0].1));
                }
            } else {
                assert(toks[k] == rt[k - 1]);
                if let Lexeme::Kind(TokenKind::Unknown(c)) = toks[k].0 {
                    let m = choose|m: int|
                        0 <= m < rd.len() && #[trigger] rd[m] == error_at(
                            unknown_message(c),
                            rt[k - 1].1,
                        );
                    assert(diags[here.len() + m] == rd[m]);
                }
            }
        }
        assert forall|m: int| 0 <= m < diags.len() implies exists|k: int|
            0 <= k < toks.len() && (#[trigger] diags[m]).span == #[trigger] toks[k].1 && (
            toks[k].0 is Kind && (toks[k].0->Kind_0 is Unknown || toks[k].0->Kind_0
                == TokenKind::Integer(0))) by {
            if m < here.len() {
                assert(toks[0] == (t.lexeme, t.span));
            } else {
                assert(diags[m] == rd[m - here.len()]);
                let k = choose|k: int|
                    0 <= k < rt.len() && (#[trigger] rd[m - here.len()]).span == #[trigger] rt[
                        k].1 && (rt[k].0 is Kind && (rt[k].0->Kind_0 is Unknown || rt[k].0->Kind_0
                        == TokenKind::Integer(0)));
                assert(toks[k + 1] == rt[k]);
            }
        }
    } else {
        assert(toks == seq![(t.lexeme, t.span)]);
        assert(diags == here);
    }
}

// ---------------------------------------------------------------------------
// The lexer
pub struct Lexer {
    chars: Vec<char>,
    index: usize,
    offset: usize,
    total: usize,
    diagnostics: Vec<Diagnostic>,
}

impl Lexer {
    /// The characters of the source text.
    pub closed spec fn text(&self) -> Seq<char> {
        self.chars@
    }

    /// The position where the next token's search starts.
    pub closed spec fn cursor(&self) -> int {
        self.index as int
    }

    /// The diagnostics reported so far.
    pub closed spec fn reported(&self) -> Seq<DiagnosticView> {
        views(self.diagnostics@)
    }

    pub closed spec fn wf(&self) -> bool {
        &&& self.index <= self.chars.len()
        &&& self.offset == byte_offset(self.chars@, self.index as int)
        &&& self.total == byte_offset(self.chars@, self.chars.len() as int)
    }

    /// The cursor of a well-formed lexer lies within its text.
    pub proof fn lemma_cursor_in_text(&self)
        requires
            self.wf(),
        ensures
            0 <= self.cursor() <= self.text().len(),
    {
    }

    pub fn new(source: &str) -> (lexer: Lexer)
        requires
            encode_utf8(source@).len() <= usize::MAX,
        ensures
            lexer.wf(),
            lexer.text() == source@,
            lexer.cursor() == 0,
            lexer.reported() == Seq::<DiagnosticView>::empty(),
    {
        let chars = chars_of(source);
        let total = source.len();
        assert(chars@.take(chars@.len() as int) =~= chars@);
        assert(chars@.take(0) =~= Seq::<char>::empty());
        let lexer = Lexer { chars, index: 0, offset: 0, total, diagnostics: Vec::new() };
        assert(lexer.reported() =~= Seq::<DiagnosticView>::empty());
        lexer
    }

    fn peek(&self) -> (c: Option<char>)
        requires
            self.wf(),
        ensures
            c == if self.index < self.chars.len() {
                Some(self.chars@[self.index as int])
            } else {
                None
            },
    {
        if self.index < self.chars.len() {
            Some(self.chars[self.index])
        } else {
            None
        }
    }

    /// The next character is `c`.
    fn peek_is(&self, c: char) -> (b: bool)
        requires
            self.wf(),
        ensures
            b == (self.index < self.chars.len() && self.chars@[self.index as int] == c),
    {
        self.index < self.chars.len() && self.chars[self.index] == c
    }

    fn pos(&self) -> (p: usize)
        requires
            self.wf(),
        ensures
            p == byte_offset(self.chars@, self.index as int),
    {
        self.offset
    }

    fn advance(&mut self) -> (r: Option<(usize, char)>)
        requires
            old(self).wf(),
        ensures
            final(self).wf(),
            final(self).chars@ == old(self).chars@,
            final(self).diagnostics == old(self).diagnostics,
            old(self).index < old(self).chars.len() ==> final(self).index == old(self).index + 1
                && r == Some(
                (byte_offset(old(self).chars@, old(self).index as int) as usize,
                old(self).chars@[old(self).index as int])),
            old(self).index == old(self).chars.len() ==> final(self).index == old(self).index
                && r is None,
    {
        if self.index < self.chars.len() {
            let c = self.chars[self.index];
            let at = self.offset;
            proof {
                lemma_byte_offset_step(self.chars@, self.index as int);
                lemma_offsets_bounded(self.chars@, self.index + 1);
            }
            let w = char_width(c);
            self.index = self.index + 1;
            self.offset = self.offset + w;
            Some((at, c))
        } else {
            None
        }
    }

    fn skip_whitespace(&mut self)
        requires
            old(self).wf(),
        ensures
            final(self).wf(),
            final(self).chars@ == old(self).chars@,
            final(self).diagnostics == old(self).diagnostics,
            final(self).index == skip_whitespace(old(self).chars@, old(self).index as int),
    {
        let ghost s = self.chars@;
        let ghost i0 = self.index as int;
        loop
            invariant
                self.wf(),
                self.chars@ == s,
                self.diagnostics == old(self).diagnostics,
                skip_whitespace(s, i0) == skip_whitespace(s, self.index as int),
            ensures
                skip_whitespace(s, i0) == self.index,
            decreases s.len() - self.index,
        {
            match self.peek() {
                Some(c) => {
                    if char_is_whitespace(c) {
                        self.advance();
                    } else {
                        break;
                    }
                },
                None => {
                    break;
                },
            }
        }
    }

    fn read_integer(&mut self, start: usize, first: char) -> (t: Token)
        requires
            old(self).wf(),
            old(self).index >= 1,
            old(self).chars@[old(self).index - 1] == first,
            is_ascii_digit(first),
            start == byte_offset(old(self).chars@, old(self).index - 1),
        ensures
            final(self).wf(),
            final(self).chars@ == old(self).chars@,
            ({
                let l = lex_at(old(self).chars@, old(self).index - 1);
                &&& l.lexeme.describes(t.kind)
                &&& t.span == l.span
                &&& final(self).index == l.next
                &&& views(final(self).diagnostics@) == views(old(self).diagnostics@)
                    + option_seq(l.diagnostic)
            }),
    {
        let ghost s = self.chars@;
        let ghost i = self.index - 1;
        let mut text = String::new();
        text.push(first);
        let mut value: Option<i64> = Some((first as u32 - '0' as u32) as i64);
        proof {
            assert(s.subrange(i, i + 1) =~= seq![first]);
            assert(seq![first].drop_last() =~= Seq::<char>::empty());
            assert(text@ =~= s.subrange(i, i + 1));
            assert(digits_value(Seq::<char>::empty()) == 0);
            assert(digits_value(text@) == (first as int) - ('0' as int));
        }
        loop
            invariant
                self.wf(),
                self.chars@ == s,
                self.diagnostics == old(self).diagnostics,
                0 <= i,
                i + 1 <= self.index <= s.len(),
                text@ == s.subrange(i, self.index as int),
                scan_digits(s, i + 1) == scan_digits(s, self.index as int),
                value == if digits_value(text@) <= i64::MAX {
                    Some(digits_value(text@) as i64)
                } else {
                    None::<i64>
                },
            ensures
                scan_digits(s, i + 1) == self.index,
            decreases s.len() - self.index,
        {
            match self.peek() {
                Some(c) => {
                    if char_is_ascii_digit(c) {
                        let ghost before = text@;
                        let ghost at = self.index as int;
                        assert(at < s.len());
                        assert(i <= at);
                        assert(c == s[at]);
                        assert(s.subrange(i, at + 1) =~= s.subrange(i, at).push(s[at]));
                        self.advance();
                        text.push(c);
                        let d = (c as u32 - '0' as u32) as i64;
                        value = match value {
                            Some(v) => match v.checked_mul(10) {
                                Some(m) => m.checked_add(d),
                                None => None,
                            },
                            None => None,
                        };
                        proof {
                            assert(text@.drop_last() =~= before);
                            assert(text@ =~= s.subrange(i, self.index as int));
                        }
                    } else {
                        break;
                    }
                },
                None => {
                    break;
                },
            }
        }
        let end = self.pos();
        proof {
            lemma_offsets_bounded(s, i);
        }
        match value {
            Some(v) => Token::new(TokenKind::Integer(v), start, end),
            None => {
                let mut message = String::new();
                message.append("integer literal '");
                message.append(text.as_str());
                message.append("' overflows i64");
                proof {
                    assert(message@ =~= overflow_message(s.subrange(i, self.index as int)));
                }
                push_diagnostic(&mut self.diagnostics, Diagnostic::error(message, Span::new(start, end)));
                Token::new(TokenKind::Integer(0), start, end)
            },
        }
    }

    fn read_ident(&mut self, start: usize, first: char) -> (t: Token)
        requires
            old(self).wf(),
            old(self).index >= 1,
            old(self).chars@[old(self).index - 1] == first,
            !is_ascii_digit(first),
            alphabetic(first) || first == '_',
            (first as u32) >= 128 || is_ascii_letter(first) || first == '_',
            start == byte_offset(old(self).chars@, old(self).index - 1),
        ensures
            final(self).wf(),
            final(self).chars@ == old(self).chars@,
            final(self).diagnostics == old(self).diagnostics,
            ({
                let l = lex_at(old(self).chars@, old(self).index - 1);
                &&& l.lexeme.describes(t.kind)
                &&& t.span == l.span
                &&& final(self).index == l.next
                &&& l.diagnostic is None
            }),
    {
        let ghost s = self.chars@;
        let ghost i = self.index - 1;
        let first_at = self.index - 1;
        let mut text = String::new();
        text.push(first);
        proof {
            assert(text@ =~= s.subrange(i, i + 1));
        }
        loop
            invariant
                self.wf(),
                self.chars@ == s,
                self.diagnostics == old(self).diagnostics,
                0 <= i,
                i + 1 <= self.index <= s.len(),
                text@ == s.subrange(i, self.index as int),
                scan_word(s, i + 1) == scan_word(s, self.index as int),
            ensures
                scan_word(s, i + 1) == self.index,
            decreases s.len() - self.index,
        {
            match self.peek() {
                Some(c) => {
                    if char_is_alphanumeric(c) || c == '_' {
                        let ghost at = self.index as int;
                        assert(s.subrange(i, at + 1) =~= s.subrange(i, at).push(s[at]));
                        self.advance();
                        text.push(c);
                        proof {
                            assert(text@ =~= s.subrange(i, self.index as int));
                        }
                    } else {
                        break;
                    }
                },
                None => {
                    break;
                },
            }
        }
        let end = self.pos();
        proof {
            lemma_offsets_bounded(s, i);
        }
        let kind = word_kind(&self.chars, first_at, self.index, text);
        Token::new(kind, start, end)
    }

    /// Reads the next token, reporting a diagnostic for a character that starts
    /// none and for an integer literal that does not fit in `i64`.
    pub fn next_token(&mut self) -> (t: Token)
        requires
            old(self).wf(),
        ensures
            final(self).wf(),
            final(self).text() == old(self).text(),
            ({
                let l = next_lexed(old(self).text(), old(self).cursor());
                &&& l.lexeme.describes(t.kind)
                &&& t.span == l.span
                &&& final(self).cursor() == l.next
                &&& final(self).reported() == old(self).reported() + option_seq(l.diagnostic)
            }),
    {
        let ghost s = self.chars@;
        proof {
            lemma_skip_whitespace_bounds(s, self.index as int);
        }
        self.skip_whitespace();
        let ghost i = self.index as int;
        let ghost d0 = self.diagnostics@;
        let next = self.advance();
        match next {
            None => {
                let end = self.total;
                proof {
                    assert(s.take(s.len() as int) =~= s);
                    assert(views(d0) + option_seq(lex_at(s, i).diagnostic) =~= views(d0));
                }
                Token::new(TokenKind::Eof, end, end)
            },
            Some((start, c)) => {
                proof {
                    lemma_byte_offset_step(s, i);
                    lemma_offsets_bounded(s, i + 1);
                    if i + 1 < s.len() {
                        lemma_byte_offset_step(s, i + 1);
                        lemma_offsets_bounded(s, i + 2);
                    }
                }
                let tok = if c == '+' {
                    Token::new(TokenKind::Plus, start, start + 1)
                } else if c == '-' {
                    Token::new(TokenKind::Minus, start, start + 1)
                } else if c == '*' {
                    Token::new(TokenKind::Star, start, start + 1)
                } else if c == '/' {
                    Token::new(TokenKind::Slash, start, start + 1)
                } else if c == '(' {
                    Token::new(TokenKind::LParen, start, start + 1)
                } else if c == ')' {
                    Token::new(TokenKind::RParen, start, start + 1)
                } else if c == '{' {
                    Token::new(TokenKind::LBrace, start, start + 1)
                } else if c == '}' {
                    Token::new(TokenKind::RBrace, start, start + 1)
                } else if c == ';' {
                    Token::new(TokenKind::Semicolon, start, start + 1)
                } else if c == '=' {
                    if self.peek_is('=') {
                        self.advance();
                        Token::new(TokenKind::EqEq, start, start + 2)
                    } else {
                        Token::new(TokenKind::Eq, start, start + 1)
                    }
                } else if c == '<' {
                    if self.peek_is('=') {
                        self.advance();
                        Token::new(TokenKind::LtEq, start, start + 2)
                    } else {
                        Token::new(TokenKind::Lt, start, start + 1)
                    }
                } else if c == '>' {
                    if self.peek_is('=') {
                        self.advance();
                        Token::new(TokenKind::GtEq, start, start + 2)
                    } else {
                        Token::new(TokenKind::Gt, start, start + 1)
                    }
                } else if c == '!' {
                    if self.peek_is('=') {
                        self.advance();
                        Token::new(TokenKind::BangEq, start, start + 2)
                    } else {
                        let end = start + 1;
                        let mut message = String::new();
                        message.append("unknown character '");
                        message.push('!');
                        message.append("'");
                        proof {
                            assert(message@ =~= unknown_message('!'));
                        }
                        push_diagnostic(&mut self.diagnostics, Diagnostic::error(message, Span::new(start, end)));
                        Token::new(TokenKind::Unknown('!'), start, end)
                    }
                } else if char_is_ascii_digit(c) {
                    self.read_integer(start, c)
                } else if char_is_alphabetic(c) || c == '_' {
                    self.read_ident(start, c)
                } else {
                    let end = start + char_width(c);
                    let mut message = String::new();
                    message.append("unknown character '");
                    message.push(c);
                    message.append("'");
                    proof {
                        assert(message@ =~= unknown_message(c));
                    }
                    push_diagnostic(&mut self.diagnostics, Diagnostic::error(message, Span::new(start, end)));
                    Token::new(TokenKind::Unknown(c), start, end)
                };
                proof {
                    assert(self.reported() =~= views(d0) + option_seq(lex_at(s, i).diagnostic));
                }
                tok
            },
        }
    }

    /// Reads every token up to and including `Eof`; returns them with every
    /// diagnostic reported on the way.
    pub fn tokenize(self) -> (r: (Vec<Token>, Vec<Diagnostic>))
        requires
            self.wf(),
        ensures
            described_by(r.0@, lex_from(self.text(), self.cursor()).0),
            views(r.1@) == self.reported() + lex_from(self.text(), self.cursor()).1,
            r.0@.len() > 0,
            r.0@.last().kind == TokenKind::Eof,
    {
        let mut lexer = self;
        let ghost s = lexer.chars@;
        let ghost i0 = lexer.index as int;
        let ghost d0 = lexer.reported();
        let ghost mut lx: Seq<(Lexeme, Span)> = Seq::empty();
        let ghost mut dx: Seq<DiagnosticView> = Seq::empty();
        let mut tokens: Vec<Token> = Vec::new();
        loop
            invariant
                lexer.wf(),
                lexer.text() == s,
                s == self.text(),
                i0 == self.cursor(),
                d0 == self.reported(),
                0 <= lexer.cursor() <= s.len(),
                lex_from(s, i0).0 == lx + lex_from(s, lexer.cursor()).0,
                lex_from(s, i0).1 == dx + lex_from(s, lexer.cursor()).1,
                described_by(tokens@, lx),
                lexer.reported() == d0 + dx,
            decreases s.len() - lexer.cursor(),
        {
            let ghost i = lexer.cursor();
            proof {
                lemma_lex_from_unfold(s, i);
            }
            let tok = lexer.next_token();
            let done = match tok.kind {
                TokenKind::Eof => true,
                _ => false,
            };
            let ghost t = next_lexed(s, i);
            tokens.push(tok);
            proof {
                lx = lx.push((t.lexeme, t.span));
                dx = dx + option_seq(t.diagnostic);
                assert(lexer.reported() =~= d0 + dx);
                assert forall|k: int| 0 <= k < tokens@.len() implies (#[trigger] lx[k]).0.describes(
                    tokens@[k].kind) && tokens@[k].span == lx[k].1 by {
                    if k < tokens@.len() - 1 {
                    }
                }
            }
            if done {
                proof {
                    assert(t.lexeme == Lexeme::Kind(TokenKind::Eof));
                    assert(skip_whitespace(s, i) == s.len());
                    assert(lex_from(s, i0).0 =~= lx);
                    assert(lex_from(s, i0).1 =~= dx);
                }
                return (tokens, lexer.diagnostics);
            }
            proof {
                assert(lex_from(s, i0).0 =~= lx + lex_from(s, lexer.cursor()).0);
                assert(lex_from(s, i0).1 =~= dx + lex_from(s, lexer.cursor()).1);
            }
        }
    }
}

/// The token kind of the word `chars[i..end]`, whose text is `text`.
fn word_kind(chars: &Vec<char>, i: usize, end: usize, text: String) -> (k: TokenKind)
    requires
        i < end <= chars.len(),
        text@ == chars@.subrange(i as int, end as int),
    ensures
        word_lexeme(chars@.subrange(i as int, end as int)).describes(k),
{
    let ghost t = chars@.subrange(i as int, end as int);
    let n = end - i;
    if n == 3 && chars[i] == 'l' && chars[i + 1] == 'e' && chars[i + 2] == 't' {
        assert(t =~= seq!['l', 'e', 't']);
        TokenKind::Let
    } else if n == 4 && chars[i] == 't' && chars[i + 1] == 'r' && chars[i + 2] == 'u' && chars[i
        + 3] == 'e' {
        assert(t =~= seq!['t', 'r', 'u', 'e']);
        assert(t != seq!['l', 'e', 't']);
        TokenKind::True
    } else if n == 5 && chars[i] == 'f' && chars[i + 1] == 'a' && chars[i + 2] == 'l' && chars[i
        + 3] == 's' && chars[i + 4] == 'e' {
        assert(t =~= seq!['f', 'a', 'l', 's', 'e']);
        assert(t != seq!['l', 'e', 't']);
        assert(t != seq!['t', 'r', 'u', 'e']);
        TokenKind::False
    } else if n == 2 && chars[i] == 'i' && chars[i + 1] == 'f' {
        assert(t =~= seq!['i', 'f']);
        assert(t != seq!['l', 'e', 't']);
        assert(t != seq!['t', 'r', 'u', 'e']);
        assert(t != seq!['f', 'a', 'l', 's', 'e']);
        TokenKind::If
    } else if n == 4 && chars[i] == 'e' && chars[i + 1] == 'l' && chars[i + 2] == 's' && chars[i
        + 3] == 'e' {
        assert(t =~= seq!['e', 'l', 's', 'e']);
        assert(t != seq!['l', 'e', 't']);
        assert(t != seq!['t', 'r', 'u', 'e']);
        assert(t != seq!['f', 'a', 'l', 's', 'e']);
        assert(t != seq!['i', 'f']);
        TokenKind::Else
    } else {
        assert(t.len() == n);
        assert(t != seq!['l', 'e', 't']) by {
            if t == seq!['l', 'e', 't'] {
                assert(t[0] == 'l' && t[1] == 'e' && t[2] == 't');
            }
        }
        assert(t != seq!['t', 'r', 'u', 'e']) by {
            if t == seq!['t', 'r', 'u', 'e'] {
                assert(t[0] == 't' && t[1] == 'r' && t[2] == 'u' && t[3] == 'e');
            }
        }
        assert(t != seq!['f', 'a', 'l', 's', 'e']) by {
            if t == seq!['f', 'a', 'l', 's', 'e'] {
                assert(t[0] == 'f' && t[1] == 'a' && t[2] == 'l' && t[3] == 's' && t[4] == 'e');
            }
        }
        assert(t != seq!['i', 'f']) by {
            if t == seq!['i', 'f'] {
                assert(t[0] == 'i' && t[1] == 'f');
            }
        }
        assert(t != seq!['e', 'l', 's', 'e']) by {
            if t == seq!['e', 'l', 's', 'e'] {
                assert(t[0] == 'e' && t[1] == 'l' && t[2] == 's' && t[3] == 'e');
            }
        }
        TokenKind::Ident(text)
    }
}


/// The numeral that prints a natural number reads back as that number, and is
/// made of digits only.
pub proof fn decimal_reads_back(n: nat)
    ensures
        digits_value(decimal(n)) == n,
        forall|i: int| 0 <= i < decimal(n).len() ==> is_ascii_digit(#[trigger] decimal(n)[i]),
    decreases n,
{
    let d = n % 10;
    let t = decimal(n);
    assert((digit_char(d) as int) == 48 + d);
    if n >= 10 {
        decimal_reads_back(n / 10);
        assert(t.drop_last() =~= decimal(n / 10));
        assert(t.last() == digit_char(d));
        assert(digits_value(t) == digits_value(t.drop_last()) * 10 + ((t.last() as int) - ('0' as int)) as nat);
        assert(digits_value(t) == (n / 10) * 10 + d);
    } else {
        assert(t.drop_last() =~= Seq::<char>::empty());
        assert(t.last() == digit_char(d));
        assert(digits_value(t) == digits_value(t.drop_last()) * 10 + ((t.last() as int) - ('0' as int)) as nat);
    }
}

} // verus!
