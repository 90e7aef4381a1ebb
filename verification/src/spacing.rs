//! White space between tokens: where it may be added without changing what the
//! lexer reads, and what the lexer gives once only white space is left.

use vstd::prelude::*;
use vstd::utf8::encode_utf8;

use crate::diagnostics::{DiagnosticView, Span};
use crate::lexer::{
    is_word_char, lemma_lex_at_progress, lemma_lex_from_unfold, lemma_scan_digits_bounds,
    lemma_scan_word_bounds, lemma_skip_whitespace_bounds, lex, lex_at, lex_from, lexed,
    next_lexed, option_seq, scan_digits, scan_word, skip_whitespace,
};
use crate::text::{alphabetic, is_ascii_digit, is_whitespace};
use crate::token::{Lexeme, TokenKind};

verus! {

/// The kinds of a list of tokens, without their spans.
pub open spec fn kinds_of(toks: Seq<(Lexeme, Span)>) -> Seq<Lexeme> {
    toks.map_values(|t: (Lexeme, Span)| t.0)
}

/// The messages of a list of diagnostics, without their spans.
pub open spec fn messages_of(ds: Seq<DiagnosticView>) -> Seq<Seq<char>> {
    ds.map_values(|d: DiagnosticView| d.message)
}

/// `b` is a place between tokens when lexing from `i`: where the search starts,
/// where a token found from there ends, or the end of the text.
pub open spec fn boundary(s: Seq<char>, i: int, b: int) -> bool
    decreases s.len() - i,
{
    ||| b == i
    ||| b == s.len()
    ||| {
        let t = next_lexed(s, i);
        &&& t.lexeme != Lexeme::Kind(TokenKind::Eof)
        &&& i < t.next <= s.len()
        &&& boundary(s, t.next, b)
    }
}

/// `s` with `w` put in at position `b`.
pub open spec fn inserted(s: Seq<char>, b: int, w: Seq<char>) -> Seq<char> {
    s.take(b) + w + s.skip(b)
}

/// `s` with each `cuts[k].1` put in at position `cuts[k].0`. The positions come
/// from the last to the first, so each is a position of `s` itself.
pub open spec fn inserted_each(s: Seq<char>, cuts: Seq<(int, Seq<char>)>) -> Seq<char>
    decreases cuts.len(),
{
    if cuts.len() == 0 {
        s
    } else {
        inserted_each(inserted(s, cuts[0].0, cuts[0].1), cuts.drop_first())
    }
}

// ---------------------------------------------------------------------------
// Where the scans stop
proof fn lemma_skip_whitespace_stops(s: Seq<char>, i: int, j: int)
    requires
        0 <= i <= j <= s.len(),
        forall|k: int| i <= k < j ==> is_whitespace(#[trigger] s[k]),
        j < s.len() ==> !is_whitespace(s[j]),
    ensures
        skip_whitespace(s, i) == j,
    decreases j - i,
{
    if i < j {
        lemma_skip_whitespace_stops(s, i + 1, j);
    }
}

proof fn lemma_skip_whitespace_passes(s: Seq<char>, i: int)
    requires
        0 <= i <= s.len(),
    ensures
        forall|k: int| i <= k < skip_whitespace(s, i) ==> is_whitespace(#[trigger] s[k]),
    decreases s.len() - i,
{
    if i < s.len() && is_whitespace(s[i]) {
        lemma_skip_whitespace_passes(s, i + 1);
    }
}

proof fn lemma_scan_digits_stops(s: Seq<char>, i: int, j: int)
    requires
        0 <= i <= j <= s.len(),
        forall|k: int| i <= k < j ==> is_ascii_digit(#[trigger] s[k]),
        j < s.len() ==> !is_ascii_digit(s[j]),
    ensures
        scan_digits(s, i) == j,
    decreases j - i,
{
    if i < j {
        lemma_scan_digits_stops(s, i + 1, j);
    }
}

proof fn lemma_scan_digits_passes(s: Seq<char>, i: int)
    requires
        0 <= i <= s.len(),
    ensures
        forall|k: int| i <= k < scan_digits(s, i) ==> is_ascii_digit(#[trigger] s[k]),
        scan_digits(s, i) < s.len() ==> !is_ascii_digit(s[scan_digits(s, i)]),
    decreases s.len() - i,
{
    if i < s.len() && is_ascii_digit(s[i]) {
        lemma_scan_digits_passes(s, i + 1);
    }
}

proof fn lemma_scan_word_stops(s: Seq<char>, i: int, j: int)
    requires
        0 <= i <= j <= s.len(),
        forall|k: int| i <= k < j ==> is_word_char(#[trigger] s[k]),
        j < s.len() ==> !is_word_char(s[j]),
    ensures
        scan_word(s, i) == j,
    decreases j - i,
{
    if i < j {
        lemma_scan_word_stops(s, i + 1, j);
    }
}

proof fn lemma_scan_word_passes(s: Seq<char>, i: int)
    requires
        0 <= i <= s.len(),
    ensures
        forall|k: int| i <= k < scan_word(s, i) ==> is_word_char(#[trigger] s[k]),
        scan_word(s, i) < s.len() ==> !is_word_char(s[scan_word(s, i)]),
    decreases s.len() - i,
{
    if i < s.len() && is_word_char(s[i]) {
        lemma_scan_word_passes(s, i + 1);
    }
}

// ---------------------------------------------------------------------------
// One token read in two texts
/// The token at `j` in `s` is read the same at `j2` in `s2` when `s2` holds the
/// same characters there and the character after it in `s2`, if any, is the
/// one after it in `s` or white space.
proof fn lemma_lex_at_agrees(s: Seq<char>, j: int, s2: Seq<char>, j2: int)
    requires
        0 <= j < s.len(),
        0 <= j2,
        ({
            let n = lex_at(s, j).next;
            let n2 = j2 + (n - j);
            &&& n2 <= s2.len()
            &&& forall|m: int| 0 <= m < n - j ==> s2[j2 + m] == #[trigger] s[j + m]
            &&& n2 < s2.len() ==> ((n < s.len() && s2[n2] == s[n]) || is_whitespace(s2[n2]))
        }),
    ensures
        lex_at(s2, j2).lexeme == lex_at(s, j).lexeme,
        lex_at(s2, j2).next - j2 == lex_at(s, j).next - j,
        lex_at(s2, j2).diagnostic is Some <==> lex_at(s, j).diagnostic is Some,
        lex_at(s, j).diagnostic is Some ==> lex_at(s2, j2).diagnostic->0.message == lex_at(
            s,
            j,
        ).diagnostic->0.message,
{
    lemma_lex_at_progress(s, j);
    let n = lex_at(s, j).next;
    let n2 = j2 + (n - j);
    let c = s[j];
    assert(s2[j2 + 0] == s[j + 0]);
    assert(s2[j2] == c);
    if is_ascii_digit(c) && c != '+' && c != '-' && c != '*' && c != '/' && c != '(' && c != ')'
        && c != '{' && c != '}' && c != ';' && c != '=' && c != '<' && c != '>' && c != '!' {
        lemma_scan_digits_bounds(s, j + 1);
        lemma_scan_digits_passes(s, j + 1);
        assert(n == scan_digits(s, j + 1));
        assert forall|k: int| j2 + 1 <= k < n2 implies is_ascii_digit(#[trigger] s2[k]) by {
            assert(s2[j2 + (k - j2)] == s[j + (k - j2)]);
        }
        lemma_scan_digits_stops(s2, j2 + 1, n2);
        assert(s2.subrange(j2, n2) =~= s.subrange(j, n)) by {
            assert forall|m: int| 0 <= m < n - j implies s2.subrange(j2, n2)[m] == s.subrange(
                j,
                n,
            )[m] by {
                assert(s2[j2 + m] == s[j + m]);
            }
        }
    } else if (alphabetic(c) || c == '_') && c != '+' && c != '-' && c != '*' && c != '/' && c
        != '(' && c != ')' && c != '{' && c != '}' && c != ';' && c != '=' && c != '<' && c != '>'
        && c != '!' && !is_ascii_digit(c) {
        lemma_scan_word_bounds(s, j + 1);
        lemma_scan_word_passes(s, j + 1);
        assert(n == scan_word(s, j + 1));
        assert forall|k: int| j2 + 1 <= k < n2 implies is_word_char(#[trigger] s2[k]) by {
            assert(s2[j2 + (k - j2)] == s[j + (k - j2)]);
        }
        lemma_scan_word_stops(s2, j2 + 1, n2);
        assert(s2.subrange(j2, n2) =~= s.subrange(j, n)) by {
            assert forall|m: int| 0 <= m < n - j implies s2.subrange(j2, n2)[m] == s.subrange(
                j,
                n,
            )[m] by {
                assert(s2[j2 + m] == s[j + m]);
            }
        }
    } else if c == '=' || c == '<' || c == '>' || c == '!' {
        if j + 1 < s.len() && s[j + 1] == '=' {
            assert(s2[j2 + 1] == s[j + 1]);
        }
    }
}

// ---------------------------------------------------------------------------
// Whole token lists
proof fn lemma_kinds_messages_unfold(s: Seq<char>, i: int)
    requires
        0 <= i <= s.len(),
        skip_whitespace(s, i) < s.len(),
    ensures
        ({
            let t = next_lexed(s, i);
            &&& kinds_of(lex_from(s, i).0) == seq![t.lexeme] + kinds_of(lex_from(s, t.next).0)
            &&& messages_of(lex_from(s, i).1) == messages_of(
                option_seq(t.diagnostic),
            ) + messages_of(lex_from(s, t.next).1)
        }),
{
    lemma_lex_from_unfold(s, i);
    let t = next_lexed(s, i);
    let rest = lex_from(s, t.next);
    assert(kinds_of(seq![(t.lexeme, t.span)] + rest.0) =~= seq![t.lexeme] + kinds_of(rest.0));
    assert(messages_of(option_seq(t.diagnostic) + rest.1) =~= messages_of(
        option_seq(t.diagnostic),
    ) + messages_of(rest.1));
}

/// The kinds and messages from position `i` depend only on the text from `i` on.
proof fn lemma_lex_from_shift(s: Seq<char>, i: int, s2: Seq<char>, i2: int)
    requires
        0 <= i <= s.len(),
        0 <= i2,
        s2.len() - i2 == s.len() - i,
        forall|m: int| 0 <= m < s.len() - i ==> s2[i2 + m] == #[trigger] s[i + m],
    ensures
        kinds_of(lex_from(s2, i2).0) == kinds_of(lex_from(s, i).0),
        messages_of(lex_from(s2, i2).1) == messages_of(lex_from(s, i).1),
    decreases s.len() - i,
{
    lemma_skip_whitespace_bounds(s, i);
    lemma_skip_whitespace_passes(s, i);
    let j = skip_whitespace(s, i);
    let j2 = i2 + (j - i);
    assert forall|k: int| i2 <= k < j2 implies is_whitespace(#[trigger] s2[k]) by {
        assert(s2[i2 + (k - i2)] == s[i + (k - i2)]);
    }
    if j < s.len() {
        assert(s2[i2 + (j - i)] == s[i + (j - i)]);
    }
    lemma_skip_whitespace_stops(s2, i2, j2);
    lemma_lex_from_unfold(s, i);
    lemma_lex_from_unfold(s2, i2);
    if j < s.len() {
        let n = lex_at(s, j).next;
        lemma_lex_at_progress(s, j);
        assert forall|m: int| 0 <= m < n - j implies s2[j2 + m] == #[trigger] s[j + m] by {
            assert(s2[i2 + (j - i + m)] == s[i + (j - i + m)]);
        }
        if j2 + (n - j) < s2.len() {
            assert(s2[i2 + (n - i)] == s[i + (n - i)]);
        }
        lemma_lex_at_agrees(s, j, s2, j2);
        let n2 = lex_at(s2, j2).next;
        assert forall|m: int| 0 <= m < s.len() - n implies s2[n2 + m] == #[trigger] s[n + m] by {
            assert(s2[i2 + (n - i + m)] == s[i + (n - i + m)]);
        }
        lemma_lex_from_shift(s, n, s2, n2);
        lemma_kinds_messages_unfold(s, i);
        lemma_kinds_messages_unfold(s2, i2);
        let d = lex_at(s, j).diagnostic;
        let d2 = lex_at(s2, j2).diagnostic;
        assert(messages_of(option_seq(d2)) =~= messages_of(
            option_seq(d),
        ));
    } else {
        assert(kinds_of(lex_from(s2, i2).0) =~= kinds_of(lex_from(s, i).0));
        assert(messages_of(lex_from(s2, i2).1) =~= messages_of(lex_from(s, i).1));
    }
}

proof fn lemma_boundary_after(s: Seq<char>, i: int, b: int)
    requires
        0 <= i <= s.len(),
        boundary(s, i, b),
    ensures
        i <= b,
    decreases s.len() - i,
{
    let t = next_lexed(s, i);
    if b != i && b != s.len() {
        lemma_boundary_after(s, t.next, b);
    }
}

proof fn lemma_inserted_index(s: Seq<char>, b: int, w: Seq<char>)
    requires
        0 <= b <= s.len(),
    ensures
        inserted(s, b, w).len() == s.len() + w.len(),
        forall|k: int| 0 <= k < b ==> #[trigger] inserted(s, b, w)[k] == s[k],
        forall|k: int| 0 <= k < w.len() ==> #[trigger] inserted(s, b, w)[b + k] == w[k],
        forall|k: int| b <= k < s.len() ==> #[trigger] inserted(s, b, w)[k + w.len()] == s[k],
{
    let s2 = inserted(s, b, w);
    assert(s2.len() == s.len() + w.len());
    assert forall|k: int| 0 <= k < b implies #[trigger] s2[k] == s[k] by {
        assert((s.take(b) + w)[k] == s.take(b)[k]);
    }
    assert forall|k: int| 0 <= k < w.len() implies #[trigger] s2[b + k] == w[k] by {
        assert((s.take(b) + w)[b + k] == w[k]);
    }
    assert forall|k: int| b <= k < s.len() implies #[trigger] s2[k + w.len()] == s[k] by {
        assert(s.skip(b)[k - b] == s[k]);
    }
}

/// Putting white space in at a boundary of the lexing from `i` leaves the kinds
/// and messages found from `i` as they were.
proof fn lemma_lex_from_insert(s: Seq<char>, i: int, b: int, w: Seq<char>)
    requires
        0 <= i <= s.len(),
        b <= s.len(),
        boundary(s, i, b),
        forall|k: int| 0 <= k < w.len() ==> is_whitespace(#[trigger] w[k]),
    ensures
        kinds_of(lex_from(inserted(s, b, w), i).0) == kinds_of(lex_from(s, i).0),
        messages_of(lex_from(inserted(s, b, w), i).1) == messages_of(lex_from(s, i).1),
    decreases s.len() - i,
{
    lemma_boundary_after(s, i, b);
    lemma_inserted_index(s, b, w);
    let s2 = inserted(s, b, w);
    if w.len() == 0 {
        assert(s2 =~= s);
    } else if b == i {
        // The search from `i` passes over `w` and goes on as it would in `s`.
        let e = i + w.len();
        lemma_skip_whitespace_bounds(s2, e);
        lemma_skip_whitespace_passes(s2, e);
        let j = skip_whitespace(s2, e);
        assert forall|k: int| i <= k < j implies is_whitespace(#[trigger] s2[k]) by {
            if k < e {
                assert(s2[b + (k - b)] == w[k - b]);
            }
        }
        lemma_skip_whitespace_stops(s2, i, j);
        lemma_lex_from_unfold(s2, i);
        lemma_lex_from_unfold(s2, e);
        assert(lex_from(s2, i) == lex_from(s2, e));
        assert forall|m: int| 0 <= m < s.len() - i implies s2[e + m] == #[trigger] s[i + m] by {
            assert(s2[(i + m) + w.len()] == s[i + m]);
        }
        lemma_lex_from_shift(s, i, s2, e);
    } else {
        lemma_skip_whitespace_bounds(s, i);
        lemma_skip_whitespace_passes(s, i);
        let j = skip_whitespace(s, i);
        lemma_lex_from_unfold(s, i);
        if j == s.len() {
            // Only white space is left: both texts end here.
            assert forall|k: int| i <= k < s2.len() implies is_whitespace(#[trigger] s2[k]) by {
                if k < b {
                } else if k < b + w.len() {
                    assert(s2[b + (k - b)] == w[k - b]);
                } else {
                    assert(s2[(k - w.len()) + w.len()] == s[k - w.len()]);
                }
            }
            lemma_skip_whitespace_stops(s2, i, s2.len() as int);
            lemma_lex_from_unfold(s2, i);
            assert(kinds_of(lex_from(s2, i).0) =~= kinds_of(lex_from(s, i).0));
            assert(messages_of(lex_from(s2, i).1) =~= messages_of(lex_from(s, i).1));
        } else {
            let t = lex_at(s, j);
            lemma_lex_at_progress(s, j);
            let n = t.next;
            if b != s.len() {
                lemma_boundary_after(s, n, b);
            }
            // The first token lies before `b`, so it is read the same.
            if j < s2.len() {
                assert(s2[j] == s[j]);
            }
            lemma_skip_whitespace_stops(s2, i, j);
            assert forall|m: int| 0 <= m < n - j implies s2[j + m] == #[trigger] s[j + m] by {}
            if n < s2.len() {
                if n < b {
                    assert(s2[n] == s[n]);
                } else {
                    assert(s2[b + 0] == w[0]);
                }
            }
            lemma_lex_at_agrees(s, j, s2, j);
            lemma_lex_from_unfold(s2, i);
            assert(boundary(s, n, b));
            lemma_lex_from_insert(s, n, b, w);
            lemma_kinds_messages_unfold(s, i);
            lemma_kinds_messages_unfold(s2, i);
            let d = t.diagnostic;
            let d2 = lex_at(s2, j).diagnostic;
            assert(messages_of(option_seq(d2)) =~= messages_of(
                option_seq(d),
            ));
        }
    }
}

/// Putting anything in after a boundary leaves it a boundary: the tokens before
/// it are read the same.
proof fn lemma_boundary_kept(s: Seq<char>, i: int, a: int, b: int, w: Seq<char>)
    requires
        0 <= i <= s.len(),
        boundary(s, i, a),
        a < b <= s.len(),
    ensures
        boundary(inserted(s, b, w), i, a),
    decreases s.len() - i,
{
    let s2 = inserted(s, b, w);
    lemma_boundary_after(s, i, a);
    lemma_inserted_index(s, b, w);
    if a != i {
        let t = next_lexed(s, i);
        lemma_boundary_after(s, t.next, a);
        lemma_skip_whitespace_bounds(s, i);
        lemma_skip_whitespace_passes(s, i);
        let j = skip_whitespace(s, i);
        lemma_lex_at_progress(s, j);
        assert(s2[j] == s[j]);
        lemma_skip_whitespace_stops(s2, i, j);
        assert forall|m: int| 0 <= m < t.next - j implies s2[j + m] == #[trigger] s[j + m] by {}
        assert(s2[t.next] == s[t.next]);
        lemma_lex_at_agrees(s, j, s2, j);
        lemma_boundary_kept(s, t.next, a, b, w);
    }
}

/// Insertions at boundaries given from the last to the first.
proof fn lemma_lex_insert_each(s: Seq<char>, cuts: Seq<(int, Seq<char>)>)
    requires
        forall|k: int| 0 <= k < cuts.len() ==> #[trigger] cuts[k].0 <= s.len() && boundary(
            s,
            0,
            cuts[k].0,
        ),
        forall|k: int, l: int| 0 <= k < l < cuts.len() ==> #[trigger] cuts[l].0 < #[trigger] cuts[k].0,
        forall|k: int, m: int|
            0 <= k < cuts.len() && 0 <= m < cuts[k].1.len() ==> is_whitespace(#[trigger] cuts[k].1[m]),
    ensures
        kinds_of(lex(inserted_each(s, cuts)).0) == kinds_of(lex(s).0),
        messages_of(lex(inserted_each(s, cuts)).1) == messages_of(lex(s).1),
    decreases cuts.len(),
{
    if cuts.len() > 0 {
        let (b, w) = cuts[0];
        assert(b <= s.len() && boundary(s, 0, b));
        lemma_boundary_after(s, 0, b);
        assert forall|m: int| 0 <= m < w.len() implies is_whitespace(#[trigger] w[m]) by {
            assert(is_whitespace(cuts[0].1[m]));
        }
        lemma_lex_from_insert(s, 0, b, w);
        let s1 = inserted(s, b, w);
        let rest = cuts.drop_first();
        lemma_inserted_index(s, b, w);
        assert forall|k: int| 0 <= k < rest.len() implies #[trigger] rest[k].0 <= s1.len()
            && boundary(s1, 0, rest[k].0) by {
            assert(rest[k] == cuts[k + 1]);
            assert(cuts[k + 1].0 < cuts[0].0);
            assert(cuts[k + 1].0 <= s.len() && boundary(s, 0, cuts[k + 1].0));
            lemma_boundary_kept(s, 0, rest[k].0, b, w);
        }
        assert forall|k: int, l: int| 0 <= k < l < rest.len() implies #[trigger] rest[l].0
            < #[trigger] rest[k].0 by {
            assert(rest[k] == cuts[k + 1] && rest[l] == cuts[l + 1]);
        }
        assert forall|k: int, m: int|
            0 <= k < rest.len() && 0 <= m < rest[k].1.len() implies is_whitespace(
            #[trigger] rest[k].1[m],
        ) by {
            assert(rest[k] == cuts[k + 1]);
        }
        lemma_lex_insert_each(s1, rest);
    }
}

// ---------------------------------------------------------------------------
// Laws
/// Putting white space in where a token ends (or at the start or the end of the
/// text) changes no token kind and no diagnostic message: the same tokens come
/// out, in the same order, with the same messages; only their spans move.
pub proof fn white_space_at_boundaries_changes_nothing(s: Seq<char>, b: int, w: Seq<char>)
    requires
        b <= s.len(),
        boundary(s, 0, b),
        forall|k: int| 0 <= k < w.len() ==> is_whitespace(#[trigger] w[k]),
    ensures
        kinds_of(lex(inserted(s, b, w)).0) == kinds_of(lex(s).0),
        messages_of(lex(inserted(s, b, w)).1) == messages_of(lex(s).1),
{
    lemma_lex_from_insert(s, 0, b, w);
}

/// The same holds of white space put in at any number of places between
/// tokens at once, given from the last place to the first.
pub proof fn white_space_at_many_boundaries_changes_nothing(
    s: Seq<char>,
    cuts: Seq<(int, Seq<char>)>,
)
    requires
        forall|k: int| 0 <= k < cuts.len() ==> #[trigger] cuts[k].0 <= s.len() && boundary(
            s,
            0,
            cuts[k].0,
        ),
        forall|k: int, l: int| 0 <= k < l < cuts.len() ==> #[trigger] cuts[l].0 < #[trigger] cuts[k].0,
        forall|k: int, m: int|
            0 <= k < cuts.len() && 0 <= m < cuts[k].1.len() ==> is_whitespace(#[trigger] cuts[k].1[m]),
    ensures
        kinds_of(lex(inserted_each(s, cuts)).0) == kinds_of(lex(s).0),
        messages_of(lex(inserted_each(s, cuts)).1) == messages_of(lex(s).1),
{
    lemma_lex_insert_each(s, cuts);
}

/// Once only white space is left from position `i`, the next token is `Eof`,
/// spanning the empty text at the end of the source, it comes with no
/// diagnostic, and the search after it starts at the end of the text, where the
/// same `Eof` is found again.
pub proof fn only_white_space_left_gives_eof(s: Seq<char>, i: int)
    requires
        0 <= i <= s.len(),
        forall|k: int| i <= k < s.len() ==> is_whitespace(#[trigger] s[k]),
    ensures
        next_lexed(s, i).lexeme == Lexeme::Kind(TokenKind::Eof),
        next_lexed(s, i).span == (Span {
            start: encode_utf8(s).len() as usize,
            end: encode_utf8(s).len() as usize,
        }),
        next_lexed(s, i).diagnostic is None,
        next_lexed(s, i).next == s.len(),
        next_lexed(s, s.len() as int) == next_lexed(s, i),
{
    lemma_skip_whitespace_stops(s, i, s.len() as int);
    lemma_skip_whitespace_stops(s, s.len() as int, s.len() as int);
    assert(s.take(s.len() as int) =~= s);
    assert(next_lexed(s, i) == lexed(
        Lexeme::Kind(TokenKind::Eof),
        s,
        s.len() as int,
        s.len() as int,
    ));
}

} // verus!
