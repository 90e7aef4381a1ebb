//! Source positions and the diagnostics that every stage reports.

use vstd::prelude::*;
use vstd::utf8::encode_utf8;

use crate::text::{
    byte_offset, char_width, chars_of, decimal, lemma_byte_offset_monotone, lemma_byte_offset_step,
    lemma_offsets_bounded, push_decimal,
};

verus! {

/// A half-open range of byte offsets into the source text.
#[derive(Debug, Clone, Copy, PartialEq, Eq, Structural)]
pub struct Span {
    pub start: usize,
    pub end: usize,
}

impl Span {
    pub fn new(start: usize, end: usize) -> (s: Span)
        ensures
            s == (Span { start, end }),
    {
        Span { start, end }
    }
}

#[derive(Debug, Clone, Copy, PartialEq, Eq, Structural)]
pub enum Severity {
    Error,
    Warning,
}

/// A diagnostic as the specifications see it: its message as characters.
pub struct DiagnosticView {
    pub severity: Severity,
    pub message: Seq<char>,
    pub span: Span,
}

#[derive(Debug, Clone)]
pub struct Diagnostic {
    pub severity: Severity,
    pub message: String,
    pub span: Span,
}

impl View for Diagnostic {
    type V = DiagnosticView;

    open spec fn view(&self) -> DiagnosticView {
        DiagnosticView { severity: self.severity, message: self.message@, span: self.span }
    }
}

/// The error with the given message at the given span.
pub open spec fn error_at(message: Seq<char>, span: Span) -> DiagnosticView {
    DiagnosticView { severity: Severity::Error, message, span }
}

/// The views of a list of diagnostics.
pub open spec fn views(ds: Seq<Diagnostic>) -> Seq<DiagnosticView> {
    ds.map_values(|d: Diagnostic| d@)
}

pub proof fn lemma_views_push(ds: Seq<Diagnostic>, d: Diagnostic)
    ensures
        views(ds.push(d)) == views(ds).push(d@),
{
    assert(views(ds.push(d)) =~= views(ds).push(d@));
}

impl Diagnostic {
    pub fn error(message: String, span: Span) -> (d: Diagnostic)
        ensures
            d@ == error_at(message@, span),
    {
        Diagnostic { severity: Severity::Error, message, span }
    }

    pub fn warning(message: String, span: Span) -> (d: Diagnostic)
        ensures
            d@ == (DiagnosticView { severity: Severity::Warning, message: message@, span }),
    {
        Diagnostic { severity: Severity::Warning, message, span }
    }
}

/// Appends a diagnostic to a list, keeping the views in step.
pub fn push_diagnostic(ds: &mut Vec<Diagnostic>, d: Diagnostic)
    ensures
        views(final(ds)@) == views(old(ds)@).push(d@),
{
    proof {
        lemma_views_push(ds@, d);
    }
    ds.push(d);
}


// ---------------------------------------------------------------------------
// Where a diagnostic points, as line and column
/// The number of line feeds in `b`.
pub open spec fn newline_count(b: Seq<char>) -> nat
    decreases b.len(),
{
    if b.len() == 0 {
        0
    } else {
        newline_count(b.drop_last()) + if b.last() == '\n' {
            1nat
        } else {
            0nat
        }
    }
}

/// The characters after the last line feed of `b`.
pub open spec fn last_segment(b: Seq<char>) -> Seq<char>
    decreases b.len(),
{
    if b.len() == 0 {
        b
    } else if b.last() == '\n' {
        Seq::empty()
    } else {
        last_segment(b.drop_last()).push(b.last())
    }
}

pub open spec fn strip_cr(x: Seq<char>) -> Seq<char> {
    if x.len() > 0 && x.last() == '\r' {
        x.drop_last()
    } else {
        x
    }
}

pub open spec fn ends_with_newline(b: Seq<char>) -> bool {
    b.len() > 0 && b.last() == '\n'
}

/// The number of lines that `str::lines` finds in `b`: one per line feed, and
/// one more for text after the last line feed.
pub open spec fn line_count(b: Seq<char>) -> nat {
    newline_count(b) + if b.len() > 0 && !ends_with_newline(b) {
        1nat
    } else {
        0nat
    }
}

/// The last line that `str::lines` finds in `b` (a line feed ends a line, and so
/// does a carriage return right before it).
pub open spec fn last_line(b: Seq<char>) -> Seq<char> {
    if ends_with_newline(b) {
        strip_cr(last_segment(b.drop_last()))
    } else {
        last_segment(b)
    }
}

/// The line of the position after `b`, counting from 1.
pub open spec fn line_of(b: Seq<char>) -> nat {
    if line_count(b) == 0 {
        1
    } else {
        line_count(b)
    }
}

/// The column of the position after `b`: one more than the bytes of its last line.
pub open spec fn column_of(b: Seq<char>) -> nat {
    if line_count(b) == 0 {
        1
    } else {
        encode_utf8(last_line(b)).len() + 1
    }
}

/// The byte offset `k` starts a character of `s`, or is its end.
pub open spec fn on_boundary(s: Seq<char>, k: int) -> bool {
    exists|i: int| 0 <= i <= s.len() && byte_offset(s, i) == k
}

/// The characters of `s` before byte offset `k`.
pub open spec fn text_before(s: Seq<char>, k: int) -> Seq<char> {
    s.take(choose|i: int| 0 <= i <= s.len() && byte_offset(s, i) == k)
}

/// Where offset `offset` lies: the offset, or the end of the text if it is past it.
pub open spec fn clamp(s: Seq<char>, offset: usize) -> int {
    if offset < byte_offset(s, s.len() as int) {
        offset as int
    } else {
        byte_offset(s, s.len() as int)
    }
}

proof fn lemma_byte_offset_injective(s: Seq<char>, i: int, j: int)
    requires
        0 <= i <= s.len(),
        0 <= j <= s.len(),
        byte_offset(s, i) == byte_offset(s, j),
    ensures
        i == j,
{
    if i < j {
        lemma_byte_offset_monotone(s, i, j);
    } else if j < i {
        lemma_byte_offset_monotone(s, j, i);
    }
}

proof fn lemma_strip_cr_bytes(x: Seq<char>)
    ensures
        encode_utf8(strip_cr(x)).len() + (if x.len() > 0 && x.last() == '\r' {
            1int
        } else {
            0int
        }) == encode_utf8(x).len(),
{
    if x.len() > 0 && x.last() == '\r' {
        assert(x.drop_last().push('\r') =~= x);
        crate::text::lemma_encode_push(x.drop_last(), '\r');
    }
}

/// The line and column of byte offset `offset` in `source` (the end of the text
/// when the offset lies past it), as `str::lines` counts them.
pub fn location(source: &str, offset: usize) -> (r: (usize, usize))
    requires
        encode_utf8(source@).len() < usize::MAX,
        on_boundary(source@, clamp(source@, offset)),
    ensures
        r.0 == line_of(text_before(source@, clamp(source@, offset))),
        r.1 == column_of(text_before(source@, clamp(source@, offset))),
{
    let chars = chars_of(source);
    let ghost s = chars@;
    let ghost k = clamp(s, offset);
    let ghost target = choose|i: int| 0 <= i <= s.len() && byte_offset(s, i) == k;
    proof {
        assert(s.take(s.len() as int) =~= s);
        lemma_offsets_bounded(s, target);
        assert(s.take(0) =~= Seq::<char>::empty());
    }
    let mut i: usize = 0;
    let mut at: usize = 0;
    let mut newlines: usize = 0;
    let mut tail: usize = 0;
    let mut tail_cr = false;
    let mut previous: usize = 0;
    let mut ended = false;
    while i < chars.len() && at < offset
        invariant
            s == chars@,
            s == source@,
            encode_utf8(s).len() < usize::MAX,
            0 <= target <= s.len(),
            byte_offset(s, target) == k,
            k == clamp(s, offset),
            i <= target,
            at == byte_offset(s, i as int),
            newlines == newline_count(s.take(i as int)),
            newlines <= i,
            tail == encode_utf8(last_segment(s.take(i as int))).len(),
            tail <= at,
            tail_cr == (last_segment(s.take(i as int)).len() > 0 && last_segment(
                s.take(i as int),
            ).last() == '\r'),
            ended == ends_with_newline(s.take(i as int)),
            ended ==> previous == encode_utf8(strip_cr(last_segment(s.take(i as int).drop_last()))).len(),
            previous <= at,
        decreases chars.len() - i,
    {
        let c = chars[i];
        let ghost b = s.take(i as int);
        proof {
            assert(s.take(i + 1) =~= b.push(c));
            assert(b.push(c).drop_last() =~= b);
            lemma_byte_offset_step(s, i as int);
            lemma_offsets_bounded(s, i + 1);
            assert(s.take(s.len() as int) =~= s);
        }
        if c == '\n' {
            proof {
                lemma_strip_cr_bytes(last_segment(b));
            }
            previous = if tail_cr {
                tail - 1
            } else {
                tail
            };
            tail = 0;
            tail_cr = false;
            newlines = newlines + 1;
            ended = true;
            proof {
                assert(last_segment(b.push(c)) =~= Seq::<char>::empty());
                assert(encode_utf8(Seq::<char>::empty()) =~= Seq::<u8>::empty());
            }
        } else {
            proof {
                crate::text::lemma_encode_push(last_segment(b), c);
            }
            tail = tail + char_width(c);
            tail_cr = c == '\r';
            ended = false;
        }
        at = at + char_width(c);
        i = i + 1;
        proof {
            if (i as int) > target {
                lemma_byte_offset_monotone(s, target, i - 1);
            }
        }
    }
    proof {
        if (i as int) < target {
            lemma_byte_offset_monotone(s, i as int, target);
            if i < chars.len() {
                assert(byte_offset(s, i as int) >= offset);
                assert(k <= offset);
            }
            lemma_byte_offset_injective(s, i as int, target);
        }
        if i == chars.len() {
            assert(i as int == target);
        } else {
            assert(at >= offset);
            if at > k {
                lemma_byte_offset_monotone(s, i as int, target);
            }
            lemma_byte_offset_injective(s, i as int, target);
        }
        assert(i as int == target);
        lemma_byte_offset_monotone(s, 0, s.len() as int);
    }
    let count = newlines + if i > 0 && !ended {
        1
    } else {
        0
    };
    let line = if count == 0 {
        1
    } else {
        count
    };
    let column = if count == 0 {
        1
    } else if ended {
        previous + 1
    } else {
        tail + 1
    };
    (line, column)
}

/// The message of a diagnostic as `report` writes it:
/// "<severity>: [<line>:<column>] <message>".
pub open spec fn rendered(source: Seq<char>, d: DiagnosticView) -> Seq<char> {
    let b = text_before(source, clamp(source, d.span.start));
    (match d.severity {
        Severity::Error => "error"@,
        Severity::Warning => "warning"@,
    }) + ": ["@ + decimal(line_of(b)) + ":"@ + decimal(column_of(b)) + "] "@ + d.message
}

/// Renders a diagnostic as "<severity>: [<line>:<column>] <message>".
pub fn render(source: &str, d: &Diagnostic) -> (text: String)
    requires
        encode_utf8(source@).len() < usize::MAX,
        on_boundary(source@, clamp(source@, d.span.start)),
    ensures
        text@ == rendered(source@, d@),
{
    let (line, column) = location(source, d.span.start);
    let mut text = match d.severity {
        Severity::Error => String::from_str("error"),
        Severity::Warning => String::from_str("warning"),
    };
    text.append(": [");
    push_decimal(&mut text, line as u64);
    text.append(":");
    push_decimal(&mut text, column as u64);
    text.append("] ");
    text.append(d.message.as_str());
    assert(text@ =~= rendered(source@, d@));
    text
}

} // verus!
