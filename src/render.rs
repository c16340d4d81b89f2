//! What a span of a line shows on the terminal, and where.
//!
//! A span starts at a column; it shows its text, a tab shows spaces to the
//! next multiple of eight, a control or invalid byte shows as `<HH>`, a
//! character of no width as `<U+XXXX>`.  Only the characters that fit
//! entirely within the columns `start..end` are drawn.
use vstd::prelude::*;
use vstd::string::*;

use crate::line::Span;
use crate::line_drawing::{dec_graphic, line_drawing_char};
use crate::prompt::{char_width, hex, hex_string, width_of};
use crate::text::push_char;

verus! {

/// How a piece of a line is drawn.
#[derive(Clone, Copy, Debug, PartialEq, Eq, Structural)]
pub enum OutputStyle {
    /// With the attributes the file sets.
    File,
    /// In inverse video, for control characters.
    Control,
    /// As a search match.
    Match,
    /// As the current search match.
    CurrentMatch,
}

/// The style of a span, given the number of the current match.
pub open spec fn span_style(span: Span, current: Option<usize>) -> OutputStyle {
    match span {
        Span::Control(_) | Span::Invalid(_) | Span::Unprintable(_) => OutputStyle::Control,
        Span::Match(_, i) => if current == Some(i) { OutputStyle::CurrentMatch } else { OutputStyle::Match },
        _ => OutputStyle::File,
    }
}

/// The columns a character takes in text: its Unicode width, none for a
/// character without one.
pub open spec fn char_cols(c: char) -> int {
    match width_of(c) {
        Some(w) => w as int,
        None => 0,
    }
}

/// The columns each character of a shown text takes: its width for text,
/// one for the ASCII forms of the other spans.
pub open spec fn shown_width(c: char, text: bool) -> int {
    if text { char_cols(c) } else { 1 }
}

/// The columns of a shown text.
pub open spec fn cols(s: Seq<char>, text: bool) -> int
    decreases s.len(),
{
    if s.len() == 0 { 0 } else { cols(s.drop_last(), text) + shown_width(s.last(), text) }
}

/// The characters of `s`, shown from column `col0`, that fit entirely
/// within the columns `start..end`.
pub open spec fn clipped(s: Seq<char>, text: bool, col0: int, start: int, end: int) -> Seq<char>
    decreases s.len(),
{
    if s.len() == 0 {
        Seq::empty()
    } else {
        let prev = clipped(s.drop_last(), text, col0, start, end);
        let c = col0 + cols(s.drop_last(), text);
        let w = shown_width(s.last(), text);
        if c >= start && c + w <= end { prev.push(s.last()) } else { prev }
    }
}

/// How a character of no width shows, one `<U+XXXX>` per character.
pub open spec fn unprintable_text(g: Seq<char>) -> Seq<char>
    decreases g.len(),
{
    if g.len() == 0 {
        Seq::empty()
    } else {
        unprintable_text(g.drop_last()) + seq!['<', 'U', '+'] + hex((g.last() as u32) as nat, 4) + seq!['>']
    }
}

/// The text a span shows when it starts at column `position`.
pub open spec fn shown_text(span: Span, position: int, line_drawing: bool) -> Seq<char> {
    match span {
        Span::Text(t) => if line_drawing { t@.map_values(|c: char| dec_graphic(c)) } else { t@ },
        Span::Match(t, _) => if line_drawing { t@.map_values(|c: char| dec_graphic(c)) } else { t@ },
        Span::TAB => Seq::new((8 - position % 8) as nat, |i: int| ' '),
        Span::Control(b) => seq!['<'] + hex(b as nat, 2) + seq!['>'],
        Span::Invalid(b) => seq!['<'] + hex(b as nat, 2) + seq!['>'],
        Span::Unprintable(g) => unprintable_text(g@),
        _ => Seq::empty(),
    }
}

/// Whether a span shows text, whose characters take their Unicode width.
pub open spec fn is_text(span: Span) -> bool {
    span is Text || span is Match
}

/// The columns a span takes when it starts at column `position`.
pub open spec fn span_columns(span: Span, position: int, line_drawing: bool) -> int {
    cols(shown_text(span, position, line_drawing), is_text(span))
}

/// The number of characters a span holds.
pub open spec fn span_chars(span: Span) -> int {
    match span {
        Span::Text(t) => t@.len() as int,
        Span::Match(t, _) => t@.len() as int,
        Span::Unprintable(g) => g@.len() as int,
        _ => 1,
    }
}

proof fn lemma_cols_bound(s: Seq<char>, text: bool, k: int)
    requires
        forall|i: int| 0 <= i < s.len() ==> 0 <= #[trigger] shown_width(s[i], text) <= k,
    ensures
        0 <= cols(s, text) <= k * s.len(),
    decreases s.len(),
{
    if s.len() > 0 {
        lemma_cols_bound(s.drop_last(), text, k);
        assert(shown_width(s[s.len() - 1], text) <= k);
        assert(k * (s.len() - 1) + k == k * s.len()) by (nonlinear_arith);
    }
}

/// Show the characters `s` from column `col0`, keeping those that fit
/// within `start..end`.  Returns them and the column after the last.
fn clip_chars(s: &Vec<char>, text: bool, col0: usize, start: usize, end: usize) -> (r: (String, usize))
    requires
        col0 + 4 * s@.len() <= usize::MAX,
    ensures
        r.0@ == clipped(s@, text, col0 as int, start as int, end as int),
        r.1 == col0 + cols(s@, text),
{
    let mut out = String::new();
    let mut col: usize = col0;
    let mut i: usize = 0;
    while i < s.len()
        invariant
            i <= s@.len(),
            col0 + 4 * s@.len() <= usize::MAX,
            col <= col0 + 3 * i,
            col == col0 + cols(s@.subrange(0, i as int), text),
            out@ == clipped(s@.subrange(0, i as int), text, col0 as int, start as int, end as int),
        decreases s@.len() - i,
    {
        let c = s[i];
        let w: usize = if text {
            match char_width(c) {
                Some(w) => w,
                None => 0,
            }
        } else {
            1
        };
        proof {
            let p = s@.subrange(0, i + 1);
            assert(p.drop_last() == s@.subrange(0, i as int));
            assert(p.last() == c);
            assert(w == shown_width(c, text));
        }
        if col >= start && col + w <= end {
            push_char(&mut out, c);
        }
        col = col + w;
        i = i + 1;
    }
    proof {
        assert(s@.subrange(0, s@.len() as int) == s@);
    }
    (out, col)
}

/// The characters of a string.
fn chars_of(s: &str, line_drawing: bool) -> (r: Vec<char>)
    ensures
        r@ == if line_drawing { s@.map_values(|c: char| dec_graphic(c)) } else { s@ },
{
    let n = s.unicode_len();
    let mut v: Vec<char> = Vec::new();
    let mut i: usize = 0;
    while i < n
        invariant
            i <= n,
            n == s@.len(),
            v@ == if line_drawing { s@.subrange(0, i as int).map_values(|c: char| dec_graphic(c)) } else { s@.subrange(0, i as int) },
        decreases n - i,
    {
        let c = s.get_char(i);
        v.push(if line_drawing { line_drawing_char(c) } else { c });
        proof {
            assert(s@.subrange(0, i + 1) == s@.subrange(0, i as int).push(c));
            assert(s@.subrange(0, i + 1).map_values(|c: char| dec_graphic(c))
                =~= s@.subrange(0, i as int).map_values(|c: char| dec_graphic(c)).push(dec_graphic(c)));
        }
        i = i + 1;
    }
    proof {
        assert(s@.subrange(0, n as int) == s@);
    }
    v
}

/// Append the characters of a string.
fn append_chars(v: &mut Vec<char>, s: &str)
    ensures
        final(v)@ == old(v)@ + s@,
{
    let n = s.unicode_len();
    let mut i: usize = 0;
    let ghost start = v@;
    while i < n
        invariant
            i <= n,
            n == s@.len(),
            start == old(v)@,
            v@ == start + s@.subrange(0, i as int),
        decreases n - i,
    {
        v.push(s.get_char(i));
        proof {
            assert(s@.subrange(0, i + 1) == s@.subrange(0, i as int).push(s@[i as int]));
        }
        i = i + 1;
    }
    proof {
        assert(s@.subrange(0, n as int) == s@);
    }
}

/// The text a span shows when it starts at column `position`.
fn shown(span: &Span, position: usize, line_drawing: bool) -> (r: Vec<char>)
    ensures
        r@ == shown_text(*span, position as int, line_drawing),
{
    proof {
        reveal_strlit("<");
        reveal_strlit(">");
        reveal_strlit("<U+");
        assert("<"@ =~= seq!['<']);
        assert(">"@ =~= seq!['>']);
        assert("<U+"@ =~= seq!['<', 'U', '+']);
    }
    match span {
        Span::Text(t) => chars_of(t.as_str(), line_drawing),
        Span::Match(t, _) => chars_of(t.as_str(), line_drawing),
        Span::TAB => {
            let n = 8 - position % 8;
            let mut v: Vec<char> = Vec::new();
            while v.len() < n
                invariant
                    v@.len() <= n,
                    n == 8 - position % 8,
                    v@ == Seq::new(v@.len(), |i: int| ' '),
                decreases n - v@.len(),
            {
                v.push(' ');
                proof {
                    assert(v@ =~= Seq::new(v@.len(), |i: int| ' '));
                }
            }
            v
        },
        Span::Control(b) | Span::Invalid(b) => {
            let mut v: Vec<char> = Vec::new();
            append_chars(&mut v, "<");
            append_chars(&mut v, hex_string(*b as u32, 2).as_str());
            append_chars(&mut v, ">");
            proof {
                assert(v@ =~= seq!['<'] + hex(*b as nat, 2) + seq!['>']);
            }
            v
        },
        Span::Unprintable(g) => {
            let n = g.as_str().unicode_len();
            let mut v: Vec<char> = Vec::new();
            let mut i: usize = 0;
            while i < n
                invariant
                    i <= n,
                    n == g@.len(),
                    v@ == unprintable_text(g@.subrange(0, i as int)),
                decreases n - i,
            {
                let c = g.as_str().get_char(i);
                let ghost before = v@;
                proof {
                    reveal_strlit("<U+");
                    reveal_strlit(">");
                    assert("<U+"@ =~= seq!['<', 'U', '+']);
                    assert(">"@ =~= seq!['>']);
                }
                append_chars(&mut v, "<U+");
                append_chars(&mut v, hex_string(c as u32, 4).as_str());
                append_chars(&mut v, ">");
                proof {
                    let p = g@.subrange(0, i + 1);
                    assert(p.drop_last() == g@.subrange(0, i as int));
                    assert(p.last() == c);
                    assert(v@ =~= before + seq!['<', 'U', '+'] + hex((c as u32) as nat, 4) + seq!['>']);
                }
                i = i + 1;
            }
            proof {
                assert(g@.subrange(0, n as int) == g@);
            }
            v
        },
        _ => Vec::new(),
    }
}

/// Show a span that starts at column `position` within the columns
/// `start..end`: the part of its text that fits, in its style, and the
/// column after it.  `current` is the number of the current match.
pub fn render_span(span: &Span, position: usize, start: usize, end: usize, line_drawing: bool, current: Option<usize>) -> (r: (String, OutputStyle, usize))
    requires
        position + 4 * shown_text(*span, position as int, line_drawing).len() <= usize::MAX,
    ensures
        r.0@ == clipped(shown_text(*span, position as int, line_drawing), is_text(*span), position as int, start as int, end as int),
        r.1 == span_style(*span, current),
        r.2 == position + span_columns(*span, position as int, line_drawing),
{
    let text = shown(span, position, line_drawing);
    let is_t = match span {
        Span::Text(_) | Span::Match(_, _) => true,
        _ => false,
    };
    let style = match span {
        Span::Control(_) | Span::Invalid(_) | Span::Unprintable(_) => OutputStyle::Control,
        Span::Match(_, i) => if current == Some(*i) { OutputStyle::CurrentMatch } else { OutputStyle::Match },
        _ => OutputStyle::File,
    };
    let (s, col) = clip_chars(&text, is_t, position, start, end);
    (s, style, col)
}

/// The column after the first `n` spans of a line, and whether DEC line
/// drawing is on there.
pub open spec fn state_after(spans: Seq<Span>, n: int) -> (int, bool)
    decreases n,
{
    if n <= 0 || n > spans.len() {
        (0, false)
    } else {
        let (pos, ld) = state_after(spans, n - 1);
        let s = spans[n - 1];
        let ld2 = match s {
            Span::LineDrawing(b) => b,
            _ => ld,
        };
        (pos + span_columns(s, pos, ld2), ld2)
    }
}

/// The columns a parsed line takes, or `None` if counting them would run
/// out of the integer range.
pub fn line_columns(spans: &Vec<Span>) -> (r: Option<usize>)
    ensures
        r is Some ==> r->0 == state_after(spans@, spans@.len() as int).0,
{
    let mut position: usize = 0;
    let mut line_drawing = false;
    let mut i: usize = 0;
    while i < spans.len()
        invariant
            i <= spans@.len(),
            (position as int, line_drawing) == state_after(spans@, i as int),
        decreases spans@.len() - i,
    {
        let span = &spans[i];
        if let Span::LineDrawing(on) = span {
            line_drawing = *on;
        }
        let text = shown(span, position, line_drawing);
        if text.len() > (usize::MAX - position) / 4 {
            return None;
        }
        let (_, _, next) = render_span(span, position, 0, 0, line_drawing, None);
        position = next;
        i = i + 1;
    }
    Some(position)
}

/// The rows a line of `columns` columns takes in a view `width` columns
/// wide: one when unwrapped, else as many as its columns fill, at least one.
pub fn wrapped_height(columns: usize, width: usize, wrapped: bool) -> (r: usize)
    ensures
        r == if !wrapped || width == 0 || columns == 0 { 1 } else { (columns + width - 1) / (width as int) },
        r >= 1,
{
    if !wrapped || width == 0 || columns == 0 {
        1
    } else {
        let q = columns / width;
        proof {
            if columns % width != 0 {
                assert(width >= 2);
                assert(q < columns) by (nonlinear_arith)
                    requires q == columns / width, width >= 2, columns > 0;
            }
        }
        let r = if columns % width == 0 { q } else { q + 1 };
        proof {
            assert(r == (columns + width - 1) / (width as int)) by (nonlinear_arith)
                requires columns > 0, width > 0, q == columns / width, r == q + if columns % width == 0 { 0int } else { 1int };
            assert(r >= 1) by (nonlinear_arith)
                requires columns > 0, width > 0, r == (columns + width - 1) / (width as int);
        }
        r
    }
}

/// Rendering a text span from the first column with no right limit gives
/// back its text.
pub proof fn lemma_text_round_trip(t: Seq<char>, col0: int)
    requires
        forall|i: int| 0 <= i < t.len() ==> 0 <= #[trigger] char_cols(t[i]),
        col0 >= 0,
    ensures
        clipped(t, true, col0, 0, col0 + cols(t, true)) == t,
    decreases t.len(),
{
    if t.len() > 0 {
        let p = t.drop_last();
        assert forall|i: int| 0 <= i < p.len() implies 0 <= #[trigger] char_cols(p[i]) by {
            assert(p[i] == t[i]);
        }
        lemma_text_round_trip(p, col0);
        lemma_cols_nonneg(p);
        assert(char_cols(t[t.len() - 1]) >= 0);
        lemma_clipped_wider(p, col0, col0 + cols(p, true), col0 + cols(t, true));
        assert(p.push(t.last()) == t);
    }
}

proof fn lemma_cols_nonneg(t: Seq<char>)
    requires
        forall|i: int| 0 <= i < t.len() ==> 0 <= #[trigger] char_cols(t[i]),
    ensures
        cols(t, true) >= 0,
    decreases t.len(),
{
    if t.len() > 0 {
        let p = t.drop_last();
        assert forall|i: int| 0 <= i < p.len() implies 0 <= #[trigger] char_cols(p[i]) by {
            assert(p[i] == t[i]);
        }
        lemma_cols_nonneg(p);
        assert(char_cols(t[t.len() - 1]) >= 0);
    }
}

proof fn lemma_clipped_wider(t: Seq<char>, col0: int, end1: int, end2: int)
    requires
        end1 <= end2,
        clipped(t, true, col0, 0, end1) == t,
        forall|i: int| 0 <= i < t.len() ==> 0 <= #[trigger] char_cols(t[i]),
        col0 >= 0,
        col0 + cols(t, true) <= end1,
    ensures
        clipped(t, true, col0, 0, end2) == t,
    decreases t.len(),
{
    if t.len() > 0 {
        let p = t.drop_last();
        assert forall|i: int| 0 <= i < p.len() implies 0 <= #[trigger] char_cols(p[i]) by {
            assert(p[i] == t[i]);
        }
        lemma_cols_nonneg(p);
        assert(char_cols(t[t.len() - 1]) >= 0);
        assert(clipped(p, true, col0, 0, end1) == p) by {
            let c = col0 + cols(p, true);
            assert(c >= 0 && c + char_cols(t.last()) <= end1);
            assert(clipped(t, true, col0, 0, end1) == clipped(p, true, col0, 0, end1).push(t.last()));
            assert(clipped(p, true, col0, 0, end1) == clipped(t, true, col0, 0, end1).drop_last());
        }
        lemma_clipped_wider(p, col0, end1, end2);
    }
}

} // verus!
