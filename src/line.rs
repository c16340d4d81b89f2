//! Parsing the bytes of a line into spans for display.
//!
//! A line is split into runs of valid UTF-8 and invalid bytes.  A valid run
//! is split into grapheme clusters; an escape byte starts an escape
//! sequence, which the terminal escape parser reads whole; line ends, tabs
//! and control characters get spans of their own, as do clusters of no
//! width; the other clusters are gathered into text spans.  Every byte of
//! the line ends up in exactly one span.
use vstd::prelude::*;
use vstd::slice::slice_subrange;

use std::sync::Arc;

use termwiz::escape::csi::{Sgr, CSI};
use termwiz::escape::esc::{Esc, EscCode};
use termwiz::escape::osc::OperatingSystemCommand;
use termwiz::escape::parser::Parser;
use termwiz::escape::Action;
use termwiz::hyperlink::Hyperlink;
use unicode_segmentation::UnicodeSegmentation;
use unicode_width::UnicodeWidthStr;

verus! {

#[verifier::external_type_specification]
#[verifier::external_body]
pub struct ExAction(termwiz::escape::Action);

#[verifier::external_type_specification]
#[verifier::external_body]
pub struct ExSgr(termwiz::escape::csi::Sgr);

#[verifier::external_type_specification]
#[verifier::external_body]
pub struct ExHyperlink(termwiz::hyperlink::Hyperlink);

/// The start offsets of the grapheme clusters of a UTF-8 text.
pub uninterp spec fn grapheme_starts_of(bytes: Seq<u8>) -> Seq<usize>;

/// The display width of a UTF-8 text, or `None` for bytes that are not
/// UTF-8.
pub uninterp spec fn text_width_of(bytes: Seq<u8>) -> Option<usize>;

/// The text that bytes hold, with each invalid sequence replaced.
pub uninterp spec fn lossy_text(bytes: Seq<u8>) -> Seq<char>;

/// How UTF-8 validation splits bytes: the length of the longest valid
/// prefix, and the length of the invalid sequence after it (`None` when
/// the bytes end inside a sequence).
pub uninterp spec fn utf8_split_of(bytes: Seq<u8>) -> (usize, Option<usize>);

/// The number of bytes that the escape sequence at the start of the bytes
/// takes, as a fresh terminal escape parser reads it, if it reads one.
pub uninterp spec fn escape_len_of(bytes: Seq<u8>) -> Option<usize>;

/// Relies on `std::str::from_utf8`: the length of the longest valid UTF-8
/// prefix, and the length (one to three bytes) of the invalid sequence that
/// follows it, or `None` when the bytes end inside a sequence.
#[verifier::external_body]
fn utf8_prefix(bytes: &[u8]) -> (r: (usize, Option<usize>))
    ensures
        r == utf8_split_of(bytes@),
        r.0 <= bytes@.len(),
        r.1 is Some ==> 1 <= r.1->0 <= 3 && r.0 + r.1->0 <= bytes@.len(),
{
    match std::str::from_utf8(bytes) {
        Ok(_) => (bytes.len(), None),
        Err(e) => (e.valid_up_to(), e.error_len()),
    }
}

/// Relies on `UnicodeSegmentation::grapheme_indices` of unicode-segmentation:
/// the extended grapheme clusters of a text, in order, the first at offset
/// zero, each starting inside the text.  The clusters follow UAX #29, whose
/// rules GB3 to GB5 put a break before and after every control character,
/// carriage return and line feed, but for a carriage return followed by a
/// line feed.
#[verifier::external_body]
fn grapheme_starts(run: &[u8]) -> (r: Vec<usize>)
    ensures
        r@ == grapheme_starts_of(run@),
        r@.len() > 0 ==> r@[0] == 0,
        forall|i: int, j: int| 0 <= i < j < r@.len() ==> r@[i] < r@[j],
        forall|i: int| 0 <= i < r@.len() ==> r@[i] < run@.len(),
        r@.len() > 0 ==> forall|i: int| 0 <= i < run@.len() && #[trigger] is_control(run@[i]) ==> {
            &&& (r@.contains(i as usize) || (run@[i] == 0x0A && i > 0 && run@[i - 1] == 0x0D))
            &&& (i + 1 == run@.len() || r@.contains((i + 1) as usize) || (run@[i] == 0x0D && i + 1 < run@.len() && run@[i + 1] == 0x0A))
        },
        r@.len() > 0 ==> forall|i: int| 0 <= i < run@.len() - 1 && run@[i] == 0x0D && #[trigger] run@[i + 1] == 0x0A
            ==> !r@.contains((i + 1) as usize),
{
    match std::str::from_utf8(run) {
        Ok(s) => s.grapheme_indices(true).map(|(i, _)| i).collect(),
        Err(_) => Vec::new(),
    }
}

/// Relies on `UnicodeWidthStr::width` of unicode-width: the width of a
/// text depends on the text alone.
#[verifier::external_body]
fn text_width(bytes: &[u8]) -> (r: Option<usize>)
    ensures
        r == text_width_of(bytes@),
{
    std::str::from_utf8(bytes).ok().map(|s| s.width())
}

/// Relies on `String::from_utf8_lossy`: the text of the bytes; valid
/// UTF-8, and so ASCII, comes back unchanged.
#[verifier::external_body]
fn text_of(bytes: &[u8]) -> (r: String)
    ensures
        r@ == lossy_text(bytes@),
        (forall|i: int| 0 <= i < bytes@.len() ==> #[trigger] bytes@[i] < 0x80) ==> r@ == bytes@.map_values(|b: u8| b as char),
{
    String::from_utf8_lossy(bytes).into_owned()
}

/// The class of an escape action, as far as a line cares.
#[derive(Clone, Copy, Debug, PartialEq, Eq, Structural)]
pub enum EscapeKind {
    /// A change of graphic rendition.
    Sgr,
    /// A cursor motion or an edit.
    CursorOrEdit,
    /// A hyperlink starts or ends.
    Hyperlink,
    /// DEC line drawing starts (`true`) or ends (`false`).
    LineDrawing(bool),
    /// Anything else.
    Other,
}

/// What an escape action means for a line.
pub enum EscapeMeaning {
    /// A change of graphic rendition.
    Sgr(Sgr),
    /// A cursor motion or an edit, which a pager ignores.
    CursorOrEdit,
    /// A hyperlink starts or ends.
    Hyperlink(Option<Arc<Hyperlink>>),
    /// DEC line drawing starts (`true`) or ends (`false`).
    LineDrawing(bool),
    /// Anything else.
    Other,
}

/// The class of a meaning.
pub open spec fn kind_of(m: EscapeMeaning) -> EscapeKind {
    match m {
        EscapeMeaning::Sgr(_) => EscapeKind::Sgr,
        EscapeMeaning::CursorOrEdit => EscapeKind::CursorOrEdit,
        EscapeMeaning::Hyperlink(_) => EscapeKind::Hyperlink,
        EscapeMeaning::LineDrawing(b) => EscapeKind::LineDrawing(b),
        EscapeMeaning::Other => EscapeKind::Other,
    }
}

/// The classes of the actions of the escape sequence at the start of the
/// bytes, in order, as a fresh terminal escape parser reads them.
pub uninterp spec fn escape_kinds_of(bytes: Seq<u8>) -> Option<Seq<EscapeKind>>;

/// Relies on `Parser::parse_first_as_vec` of termwiz: the actions of the
/// escape sequence at the start of the bytes, each told apart by variant,
/// and the number of bytes it takes, at least one and at most all of them.
/// A fresh parser reads the bytes alone.
#[verifier::external_body]
pub(crate) fn parse_escape(bytes: &[u8]) -> (r: Option<(Vec<EscapeMeaning>, usize)>)
    ensures
        match r {
            Some((meanings, len)) => 1 <= len <= bytes@.len() && meanings@.len() > 0 && escape_len_of(bytes@) == Some(len)
                && escape_kinds_of(bytes@) == Some(meanings@.map_values(|m: EscapeMeaning| kind_of(m))),
            None => escape_len_of(bytes@) is None && escape_kinds_of(bytes@) is None,
        },
{
    Parser::new().parse_first_as_vec(bytes).map(|(actions, len)| {
        let meanings = actions.into_iter().map(|action| match action {
            Action::CSI(CSI::Sgr(sgr)) => EscapeMeaning::Sgr(sgr),
            Action::CSI(CSI::Cursor(_)) | Action::CSI(CSI::Edit(_)) => EscapeMeaning::CursorOrEdit,
            Action::OperatingSystemCommand(osc) => match *osc {
                OperatingSystemCommand::SetHyperlink(link) => EscapeMeaning::Hyperlink(link.map(Arc::new)),
                _ => EscapeMeaning::Other,
            },
            Action::Esc(Esc::Code(EscCode::DecLineDrawingG0)) => EscapeMeaning::LineDrawing(true),
            Action::Esc(Esc::Code(EscCode::AsciiCharacterSetG0)) => EscapeMeaning::LineDrawing(false),
            _ => EscapeMeaning::Other,
        });
        (meanings.collect(), len)
    })
}

/// A span of text within a line.
#[derive(Debug, Clone, PartialEq)]
pub enum Span {
    /// Ordinary text.
    Text(String),
    /// Text that matches the current search, and the number of the match.
    Match(String, usize),
    /// A control character.
    Control(u8),
    /// An invalid UTF-8 byte.
    Invalid(u8),
    /// A grapheme cluster of no width.
    Unprintable(String),
    /// A sequence of graphic rendition changes.
    SgrSequence(Vec<Sgr>),
    /// A hyperlink escape sequence.
    Hyperlink(Option<Arc<Hyperlink>>),
    /// A DEC line drawing escape sequence.
    LineDrawing(bool),
    /// An escape sequence that is kept but not shown.
    Ignore(Vec<u8>),
    /// A tab.
    TAB,
    /// A terminating CRLF.
    CRLF,
    /// A terminating LF.
    LF,
}

/// A span and the bytes `start..end` of the line it came from.
pub struct SourcedSpan {
    /// The span.
    pub span: Span,
    /// The first byte of the span in the line.
    pub start: usize,
    /// The byte after the span in the line.
    pub end: usize,
}

/// The spans cover the bytes `from..to` of `data` in order, each at least
/// one byte, and those that hold bytes hold the bytes they came from.
pub open spec fn tiles(spans: Seq<SourcedSpan>, data: Seq<u8>, from: int, to: int) -> bool {
    &&& spans.len() == 0 ==> from == to
    &&& spans.len() > 0 ==> spans[0].start == from && spans.last().end == to
    &&& forall|i: int| 0 <= i < spans.len() - 1 ==> (#[trigger] spans[i]).end == spans[i + 1].start
    &&& forall|i: int| 0 <= i < spans.len() ==> #[trigger] faithful(spans[i], data)
}

/// A control byte: below 0x20, or DEL.
pub open spec fn is_control(b: u8) -> bool {
    b < 0x20 || b == 0x7F
}

/// The length of the invalid bytes that follow the valid prefix of the
/// bytes `pos..` of `data`, as UTF-8 validation splits them.
pub open spec fn bad_len(data: Seq<u8>, pos: int) -> int {
    let split = utf8_split_of(data.subrange(pos, data.len() as int));
    match split.1 {
        Some(k) => k as int,
        None => data.len() - pos - split.0,
    }
}

/// Whether byte `p` is invalid UTF-8, splitting `data` from `pos` on.
pub open spec fn invalid_from(data: Seq<u8>, pos: int, p: int) -> bool
    decreases data.len() - pos,
{
    if pos < 0 || pos >= data.len() || p < pos {
        false
    } else {
        let v = utf8_split_of(data.subrange(pos, data.len() as int)).0 as int;
        let bad = bad_len(data, pos);
        if bad < 0 || v + bad <= 0 || pos + v + bad > data.len() {
            false
        } else if p < pos + v {
            false
        } else if p < pos + v + bad {
            true
        } else {
            invalid_from(data, pos + v + bad, p)
        }
    }
}

/// The end of the valid UTF-8 run that holds byte `p`, splitting `data`
/// from `pos` on.
pub open spec fn run_end_from(data: Seq<u8>, pos: int, p: int) -> int
    decreases data.len() - pos,
{
    if pos < 0 || pos >= data.len() || p < pos {
        data.len() as int
    } else {
        let v = utf8_split_of(data.subrange(pos, data.len() as int)).0 as int;
        let bad = bad_len(data, pos);
        if bad < 0 || v + bad <= 0 || pos + v + bad > data.len() {
            data.len() as int
        } else if p < pos + v {
            pos + v
        } else if p < pos + v + bad {
            data.len() as int
        } else {
            run_end_from(data, pos + v + bad, p)
        }
    }
}

/// The start of the valid UTF-8 run that holds byte `p`, splitting `data`
/// from `pos` on.
pub open spec fn run_start_from(data: Seq<u8>, pos: int, p: int) -> int
    decreases data.len() - pos,
{
    if pos < 0 || pos >= data.len() || p < pos {
        0
    } else {
        let v = utf8_split_of(data.subrange(pos, data.len() as int)).0 as int;
        let bad = bad_len(data, pos);
        if bad < 0 || v + bad <= 0 || pos + v + bad > data.len() {
            0
        } else if p < pos + v {
            pos
        } else if p < pos + v + bad {
            0
        } else {
            run_start_from(data, pos + v + bad, p)
        }
    }
}

/// The start of the valid UTF-8 run of a line that holds byte `p`.
pub open spec fn run_start(data: Seq<u8>, p: int) -> int {
    run_start_from(data, 0, p)
}

/// `q..e` is one grapheme cluster of the valid run that holds `q`.
pub open spec fn cluster(data: Seq<u8>, q: int, e: int) -> bool {
    let rs = run_start(data, q);
    let re = run_end(data, q);
    let st = grapheme_starts_of(data.subrange(rs, re));
    &&& rs <= q < e <= re
    &&& st.contains((q - rs) as usize)
    &&& (e == re || st.contains((e - rs) as usize))
    &&& forall|x: int| q < x < e ==> !#[trigger] st.contains((x - rs) as usize)
}

/// No grapheme cluster within `from..to` is of zero width.
pub open spec fn no_zero_width(data: Seq<u8>, from: int, to: int) -> bool {
    forall|q: int, e: int| from <= q < e <= to && #[trigger] cluster(data, q, e) ==> text_width_of(data.subrange(q, e)) != Some(0usize)
}

/// The class of the escape sequence at byte `p`, read to the end of the
/// valid run that holds it.
pub open spec fn escape_class_at(data: Seq<u8>, p: int) -> Option<EscapeKind> {
    match escape_kinds_of(data.subrange(p, run_end(data, p))) {
        Some(ks) => if ks.len() > 0 { Some(ks[0]) } else { None },
        None => None,
    }
}

/// A class of escape that has a span of its own.
pub open spec fn recognised(k: Option<EscapeKind>) -> bool {
    k is Some && k->0 != EscapeKind::Other
}

/// The number of graphic rendition actions among the classes.
pub open spec fn count_sgr(ks: Seq<EscapeKind>) -> nat
    decreases ks.len(),
{
    if ks.len() == 0 { 0 } else { count_sgr(ks.drop_last()) + if ks.last() == EscapeKind::Sgr { 1nat } else { 0nat } }
}

/// The number of graphic rendition actions in the escape sequence at `p`.
pub open spec fn escape_sgr_count(data: Seq<u8>, p: int) -> nat {
    match escape_kinds_of(data.subrange(p, run_end(data, p))) {
        Some(ks) => count_sgr(ks),
        None => 0,
    }
}

/// A span of text: `Text` or `Match`.
pub open spec fn textual(s: Span) -> bool {
    s is Text || s is Match
}

/// No two text spans stand next to each other: text runs are whole.
pub open spec fn separate_text(spans: Seq<SourcedSpan>) -> bool {
    forall|i: int| 0 <= i < spans.len() - 1 ==> !(textual((#[trigger] spans[i]).span) && textual(spans[i + 1].span))
}

/// The last of the spans is a text span.
pub open spec fn ends_textual(spans: Seq<SourcedSpan>) -> bool {
    spans.len() > 0 && textual(spans.last().span)
}

/// Whether byte `p` of a line is not valid UTF-8.
pub open spec fn invalid_byte(data: Seq<u8>, p: int) -> bool {
    invalid_from(data, 0, p)
}

/// The end of the valid UTF-8 run of a line that holds byte `p`.
pub open spec fn run_end(data: Seq<u8>, p: int) -> int {
    run_end_from(data, 0, p)
}

/// No byte of `from..to` is invalid UTF-8.
pub open spec fn all_valid(data: Seq<u8>, from: int, to: int) -> bool {
    forall|p: int| from <= p < to ==> !#[trigger] invalid_byte(data, p)
}

/// No byte of `from..to` is a control byte.
pub open spec fn no_control(data: Seq<u8>, from: int, to: int) -> bool {
    forall|p: int| from <= p < to ==> !#[trigger] is_control(data[p])
}

/// The bytes `start..end` are one escape sequence, as the escape parser
/// reads it from `start` to the end of its valid UTF-8 run.
pub open spec fn one_escape(data: Seq<u8>, start: int, end: int) -> bool {
    &&& data[start] == 0x1B
    &&& all_valid(data, start, end)
    &&& end <= run_end(data, start)
    &&& escape_len_of(data.subrange(start, run_end(data, start))) == Some((end - start) as usize)
}

/// A span is at least one byte long, within the line, holds the bytes it
/// came from where it holds bytes, and is of the kind its bytes call for:
/// - invalid UTF-8 bytes are `Invalid` spans;
/// - text holds neither invalid bytes, control bytes nor a cluster of zero
///   width, and a cluster of zero width is `Unprintable`;
/// - control bytes, tabs and line ends have spans of their own, a carriage
///   return followed by a line feed being `CRLF`;
/// - an escape span is one sequence of the escape parser, of the span kind
///   its first action calls for, and an escape byte is a `Control` span only
///   where no such sequence starts.
pub open spec fn faithful(s: SourcedSpan, data: Seq<u8>) -> bool {
    &&& s.start < s.end <= data.len()
    &&& match s.span {
        Span::Invalid(b) => s.end == s.start + 1 && data[s.start as int] == b && invalid_byte(data, s.start as int),
        Span::Control(b) => s.end == s.start + 1 && data[s.start as int] == b && is_control(b)
            && !invalid_byte(data, s.start as int)
            && (b == 0x1B ==> !recognised(escape_class_at(data, s.start as int)))
            && (b == 0x0D ==> !(s.start + 1 < run_end(data, s.start as int) && data[s.start + 1] == 0x0A)),
        Span::LF => s.end == s.start + 1 && data[s.start as int] == 0x0A && !invalid_byte(data, s.start as int),
        Span::TAB => s.end == s.start + 1 && data[s.start as int] == 0x09 && !invalid_byte(data, s.start as int),
        Span::CRLF => s.end == s.start + 2 && data[s.start as int] == 0x0D && data[s.start + 1] == 0x0A
            && all_valid(data, s.start as int, s.end as int),
        Span::Ignore(v) => v@ == data.subrange(s.start as int, s.end as int) && one_escape(data, s.start as int, s.end as int)
            && escape_class_at(data, s.start as int) == Some(EscapeKind::CursorOrEdit),
        Span::Text(t) => t@ == lossy_text(data.subrange(s.start as int, s.end as int))
            && all_valid(data, s.start as int, s.end as int) && no_control(data, s.start as int, s.end as int)
            && no_zero_width(data, s.start as int, s.end as int),
        Span::Match(t, _) => t@ == lossy_text(data.subrange(s.start as int, s.end as int))
            && all_valid(data, s.start as int, s.end as int) && no_control(data, s.start as int, s.end as int)
            && no_zero_width(data, s.start as int, s.end as int),
        Span::Unprintable(t) => t@ == lossy_text(data.subrange(s.start as int, s.end as int))
            && all_valid(data, s.start as int, s.end as int) && no_control(data, s.start as int, s.end as int)
            && text_width_of(data.subrange(s.start as int, s.end as int)) == Some(0usize),
        Span::SgrSequence(v) => one_escape(data, s.start as int, s.end as int)
            && escape_class_at(data, s.start as int) == Some(EscapeKind::Sgr)
            && v@.len() == escape_sgr_count(data, s.start as int),
        Span::Hyperlink(_) => one_escape(data, s.start as int, s.end as int)
            && escape_class_at(data, s.start as int) == Some(EscapeKind::Hyperlink),
        Span::LineDrawing(b) => one_escape(data, s.start as int, s.end as int)
            && escape_class_at(data, s.start as int) == Some(EscapeKind::LineDrawing(b)),
    }
}

/// The bytes `start..end` lie in the valid run that starts at
/// `start_of_run`.
pub open spec fn starts_at(data: Seq<u8>, start: int, end: int, start_of_run: int) -> bool {
    forall|p: int| start <= p < end ==> #[trigger] run_start(data, p) == start_of_run
}

/// The bytes `start..end` are valid UTF-8 and lie in the valid run that
/// ends at `end_of_run`.
pub open spec fn in_run(data: Seq<u8>, start: int, end: int, end_of_run: int) -> bool {
    forall|p: int| start <= p < end ==> !#[trigger] invalid_byte(data, p) && run_end(data, p) == end_of_run
}

pub(crate) proof fn lemma_tiles_push(spans: Seq<SourcedSpan>, s: SourcedSpan, data: Seq<u8>, from: int, to: int)
    requires
        tiles(spans, data, from, to),
        s.start == to,
        faithful(s, data),
    ensures
        tiles(spans.push(s), data, from, s.end as int),
{
    let t = spans.push(s);
    assert forall|i: int| 0 <= i < t.len() - 1 implies (#[trigger] t[i]).end == t[i + 1].start by {
        if i < spans.len() - 1 {
            assert(t[i] == spans[i] && t[i + 1] == spans[i + 1]);
        } else {
            assert(t[i] == spans.last());
        }
    }
    assert forall|i: int| 0 <= i < t.len() implies #[trigger] faithful(t[i], data) by {
        if i < spans.len() {
            assert(t[i] == spans[i]);
        }
    }
    if spans.len() > 0 {
        assert(t[0] == spans[0]);
    }
}

/// The bytes `from..to` of `data`, copied.
fn copy_bytes(data: &[u8], from: usize, to: usize) -> (r: Vec<u8>)
    requires
        from <= to <= data@.len(),
    ensures
        r@ == data@.subrange(from as int, to as int),
{
    let mut v: Vec<u8> = Vec::new();
    let mut i: usize = from;
    while i < to
        invariant
            from <= i <= to <= data@.len(),
            v@ == data@.subrange(from as int, i as int),
        decreases to - i,
    {
        v.push(data[i]);
        proof {
            assert(data@.subrange(from as int, i + 1) == data@.subrange(from as int, i as int).push(data@[i as int]));
        }
        i = i + 1;
    }
    v
}

/// Text spans stand only where no match number is given, and match spans
/// carry the number given.
pub open spec fn tagged(spans: Seq<SourcedSpan>, match_index: Option<usize>) -> bool {
    forall|i: int| 0 <= i < spans.len() ==> #[trigger] tag_ok(spans[i].span, match_index)
}

/// A text span stands only where no match number is given, and a match
/// span carries the number given.
pub open spec fn tag_ok(span: Span, match_index: Option<usize>) -> bool {
    &&& span is Text ==> match_index is None
    &&& span is Match ==> match_index == Some(span->Match_1)
}

proof fn lemma_tagged_push(spans: Seq<SourcedSpan>, s: SourcedSpan, match_index: Option<usize>)
    requires
        tagged(spans, match_index),
        tag_ok(s.span, match_index),
    ensures
        tagged(spans.push(s), match_index),
{
    assert forall|i: int| 0 <= i < spans.push(s).len() implies #[trigger] tag_ok(spans.push(s)[i].span, match_index) by {
        if i < spans.len() {
            assert(spans.push(s)[i] == spans[i]);
        }
    }
}

/// Push a span that starts where the spans so far end.
fn push_span(out: &mut Vec<SourcedSpan>, data: &[u8], s: SourcedSpan, match_index: Option<usize>)
    requires
        tiles(old(out)@, data@, 0, s.start as int),
        tagged(old(out)@, match_index),
        separate_text(old(out)@),
        !(ends_textual(old(out)@) && textual(s.span)),
        faithful(s, data@),
        tag_ok(s.span, match_index),
    ensures
        tiles(final(out)@, data@, 0, s.end as int),
        tagged(final(out)@, match_index),
        separate_text(final(out)@),
        ends_textual(final(out)@) == textual(s.span),
{
    proof {
        lemma_tiles_push(out@, s, data@, 0, s.start as int);
        lemma_tagged_push(out@, s, match_index);
        let t = out@.push(s);
        assert forall|i: int| 0 <= i < t.len() - 1 implies !(textual((#[trigger] t[i]).span) && textual(t[i + 1].span)) by {
            if i + 1 < out@.len() {
                assert(t[i] == out@[i] && t[i + 1] == out@[i + 1]);
            } else {
                assert(t[i] == out@.last());
            }
        }
    }
    out.push(s);
}

/// Push a text span for the bytes `start..end`, a match span when the
/// text is part of a search match.
fn push_text(out: &mut Vec<SourcedSpan>, data: &[u8], start: usize, end: usize, match_index: Option<usize>)
    requires
        tiles(old(out)@, data@, 0, start as int),
        tagged(old(out)@, match_index),
        separate_text(old(out)@),
        !ends_textual(old(out)@),
        start < end <= data@.len(),
        all_valid(data@, start as int, end as int),
        no_control(data@, start as int, end as int),
        no_zero_width(data@, start as int, end as int),
    ensures
        tiles(final(out)@, data@, 0, end as int),
        tagged(final(out)@, match_index),
        separate_text(final(out)@),
        ends_textual(final(out)@),
{
    let text = text_of(slice_subrange(data, start, end));
    let span = match match_index {
        Some(m) => Span::Match(text, m),
        None => Span::Text(text),
    };
    push_span(out, data, SourcedSpan { span, start, end }, match_index);
}

/// No grapheme cluster lies within a run whose cluster starts are unknown.
proof fn lemma_no_clusters(data: Seq<u8>, from: int, to: int)
    requires
        0 <= from < to <= data.len(),
        grapheme_starts_of(data.subrange(from, to)).len() == 0,
        in_run(data, from, to, to),
        starts_at(data, from, to, from),
    ensures
        forall|q: int, e: int| from <= q < e <= to ==> !#[trigger] cluster(data, q, e),
{
    assert forall|q: int, e: int| from <= q < e <= to implies !#[trigger] cluster(data, q, e) by {
        assert(!invalid_byte(data, q));
        assert(run_start(data, q) == from);
    }
}

/// Push spans for a whole valid run whose grapheme clusters are unknown,
/// cut at escape sequences and control bytes: each escape sequence, control
/// byte, tab or line end gets a span of its own, the bytes between them
/// text spans.
fn push_plain(out: &mut Vec<SourcedSpan>, data: &[u8], from: usize, to: usize, match_index: Option<usize>)
    requires
        tiles(old(out)@, data@, 0, from as int),
        tagged(old(out)@, match_index),
        separate_text(old(out)@),
        !ends_textual(old(out)@),
        from < to <= data@.len(),
        in_run(data@, from as int, to as int, to as int),
        starts_at(data@, from as int, to as int, from as int),
        grapheme_starts_of(data@.subrange(from as int, to as int)).len() == 0,
    ensures
        tiles(final(out)@, data@, 0, to as int),
        tagged(final(out)@, match_index),
        separate_text(final(out)@),
{
    proof {
        lemma_no_clusters(data@, from as int, to as int);
    }
    let mut p: usize = from;
    let mut text: Option<usize> = None;
    while p < to
        invariant
            from <= p <= to <= data@.len(),
            in_run(data@, from as int, to as int, to as int),
            forall|q: int, e: int| from <= q < e <= to ==> !#[trigger] cluster(data@, q, e),
            tagged(out@, match_index),
            separate_text(out@),
            !ends_textual(out@),
            text is None ==> tiles(out@, data@, 0, p as int),
            text matches Some(t) ==> from <= t < p && tiles(out@, data@, 0, t as int) && no_control(data@, t as int, p as int),
        decreases to - p,
    {
        let b = data[p];
        proof {
            assert(!invalid_byte(data@, p as int));
            assert(run_end(data@, p as int) == to);
            assert(in_run(data@, p as int, to as int, to as int));
        }
        let esc = if b == 0x1B { escape_span(data, p, to) } else { None };
        if esc.is_some() || b < 0x20 || b == 0x7F {
            if let Some(t) = text {
                proof {
                    assert(no_zero_width(data@, t as int, p as int));
                    assert(all_valid(data@, t as int, p as int));
                }
                push_text(out, data, t, p, match_index);
                text = None;
            }
            let (span, end) = match esc {
                Some((span, end)) => (span, end),
                None => {
                    if b == 0x0D && p + 1 < to && data[p + 1] == 0x0A {
                        proof {
                            assert(!invalid_byte(data@, p + 1));
                        }
                        (Span::CRLF, p + 2)
                    } else if b == 0x0A {
                        (Span::LF, p + 1)
                    } else if b == 0x09 {
                        (Span::TAB, p + 1)
                    } else {
                        (Span::Control(b), p + 1)
                    }
                },
            };
            push_span(out, data, SourcedSpan { span, start: p, end }, match_index);
            p = end;
        } else {
            if text.is_none() {
                text = Some(p);
            }
            p = p + 1;
        }
    }
    if let Some(t) = text {
        proof {
            assert(no_zero_width(data@, t as int, to as int));
            assert(all_valid(data@, t as int, to as int));
        }
        push_text(out, data, t, to, match_index);
    }
}

/// The span for an escape sequence at `at`, and the byte after it; `None`
/// where no escape sequence of a kind with a span of its own starts there.
fn escape_span(data: &[u8], at: usize, run_end_at: usize) -> (r: Option<(Span, usize)>)
    requires
        at < run_end_at <= data@.len(),
        data@[at as int] == 0x1B,
        in_run(data@, at as int, run_end_at as int, run_end_at as int),
    ensures
        match r {
            Some((span, end)) => at < end <= run_end_at && faithful(SourcedSpan { span, start: at, end }, data@)
                && !textual(span),
            None => !recognised(escape_class_at(data@, at as int)),
        },
{
    proof {
        assert(!invalid_byte(data@, at as int));
        assert(run_end(data@, at as int) == run_end_at);
    }
    let piece = slice_subrange(data, at, run_end_at);
    let parsed = parse_escape(piece);
    let (meanings, len) = match parsed {
        Some(p) => p,
        None => {
            return None;
        },
    };
    let end = at + len;
    let ghost kinds = meanings@.map_values(|m: EscapeMeaning| kind_of(m));
    let ghost all = meanings@;
    proof {
        assert(piece@ == data@.subrange(at as int, run_end_at as int));
        assert(escape_class_at(data@, at as int) == Some(kind_of(all[0])));
        assert forall|p: int| at <= p < end implies !#[trigger] invalid_byte(data@, p) by {}
    }
    let mut meanings = meanings;
    let total = meanings.len();
    let first = meanings.remove(0);
    proof {
        assert(first == all[0]);
        assert(kinds[0] == kind_of(first));
    }
    let span = match first {
        EscapeMeaning::Sgr(sgr) => {
            let mut sequence: Vec<Sgr> = Vec::new();
            sequence.push(sgr);
            proof {
                assert(kinds.subrange(0, 1).drop_last() =~= Seq::<EscapeKind>::empty());
                assert(kinds.subrange(0, 1).last() == kinds[0]);
                assert(kinds[0] == EscapeKind::Sgr);
                assert(count_sgr(Seq::<EscapeKind>::empty()) == 0);
                assert(count_sgr(kinds.subrange(0, 1)) == 1);
            }
            let mut i: usize = 1;
            while meanings.len() > 0
                invariant
                    1 <= i <= all.len(),
                    total == all.len(),
                    meanings@ == all.subrange(i as int, all.len() as int),
                    kinds == all.map_values(|m: EscapeMeaning| kind_of(m)),
                    sequence@.len() == count_sgr(kinds.subrange(0, i as int)),
                decreases meanings@.len(),
            {
                let ghost before = meanings@;
                let m = meanings.remove(0);
                proof {
                    assert(m == all[i as int]);
                    assert(kinds.subrange(0, i + 1).drop_last() == kinds.subrange(0, i as int));
                    assert(kinds.subrange(0, i + 1).last() == kind_of(m));
                }
                match m {
                    EscapeMeaning::Sgr(sgr) => sequence.push(sgr),
                    _ => {},
                }
                i = i + 1;
                proof {
                    assert(meanings@ =~= all.subrange(i as int, all.len() as int));
                }
            }
            proof {
                assert(kinds.subrange(0, i as int) == kinds);
            }
            Span::SgrSequence(sequence)
        },
        EscapeMeaning::CursorOrEdit => {
            let bytes = copy_bytes(data, at, end);
            Span::Ignore(bytes)
        },
        EscapeMeaning::Hyperlink(link) => Span::Hyperlink(link),
        EscapeMeaning::LineDrawing(on) => Span::LineDrawing(on),
        EscapeMeaning::Other => {
            return None;
        },
    };
    Some((span, end))
}

/// Control bytes within the grapheme cluster `gs..ge` only stand alone, or
/// as a carriage return and line feed together.
pub open spec fn cluster_ok(data: Seq<u8>, gs: int, ge: int) -> bool {
    forall|i: int| gs <= i < ge && #[trigger] is_control(data[i])
        ==> (ge == gs + 1 && i == gs) || (ge == gs + 2 && data[gs] == 0x0D && data[gs + 1] == 0x0A)
}

/// The span a grapheme cluster `gs..ge` gets on its own, and where it
/// ends, unless it is ordinary text.
fn cluster_span(data: &[u8], gs: usize, ge: usize, run_end_at: usize) -> (r: Option<(Span, usize)>)
    requires
        gs < ge <= run_end_at <= data@.len(),
        in_run(data@, gs as int, run_end_at as int, run_end_at as int),
        cluster_ok(data@, gs as int, ge as int),
        (data@[gs as int] == 0x0D && gs + 1 < run_end_at && data@[gs + 1] == 0x0A) ==> ge > gs + 1,
    ensures
        match r {
            Some((span, end)) => ge <= end <= run_end_at && faithful(SourcedSpan { span, start: gs, end }, data@)
                && !textual(span),
            None => no_control(data@, gs as int, ge as int) && text_width_of(data@.subrange(gs as int, ge as int)) != Some(0usize),
        },
{
    let len = ge - gs;
    proof {
        assert(!invalid_byte(data@, gs as int));
        assert(run_end(data@, gs as int) == run_end_at);
    }
    let esc = if len == 1 && data[gs] == 0x1B { escape_span(data, gs, run_end_at) } else { None };
    if let Some((span, end)) = esc {
        return Some((span, end));
    }
    if len == 2 && data[gs] == 0x0D && data[gs + 1] == 0x0A {
        proof {
            assert(!invalid_byte(data@, gs + 1));
        }
        return Some((Span::CRLF, ge));
    }
    if len == 1 {
        let b = data[gs];
        if b == 0x0A {
            return Some((Span::LF, ge));
        }
        if b == 0x09 {
            return Some((Span::TAB, ge));
        }
        if b < 0x20 || b == 0x7F {
            return Some((Span::Control(b), ge));
        }
    }
    proof {
        assert forall|p: int| gs <= p < ge implies !#[trigger] is_control(data@[p]) by {
            if is_control(data@[p]) {
                assert((ge == gs + 1 && p == gs) || (ge == gs + 2 && data@[gs as int] == 0x0D && data@[gs + 1] == 0x0A));
            }
        }
    }
    let cluster = slice_subrange(data, gs, ge);
    match text_width(cluster) {
        Some(0) => {
            proof {
                assert forall|p: int| gs <= p < ge implies !#[trigger] invalid_byte(data@, p) by {}
            }
            Some((Span::Unprintable(text_of(cluster)), ge))
        },
        _ => None,
    }
}

proof fn lemma_no_start_between(starts: Seq<usize>, j: int, x: int)
    requires
        0 <= j < starts.len(),
        forall|a: int, b: int| 0 <= a < b < starts.len() ==> starts[a] < starts[b],
        starts.contains(x as usize),
        starts[j] <= x,
        0 <= x <= usize::MAX,
    ensures
        x == starts[j] || (j + 1 < starts.len() && starts[j + 1] <= x),
{
    let m = choose|m: int| 0 <= m < starts.len() && starts[m] == x as usize;
    assert(starts[m] as int == x);
    if m < j {
        assert(starts[m] < starts[j]);
    } else if m > j + 1 {
        assert(starts[j + 1] < starts[m]);
    }
}

proof fn lemma_cluster_ok(data: Seq<u8>, start: int, end: int, starts: Seq<usize>, j: int)
    requires
        0 <= start < end <= data.len(),
        end - start <= usize::MAX,
        starts.len() > 0,
        starts[0] == 0,
        forall|a: int, b: int| 0 <= a < b < starts.len() ==> starts[a] < starts[b],
        forall|a: int| 0 <= a < starts.len() ==> starts[a] < end - start,
        0 <= j < starts.len(),
        forall|i: int| 0 <= i < end - start && #[trigger] is_control(data[start + i]) ==> {
            &&& (starts.contains(i as usize) || (data[start + i] == 0x0A && i > 0 && data[start + i - 1] == 0x0D))
            &&& (i + 1 == end - start || starts.contains((i + 1) as usize)
                || (data[start + i] == 0x0D && i + 1 < end - start && data[start + i + 1] == 0x0A))
        },
    ensures
        cluster_ok(data, start + starts[j], if j + 1 < starts.len() { start + starts[j + 1] } else { end }),
{
    let gs = start + starts[j];
    let ge = if j + 1 < starts.len() { start + starts[j + 1] } else { end };
    if j + 1 < starts.len() {
        assert(starts[j] < starts[j + 1]);
    }
    assert forall|ip: int| gs <= ip < ge && #[trigger] is_control(data[ip])
        implies (ge == gs + 1 && ip == gs) || (ge == gs + 2 && data[gs] == 0x0D && data[gs + 1] == 0x0A) by {
        let i = ip - start;
        assert(data[start + i] == data[ip]);
        // The first control byte of the cluster is at its start.
        let c = if starts.contains(i as usize) { i } else { i - 1 };
        if !starts.contains(i as usize) {
            assert(data[start + (i - 1)] == 0x0D);
            assert(is_control(data[start + (i - 1)]));
            if i == starts[j] {
                assert(starts.contains(starts[j]));
            }
            assert(starts.contains(c as usize) || data[start + c] == 0x0A);
            lemma_no_start_between(starts, j, c);
        } else {
            lemma_no_start_between(starts, j, i);
        }
        assert(c == starts[j]);
        assert(is_control(data[start + c]));
        // What may follow it in the cluster.
        if c + 1 < end - start && starts.contains((c + 1) as usize) {
            lemma_no_start_between(starts, j, c + 1);
        }
        if data[gs] == 0x0D && c + 1 < end - start && data[gs + 1] == 0x0A {
            assert(is_control(data[start + (c + 1)]));
            if c + 2 < end - start && starts.contains((c + 2) as usize) {
                lemma_no_start_between(starts, j, c + 2);
            }
            if c + 1 < end - start && starts.contains((c + 1) as usize) {
                lemma_no_start_between(starts, j, c + 1);
            }
        }
    }
}

/// The facts about a run's grapheme clusters that parsing relies on.
pub open spec fn starts_ok(data: Seq<u8>, start: int, end: int, starts: Seq<usize>) -> bool {
    &&& starts.len() > 0
    &&& starts[0] == 0
    &&& forall|a: int, b: int| 0 <= a < b < starts.len() ==> starts[a] < starts[b]
    &&& forall|a: int| 0 <= a < starts.len() ==> starts[a] < end - start
    &&& starts == grapheme_starts_of(data.subrange(start, end))
    &&& in_run(data, start, end, end)
    &&& starts_at(data, start, end, start)
    &&& end - start <= usize::MAX
    &&& 0 <= start < end <= data.len()
}

/// The bounds of cluster `j` of a run.
pub open spec fn cluster_bounds(start: int, end: int, starts: Seq<usize>, j: int) -> (int, int) {
    (start + starts[j], if j + 1 < starts.len() { start + starts[j + 1] } else { end })
}

/// Extending text that has no cluster of zero width by a cluster of
/// nonzero width keeps it so.
proof fn lemma_extend_zero_free(data: Seq<u8>, start: int, end: int, starts: Seq<usize>, j: int, t: int)
    requires
        starts_ok(data, start, end, starts),
        0 <= j < starts.len(),
        start <= t <= cluster_bounds(start, end, starts, j).0,
        no_zero_width(data, t, cluster_bounds(start, end, starts, j).0),
        text_width_of(data.subrange(cluster_bounds(start, end, starts, j).0, cluster_bounds(start, end, starts, j).1)) != Some(0usize),
    ensures
        no_zero_width(data, t, cluster_bounds(start, end, starts, j).1),
{
    let (gs, ge) = cluster_bounds(start, end, starts, j);
    if j + 1 < starts.len() {
        assert(starts[j] < starts[j + 1]);
    }
    assert forall|q: int, e: int| t <= q < e <= ge && #[trigger] cluster(data, q, e)
        implies text_width_of(data.subrange(q, e)) != Some(0usize) by {
        assert(!invalid_byte(data, q));
        assert(run_start(data, q) == start);
        if e > gs {
            assert(starts.contains(starts[j]));
            if q < gs {
                assert(((gs - start) as usize) == starts[j]);
                assert(!starts.contains(((gs - start) as usize)));
            }
            lemma_no_start_between(starts, j, q - start);
            if e < ge {
                lemma_no_start_between(starts, j, e - start);
            }
        }
    }
}

/// The rest of a cluster after an escape sequence that ends inside it
/// holds no whole cluster.
proof fn lemma_fragment_zero_free(data: Seq<u8>, start: int, end: int, starts: Seq<usize>, j: int, covered: int)
    requires
        starts_ok(data, start, end, starts),
        0 <= j < starts.len(),
        cluster_bounds(start, end, starts, j).0 < covered,
    ensures
        no_zero_width(data, covered, cluster_bounds(start, end, starts, j).1),
{
    let (gs, ge) = cluster_bounds(start, end, starts, j);
    assert forall|q: int, e: int| covered <= q < e <= ge && #[trigger] cluster(data, q, e)
        implies text_width_of(data.subrange(q, e)) != Some(0usize) by {
        assert(!invalid_byte(data, q));
        assert(run_start(data, q) == start);
        lemma_no_start_between(starts, j, q - start);
    }
}

/// Parse the valid UTF-8 run `start..end` of the line into spans.
fn parse_run(out: &mut Vec<SourcedSpan>, data: &[u8], start: usize, end: usize, match_index: Option<usize>)
    requires
        tiles(old(out)@, data@, 0, start as int),
        tagged(old(out)@, match_index),
        separate_text(old(out)@),
        !ends_textual(old(out)@),
        start < end <= data@.len(),
        in_run(data@, start as int, end as int, end as int),
        starts_at(data@, start as int, end as int, start as int),
    ensures
        tiles(final(out)@, data@, 0, end as int),
        tagged(final(out)@, match_index),
        separate_text(final(out)@),
{
    let run = slice_subrange(data, start, end);
    let starts = grapheme_starts(run);
    proof {
        assert(run@ == data@.subrange(start as int, end as int));
    }
    if starts.len() == 0 {
        push_plain(out, data, start, end, match_index);
        return;
    }
    proof {
        assert forall|i: int| 0 <= i < end - start && #[trigger] is_control(data@[start + i]) implies {
            &&& (starts@.contains(i as usize) || (data@[start + i] == 0x0A && i > 0 && data@[start + i - 1] == 0x0D))
            &&& (i + 1 == end - start || starts@.contains((i + 1) as usize)
                || (data@[start + i] == 0x0D && i + 1 < end - start && data@[start + i + 1] == 0x0A))
        } by {
            assert(run@[i] == data@[start + i]);
            assert(is_control(run@[i]));
            if i > 0 {
                assert(run@[i - 1] == data@[start + i - 1]);
            }
            if i + 1 < end - start {
                assert(run@[i + 1] == data@[start + i + 1]);
            }
        }
        assert forall|i: int| 0 <= i < end - start - 1 && data@[start + i] == 0x0D && #[trigger] data@[start + i + 1] == 0x0A
            implies !starts@.contains((i + 1) as usize) by {
            assert(run@[i] == data@[start + i]);
            assert(run@[i + 1] == data@[start + i + 1]);
        }
    }
    let n = starts.len();
    // `covered` is the end of the spans so far; `text` is where pending
    // ordinary text starts, if any.
    let mut covered: usize = start;
    let mut text: Option<usize> = None;
    let mut j: usize = 0;
    while j < n
        invariant
            n == starts@.len(),
            starts_ok(data@, start as int, end as int, starts@),
            forall|i: int| 0 <= i < end - start && #[trigger] is_control(data@[start + i]) ==> {
                &&& (starts@.contains(i as usize) || (data@[start + i] == 0x0A && i > 0 && data@[start + i - 1] == 0x0D))
                &&& (i + 1 == end - start || starts@.contains((i + 1) as usize)
                    || (data@[start + i] == 0x0D && i + 1 < end - start && data@[start + i + 1] == 0x0A))
            },
            forall|i: int| 0 <= i < end - start - 1 && data@[start + i] == 0x0D && #[trigger] data@[start + i + 1] == 0x0A
                ==> !starts@.contains((i + 1) as usize),
            all_valid(data@, start as int, end as int),
            j <= n,
            start <= covered <= end,
            tagged(out@, match_index),
            separate_text(out@),
            !ends_textual(out@),
            ({
                let gs: int = if j < n { start + starts@[j as int] } else { end as int };
                &&& (text matches Some(t) ==> t == covered && (t as int) < gs && tiles(out@, data@, 0, t as int)
                    && no_control(data@, t as int, gs) && no_zero_width(data@, t as int, gs))
                &&& (text is None ==> covered >= gs && tiles(out@, data@, 0, covered as int))
            }),
        decreases n - j,
    {
        let gs = start + starts[j];
        let ge = if j + 1 < n { start + starts[j + 1] } else { end };
        proof {
            if j + 1 < n {
                assert(starts@[j as int] < starts@[j + 1]);
            }
            lemma_cluster_ok(data@, start as int, end as int, starts@, j as int);
            assert(cluster_bounds(start as int, end as int, starts@, j as int) == (gs as int, ge as int));
        }
        if gs < covered {
            // Inside an escape sequence already read: the rest of the
            // cluster after it, if any, is text, or the line feed of a
            // carriage return that the sequence took.
            if ge > covered {
                if ge - covered == 1 && data[covered] == 0x0A {
                    proof {
                        assert(!invalid_byte(data@, covered as int));
                    }
                    push_span(out, data, SourcedSpan { span: Span::LF, start: covered, end: ge }, match_index);
                    covered = ge;
                } else {
                    proof {
                        assert forall|p: int| covered <= p < ge implies !#[trigger] is_control(data@[p]) by {
                            if is_control(data@[p]) {
                                assert((ge == gs + 1 && p == gs) || (ge == gs + 2 && data@[gs as int] == 0x0D && data@[gs + 1] == 0x0A));
                            }
                        }
                        lemma_fragment_zero_free(data@, start as int, end as int, starts@, j as int, covered as int);
                    }
                    text = Some(covered);
                }
            }
        } else {
            proof {
                assert(in_run(data@, gs as int, end as int, end as int));
                if data@[gs as int] == 0x0D && gs + 1 < end && data@[gs + 1] == 0x0A && ge == gs + 1 {
                    let i = gs - start;
                    assert(data@[start + i] == 0x0D && data@[start + i + 1] == 0x0A);
                    assert(!starts@.contains((i + 1) as usize));
                    assert(starts@.contains(starts@[j + 1]));
                }
            }
            match cluster_span(data, gs, ge, end) {
                Some((span, span_end)) => {
                    if let Some(t) = text {
                        push_text(out, data, t, gs, match_index);
                    }
                    push_span(out, data, SourcedSpan { span, start: gs, end: span_end }, match_index);
                    covered = span_end;
                    text = None;
                },
                None => {
                    proof {
                        let t0: int = match text { Some(t) => t as int, None => gs as int };
                        lemma_extend_zero_free(data@, start as int, end as int, starts@, j as int, t0);
                    }
                    if text.is_none() {
                        text = Some(gs);
                    }
                },
            }
        }
        j = j + 1;
    }
    if let Some(t) = text {
        push_text(out, data, t, end, match_index);
    }
}

/// Push an `Invalid` span for each of the invalid bytes `from..to`.
fn push_invalid(out: &mut Vec<SourcedSpan>, data: &[u8], from: usize, to: usize, match_index: Option<usize>)
    requires
        tiles(old(out)@, data@, 0, from as int),
        tagged(old(out)@, match_index),
        separate_text(old(out)@),
        from <= to <= data@.len(),
        forall|p: int| from <= p < to ==> #[trigger] invalid_byte(data@, p),
    ensures
        tiles(final(out)@, data@, 0, to as int),
        tagged(final(out)@, match_index),
        separate_text(final(out)@),
        from < to ==> !ends_textual(final(out)@),
        from == to ==> final(out)@ == old(out)@,
{
    let mut pos = from;
    while pos < to
        invariant
            from <= pos <= to <= data@.len(),
            tiles(out@, data@, 0, pos as int),
            tagged(out@, match_index),
            separate_text(out@),
            pos > from ==> !ends_textual(out@),
            pos == from ==> out@ == old(out)@,
            forall|p: int| from <= p < to ==> #[trigger] invalid_byte(data@, p),
        decreases to - pos,
    {
        proof {
            assert(invalid_byte(data@, pos as int));
        }
        push_span(out, data, SourcedSpan { span: Span::Invalid(data[pos]), start: pos, end: pos + 1 }, match_index);
        pos = pos + 1;
    }
}

/// What one step of UTF-8 validation at `p0` tells of the bytes from `p0`
/// on: a valid run, the invalid bytes after it, and the rest.
proof fn lemma_split_step(data: Seq<u8>, p0: int, valid: int, bad: int)
    requires
        0 <= p0 < data.len(),
        valid == utf8_split_of(data.subrange(p0, data.len() as int)).0,
        bad == bad_len(data, p0),
        bad >= 0,
        valid + bad > 0,
        p0 + valid + bad <= data.len(),
        forall|p: int| p0 <= p ==> #[trigger] invalid_byte(data, p) == invalid_from(data, p0, p)
            && run_end(data, p) == run_end_from(data, p0, p)
            && run_start(data, p) == run_start_from(data, p0, p),
    ensures
        in_run(data, p0, p0 + valid, p0 + valid),
        starts_at(data, p0, p0 + valid, p0),
        forall|p: int| p0 + valid <= p < p0 + valid + bad ==> #[trigger] invalid_byte(data, p),
        forall|p: int| p0 + valid + bad <= p ==> #[trigger] invalid_byte(data, p) == invalid_from(data, p0 + valid + bad, p)
            && run_end(data, p) == run_end_from(data, p0 + valid + bad, p)
            && run_start(data, p) == run_start_from(data, p0 + valid + bad, p),
{
    assert forall|p: int| p0 <= p < p0 + valid implies !#[trigger] invalid_byte(data, p) && run_end(data, p) == p0 + valid by {
        assert(invalid_byte(data, p) == invalid_from(data, p0, p));
    }
    assert forall|p: int| p0 <= p < p0 + valid implies #[trigger] run_start(data, p) == p0 by {
        assert(invalid_byte(data, p) == invalid_from(data, p0, p));
    }
    assert forall|p: int| p0 + valid <= p < p0 + valid + bad implies #[trigger] invalid_byte(data, p) by {
        assert(invalid_byte(data, p) == invalid_from(data, p0, p));
    }
    assert forall|p: int| p0 + valid + bad <= p implies #[trigger] invalid_byte(data, p) == invalid_from(data, p0 + valid + bad, p)
        && run_end(data, p) == run_end_from(data, p0 + valid + bad, p)
        && run_start(data, p) == run_start_from(data, p0 + valid + bad, p) by {
        assert(invalid_byte(data, p) == invalid_from(data, p0, p));
        assert(run_end(data, p) == run_end_from(data, p0, p));
        assert(run_start(data, p) == run_start_from(data, p0, p));
    }
}

/// Parse the bytes of a line into spans, each with the bytes it came from.
/// The spans cover the line exactly, in order, each of the kind its bytes
/// call for, text runs whole.  Text is given as a match with the number
/// `match_index` when there is one.
#[verifier::rlimit(100)]
pub fn parse_line(data: &[u8], match_index: Option<usize>) -> (r: Vec<SourcedSpan>)
    ensures
        tiles(r@, data@, 0, data@.len() as int),
        tagged(r@, match_index),
        separate_text(r@),
{
    let mut out: Vec<SourcedSpan> = Vec::new();
    let n = data.len();
    let mut pos: usize = 0;
    while pos < n
        invariant
            pos <= n,
            n == data@.len(),
            tiles(out@, data@, 0, pos as int),
            tagged(out@, match_index),
            separate_text(out@),
            pos < n ==> !ends_textual(out@),
            forall|p: int| pos <= p ==> #[trigger] invalid_byte(data@, p) == invalid_from(data@, pos as int, p)
                && run_end(data@, p) == run_end_from(data@, pos as int, p)
                && run_start(data@, p) == run_start_from(data@, pos as int, p),
        decreases n - pos,
    {
        let rest = slice_subrange(data, pos, n);
        let (valid, error) = utf8_prefix(rest);
        let bad = match error {
            Some(k) => k,
            None => n - pos - valid,
        };
        let stop = pos + valid + bad;
        proof {
            assert(rest@ == data@.subrange(pos as int, n as int));
            lemma_split_step(data@, pos as int, valid as int, bad as int);
        }
        if valid > 0 {
            parse_run(&mut out, data, pos, pos + valid, match_index);
        }
        push_invalid(&mut out, data, pos + valid, stop, match_index);
        pos = stop;
    }
    out
}

/// Parse the bytes of a line into spans: those of `parse_line`, without
/// their places.
pub fn parse_spans(data: &[u8], match_index: Option<usize>) -> (r: Vec<Span>)
    ensures
        exists|sourced: Seq<SourcedSpan>| tiles(sourced, data@, 0, data@.len() as int)
            && tagged(sourced, match_index) && separate_text(sourced)
            && r@ == sourced.map_values(|s: SourcedSpan| s.span),
{
    let sourced = parse_line(data, match_index);
    let ghost all = sourced@;
    let mut spans: Vec<Span> = Vec::new();
    let mut rest = sourced;
    while rest.len() > 0
        invariant
            spans@.len() + rest@.len() == all.len(),
            rest@ == all.subrange(spans@.len() as int, all.len() as int),
            forall|i: int| 0 <= i < spans@.len() ==> spans@[i] == (#[trigger] all[i]).span,
        decreases rest@.len(),
    {
        let s = rest.remove(0);
        proof {
            assert(s == all[spans@.len() as int]);
        }
        spans.push(s.span);
        proof {
            assert(rest@ =~= all.subrange(spans@.len() as int, all.len() as int));
        }
    }
    proof {
        assert(spans@ =~= all.map_values(|s: SourcedSpan| s.span));
    }
    spans
}

} // verus!
