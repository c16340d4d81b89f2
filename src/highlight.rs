//! Parsing a line with the matches of a search marked.
//!
//! The search looks at a line without its terminator and without escape
//! sequences.  The places of its matches are mapped back to places in
//! the line, skipping over the escapes, and the line is parsed piece by
//! piece: the text of each match becomes match spans with the number of
//! the match.
use vstd::prelude::*;
use vstd::slice::slice_subrange;

use crate::line::{faithful, lossy_text, no_control, parse_line, tag_ok, tagged, text_width_of, tiles, SourcedSpan, Span};
use crate::search::{escape_here, find_matches, match_ranges, search_text, Pattern, ESCAPE};

verus! {

/// The escape sequences of `data` before `end`, as ranges, found scanning
/// from `from` on.
pub open spec fn escape_ranges(data: Seq<u8>, from: int, end: int) -> Seq<(usize, usize)>
    decreases end - from,
{
    if from >= end || from < 0 || end > data.len() {
        Seq::empty()
    } else {
        match escape_here(data.subrange(from, end)) {
            Some(l) => if l >= 1 {
                seq![(from as usize, (from + l) as usize)] + escape_ranges(data, from + l, end)
            } else {
                Seq::empty()
            },
            None => escape_ranges(data, from + 1, end),
        }
    }
}

/// The escape sequences of the bytes `0..end`.
fn find_escapes(data: &[u8], end: usize) -> (r: Vec<(usize, usize)>)
    requires
        end <= data@.len(),
    ensures
        r@ == escape_ranges(data@, 0, end as int),
{
    let mut out: Vec<(usize, usize)> = Vec::new();
    let mut i: usize = 0;
    proof {
        assert(out@ + escape_ranges(data@, 0, end as int) =~= escape_ranges(data@, 0, end as int));
    }
    while i < end
        invariant
            i <= end <= data@.len(),
            out@ + escape_ranges(data@, i as int, end as int) == escape_ranges(data@, 0, end as int),
        decreases end - i,
    {
        let ghost rest = escape_ranges(data@, i as int, end as int);
        let u = slice_subrange(data, i, end);
        let mut skip: usize = 0;
        if data[i] == ESCAPE {
            if let Some((_, len)) = crate::line::parse_escape(u) {
                skip = len;
            }
        }
        if skip > 0 {
            proof {
                assert(escape_here(u@) == Some(skip as int));
                assert(rest == seq![(i, (i + skip) as usize)] + escape_ranges(data@, i + skip, end as int));
            }
            let ghost o = out@;
            out.push((i, i + skip));
            proof {
                assert(o.push((i, (i + skip) as usize)) + escape_ranges(data@, i + skip, end as int)
                    =~= o + (seq![(i, (i + skip) as usize)] + escape_ranges(data@, i + skip, end as int)));
            }
            i = i + skip;
        } else {
            proof {
                assert(escape_here(u@) is None);
                assert(rest == escape_ranges(data@, i + 1, end as int));
            }
            i = i + 1;
        }
    }
    proof {
        assert(escape_ranges(data@, i as int, end as int) == Seq::<(usize, usize)>::empty());
        assert(out@ + Seq::<(usize, usize)>::empty() =~= out@);
    }
    out
}

/// Map an offset in the text without escapes back to the line: each
/// escape that starts at or before the place found so far pushes it past
/// the escape.  `None` where the escapes are out of order or the offset
/// does not fit.
pub open spec fn conv_from(ranges: Seq<(usize, usize)>, k: int, placed: int, remaining: int) -> Option<int>
    decreases ranges.len() - k,
{
    if placed + remaining > usize::MAX {
        None
    } else if k >= ranges.len() || k < 0 {
        Some(placed + remaining)
    } else if placed + remaining < ranges[k].0 {
        Some(placed + remaining)
    } else if ranges[k].0 < placed || ranges[k].0 - placed > remaining {
        None
    } else {
        conv_from(ranges, k + 1, ranges[k].1 as int, remaining - (ranges[k].0 - placed))
    }
}

/// The place in the line of an offset in the text without escapes.
pub open spec fn line_offset(ranges: Seq<(usize, usize)>, offset: int) -> Option<int> {
    conv_from(ranges, 0, 0, offset)
}

/// Map an offset in the text without escapes back to the line.
fn convert_offset(ranges: &Vec<(usize, usize)>, offset: usize) -> (r: Option<usize>)
    ensures
        match r {
            Some(x) => line_offset(ranges@, offset as int) == Some(x as int),
            None => line_offset(ranges@, offset as int) is None,
        },
{
    let mut placed: usize = 0;
    let mut remaining: usize = offset;
    let mut k: usize = 0;
    while k < ranges.len()
        invariant
            k <= ranges@.len(),
            conv_from(ranges@, k as int, placed as int, remaining as int) == line_offset(ranges@, offset as int),
        decreases ranges@.len() - k,
    {
        let (escape_start, escape_end) = ranges[k];
        if placed > usize::MAX - remaining {
            return None;
        }
        if placed + remaining < escape_start {
            return Some(placed + remaining);
        }
        if escape_start < placed || escape_start - placed > remaining {
            return None;
        }
        remaining = remaining - (escape_start - placed);
        placed = escape_end;
        k = k + 1;
    }
    if placed > usize::MAX - remaining {
        return None;
    }
    Some(placed + remaining)
}

/// The length of a line without its terminator: a final `\r\n` or `\n`.
pub open spec fn content_length(data: Seq<u8>) -> int {
    let n = data.len() as int;
    if n >= 2 && data[n - 2] == 0x0D && data[n - 1] == 0x0A {
        n - 2
    } else if n >= 1 && data[n - 1] == 0x0A {
        n - 1
    } else {
        n
    }
}

fn content_len(data: &[u8]) -> (r: usize)
    ensures
        r == content_length(data@),
        r <= data@.len(),
{
    let n = data.len();
    if n >= 2 && data[n - 2] == 0x0D && data[n - 1] == 0x0A {
        n - 2
    } else if n >= 1 && data[n - 1] == 0x0A {
        n - 1
    } else {
        n
    }
}

/// The matches that mark a line, as places in the line and their numbers:
/// from match `k` on, each whose ends map back into the line in order,
/// from `start` on, is kept; the others are passed over.
pub open spec fn accepted(ms: Seq<(usize, usize)>, escapes: Seq<(usize, usize)>, len: int, k: int, start: int) -> Seq<(int, int, int)>
    decreases ms.len() - k,
{
    if k < 0 || k >= ms.len() {
        Seq::empty()
    } else {
        let a = line_offset(escapes, ms[k].0 as int);
        let b = line_offset(escapes, ms[k].1 as int);
        if a is Some && b is Some && start <= a->0 && a->0 <= b->0 && b->0 <= len {
            seq![(a->0, b->0, k)] + accepted(ms, escapes, len, k + 1, b->0)
        } else {
            accepted(ms, escapes, len, k + 1, start)
        }
    }
}

/// The spans cover the bytes `from..to` in order, each at least one byte.
pub open spec fn covers(spans: Seq<SourcedSpan>, from: int, to: int) -> bool {
    &&& spans.len() == 0 ==> from == to
    &&& spans.len() > 0 ==> spans[0].start == from && spans.last().end == to
    &&& forall|i: int| 0 <= i < spans.len() - 1 ==> (#[trigger] spans[i]).end == spans[i + 1].start
    &&& forall|i: int| 0 <= i < spans.len() ==> (#[trigger] spans[i]).start < spans[i].end
}

/// A span parsed from the piece `from..to` of a line, as `parse_line`
/// gives it for that piece, placed in the line.
#[verifier::opaque]
pub open spec fn placed(s: SourcedSpan, data: Seq<u8>, from: int, to: int) -> bool {
    &&& 0 <= from <= s.start < s.end <= to <= data.len()
    &&& faithful(SourcedSpan { span: s.span, start: (s.start - from) as usize, end: (s.end - from) as usize }, data.subrange(from, to))
}

/// What a span says of its own bytes, whatever piece it was parsed from:
/// byte spans hold their byte, text holds the text of its bytes and no
/// control byte, a zero-width span holds bytes of zero width, and an escape
/// span starts at an escape byte.
pub open spec fn local_ok(s: SourcedSpan, data: Seq<u8>) -> bool {
    &&& s.start < s.end <= data.len()
    &&& match s.span {
        Span::Invalid(b) => s.end == s.start + 1 && data[s.start as int] == b,
        Span::Control(b) => s.end == s.start + 1 && data[s.start as int] == b,
        Span::LF => s.end == s.start + 1 && data[s.start as int] == 0x0A,
        Span::TAB => s.end == s.start + 1 && data[s.start as int] == 0x09,
        Span::CRLF => s.end == s.start + 2 && data[s.start as int] == 0x0D && data[s.start + 1] == 0x0A,
        Span::Ignore(v) => v@ == data.subrange(s.start as int, s.end as int) && data[s.start as int] == 0x1B,
        Span::Text(t) => t@ == lossy_text(data.subrange(s.start as int, s.end as int)) && no_control(data, s.start as int, s.end as int),
        Span::Match(t, _) => t@ == lossy_text(data.subrange(s.start as int, s.end as int)) && no_control(data, s.start as int, s.end as int),
        Span::Unprintable(t) => t@ == lossy_text(data.subrange(s.start as int, s.end as int))
            && text_width_of(data.subrange(s.start as int, s.end as int)) == Some(0usize),
        _ => data[s.start as int] == 0x1B,
    }
}

/// Every span says what `local_ok` asks of its bytes.
#[verifier::opaque]
pub open spec fn all_local(spans: Seq<SourcedSpan>, data: Seq<u8>) -> bool {
    forall|i: int| 0 <= i < spans.len() ==> #[trigger] local_ok(spans[i], data)
}

/// Match numbers rise along the line.
#[verifier::opaque]
pub open spec fn tags_rising(spans: Seq<SourcedSpan>) -> bool {
    forall|i: int, j: int| 0 <= i < j < spans.len() && (#[trigger] spans[i]).span is Match && (#[trigger] spans[j]).span is Match
        ==> spans[i].span->Match_1 <= spans[j].span->Match_1
}

/// Every match number is below `k`.
#[verifier::opaque]
pub open spec fn tags_below(spans: Seq<SourcedSpan>, k: int) -> bool {
    forall|i: int| 0 <= i < spans.len() && (#[trigger] spans[i]).span is Match ==> spans[i].span->Match_1 < k
}

/// A span parsed from a piece says of its bytes what `local_ok` asks.
proof fn lemma_local(s: SourcedSpan, data: Seq<u8>, from: int, to: int)
    requires
        placed(s, data, from, to),
    ensures
        local_ok(s, data),
{
    reveal(placed);
    assert(0 <= from <= s.start && s.end <= to <= data.len());
    let piece = data.subrange(from, to);
    let t = SourcedSpan { span: s.span, start: (s.start - from) as usize, end: (s.end - from) as usize };
    assert(faithful(t, piece));
    assert(s.start <= usize::MAX && s.end <= usize::MAX);
    assert(0 <= s.start - from);
    assert(s.start - from <= usize::MAX);
    assert(0 <= s.end - from <= usize::MAX);
    assert(t.start as int == s.start - from && t.end as int == s.end - from);
    assert(t.start < t.end <= piece.len());
    assert(piece.subrange(t.start as int, t.end as int) =~= data.subrange(s.start as int, s.end as int));
    assert(data[s.start as int] == piece[t.start as int]);
    if s.end > s.start + 1 {
        assert(data[s.start + 1] == piece[t.start + 1]);
    }
    assert forall|p: int| s.start <= p < s.end implies data[p] == piece[p - from] by {}
}

/// The spans of a line with the matches of a search marked: they cover the
/// line; each says of its bytes what `local_ok` asks; a match span lies
/// within the match whose number it carries; text lies outside every match;
/// match numbers rise along the line.
pub open spec fn marked(spans: Seq<SourcedSpan>, data: Seq<u8>, matches: Seq<(int, int, int)>) -> bool {
    &&& covers(spans, 0, data.len() as int)
    &&& all_local(spans, data)
    &&& tags_rising(spans)
    &&& forall|i: int| 0 <= i < spans.len() && (#[trigger] spans[i]).span is Match ==> exists|m: int| 0 <= m < matches.len()
        && #[trigger] matches[m].2 == spans[i].span->Match_1 && matches[m].0 <= spans[i].start && spans[i].end <= matches[m].1
    &&& forall|i: int, m: int| 0 <= i < spans.len() && (#[trigger] spans[i]).span is Text && 0 <= m < matches.len()
        ==> #[trigger] matches[m].1 <= spans[i].start || spans[i].end <= matches[m].0
}

/// Add the spans of the bytes `from..to` of a line, shifted into place.
#[verifier::rlimit(100)]
fn add_parsed(out: &mut Vec<SourcedSpan>, data: &[u8], from: usize, to: usize, match_index: Option<usize>)
    requires
        covers(old(out)@, 0, from as int),
        from <= to <= data@.len(),
    ensures
        covers(final(out)@, 0, to as int),
        final(out)@.len() >= old(out)@.len(),
        final(out)@.subrange(0, old(out)@.len() as int) == old(out)@,
        forall|i: int| old(out)@.len() <= i < final(out)@.len() ==> #[trigger] placed(final(out)@[i], data@, from as int, to as int)
            && tag_ok(final(out)@[i].span, match_index),
{
    let n = data.len();
    let piece = slice_subrange(data, from, to);
    let spans = parse_line(piece, match_index);
    let mut rest = spans;
    let ghost all = rest@;
    let ghost before = out@;
    let mut at: usize = from;
    while rest.len() > 0
        invariant
            from <= at <= to <= data@.len(),
            n == data@.len(),
            piece@ == data@.subrange(from as int, to as int),
            covers(out@, 0, at as int),
            out@.len() >= before.len(),
            out@.subrange(0, before.len() as int) == before,
            forall|i: int| before.len() <= i < out@.len() ==> #[trigger] placed(out@[i], data@, from as int, to as int)
                && tag_ok(out@[i].span, match_index),
            rest@.len() > 0 ==> rest@[0].start + from == at,
            rest@.len() == 0 ==> at == to,
            tiles(rest@, piece@, (at - from) as int, (to - from) as int),
            tagged(rest@, match_index),
        decreases rest@.len(),
    {
        let ghost prev = rest@;
        let ghost out0 = out@;
        let s = rest.remove(0);
        proof {
            assert(rest@ =~= prev.drop_first());
            lemma_rest_tiles(prev, piece@, (at - from) as int, (to - from) as int, match_index);
        }
        let moved = SourcedSpan { span: s.span, start: s.start + from, end: s.end + from };
        proof {
            assert(SourcedSpan { span: moved.span, start: (moved.start - from) as usize, end: (moved.end - from) as usize } == s);
            reveal(placed);
            assert(placed(moved, data@, from as int, to as int));
        }
        at = moved.end;
        out.push(moved);
        proof {
            lemma_out_push(out0, moved, before, data@, from as int, to as int, match_index);
        }
    }
}

proof fn lemma_rest_tiles(prev: Seq<SourcedSpan>, piece: Seq<u8>, lo: int, hi: int, match_index: Option<usize>)
    requires
        prev.len() > 0,
        tiles(prev, piece, lo, hi),
        tagged(prev, match_index),
    ensures
        tiles(prev.drop_first(), piece, prev[0].end as int, hi),
        tagged(prev.drop_first(), match_index),
        faithful(prev[0], piece),
        tag_ok(prev[0].span, match_index),
        prev[0].start == lo,
        prev.len() > 1 ==> prev.drop_first()[0].start == prev[0].end,
{
    let rest = prev.drop_first();
    assert(faithful(prev[0], piece));
    assert(tag_ok(prev[0].span, match_index));
    if prev.len() > 1 {
        assert(prev[0].end == prev[1].start);
    }
    assert forall|i: int| 0 <= i < rest.len() - 1 implies (#[trigger] rest[i]).end == rest[i + 1].start by {
        assert(rest[i] == prev[i + 1] && rest[i + 1] == prev[i + 2]);
    }
    assert forall|i: int| 0 <= i < rest.len() implies #[trigger] faithful(rest[i], piece) by {
        assert(rest[i] == prev[i + 1]);
    }
    assert forall|i: int| 0 <= i < rest.len() implies #[trigger] tag_ok(rest[i].span, match_index) by {
        assert(rest[i] == prev[i + 1]);
    }
    if rest.len() > 0 {
        assert(rest[0] == prev[1]);
        assert(rest.last() == prev.last());
    }
}

proof fn lemma_out_push(out0: Seq<SourcedSpan>, moved: SourcedSpan, before: Seq<SourcedSpan>, data: Seq<u8>,
    from: int, to: int, match_index: Option<usize>)
    requires
        covers(out0, 0, moved.start as int),
        moved.start < moved.end,
        out0.len() >= before.len(),
        out0.subrange(0, before.len() as int) == before,
        forall|i: int| before.len() <= i < out0.len() ==> #[trigger] placed(out0[i], data, from, to)
            && tag_ok(out0[i].span, match_index),
        placed(moved, data, from, to),
        tag_ok(moved.span, match_index),
    ensures
        covers(out0.push(moved), 0, moved.end as int),
        out0.push(moved).subrange(0, before.len() as int) == before,
        forall|i: int| before.len() <= i < out0.push(moved).len() ==> #[trigger] placed(out0.push(moved)[i], data, from, to)
            && tag_ok(out0.push(moved)[i].span, match_index),
{
    let out = out0.push(moved);
    assert forall|i: int| 0 <= i < out.len() - 1 implies (#[trigger] out[i]).end == out[i + 1].start by {
        if i + 1 < out0.len() {
            assert(out[i] == out0[i] && out[i + 1] == out0[i + 1]);
        } else {
            assert(out[i] == out0.last());
        }
    }
    assert forall|i: int| 0 <= i < out.len() implies (#[trigger] out[i]).start < out[i].end by {
        if i < out0.len() {
            assert(out[i] == out0[i]);
        }
    }
    assert forall|i: int| before.len() <= i < out.len() implies #[trigger] placed(out[i], data, from, to)
        && tag_ok(out[i].span, match_index) by {
        if i < out0.len() {
            assert(out[i] == out0[i]);
        }
    }
    assert(out.subrange(0, before.len() as int) =~= before) by {
        assert(out0.subrange(0, before.len() as int) == before);
    }
    if out0.len() > 0 {
        assert(out[0] == out0[0]);
    }
}

proof fn lemma_make_added(before: Seq<SourcedSpan>, after: Seq<SourcedSpan>, data: Seq<u8>, from: int, to: int, match_index: Option<usize>)
    requires
        covers(after, 0, to),
        after.len() >= before.len(),
        after.subrange(0, before.len() as int) == before,
        forall|i: int| before.len() <= i < after.len() ==> #[trigger] placed(after[i], data, from, to)
            && tag_ok(after[i].span, match_index),
    ensures
        added(before, after, data, from, to, match_index),
{
    reveal(added);
}

/// A span placed in a piece lies within it.
proof fn lemma_placed_within(s: SourcedSpan, data: Seq<u8>, from: int, to: int)
    requires
        placed(s, data, from, to),
    ensures
        from <= s.start && s.end <= to,
{
    reveal(placed);
}

/// A match span lies within the kept match whose number it carries.
#[verifier::opaque]
pub open spec fn matches_kept(spans: Seq<SourcedSpan>, kept: Seq<(int, int, int)>) -> bool {
    forall|i: int| 0 <= i < spans.len() && (#[trigger] spans[i]).span is Match ==> exists|m: int| 0 <= m < kept.len()
        && #[trigger] kept[m].2 == spans[i].span->Match_1 && kept[m].0 <= spans[i].start && spans[i].end <= kept[m].1
}

/// Text lies outside every kept match.
#[verifier::opaque]
pub open spec fn text_outside(spans: Seq<SourcedSpan>, kept: Seq<(int, int, int)>) -> bool {
    forall|i: int, m: int| 0 <= i < spans.len() && (#[trigger] spans[i]).span is Text && 0 <= m < kept.len()
        ==> #[trigger] kept[m].1 <= spans[i].start || spans[i].end <= kept[m].0
}

/// The spans and the kept matches end by `start`.
#[verifier::opaque]
pub open spec fn all_before(spans: Seq<SourcedSpan>, kept: Seq<(int, int, int)>, start: int) -> bool {
    &&& forall|i: int| 0 <= i < spans.len() ==> (#[trigger] spans[i]).end <= start
    &&& forall|m: int| 0 <= m < kept.len() ==> (#[trigger] kept[m]).1 <= start
}

/// The spans of a marked line, up to `start`.
#[verifier::opaque]
pub open spec fn marked_upto(spans: Seq<SourcedSpan>, data: Seq<u8>, kept: Seq<(int, int, int)>, start: int) -> bool {
    &&& covers(spans, 0, start)
    &&& all_local(spans, data)
    &&& tags_rising(spans)
    &&& matches_kept(spans, kept)
    &&& text_outside(spans, kept)
    &&& all_before(spans, kept, start)
}

/// `after` is `before` with the spans of the piece `from..to` added.
#[verifier::opaque]
pub open spec fn added(before: Seq<SourcedSpan>, after: Seq<SourcedSpan>, data: Seq<u8>, from: int, to: int, match_index: Option<usize>) -> bool {
    &&& covers(after, 0, to)
    &&& after.len() >= before.len()
    &&& after.subrange(0, before.len() as int) == before
    &&& forall|i: int| before.len() <= i < after.len() ==> #[trigger] placed(after[i], data, from, to)
        && tag_ok(after[i].span, match_index)
}

proof fn lemma_prefixes(out0: Seq<SourcedSpan>, out1: Seq<SourcedSpan>, out2: Seq<SourcedSpan>)
    requires
        out1.len() >= out0.len(),
        out1.subrange(0, out0.len() as int) == out0,
        out2.len() >= out1.len(),
        out2.subrange(0, out1.len() as int) == out1,
    ensures
        forall|i: int| 0 <= i < out0.len() ==> #[trigger] out2[i] == out0[i],
        forall|i: int| out0.len() <= i < out1.len() ==> #[trigger] out2[i] == out1[i],
{
    assert forall|i: int| 0 <= i < out0.len() implies #[trigger] out2[i] == out0[i] by {
        assert(out2.subrange(0, out1.len() as int)[i] == out1[i]);
        assert(out1.subrange(0, out0.len() as int)[i] == out0[i]);
    }
    assert forall|i: int| out0.len() <= i < out1.len() implies #[trigger] out2[i] == out1[i] by {
        assert(out2.subrange(0, out1.len() as int)[i] == out1[i]);
    }
}

/// The spans before the two pieces stay as they were.
proof fn lemma_added_prefixes(out0: Seq<SourcedSpan>, out1: Seq<SourcedSpan>, out2: Seq<SourcedSpan>, data: Seq<u8>,
    start: int, a: int, b: int, k: int)
    requires
        added(out0, out1, data, start, a, None),
        added(out1, out2, data, a, b, Some(k as usize)),
    ensures
        out2.len() >= out1.len() >= out0.len(),
        forall|i: int| 0 <= i < out0.len() ==> #[trigger] out2[i] == out0[i],
        covers(out2, 0, b),
{
    reveal(added);
    lemma_prefixes(out0, out1, out2);
}

/// A span after adding one piece: as before, or from the piece.
proof fn lemma_single_piece(out0: Seq<SourcedSpan>, out1: Seq<SourcedSpan>, data: Seq<u8>, from: int, to: int,
    match_index: Option<usize>, i: int)
    requires
        added(out0, out1, data, from, to, match_index),
        0 <= i < out1.len(),
    ensures
        out1.len() >= out0.len(),
        covers(out1, 0, to),
        i < out0.len() ==> out1[i] == out0[i],
        i >= out0.len() ==> placed(out1[i], data, from, to) && tag_ok(out1[i].span, match_index)
            && from <= out1[i].start && out1[i].end <= to,
{
    reveal(added);
    if i < out0.len() {
        assert(out1.subrange(0, out0.len() as int)[i] == out0[i]);
    } else {
        assert(placed(out1[i], data, from, to));
        lemma_placed_within(out1[i], data, from, to);
    }
}

/// Which piece a span of the extended spans came from.
proof fn lemma_piece_of(out0: Seq<SourcedSpan>, out1: Seq<SourcedSpan>, out2: Seq<SourcedSpan>, data: Seq<u8>,
    start: int, a: int, b: int, k: int, i: int)
    requires
        added(out0, out1, data, start, a, None),
        added(out1, out2, data, a, b, Some(k as usize)),
        out0.len() <= i < out2.len(),
    ensures
        i < out1.len() ==> placed(out2[i], data, start, a) && tag_ok(out2[i].span, None) && start <= out2[i].start && out2[i].end <= a,
        i >= out1.len() ==> placed(out2[i], data, a, b) && tag_ok(out2[i].span, Some(k as usize)) && a <= out2[i].start && out2[i].end <= b,
{
    reveal(added);
    lemma_prefixes(out0, out1, out2);
    if i < out1.len() {
        assert(placed(out1[i], data, start, a));
        lemma_placed_within(out1[i], data, start, a);
    } else {
        assert(placed(out2[i], data, a, b));
        lemma_placed_within(out2[i], data, a, b);
    }
}

proof fn lemma_extend_local(out0: Seq<SourcedSpan>, out1: Seq<SourcedSpan>, out2: Seq<SourcedSpan>, data: Seq<u8>,
    start: int, a: int, b: int, k: int)
    requires
        all_local(out0, data),
        tags_rising(out0),
        tags_below(out0, k),
        added(out0, out1, data, start, a, None),
        added(out1, out2, data, a, b, Some(k as usize)),
        0 <= k < usize::MAX,
    ensures
        all_local(out2, data),
        tags_rising(out2),
        tags_below(out2, k + 1),
{
    reveal(all_local);
    reveal(tags_rising);
    reveal(tags_below);
    lemma_added_prefixes(out0, out1, out2, data, start, a, b, k);
    assert forall|i: int| 0 <= i < out2.len() implies #[trigger] local_ok(out2[i], data) by {
        if i < out0.len() {
            assert(out2[i] == out0[i]);
        } else {
            lemma_piece_of(out0, out1, out2, data, start, a, b, k, i);
            if i < out1.len() {
                lemma_local(out2[i], data, start, a);
            } else {
                lemma_local(out2[i], data, a, b);
            }
        }
    }
    assert forall|i: int| 0 <= i < out2.len() && (#[trigger] out2[i]).span is Match implies out2[i].span->Match_1 < k + 1 by {
        if i < out0.len() {
            assert(out2[i] == out0[i]);
        } else {
            lemma_piece_of(out0, out1, out2, data, start, a, b, k, i);
        }
    }
    assert forall|i: int, j: int| 0 <= i < j < out2.len() && (#[trigger] out2[i]).span is Match && (#[trigger] out2[j]).span is Match
        implies out2[i].span->Match_1 <= out2[j].span->Match_1 by {
        if j < out0.len() {
            assert(out2[i] == out0[i] && out2[j] == out0[j]);
        } else {
            lemma_piece_of(out0, out1, out2, data, start, a, b, k, j);
            if i < out0.len() {
                assert(out2[i] == out0[i]);
            } else {
                lemma_piece_of(out0, out1, out2, data, start, a, b, k, i);
            }
        }
    }
}

proof fn lemma_extend_match(out0: Seq<SourcedSpan>, out1: Seq<SourcedSpan>, out2: Seq<SourcedSpan>, data: Seq<u8>,
    kept: Seq<(int, int, int)>, start: int, a: int, b: int, k: int)
    requires
        matches_kept(out0, kept),
        added(out0, out1, data, start, a, None),
        added(out1, out2, data, a, b, Some(k as usize)),
        0 <= k <= usize::MAX,
    ensures
        matches_kept(out2, kept.push((a, b, k))),
{
    reveal(matches_kept);
    lemma_added_prefixes(out0, out1, out2, data, start, a, b, k);
    let kept2 = kept.push((a, b, k));
    assert forall|i: int| 0 <= i < out2.len() && (#[trigger] out2[i]).span is Match implies exists|m: int| 0 <= m < kept2.len()
        && #[trigger] kept2[m].2 == out2[i].span->Match_1 && kept2[m].0 <= out2[i].start && out2[i].end <= kept2[m].1 by {
        if i < out0.len() {
            assert(out2[i] == out0[i]);
            let m = choose|m: int| 0 <= m < kept.len()
                && #[trigger] kept[m].2 == out0[i].span->Match_1 && kept[m].0 <= out0[i].start && out0[i].end <= kept[m].1;
            assert(kept2[m] == kept[m]);
        } else {
            lemma_piece_of(out0, out1, out2, data, start, a, b, k, i);
            if i < out1.len() {
                assert(tag_ok(out2[i].span, None));
            } else {
                assert(tag_ok(out2[i].span, Some(k as usize)));
                assert(out2[i].span->Match_1 == k as usize);
                let m = kept.len() as int;
                assert(kept2[m] == (a, b, k));
                assert(0 <= m < kept2.len() && kept2[m].2 == out2[i].span->Match_1 && kept2[m].0 <= out2[i].start && out2[i].end <= kept2[m].1);
            }
        }
    }
}

proof fn lemma_extend_text(out0: Seq<SourcedSpan>, out1: Seq<SourcedSpan>, out2: Seq<SourcedSpan>, data: Seq<u8>,
    kept: Seq<(int, int, int)>, start: int, a: int, b: int, k: int)
    requires
        text_outside(out0, kept),
        all_before(out0, kept, start),
        start <= a <= b,
        added(out0, out1, data, start, a, None),
        added(out1, out2, data, a, b, Some(k as usize)),
    ensures
        text_outside(out2, kept.push((a, b, k))),
        all_before(out2, kept.push((a, b, k)), b),
{
    reveal(text_outside);
    reveal(all_before);
    lemma_added_prefixes(out0, out1, out2, data, start, a, b, k);
    let kept2 = kept.push((a, b, k));
    assert forall|i: int, m: int| 0 <= i < out2.len() && (#[trigger] out2[i]).span is Text && 0 <= m < kept2.len()
        implies #[trigger] kept2[m].1 <= out2[i].start || out2[i].end <= kept2[m].0 by {
        if m < kept.len() {
            assert(kept2[m] == kept[m]);
        }
        if i < out0.len() {
            assert(out2[i] == out0[i]);
        } else {
            lemma_piece_of(out0, out1, out2, data, start, a, b, k, i);
        }
    }
    assert forall|i: int| 0 <= i < out2.len() implies (#[trigger] out2[i]).end <= b by {
        if i < out0.len() {
            assert(out2[i] == out0[i]);
        } else {
            lemma_piece_of(out0, out1, out2, data, start, a, b, k, i);
        }
    }
    assert forall|m: int| 0 <= m < kept2.len() implies (#[trigger] kept2[m]).1 <= b by {
        if m < kept.len() {
            assert(kept2[m] == kept[m]);
        }
    }
}

/// No span yet: nothing is marked.
proof fn lemma_marked_start(data: Seq<u8>)
    ensures
        marked_upto(Seq::<SourcedSpan>::empty(), data, Seq::<(int, int, int)>::empty(), 0),
        tags_below(Seq::<SourcedSpan>::empty(), 0),
{
    reveal(marked_upto);
    reveal(matches_kept);
    reveal(text_outside);
    reveal(all_before);
    reveal(all_local);
    reveal(tags_rising);
    reveal(tags_below);
}

/// Adding the text before a match and the match itself keeps a line
/// marked.
proof fn lemma_extend_all(out0: Seq<SourcedSpan>, out1: Seq<SourcedSpan>, out2: Seq<SourcedSpan>, data: Seq<u8>,
    kept: Seq<(int, int, int)>, start: int, a: int, b: int, k: int)
    requires
        marked_upto(out0, data, kept, start),
        tags_below(out0, k),
        start <= a <= b,
        added(out0, out1, data, start, a, None),
        added(out1, out2, data, a, b, Some(k as usize)),
        0 <= k < usize::MAX,
    ensures
        marked_upto(out2, data, kept.push((a, b, k)), b),
        tags_below(out2, k + 1),
{
    reveal(marked_upto);
    lemma_extend_local(out0, out1, out2, data, start, a, b, k);
    lemma_extend_match(out0, out1, out2, data, kept, start, a, b, k);
    lemma_extend_text(out0, out1, out2, data, kept, start, a, b, k);
    lemma_added_prefixes(out0, out1, out2, data, start, a, b, k);
}

/// The spans of a marked line cover it up to `start`.
proof fn lemma_marked_covers(spans: Seq<SourcedSpan>, data: Seq<u8>, kept: Seq<(int, int, int)>, start: int)
    requires
        marked_upto(spans, data, kept, start),
    ensures
        covers(spans, 0, start),
{
    reveal(marked_upto);
}

/// Passing over a match keeps every match number below the next.
proof fn lemma_tags_next(spans: Seq<SourcedSpan>, k: int)
    requires
        tags_below(spans, k),
    ensures
        tags_below(spans, k + 1),
{
    reveal(tags_below);
}

proof fn lemma_finish_local(out0: Seq<SourcedSpan>, out1: Seq<SourcedSpan>, data: Seq<u8>, start: int)
    requires
        all_local(out0, data),
        tags_rising(out0),
        start <= data.len(),
        added(out0, out1, data, start, data.len() as int, None),
    ensures
        all_local(out1, data),
        tags_rising(out1),
{
    reveal(all_local);
    reveal(tags_rising);
    let len = data.len() as int;
    assert forall|i: int| 0 <= i < out1.len() implies #[trigger] local_ok(out1[i], data) by {
        lemma_single_piece(out0, out1, data, start, len, None, i);
        if i < out0.len() {
            assert(out1[i] == out0[i]);
        } else {
            lemma_local(out1[i], data, start, len);
        }
    }
    assert forall|i: int, j: int| 0 <= i < j < out1.len() && (#[trigger] out1[i]).span is Match && (#[trigger] out1[j]).span is Match
        implies out1[i].span->Match_1 <= out1[j].span->Match_1 by {
        lemma_single_piece(out0, out1, data, start, len, None, i);
        lemma_single_piece(out0, out1, data, start, len, None, j);
        if j < out0.len() {
            assert(out1[i] == out0[i] && out1[j] == out0[j]);
        }
    }
}

proof fn lemma_finish(out0: Seq<SourcedSpan>, out1: Seq<SourcedSpan>, data: Seq<u8>, kept: Seq<(int, int, int)>, start: int)
    requires
        marked_upto(out0, data, kept, start),
        start <= data.len(),
        added(out0, out1, data, start, data.len() as int, None),
    ensures
        marked(out1, data, kept),
{
    reveal(marked_upto);
    lemma_finish_local(out0, out1, data, start);
    reveal(matches_kept);
    reveal(text_outside);
    reveal(all_before);
    let len = data.len() as int;
    if out1.len() > 0 {
        lemma_single_piece(out0, out1, data, start, len, None, 0);
    } else {
        reveal(added);
    }
    assert forall|i: int| 0 <= i < out1.len() && (#[trigger] out1[i]).span is Match implies exists|m: int| 0 <= m < kept.len()
        && #[trigger] kept[m].2 == out1[i].span->Match_1 && kept[m].0 <= out1[i].start && out1[i].end <= kept[m].1 by {
        lemma_single_piece(out0, out1, data, start, len, None, i);
        if i < out0.len() {
            assert(out1[i] == out0[i]);
        }
    }
    assert forall|i: int, m: int| 0 <= i < out1.len() && (#[trigger] out1[i]).span is Text && 0 <= m < kept.len()
        implies #[trigger] kept[m].1 <= out1[i].start || out1[i].end <= kept[m].0 by {
        lemma_single_piece(out0, out1, data, start, len, None, i);
        if i < out0.len() {
            assert(out1[i] == out0[i]);
        }
    }
}

/// Parse a line into spans with the matches of a search pattern marked,
/// each span with the bytes it came from.  The matches are found in the
/// line without its terminator and escape sequences, and mapped back.
#[verifier::rlimit(100)]
pub fn parse_line_search(data: &[u8], pattern: &Pattern) -> (r: Vec<SourcedSpan>)
    ensures
        marked(r@, data@, accepted(
            match_ranges(pattern.spec_text(), search_text(data@)),
            escape_ranges(data@, 0, content_length(data@)),
            data@.len() as int, 0, 0)),
{
    let len = content_len(data);
    let escapes = find_escapes(data, len);
    let text = crate::search::search_bytes(data);
    let matches = find_matches(pattern, text.as_slice());
    let ghost all = accepted(matches@, escapes@, data@.len() as int, 0, 0);
    let mut out: Vec<SourcedSpan> = Vec::new();
    let mut start: usize = 0;
    let mut k: usize = 0;
    let ghost mut kept: Seq<(int, int, int)> = Seq::empty();
    let match_count = matches.len();
    proof {
        lemma_marked_start(data@);
    }
    while k < matches.len()
        invariant
            start <= data@.len(),
            k <= matches@.len(),
            all == kept + accepted(matches@, escapes@, data@.len() as int, k as int, start as int),
            marked_upto(out@, data@, kept, start as int),
            tags_below(out@, k as int),
            matches@.len() <= usize::MAX,
        decreases matches@.len() - k,
    {
        let (ms, me) = matches[k];
        let ghost rest = accepted(matches@, escapes@, data@.len() as int, k as int, start as int);
        let cs = convert_offset(&escapes, ms);
        let ce = convert_offset(&escapes, me);
        let mut took = false;
        if let (Some(match_start), Some(match_end)) = (cs, ce) {
            if start <= match_start && match_start <= match_end && match_end <= data.len() {
                took = true;
                let ghost out0 = out@;
                proof {
                    lemma_marked_covers(out@, data@, kept, start as int);
                }
                add_parsed(&mut out, data, start, match_start, None);
                let ghost out1 = out@;
                add_parsed(&mut out, data, match_start, match_end, Some(k));
                proof {
                    lemma_make_added(out0, out1, data@, start as int, match_start as int, None);
                    lemma_make_added(out1, out@, data@, match_start as int, match_end as int, Some(k));
                    let entry = (match_start as int, match_end as int, k as int);
                    assert(rest == seq![entry] + accepted(matches@, escapes@, data@.len() as int, k + 1, match_end as int));
                    lemma_extend_all(out0, out1, out@, data@, kept, start as int, match_start as int, match_end as int, k as int);
                    assert(all == kept.push(entry) + accepted(matches@, escapes@, data@.len() as int, k + 1, match_end as int));
                    kept = kept.push(entry);
                }
                start = match_end;
            }
        }
        proof {
            if !took {
                assert(rest == accepted(matches@, escapes@, data@.len() as int, k + 1, start as int));
                lemma_tags_next(out@, k as int);
            }
        }
        k = k + 1;
    }
    let ghost out0 = out@;
    proof {
        lemma_marked_covers(out@, data@, kept, start as int);
    }
    add_parsed(&mut out, data, start, data.len(), None);
    proof {
        lemma_make_added(out0, out@, data@, start as int, data@.len() as int, None);
        assert(accepted(matches@, escapes@, data@.len() as int, k as int, start as int) == Seq::<(int, int, int)>::empty());
        assert(all =~= kept);
        lemma_finish(out0, out@, data@, kept, start as int);
    }
    out
}

/// Parse a line into spans with the matches of a search pattern marked.
pub fn parse_spans_search(data: &[u8], pattern: &Pattern) -> (r: Vec<Span>)
    ensures
        exists|sourced: Seq<SourcedSpan>| marked(sourced, data@, accepted(
            match_ranges(pattern.spec_text(), search_text(data@)),
            escape_ranges(data@, 0, content_length(data@)),
            data@.len() as int, 0, 0))
            && r@ == sourced.map_values(|s: SourcedSpan| s.span),
{
    let sourced = parse_line_search(data, pattern);
    let ghost all = sourced@;
    let mut spans: Vec<Span> = Vec::new();
    let mut rest = sourced;
    while rest.len() > 0
        invariant
            spans@.len() + rest@.len() == all.len(),
            rest@ == all.subrange(spans@.len() as int, all.len() as int),
            forall|i: int| 0 <= i < spans@.len() ==> spans@[i] == (#[trigger] all[i]).span,
        decreases rest@.len(),
    {
        let s = rest.remove(0);
        proof {
            assert(s == all[spans@.len() as int]);
        }
        spans.push(s.span);
        proof {
            assert(rest@ =~= all.subrange(spans@.len() as int, all.len() as int));
        }
    }
    proof {
        assert(spans@ =~= all.map_values(|s: SourcedSpan| s.span));
    }
    spans
}

} // verus!
