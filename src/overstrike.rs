//! Folding overstrike sequences into graphic renditions.
//!
//! Old manual page formatters show bold text as a character, a backspace
//! and the same character again, and underlined text as an underscore, a
//! backspace and the character.  These are folded into the character with
//! escape sequences that set and clear bold or underline around it.
use vstd::prelude::*;

use crate::line::{parse_line, separate_text, tagged, tiles, SourcedSpan, Span};

verus! {

/// The backspace byte.
pub const BACKSPACE: u8 = 0x08;

/// A character shown bold: `ESC [ 1 m`, the character, `ESC [ 22 m`.
pub open spec fn bold(c: u8) -> Seq<u8> {
    seq![0x1Bu8, 0x5B, 0x31, 0x6D, c, 0x1B, 0x5B, 0x32, 0x32, 0x6D]
}

/// A character shown underlined: `ESC [ 4 m`, the character, `ESC [ 24 m`.
pub open spec fn underlined(c: u8) -> Seq<u8> {
    seq![0x1Bu8, 0x5B, 0x34, 0x6D, c, 0x1B, 0x5B, 0x32, 0x34, 0x6D]
}

/// The bytes with their overstrike sequences folded, scanning from the
/// start: `X BS X` becomes bold `X`, `_ BS X` underlined `X`.
pub open spec fn folded(s: Seq<u8>) -> Seq<u8>
    decreases s.len(),
{
    if s.len() >= 3 && s[1] == BACKSPACE && s[0] == s[2] {
        bold(s[0]) + folded(s.subrange(3, s.len() as int))
    } else if s.len() >= 3 && s[1] == BACKSPACE && s[0] == 0x5F {
        underlined(s[2]) + folded(s.subrange(3, s.len() as int))
    } else if s.len() == 0 {
        s
    } else {
        seq![s[0]] + folded(s.subrange(1, s.len() as int))
    }
}

/// Fold the overstrike sequences of a line.
pub fn convert_overstrike(data: &[u8]) -> (r: Vec<u8>)
    ensures
        r@ == folded(data@),
{
    let n = data.len();
    let mut out: Vec<u8> = Vec::new();
    let mut i: usize = 0;
    proof {
        assert(data@.subrange(0, n as int) == data@);
        assert(out@ + folded(data@) =~= folded(data@));
    }
    while i < n
        invariant
            i <= n,
            n == data@.len(),
            out@ + folded(data@.subrange(i as int, n as int)) == folded(data@),
        decreases n - i,
    {
        let ghost rest = data@.subrange(i as int, n as int);
        let ghost o = out@;
        if n - i >= 3 && data[i + 1] == BACKSPACE && (data[i] == data[i + 2] || data[i] == 0x5F) {
            let c = data[i + 2];
            let set: u8 = if data[i] == data[i + 2] { 0x31 } else { 0x34 };
            let clear: u8 = if data[i] == data[i + 2] { 0x32 } else { 0x34 };
            out.push(0x1B);
            out.push(0x5B);
            out.push(set);
            out.push(0x6D);
            out.push(c);
            out.push(0x1B);
            out.push(0x5B);
            out.push(0x32);
            out.push(clear);
            out.push(0x6D);
            proof {
                assert(rest[0] == data@[i as int] && rest[1] == data@[i + 1] && rest[2] == data@[i + 2]);
                assert(rest.subrange(3, rest.len() as int) =~= data@.subrange(i + 3, n as int));
                if data@[i as int] == data@[i + 2] {
                    assert(out@ =~= o + bold(c));
                } else {
                    assert(out@ =~= o + underlined(c));
                }
                assert(out@ + folded(data@.subrange(i + 3, n as int)) =~= o + folded(rest));
            }
            i = i + 3;
        } else {
            out.push(data[i]);
            proof {
                assert(rest[0] == data@[i as int]);
                if rest.len() >= 3 {
                    assert(rest[1] == data@[i + 1] && rest[2] == data@[i + 2]);
                }
                assert(rest.subrange(1, rest.len() as int) =~= data@.subrange(i + 1, n as int));
                assert(out@ + folded(data@.subrange(i + 1, n as int)) =~= o + folded(rest));
            }
            i = i + 1;
        }
    }
    proof {
        assert(data@.subrange(n as int, n as int) =~= Seq::<u8>::empty());
        assert(out@ + Seq::<u8>::empty() =~= out@);
    }
    out
}

/// The spans of a line as it is shown: its overstrike sequences folded,
/// then parsed as `parse_line` does.
pub fn line_spans(data: &[u8]) -> (r: Vec<Span>)
    ensures
        exists|sourced: Seq<SourcedSpan>| tiles(sourced, folded(data@), 0, folded(data@).len() as int)
            && tagged(sourced, None) && separate_text(sourced)
            && r@ == sourced.map_values(|s: SourcedSpan| s.span),
{
    let bytes = convert_overstrike(data);
    crate::line::parse_spans(bytes.as_slice(), None)
}

} // verus!
