//! DEC line drawing mode.
//!
//! VT100 and VT220 terminals have an alternate character set with line
//! drawing characters, switched to and from by escape sequences.  The
//! characters written while it is active are shown here as the equivalent
//! Unicode characters.
use vstd::prelude::*;
use vstd::string::*;

use crate::text::push_char;

verus! {

/// The Unicode character shown for `c` in line drawing mode: the
/// characters from `_` to `~` become graphics, the others stay.
pub open spec fn dec_graphic(c: char) -> char {
    match c {
        '_' => '\u{A0}',
        '`' => '◆',
        'a' => '▒',
        'b' => '␉',
        'c' => '␌',
        'd' => '␍',
        'e' => '␊',
        'f' => '°',
        'g' => '±',
        'h' => '␤',
        'i' => '␋',
        'j' => '┘',
        'k' => '┐',
        'l' => '┌',
        'm' => '└',
        'n' => '┼',
        'o' => '⎺',
        'p' => '⎻',
        'q' => '─',
        'r' => '⎼',
        's' => '⎽',
        't' => '├',
        'u' => '┤',
        'v' => '┴',
        'w' => '┬',
        'x' => '│',
        'y' => '≤',
        'z' => '≥',
        '{' => 'π',
        '|' => '≠',
        '}' => '£',
        '~' => '·',
        _ => c,
    }
}

/// The character shown for `c` in line drawing mode.
pub fn line_drawing_char(c: char) -> (r: char)
    ensures
        r == dec_graphic(c),
{
    match c {
        '_' => '\u{A0}',
        '`' => '◆',
        'a' => '▒',
        'b' => '␉',
        'c' => '␌',
        'd' => '␍',
        'e' => '␊',
        'f' => '°',
        'g' => '±',
        'h' => '␤',
        'i' => '␋',
        'j' => '┘',
        'k' => '┐',
        'l' => '┌',
        'm' => '└',
        'n' => '┼',
        'o' => '⎺',
        'p' => '⎻',
        'q' => '─',
        'r' => '⎼',
        's' => '⎽',
        't' => '├',
        'u' => '┤',
        'v' => '┴',
        'w' => '┬',
        'x' => '│',
        'y' => '≤',
        'z' => '≥',
        '{' => 'π',
        '|' => '≠',
        '}' => '£',
        '~' => '·',
        _ => c,
    }
}

/// Show text written in line drawing mode: each character as
/// `dec_graphic` gives it.
pub fn convert_line_drawing(input: &str) -> (r: String)
    ensures
        r@ == input@.map_values(|c: char| dec_graphic(c)),
{
    let mut out = String::new();
    let n = input.unicode_len();
    let mut i: usize = 0;
    while i < n
        invariant
            i <= n,
            n == input@.len(),
            out@ == input@.subrange(0, i as int).map_values(|c: char| dec_graphic(c)),
        decreases n - i,
    {
        let c = input.get_char(i);
        push_char(&mut out, line_drawing_char(c));
        proof {
            assert(input@.subrange(0, i + 1) == input@.subrange(0, i as int).push(c));
            assert(out@ =~= input@.subrange(0, i + 1).map_values(|c: char| dec_graphic(c)));
        }
        i = i + 1;
    }
    proof {
        assert(input@.subrange(0, n as int) == input@);
    }
    out
}

} // verus!
