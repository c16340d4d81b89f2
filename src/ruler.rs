//! The text of the ruler: where the view is in the file, and whether the
//! file is still loading.
use vstd::prelude::*;
use vstd::string::*;

use crate::text::push_char;

verus! {

/// The decimal digits of a number.
pub open spec fn decimal(n: nat) -> Seq<char>
    decreases n,
{
    if n < 10 {
        seq![digit_char(n)]
    } else {
        decimal(n / 10).push(digit_char(n % 10))
    }
}

/// The character of a decimal digit.
pub open spec fn digit_char(d: nat) -> char {
    ((d + 48) as u8) as char
}

/// Write a number in decimal.
pub fn decimal_string(n: usize) -> (r: String)
    ensures
        r@ == decimal(n as nat),
    decreases n,
{
    if n < 10 {
        let mut s = String::new();
        push_char(&mut s, ((n as u8) + 48) as char);
        proof {
            assert(s@ =~= seq![digit_char(n as nat)]);
        }
        s
    } else {
        let mut s = decimal_string(n / 10);
        push_char(&mut s, (((n % 10) as u8) + 48) as char);
        s
    }
}

/// The number of decimal digits of a number.
pub fn number_width(n: usize) -> (r: usize)
    ensures
        r == decimal(n as nat).len(),
        r >= 1,
    decreases n,
{
    if n < 10 {
        1
    } else {
        let w = number_width(n / 10);
        proof {
            lemma_decimal_len_bound((n / 10) as nat);
        }
        w + 1
    }
}

proof fn lemma_decimal_len_bound(n: nat)
    ensures
        decimal(n).len() <= n + 1,
    decreases n,
{
    if n >= 10 {
        lemma_decimal_len_bound(n / 10);
    }
}

/// The column part of the ruler: `+COLUMN  ` when scrolled sideways.
pub open spec fn column_text(left: nat) -> Seq<char> {
    if left > 0 { seq!['+'] + decimal(left + 1) + seq![' ', ' '] } else { Seq::empty() }
}

/// The line part of the ruler: `line N/TOTAL` past the end, else
/// `lines N-M/TOTAL`, with `END` for `M` when no bottom line is known.
pub open spec fn place_text(top: nat, bottom: nat, file_lines: nat) -> Seq<char> {
    if top > file_lines {
        seq!['l', 'i', 'n', 'e', ' '] + decimal(top + 1) + seq!['/'] + decimal(file_lines)
    } else {
        let end = if bottom > 0 {
            decimal(if bottom < file_lines { bottom } else { file_lines })
        } else {
            seq!['E', 'N', 'D']
        };
        seq!['l', 'i', 'n', 'e', 's', ' '] + decimal(top + 1) + seq!['-'] + end + seq!['/'] + decimal(file_lines)
    }
}

/// The position text of the ruler for a view from line `top` (0-based) to
/// line `bottom` (exclusive; zero when not known) of a file of
/// `file_lines` lines, scrolled `left` columns.
pub open spec fn position_text(top: nat, left: nat, bottom: nat, file_lines: nat) -> Seq<char> {
    column_text(left) + place_text(top, bottom, file_lines)
}

fn column_part(left: usize) -> (r: String)
    requires
        left < usize::MAX,
    ensures
        r@ == column_text(left as nat),
{
    proof {
        reveal_strlit("+");
        reveal_strlit("  ");
        assert("+"@ =~= seq!['+']);
        assert("  "@ =~= seq![' ', ' ']);
    }
    let mut out = String::new();
    if left > 0 {
        out.append("+");
        out.append(decimal_string(left + 1).as_str());
        out.append("  ");
    }
    proof {
        assert(out@ =~= column_text(left as nat));
    }
    out
}

fn place_part(top: usize, bottom: usize, file_lines: usize) -> (r: String)
    requires
        top < usize::MAX,
    ensures
        r@ == place_text(top as nat, bottom as nat, file_lines as nat),
{
    proof {
        reveal_strlit("line ");
        reveal_strlit("lines ");
        reveal_strlit("/");
        reveal_strlit("-");
        reveal_strlit("END");
        assert("line "@ =~= seq!['l', 'i', 'n', 'e', ' ']);
        assert("lines "@ =~= seq!['l', 'i', 'n', 'e', 's', ' ']);
        assert("/"@ =~= seq!['/']);
        assert("-"@ =~= seq!['-']);
        assert("END"@ =~= seq!['E', 'N', 'D']);
    }
    let mut out = String::new();
    if top > file_lines {
        out.append("line ");
        out.append(decimal_string(top + 1).as_str());
        out.append("/");
        out.append(decimal_string(file_lines).as_str());
    } else {
        out.append("lines ");
        out.append(decimal_string(top + 1).as_str());
        out.append("-");
        if bottom > 0 {
            let shown = if bottom < file_lines { bottom } else { file_lines };
            out.append(decimal_string(shown).as_str());
        } else {
            out.append("END");
        }
        out.append("/");
        out.append(decimal_string(file_lines).as_str());
    }
    out
}

/// Write the position text of the ruler.
pub fn position(top: usize, left: usize, bottom: usize, file_lines: usize) -> (r: String)
    requires
        top < usize::MAX,
        left < usize::MAX,
    ensures
        r@ == position_text(top as nat, left as nat, bottom as nat, file_lines as nat),
{
    let mut out = column_part(left);
    out.append(place_part(top, bottom, file_lines).as_str());
    out
}

/// The frames of the loading animation.
pub open spec fn loading_frame(i: int) -> Seq<char> {
    if i == 0 {
        "[loading •     ]"@
    } else if i == 1 {
        "[loading  •    ]"@
    } else if i == 2 {
        "[loading   •   ]"@
    } else if i == 3 {
        "[loading    •  ]"@
    } else {
        "[loading     • ]"@
    }
}

/// The loading indicator: nothing once loaded, a note while the loader
/// waits for the view (unless the view follows the end), else the frame
/// of the animation for the milliseconds into the current second.
pub fn loading_indicator(loaded: bool, paused: bool, following_end: bool, millis: u32) -> (r: Option<&'static str>)
    requires
        millis < 1000,
    ensures
        loaded ==> r is None,
        !loaded && paused && !following_end ==> r is Some && r->0@ == "[loading paused]"@,
        !loaded && !(paused && !following_end) ==> r is Some && r->0@ == loading_frame((millis / 200) as int),
{
    if loaded {
        None
    } else if paused && !following_end {
        Some("[loading paused]")
    } else {
        let frame = millis / 200;
        Some(if frame == 0 {
            "[loading •     ]"
        } else if frame == 1 {
            "[loading  •    ]"
        } else if frame == 2 {
            "[loading   •   ]"
        } else if frame == 3 {
            "[loading    •  ]"
        } else {
            "[loading     • ]"
        })
    }
}

} // verus!
