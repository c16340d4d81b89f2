//! Commands the user invokes from a prompt.
use vstd::prelude::*;
use vstd::string::*;

use crate::text::{all_digits, digits_value, ends_with, lemma_digits_value_nonneg, text_eq};

verus! {

/// Why a text is not an integer, as `str::parse` reports it.
#[derive(Clone, Copy, Debug, PartialEq, Eq, Structural)]
pub enum IntErrorKind {
    /// The text is empty.
    Empty,
    /// The text holds a character that is not a digit.
    InvalidDigit,
    /// The number is too large for the type.
    PosOverflow,
    /// The number is too small for the type.
    NegOverflow,
}

impl IntErrorKind {
    /// The message `str::parse` gives for the error.
    pub fn message(&self) -> (r: &'static str)
        ensures
            r@ == int_error_message(*self),
    {
        match self {
            IntErrorKind::Empty => "cannot parse integer from empty string",
            IntErrorKind::InvalidDigit => "invalid digit found in string",
            IntErrorKind::PosOverflow => "number too large to fit in target type",
            IntErrorKind::NegOverflow => "number too small to fit in target type",
        }
    }
}

/// The message of an integer error.
pub open spec fn int_error_message(k: IntErrorKind) -> Seq<char> {
    match k {
        IntErrorKind::Empty => "cannot parse integer from empty string"@,
        IntErrorKind::InvalidDigit => "invalid digit found in string"@,
        IntErrorKind::PosOverflow => "number too large to fit in target type"@,
        IntErrorKind::NegOverflow => "number too small to fit in target type"@,
    }
}

/// The sign of a signed decimal text and where its digits start.
pub open spec fn sign_len(s: Seq<char>) -> int {
    if s.len() > 0 && (s[0] == '+' || s[0] == '-') { 1 } else { 0 }
}

/// The value of a signed decimal text as `str::parse::<isize>` reads it.
pub open spec fn signed_value(s: Seq<char>) -> Result<int, IntErrorKind> {
    let d = s.subrange(sign_len(s), s.len() as int);
    let negative = s.len() > 0 && s[0] == '-';
    if s.len() == 0 {
        Err(IntErrorKind::Empty)
    } else if d.len() == 0 || !all_digits(d) {
        Err(IntErrorKind::InvalidDigit)
    } else {
        let v = if negative { -digits_value(d) } else { digits_value(d) };
        if v > isize::MAX {
            Err(IntErrorKind::PosOverflow)
        } else if v < isize::MIN {
            Err(IntErrorKind::NegOverflow)
        } else {
            Ok(v)
        }
    }
}

/// Read a signed decimal number, as `str::parse::<isize>` does.
pub fn parse_isize(s: &str) -> (r: Result<isize, IntErrorKind>)
    ensures
        match signed_value(s@) {
            Ok(v) => r == Ok::<isize, IntErrorKind>(v as isize),
            Err(k) => r == Err::<isize, IntErrorKind>(k),
        },
{
    let n = s.unicode_len();
    if n == 0 {
        return Err(IntErrorKind::Empty);
    }
    let first = s.get_char(0);
    let negative = first == '-';
    let start: usize = if first == '+' || first == '-' { 1 } else { 0 };
    let ghost d = s@.subrange(start as int, n as int);
    proof {
        assert(first == s@[0]);
        assert(start == sign_len(s@));
    }
    if start == n {
        return Err(IntErrorKind::InvalidDigit);
    }
    // The magnitude, counted in an unsigned type that holds both bounds.
    let mut value: u128 = 0;
    let mut big = false;
    let mut i: usize = start;
    while i < n
        invariant
            start <= i <= n,
            n == s@.len(),
            n > 0,
            start == sign_len(s@),
            negative == (s@[0] == '-'),
            d == s@.subrange(start as int, n as int),
            all_digits(s@.subrange(start as int, i as int)),
            !big ==> value == digits_value(s@.subrange(start as int, i as int)) && value <= u64::MAX,
            big ==> digits_value(s@.subrange(start as int, i as int)) > u64::MAX,
        decreases n - i,
    {
        let c = s.get_char(i);
        if c < '0' || c > '9' {
            proof {
                assert(d[i - start] == c);
                assert(!all_digits(d));
            }
            return Err(IntErrorKind::InvalidDigit);
        }
        let digit = (c as u32 - '0' as u32) as u128;
        let ghost prev = s@.subrange(start as int, i as int);
        let ghost next = s@.subrange(start as int, i + 1);
        proof {
            assert(next.drop_last() == prev);
            assert(next.last() == c);
            lemma_digits_value_nonneg(prev);
        }
        if !big {
            value = value * 10 + digit;
            if value > u64::MAX as u128 {
                big = true;
            }
        } else {
            proof {
                assert(digits_value(prev) * 10 + digit > u64::MAX) by (nonlinear_arith)
                    requires digits_value(prev) > u64::MAX, digit >= 0;
            }
        }
        i = i + 1;
    }
    proof {
        assert(s@.subrange(start as int, n as int) == d);
        assert(isize::MAX < u64::MAX);
    }
    if negative {
        if big || value > (isize::MAX as u128) + 1 {
            Err(IntErrorKind::NegOverflow)
        } else if value == (isize::MAX as u128) + 1 {
            Ok(isize::MIN)
        } else {
            Ok(-(value as isize))
        }
    } else {
        if big || value > isize::MAX as u128 {
            Err(IntErrorKind::PosOverflow)
        } else {
            Ok(value as isize)
        }
    }
}

/// What a go-to-line entry asks for.
#[derive(Clone, Copy, Debug, PartialEq, Eq, Structural)]
pub enum GotoOutcome {
    /// `q`: quit, for vi habits.
    Quit,
    /// Nothing entered: just render.
    Render,
    /// Move the view to this line (0-based).
    ScrollTo(usize),
    /// The entry is not a number.
    Invalid(IntErrorKind),
}

/// The line that a percentage of a file of `lines` lines names: negative
/// percentages count from the end, and the result is clamped to the file.
pub open spec fn percent_line(p: int, lines: int) -> int {
    let pc = if p <= -100 { 0 } else if p > 100 { 100 } else if p < 0 { 100 + p } else { p };
    if lines == 0 { 0 } else { pc * (lines - 1) / 100 }
}

/// The line that a 1-based line number of a file of `lines` lines names:
/// negative numbers count from the end, and the result is clamped to the
/// file.
pub open spec fn number_line(v: int, lines: int) -> int {
    let l = if v < -lines || v == 0 { 0 } else if v > lines { lines - 1 } else if v < 0 { lines + v - 1 } else { v - 1 };
    if l < 0 { 0 } else { l }
}

/// The outcome of an entry at the go-to-line prompt for a file of `lines`
/// lines: `q` quits, nothing renders, `N%` goes to a percentage of the
/// file, and `N` to a line number.
pub open spec fn goto_outcome(value: Seq<char>, lines: int) -> GotoOutcome {
    if value == seq!['q'] {
        GotoOutcome::Quit
    } else if value.len() == 0 {
        GotoOutcome::Render
    } else if value.last() == '%' {
        match signed_value(value.drop_last()) {
            Ok(p) => GotoOutcome::ScrollTo(percent_line(p, lines) as usize),
            Err(k) => GotoOutcome::Invalid(k),
        }
    } else {
        match signed_value(value) {
            Ok(v) => GotoOutcome::ScrollTo(number_line(v, lines) as usize),
            Err(k) => GotoOutcome::Invalid(k),
        }
    }
}

/// Work out where an entry at the go-to-line prompt goes, in a file of
/// `lines` lines.
pub fn goto(value: &str, lines: usize) -> (r: GotoOutcome)
    requires
        lines <= isize::MAX,
    ensures
        r == goto_outcome(value@, lines as int),
{
    proof {
        reveal_strlit("q");
        reveal_strlit("%");
        assert("q"@ =~= seq!['q']);
        assert("%"@ =~= seq!['%']);
    }
    if text_eq(value, "q") {
        return GotoOutcome::Quit;
    }
    let n = value.unicode_len();
    if n == 0 {
        return GotoOutcome::Render;
    }
    let lines_i = lines as i128;
    let percent = ends_with(value, "%");
    proof {
        if percent {
            assert(value@.subrange(n - 1, n as int)[0] == value@.last());
        } else {
            if value@.last() == '%' {
                assert(value@.subrange(n - 1, n as int) =~= seq!['%']);
            }
        }
    }
    if percent {
        let number = value.substring_char(0, n - 1);
        proof {
            assert(number@ == value@.drop_last());
        }
        match parse_isize(number) {
            Ok(p) => {
                let p = p as i128;
                let pc: i128 = if p <= -100 { 0 } else if p > 100 { 100 } else if p < 0 { 100 + p } else { p };
                proof {
                    if lines > 0 {
                        assert(0 <= pc * (lines_i - 1) <= 100 * (isize::MAX as int)) by (nonlinear_arith)
                            requires 0 <= pc <= 100, 1 <= lines_i <= isize::MAX;
                        assert(0 <= pc * (lines_i - 1) / 100 <= lines_i) by (nonlinear_arith)
                            requires 0 <= pc <= 100, lines_i >= 1;
                    }
                }
                let line: i128 = if lines == 0 { 0 } else { pc * (lines_i - 1) / 100 };
                GotoOutcome::ScrollTo(line as usize)
            },
            Err(k) => GotoOutcome::Invalid(k),
        }
    } else {
        match parse_isize(value) {
            Ok(v) => {
                let v = v as i128;
                let l: i128 = if v < -lines_i || v == 0 { 0 } else if v > lines_i { lines_i - 1 } else if v < 0 { lines_i + v - 1 } else { v - 1 };
                let l = if l < 0 { 0 } else { l };
                GotoOutcome::ScrollTo(l as usize)
            },
            Err(k) => GotoOutcome::Invalid(k),
        }
    }
}

} // verus!
