//! Configuration of the pager's behaviour.
use vstd::prelude::*;

use crate::index::DEFAULT_NEEDED_LINES;
use crate::text::{
    decimal_value, has_prefix, has_suffix, parse_u64, parse_usize, text_eq, to_ascii_lowercase, ascii_lower,
    starts_with, ends_with,
};

verus! {

/// A waiting time, as whole seconds and the milliseconds beyond them.
#[derive(Clone, Copy, Debug, PartialEq, Eq, Structural)]
pub struct Delay {
    /// Whole seconds.
    pub secs: u64,
    /// Milliseconds beyond the whole seconds, below 1000.
    pub millis: u32,
}

/// Which interface to use.
#[derive(Clone, Copy, Debug, PartialEq, Eq, Structural)]
pub enum InterfaceMode {
    /// The full screen interface, on the alternate screen.  The default.
    FullScreen,
    /// Output goes to the terminal directly, with no full screen at all.
    Direct,
    /// `Direct` first; full screen once the content exceeds one screen.
    Hybrid,
    /// Buffer the output for the given time: if it completes within one
    /// screen, print it and exit, else enter full screen.
    Delayed(Delay),
}

/// Seconds to wait when a delay is given without a readable number.
pub const UNBOUNDED_DELAY_SECS: u64 = 1073741824;

/// The name of a character sequence, written as a sequence.
pub open spec fn chars_full() -> Seq<char> { seq!['f', 'u', 'l', 'l'] }

/// `fullscreen` as a sequence.
pub open spec fn chars_fullscreen() -> Seq<char> { seq!['f', 'u', 'l', 'l', 's', 'c', 'r', 'e', 'e', 'n'] }

/// `direct` as a sequence.
pub open spec fn chars_direct() -> Seq<char> { seq!['d', 'i', 'r', 'e', 'c', 't'] }

/// `cat` as a sequence.
pub open spec fn chars_cat() -> Seq<char> { seq!['c', 'a', 't'] }

/// `hybrid` as a sequence.
pub open spec fn chars_hybrid() -> Seq<char> { seq!['h', 'y', 'b', 'r', 'i', 'd'] }

/// `delayed` as a sequence.
pub open spec fn chars_delayed() -> Seq<char> { seq!['d', 'e', 'l', 'a', 'y', 'e', 'd'] }

/// The part of `s` after its last colon, or all of it when it has none.
pub open spec fn last_field(s: Seq<char>) -> Seq<char>
    decreases s.len(),
{
    if s.len() == 0 {
        s
    } else if s.last() == ':' {
        Seq::empty()
    } else {
        last_field(s.drop_last()).push(s.last())
    }
}

/// `s` with every trailing copy of `pattern` removed.
pub open spec fn trim_end_all(s: Seq<char>, pattern: Seq<char>) -> Seq<char>
    decreases s.len(),
{
    if pattern.len() > 0 && has_suffix(s, pattern) {
        trim_end_all(s.subrange(0, s.len() - pattern.len()), pattern)
    } else {
        s
    }
}

/// The delay that a duration text gives: `Nms` in milliseconds, else `N`
/// or `Ns` in seconds.  An unreadable count of milliseconds is zero; an
/// unreadable count of seconds waits without bound.
pub open spec fn delay_of(t: Seq<char>) -> Delay {
    if has_suffix(t, seq!['m', 's']) {
        let ms: int = match decimal_value(trim_end_all(t, seq!['m', 's'])) {
            Some(v) => if v <= u64::MAX { v } else { 0 },
            None => 0,
        };
        Delay { secs: (ms / 1000) as u64, millis: (ms % 1000) as u32 }
    } else {
        let s: int = match decimal_value(trim_end_all(t, seq!['s'])) {
            Some(v) => if v <= u64::MAX { v } else { UNBOUNDED_DELAY_SECS as int },
            None => UNBOUNDED_DELAY_SECS as int,
        };
        Delay { secs: s as u64, millis: 0 }
    }
}

/// The interface mode named by a lower case text.
pub open spec fn mode_named(lower: Seq<char>) -> InterfaceMode {
    if lower == chars_full() || lower == chars_fullscreen() || lower.len() == 0 {
        InterfaceMode::FullScreen
    } else if lower == chars_direct() || lower == chars_cat() {
        InterfaceMode::Direct
    } else if lower == chars_hybrid() {
        InterfaceMode::Hybrid
    } else if has_prefix(lower, chars_delayed()) {
        InterfaceMode::Delayed(delay_of(last_field(lower)))
    } else {
        InterfaceMode::FullScreen
    }
}

/// The full Unicode lower case of a text.
pub uninterp spec fn lower_of(s: Seq<char>) -> Seq<char>;

/// Relies on `str::to_lowercase`: the lower case of a text depends on the
/// text alone.
#[verifier::external_body]
fn lowercase(s: &str) -> (r: String)
    ensures
        r@ == lower_of(s@),
{
    s.to_lowercase()
}

/// The part of `s` after its last colon, or all of it when it has none.
fn last_colon_field(s: &str) -> (r: String)
    ensures
        r@ == last_field(s@),
{
    let n = s.unicode_len();
    let mut start: usize = 0;
    let mut i: usize = 0;
    while i < n
        invariant
            i <= n,
            n == s@.len(),
            start <= i,
            last_field(s@.subrange(0, i as int)) == s@.subrange(start as int, i as int),
        decreases n - i,
    {
        let c = s.get_char(i);
        proof {
            assert(s@.subrange(0, i + 1).drop_last() == s@.subrange(0, i as int));
            assert(s@.subrange(0, i + 1).last() == c);
        }
        if c == ':' {
            start = i + 1;
        } else {
            proof {
                assert(s@.subrange(start as int, i + 1) == s@.subrange(start as int, i as int).push(c));
            }
        }
        i = i + 1;
    }
    proof {
        assert(s@.subrange(0, n as int) == s@);
    }
    copy_range(s, start, n)
}

/// The characters `from..to` of `s`.
fn copy_range(s: &str, from: usize, to: usize) -> (r: String)
    requires
        from <= to <= s@.len(),
    ensures
        r@ == s@.subrange(from as int, to as int),
{
    let mut out = String::new();
    let mut i: usize = from;
    while i < to
        invariant
            from <= i <= to,
            to <= s@.len(),
            out@ == s@.subrange(from as int, i as int),
        decreases to - i,
    {
        let c = s.get_char(i);
        crate::text::push_char(&mut out, c);
        proof {
            assert(s@.subrange(from as int, i + 1) == s@.subrange(from as int, i as int).push(c));
        }
        i = i + 1;
    }
    out
}

/// `s` with every trailing copy of `pattern` removed.
fn trim_end_matches(s: &str, pattern: &str) -> (r: String)
    ensures
        r@ == trim_end_all(s@, pattern@),
{
    let m = pattern.unicode_len();
    let mut end = s.unicode_len();
    if m == 0 {
        return copy_range(s, 0, end);
    }
    let mut done = false;
    proof {
        assert(s@.subrange(0, end as int) == s@);
    }
    while !done
        invariant
            end <= s@.len(),
            m == pattern@.len(),
            m > 0,
            trim_end_all(s@.subrange(0, end as int), pattern@) == trim_end_all(s@, pattern@),
            done ==> !has_suffix(s@.subrange(0, end as int), pattern@),
        decreases end, if done { 0int } else { 1int },
    {
        let head = copy_range(s, 0, end);
        if ends_with(head.as_str(), pattern) {
            proof {
                assert(s@.subrange(0, end as int).subrange(0, end - m) == s@.subrange(0, end - m));
            }
            end = end - m;
        } else {
            done = true;
        }
    }
    proof {
        assert(s@.subrange(0, s@.len() as int) == s@);
    }
    copy_range(s, 0, end)
}

/// Read a delay from a duration text.
fn parse_delay(t: &str) -> (r: Delay)
    ensures
        r == delay_of(t@),
{
    proof {
        reveal_strlit("ms");
        reveal_strlit("s");
        assert("ms"@ =~= seq!['m', 's']);
        assert("s"@ =~= seq!['s']);
    }
    if ends_with(t, "ms") {
        let digits = trim_end_matches(t, "ms");
        let ms: u64 = match parse_u64(digits.as_str()) {
            Some(v) => v,
            None => 0,
        };
        proof {
            if decimal_value(digits@) is Some {
                crate::text::lemma_decimal_nonneg(digits@);
            }
        }
        Delay { secs: ms / 1000, millis: (ms % 1000) as u32 }
    } else {
        let digits = trim_end_matches(t, "s");
        let secs: u64 = match parse_u64(digits.as_str()) {
            Some(v) => v,
            None => UNBOUNDED_DELAY_SECS,
        };
        proof {
            if decimal_value(digits@) is Some {
                crate::text::lemma_decimal_nonneg(digits@);
            }
        }
        Delay { secs, millis: 0 }
    }
}

impl InterfaceMode {
    /// The interface mode named by a text that is already in lower case:
    /// `full`, `fullscreen` or nothing, `direct` or `cat`, `hybrid`, or `delayed`
    /// with an optional `:DURATION`.  Any other text gives the default.
    pub fn from_lowercase(value: &str) -> (r: InterfaceMode)
        ensures
            r == mode_named(value@),
    {
        proof {
            reveal_strlit("full");
            reveal_strlit("fullscreen");
            reveal_strlit("direct");
            reveal_strlit("hybrid");
            reveal_strlit("delayed");
            assert("full"@ =~= chars_full());
            assert("fullscreen"@ =~= chars_fullscreen());
            assert("direct"@ =~= chars_direct());
            reveal_strlit("cat");
            assert("cat"@ =~= chars_cat());
            assert("hybrid"@ =~= chars_hybrid());
            assert("delayed"@ =~= chars_delayed());
        }
        if text_eq(value, "full") || text_eq(value, "fullscreen") || value.unicode_len() == 0 {
            InterfaceMode::FullScreen
        } else if text_eq(value, "direct") || text_eq(value, "cat") {
            InterfaceMode::Direct
        } else if text_eq(value, "hybrid") {
            InterfaceMode::Hybrid
        } else if starts_with(value, "delayed") {
            let field = last_colon_field(value);
            InterfaceMode::Delayed(parse_delay(field.as_str()))
        } else {
            InterfaceMode::FullScreen
        }
    }
}

impl<'a> From<&'a str> for InterfaceMode {
    /// The interface mode named by a text, in any case.
    fn from(value: &'a str) -> (r: InterfaceMode) {
        let lower = lowercase(value);
        InterfaceMode::from_lowercase(lower.as_str())
    }
}

impl<'a> vstd::std_specs::convert::FromSpecImpl<&'a str> for InterfaceMode {
    open spec fn obeys_from_spec() -> bool {
        true
    }

    open spec fn from_spec(v: &'a str) -> InterfaceMode {
        mode_named(lower_of(v@))
    }
}

impl Default for InterfaceMode {
    fn default() -> (r: InterfaceMode)
        ensures
            r == InterfaceMode::FullScreen,
    {
        InterfaceMode::FullScreen
    }
}

/// The truth value named by a text in lower case, if any.
pub open spec fn bool_named(lower: Seq<char>) -> Option<bool> {
    if lower == seq!['1'] || lower == seq!['y', 'e', 's'] || lower == seq!['t', 'r', 'u', 'e'] || lower == seq!['o', 'n']
        || lower == seq!['a', 'l', 'w', 'a', 'y', 's'] {
        Some(true)
    } else if lower == seq!['0'] || lower == seq!['n', 'o'] || lower == seq!['f', 'a', 'l', 's', 'e'] || lower == seq!['o', 'f', 'f']
        || lower == seq!['n', 'e', 'v', 'e', 'r'] {
        Some(false)
    } else {
        None
    }
}

/// Read a truth value in any ASCII case: `1`, `yes`, `true`, `on`,
/// `always`, or `0`, `no`, `false`, `off`, `never`.
pub fn parse_bool(value: &str) -> (r: Option<bool>)
    ensures
        r == bool_named(value@.map_values(|c: char| ascii_lower(c))),
{
    let lower = to_ascii_lowercase(value);
    let l = lower.as_str();
    proof {
        reveal_strlit("1");
        reveal_strlit("yes");
        reveal_strlit("true");
        reveal_strlit("on");
        reveal_strlit("always");
        reveal_strlit("0");
        reveal_strlit("no");
        reveal_strlit("false");
        reveal_strlit("off");
        reveal_strlit("never");
        assert("1"@ =~= seq!['1']);
        assert("yes"@ =~= seq!['y', 'e', 's']);
        assert("true"@ =~= seq!['t', 'r', 'u', 'e']);
        assert("on"@ =~= seq!['o', 'n']);
        assert("always"@ =~= seq!['a', 'l', 'w', 'a', 'y', 's']);
        assert("0"@ =~= seq!['0']);
        assert("no"@ =~= seq!['n', 'o']);
        assert("false"@ =~= seq!['f', 'a', 'l', 's', 'e']);
        assert("off"@ =~= seq!['o', 'f', 'f']);
        assert("never"@ =~= seq!['n', 'e', 'v', 'e', 'r']);
    }
    if text_eq(l, "1") || text_eq(l, "yes") || text_eq(l, "true") || text_eq(l, "on") || text_eq(l, "always") {
        Some(true)
    } else if text_eq(l, "0") || text_eq(l, "no") || text_eq(l, "false") || text_eq(l, "off") || text_eq(l, "never") {
        Some(false)
    } else {
        None
    }
}

/// A group of configurations.
#[derive(Clone, Copy, Debug, PartialEq, Eq, Structural)]
pub struct Config {
    /// When to use the full screen.
    pub interface_mode: InterfaceMode,
    /// Whether scrolling down can go past the end of the file.
    pub scroll_past_eof: bool,
    /// How many lines to read ahead.
    pub read_ahead_lines: usize,
}

impl Default for Config {
    fn default() -> (r: Config)
        ensures
            r == (Config { interface_mode: InterfaceMode::FullScreen, scroll_past_eof: false, read_ahead_lines: 0 }),
    {
        Config { interface_mode: InterfaceMode::FullScreen, scroll_past_eof: false, read_ahead_lines: 0 }
    }
}

impl Config {
    /// The configuration given by the values of the settings `SP_INTERFACE_MODE`,
    /// `SP_SCROLL_PAST_EOF` and `SP_READ_AHEAD_LINES` where they are set:
    /// full screen, scrolling past the end, and the default read-ahead where
    /// they are not set or not readable.
    pub fn from_values(interface_mode: Option<&str>, scroll_past_eof: Option<&str>, read_ahead_lines: Option<&str>) -> (r: Config)
        ensures
            r.interface_mode == match interface_mode {
                Some(s) => mode_named(lower_of(s@)),
                None => InterfaceMode::FullScreen,
            },
            r.scroll_past_eof == match scroll_past_eof {
                Some(s) => match bool_named(s@.map_values(|c: char| ascii_lower(c))) {
                    Some(b) => b,
                    None => true,
                },
                None => true,
            },
            r.read_ahead_lines == match read_ahead_lines {
                Some(s) => match decimal_value(s@) {
                    Some(v) => if v <= usize::MAX { v as usize } else { DEFAULT_NEEDED_LINES },
                    None => DEFAULT_NEEDED_LINES,
                },
                None => DEFAULT_NEEDED_LINES,
            },
    {
        let interface_mode = match interface_mode {
            Some(s) => InterfaceMode::from(s),
            None => InterfaceMode::FullScreen,
        };
        let scroll_past_eof = match scroll_past_eof {
            Some(s) => match parse_bool(s) {
                Some(b) => b,
                None => true,
            },
            None => true,
        };
        let read_ahead_lines = match read_ahead_lines {
            Some(s) => match parse_usize(s) {
                Some(n) => n,
                None => DEFAULT_NEEDED_LINES,
            },
            None => DEFAULT_NEEDED_LINES,
        };
        Config { interface_mode, scroll_past_eof, read_ahead_lines }
    }
}

} // verus!
