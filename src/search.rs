//! The matches of a search, and moving between them.
//!
//! A search sweeps the lines of a file in an order given by its kind and
//! records, for each line with matches, how many it has.  Matches are
//! numbered in the order they were found.  The current match moves by one
//! match, by one matching line, or to the first or last match; it stops at
//! the ends rather than wrapping.
use vstd::prelude::*;

use regex::bytes::Regex;

use crate::file::File;
use crate::index::spec_line_range;
use vstd::slice::slice_subrange;
use crate::line::escape_len_of;

verus! {

#[verifier::external_type_specification]
#[verifier::external_body]
pub struct ExRegex(regex::bytes::Regex);

#[verifier::external_type_specification]
#[verifier::external_body]
pub struct ExRegexError(regex::Error);

/// Whether a pattern is a regular expression that compiles.
pub uninterp spec fn pattern_compiles(pattern: Seq<char>) -> bool;

/// The byte ranges of the successive non-overlapping matches of a pattern
/// in a haystack.
pub uninterp spec fn match_ranges(pattern: Seq<char>, haystack: Seq<u8>) -> Seq<(usize, usize)>;

/// Relies on `regex::bytes::Regex::new`: whether it compiles depends on
/// the pattern alone.
#[verifier::external_body]
fn compile(pattern: &str) -> (r: Result<Regex, regex::Error>)
    ensures
        r is Ok == pattern_compiles(pattern@),
{
    Regex::new(pattern)
}

/// Relies on the `Display` of `regex::Error` for the message of an error.
#[verifier::external_body]
fn error_message(e: &regex::Error) -> (r: String) {
    e.to_string()
}

/// A search pattern with its compiled regular expression.
pub struct Pattern {
    text: String,
    regex: Regex,
}

impl Pattern {
    /// The text of the pattern.
    pub closed spec fn spec_text(&self) -> Seq<char> {
        self.text@
    }

    /// Compile a pattern; the error holds the message of the regular
    /// expression library.
    pub fn new(text: &str) -> (r: Result<Pattern, String>)
        ensures
            r is Ok == pattern_compiles(text@),
            r is Ok ==> r->Ok_0.spec_text() == text@,
    {
        match compile(text) {
            Ok(regex) => Ok(Pattern { text: text.to_string(), regex }),
            Err(e) => Err(error_message(&e)),
        }
    }

    /// The text of the pattern.
    pub fn text(&self) -> (r: &str)
        ensures
            r@ == self.spec_text(),
    {
        self.text.as_str()
    }
}

/// Relies on `regex::bytes::Regex::find_iter`: the successive
/// non-overlapping matches depend on the pattern and the haystack alone,
/// and each lies within the haystack.
#[verifier::external_body]
pub(crate) fn find_matches(pattern: &Pattern, haystack: &[u8]) -> (r: Vec<(usize, usize)>)
    ensures
        r@ == match_ranges(pattern.spec_text(), haystack@),
        forall|i: int| 0 <= i < r@.len() ==> (#[trigger] r@[i]).0 <= r@[i].1 <= haystack@.len(),
{
    pattern.regex.find_iter(haystack).map(|m| (m.start(), m.end())).collect()
}

/// The escape byte.
pub const ESCAPE: u8 = 0x1B;

/// The length of the escape sequence at the start of `s`, as the terminal
/// escape parser reads it, if `s` starts with one.
pub open spec fn escape_here(s: Seq<u8>) -> Option<int> {
    if s.len() > 0 && s[0] == ESCAPE {
        match escape_len_of(s) {
            Some(l) => if 1 <= l <= s.len() { Some(l as int) } else { None },
            None => None,
        }
    } else {
        None
    }
}

/// `s` with its escape sequences removed, scanning from the start.
pub open spec fn strip_escapes(s: Seq<u8>) -> Seq<u8>
    decreases s.len(),
{
    if s.len() == 0 {
        s
    } else {
        match escape_here(s) {
            Some(l) => if l >= 1 { strip_escapes(s.subrange(l, s.len() as int)) } else { s },
            None => seq![s[0]].add(strip_escapes(s.subrange(1, s.len() as int))),
        }
    }
}

/// `s` without its line terminator: a final `\r\n` or `\n`.
pub open spec fn trim_newline(s: Seq<u8>) -> Seq<u8> {
    if s.len() >= 2 && s[s.len() - 2] == 0x0D && s[s.len() - 1] == 0x0A {
        s.subrange(0, s.len() - 2)
    } else if s.len() >= 1 && s[s.len() - 1] == 0x0A {
        s.subrange(0, s.len() - 1)
    } else {
        s
    }
}

/// The text that a search looks at in a line: the line without its
/// terminator and without escape sequences.
pub open spec fn search_text(line: Seq<u8>) -> Seq<u8> {
    strip_escapes(trim_newline(line))
}

/// The text a search looks at in a line.
pub fn search_bytes(line: &[u8]) -> (r: Vec<u8>)
    ensures
        r@ == search_text(line@),
{
    let n = line.len();
    let end = if n >= 2 && line[n - 2] == 0x0D && line[n - 1] == 0x0A {
        n - 2
    } else if n >= 1 && line[n - 1] == 0x0A {
        n - 1
    } else {
        n
    };
    let ghost t = line@.subrange(0, end as int);
    proof {
        assert(t == trim_newline(line@)) by {
            if end == n {
                assert(line@.subrange(0, n as int) == line@);
            }
        }
        assert(t.subrange(0, end as int) == t);
    }
    let mut out: Vec<u8> = Vec::new();
    let mut i: usize = 0;
    proof {
        assert(out@ + strip_escapes(t) =~= strip_escapes(t));
    }
    while i < end
        invariant
            i <= end <= n,
            n == line@.len(),
            t == line@.subrange(0, end as int),
            out@ + strip_escapes(t.subrange(i as int, end as int)) == strip_escapes(t),
        decreases end - i,
    {
        let u = slice_subrange(line, i, end);
        proof {
            assert(u@ == t.subrange(i as int, end as int));
        }
        let mut skip: usize = 0;
        if line[i] == ESCAPE {
            if let Some((_, len)) = crate::line::parse_escape(u) {
                skip = len;
            }
        }
        if skip > 0 {
            proof {
                assert(escape_here(u@) == Some(skip as int));
                assert(u@.subrange(skip as int, u@.len() as int) =~= t.subrange(i + skip, end as int));
            }
            i = i + skip;
        } else {
            proof {
                assert(escape_here(u@) is None);
                assert(u@.subrange(1, u@.len() as int) =~= t.subrange(i + 1, end as int));
            }
            let ghost o = out@;
            out.push(line[i]);
            proof {
                assert(out@ == o + seq![t[i as int]]);
                assert(o + seq![t[i as int]].add(strip_escapes(t.subrange(i + 1, end as int)))
                    == out@ + strip_escapes(t.subrange(i + 1, end as int)));
            }
            i = i + 1;
        }
    }
    proof {
        assert(t.subrange(i as int, end as int) =~= Seq::<u8>::empty());
        assert(out@ + Seq::<u8>::empty() =~= out@);
    }
    out
}

/// Where a search starts.
#[derive(Clone, Copy, Debug, PartialEq, Eq, Structural)]
pub enum SearchKind {
    /// From the first line of the file.
    First,
    /// From the given line, forwards, wrapping to the start.
    FirstAfter(usize),
    /// From the line before the given line, backwards, wrapping to the end.
    FirstBefore(usize),
}

/// The line a search of the given kind visits at step `k` of a file of
/// `n` lines.
pub open spec fn spec_sweep_line(kind: SearchKind, n: int, k: int) -> int {
    match kind {
        SearchKind::First => k,
        SearchKind::FirstAfter(t) => (t + k) % n,
        SearchKind::FirstBefore(b) => ((b - 1 - k) % n + n) % n,
    }
}

/// The line a search visits at step `k` of a file of `n` lines.
pub fn sweep_line(kind: SearchKind, n: usize, k: usize) -> (r: usize)
    requires
        k < n,
    ensures
        r == spec_sweep_line(kind, n as int, k as int),
        r < n,
{
    match kind {
        SearchKind::First => k,
        SearchKind::FirstAfter(t) => {
            let t = t % n;
            let r = if t < n - k { t + k } else { t - (n - k) };
            proof {
                let ti = kind->FirstAfter_0 as int;
                assert((ti + k) % (n as int) == r) by {
                    vstd::arithmetic::div_mod::lemma_add_mod_noop(ti, k as int, n as int);
                    vstd::arithmetic::div_mod::lemma_mod_twice(ti, n as int);
                    vstd::arithmetic::div_mod::lemma_small_mod(k as nat, n as nat);
                    vstd::arithmetic::div_mod::lemma_mod_bound(ti, n as int);
                    if t < n - k {
                        vstd::arithmetic::div_mod::lemma_small_mod((t + k) as nat, n as nat);
                    } else {
                        vstd::arithmetic::div_mod::lemma_mod_sub_multiples_vanish((t + k) as int, n as int);
                        vstd::arithmetic::div_mod::lemma_small_mod((t + k - n) as nat, n as nat);
                    }
                }
            }
            r
        },
        SearchKind::FirstBefore(b) => {
            let b = b % n;
            let r = if b > k { b - 1 - k } else { n - 1 - (k - b) };
            proof {
                let bi = kind->FirstBefore_0 as int;
                let ni = n as int;
                assert(((bi - 1 - k) % ni + ni) % ni == r) by {
                    vstd::arithmetic::div_mod::lemma_mod_bound(bi, ni);
                    vstd::arithmetic::div_mod::lemma_fundamental_div_mod(bi, ni);
                    let q = bi / ni;
                    assert(b as int == bi % ni);
                    assert(bi - 1 - k == ni * q + (b as int - 1 - k));
                    vstd::arithmetic::div_mod::lemma_mod_multiples_vanish(q, b as int - 1 - k, ni);
                    if b > k {
                        vstd::arithmetic::div_mod::lemma_small_mod((b - 1 - k) as nat, n as nat);
                        vstd::arithmetic::div_mod::lemma_mod_multiples_vanish(1, b as int - 1 - k, ni);
                        vstd::arithmetic::div_mod::lemma_small_mod((b - 1 - k) as nat, n as nat);
                    } else {
                        vstd::arithmetic::div_mod::lemma_mod_multiples_vanish(1, b as int - 1 - k, ni);
                        vstd::arithmetic::div_mod::lemma_small_mod((b as int - 1 - k + ni) as nat, n as nat);
                        vstd::arithmetic::div_mod::lemma_mod_multiples_vanish(1, b as int - 1 - k + ni, ni);
                    }
                }
            }
            r
        },
    }
}

/// A line with matches: its index, how many matches it has, and the number
/// of the first of them among all the matches found.
#[derive(Clone, Copy, Debug, PartialEq, Eq, Structural)]
pub struct LineMatch {
    /// The index of the line.
    pub line_index: usize,
    /// The number of matches in the line.
    pub match_count: usize,
    /// The number of the line's first match.
    pub first_match: usize,
}

/// How to move the current match.
#[derive(Clone, Copy, Debug, PartialEq, Eq, Structural)]
pub enum MatchMotion {
    /// To the first match.
    First,
    /// To the previous match.
    Previous,
    /// To the first match of the previous matching line.
    PreviousLine,
    /// To the next match.
    Next,
    /// To the first match of the next matching line.
    NextLine,
    /// To the last match.
    Last,
}

/// The records are numbered in order: each line's first match follows the
/// matches of the lines before it, and every recorded line has a match.
pub open spec fn numbered(m: Seq<LineMatch>, total: int) -> bool {
    &&& forall|k: int| 0 <= k < m.len() ==> (#[trigger] m[k]).match_count > 0
    &&& m.len() > 0 ==> m[0].first_match == 0
    &&& forall|k: int| 0 <= k < m.len() - 1 ==> (#[trigger] m[k + 1]).first_match == m[k].first_match + m[k].match_count
    &&& total == if m.len() == 0 { 0 } else { m.last().first_match + m.last().match_count }
}

/// The records after a line with `count` matches is searched: a line
/// with none, or with more than the count of matches can hold, adds
/// nothing.
pub open spec fn recorded(m: Seq<LineMatch>, total: int, line_index: usize, count: usize) -> Seq<LineMatch> {
    if count == 0 || total + count > usize::MAX {
        m
    } else {
        m.push(LineMatch { line_index, match_count: count, first_match: total as usize })
    }
}

/// The number of matches after a line with `count` matches is searched.
pub open spec fn total_after(total: int, count: usize) -> int {
    if count == 0 || total + count > usize::MAX { total } else { total + count }
}

/// The matches found by a search so far.
pub struct SearchMatches {
    matches: Vec<LineMatch>,
    total: usize,
    current: Option<usize>,
    searched_lines: usize,
    finished: bool,
}

impl SearchMatches {
    /// The records of the lines with matches, in the order found.
    pub closed spec fn records(&self) -> Seq<LineMatch> {
        self.matches@
    }

    /// The number of matches found.
    pub closed spec fn spec_total(&self) -> int {
        self.total as int
    }

    /// The number of the current match, once there is one.
    pub closed spec fn spec_current(&self) -> Option<usize> {
        self.current
    }

    /// The number of lines searched.
    pub closed spec fn spec_searched(&self) -> int {
        self.searched_lines as int
    }

    /// Whether the search has finished.
    pub closed spec fn spec_finished(&self) -> bool {
        self.finished
    }

    /// The records are numbered in order and the current match exists.
    pub open spec fn wf(&self) -> bool {
        &&& numbered(self.records(), self.spec_total())
        &&& (self.spec_current() is Some <==> self.spec_total() > 0)
        &&& (self.spec_current() matches Some(c) ==> c < self.spec_total())
    }

    /// No match yet, nothing searched.
    pub fn new() -> (r: SearchMatches)
        ensures
            r.wf(),
            r.records() == Seq::<LineMatch>::empty(),
            r.spec_current() is None,
            r.spec_searched() == 0,
            !r.spec_finished(),
    {
        SearchMatches { matches: Vec::new(), total: 0, current: None, searched_lines: 0, finished: false }
    }

    /// Record that one more line was searched and held `count` matches.
    /// Returns whether this gave the search its first match.
    pub fn record_line(&mut self, line_index: usize, count: usize) -> (r: bool)
        requires
            old(self).wf(),
            old(self).spec_searched() < usize::MAX,
        ensures
            final(self).wf(),
            final(self).spec_searched() == old(self).spec_searched() + 1,
            final(self).records() == recorded(old(self).records(), old(self).spec_total(), line_index, count),
            final(self).spec_total() == total_after(old(self).spec_total(), count),
            (count == 0 || old(self).spec_total() + count > usize::MAX) ==> final(self).records() == old(self).records(),
            (count > 0 && old(self).spec_total() + count <= usize::MAX) ==> final(self).records() == old(self).records().push(LineMatch {
                line_index,
                match_count: count,
                first_match: old(self).spec_total() as usize,
            }),
            r == (old(self).spec_current() is None && count > 0 && old(self).spec_total() + count <= usize::MAX),
            r ==> final(self).spec_current() == Some(0usize),
            !r ==> final(self).spec_current() == old(self).spec_current(),
            final(self).spec_finished() == old(self).spec_finished(),
    {
        self.searched_lines = self.searched_lines + 1;
        if count == 0 || count > usize::MAX - self.total {
            return false;
        }
        let ghost m0 = self.matches@;
        self.matches.push(LineMatch { line_index, match_count: count, first_match: self.total });
        self.total = self.total + count;
        proof {
            let m = self.matches@;
            assert forall|k: int| 0 <= k < m.len() - 1 implies (#[trigger] m[k + 1]).first_match == m[k].first_match + m[k].match_count by {
                if k + 1 < m0.len() {
                    assert(m[k + 1] == m0[k + 1]);
                    assert(m[k] == m0[k]);
                } else {
                    assert(m[k] == m0.last());
                }
            }
            assert forall|k: int| 0 <= k < m.len() implies (#[trigger] m[k]).match_count > 0 by {
                if k < m0.len() {
                    assert(m[k] == m0[k]);
                }
            }
            if m0.len() > 0 {
                assert(m[0] == m0[0]);
            }
        }
        if self.current.is_none() {
            self.current = Some(0);
            true
        } else {
            false
        }
    }

    /// Record that the search has swept the whole file.
    pub fn finish(&mut self)
        requires
            old(self).wf(),
        ensures
            final(self).wf(),
            final(self).spec_finished(),
            final(self).records() == old(self).records(),
            final(self).spec_current() == old(self).spec_current(),
            final(self).spec_searched() == old(self).spec_searched(),
    {
        self.finished = true;
    }

    /// The number of lines searched.
    pub fn searched_lines(&self) -> (r: usize)
        ensures
            r == self.spec_searched(),
    {
        self.searched_lines
    }

    /// The number of matches found.
    pub fn total(&self) -> (r: usize)
        ensures
            r == self.spec_total(),
    {
        self.total
    }

    /// The number of the current match.
    pub fn current(&self) -> (r: Option<usize>)
        ensures
            r == self.spec_current(),
    {
        self.current
    }

    /// The records of the lines with matches, in the order found.
    pub fn line_matches(&self) -> (r: &Vec<LineMatch>)
        ensures
            r@ == self.records(),
    {
        &self.matches
    }

    /// The record that holds match `c`.
    fn record_of(&self, c: usize) -> (r: usize)
        requires
            self.wf(),
            c < self.spec_total(),
        ensures
            r < self.records().len(),
            self.records()[r as int].first_match <= c < self.records()[r as int].first_match + self.records()[r as int].match_count,
    {
        let mut k: usize = 0;
        while k < self.matches.len() - 1 && self.matches[k + 1].first_match <= c
            invariant
                self.wf(),
                c < self.spec_total(),
                k < self.matches@.len(),
                self.matches@[k as int].first_match <= c,
            decreases self.matches@.len() - k,
        {
            k = k + 1;
        }
        proof {
            if k + 1 < self.matches@.len() {
                assert(self.matches@[k + 1].first_match == self.matches@[k as int].first_match + self.matches@[k as int].match_count);
            }
        }
        k
    }

    /// The line of the current match.
    pub fn current_line(&self) -> (r: Option<usize>)
        requires
            self.wf(),
        ensures
            r is Some <==> self.spec_current() is Some,
            r is Some ==> exists|k: int| 0 <= k < self.records().len()
                && #[trigger] self.records()[k].line_index == r->0
                && self.records()[k].first_match <= self.spec_current()->0 < self.records()[k].first_match + self.records()[k].match_count,
    {
        match self.current {
            Some(c) => {
                let k = self.record_of(c);
                Some(self.matches[k].line_index)
            },
            None => None,
        }
    }

    /// The number of the current match among the matches of its line, when
    /// it is in line `line_index`.
    pub fn current_in_line(&self, line_index: usize) -> (r: Option<usize>)
        requires
            self.wf(),
        ensures
            r is Some ==> exists|k: int| 0 <= k < self.records().len()
                && #[trigger] self.records()[k].line_index == line_index
                && self.records()[k].first_match <= self.spec_current()->0 < self.records()[k].first_match + self.records()[k].match_count
                && r->0 == self.spec_current()->0 - self.records()[k].first_match,
            self.spec_current() is None ==> r is None,
    {
        match self.current {
            Some(c) => {
                let k = self.record_of(c);
                if self.matches[k].line_index == line_index {
                    Some(c - self.matches[k].first_match)
                } else {
                    None
                }
            },
            None => None,
        }
    }

    /// Move the current match.  Moves stop at the first and last match.
    pub fn move_match(&mut self, motion: MatchMotion)
        requires
            old(self).wf(),
        ensures
            final(self).wf(),
            final(self).records() == old(self).records(),
            old(self).spec_current() is None ==> final(self).spec_current() is None,
            old(self).spec_current() is Some ==> ({
                let c = old(self).spec_current()->0 as int;
                let t = old(self).spec_total();
                let m = old(self).records();
                let n = final(self).spec_current()->0 as int;
                &&& final(self).spec_current() is Some
                &&& motion is First ==> n == 0
                &&& motion is Last ==> n == t - 1
                &&& motion is Next ==> n == if c + 1 < t { c + 1 } else { c }
                &&& motion is Previous ==> n == if c > 0 { c - 1 } else { 0 }
                &&& motion is NextLine ==> exists|k: int| 0 <= k < m.len() && (#[trigger] m[k]).first_match <= c < m[k].first_match + m[k].match_count
                    && n == (if k + 1 < m.len() { m[k + 1].first_match as int } else { c })
                &&& motion is PreviousLine ==> exists|k: int| 0 <= k < m.len() && (#[trigger] m[k]).first_match <= c < m[k].first_match + m[k].match_count
                    && n == (if k > 0 { m[k - 1].first_match as int } else { c })
            }),
    {
        let c = match self.current {
            Some(c) => c,
            None => {
                return;
            },
        };
        let next = match motion {
            MatchMotion::First => 0,
            MatchMotion::Last => self.total - 1,
            MatchMotion::Next => if c + 1 < self.total { c + 1 } else { c },
            MatchMotion::Previous => if c > 0 { c - 1 } else { 0 },
            MatchMotion::NextLine => {
                let k = self.record_of(c);
                let n = if k < self.matches.len() - 1 {
                    proof {
                        assert(self.matches@[k + 1].first_match == self.matches@[k as int].first_match + self.matches@[k as int].match_count);
                        assert(self.matches@[k + 1].match_count > 0);
                        lemma_first_matches_below_total(self.matches@, self.total as int, k + 1);
                    }
                    self.matches[k + 1].first_match
                } else {
                    c
                };
                proof {
                    let m = self.matches@;
                    let ki = k as int;
                    assert(0 <= ki < m.len() && m[ki].first_match <= c < m[ki].first_match + m[ki].match_count
                        && n == (if ki + 1 < m.len() { m[ki + 1].first_match as int } else { c as int }));
                }
                n
            },
            MatchMotion::PreviousLine => {
                let k = self.record_of(c);
                let n = if k > 0 {
                    proof {
                        lemma_first_matches_below_total(self.matches@, self.total as int, k - 1);
                    }
                    self.matches[k - 1].first_match
                } else {
                    c
                };
                proof {
                    let m = self.matches@;
                    let ki = k as int;
                    assert(0 <= ki < m.len() && m[ki].first_match <= c < m[ki].first_match + m[ki].match_count
                        && n == (if ki > 0 { m[ki - 1].first_match as int } else { c as int }));
                }
                n
            },
        };
        self.current = Some(next);
    }
}

proof fn lemma_first_matches_below_total(m: Seq<LineMatch>, total: int, k: int)
    requires
        numbered(m, total),
        0 <= k < m.len(),
    ensures
        m[k].first_match + m[k].match_count <= total,
    decreases m.len() - k,
{
    if k + 1 < m.len() {
        lemma_first_matches_below_total(m, total, k + 1);
        assert(m[k + 1].first_match == m[k].first_match + m[k].match_count);
    }
}

/// The number of matches of a pattern in line `l` of a file: none for a
/// line that holds no byte yet.
pub open spec fn line_hits(f: File, pattern: Seq<char>, l: int) -> int {
    match spec_line_range(f.line_index().newline_offsets(), f.content().len() as int, l) {
        Some((start, end)) => match_ranges(pattern, search_text(f.content().subrange(start, end))).len() as int,
        None => 0,
    }
}

/// The records and match count after the first `k` steps of a search of
/// the given kind over a file of `n` lines.
pub open spec fn swept(f: File, pattern: Seq<char>, kind: SearchKind, n: int, k: int) -> (Seq<LineMatch>, int)
    decreases k,
{
    if k <= 0 {
        (Seq::empty(), 0)
    } else {
        let prev = swept(f, pattern, kind, n, k - 1);
        let l = spec_sweep_line(kind, n, k - 1);
        let c = line_hits(f, pattern, l);
        (recorded(prev.0, prev.1, l as usize, c as usize), total_after(prev.1, c as usize))
    }
}

/// Search every line of a file, in the order the kind of search gives,
/// recording the lines that match.  Returns the matches, and whether any
/// was found (when the view should show the first match).
pub fn search_file(file: &File, pattern: &Pattern, kind: SearchKind) -> (r: SearchMatches)
    requires
        file.wf(),
    ensures
        r.wf(),
        r.spec_finished(),
        r.spec_searched() == file.line_index().spec_lines(),
        r.records() == swept(*file, pattern.spec_text(), kind, file.line_index().spec_lines(), file.line_index().spec_lines()).0,
        r.spec_total() == swept(*file, pattern.spec_text(), kind, file.line_index().spec_lines(), file.line_index().spec_lines()).1,
{
    let n = file.lines();
    let mut matches = SearchMatches::new();
    let mut k: usize = 0;
    while k < n
        invariant
            k <= n,
            n == file.line_index().spec_lines(),
            file.wf(),
            matches.wf(),
            matches.spec_searched() == k,
            !matches.spec_finished(),
            matches.records() == swept(*file, pattern.spec_text(), kind, n as int, k as int).0,
            matches.spec_total() == swept(*file, pattern.spec_text(), kind, n as int, k as int).1,
        decreases n - k,
    {
        let l = sweep_line(kind, n, k);
        let count: usize = match file.line(l) {
            Some(bytes) => {
                let text = search_bytes(bytes);
                find_matches(pattern, text.as_slice()).len()
            },
            None => 0,
        };
        proof {
            assert(count == line_hits(*file, pattern.spec_text(), l as int));
        }
        matches.record_line(l, count);
        k = k + 1;
    }
    matches.finish();
    matches
}

} // verus!
