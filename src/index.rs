//! The newline index of a file that is being loaded.
//!
//! A loader appends the bytes it reads; the index records the offset of
//! every newline byte and the number of bytes seen, and answers which byte
//! range makes up each line.  While a file is reloaded the line count that
//! it reports is held at least at the count from before the reload, so that
//! a view of the file does not appear to shrink.
use vstd::prelude::*;

verus! {

/// The newline byte.
pub const NEWLINE: u8 = 10;

/// Default number of lines a streamed loader reads before it pauses.
pub const DEFAULT_NEEDED_LINES: usize = 5000;

/// `nl` lists, in increasing order, exactly the offsets of the newline
/// bytes of `content`.
pub open spec fn indexes(nl: Seq<usize>, content: Seq<u8>) -> bool {
    &&& forall|i: int| 0 <= i < nl.len() ==> (#[trigger] nl[i] as int) < content.len() && content[nl[i] as int] == NEWLINE
    &&& forall|i: int, j: int| 0 <= i < j < nl.len() ==> #[trigger] nl[i] < #[trigger] nl[j]
    &&& forall|p: int| 0 <= p < content.len() && #[trigger] content[p] == NEWLINE ==> nl.contains(p as usize)
}

/// The number of lines of a file of `length` bytes whose newlines are at
/// the offsets `nl`: one per newline, and one more for bytes after the last
/// newline.
pub open spec fn spec_line_count(nl: Seq<usize>, length: int) -> int {
    let after_last = if nl.len() == 0 { 0 } else { nl[nl.len() - 1] + 1 };
    if length > after_last { (nl.len() + 1) as int } else { nl.len() as int }
}

/// The byte range `start..end` of line `i`, if the line holds any byte.
pub open spec fn spec_line_range(nl: Seq<usize>, length: int, i: int) -> Option<(int, int)> {
    if i < 0 || i > nl.len() {
        None
    } else {
        let start = if i == 0 { 0 } else { nl[i - 1] + 1 };
        let end = if i < nl.len() { nl[i] + 1 } else { length };
        if start == end { None } else { Some((start, end)) }
    }
}

/// Count the lines of a file of `length` bytes with newlines at `newlines`.
pub fn line_count(newlines: &[usize], length: usize) -> (r: usize)
    requires
        newlines@.len() < usize::MAX,
    ensures
        r == spec_line_count(newlines@, length as int),
{
    let mut lines = newlines.len();
    let after_last_newline_offset: usize = if lines == 0 {
        0
    } else {
        if newlines[lines - 1] == usize::MAX {
            // No byte can follow a newline at the largest offset.
            return lines;
        }
        newlines[lines - 1] + 1
    };
    if length > after_last_newline_offset {
        lines += 1;
    }
    lines
}

/// The loading state of a file: its newline index, its length, and the
/// flags that the loader and the view share.
pub struct LineIndex {
    newlines: Vec<usize>,
    length: usize,
    reload_old_line_count: Option<usize>,
    finished: bool,
    needed_lines: usize,
    content: Ghost<Seq<u8>>,
}

impl LineIndex {
    /// The bytes loaded so far in the current pass.
    pub closed spec fn content(&self) -> Seq<u8> {
        self.content@
    }

    /// The offsets of the newlines loaded so far.
    pub closed spec fn newline_offsets(&self) -> Seq<usize> {
        self.newlines@
    }

    /// The line count from before the reload in progress, if any.
    pub closed spec fn reload_floor(&self) -> Option<usize> {
        self.reload_old_line_count
    }

    /// Whether the current pass has reached the end of the input.
    pub closed spec fn is_finished(&self) -> bool {
        self.finished
    }

    /// The number of lines the loader reads before it pauses.
    pub closed spec fn needed(&self) -> nat {
        self.needed_lines as nat
    }

    /// The index is consistent: the length is that of the content and the
    /// newline offsets are exactly those of its newline bytes, in order.
    pub closed spec fn wf(&self) -> bool {
        &&& self.length as int == self.content@.len()
        &&& self.length < usize::MAX
        &&& indexes(self.newlines@, self.content@)
    }

    /// The number of lines in the loaded content.
    pub open spec fn spec_count(&self) -> int {
        spec_line_count(self.newline_offsets(), self.content().len() as int)
    }

    /// The number of lines reported: while a reload is in progress, at least
    /// the count from before the reload.
    pub open spec fn spec_lines(&self) -> int {
        let floor: int = match self.reload_floor() {
            Some(n) => if self.is_finished() { 0 } else { n as int },
            None => 0,
        };
        if floor > self.spec_count() { floor } else { self.spec_count() }
    }

    /// An empty index whose loader pauses after `needed_lines` lines.
    pub fn new(needed_lines: usize) -> (r: LineIndex)
        ensures
            r.wf(),
            r.content() == Seq::<u8>::empty(),
            r.reload_floor() is None,
            !r.is_finished(),
            r.needed() == needed_lines,
    {
        LineIndex {
            newlines: Vec::new(),
            length: 0,
            reload_old_line_count: None,
            finished: false,
            needed_lines,
            content: Ghost(Seq::empty()),
        }
    }

    /// The number of bytes loaded in the current pass.
    pub fn length(&self) -> (r: usize)
        requires
            self.wf(),
        ensures
            r == self.content().len(),
            r < usize::MAX,
    {
        self.length
    }

    /// The number of newlines loaded in the current pass.
    pub fn newline_count(&self) -> (r: usize)
        ensures
            r == self.newline_offsets().len(),
    {
        self.newlines.len()
    }

    /// True once the current pass has reached the end of the input.
    pub fn loaded(&self) -> (r: bool)
        ensures
            r == self.is_finished(),
    {
        self.finished
    }

    /// Record bytes read from the input, after those already loaded.
    pub fn append(&mut self, data: &[u8])
        requires
            old(self).wf(),
            old(self).content().len() + data@.len() < usize::MAX,
        ensures
            final(self).wf(),
            final(self).content() == old(self).content() + data@,
            final(self).newline_offsets().len() >= old(self).newline_offsets().len(),
            final(self).newline_offsets().subrange(0, old(self).newline_offsets().len() as int) == old(self).newline_offsets(),
            final(self).reload_floor() == old(self).reload_floor(),
            final(self).is_finished() == old(self).is_finished(),
            final(self).needed() == old(self).needed(),
            final(self).spec_count() >= old(self).spec_count(),
            final(self).spec_lines() >= old(self).spec_lines(),
    {
        let ghost old_nl = self.newlines@;
        let ghost old_content = self.content@;
        let offset = self.length;
        let mut k: usize = 0;
        while k < data.len()
            invariant
                k <= data@.len(),
                offset == old_content.len(),
                offset + data@.len() < usize::MAX,
                self.content@ == old_content + data@.subrange(0, k as int),
                indexes(self.newlines@, self.content@),
                self.newlines@.len() >= old_nl.len(),
                self.newlines@.subrange(0, old_nl.len() as int) == old_nl,
                self.length == offset,
                self.reload_old_line_count == old(self).reload_old_line_count,
                self.finished == old(self).finished,
                self.needed_lines == old(self).needed_lines,
                self.newlines@.len() > old_nl.len() ==> self.newlines@.last() >= offset,
            decreases data@.len() - k,
        {
            let ghost c0 = self.content@;
            let ghost nl0 = self.newlines@;
            let byte = data[k];
            if byte == NEWLINE {
                self.newlines.push(offset + k);
            }
            proof {
                let c1 = c0.push(byte);
                assert(old_content + data@.subrange(0, k + 1) == c1) by {
                    assert(data@.subrange(0, k + 1) == data@.subrange(0, k as int).push(byte));
                }
                self.content = Ghost(c1);
                let nl1 = self.newlines@;
                assert forall|i: int| 0 <= i < nl1.len() implies (#[trigger] nl1[i] as int) < c1.len() && c1[nl1[i] as int] == NEWLINE by {
                    if i < nl0.len() {
                        assert(nl1[i] == nl0[i]);
                    }
                }
                assert forall|i: int, j: int| 0 <= i < j < nl1.len() implies #[trigger] nl1[i] < #[trigger] nl1[j] by {
                    if j < nl0.len() {
                        assert(nl1[i] == nl0[i] && nl1[j] == nl0[j]);
                    } else {
                        assert(nl1[i] == nl0[i]);
                    }
                }
                assert forall|p: int| 0 <= p < c1.len() && #[trigger] c1[p] == NEWLINE implies nl1.contains(p as usize) by {
                    if p < c0.len() {
                        assert(c1[p] == c0[p]);
                        let i = choose|i: int| 0 <= i < nl0.len() && nl0[i] == p as usize;
                        assert(nl1[i] == nl0[i]);
                    } else {
                        assert(nl1[nl1.len() - 1] == p as usize);
                    }
                }
                assert(nl1.subrange(0, old_nl.len() as int) =~= old_nl) by {
                    assert(nl0.subrange(0, old_nl.len() as int) == old_nl);
                }
                if nl1.len() > old_nl.len() {
                    if nl1.len() > nl0.len() {
                    } else {
                        assert(nl1.last() == nl0.last());
                    }
                }
            }
            k = k + 1;
        }
        self.length = offset + data.len();
        proof {
            assert(data@.subrange(0, data@.len() as int) == data@);
            assert((old_content + data@).subrange(0, old_content.len() as int) =~= old_content);
            self.lemma_count_grows(old_nl, old_content);
        }
    }

    proof fn lemma_count_grows(&self, old_nl: Seq<usize>, old_content: Seq<u8>)
        requires
            self.wf(),
            indexes(old_nl, old_content),
            self.content().len() >= old_content.len(),
            self.content().len() < usize::MAX,
            self.content().subrange(0, old_content.len() as int) == old_content,
            self.newline_offsets().len() >= old_nl.len(),
            self.newline_offsets().subrange(0, old_nl.len() as int) == old_nl,
            self.newline_offsets().len() > old_nl.len() ==> self.newline_offsets().last() >= old_content.len(),
        ensures
            self.spec_count() >= spec_line_count(old_nl, old_content.len() as int),
    {
        let nl = self.newline_offsets();
        if nl.len() == old_nl.len() {
            assert(nl =~= old_nl) by {
                assert(nl.subrange(0, old_nl.len() as int) == old_nl);
            }
        } else if nl.len() == old_nl.len() + 1 {
            // A newline at or after the old length: the old trailing partial
            // line, if any, is now terminated and counted.
            assert(nl.subrange(0, old_nl.len() as int) == old_nl);
            if old_nl.len() > 0 {
                assert(nl[old_nl.len() - 1] == old_nl[old_nl.len() - 1]);
            }
        }
    }

    /// The number of lines of the file: the lines loaded so far, but during
    /// a reload at least as many as the file had before it.
    pub fn lines(&self) -> (r: usize)
        requires
            self.wf(),
        ensures
            r == self.spec_lines(),
    {
        proof {
            self.lemma_newlines_bounded();
        }
        let floor: usize = if !self.finished {
            match self.reload_old_line_count {
                Some(n) => n,
                None => 0,
            }
        } else {
            0
        };
        let count = line_count(self.newlines.as_slice(), self.length);
        if floor > count { floor } else { count }
    }

    proof fn lemma_newlines_bounded(&self)
        requires
            self.wf(),
        ensures
            self.newline_offsets().len() <= self.content().len(),
            self.content().len() < usize::MAX,
            self.newline_offsets().len() < usize::MAX,
    {
        let nl = self.newline_offsets();
        assert forall|i: int| 0 <= i < nl.len() implies i <= #[trigger] nl[i] by {
            lemma_increasing_at_least_index(nl, i);
        }
        if nl.len() > 0 {
            assert(nl.len() - 1 <= nl[nl.len() - 1]);
            assert((nl[nl.len() - 1] as int) < self.content().len());
        }
    }

    /// The byte range `start..end` of line `index`, or `None` where the
    /// line is out of range or holds no byte yet.
    pub fn line_range(&self, index: usize) -> (r: Option<(usize, usize)>)
        requires
            self.wf(),
        ensures
            r matches Some((s, e)) ==> spec_line_range(self.newline_offsets(), self.content().len() as int, index as int) == Some((s as int, e as int)),
            r is None ==> spec_line_range(self.newline_offsets(), self.content().len() as int, index as int) is None,
    {
        let n = self.newlines.len();
        if index > n {
            return None;
        }
        let start = if index == 0 { 0 } else { self.newlines[index - 1] + 1 };
        let end = if index < n { self.newlines[index] + 1 } else { self.length };
        if start == end {
            None
        } else {
            Some((start, end))
        }
    }

    /// Mark the end of the current pass: the input has been read to its
    /// end, and a reload in progress is complete.
    pub fn finish(&mut self)
        requires
            old(self).wf(),
        ensures
            final(self).wf(),
            final(self).content() == old(self).content(),
            final(self).newline_offsets() == old(self).newline_offsets(),
            final(self).is_finished(),
            final(self).reload_floor() is None,
            final(self).needed() == old(self).needed(),
            final(self).spec_lines() == final(self).spec_count(),
    {
        self.finished = true;
        self.reload_old_line_count = None;
    }

    /// Start loading the file again from its first byte.  The line count
    /// from before is kept as a floor for the count reported until the new
    /// pass is complete.
    pub fn begin_reload(&mut self)
        requires
            old(self).wf(),
        ensures
            final(self).wf(),
            final(self).content() == Seq::<u8>::empty(),
            !final(self).is_finished(),
            final(self).needed() == old(self).needed(),
            final(self).reload_floor() == Some(old(self).spec_lines() as usize),
            final(self).newline_offsets() == Seq::<usize>::empty(),
            final(self).spec_lines() >= old(self).spec_lines(),
    {
        proof {
            self.lemma_newlines_bounded();
        }
        let count = line_count(self.newlines.as_slice(), self.length);
        let previous: usize = match self.reload_old_line_count {
            Some(n) => if self.finished { 0 } else { n },
            None => 0,
        };
        let floor = if previous > count { previous } else { count };
        self.reload_old_line_count = Some(floor);
        self.newlines.clear();
        self.length = 0;
        self.finished = false;
        self.content = Ghost(Seq::empty());
    }

    /// Raise the number of lines the loader reads before it pauses.  The
    /// number never goes down.
    pub fn set_needed_lines(&mut self, lines: usize)
        ensures
            final(self).needed() == if lines > old(self).needed() { lines as nat } else { old(self).needed() },
            final(self).content() == old(self).content(),
            final(self).newline_offsets() == old(self).newline_offsets(),
            final(self).is_finished() == old(self).is_finished(),
            final(self).reload_floor() == old(self).reload_floor(),
            old(self).wf() ==> final(self).wf(),
    {
        if self.needed_lines < lines {
            self.needed_lines = lines;
        }
    }

    /// Whether a streamed loader must pause: it holds as many lines as are
    /// needed.
    pub fn should_pause(&self) -> (r: bool)
        requires
            self.wf(),
        ensures
            r == (self.spec_count() >= self.needed()),
    {
        proof {
            self.lemma_newlines_bounded();
        }
        line_count(self.newlines.as_slice(), self.length) >= self.needed_lines
    }
}

/// The most bytes at the end of a file that the loader keeps to notice
/// when the file has been rewritten rather than appended to.
pub const TAIL_FINGERPRINT_LEN: usize = 4096;

/// A change to a file on disk, as the watcher reports it.
#[derive(Clone, Copy, Debug, PartialEq, Eq, Structural)]
pub enum FileEvent {
    /// The file has been written to; it may have grown.
    Append,
    /// The file has been renamed, removed or changed so that it must be
    /// read again.
    Reload,
}

/// The window `offset..offset + len` at the end of a file of `total` bytes
/// that the loader keeps as its tail fingerprint.
pub fn fingerprint_window(total: usize) -> (r: (usize, usize))
    ensures
        r.1 == if total < TAIL_FINGERPRINT_LEN { total } else { TAIL_FINGERPRINT_LEN },
        r.0 + r.1 == total,
{
    let len = if total < TAIL_FINGERPRINT_LEN { total } else { TAIL_FINGERPRINT_LEN };
    (total - len, len)
}

/// Whether the loader must read a file again from its start after a watch
/// event: on a reload event; or on an append when it kept no fingerprint,
/// could not open the file again, or found the bytes at the fingerprint's
/// place changed.  Otherwise it goes on from where it stopped.
pub fn must_reload(event: FileEvent, fingerprint_len: usize, reopened: bool, fingerprint_matches: bool) -> (r: bool)
    ensures
        r == (event is Reload || fingerprint_len == 0 || !reopened || !fingerprint_matches),
{
    match event {
        FileEvent::Reload => true,
        FileEvent::Append => fingerprint_len == 0 || !reopened || !fingerprint_matches,
    }
}

proof fn lemma_increasing_at_least_index(nl: Seq<usize>, i: int)
    requires
        0 <= i < nl.len(),
        forall|a: int, b: int| 0 <= a < b < nl.len() ==> #[trigger] nl[a] < #[trigger] nl[b],
    ensures
        i <= nl[i],
    decreases i,
{
    if i > 0 {
        lemma_increasing_at_least_index(nl, i - 1);
        assert(nl[i - 1] < nl[i]);
    }
}

/// The newline offsets of a consistent index increase strictly, each points
/// at a newline byte, and each lies before the end of the loaded bytes.
pub proof fn lemma_newlines_sorted(idx: &LineIndex)
    requires
        idx.wf(),
    ensures
        forall|i: int, j: int| 0 <= i < j < idx.newline_offsets().len() ==> idx.newline_offsets()[i] < idx.newline_offsets()[j],
        forall|i: int| 0 <= i < idx.newline_offsets().len() ==> (#[trigger] idx.newline_offsets()[i] as int) < idx.content().len()
            && idx.content()[idx.newline_offsets()[i] as int] == NEWLINE,
{
}

/// Every line below the count of loaded lines can be read, and holds at
/// least one byte.  Where the reported count is above it, a reload is in
/// progress and the lines past the loaded ones are not yet available.
pub proof fn lemma_counted_lines_readable(idx: &LineIndex)
    requires
        idx.wf(),
    ensures
        forall|i: int| 0 <= i < idx.spec_count() ==> (#[trigger] spec_line_range(idx.newline_offsets(), idx.content().len() as int, i)) is Some,
        forall|i: int| idx.spec_count() <= i ==> (#[trigger] spec_line_range(idx.newline_offsets(), idx.content().len() as int, i)) is None,
        idx.spec_lines() > idx.spec_count() ==> !idx.is_finished() && idx.reload_floor() is Some,
{
    let nl = idx.newline_offsets();
    let len = idx.content().len() as int;
    assert forall|i: int| 0 <= i < idx.spec_count() implies (#[trigger] spec_line_range(nl, len, i)) is Some by {
        if i < nl.len() {
            if i > 0 {
                assert(nl[i - 1] < nl[i]);
            }
        }
    }
    assert forall|i: int| idx.spec_count() <= i implies (#[trigger] spec_line_range(nl, len, i)) is None by {
        if i == nl.len() && nl.len() > 0 {
            assert((nl[nl.len() - 1] as int) < len);
        }
    }
}

} // verus!
