//! A file of the pager: its identity, the bytes loaded so far and their
//! newline index.
//!
//! The loader appends the bytes it reads; the view reads lines back.  A
//! loader that reads from a disk file may start again from the first byte
//! when the file is rewritten; while it does, the line count reported does
//! not go below the count from before.
use vstd::prelude::*;
use vstd::slice::slice_subrange;

use crate::index::{spec_line_range, LineIndex};

verus! {

/// A file being paged.
pub struct File {
    index: usize,
    title: String,
    info: Vec<String>,
    data: Vec<u8>,
    lines: LineIndex,
}

impl File {
    /// The bytes loaded in the current pass.
    pub closed spec fn content(&self) -> Seq<u8> {
        self.data@
    }

    /// The newline index of the file.
    pub closed spec fn line_index(&self) -> LineIndex {
        self.lines
    }

    /// The pieces of information about the file, in the order given.
    pub closed spec fn spec_info(&self) -> Seq<Seq<char>> {
        self.info@.map_values(|s: String| s@)
    }

    /// The file's title.
    pub closed spec fn spec_title(&self) -> Seq<char> {
        self.title@
    }

    /// The file's index.
    pub closed spec fn spec_index(&self) -> usize {
        self.index
    }

    /// The bytes held are those the index describes.
    pub closed spec fn wf(&self) -> bool {
        &&& self.lines.wf()
        &&& self.lines.content() == self.data@
    }

    /// A file with the given index and title, with nothing loaded yet.
    pub fn new(index: usize, title: String, needed_lines: usize) -> (r: File)
        ensures
            r.wf(),
            r.spec_index() == index,
            r.spec_title() == title@,
            r.spec_info() == Seq::<Seq<char>>::empty(),
            r.content() == Seq::<u8>::empty(),
            !r.line_index().is_finished(),
            r.line_index().reload_floor() is None,
            r.line_index().needed() == needed_lines,
    {
        let r = File { index, title, info: Vec::new(), data: Vec::new(), lines: LineIndex::new(needed_lines) };
        proof {
            assert(r.info@.map_values(|s: String| s@) =~= Seq::<Seq<char>>::empty());
        }
        r
    }

    /// The file's index.
    pub fn index(&self) -> (r: usize)
        ensures
            r == self.spec_index(),
    {
        self.index
    }

    /// The number of bytes loaded in the current pass.
    pub fn length(&self) -> (r: usize)
        requires
            self.wf(),
        ensures
            r == self.content().len(),
            r < usize::MAX,
    {
        self.lines.length()
    }

    /// The file's title.
    pub fn title(&self) -> (r: &str)
        ensures
            r@ == self.spec_title(),
    {
        self.title.as_str()
    }

    /// Add a piece of information about the file, such as the exit status
    /// of the command that writes it.
    pub fn add_info(&mut self, item: String)
        ensures
            final(self).spec_info() == old(self).spec_info().push(item@),
            final(self).spec_title() == old(self).spec_title(),
            final(self).content() == old(self).content(),
            final(self).line_index() == old(self).line_index(),
            final(self).spec_index() == old(self).spec_index(),
            old(self).wf() ==> final(self).wf(),
    {
        let ghost s = item@;
        self.info.push(item);
        proof {
            assert(self.info@.map_values(|s: String| s@) =~= old(self).info@.map_values(|s: String| s@).push(s));
        }
    }

    /// The pieces of information about the file, in the order given.
    pub fn info_items(&self) -> (r: &Vec<String>)
        ensures
            r@.map_values(|s: String| s@) == self.spec_info(),
    {
        &self.info
    }

    /// True once the current pass has reached the end of the input.
    pub fn loaded(&self) -> (r: bool)
        ensures
            r == self.line_index().is_finished(),
    {
        self.lines.loaded()
    }

    /// The number of lines, held during a reload at least at the count
    /// from before it.
    pub fn lines(&self) -> (r: usize)
        requires
            self.wf(),
        ensures
            r == self.line_index().spec_lines(),
    {
        self.lines.lines()
    }

    /// Record bytes read from the input.
    pub fn append(&mut self, bytes: &[u8])
        requires
            old(self).wf(),
            old(self).content().len() + bytes@.len() < usize::MAX,
        ensures
            final(self).wf(),
            final(self).content() == old(self).content() + bytes@,
            final(self).spec_index() == old(self).spec_index(),
            final(self).line_index().is_finished() == old(self).line_index().is_finished(),
            final(self).line_index().reload_floor() == old(self).line_index().reload_floor(),
            final(self).line_index().needed() == old(self).line_index().needed(),
            final(self).line_index().spec_lines() >= old(self).line_index().spec_lines(),
    {
        self.lines.append(bytes);
        let mut i: usize = 0;
        let ghost start = self.data@;
        let ghost loaded = self.lines;
        while i < bytes.len()
            invariant
                i <= bytes@.len(),
                self.data@ == start + bytes@.subrange(0, i as int),
                start == old(self).data@,
                self.lines == loaded,
                self.index == old(self).index,
            decreases bytes@.len() - i,
        {
            self.data.push(bytes[i]);
            proof {
                assert(bytes@.subrange(0, i + 1) == bytes@.subrange(0, i as int).push(bytes@[i as int]));
            }
            i = i + 1;
        }
        proof {
            assert(bytes@.subrange(0, bytes@.len() as int) == bytes@);
        }
    }

    /// The bytes of line `index`, with its newline if it has one; `None`
    /// if the line is out of range or holds no byte yet.
    pub fn line(&self, index: usize) -> (r: Option<&[u8]>)
        requires
            self.wf(),
        ensures
            r is Some <==> spec_line_range(self.line_index().newline_offsets(), self.content().len() as int, index as int) is Some,
            r is Some ==> ({
                let (start, end) = spec_line_range(self.line_index().newline_offsets(), self.content().len() as int, index as int)->0;
                r->0@ == self.content().subrange(start, end)
            }),
    {
        match self.lines.line_range(index) {
            Some((start, end)) => {
                proof {
                    crate::index::lemma_newlines_sorted(&self.lines);
                    let nl = self.lines.newline_offsets();
                    if index > 0 && index <= nl.len() {
                        assert((nl[index - 1] as int) < self.data@.len());
                    }
                    if index < nl.len() {
                        assert((nl[index as int] as int) < self.data@.len());
                        if index > 0 {
                            assert(nl[index - 1] < nl[index as int]);
                        }
                    }
                }
                Some(slice_subrange(self.data.as_slice(), start, end))
            },
            None => None,
        }
    }

    /// Run `call` on the bytes of line `index`, with its newline if it has
    /// one; `None` if the line is out of range or holds no byte yet.
    pub fn with_line<T, F: Fn(&[u8]) -> T>(&self, index: usize, call: F) -> (r: Option<T>)
        requires
            self.wf(),
            forall|s: &[u8]| #[trigger] call.requires((s,)),
        ensures
            r is Some <==> spec_line_range(self.line_index().newline_offsets(), self.content().len() as int, index as int) is Some,
            forall|v: T| r == Some(v) ==> exists|s: &[u8]| #[trigger] call.ensures((s,), v) && s@ == ({
                let (start, end) = spec_line_range(self.line_index().newline_offsets(), self.content().len() as int, index as int)->0;
                self.content().subrange(start, end)
            }),
    {
        match self.line(index) {
            Some(bytes) => {
                let v = call(bytes);
                Some(v)
            },
            None => None,
        }
    }

    /// Mark the end of the current pass.
    pub fn finish(&mut self)
        requires
            old(self).wf(),
        ensures
            final(self).wf(),
            final(self).content() == old(self).content(),
            final(self).line_index().is_finished(),
            final(self).line_index().reload_floor() is None,
            final(self).line_index().spec_lines() == final(self).line_index().spec_count(),
    {
        self.lines.finish();
    }

    /// Start loading the file again from its first byte.
    pub fn begin_reload(&mut self)
        requires
            old(self).wf(),
        ensures
            final(self).wf(),
            final(self).content() == Seq::<u8>::empty(),
            !final(self).line_index().is_finished(),
            final(self).line_index().spec_lines() >= old(self).line_index().spec_lines(),
    {
        self.lines.begin_reload();
        self.data.clear();
    }

    /// Raise the number of lines loaded before a streamed loader pauses.
    pub fn set_needed_lines(&mut self, lines: usize)
        requires
            old(self).wf(),
        ensures
            final(self).wf(),
            final(self).content() == old(self).content(),
            final(self).line_index().needed() == if lines > old(self).line_index().needed() { lines as nat } else { old(self).line_index().needed() },
    {
        self.lines.set_needed_lines(lines);
    }

    /// Whether a streamed loader must pause now.
    pub fn should_pause(&self) -> (r: bool)
        requires
            self.wf(),
        ensures
            r == (self.line_index().spec_count() >= self.line_index().needed()),
    {
        self.lines.should_pause()
    }
}

/// Every line counted below the reported line count can be read unless a
/// reload is in progress: `line` gives it, with at least one byte.
pub proof fn lemma_listed_lines_readable(f: &File, i: int)
    requires
        f.wf(),
        0 <= i < f.line_index().spec_lines(),
        f.line_index().is_finished() || f.line_index().reload_floor() is None,
    ensures
        spec_line_range(f.line_index().newline_offsets(), f.content().len() as int, i) is Some,
{
    crate::index::lemma_counted_lines_readable(&f.line_index());
}

} // verus!
