//! Decisions of the direct mode, which streams output to the terminal
//! before (and possibly instead of) entering the full screen.
//!
//! Lines are shown in this order: the output (append only, never redrawn),
//! the error lines (redrawn each time), then the progress block (replaced
//! each time).
use vstd::prelude::*;

use crate::config::InterfaceMode;

verus! {

/// How the direct mode ended.
#[derive(Clone, Copy, Debug, PartialEq, Eq, Structural)]
pub enum Outcome {
    /// Content is not completely rendered: a hint to enter full screen.
    RenderIncomplete,
    /// Content is not rendered at all: a hint to enter full screen.
    RenderNothing,
    /// Content is completely rendered.
    RenderComplete,
    /// The user pressed a key to exit.
    Interrupted,
}

/// The keys the direct mode reacts to.
#[derive(Clone, Copy, Debug, PartialEq, Eq, Structural)]
pub enum DirectKey {
    /// `q` or Ctrl-C.
    Quit,
    /// `f` or space: go to the full screen now.
    FullScreen,
    /// Any other key.
    Other,
}

/// The policy of a direct mode session for one interface mode.
#[derive(Clone, Copy, Debug, PartialEq, Eq, Structural)]
pub struct DirectPolicy {
    /// Output is buffered until it is known to fit (`Delayed`).
    pub delayed: bool,
    /// Going past one screen ends the session (all but `Direct`).
    pub one_screen_limit: bool,
}

impl DirectPolicy {
    /// The policy for an interface mode, or the outcome at once for the
    /// full screen mode, which shows nothing directly.
    pub fn for_mode(mode: InterfaceMode) -> (r: Result<DirectPolicy, Outcome>)
        ensures
            mode is FullScreen ==> r == Err::<DirectPolicy, Outcome>(Outcome::RenderNothing),
            !(mode is FullScreen) ==> r == Ok::<DirectPolicy, Outcome>(DirectPolicy {
                delayed: mode is Delayed,
                one_screen_limit: !(mode is Direct),
            }),
    {
        match mode {
            InterfaceMode::FullScreen => Err(Outcome::RenderNothing),
            InterfaceMode::Direct => Ok(DirectPolicy { delayed: false, one_screen_limit: false }),
            InterfaceMode::Hybrid => Ok(DirectPolicy { delayed: false, one_screen_limit: true }),
            InterfaceMode::Delayed(_) => Ok(DirectPolicy { delayed: true, one_screen_limit: true }),
        }
    }

    /// The outcome of a key press, if it ends the session.
    pub fn on_key(&self, key: DirectKey) -> (r: Option<Outcome>)
        ensures
            key is Quit ==> r == Some(Outcome::Interrupted),
            key is FullScreen ==> r == Some(if self.delayed { Outcome::RenderNothing } else { Outcome::RenderIncomplete }),
            key is Other ==> r is None,
    {
        match key {
            DirectKey::Quit => Some(Outcome::Interrupted),
            DirectKey::FullScreen => Some(if self.delayed { Outcome::RenderNothing } else { Outcome::RenderIncomplete }),
            DirectKey::Other => None,
        }
    }

    /// The outcome once the delay has run out, if it ends the session.
    pub fn on_deadline(&self, expired: bool) -> (r: Option<Outcome>)
        ensures
            r == if self.delayed && expired { Some(Outcome::RenderNothing) } else { None },
    {
        if self.delayed && expired { Some(Outcome::RenderNothing) } else { None }
    }

    /// The outcome once the content is `height` rows high on a screen of
    /// `rows` rows, if it ends the session: content that fills the screen
    /// goes to the full screen, unrendered when delayed.
    pub fn on_height(&self, height: usize, rows: usize) -> (r: Option<Outcome>)
        ensures
            r == if self.one_screen_limit && height >= rows {
                Some(if self.delayed { Outcome::RenderNothing } else { Outcome::RenderIncomplete })
            } else {
                None
            },
    {
        if self.one_screen_limit && height >= rows {
            Some(if self.delayed { Outcome::RenderNothing } else { Outcome::RenderIncomplete })
        } else {
            None
        }
    }
}

/// The lines of a file that a tick of the direct mode reads: from the
/// first line not yet read, at most `max_lines` of them, leaving out an
/// unterminated last line while the file is still loading.  `None` when the
/// file has fewer lines than were read.
pub open spec fn spec_unread(lines: int, last: int, loaded: bool, last_terminated: bool, max_lines: int) -> Option<(int, int)> {
    let complete = if lines > 0 && !loaded && !last_terminated { lines - 1 } else { lines };
    if complete >= last {
        Some((last, if last + max_lines < complete { last + max_lines } else { complete }))
    } else {
        None
    }
}

/// The range of lines of a file to read in a tick of the direct mode.
pub fn unread_range(lines: usize, last: usize, loaded: bool, last_terminated: bool, max_lines: usize) -> (r: Option<(usize, usize)>)
    ensures
        match r {
            Some((start, end)) => spec_unread(lines as int, last as int, loaded, last_terminated, max_lines as int) == Some((start as int, end as int)),
            None => spec_unread(lines as int, last as int, loaded, last_terminated, max_lines as int) is None,
        },
{
    let complete = if lines > 0 && !loaded && !last_terminated { lines - 1 } else { lines };
    if complete >= last {
        let end = if max_lines < complete - last { last + max_lines } else { complete };
        Some((last, end))
    } else {
        None
    }
}

/// Which input files have finished loading, to know when all of them have.
pub struct LoadTracker {
    loaded: Vec<usize>,
    remaining: usize,
}

impl LoadTracker {
    /// The indexes of the files known to be loaded.
    pub closed spec fn seen(&self) -> Set<usize> {
        self.loaded@.to_set()
    }

    /// The number of files still loading.
    pub closed spec fn spec_remaining(&self) -> nat {
        self.remaining as nat
    }

    /// A tracker of `files` files, none loaded.
    pub fn new(files: usize) -> (r: LoadTracker)
        ensures
            r.seen() == Set::<usize>::empty(),
            r.spec_remaining() == files,
    {
        let r = LoadTracker { loaded: Vec::new(), remaining: files };
        proof {
            assert(r.loaded@.to_set() =~= Set::<usize>::empty());
        }
        r
    }

    /// Record that file `index` has loaded.  A file counts once.
    pub fn on_loaded(&mut self, index: usize)
        ensures
            final(self).seen() == old(self).seen().insert(index),
            old(self).seen().contains(index) ==> final(self).spec_remaining() == old(self).spec_remaining(),
            !old(self).seen().contains(index) && old(self).spec_remaining() > 0 ==> final(self).spec_remaining() == old(self).spec_remaining() - 1,
            !old(self).seen().contains(index) && old(self).spec_remaining() == 0 ==> final(self).spec_remaining() == 0,
    {
        let mut i: usize = 0;
        while i < self.loaded.len()
            invariant
                i <= self.loaded@.len(),
                self.loaded@ == old(self).loaded@,
                self.remaining == old(self).remaining,
                forall|j: int| 0 <= j < i ==> self.loaded@[j] != index,
            decreases self.loaded@.len() - i,
        {
            if self.loaded[i] == index {
                proof {
                    assert(self.loaded@.to_set().contains(index));
                    assert(self.loaded@.to_set().insert(index) =~= self.loaded@.to_set());
                }
                return;
            }
            i = i + 1;
        }
        proof {
            assert(!self.loaded@.contains(index));
        }
        let ghost before = self.loaded@;
        self.loaded.push(index);
        proof {
            assert(self.loaded@.to_set() =~= before.to_set().insert(index)) by {
                assert forall|v: usize| before.to_set().insert(index).contains(v) implies self.loaded@.to_set().contains(v) by {
                    if v == index {
                        assert(self.loaded@[before.len() as int] == index);
                    } else if before.contains(v) {
                        let k = choose|k: int| 0 <= k < before.len() && before[k] == v;
                        assert(self.loaded@[k] == v);
                    }
                }
                assert forall|v: usize| self.loaded@.to_set().contains(v) implies before.to_set().insert(index).contains(v) by {
                    if self.loaded@.contains(v) && v != index {
                        let k = choose|k: int| 0 <= k < self.loaded@.len() && self.loaded@[k] == v;
                        assert(k < before.len());
                        assert(before[k] == v);
                    }
                }
            }
        }
        if self.remaining > 0 {
            self.remaining = self.remaining - 1;
        }
    }

    /// Whether every file has loaded.
    pub fn all_loaded(&self) -> (r: bool)
        ensures
            r == (self.spec_remaining() == 0),
    {
        self.remaining == 0
    }
}

/// The lines shown by the direct mode so far.
///
/// ```text
/// past output (never redrawn)
/// new output (just received)
/// error lines (always redrawn)
/// progress (always redrawn)
/// ```
pub struct StreamingLines {
    past_output_line_count: usize,
    past_output_lines: Vec<Vec<u8>>,
    error_lines: Vec<Vec<u8>>,
    progress_lines: Vec<Vec<u8>>,
}

/// The contents of a list of lines.
pub open spec fn contents(v: Seq<Vec<u8>>) -> Seq<Seq<u8>> {
    v.map_values(|l: Vec<u8>| l@)
}

impl StreamingLines {
    /// The number of output lines already written to the terminal and
    /// no longer held.
    pub closed spec fn past_count(&self) -> nat {
        self.past_output_line_count as nat
    }

    /// The output lines held, not yet written.
    pub closed spec fn output(&self) -> Seq<Seq<u8>> {
        contents(self.past_output_lines@)
    }

    /// The error lines shown.
    pub closed spec fn errors(&self) -> Seq<Seq<u8>> {
        contents(self.error_lines@)
    }

    /// The progress lines shown.
    pub closed spec fn progress(&self) -> Seq<Seq<u8>> {
        contents(self.progress_lines@)
    }

    /// The rows the lines take on the terminal.
    pub open spec fn spec_height(&self) -> int {
        (self.past_count() + self.output().len() + self.errors().len() + self.progress().len()) as int
    }

    /// Nothing shown yet.
    pub fn new() -> (r: StreamingLines)
        ensures
            r.past_count() == 0,
            r.output() == Seq::<Seq<u8>>::empty(),
            r.errors() == Seq::<Seq<u8>>::empty(),
            r.progress() == Seq::<Seq<u8>>::empty(),
    {
        let r = StreamingLines {
            past_output_line_count: 0,
            past_output_lines: Vec::new(),
            error_lines: Vec::new(),
            progress_lines: Vec::new(),
        };
        proof {
            assert(contents(r.past_output_lines@) =~= Seq::<Seq<u8>>::empty());
        }
        r
    }

    /// Record new lines: `past_output_line_count` more output lines written
    /// out, output and error lines appended, and a new progress block.
    pub fn apply_changes(
        &mut self,
        past_output_line_count: usize,
        append_output_lines: Vec<Vec<u8>>,
        append_error_lines: Vec<Vec<u8>>,
        replace_progress_lines: Vec<Vec<u8>>,
    )
        requires
            old(self).past_count() + past_output_line_count <= usize::MAX,
        ensures
            final(self).past_count() == old(self).past_count() + past_output_line_count,
            final(self).output() == old(self).output() + contents(append_output_lines@),
            final(self).errors() == old(self).errors() + contents(append_error_lines@),
            final(self).progress() == contents(replace_progress_lines@),
    {
        let ghost out0 = self.past_output_lines@;
        let ghost err0 = self.error_lines@;
        let mut append_output_lines = append_output_lines;
        let mut append_error_lines = append_error_lines;
        let ghost out1 = append_output_lines@;
        let ghost err1 = append_error_lines@;
        self.past_output_line_count = self.past_output_line_count + past_output_line_count;
        self.past_output_lines.append(&mut append_output_lines);
        self.error_lines.append(&mut append_error_lines);
        self.progress_lines = replace_progress_lines;
        proof {
            assert(contents(self.past_output_lines@) =~= contents(out0) + contents(out1));
            assert(contents(self.error_lines@) =~= contents(err0) + contents(err1));
        }
    }

    /// The rows the lines take on the terminal.
    pub fn height(&self) -> (r: usize)
        requires
            self.spec_height() <= usize::MAX,
        ensures
            r == self.spec_height(),
    {
        self.past_output_line_count + self.past_output_lines.len() + self.error_lines.len() + self.progress_lines.len()
    }

    /// The rows to erase before drawing again: the error lines and the
    /// progress block, which are always redrawn.
    pub fn erase_line_count(&self) -> (r: usize)
        requires
            self.errors().len() + self.progress().len() <= usize::MAX,
        ensures
            r == self.errors().len() + self.progress().len(),
    {
        self.progress_lines.len() + self.error_lines.len()
    }

    /// The error lines shown.
    pub fn error_lines(&self) -> (r: &Vec<Vec<u8>>)
        ensures
            contents(r@) == self.errors(),
    {
        &self.error_lines
    }

    /// The output lines held, not yet written.
    pub fn output_lines(&self) -> (r: &Vec<Vec<u8>>)
        ensures
            contents(r@) == self.output(),
    {
        &self.past_output_lines
    }

    /// The progress lines shown.
    pub fn progress_lines(&self) -> (r: &Vec<Vec<u8>>)
        ensures
            contents(r@) == self.progress(),
    {
        &self.progress_lines
    }

    /// Whether drawing the given changes would change nothing: no new
    /// output or error line, and the same progress block.
    pub fn is_unchanged(&self, append_output_lines: &Vec<Vec<u8>>, append_error_lines: &Vec<Vec<u8>>, replace_progress_lines: &Vec<Vec<u8>>) -> (r: bool)
        ensures
            r == (append_output_lines@.len() == 0 && append_error_lines@.len() == 0
                && contents(replace_progress_lines@) == self.progress()),
    {
        append_output_lines.len() == 0 && append_error_lines.len() == 0
            && lines_equal(replace_progress_lines, &self.progress_lines)
    }
}

/// Whether two lists of lines are equal.
pub fn lines_equal(a: &Vec<Vec<u8>>, b: &Vec<Vec<u8>>) -> (r: bool)
    ensures
        r == (contents(a@) == contents(b@)),
{
    if a.len() != b.len() {
        proof {
            assert(contents(a@).len() != contents(b@).len());
        }
        return false;
    }
    let mut i: usize = 0;
    while i < a.len()
        invariant
            i <= a@.len(),
            a@.len() == b@.len(),
            forall|j: int| 0 <= j < i ==> a@[j]@ == b@[j]@,
        decreases a@.len() - i,
    {
        if !bytes_equal(&a[i], &b[i]) {
            proof {
                assert(contents(a@)[i as int] != contents(b@)[i as int]);
            }
            return false;
        }
        i = i + 1;
    }
    proof {
        assert(contents(a@) =~= contents(b@));
    }
    true
}

/// Whether two byte strings are equal.
pub fn bytes_equal(a: &Vec<u8>, b: &Vec<u8>) -> (r: bool)
    ensures
        r == (a@ == b@),
{
    if a.len() != b.len() {
        return false;
    }
    let mut i: usize = 0;
    while i < a.len()
        invariant
            i <= a@.len(),
            a@.len() == b@.len(),
            forall|j: int| 0 <= j < i ==> a@[j] == b@[j],
        decreases a@.len() - i,
    {
        if a[i] != b[i] {
            return false;
        }
        i = i + 1;
    }
    proof {
        assert(a@ =~= b@);
    }
    true
}

} // verus!
