//! Controlled files: files whose lines are given and changed by a program.
use vstd::prelude::*;

use std::ops::Range;

verus! {

/// Errors of controlled file operations.
#[derive(Debug)]
pub enum ControlledFileError {
    /// A line number is out of range.
    LineOutOfRange {
        /// The line number that is out of range.
        index: usize,
        /// The number of lines of the file, the limit for the line number.
        length: usize,
    },
}

/// A change to apply to a controlled file.
pub enum Change {
    /// Append a single line to the file.
    AppendLine {
        /// The content of the new line.
        content: Vec<u8>,
    },
    /// Insert a single line into the file.
    InsertLine {
        /// Index of the line in the file to insert before.
        before_index: usize,
        /// The content of the new line.
        content: Vec<u8>,
    },
    /// Replace a single line in the file.
    ReplaceLine {
        /// Index of the line in the file to replace.
        index: usize,
        /// The content of the new line.
        content: Vec<u8>,
    },
    /// Delete a single line from the file.
    DeleteLine {
        /// Index of the line in the file to delete.
        index: usize,
    },
    /// Append multiple lines to the file.
    AppendLines {
        /// The contents of the new lines.
        contents: Vec<Vec<u8>>,
    },
    /// Insert some lines before another line in the file.
    InsertLines {
        /// Index of the line in the file to insert before.
        before_index: usize,
        /// The contents of the new lines.
        contents: Vec<Vec<u8>>,
    },
    /// Replace a range of lines with other lines; the two counts may differ.
    ReplaceLines {
        /// The range of lines in the file to replace.
        range: Range<usize>,
        /// The contents of the new lines.
        contents: Vec<Vec<u8>>,
    },
    /// Delete a range of lines in the file.
    DeleteLines {
        /// The range of lines in the file to delete.
        range: Range<usize>,
    },
}

/// The lines of a list of line contents.
pub open spec fn lines_of(v: Seq<Vec<u8>>) -> Seq<Seq<u8>> {
    v.map_values(|l: Vec<u8>| l@)
}

/// The line number that makes a range of lines invalid for a file of
/// `length` lines, if any: its end when past the file, else its start when
/// after its end.
pub open spec fn bad_range(start: usize, end: usize, length: usize) -> Option<usize> {
    if end > length {
        Some(end)
    } else if start > end {
        Some(start)
    } else {
        None
    }
}

/// The lines of a file after a change, or the line number that makes the
/// change fail.
pub open spec fn changed(lines: Seq<Seq<u8>>, change: Change) -> Result<Seq<Seq<u8>>, usize> {
    let n = lines.len();
    match change {
        Change::AppendLine { content } => Ok(lines.push(content@)),
        Change::InsertLine { before_index, content } => if before_index > n {
            Err(before_index)
        } else {
            Ok(lines.insert(before_index as int, content@))
        },
        Change::ReplaceLine { index, content } => if index >= n {
            Err(index)
        } else {
            Ok(lines.update(index as int, content@))
        },
        Change::DeleteLine { index } => if index >= n {
            Err(index)
        } else {
            Ok(lines.remove(index as int))
        },
        Change::AppendLines { contents } => Ok(lines + lines_of(contents@)),
        Change::InsertLines { before_index, contents } => if before_index > n {
            Err(before_index)
        } else {
            Ok(lines.subrange(0, before_index as int) + lines_of(contents@) + lines.subrange(before_index as int, n as int))
        },
        Change::ReplaceLines { range, contents } => match bad_range(range.start, range.end, n as usize) {
            Some(i) => Err(i),
            None => Ok(lines.subrange(0, range.start as int) + lines_of(contents@) + lines.subrange(range.end as int, n as int)),
        },
        Change::DeleteLines { range } => match bad_range(range.start, range.end, n as usize) {
            Some(i) => Err(i),
            None => Ok(lines.subrange(0, range.start as int) + lines.subrange(range.end as int, n as int)),
        },
    }
}

/// The lines of a file after a sequence of changes, stopping at the first
/// change that fails: the lines reached so far, and the failing line number.
pub open spec fn changed_all(lines: Seq<Seq<u8>>, changes: Seq<Change>) -> (Seq<Seq<u8>>, Option<usize>)
    decreases changes.len(),
{
    if changes.len() == 0 {
        (lines, None)
    } else {
        match changed(lines, changes[0]) {
            Ok(next) => changed_all(next, changes.drop_first()),
            Err(i) => (lines, Some(i)),
        }
    }
}

/// The lines of a controlled file, and the files that show it.
pub struct Controller {
    lines: Vec<Vec<u8>>,
    subscribers: Vec<usize>,
}

impl Controller {
    /// The lines of the file.
    pub closed spec fn spec_lines(&self) -> Seq<Seq<u8>> {
        lines_of(self.lines@)
    }

    /// The indexes of the files that show this file.
    pub closed spec fn spec_subscribers(&self) -> Seq<usize> {
        self.subscribers@
    }

    /// A controller of an empty file.
    pub fn new() -> (r: Controller)
        ensures
            r.spec_lines() == Seq::<Seq<u8>>::empty(),
            r.spec_subscribers() == Seq::<usize>::empty(),
    {
        let r = Controller { lines: Vec::new(), subscribers: Vec::new() };
        proof {
            assert(lines_of(r.lines@) =~= Seq::<Seq<u8>>::empty());
        }
        r
    }

    /// Record that the file with index `index` shows this file, so that it
    /// is told of changes.
    pub fn subscribe(&mut self, index: usize)
        ensures
            final(self).spec_lines() == old(self).spec_lines(),
            final(self).spec_subscribers() == old(self).spec_subscribers().push(index),
    {
        self.subscribers.push(index);
    }

    /// The indexes of the files that show this file, in the order they
    /// subscribed.
    pub fn subscribers(&self) -> (r: &Vec<usize>)
        ensures
            r@ == self.spec_subscribers(),
    {
        &self.subscribers
    }

    /// The number of lines of the file.
    pub fn lines(&self) -> (r: usize)
        ensures
            r == self.spec_lines().len(),
    {
        self.lines.len()
    }

    /// The content of line `index`, if there is such a line.
    pub fn line(&self, index: usize) -> (r: Option<&[u8]>)
        ensures
            r is Some <==> index < self.spec_lines().len(),
            r is Some ==> r->0@ == self.spec_lines()[index as int],
    {
        if index < self.lines.len() {
            Some(self.lines[index].as_slice())
        } else {
            None
        }
    }

    /// Run `call` on the content of line `index`, if there is such a line.
    pub fn with_line<T, F: Fn(&[u8]) -> T>(&self, index: usize, call: F) -> (r: Option<T>)
        requires
            forall|s: &[u8]| #[trigger] call.requires((s,)),
        ensures
            r is Some <==> index < self.spec_lines().len(),
            forall|v: T| r == Some(v) ==> exists|s: &[u8]| #[trigger] call.ensures((s,), v) && s@ == self.spec_lines()[index as int],
    {
        match self.line(index) {
            Some(bytes) => Some(call(bytes)),
            None => None,
        }
    }

    /// Apply one change.  On an error the file is unchanged.
    pub fn apply_change(&mut self, change: Change) -> (r: Result<(), ControlledFileError>)
        ensures
            match changed(old(self).spec_lines(), change) {
                Ok(lines) => r is Ok && final(self).spec_lines() == lines,
                Err(i) => r == Err::<(), ControlledFileError>(ControlledFileError::LineOutOfRange { index: i, length: old(self).spec_lines().len() as usize })
                    && final(self).spec_lines() == old(self).spec_lines(),
            },
            final(self).spec_subscribers() == old(self).spec_subscribers(),
    {
        let length = self.lines.len();
        let ghost before = self.lines@;
        match change {
            Change::AppendLine { content } => {
                self.lines.push(content);
                proof {
                    assert(lines_of(self.lines@) =~= lines_of(before).push(self.lines@.last()@));
                }
            },
            Change::InsertLine { before_index, content } => {
                if before_index > length {
                    return Err(ControlledFileError::LineOutOfRange { index: before_index, length });
                }
                let ghost c = content@;
                self.lines.insert(before_index, content);
                proof {
                    assert(lines_of(self.lines@) =~= lines_of(before).insert(before_index as int, c));
                }
            },
            Change::ReplaceLine { index, content } => {
                if index >= length {
                    return Err(ControlledFileError::LineOutOfRange { index, length });
                }
                let ghost c = content@;
                self.lines.remove(index);
                self.lines.insert(index, content);
                proof {
                    assert(lines_of(self.lines@) =~= lines_of(before).update(index as int, c));
                }
            },
            Change::DeleteLine { index } => {
                if index >= length {
                    return Err(ControlledFileError::LineOutOfRange { index, length });
                }
                self.lines.remove(index);
                proof {
                    assert(lines_of(self.lines@) =~= lines_of(before).remove(index as int));
                }
            },
            Change::AppendLines { contents } => {
                let ghost c = contents@;
                let mut contents = contents;
                self.lines.append(&mut contents);
                proof {
                    assert(lines_of(self.lines@) =~= lines_of(before) + lines_of(c));
                }
            },
            Change::InsertLines { before_index, contents } => {
                if before_index > length {
                    return Err(ControlledFileError::LineOutOfRange { index: before_index, length });
                }
                let ghost c = contents@;
                let mut contents = contents;
                let mut tail = self.lines.split_off(before_index);
                self.lines.append(&mut contents);
                self.lines.append(&mut tail);
                proof {
                    assert(lines_of(self.lines@) =~= lines_of(before).subrange(0, before_index as int) + lines_of(c)
                        + lines_of(before).subrange(before_index as int, length as int));
                }
            },
            Change::ReplaceLines { range, contents } => {
                if range.end > length {
                    return Err(ControlledFileError::LineOutOfRange { index: range.end, length });
                }
                if range.start > range.end {
                    return Err(ControlledFileError::LineOutOfRange { index: range.start, length });
                }
                let ghost c = contents@;
                let mut contents = contents;
                let mut tail = self.lines.split_off(range.end);
                self.lines.truncate(range.start);
                self.lines.append(&mut contents);
                self.lines.append(&mut tail);
                proof {
                    assert(lines_of(self.lines@) =~= lines_of(before).subrange(0, range.start as int) + lines_of(c)
                        + lines_of(before).subrange(range.end as int, length as int));
                }
            },
            Change::DeleteLines { range } => {
                if range.end > length {
                    return Err(ControlledFileError::LineOutOfRange { index: range.end, length });
                }
                if range.start > range.end {
                    return Err(ControlledFileError::LineOutOfRange { index: range.start, length });
                }
                let mut tail = self.lines.split_off(range.end);
                self.lines.truncate(range.start);
                self.lines.append(&mut tail);
                proof {
                    assert(lines_of(self.lines@) =~= lines_of(before).subrange(0, range.start as int)
                        + lines_of(before).subrange(range.end as int, length as int));
                }
            },
        }
        Ok(())
    }

    /// Apply a sequence of changes in order.  At the first change that fails
    /// the error is returned, and the changes before it stay applied.  On
    /// success the result lists the files that show this file, each of
    /// which must be sent one `Reloading` event.
    pub fn apply_changes(&mut self, changes: Vec<Change>) -> (r: Result<Vec<usize>, ControlledFileError>)
        ensures
            final(self).spec_lines() == changed_all(old(self).spec_lines(), changes@).0,
            match changed_all(old(self).spec_lines(), changes@).1 {
                None => r is Ok && r->Ok_0@ == old(self).spec_subscribers(),
                Some(i) => r == Err::<Vec<usize>, ControlledFileError>(ControlledFileError::LineOutOfRange {
                    index: i,
                    length: changed_all(old(self).spec_lines(), changes@).0.len() as usize,
                }),
            },
            final(self).spec_subscribers() == old(self).spec_subscribers(),
    {
        let mut rest = changes;
        while rest.len() > 0
            invariant
                changed_all(self.spec_lines(), rest@) == changed_all(old(self).spec_lines(), changes@),
                self.spec_subscribers() == old(self).spec_subscribers(),
            decreases rest@.len(),
        {
            let ghost seq = rest@;
            let ghost current = self.spec_lines();
            let change = rest.remove(0);
            proof {
                assert(rest@ == seq.drop_first());
            }
            let result = self.apply_change(change);
            match result {
                Err(e) => {
                    proof {
                        let i = match changed(current, seq[0]) { Err(i) => i, Ok(_) => 0 };
                        assert(seq.len() > 0);
                        assert(changed_all(current, seq) == (current, Some(i)));
                    }
                    return Err(e);
                },
                Ok(()) => {},
            }
        }
        Ok(self.subscribers.clone())
    }
}

} // verus!
