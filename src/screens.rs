//! The screens of the pager: one per file, and an overlay (such as the
//! help screen) shown above them.
use vstd::prelude::*;

verus! {

/// The screens of the files, the overlay if any, and which is shown.
pub struct Screens<S> {
    screens: Vec<S>,
    overlay: Option<S>,
    current_index: usize,
    overlay_index: usize,
}

impl<S> Screens<S> {
    /// The screens of the files, in order.
    pub closed spec fn files(&self) -> Seq<S> {
        self.screens@
    }

    /// The overlay screen, if one is shown.
    pub closed spec fn spec_overlay(&self) -> Option<S> {
        self.overlay
    }

    /// The index of the file whose screen is shown under any overlay.
    pub closed spec fn spec_current(&self) -> int {
        self.current_index as int
    }

    /// The index the overlay screen answers to: above those of the files.
    pub closed spec fn spec_overlay_index(&self) -> int {
        self.overlay_index as int
    }

    /// The shown file exists, and the overlay's index is above the files'.
    pub open spec fn wf(&self) -> bool {
        &&& 0 <= self.spec_current() < self.files().len()
        &&& self.spec_overlay_index() >= self.files().len()
    }

    /// The screens of the files, showing the first.
    pub fn new(screens: Vec<S>) -> (r: Screens<S>)
        requires
            screens@.len() > 0,
        ensures
            r.wf(),
            r.files() == screens@,
            r.spec_overlay() is None,
            r.spec_current() == 0,
            r.spec_overlay_index() == screens@.len(),
    {
        let count = screens.len();
        Screens { screens, overlay: None, current_index: 0, overlay_index: count }
    }

    /// Whether the screen with this index is the one shown.
    pub fn is_current_index(&self, index: usize) -> (r: bool)
        ensures
            r == match self.spec_overlay() {
                Some(_) => index == self.spec_overlay_index(),
                None => index == self.spec_current(),
            },
    {
        match self.overlay {
            Some(_) => index == self.overlay_index,
            None => index == self.current_index,
        }
    }

    /// The index of the file shown under any overlay.
    pub fn current_index(&self) -> (r: usize)
        ensures
            r == self.spec_current(),
    {
        self.current_index
    }

    /// Whether an overlay is shown.
    pub fn has_overlay(&self) -> (r: bool)
        ensures
            r == self.spec_overlay() is Some,
    {
        self.overlay.is_some()
    }

    /// The screen shown: the overlay if any, else the current file's.
    pub fn current(&mut self) -> (r: &mut S)
        requires
            old(self).wf(),
        ensures
            old(self).spec_overlay() is Some ==> *r == old(self).spec_overlay()->0
                && final(self).spec_overlay() == Some(*final(r))
                && final(self).files() == old(self).files(),
            old(self).spec_overlay() is None ==> *r == old(self).files()[old(self).spec_current()]
                && final(self).files() == old(self).files().update(old(self).spec_current(), *final(r))
                && final(self).spec_overlay() is None,
            final(self).spec_current() == old(self).spec_current(),
            final(self).spec_overlay_index() == old(self).spec_overlay_index(),
    {
        if self.overlay.is_some() {
            self.overlay.as_mut().unwrap()
        } else {
            let i = self.current_index;
            &mut self.screens[i]
        }
    }

    /// Show the next file, if there is one, dropping any overlay.  Returns
    /// whether the shown file changed.
    pub fn next_file(&mut self) -> (r: bool)
        requires
            old(self).wf(),
        ensures
            final(self).wf(),
            final(self).spec_overlay() is None,
            final(self).files() == old(self).files(),
            r == (old(self).spec_current() + 1 < old(self).files().len()),
            final(self).spec_current() == if r { old(self).spec_current() + 1 } else { old(self).spec_current() },
            final(self).spec_overlay_index() == old(self).spec_overlay_index(),
    {
        self.overlay = None;
        if self.current_index < self.screens.len() - 1 {
            self.current_index = self.current_index + 1;
            true
        } else {
            false
        }
    }

    /// Show the previous file, if there is one, dropping any overlay.
    /// Returns whether the shown file changed.
    pub fn previous_file(&mut self) -> (r: bool)
        requires
            old(self).wf(),
        ensures
            final(self).wf(),
            final(self).spec_overlay() is None,
            final(self).files() == old(self).files(),
            r == (old(self).spec_current() > 0),
            final(self).spec_current() == if r { old(self).spec_current() - 1 } else { old(self).spec_current() },
            final(self).spec_overlay_index() == old(self).spec_overlay_index(),
    {
        self.overlay = None;
        if self.current_index > 0 {
            self.current_index = self.current_index - 1;
            true
        } else {
            false
        }
    }

    /// The index a new overlay gets: one above the last.
    pub fn next_overlay_index(&self) -> (r: Option<usize>)
        ensures
            r == if self.spec_overlay_index() < usize::MAX { Some((self.spec_overlay_index() + 1) as usize) } else { None::<usize> },
    {
        if self.overlay_index < usize::MAX { Some(self.overlay_index + 1) } else { None }
    }

    /// Show an overlay screen, which answers to the given index.
    pub fn show_overlay(&mut self, screen: S, index: usize)
        requires
            old(self).wf(),
            index > old(self).spec_overlay_index(),
        ensures
            final(self).wf(),
            final(self).spec_overlay() == Some(screen),
            final(self).spec_overlay_index() == index,
            final(self).files() == old(self).files(),
            final(self).spec_current() == old(self).spec_current(),
    {
        self.overlay = Some(screen);
        self.overlay_index = index;
    }

    /// Drop the overlay screen, showing the current file again.
    pub fn clear_overlay(&mut self)
        requires
            old(self).wf(),
        ensures
            final(self).wf(),
            final(self).spec_overlay() is None,
            final(self).files() == old(self).files(),
            final(self).spec_current() == old(self).spec_current(),
            final(self).spec_overlay_index() == old(self).spec_overlay_index(),
    {
        self.overlay = None;
    }

    /// The screen with this index: the overlay's, or a file's.
    pub fn get(&mut self, index: usize) -> (r: Option<&mut S>)
        requires
            old(self).wf(),
        ensures
            index == old(self).spec_overlay_index() ==> (r is Some <==> old(self).spec_overlay() is Some),
            index != old(self).spec_overlay_index() ==> (r is Some <==> index < old(self).files().len()),
            final(self).spec_current() == old(self).spec_current(),
            final(self).spec_overlay_index() == old(self).spec_overlay_index(),
            final(self).files().len() == old(self).files().len(),
    {
        if index == self.overlay_index {
            self.overlay.as_mut()
        } else if index < self.screens.len() {
            Some(&mut self.screens[index])
        } else {
            None
        }
    }
}

} // verus!
