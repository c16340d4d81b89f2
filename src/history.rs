//! The history of the values entered at a prompt.
//!
//! Each entry holds the text stored for it (if it came from the history
//! file) and, once the user has visited it, an editable state.  The last
//! entry is the new value being typed.
use vstd::prelude::*;

use crate::prompt::{PromptAction, PromptState, MAX_PROMPT_CHARS};
use crate::text::text_eq;

verus! {

/// The number of entries kept in a history file.
pub const HISTORY_LENGTH: usize = 1000;

/// One entry of a prompt history.
pub struct HistoryEntry {
    /// The text stored for the entry.
    pub stored: Option<String>,
    /// The state of the entry once visited.
    pub state: Option<PromptState>,
}

impl HistoryEntry {
    /// The state an entry gets when first visited: its stored text, or an
    /// empty prompt.
    pub open spec fn activated_state(&self, st: PromptState) -> bool {
        &&& st.wf()
        &&& match self.stored {
            Some(s) => st.chars() == s@ && st.spec_position() == s@.len(),
            None => st.chars() == Seq::<char>::empty() && st.spec_position() == 0,
        }
    }

    /// The entry is consistent: its stored text fits a prompt, and its
    /// state, if any, is consistent.
    pub open spec fn wf(&self) -> bool {
        &&& (self.stored matches Some(s) ==> s@.len() <= MAX_PROMPT_CHARS)
        &&& (self.state matches Some(st) ==> st.wf())
    }

    /// A new entry, being typed.
    pub fn new() -> (r: HistoryEntry)
        ensures
            r.wf(),
            r.stored is None,
            r.state matches Some(st) && st.chars() == Seq::<char>::empty(),
    {
        HistoryEntry { stored: None, state: Some(PromptState::new()) }
    }

    /// An entry read from the history file, not yet visited.
    pub fn load(data: String) -> (r: HistoryEntry)
        requires
            data@.len() <= MAX_PROMPT_CHARS,
        ensures
            r.wf(),
            r.stored == Some(data),
            r.state is None,
    {
        HistoryEntry { stored: Some(data), state: None }
    }

    /// The text of the entry's state, if it has been visited.
    pub fn save(&self) -> (r: Option<String>)
        ensures
            r is Some <==> self.state is Some,
            r is Some ==> r->0@ == self.state->0.chars(),
    {
        match &self.state {
            Some(state) => Some(state.save()),
            None => None,
        }
    }

    /// The state of a visited entry.
    pub fn state(&self) -> (r: &PromptState)
        requires
            self.state is Some,
        ensures
            Some(*r) == self.state,
    {
        self.state.as_ref().unwrap()
    }

    /// The state of a visited entry, to edit it.
    pub fn state_mut(&mut self) -> (r: &mut PromptState)
        requires
            old(self).state is Some,
        ensures
            Some(*r) == old(self).state,
            final(self).stored == old(self).stored,
            final(self).state == Some(*final(r)),
    {
        self.state.as_mut().unwrap()
    }

    /// Give the entry its state, if it has none yet.
    pub fn activate(&mut self)
        requires
            old(self).wf(),
        ensures
            final(self).wf(),
            final(self).stored == old(self).stored,
            old(self).state is Some ==> final(self).state == old(self).state,
            old(self).state is None ==> final(self).state is Some && old(self).activated_state(final(self).state->0),
    {
        if self.state.is_none() {
            let st = match &self.stored {
                Some(stored) => PromptState::load(stored.as_str()),
                None => PromptState::new(),
            };
            self.state = Some(st);
        }
    }
}

/// The history of one prompt.
pub struct PromptHistory {
    ident: String,
    entries: Vec<HistoryEntry>,
    active_index: usize,
}

impl PromptHistory {
    /// The entries, oldest first.
    pub closed spec fn spec_entries(&self) -> Seq<HistoryEntry> {
        self.entries@
    }

    /// The entry being shown.
    pub closed spec fn spec_active(&self) -> int {
        self.active_index as int
    }

    /// The name of the history.
    pub closed spec fn spec_ident(&self) -> Seq<char> {
        self.ident@
    }

    /// The history is consistent: the shown entry exists and has a state.
    pub open spec fn wf(&self) -> bool {
        &&& 0 <= self.spec_active() < self.spec_entries().len()
        &&& self.spec_entries()[self.spec_active()].state is Some
        &&& forall|i: int| 0 <= i < self.spec_entries().len() ==> (#[trigger] self.spec_entries()[i]).wf()
    }

    /// A history named `ident` with the stored values `stored`, oldest
    /// first, and a new empty entry after them, which is shown.
    pub fn new(ident: String, stored: Vec<String>) -> (r: PromptHistory)
        requires
            forall|i: int| 0 <= i < stored@.len() ==> (#[trigger] stored@[i])@.len() <= MAX_PROMPT_CHARS,
        ensures
            r.wf(),
            r.spec_ident() == ident@,
            r.spec_entries().len() == stored@.len() + 1,
            r.spec_active() == stored@.len(),
            forall|i: int| 0 <= i < stored@.len() ==> (#[trigger] r.spec_entries()[i]).stored == Some(stored@[i])
                && r.spec_entries()[i].state is None,
            r.spec_entries()[stored@.len() as int].stored is None,
            r.spec_entries()[stored@.len() as int].state matches Some(st) && st.chars() == Seq::<char>::empty(),
    {
        let mut entries: Vec<HistoryEntry> = Vec::new();
        let mut rest = stored;
        let ghost all = rest@;
        let mut k: usize = 0;
        while rest.len() > 0
            invariant
                entries@.len() + rest@.len() == all.len(),
                rest@ == all.subrange(entries@.len() as int, all.len() as int),
                forall|i: int| 0 <= i < all.len() ==> (#[trigger] all[i])@.len() <= MAX_PROMPT_CHARS,
                forall|i: int| 0 <= i < entries@.len() ==> (#[trigger] entries@[i]).stored == Some(all[i])
                    && entries@[i].state is None && entries@[i].wf(),
            decreases rest@.len(),
        {
            let ghost before = rest@;
            let line = rest.remove(0);
            proof {
                assert(line == all[entries@.len() as int]);
            }
            entries.push(HistoryEntry::load(line));
            proof {
                assert(rest@ =~= all.subrange(entries@.len() as int, all.len() as int));
            }
        }
        let active_index = entries.len();
        entries.push(HistoryEntry::new());
        PromptHistory { ident, entries, active_index }
    }

    /// The name of the history.
    pub fn ident(&self) -> (r: &String)
        ensures
            r@ == self.spec_ident(),
    {
        &self.ident
    }

    /// The state of the entry being shown.
    pub fn state(&self) -> (r: &PromptState)
        requires
            self.wf(),
        ensures
            Some(*r) == self.spec_entries()[self.spec_active()].state,
    {
        self.entries[self.active_index].state.as_ref().unwrap()
    }

    /// The state of the entry being shown, to edit it.
    pub fn state_mut(&mut self) -> (r: &mut PromptState)
        requires
            old(self).wf(),
        ensures
            Some(*r) == old(self).spec_entries()[old(self).spec_active()].state,
            final(self).spec_active() == old(self).spec_active(),
            final(self).spec_ident() == old(self).spec_ident(),
            final(self).spec_entries() == old(self).spec_entries().update(old(self).spec_active(), HistoryEntry {
                stored: old(self).spec_entries()[old(self).spec_active()].stored,
                state: Some(*final(r)),
            }),
    {
        let i = self.active_index;
        self.entries[i].state.as_mut().unwrap()
    }

    /// Show the previous (older) entry, if there is one.
    pub fn previous(&mut self) -> (r: Option<PromptAction>)
        requires
            old(self).wf(),
        ensures
            final(self).wf(),
            final(self).spec_entries().len() == old(self).spec_entries().len(),
            old(self).spec_active() > 0 ==> r == Some(PromptAction::RefreshPrompt)
                && final(self).spec_active() == old(self).spec_active() - 1
                && activated(old(self).spec_entries()[final(self).spec_active()], final(self).spec_entries()[final(self).spec_active()]),
            old(self).spec_active() == 0 ==> r is None && final(self).spec_active() == 0,
            forall|i: int| 0 <= i < old(self).spec_entries().len() && i != final(self).spec_active()
                ==> #[trigger] final(self).spec_entries()[i] == old(self).spec_entries()[i],
    {
        if self.active_index > 0 {
            self.active_index = self.active_index - 1;
            self.activate_current();
            Some(PromptAction::RefreshPrompt)
        } else {
            None
        }
    }

    /// Show the next (newer) entry, if there is one.
    pub fn next(&mut self) -> (r: Option<PromptAction>)
        requires
            old(self).wf(),
        ensures
            final(self).wf(),
            final(self).spec_entries().len() == old(self).spec_entries().len(),
            old(self).spec_active() < old(self).spec_entries().len() - 1 ==> r == Some(PromptAction::RefreshPrompt)
                && final(self).spec_active() == old(self).spec_active() + 1
                && activated(old(self).spec_entries()[final(self).spec_active()], final(self).spec_entries()[final(self).spec_active()]),
            old(self).spec_active() == old(self).spec_entries().len() - 1 ==> r is None && final(self).spec_active() == old(self).spec_active(),
            forall|i: int| 0 <= i < old(self).spec_entries().len() && i != final(self).spec_active()
                ==> #[trigger] final(self).spec_entries()[i] == old(self).spec_entries()[i],
    {
        if self.active_index < self.entries.len() - 1 {
            self.active_index = self.active_index + 1;
            self.activate_current();
            Some(PromptAction::RefreshPrompt)
        } else {
            None
        }
    }

    fn activate_current(&mut self)
        requires
            0 <= old(self).active_index < old(self).entries@.len(),
            forall|i: int| 0 <= i < old(self).entries@.len() ==> (#[trigger] old(self).entries@[i]).wf(),
        ensures
            final(self).active_index == old(self).active_index,
            final(self).entries@.len() == old(self).entries@.len(),
            final(self).entries@[final(self).active_index as int].state is Some,
            activated(old(self).entries@[old(self).active_index as int], final(self).entries@[old(self).active_index as int]),
            forall|i: int| 0 <= i < old(self).entries@.len() ==> (#[trigger] final(self).entries@[i]).wf(),
            forall|i: int| 0 <= i < old(self).entries@.len() && i != old(self).active_index
                ==> #[trigger] final(self).entries@[i] == old(self).entries@[i],
            final(self).ident == old(self).ident,
    {
        let i = self.active_index;
        let mut entry = self.entries.remove(i);
        entry.activate();
        self.entries.insert(i, entry);
    }

    /// The value to add to the history file when the shown entry is
    /// entered, if any: not an empty value, nor one equal to the newest
    /// stored value.
    pub fn save_data(&self) -> (r: Option<String>)
        requires
            self.wf(),
        ensures
            ({
                let data = self.spec_entries()[self.spec_active()].state->0.chars();
                let n = self.spec_entries().len();
                let repeated = n > 1 && (self.spec_entries()[n - 2].stored is Some && self.spec_entries()[n - 2].stored->0@ == data);
                if data.len() == 0 || repeated {
                    r is None
                } else {
                    r is Some && r->0@ == data
                }
            }),
    {
        let data = match self.entries[self.active_index].save() {
            Some(d) => d,
            None => {
                return None;
            },
        };
        if data.as_str().unicode_len() == 0 {
            return None;
        }
        let n = self.entries.len();
        if n > 1 {
            match &self.entries[n - 2].stored {
                Some(previous) => {
                    if text_eq(data.as_str(), previous.as_str()) {
                        return None;
                    }
                },
                None => {},
            }
        }
        Some(data)
    }

    /// The number of lines of the history file to drop when a value is
    /// added, so that it keeps at most `HISTORY_LENGTH` entries.
    pub fn lines_to_drop(&self) -> (r: usize)
        ensures
            r == if self.spec_entries().len() > HISTORY_LENGTH { self.spec_entries().len() - HISTORY_LENGTH } else { 0 },
    {
        if self.entries.len() > HISTORY_LENGTH { self.entries.len() - HISTORY_LENGTH } else { 0 }
    }
}

/// `after` is `before` once visited: a state it had stays, else it gets
/// the state of its stored text.
pub open spec fn activated(before: HistoryEntry, after: HistoryEntry) -> bool {
    &&& after.stored == before.stored
    &&& before.state is Some ==> after.state == before.state
    &&& before.state is None ==> after.state is Some && before.activated_state(after.state->0)
}

} // verus!
