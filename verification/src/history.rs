//! The patches applied in one session, oldest first, and the one that is
//! current.

use crate::patch::{views, Patch, PatchView};
use vstd::prelude::*;

verus! {

/// Mathematical model of a [`History`].
pub struct HistoryView {
    pub entries: Seq<PatchView>,
    pub current: Option<PatchView>,
}

impl HistoryView {
    /// The history of a session in which nothing was applied yet.
    pub open spec fn empty() -> HistoryView {
        HistoryView { entries: Seq::empty(), current: None }
    }

    /// The history after `patch` was applied.
    pub open spec fn record(self, patch: PatchView) -> HistoryView {
        HistoryView { entries: self.entries.push(patch), current: Some(patch) }
    }

    /// The history after the current patch was bookmarked. Without a
    /// current patch nothing changes.
    pub open spec fn save_current(self) -> HistoryView {
        match self.current {
            Some(patch) => HistoryView { entries: self.entries.push(patch), current: self.current },
            None => self,
        }
    }

    /// The history after the entry at `index` was applied again. Past the
    /// end nothing changes.
    pub open spec fn recall(self, index: int) -> HistoryView {
        if 0 <= index < self.entries.len() {
            HistoryView { entries: self.entries, current: Some(self.entries[index]) }
        } else {
            self
        }
    }

    /// The history after each of `patches` was applied, in order.
    pub open spec fn record_all(self, patches: Seq<PatchView>) -> HistoryView
        decreases patches.len(),
    {
        if patches.len() == 0 {
            self
        } else {
            self.record_all(patches.drop_last()).record(patches.last())
        }
    }
}

/// The session history: every applied patch in the order of application,
/// and the patch applied last. Entries are only ever added at the end.
#[derive(Debug, PartialEq, Eq)]
pub struct History {
    entries: Vec<Patch>,
    current: Option<Patch>,
}

impl View for History {
    type V = HistoryView;

    closed spec fn view(&self) -> HistoryView {
        HistoryView {
            entries: views(self.entries@),
            current: match self.current {
                Some(patch) => Some(patch@),
                None => None,
            },
        }
    }
}

impl History {
    /// A history with no entries and no current patch.
    pub fn new() -> (history: History)
        ensures
            history@ == HistoryView::empty(),
    {
        let history = History { entries: Vec::new(), current: None };
        proof {
            assert(history@.entries =~= Seq::<PatchView>::empty());
        }
        history
    }

    /// Appends `patch` and makes it current. To be called after a switch
    /// to `patch` succeeded.
    pub fn record(&mut self, patch: Patch)
        ensures
            final(self)@ == old(self)@.record(patch@),
    {
        let copy = patch.clone();
        proof {
            assert(views(self.entries@.push(copy)) =~= views(self.entries@).push(patch@));
        }
        self.entries.push(copy);
        self.current = Some(patch);
    }

    /// Appends the current patch once more, as a bookmark; nothing is
    /// sent to the instrument. Returns whether there was a current patch.
    pub fn save_current(&mut self) -> (saved: bool)
        ensures
            final(self)@ == old(self)@.save_current(),
            saved == old(self)@.current.is_some(),
    {
        match &self.current {
            Some(patch) => {
                let copy = patch.clone();
                proof {
                    assert(views(self.entries@.push(copy))
                        =~= views(self.entries@).push(patch@));
                }
                self.entries.push(copy);
                true
            },
            None => false,
        }
    }

    /// Makes the entry at `index` current again without adding an entry.
    /// Returns whether there is such an entry.
    pub fn recall(&mut self, index: usize) -> (found: bool)
        ensures
            final(self)@ == old(self)@.recall(index as int),
            found == (index < old(self)@.entries.len()),
    {
        if index < self.entries.len() {
            let copy = self.entries[index].clone();
            self.current = Some(copy);
            true
        } else {
            false
        }
    }

    /// The patch applied last, if any.
    pub fn current(&self) -> (patch: Option<&Patch>)
        ensures
            patch.is_some() == self@.current.is_some(),
            patch matches Some(p) ==> Some(p@) == self@.current,
    {
        self.current.as_ref()
    }

    /// All entries, oldest first.
    pub fn entries(&self) -> (all: &[Patch])
        ensures
            views(all@) == self@.entries,
    {
        self.entries.as_slice()
    }

    /// The number of entries.
    pub fn len(&self) -> (count: usize)
        ensures
            count == self@.entries.len(),
    {
        self.entries.len()
    }
}

impl Default for History {
    fn default() -> (history: History)
        ensures
            history@ == HistoryView::empty(),
    {
        History::new()
    }
}

/// After the patches of `applied` were recorded in a fresh history, one
/// after the other, the entries are exactly `applied`, in that order, and
/// the current patch is the last of them; with none applied there is no
/// current patch.
pub proof fn lemma_history_is_what_was_recorded(applied: Seq<PatchView>)
    ensures
        HistoryView::empty().record_all(applied).entries == applied,
        HistoryView::empty().record_all(applied).current == if applied.len() == 0 {
            None::<PatchView>
        } else {
            Some(applied.last())
        },
    decreases applied.len(),
{
    if applied.len() > 0 {
        lemma_history_is_what_was_recorded(applied.drop_last());
    }
}

/// No operation removes or reorders entries: what was in the history
/// before is a prefix of what is in it after.
pub proof fn lemma_history_only_grows(before: HistoryView, patch: PatchView, index: int)
    ensures
        before.entries == before.record(patch).entries.take(before.entries.len() as int),
        before.entries == before.save_current().entries.take(before.entries.len() as int),
        before.entries == before.recall(index).entries,
{
}

} // verus!
