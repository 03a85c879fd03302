//! Refreshes after changes in the working directory.
use vstd::prelude::*;

verus! {

/// How long changes are collected, in milliseconds.
pub const DEBOUNCE: u64 = 2000;

/// Whether the repository has to be looked at again. One refresh is enough,
/// however many changes there were.
#[derive(Clone, Copy, Debug, PartialEq, Eq, Structural)]
pub struct RefreshSlot {
    pub pending: bool,
}

impl RefreshSlot {
    /// Nothing has changed yet.
    pub fn new() -> (r: RefreshSlot)
        ensures
            !r.pending,
    {
        RefreshSlot { pending: false }
    }

    /// The slot after some changes.
    pub open spec fn after(self, changes: int) -> RefreshSlot {
        RefreshSlot { pending: self.pending || changes > 0 }
    }

    /// Note that there were some changes.
    pub fn changed(&mut self, changes: usize)
        ensures
            *final(self) == old(self).after(changes as int),
    {
        if changes > 0 {
            self.pending = true;
        }
    }

    /// Tells whether a refresh is due, which is taken to be done then.
    pub fn take(&mut self) -> (r: bool)
        ensures
            r == old(self).pending,
            !final(self).pending,
    {
        let r = self.pending;
        self.pending = false;
        r
    }
}

/// Several changes in a row lead to one refresh, like all of them at once.
pub proof fn lemma_one_refresh_is_enough(slot: RefreshSlot, a: int, b: int)
    requires
        0 <= a,
        0 <= b,
    ensures
        slot.after(a).after(b) == slot.after(a + b),
{
}

/// A refresh is wanted exactly if something has changed since the last one.
pub proof fn lemma_changes_want_a_refresh(slot: RefreshSlot, changes: int)
    requires
        0 <= changes,
    ensures
        changes > 0 ==> slot.after(changes).pending,
        slot.after(0).pending == slot.pending,
        slot.pending ==> slot.after(changes).pending,
{
}

} // verus!
