use vstd::prelude::*;

verus! {

/// Number of key slots the software backend has.
pub const PSA_KEY_SLOT_COUNT: usize = 32;

/// Count of the backend key slots currently held open.
pub struct KeySlots {
    open: usize,
}

impl KeySlots {
    /// Slots held open now.
    pub closed spec fn open_count(&self) -> nat {
        self.open as nat
    }

    pub closed spec fn wf(&self) -> bool {
        self.open <= PSA_KEY_SLOT_COUNT
    }

    pub fn new() -> (r: KeySlots)
        ensures
            r.wf(),
            r.open_count() == 0,
    {
        KeySlots { open: 0 }
    }

    /// Takes a slot if one is free.
    pub fn try_acquire(&mut self) -> (r: bool)
        requires
            old(self).wf(),
        ensures
            final(self).wf(),
            final(self).open_count() <= PSA_KEY_SLOT_COUNT,
            r == (old(self).open_count() < PSA_KEY_SLOT_COUNT),
            r ==> final(self).open_count() == old(self).open_count() + 1,
            !r ==> final(self).open_count() == old(self).open_count(),
    {
        if self.open < PSA_KEY_SLOT_COUNT {
            self.open = self.open + 1;
            true
        } else {
            false
        }
    }

    /// Gives back a slot taken before.
    pub fn release(&mut self)
        requires
            old(self).wf(),
            old(self).open_count() > 0,
        ensures
            final(self).wf(),
            final(self).open_count() == old(self).open_count() - 1,
    {
        self.open = self.open - 1;
    }

    /// Number of slots held open now.
    pub fn in_use(&self) -> (r: usize)
        ensures
            r == self.open_count(),
    {
        self.open
    }
}

} // verus!
