//! Byte budgets with explicit release.

use vstd::prelude::*;

verus! {

/// A bound on bytes held at once.
pub struct Budget {
    max: usize,
    used: usize,
}

impl Budget {
    pub closed spec fn spec_max(self) -> usize {
        self.max
    }

    pub closed spec fn spec_used(self) -> usize {
        self.used
    }

    /// What is held never exceeds the bound.
    pub open spec fn wf(self) -> bool {
        self.spec_used() <= self.spec_max()
    }

    pub fn new(max: usize) -> (b: Budget)
        ensures
            b.wf(),
            b.spec_max() == max,
            b.spec_used() == 0,
    {
        Budget { max, used: 0 }
    }

    pub fn max(&self) -> (m: usize)
        ensures
            m == self.spec_max(),
    {
        self.max
    }

    pub fn used(&self) -> (u: usize)
        ensures
            u == self.spec_used(),
    {
        self.used
    }

    /// Takes `bytes` where they fit; a refusal changes nothing.
    pub fn try_reserve(&mut self, bytes: usize) -> (ok: bool)
        requires
            old(self).wf(),
        ensures
            final(self).wf(),
            final(self).spec_max() == old(self).spec_max(),
            ok == (old(self).spec_used() + bytes <= old(self).spec_max()),
            !ok ==> *final(self) == *old(self),
            final(self).spec_used() == (if ok {
                (old(self).spec_used() + bytes) as usize
            } else {
                old(self).spec_used()
            }),
    {
        match self.used.checked_add(bytes) {
            None => false,
            Some(next) => {
                if next > self.max {
                    false
                } else {
                    self.used = next;
                    true
                }
            },
        }
    }

    /// Gives back `bytes` of what is held.
    pub fn release(&mut self, bytes: usize)
        requires
            old(self).wf(),
            bytes <= old(self).spec_used(),
        ensures
            final(self).wf(),
            final(self).spec_max() == old(self).spec_max(),
            final(self).spec_used() == old(self).spec_used() - bytes,
    {
        self.used = self.used - bytes;
    }
}

} // verus!
