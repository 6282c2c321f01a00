//! The count of whole seconds elapsed since the ticking started.

use vstd::prelude::*;

verus! {

/// Elapsed whole seconds: starts at zero and only ever grows by one.
pub struct ElapsedCounter {
    value: u64,
}

impl View for ElapsedCounter {
    type V = nat;

    closed spec fn view(&self) -> nat {
        self.value as nat
    }
}

impl ElapsedCounter {
    pub fn new() -> (r: ElapsedCounter)
        ensures
            r@ == 0,
    {
        ElapsedCounter { value: 0 }
    }

    /// One second has passed. The count stays at its maximum rather than
    /// wrapping round.
    pub fn tick(&mut self)
        ensures
            old(self)@ < u64::MAX ==> final(self)@ == old(self)@ + 1,
            old(self)@ == u64::MAX ==> final(self)@ == old(self)@,
    {
        self.value = self.value.saturating_add(1);
    }

    pub fn get(&self) -> (r: u64)
        ensures
            r == self@,
    {
        self.value
    }
}

} // verus!
