//! Plans that are put off, and that a later plan takes the place of.

use vstd::prelude::*;

verus! {

/// A task that is carried out some time after it was last asked for.
#[derive(Debug)]
pub struct DelayedDebounced {
    /// How often the task has been asked for.
    requests: u64,
}

impl View for DelayedDebounced {
    type V = nat;

    closed spec fn view(&self) -> nat {
        self.requests as nat
    }
}

impl DelayedDebounced {
    pub fn new() -> (r: Self)
        ensures
            r@ == 0,
    {
        DelayedDebounced { requests: 0 }
    }

    /// Plans the task anew. Earlier plans that have not been carried out are dropped. What comes
    /// back is the plan, for which a timer is to be started.
    pub fn fire_new(&mut self) -> (r: u64)
        requires
            old(self)@ < u64::MAX,
        ensures
            final(self)@ == old(self)@ + 1,
            r == final(self)@,
    {
        self.requests = self.requests + 1;
        self.requests
    }

    /// Tells, once the timer of a plan has run out, whether the plan is carried out.
    pub fn is_due(&self, plan: u64) -> (r: bool)
        ensures
            r == is_last_plan(self@, plan as nat),
    {
        plan == self.requests
    }
}

/// No later plan has taken the place of this one.
pub open spec fn is_last_plan(requests: nat, plan: nat) -> bool {
    plan == requests
}

/// Of all plans that have been made since, only the last is carried out.
pub proof fn later_plan_takes_the_place(before: nat, after: nat)
    requires
        before < after,
    ensures
        !is_last_plan(after, before),
        is_last_plan(after, after),
{
}

} // verus!
