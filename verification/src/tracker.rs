//! Counting the units of a traversal that are not done yet, and telling, once,
//! when the last of them is.

use vstd::prelude::*;

verus! {

/// The state of a tracker: how many units have entered and not left, and
/// whether the traversal has been declared complete.
pub struct Tracking {
    pub pending: nat,
    pub closed: bool,
}

/// The state after a unit asks to enter: it is counted, unless the traversal
/// is complete already.
pub open spec fn entered(t: Tracking) -> Tracking {
    if t.closed {
        t
    } else {
        Tracking { pending: t.pending + 1, closed: false }
    }
}

/// The state after a unit leaves: it is counted no more, and with the last
/// one the traversal is complete. Where no unit is pending nothing changes.
pub open spec fn left(t: Tracking) -> Tracking {
    if t.pending == 0 {
        t
    } else {
        Tracking { pending: (t.pending - 1) as nat, closed: t.closed || t.pending == 1 }
    }
}

/// Whether the unit that leaves is the one that completes the traversal.
pub open spec fn completes(t: Tracking) -> bool {
    t.pending == 1 && !t.closed
}

/// The count of the units of a traversal that have entered and not left.
pub struct CompletionTracker {
    pending: u128,
    closed: bool,
}

impl View for CompletionTracker {
    type V = Tracking;

    closed spec fn view(&self) -> Tracking {
        Tracking { pending: self.pending as nat, closed: self.closed }
    }
}

impl CompletionTracker {
    /// The largest number of pending units that the tracker can count.
    pub const LIMIT: u128 = u128::MAX;

    /// A complete traversal has no pending unit.
    pub open spec fn wf(&self) -> bool {
        &&& self@.closed ==> self@.pending == 0
        &&& self@.pending <= Self::LIMIT
    }

    /// A tracker with no unit pending, for a traversal that has not begun.
    pub fn new() -> (tracker: CompletionTracker)
        ensures
            tracker.wf(),
            tracker@ == (Tracking { pending: 0, closed: false }),
    {
        CompletionTracker { pending: 0, closed: false }
    }

    /// Counts one more unit. A parent calls this before it hands the child
    /// out. No unit enters a traversal that is complete, and none beyond the
    /// tracker's limit: the result tells whether the unit was counted.
    pub fn enter(&mut self) -> (counted: bool)
        requires
            old(self).wf(),
        ensures
            final(self).wf(),
            counted == (!old(self)@.closed && old(self)@.pending < Self::LIMIT),
            final(self)@ == if counted {
                entered(old(self)@)
            } else {
                old(self)@
            },
    {
        if self.closed || self.pending == u128::MAX {
            false
        } else {
            self.pending = self.pending + 1;
            true
        }
    }

    /// Counts a unit as done, and tells whether it was the last one: whether
    /// this call has completed the traversal.
    pub fn leave(&mut self) -> (last: bool)
        requires
            old(self).wf(),
        ensures
            final(self).wf(),
            final(self)@ == left(old(self)@),
            last == completes(old(self)@),
    {
        if self.pending == 0 {
            false
        } else {
            self.pending = self.pending - 1;
            if self.pending == 0 && !self.closed {
                self.closed = true;
                true
            } else {
                false
            }
        }
    }

    /// Declares a traversal complete that has no unit pending.
    pub fn close_if_idle(&mut self) -> (closed: bool)
        requires
            old(self).wf(),
        ensures
            final(self).wf(),
            closed == final(self)@.closed,
            final(self)@.pending == old(self)@.pending,
            final(self)@.closed == (old(self)@.closed || old(self)@.pending == 0),
    {
        if self.pending == 0 {
            self.closed = true;
        }
        self.closed
    }

    /// The number of units that have entered and not left.
    pub fn pending(&self) -> (pending: u128)
        ensures
            pending == self@.pending,
    {
        self.pending
    }

    /// Whether the traversal is complete.
    pub fn is_closed(&self) -> (closed: bool)
        ensures
            closed == self@.closed,
    {
        self.closed
    }
}

/// A complete traversal stays complete: no unit enters it, and no later
/// leave completes it again.
pub proof fn completion_is_final(t: Tracking)
    requires
        t.closed,
        t.pending == 0,
    ensures
        entered(t) == t,
        left(t) == t,
        !completes(t),
{
}

/// While a traversal is not complete, every unit that has entered and not
/// left is counted: a leave completes it only as the last of them goes.
pub proof fn completion_waits_for_the_last(t: Tracking)
    requires
        !t.closed,
    ensures
        completes(t) <==> t.pending == 1,
        left(t).closed <==> t.pending == 1,
        t.pending > 1 ==> left(t).pending > 0 && !left(t).closed,
{
}

} // verus!
