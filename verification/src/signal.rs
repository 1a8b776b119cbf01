//! The dirty signal: a single-permit, coalescing wake primitive.
//!
//! Every successful mutation marks the signal; the backup scheduler drains
//! it.  However many marks land between two drains, at most one pending
//! permit survives, so a burst of writes causes at most one backup cycle per
//! drain — and at least one, since a mark can never be lost.
//!
//! The blocking wait itself is the surrounding runtime's business; this type
//! carries the permit state and the laws the primitive must obey.

use vstd::prelude::*;

verus! {

/// Pending-backup permit shared between the write path and the backup
/// scheduler.
#[derive(Debug)]
pub struct DirtySignal {
    pending: bool,
}

impl DirtySignal {
    /// Whether a backup is currently owed.
    pub closed spec fn pending(self) -> bool {
        self.pending
    }

    /// A fresh signal owes nothing.
    pub fn new() -> (s: DirtySignal)
        ensures
            !s.pending(),
    {
        DirtySignal { pending: false }
    }

    /// Record that a mutation occurred.  If a permit is already pending this
    /// is a no-op: permits coalesce instead of queueing.
    pub fn mark(&mut self)
        ensures
            final(self).pending() == marked(old(self).pending()),
            final(self).pending(),
    {
        self.pending = true;
    }

    /// Atomically consume the pending permit, reporting whether one was
    /// there.  The scheduler performs a backup exactly when this returns
    /// `true`.
    pub fn try_drain(&mut self) -> (was: bool)
        ensures
            (was, final(self).pending()) == drained(old(self).pending()),
            was == old(self).pending(),
            !final(self).pending(),
    {
        let was = self.pending;
        self.pending = false;
        was
    }
}

/// Signal state after one `mark`: a permit is pending, whatever was before.
pub open spec fn marked(pending: bool) -> bool {
    true
}

/// Effect of one `try_drain`: the permit handed to the caller, and the state
/// left behind.
pub open spec fn drained(pending: bool) -> (bool, bool) {
    (pending, false)
}

/// Signal state after `n` consecutive `mark` calls starting from `pending`.
pub open spec fn after_marks(pending: bool, n: nat) -> bool
    decreases n,
{
    if n == 0 {
        pending
    } else {
        marked(after_marks(pending, (n - 1) as nat))
    }
}

/// Coalescing: any burst of marks leaves the signal in the same state as a
/// single mark, so the scheduler can never fall behind an unbounded queue.
pub proof fn lemma_marks_coalesce(pending: bool, n: nat)
    requires
        n >= 1,
    ensures
        after_marks(pending, n) == after_marks(pending, 1),
    decreases n,
{
    if n > 1 {
        lemma_marks_coalesce(pending, (n - 1) as nat);
    }
}

/// Exactly one backup attempt per burst: after `n >= 1` marks, the first
/// drain hands out a permit and the drain after it hands out none.
pub proof fn lemma_burst_drains_once(pending: bool, n: nat)
    requires
        n >= 1,
    ensures
        drained(after_marks(pending, n)).0,
        !drained(drained(after_marks(pending, n)).1).0,
{
    lemma_marks_coalesce(pending, n);
}

/// No missed wake: if at least one mark lands after a drain left the signal
/// empty, the next drain hands out a permit.
pub proof fn lemma_no_missed_wake(n: nat)
    requires
        n >= 1,
    ensures
        drained(after_marks(false, n)).0,
{
    lemma_marks_coalesce(false, n);
}

} // verus!
