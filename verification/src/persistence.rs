//! The durability core's shared state: the record table together with the
//! dirty signal.
//!
//! One value of this type is shared between the request-handling path and
//! the background backup task, guarded by a single mutual-exclusion lock that
//! the surrounding process holds for the duration of each operation; Rust's
//! exclusive references model that discipline here, so no operation is ever
//! seen half-applied.  Every successful mutation signals the dirty signal
//! exactly once; the backup task drains it and stages a snapshot.

use vstd::prelude::*;

use crate::errors::SnapshotError;
use crate::link::{Link, Record, RecordModel};
use crate::signal::DirtySignal;
use crate::snapshot::{attempt_busy, produce_snapshot, snapshot_bytes, SNAPSHOT_RETRY_BUDGET};
use crate::store::{keys_unique, links_in, lookup, reverse_matches, upserted, Store};

verus! {

/// The record table and the pending-backup permit, owned jointly by the
/// write path and the backup scheduler for the lifetime of the process.
#[derive(Debug)]
pub struct Persistence {
    store: Store,
    dirty: DirtySignal,
}

impl Persistence {
    /// The table's contents.
    pub closed spec fn table(self) -> Seq<RecordModel> {
        self.store@
    }

    /// Whether a backup is owed.
    pub closed spec fn pending_backup(self) -> bool {
        self.dirty.pending()
    }

    /// The table invariant: keys are unique.
    pub open spec fn wf(self) -> bool {
        keys_unique(self.table())
    }

    /// A core seeded with the given table; no backup is owed yet.
    pub fn from_store(store: Store) -> (p: Persistence)
        requires
            store.wf(),
        ensures
            p.wf(),
            p.table() == store@,
            !p.pending_backup(),
    {
        Persistence { store, dirty: DirtySignal::new() }
    }

    /// The create-request: insert-or-replace keyed by
    /// `(namespace, short_form)`, then signal the dirty signal exactly once.
    /// The caller supplies `created_at`, stamped at write time.
    pub fn create_link(&mut self, namespace: String, link: Link)
        requires
            old(self).wf(),
        ensures
            final(self).wf(),
            final(self).table() == upserted(
                old(self).table(),
                RecordModel {
                    namespace: namespace@,
                    short_form: link.short_form@,
                    long_form: link.long_form@,
                    created_at: link.created_at@,
                },
            ),
            final(self).pending_backup(),
    {
        let record = Record {
            namespace,
            short_form: link.short_form,
            long_form: link.long_form,
            created_at: link.created_at,
        };
        self.store.upsert(record);
        self.dirty.mark();
    }

    /// At most one match by the unique key.
    pub fn get_link(&self, namespace: String, short_form: String) -> (r: Option<Link>)
        ensures
            r.deep_view() == lookup(self.table(), namespace@, short_form@),
    {
        self.store.get(&namespace, &short_form)
    }

    /// All links of the namespace, complete and in deterministic table
    /// order.
    pub fn list_links(&self, namespace: String) -> (r: Vec<Link>)
        ensures
            r.deep_view() == links_in(self.table(), namespace@),
    {
        self.store.list(&namespace)
    }

    /// All links of the namespace whose `long_form` equals the argument
    /// exactly; no matches is an empty answer, not an error.
    pub fn reverse_lookup(&self, namespace: String, long_form: String) -> (r: Vec<Link>)
        ensures
            r.deep_view() == reverse_matches(self.table(), namespace@, long_form@),
    {
        self.store.reverse_lookup(&namespace, &long_form)
    }

    /// The consuming half of `await_and_drain`: take the pending permit, if
    /// any.  The surrounding process blocks until a wake, then calls this;
    /// the table itself is untouched.
    pub fn take_pending(&mut self) -> (was: bool)
        ensures
            was == old(self).pending_backup(),
            !final(self).pending_backup(),
            final(self).table() == old(self).table(),
    {
        self.dirty.try_drain()
    }

    /// Stage a backup: one consistent snapshot of the table, copied in
    /// bounded steps, retried within the budget while the table is busy.
    /// `busy` is the contention the attempts encounter; the surrounding
    /// process passes what it observed.  An exhausted budget is the
    /// recoverable `SnapshotError` the scheduler logs and survives.
    pub fn stage_backup(&self, busy: &Vec<bool>) -> (r: Result<Vec<u8>, SnapshotError>)
        ensures
            match r {
                Ok(bytes) => bytes@ == snapshot_bytes(self.table()) && exists|k: int|
                    0 <= k < SNAPSHOT_RETRY_BUDGET && !attempt_busy(busy@, k),
                Err(e) => e == SnapshotError::Busy && forall|k: int|
                    0 <= k < SNAPSHOT_RETRY_BUDGET ==> attempt_busy(busy@, k),
            },
    {
        produce_snapshot(&self.store, busy)
    }
}

} // verus!
