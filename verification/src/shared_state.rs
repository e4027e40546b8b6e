//! The single-slot cache of the most recent snapshot, shared between the
//! tick loop (sole writer) and the query interface (readers).
//!
//! The slot lives behind a verified reader/writer lock: `publish` replaces
//! the whole value while holding the write lock, and `latest` clones the
//! whole value while holding a read lock. A reader therefore observes
//! either the previous or the new snapshot in full — never a value mixing
//! fields of two snapshots — and the critical sections do no I/O.

use vstd::prelude::*;
use vstd::rwlock::RwLock;

use crate::monitor::SystemMetrics;

verus! {

/// Every value the slot may hold: nothing, before the first tick, or any
/// complete snapshot.
pub open spec fn slot_inv(v: Option<SystemMetrics>) -> bool {
    true
}

/// A lock-guarded slot holding the most recent snapshot, if any tick has
/// completed.
pub struct SharedLatestState {
    slot: RwLock<Option<SystemMetrics>, spec_fn(Option<SystemMetrics>) -> bool>,
}

impl SharedLatestState {
    /// The lock was set up with the slot's invariant.
    pub closed spec fn wf(&self) -> bool {
        self.slot.pred() == (|v: Option<SystemMetrics>| slot_inv(v))
    }

    /// An empty slot: no tick has completed yet, so `latest` reports
    /// nothing until the first `publish`.
    pub fn new() -> (r: Self)
        ensures
            r.wf(),
    {
        Self { slot: RwLock::new(None, Ghost(|v: Option<SystemMetrics>| slot_inv(v))) }
    }

    /// Atomically replaces the slot with the given snapshot, whole: the
    /// write lock is held for the entire replacement.
    pub fn publish(&self, metrics: SystemMetrics)
        requires
            self.wf(),
    {
        let (_, write_handle) = self.slot.acquire_write();
        write_handle.release_write(Some(metrics));
    }

    /// The current slot value, cloned whole under a read lock: `None`
    /// before the first publish, afterwards some complete published
    /// snapshot.
    pub fn latest(&self) -> (r: Option<SystemMetrics>)
        requires
            self.wf(),
    {
        let read_handle = self.slot.acquire_read();
        let r = *read_handle.borrow();
        read_handle.release_read();
        r
    }
}

} // verus!
