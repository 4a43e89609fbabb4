//! The concurrency wrapper: exactly one engine per process, behind one
//! reader/writer lock whose invariant is the engine's well-formedness.
//!
//! Both saving and reading take the write side, since a read refreshes
//! recency and the access counter; the background sweeper checks cheaply
//! under the read side and takes the write side only when a sweep is due.

use crate::lru_hash_map::LruValueSize;
use crate::record::Record;
use crate::store::{Store, StoreItem};
use crate::time::NanoTime;
use std::sync::Arc;
use vstd::prelude::*;
use vstd::rwlock::{RwLock, RwLockPredicate};

verus! {

/// The lock invariant: the engine inside is well-formed and configured with
/// the fixed byte budget.
pub struct StorePred {
    pub max_value_size: int,
}

impl RwLockPredicate<Store> for StorePred {
    open spec fn inv(self, s: Store) -> bool {
        &&& s.wf()
        &&& s.max_spec() == self.max_value_size
    }
}

/// One engine behind one lock. Every value that enters the lock is
/// well-formed, so no caller needs to establish anything about the shared
/// state; only `save` asks its caller to keep oversized values out, which
/// the caller checks against [`Record::try_cost`].
pub struct StoreLock {
    lock: RwLock<Store, StorePred>,
    max_value_size: usize,
}

impl StoreLock {
    /// The configured byte budget.
    pub closed spec fn max_spec(self) -> int {
        self.max_value_size as int
    }

    #[verifier::type_invariant]
    spec fn locked_wf(self) -> bool {
        self.lock.pred() == (StorePred { max_value_size: self.max_value_size as int })
    }

    pub fn new(max_value_size: usize, capacity: usize) -> (r: Self)
        ensures
            r.max_spec() == max_value_size,
    {
        let store = Store::new(max_value_size, capacity);
        let lock = RwLock::new(
            store,
            Ghost(StorePred { max_value_size: max_value_size as int }),
        );
        StoreLock { lock, max_value_size }
    }

    /// The configured byte budget.
    pub fn max_value_size(&self) -> (r: usize)
        ensures
            r == self.max_spec(),
    {
        self.max_value_size
    }

    /// Saves under the write lock; see [`Store::save`]. The overwritten
    /// value comes back, if the key was live.
    pub fn save(&self, key: NanoTime, value: Record, dead_time: NanoTime) -> (r: Option<Record>)
        requires
            value.lru_size_spec() <= self.max_spec(),
    {
        proof {
            use_type_invariant(self);
        }
        let (mut store, handle) = self.lock.acquire_write();
        let r = store.save(key, value, dead_time);
        handle.release_write(store);
        r
    }

    /// Reads under the write lock, since reading refreshes recency and the
    /// access counter; see [`Store::access`]. A returned item has been
    /// accessed at least once and carries its exact byte cost.
    pub fn access(&self, key: NanoTime) -> (r: Option<StoreItem<Record>>)
        ensures
            r matches Some(it) ==> it.access_count >= 1 && it.wf(),
    {
        proof {
            use_type_invariant(self);
        }
        let (mut store, handle) = self.lock.acquire_write();
        proof {
            crate::store::lemma_store_wf(store);
        }
        let r = store.access(key);
        handle.release_write(store);
        r
    }

    /// Sweeps under the write lock; see [`Store::clean`]. Returns how many
    /// index entries were popped.
    pub fn clean(&self, now: NanoTime) -> usize {
        proof {
            use_type_invariant(self);
        }
        let (mut store, handle) = self.lock.acquire_write();
        let r = store.clean(now);
        handle.release_write(store);
        r
    }

    /// The sweeper's cheap check, under the read lock.
    pub fn needs_clean(&self, now: NanoTime) -> bool {
        proof {
            use_type_invariant(self);
        }
        let handle = self.lock.acquire_read();
        let r = handle.borrow().needs_clean(now);
        handle.release_read();
        r
    }

    /// The running total of contained byte costs, under the read lock:
    /// never above the budget.
    pub fn total_value_size(&self) -> (r: usize)
        ensures
            r <= self.max_spec(),
    {
        proof {
            use_type_invariant(self);
        }
        let handle = self.lock.acquire_read();
        let r = handle.borrow().total_value_size();
        handle.release_read();
        r
    }

    /// The number of live entries, under the read lock.
    pub fn item_count(&self) -> usize {
        proof {
            use_type_invariant(self);
        }
        let handle = self.lock.acquire_read();
        let r = handle.borrow().item_count();
        handle.release_read();
        r
    }

    /// Gives unused capacity back, under the write lock.
    pub fn shrink(&self) {
        proof {
            use_type_invariant(self);
        }
        let (mut store, handle) = self.lock.acquire_write();
        store.shrink();
        handle.release_write(store);
    }
}

/// The process-wide state handed to every request handler and to the
/// sweeper at startup.
#[derive(Clone)]
pub struct State {
    pub store_lock: Arc<StoreLock>,
}

impl State {
    pub fn new(max_value_size: usize, capacity: usize) -> (r: State)
        ensures
            r.store_lock.max_spec() == max_value_size,
    {
        State { store_lock: Arc::new(StoreLock::new(max_value_size, capacity)) }
    }
}

} // verus!
