//! The store engine: the capacity-bounded map and the expiration index
//! composed under one contract.

use crate::expiration::{has_due, remaining, sweep, Expiration, ExpirationQueue};
use crate::lru_hash_map::{
    bumped_item, drop_key, evict_to, fresh_item, has_key, index_of_key, sum_sizes, Entries,
    LruHashMap, LruValueSize,
};
use crate::record::Record;
use crate::time::NanoTime;
use vstd::prelude::*;

verus! {

/// A value that carries the deadline at which it expires.
pub trait WithDeadTime {
    /// The deadline attributed to this value.
    spec fn dead_time_spec(&self) -> NanoTime;

    /// Reads the deadline.
    fn dead_time(&self) -> (r: NanoTime)
        ensures
            r == self.dead_time_spec(),
    ;
}

/// A stored value together with its byte cost, computed once on insertion,
/// and its access counter.
pub struct StoreItem<V: LruValueSize> {
    pub value: V,
    pub access_count: u64,
    pub size: usize,
}

impl<V: LruValueSize> StoreItem<V> {
    /// The cached byte cost is exactly the cost the value reports.
    pub open spec fn wf(self) -> bool {
        self.size as nat == self.value.lru_size_spec()
    }

    pub fn new(value: V) -> (r: Self)
        requires
            value.lru_size_spec() <= usize::MAX as nat,
        ensures
            r.value == value,
            r.access_count == 0,
            r.wf(),
    {
        let size = value.lru_value_size();
        StoreItem { value, access_count: 0, size }
    }
}

/// The engine: one keyed collection under two independent eviction
/// policies. The capacity-bounded map alone says whether a key is alive;
/// the expiration index is a lazily cleaned work list whose stale entries
/// are harmless tombstones.
pub struct Store {
    map: LruHashMap,
    queue: ExpirationQueue<NanoTime>,
}

impl Store {
    /// The live entries, least recently touched first.
    pub closed spec fn map_entries(self) -> Entries {
        self.map.entries()
    }

    /// The expiration index entries, latest deadline first.
    pub closed spec fn queue_entries(self) -> Seq<Expiration<NanoTime>> {
        self.queue@
    }

    /// The configured byte budget.
    pub closed spec fn max_spec(self) -> int {
        self.map.max_spec()
    }

    /// The running total of contained byte costs.
    pub closed spec fn total_spec(self) -> int {
        self.map.total_spec()
    }

    pub closed spec fn wf(self) -> bool {
        &&& self.map.wf()
        &&& self.queue.wf()
    }

    pub fn new(max_value_size: usize, capacity: usize) -> (r: Self)
        ensures
            r.wf(),
            r.map_entries() == Seq::<(NanoTime, StoreItem<Record>)>::empty(),
            r.queue_entries() == Seq::<Expiration<NanoTime>>::empty(),
            r.max_spec() == max_value_size,
    {
        Store {
            map: LruHashMap::with_capacity(max_value_size, capacity),
            queue: ExpirationQueue::with_capacity(capacity),
        }
    }

    /// Saves the value under the key with the given deadline: the deadline
    /// is pushed into the expiration index, then the value is inserted into
    /// the capacity-bounded map, where a same-keyed entry is dropped first
    /// (overwrite) and least recently touched entries are evicted until the
    /// new total fits the budget. Returns the overwritten value, if any; a
    /// stale index entry of an overwritten or evicted key stays behind as a
    /// harmless tombstone.
    pub fn save(&mut self, key: NanoTime, value: Record, dead_time: NanoTime) -> (r: Option<
        Record,
    >)
        requires
            old(self).wf(),
            value.lru_size_spec() <= old(self).max_spec(),
        ensures
            final(self).wf(),
            final(self).max_spec() == old(self).max_spec(),
            final(self).map_entries() == evict_to(
                drop_key(old(self).map_entries(), key),
                old(self).max_spec() - value.lru_size_spec(),
            ).push((key, fresh_item(value))),
            has_key(final(self).map_entries(), key),
            final(self).queue_entries().len() == old(self).queue_entries().len() + 1,
            exists|i: int|
                0 <= i <= old(self).queue_entries().len() && final(self).queue_entries() == old(
                    self,
                ).queue_entries().insert(i, (Expiration { dead_time, key })),
            final(self).queue_entries().contains((Expiration { dead_time, key })),
            (r is Some) <==> has_key(old(self).map_entries(), key),
            has_key(old(self).map_entries(), key) ==> r == Some(
                old(self).map_entries()[index_of_key(old(self).map_entries(), key)].1.value,
            ),
    {
        let ghost q0 = self.queue@;
        self.queue.push(key, dead_time);
        let r = self.map.insert(key, value);
        proof {
            let e = self.map.entries();
            assert(e[e.len() - 1].0 == key);
            let exp = Expiration { dead_time, key };
            let i0 = choose|i: int| 0 <= i <= q0.len() && self.queue@ == q0.insert(i, exp);
            assert(0 <= i0 <= q0.len() && self.queue_entries() == old(
                self,
            ).queue_entries().insert(i0, exp));
        }
        r
    }

    /// Looks the key up: a live entry moves to the most-recently-used
    /// position, its access counter grows by one, and a copy of the updated
    /// item is returned. An absent key — never saved, evicted or swept —
    /// reads as not found.
    pub fn access(&mut self, key: NanoTime) -> (r: Option<StoreItem<Record>>)
        requires
            old(self).wf(),
        ensures
            final(self).wf(),
            final(self).max_spec() == old(self).max_spec(),
            final(self).total_spec() == old(self).total_spec(),
            final(self).queue_entries() == old(self).queue_entries(),
            !has_key(old(self).map_entries(), key) ==> {
                &&& r is None
                &&& final(self).map_entries() == old(self).map_entries()
            },
            has_key(old(self).map_entries(), key) ==> {
                let e = old(self).map_entries();
                let i = index_of_key(e, key);
                let it2 = bumped_item(e[i].1);
                &&& final(self).map_entries() == e.remove(i).push((key, it2))
                &&& r == Some(it2)
            },
    {
        self.map.get_refresh(&key)
    }

    /// Sweeps: pops every due index entry, minimum deadline first, dropping
    /// the entry under its key from the map; stale keys are harmless.
    /// Returns how many index entries were popped.
    pub fn clean(&mut self, now: NanoTime) -> (r: usize)
        requires
            old(self).wf(),
        ensures
            final(self).wf(),
            final(self).max_spec() == old(self).max_spec(),
            final(self).map_entries() == sweep(
                old(self).map_entries(),
                old(self).queue_entries(),
                now,
            ),
            final(self).queue_entries() == remaining(old(self).queue_entries(), now),
            !has_due(final(self).queue_entries(), now),
            r == old(self).queue_entries().len() - final(self).queue_entries().len(),
    {
        self.queue.clean(now, &mut self.map)
    }

    /// Cheap check for the sweeper: whether a sweep at `now` would remove
    /// anything from the index.
    pub fn needs_clean(&self, now: NanoTime) -> (r: bool)
        requires
            self.wf(),
        ensures
            r == has_due(self.queue_entries(), now),
    {
        self.queue.needs_clean(now)
    }

    /// The running total of contained byte costs: exactly the sum of the
    /// live entries' costs, never above the budget.
    pub fn total_value_size(&self) -> (r: usize)
        requires
            self.wf(),
        ensures
            r == self.total_spec(),
            r == sum_sizes(self.map_entries()),
            r <= self.max_spec(),
    {
        self.map.total_value_size()
    }

    /// The number of live entries.
    pub fn item_count(&self) -> (r: usize)
        ensures
            r == self.map_entries().len(),
    {
        self.map.len()
    }

    /// Gives unused capacity back to the allocator; no observable state
    /// changes.
    pub fn shrink(&mut self)
        requires
            old(self).wf(),
        ensures
            final(self).wf(),
            final(self).max_spec() == old(self).max_spec(),
            final(self).map_entries() == old(self).map_entries(),
            final(self).queue_entries() == old(self).queue_entries(),
            final(self).total_spec() == old(self).total_spec(),
    {
        self.map.shrink();
    }
}

/// What a well-formed store guarantees of its views: unique keys, correct
/// cached costs, an exact running total within the budget, and a
/// deadline-sorted index.
pub proof fn lemma_store_wf(s: Store)
    requires
        s.wf(),
    ensures
        crate::lru_hash_map::keys_unique(s.map_entries()),
        crate::lru_hash_map::sizes_wf(s.map_entries()),
        s.total_spec() == sum_sizes(s.map_entries()),
        s.total_spec() <= s.max_spec(),
        crate::expiration::sorted_desc(s.queue_entries()),
{
}

/// An access touches only its own key: the entry under any other key keeps
/// exactly its content — in particular its access counter.
pub proof fn lemma_access_spares_other_keys(e: Entries, k: NanoTime, k2: NanoTime)
    requires
        crate::lru_hash_map::keys_unique(e),
        has_key(e, k2),
        k != k2,
    ensures
        ({
            let e2 = e.remove(index_of_key(e, k2)).push(
                (k2, bumped_item(crate::lru_hash_map::value_of(e, k2))),
            );
            &&& has_key(e2, k) == has_key(e, k)
            &&& has_key(e, k) ==> crate::lru_hash_map::value_of(e2, k)
                == crate::lru_hash_map::value_of(e, k)
        }),
{
    let t = e.remove(index_of_key(e, k2));
    assert(t == drop_key(e, k2));
    crate::lru_hash_map::lemma_drop_key_other(e, k, k2);
    crate::lru_hash_map::lemma_drop_key_props(e, k2);
    crate::lru_hash_map::lemma_push_other_key(
        t,
        (k2, bumped_item(crate::lru_hash_map::value_of(e, k2))),
        k,
    );
}

/// A key saved with deadline `d` is gone from the map once a sweep has run
/// at any `now >= d`: the save left an index entry at `d`, and a sweep
/// drops every key a due index entry names.
pub proof fn lemma_saved_key_swept(
    e: Entries,
    q: Seq<Expiration<NanoTime>>,
    k: NanoTime,
    d: NanoTime,
    now: NanoTime,
)
    requires
        crate::lru_hash_map::keys_unique(e),
        crate::expiration::sorted_desc(q),
        q.contains((Expiration { dead_time: d, key: k })),
        d <= now,
    ensures
        !has_key(sweep(e, q, now), k),
{
    let i = choose|i: int| 0 <= i < q.len() && q[i] == (Expiration { dead_time: d, key: k });
    assert(0 <= i < q.len() && q[i].dead_time <= now && q[i].key == k);
    crate::expiration::lemma_sweep_removes_due_keys(e, q, now, k);
}

} // verus!
