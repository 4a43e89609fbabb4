//! The expiration index: a deadline-ordered work list of keys.
//!
//! The index yields the minimum deadline cheaply and tolerates stale
//! references: a key already evicted from the map by the size policy is
//! discarded as a harmless tombstone the next time it is popped.

use crate::lru_hash_map::{drop_key, has_key, Entries, LruHashMap};
use crate::time::NanoTime;
use vstd::prelude::*;

verus! {

/// A key together with the deadline at which it expires.
///
/// The deadline field comes first so that the derived order sorts by
/// deadline: the index never orders entries by their keys.
#[derive(Debug, PartialEq, Eq, PartialOrd, Ord)]
pub struct Expiration<K> {
    pub dead_time: NanoTime,
    pub key: K,
}

/// Sorted by deadline, largest first: the minimum deadline sits at the end.
pub open spec fn sorted_desc<K>(s: Seq<Expiration<K>>) -> bool {
    forall|i: int, j: int| 0 <= i <= j < s.len() ==> s[i].dead_time >= s[j].dead_time
}

/// Whether some entry is due at `now`.
pub open spec fn has_due<K>(s: Seq<Expiration<K>>, now: NanoTime) -> bool {
    exists|i: int| 0 <= i < s.len() && (#[trigger] s[i]).dead_time <= now
}

/// Whether some entry marks the key as due at `now`.
pub open spec fn key_due(s: Seq<Expiration<NanoTime>>, k: NanoTime, now: NanoTime) -> bool {
    exists|i: int|
        0 <= i < s.len() && (#[trigger] s[i]).dead_time <= now && s[i].key == k
}

/// The index entries left by a sweep at `now`: due entries are taken from
/// the back (minimum deadline first) until none is due.
pub open spec fn remaining<K>(s: Seq<Expiration<K>>, now: NanoTime) -> Seq<Expiration<K>>
    decreases s.len(),
{
    if s.len() == 0 || s.last().dead_time > now {
        s
    } else {
        remaining(s.take(s.len() - 1), now)
    }
}

/// The map entries left by a sweep at `now`: for each due index entry,
/// taken from the back, the entry under its key is dropped from the map.
pub open spec fn sweep(e: Entries, s: Seq<Expiration<NanoTime>>, now: NanoTime) -> Entries
    decreases s.len(),
{
    if s.len() == 0 || s.last().dead_time > now {
        e
    } else {
        sweep(drop_key(e, s.last().key), s.take(s.len() - 1), now)
    }
}

/// A prefix of a deadline-sorted index is still deadline-sorted.
pub proof fn lemma_sorted_take<K>(q: Seq<Expiration<K>>, n: int)
    requires
        sorted_desc(q),
        0 <= n <= q.len(),
    ensures
        sorted_desc(q.take(n)),
{
    let t = q.take(n);
    assert forall|a: int, b: int| 0 <= a <= b < t.len() implies #[trigger] t[a].dead_time
        >= #[trigger] t[b].dead_time by {
        assert(q[a].dead_time >= q[b].dead_time);
    }
}

/// A sweep with nothing due is a no-op: it leaves both the map entries and
/// the index entries exactly as they were.
pub proof fn lemma_noop_sweep(e: Entries, q: Seq<Expiration<NanoTime>>, now: NanoTime)
    requires
        !has_due(q, now),
    ensures
        sweep(e, q, now) == e,
        remaining(q, now) == q,
{
    if q.len() > 0 && q.last().dead_time <= now {
        assert(0 <= q.len() - 1 < q.len() && q[q.len() - 1].dead_time <= now);
        assert(has_due(q, now));
    }
}

/// A sweep never adds a key to the map.
pub proof fn lemma_sweep_no_new_keys(
    e: Entries,
    q: Seq<Expiration<NanoTime>>,
    now: NanoTime,
    k: NanoTime,
)
    ensures
        has_key(sweep(e, q, now), k) ==> has_key(e, k),
    decreases q.len(),
{
    if !(q.len() == 0 || q.last().dead_time > now) {
        let k2 = q.last().key;
        lemma_sweep_no_new_keys(drop_key(e, k2), q.take(q.len() - 1), now, k);
        if has_key(e, k2) {
            crate::lru_hash_map::lemma_remove_props(e, crate::lru_hash_map::index_of_key(e, k2));
        }
    }
}

/// A key some due index entry names is gone from the map after a sweep.
pub proof fn lemma_sweep_removes_due_keys(
    e: Entries,
    q: Seq<Expiration<NanoTime>>,
    now: NanoTime,
    k: NanoTime,
)
    requires
        crate::lru_hash_map::keys_unique(e),
        sorted_desc(q),
        key_due(q, k, now),
    ensures
        !has_key(sweep(e, q, now), k),
    decreases q.len(),
{
    let i = choose|i: int|
        0 <= i < q.len() && (#[trigger] q[i]).dead_time <= now && q[i].key == k;
    // the minimum deadline sits at the end, so the last entry is due too
    assert(q[i].dead_time >= q[q.len() - 1].dead_time);
    let k2 = q.last().key;
    crate::lru_hash_map::lemma_drop_key_props(e, k2);
    if k2 == k {
        lemma_sweep_no_new_keys(drop_key(e, k), q.take(q.len() - 1), now, k);
    } else {
        // the due entry naming `k` is not the popped one, so it is still in
        // the shortened index
        assert(i < q.len() - 1);
        assert(q.take(q.len() - 1)[i] == q[i]);
        assert(key_due(q.take(q.len() - 1), k, now));
        lemma_sorted_take(q, q.len() - 1);
        lemma_sweep_removes_due_keys(drop_key(e, k2), q.take(q.len() - 1), now, k);
    }
}

/// A sweep touches only the keys that due index entries name: the entry
/// under any other key is left exactly as it was.
pub proof fn lemma_sweep_spares_undue_keys(
    e: Entries,
    q: Seq<Expiration<NanoTime>>,
    now: NanoTime,
    k: NanoTime,
)
    requires
        crate::lru_hash_map::keys_unique(e),
        !key_due(q, k, now),
    ensures
        has_key(sweep(e, q, now), k) == has_key(e, k),
        has_key(e, k) ==> crate::lru_hash_map::value_of(sweep(e, q, now), k)
            == crate::lru_hash_map::value_of(e, k),
    decreases q.len(),
{
    if !(q.len() == 0 || q.last().dead_time > now) {
        let k2 = q.last().key;
        // the popped entry is due, so it cannot name `k`
        assert(k2 != k) by {
            if k2 == k {
                assert(0 <= q.len() - 1 < q.len() && q[q.len() - 1].dead_time <= now && q[q.len()
                    - 1].key == k);
            }
        }
        crate::lru_hash_map::lemma_drop_key_other(e, k, k2);
        crate::lru_hash_map::lemma_drop_key_props(e, k2);
        assert forall|j: int|
            0 <= j < q.take(q.len() - 1).len() && (#[trigger] q.take(q.len() - 1)[j]).dead_time
                <= now implies q.take(q.len() - 1)[j].key != k by {
            assert(q[j].dead_time <= now);
            if q[j].key == k {
                assert(key_due(q, k, now));
            }
        }
        lemma_sweep_spares_undue_keys(drop_key(e, k2), q.take(q.len() - 1), now, k);
    }
}

/// A queue of keys yielding the minimum deadline first. Duplicate deadlines
/// need no collision handling, and a key may appear under several
/// deadlines.
pub struct ExpirationQueue<K> {
    queue: Vec<Expiration<K>>,
}

impl<K> View for ExpirationQueue<K> {
    type V = Seq<Expiration<K>>;

    closed spec fn view(&self) -> Seq<Expiration<K>> {
        self.queue@
    }
}

impl<K> ExpirationQueue<K> {
    /// Well-formed: sorted by deadline, largest first.
    pub open spec fn wf(self) -> bool {
        sorted_desc(self@)
    }

    pub fn with_capacity(capacity: usize) -> (r: Self)
        ensures
            r.wf(),
            r@ == Seq::<Expiration<K>>::empty(),
    {
        ExpirationQueue { queue: Vec::with_capacity(capacity) }
    }

    /// Inserts the key under the deadline.
    pub fn push(&mut self, key: K, dead_time: NanoTime)
        requires
            old(self).wf(),
        ensures
            final(self).wf(),
            final(self)@.len() == old(self)@.len() + 1,
            exists|i: int|
                0 <= i <= old(self)@.len() && final(self)@ == old(self)@.insert(
                    i,
                    (Expiration { dead_time, key }),
                ),
            final(self)@.contains((Expiration { dead_time, key })),
    {
        let ghost s = self@;
        let exp = Expiration { dead_time, key };
        // find the first position from the back whose deadline is at least
        // the new one
        let mut i: usize = self.queue.len();
        while i > 0 && self.queue[i - 1].dead_time < dead_time
            invariant
                0 <= i <= s.len(),
                self@ == s,
                forall|j: int| i <= j < s.len() ==> s[j].dead_time < dead_time,
            decreases i,
        {
            i = i - 1;
        }
        self.queue.insert(i, exp);
        proof {
            s.insert_ensures(i as int, exp);
            assert forall|a: int, b: int| 0 <= a <= b < self@.len() implies self@[a].dead_time
                >= self@[b].dead_time by {
                let n = i as int;
                if a < n && b > n {
                    assert(self@[a] == s[a] && self@[b] == s[b - 1]);
                } else if a == n && b > n {
                    assert(self@[b] == s[b - 1]);
                } else if a < n && b == n {
                    assert(self@[a] == s[a]);
                    assert(s[n - 1].dead_time >= dead_time);
                }
            }
        }
    }

    /// Cheap check: whether a non-empty index's minimum deadline is due.
    pub fn needs_clean(&self, now: NanoTime) -> (r: bool)
        requires
            self.wf(),
        ensures
            r == has_due(self@, now),
    {
        if self.queue.len() == 0 {
            false
        } else {
            let last = self.queue.len() - 1;
            let due = self.queue[last].dead_time <= now;
            proof {
                if !due {
                    assert forall|i: int| 0 <= i < self@.len() implies (#[trigger] self@[i]).dead_time
                        > now by {
                        assert(self@[i].dead_time >= self@[last as int].dead_time);
                    }
                }
            }
            due
        }
    }
}

impl ExpirationQueue<NanoTime> {
    /// Pops every due entry, minimum deadline first, and drops the entry
    /// under its key from the map; a stale key, already evicted by the size
    /// policy, is a harmless no-op. Returns how many index entries were
    /// popped.
    pub fn clean(&mut self, now: NanoTime, map: &mut LruHashMap) -> (r: usize)
        requires
            old(self).wf(),
            old(map).wf(),
        ensures
            final(self).wf(),
            final(self)@ == remaining(old(self)@, now),
            !has_due(final(self)@, now),
            final(map).wf(),
            final(map).max_spec() == old(map).max_spec(),
            final(map).entries() == sweep(old(map).entries(), old(self)@, now),
            r == old(self)@.len() - final(self)@.len(),
    {
        let n0 = self.queue.len();
        while self.queue.len() > 0 && self.queue[self.queue.len() - 1].dead_time <= now
            invariant
                sorted_desc(self@),
                map.wf(),
                map.max_spec() == old(map).max_spec(),
                sweep(old(map).entries(), old(self)@, now) == sweep(map.entries(), self@, now),
                remaining(old(self)@, now) == remaining(self@, now),
                self@.len() <= n0 == old(self)@.len(),
            decreases self@.len(),
        {
            let ghost qs = self@;
            let ghost es = map.entries();
            let exp = self.queue.pop().unwrap();
            map.remove(&exp.key);
            proof {
                assert(self@ =~= qs.take(qs.len() - 1));
                assert forall|a: int, b: int| 0 <= a <= b < self@.len() implies self@[a].dead_time
                    >= self@[b].dead_time by {
                    assert(qs[a].dead_time >= qs[b].dead_time);
                }
                assert(sweep(es, qs, now) == sweep(drop_key(es, exp.key), self@, now));
                assert(remaining(qs, now) == remaining(self@, now));
            }
        }
        proof {
            assert(remaining(self@, now) == self@);
            assert(sweep(map.entries(), self@, now) == map.entries());
            if self.queue.len() > 0 {
                let last = self@.len() - 1;
                assert forall|i: int| 0 <= i < self@.len() implies (#[trigger] self@[i]).dead_time
                    > now by {
                    assert(self@[i].dead_time >= self@[last].dead_time);
                }
            }
        }
        n0 - self.queue.len()
    }
}

} // verus!
