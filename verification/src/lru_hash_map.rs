//! The capacity-bounded, recency-ordered keyed map.
//!
//! The recency-ordered collection itself is `linked_hash_map::LinkedHashMap`,
//! relied on through the contracts below; the byte budget, the cost
//! bookkeeping and the eviction policy around it are verified here.

use crate::record::Record;
use crate::store::StoreItem;
use crate::time::NanoTime;
use vstd::prelude::*;

verus! {

/// A value with a byte cost attributed to it by the capacity budget.
pub trait LruValueSize {
    /// The byte cost of this value.
    spec fn lru_size_spec(&self) -> nat;

    /// Computes the byte cost.
    fn lru_value_size(&self) -> (r: usize)
        requires
            self.lru_size_spec() <= usize::MAX as nat,
        ensures
            r as nat == self.lru_size_spec(),
    ;
}

/// The concrete recency-ordered collection held by [`LruHashMap`].
type Inner = linked_hash_map::LinkedHashMap<
    NanoTime,
    StoreItem<Record>,
    std::collections::hash_map::RandomState,
>;

/// The entries of the map, least recently touched first.
pub type Entries = Seq<(NanoTime, StoreItem<Record>)>;

#[verifier::external_type_specification]
#[verifier::external_body]
#[verifier::reject_recursive_types(K)]
#[verifier::reject_recursive_types(V)]
#[verifier::reject_recursive_types(S)]
pub struct ExLinkedHashMap<K, V, S>(linked_hash_map::LinkedHashMap<K, V, S>);

/// What a recency-ordered map holds: its entries, least recently touched
/// first, most recently touched last.
pub uninterp spec fn lhm_entries(m: Inner) -> Entries;

/// The sum of the cached byte costs of the entries.
pub open spec fn sum_sizes(s: Entries) -> int
    decreases s.len(),
{
    if s.len() == 0 {
        0
    } else {
        sum_sizes(s.drop_last()) + s.last().1.size
    }
}

/// Whether some entry is stored under the key.
pub open spec fn has_key(s: Entries, k: NanoTime) -> bool {
    exists|i: int| 0 <= i < s.len() && (#[trigger] s[i]).0 == k
}

/// The position of the entry stored under the key.
pub open spec fn index_of_key(s: Entries, k: NanoTime) -> int {
    choose|i: int| 0 <= i < s.len() && (#[trigger] s[i]).0 == k
}

/// No two entries share a key.
pub open spec fn keys_unique(s: Entries) -> bool {
    forall|i: int, j: int| 0 <= i < j < s.len() ==> s[i].0 != s[j].0
}

/// Every entry's cached byte cost is the one its value reports.
pub open spec fn sizes_wf(s: Entries) -> bool {
    forall|i: int| 0 <= i < s.len() ==> (#[trigger] s[i]).1.wf()
}

/// The entries with the one stored under the key, if any, dropped; the
/// order of the others is kept.
pub open spec fn drop_key(s: Entries, k: NanoTime) -> Entries {
    if has_key(s, k) {
        s.remove(index_of_key(s, k))
    } else {
        s
    }
}

/// Drops least recently touched entries until the contained byte costs sum
/// to at most the budget.
pub open spec fn evict_to(s: Entries, budget: int) -> Entries
    decreases s.len(),
{
    if sum_sizes(s) <= budget || s.len() == 0 {
        s
    } else {
        evict_to(s.skip(1), budget)
    }
}

/// A fresh item wrapping the value: counter zero, cost as reported.
pub open spec fn fresh_item(value: Record) -> StoreItem<Record> {
    StoreItem { value, access_count: 0u64, size: value.lru_size_spec() as usize }
}

/// One more access: the counter grows by one and sticks at its maximum.
pub open spec fn bump_count(c: u64) -> u64 {
    if c == u64::MAX {
        c
    } else {
        (c + 1) as u64
    }
}

/// The item after one more access: only the counter changes.
pub open spec fn bumped_item(it: StoreItem<Record>) -> StoreItem<Record> {
    StoreItem { value: it.value, access_count: bump_count(it.access_count), size: it.size }
}

pub proof fn lemma_sum_nonneg(s: Entries)
    ensures
        sum_sizes(s) >= 0,
    decreases s.len(),
{
    if s.len() > 0 {
        lemma_sum_nonneg(s.drop_last());
    }
}

pub proof fn lemma_sum_push(s: Entries, p: (NanoTime, StoreItem<Record>))
    ensures
        sum_sizes(s.push(p)) == sum_sizes(s) + p.1.size,
{
    assert(s.push(p).drop_last() =~= s);
}

pub proof fn lemma_sum_remove(s: Entries, i: int)
    requires
        0 <= i < s.len(),
    ensures
        sum_sizes(s.remove(i)) == sum_sizes(s) - s[i].1.size,
    decreases s.len(),
{
    if i == s.len() - 1 {
        assert(s.remove(i) =~= s.drop_last());
    } else {
        assert(s.remove(i).drop_last() =~= s.drop_last().remove(i));
        assert(s.remove(i).last() == s.last());
        lemma_sum_remove(s.drop_last(), i);
    }
}

/// Removing an entry keeps the others' order, their key uniqueness and
/// their cost bookkeeping; under unique keys it takes its key with it.
pub proof fn lemma_remove_props(s: Entries, i: int)
    requires
        0 <= i < s.len(),
    ensures
        keys_unique(s) ==> keys_unique(s.remove(i)),
        keys_unique(s) ==> !has_key(s.remove(i), s[i].0),
        sizes_wf(s) ==> sizes_wf(s.remove(i)),
        forall|k: NanoTime| has_key(s.remove(i), k) ==> has_key(s, k),
{
    let t = s.remove(i);
    assert forall|j: int| 0 <= j < t.len() implies t[j] == (if j < i {
        s[j]
    } else {
        s[j + 1]
    }) by {}
    assert forall|k: NanoTime| has_key(t, k) implies has_key(s, k) by {
        let j = choose|j: int| 0 <= j < t.len() && (#[trigger] t[j]).0 == k;
        if j < i {
            assert(s[j].0 == k);
        } else {
            assert(s[j + 1].0 == k);
        }
    }
    if keys_unique(s) {
        assert forall|k: int, l: int| 0 <= k < l < t.len() implies t[k].0 != t[l].0 by {}
        if has_key(t, s[i].0) {
            let j = choose|j: int| 0 <= j < t.len() && (#[trigger] t[j]).0 == s[i].0;
            if j < i {
                assert(s[j].0 == s[i].0);
            } else {
                assert(s[j + 1].0 == s[i].0);
            }
        }
    }
}

/// Dropping the least recently touched entry keeps uniqueness, cost
/// bookkeeping and key absence, and frees exactly its byte cost.
pub proof fn lemma_skip_one(s: Entries)
    requires
        s.len() > 0,
    ensures
        sum_sizes(s.skip(1)) == sum_sizes(s) - s[0].1.size,
        keys_unique(s) ==> keys_unique(s.skip(1)),
        sizes_wf(s) ==> sizes_wf(s.skip(1)),
        forall|k: NanoTime| has_key(s.skip(1), k) ==> has_key(s, k),
{
    assert(s.skip(1) =~= s.remove(0));
    lemma_sum_remove(s, 0);
    lemma_remove_props(s, 0);
}

/// Appending an entry under a fresh key keeps uniqueness and cost
/// bookkeeping, and stores exactly that entry under that key.
pub proof fn lemma_push_props(s: Entries, p: (NanoTime, StoreItem<Record>))
    requires
        !has_key(s, p.0),
    ensures
        keys_unique(s) ==> keys_unique(s.push(p)),
        sizes_wf(s) && p.1.wf() ==> sizes_wf(s.push(p)),
        has_key(s.push(p), p.0),
        forall|k: NanoTime| has_key(s.push(p), k) ==> has_key(s, k) || k == p.0,
{
    let t = s.push(p);
    assert(t[s.len() as int] == p);
    if keys_unique(s) {
        assert forall|k: int, l: int| 0 <= k < l < t.len() implies t[k].0 != t[l].0 by {
            if l == s.len() as int {
                assert(t[k] == s[k]);
                if t[k].0 == p.0 {
                    assert(has_key(s, p.0));
                }
            }
        }
    }
    assert forall|k: NanoTime| has_key(t, k) implies has_key(s, k) || k == p.0 by {
        let j = choose|j: int| 0 <= j < t.len() && (#[trigger] t[j]).0 == k;
        if j < s.len() {
            assert(s[j].0 == k);
        }
    }
}

/// The item stored under the key.
pub open spec fn value_of(s: Entries, k: NanoTime) -> StoreItem<Record> {
    s[index_of_key(s, k)].1
}

/// Dropping one key neither disturbs the entry under another key nor breaks
/// key uniqueness.
pub proof fn lemma_drop_key_other(s: Entries, k: NanoTime, k2: NanoTime)
    requires
        keys_unique(s),
        k != k2,
    ensures
        keys_unique(drop_key(s, k2)),
        has_key(drop_key(s, k2), k) == has_key(s, k),
        has_key(s, k) ==> value_of(drop_key(s, k2), k) == value_of(s, k),
{
    if has_key(s, k2) {
        let i2 = index_of_key(s, k2);
        lemma_remove_props(s, i2);
        let t = s.remove(i2);
        if has_key(s, k) {
            let i = index_of_key(s, k);
            assert(s[i2].0 == k2);
            assert(i != i2);
            if i < i2 {
                assert(t[i] == s[i]);
            } else {
                assert(t[i - 1] == s[i]);
            }
            assert(has_key(t, k));
            let j = index_of_key(t, k);
            // under unique keys the entry found under `k` is the same one
            if j < i2 {
                assert(t[j] == s[j]);
                assert(s[j].0 == k && s[i].0 == k);
                assert(j == i);
            } else {
                assert(t[j] == s[j + 1]);
                assert(s[j + 1].0 == k && s[i].0 == k);
                assert(j + 1 == i);
            }
        }
    }
}

/// Dropping a key takes every trace of it away and keeps the rest.
pub proof fn lemma_drop_key_props(s: Entries, k: NanoTime)
    requires
        keys_unique(s),
    ensures
        keys_unique(drop_key(s, k)),
        sizes_wf(s) ==> sizes_wf(drop_key(s, k)),
        !has_key(drop_key(s, k), k),
        forall|k2: NanoTime| has_key(drop_key(s, k), k2) ==> has_key(s, k2),
{
    if has_key(s, k) {
        let i = index_of_key(s, k);
        assert(s[i].0 == k);
        lemma_remove_props(s, i);
    }
}

/// Appending an entry under a fresh key neither disturbs the entry under
/// another key nor makes one appear.
pub proof fn lemma_push_other_key(s: Entries, p: (NanoTime, StoreItem<Record>), k: NanoTime)
    requires
        keys_unique(s),
        !has_key(s, p.0),
        k != p.0,
    ensures
        has_key(s.push(p), k) == has_key(s, k),
        has_key(s, k) ==> value_of(s.push(p), k) == value_of(s, k),
{
    lemma_push_props(s, p);
    let t = s.push(p);
    if has_key(s, k) {
        let j = index_of_key(s, k);
        assert(t[j] == s[j]);
        assert(has_key(t, k));
        let j2 = index_of_key(t, k);
        if j2 != j {
            assert(t[j2].0 == k && t[j].0 == k);
            if j2 == s.len() as int {
                assert(t[j2] == p);
            }
        }
    }
}

/// What an eviction pass leaves is a suffix of the entries: the least
/// recently touched entries go first, and no more go once the contained
/// costs fit the budget.
pub proof fn lemma_evict_to_suffix(s: Entries, budget: int)
    ensures
        exists|n: int|
            0 <= n <= s.len() && evict_to(s, budget) == s.skip(n) && (forall|m: int|
                0 <= m < n ==> sum_sizes(#[trigger] s.skip(m)) > budget),
    decreases s.len(),
{
    if sum_sizes(s) <= budget || s.len() == 0 {
        assert(s.skip(0) =~= s);
        assert(evict_to(s, budget) == s.skip(0));
        assert(forall|m: int| 0 <= m < 0 ==> sum_sizes(#[trigger] s.skip(m)) > budget);
    } else {
        lemma_evict_to_suffix(s.skip(1), budget);
        let n1 = choose|n1: int|
            0 <= n1 <= s.skip(1).len() && evict_to(s.skip(1), budget) == s.skip(1).skip(n1) && (
            forall|m: int| 0 <= m < n1 ==> sum_sizes(#[trigger] s.skip(1).skip(m)) > budget);
        let n = n1 + 1;
        assert(s.skip(1).skip(n1) =~= s.skip(n));
        assert forall|m: int| 0 <= m < n implies sum_sizes(#[trigger] s.skip(m)) > budget by {
            if m == 0 {
                assert(s.skip(0) =~= s);
            } else {
                assert(s.skip(1).skip(m - 1) =~= s.skip(m));
            }
        }
    }
}

/// When the entries are over budget but freeing the single least recently
/// touched one is enough, the eviction pass drops exactly that one.
pub proof fn lemma_eviction_takes_oldest_first(s: Entries, budget: int)
    requires
        s.len() > 0,
        sum_sizes(s) > budget,
        sum_sizes(s) - s[0].1.size <= budget,
    ensures
        evict_to(s, budget) == s.skip(1),
{
    lemma_skip_one(s);
    assert(evict_to(s, budget) == evict_to(s.skip(1), budget));
    assert(sum_sizes(s.skip(1)) <= budget);
    assert(evict_to(s.skip(1), budget) == s.skip(1));
}

/// A freshly touched entry is protected from an eviction that the oldest
/// entry alone can satisfy: only the least recently touched entry goes.
pub proof fn lemma_refresh_protects(s: Entries, k: NanoTime, budget: int)
    requires
        s.len() >= 2,
        s.last().0 == k,
        sum_sizes(s) > budget,
        sum_sizes(s) - s[0].1.size <= budget,
    ensures
        evict_to(s, budget) == s.skip(1),
        has_key(evict_to(s, budget), k),
{
    lemma_eviction_takes_oldest_first(s, budget);
    assert(s.skip(1)[s.len() - 2] == s[s.len() - 1]);
}

/// Relies on `linked_hash_map::LinkedHashMap::with_capacity`: the new map
/// is empty.
#[verifier::external_body]
fn lhm_with_capacity(capacity: usize) -> (r: Inner)
    ensures
        lhm_entries(r) == Seq::<(NanoTime, StoreItem<Record>)>::empty(),
{
    linked_hash_map::LinkedHashMap::with_capacity(capacity)
}

/// Relies on `linked_hash_map::LinkedHashMap::len`: the number of entries.
#[verifier::external_body]
fn lhm_len(m: &Inner) -> (r: usize)
    ensures
        r == lhm_entries(*m).len(),
{
    m.len()
}

/// Relies on `linked_hash_map::LinkedHashMap::insert`: a pre-existing entry
/// under the same key is replaced and its value returned; the inserted
/// entry ends up the most recently touched one either way.
#[verifier::external_body]
fn lhm_insert(m: &mut Inner, k: NanoTime, v: StoreItem<Record>) -> (r: Option<StoreItem<Record>>)
    ensures
        has_key(lhm_entries(*old(m)), k) ==> {
            let e = lhm_entries(*old(m));
            let i = index_of_key(e, k);
            &&& lhm_entries(*final(m)) == e.remove(i).push((k, v))
            &&& r == Some(e[i].1)
        },
        !has_key(lhm_entries(*old(m)), k) ==> {
            &&& lhm_entries(*final(m)) == lhm_entries(*old(m)).push((k, v))
            &&& r is None
        },
{
    m.insert(k, v)
}

/// Relies on `linked_hash_map::LinkedHashMap::remove`: removes the entry
/// under the key, if any, keeping the order of the others.
#[verifier::external_body]
fn lhm_remove(m: &mut Inner, k: &NanoTime) -> (r: Option<StoreItem<Record>>)
    ensures
        has_key(lhm_entries(*old(m)), *k) ==> {
            let e = lhm_entries(*old(m));
            let i = index_of_key(e, *k);
            &&& lhm_entries(*final(m)) == e.remove(i)
            &&& r == Some(e[i].1)
        },
        !has_key(lhm_entries(*old(m)), *k) ==> {
            &&& lhm_entries(*final(m)) == lhm_entries(*old(m))
            &&& r is None
        },
{
    m.remove(k)
}

/// Relies on `linked_hash_map::LinkedHashMap::shrink_to_fit`: gives unused
/// capacity back and keeps the entries as they are.
#[verifier::external_body]
fn lhm_shrink_to_fit(m: &mut Inner)
    ensures
        lhm_entries(*final(m)) == lhm_entries(*old(m)),
{
    m.shrink_to_fit()
}

/// Relies on `linked_hash_map::LinkedHashMap::pop_front`: removes and
/// returns the least recently touched entry, or nothing from an empty map.
#[verifier::external_body]
fn lhm_pop_front(m: &mut Inner) -> (r: Option<(NanoTime, StoreItem<Record>)>)
    ensures
        lhm_entries(*old(m)).len() == 0 ==> {
            &&& r is None
            &&& lhm_entries(*final(m)) == lhm_entries(*old(m))
        },
        lhm_entries(*old(m)).len() > 0 ==> {
            &&& r == Some(lhm_entries(*old(m))[0])
            &&& lhm_entries(*final(m)) == lhm_entries(*old(m)).skip(1)
        },
{
    m.pop_front()
}

/// A keyed collection ordered by recency of insertion and access, bounded
/// by a byte budget: an insert that would push the running total past the
/// budget first evicts the least recently touched entries.
pub struct LruHashMap {
    map: Inner,
    max_value_size: usize,
    total_value_size: usize,
}

impl LruHashMap {
    /// The entries, least recently touched first.
    pub closed spec fn entries(self) -> Entries {
        lhm_entries(self.map)
    }

    /// The configured byte budget.
    pub closed spec fn max_spec(self) -> int {
        self.max_value_size as int
    }

    /// The running total of contained byte costs.
    pub closed spec fn total_spec(self) -> int {
        self.total_value_size as int
    }

    /// Well-formed: keys are unique, every cached cost is the one the value
    /// reports, and the running total is exactly the sum of contained costs
    /// and never exceeds the budget.
    pub open spec fn wf(self) -> bool {
        &&& keys_unique(self.entries())
        &&& sizes_wf(self.entries())
        &&& self.total_spec() == sum_sizes(self.entries())
        &&& self.total_spec() <= self.max_spec()
    }

    pub fn with_capacity(max_value_size: usize, capacity: usize) -> (r: Self)
        ensures
            r.wf(),
            r.entries() == Seq::<(NanoTime, StoreItem<Record>)>::empty(),
            r.max_spec() == max_value_size,
    {
        LruHashMap { map: lhm_with_capacity(capacity), max_value_size, total_value_size: 0 }
    }

    pub fn total_value_size(&self) -> (r: usize)
        requires
            self.wf(),
        ensures
            r == self.total_spec(),
            r == sum_sizes(self.entries()),
            r <= self.max_spec(),
    {
        self.total_value_size
    }

    /// The configured byte budget.
    pub fn max_value_size(&self) -> (r: usize)
        ensures
            r == self.max_spec(),
    {
        self.max_value_size
    }

    /// The number of entries.
    pub fn len(&self) -> (r: usize)
        ensures
            r == self.entries().len(),
    {
        lhm_len(&self.map)
    }

    /// Gives unused capacity back; the entries stay as they are.
    pub fn shrink(&mut self)
        requires
            old(self).wf(),
        ensures
            final(self).wf(),
            final(self).max_spec() == old(self).max_spec(),
            final(self).entries() == old(self).entries(),
            final(self).total_spec() == old(self).total_spec(),
    {
        lhm_shrink_to_fit(&mut self.map);
    }

    /// Evicts least recently touched entries until the running total is at
    /// most the target.
    fn pop_until_size(&mut self, target_size: usize)
        requires
            old(self).wf(),
        ensures
            final(self).wf(),
            final(self).max_spec() == old(self).max_spec(),
            final(self).entries() == evict_to(old(self).entries(), target_size as int),
            final(self).total_spec() <= target_size as int,
            forall|k: NanoTime|
                has_key(final(self).entries(), k) ==> has_key(old(self).entries(), k),
    {
        let ghost start = self.entries();
        while target_size < self.total_value_size
            invariant
                self.wf(),
                self.max_value_size == old(self).max_value_size,
                evict_to(self.entries(), target_size as int) == evict_to(
                    start,
                    target_size as int,
                ),
                forall|k: NanoTime| has_key(self.entries(), k) ==> has_key(start, k),
            decreases self.entries().len(),
        {
            let ghost cur = self.entries();
            proof {
                assert(cur.len() > 0) by {
                    if cur.len() == 0 {
                        assert(sum_sizes(cur) == 0);
                    }
                }
                lemma_skip_one(cur);
                lemma_sum_nonneg(cur.skip(1));
                assert(evict_to(cur, target_size as int) == evict_to(
                    cur.skip(1),
                    target_size as int,
                ));
            }
            let popped = lhm_pop_front(&mut self.map);
            let (k0, it0) = popped.unwrap();
            self.total_value_size = self.total_value_size - it0.size;
        }
        proof {
            assert(evict_to(self.entries(), target_size as int) == self.entries());
        }
    }

    /// Inserts the value under the key at the most-recently-used position:
    /// an entry already stored under the key is dropped first (its value is
    /// returned), then least recently touched entries are evicted until the
    /// new total fits the budget.
    pub fn insert(&mut self, key: NanoTime, value: Record) -> (r: Option<Record>)
        requires
            old(self).wf(),
            value.lru_size_spec() <= old(self).max_spec(),
        ensures
            final(self).wf(),
            final(self).max_spec() == old(self).max_spec(),
            final(self).entries() == evict_to(
                drop_key(old(self).entries(), key),
                old(self).max_spec() - value.lru_size_spec(),
            ).push((key, fresh_item(value))),
            (r is Some) <==> has_key(old(self).entries(), key),
            has_key(old(self).entries(), key) ==> r == Some(
                old(self).entries()[index_of_key(old(self).entries(), key)].1.value,
            ),
    {
        let ghost orig = self.entries();
        let item = StoreItem::new(value);
        // drop any entry already stored under the key
        let old_item = lhm_remove(&mut self.map, &key);
        let prev = match old_item {
            Some(it) => {
                proof {
                    let i = index_of_key(orig, key);
                    lemma_sum_remove(orig, i);
                    lemma_sum_nonneg(orig.remove(i));
                    lemma_remove_props(orig, i);
                }
                self.total_value_size = self.total_value_size - it.size;
                Some(it.value)
            },
            None => None,
        };
        // evict the least recently touched entries until the new item fits
        let target = self.max_value_size - item.size;
        self.pop_until_size(target);
        proof {
            if has_key(self.entries(), key) {
                assert(has_key(drop_key(orig, key), key));
            }
            lemma_push_props(self.entries(), (key, item));
            lemma_sum_push(self.entries(), (key, item));
        }
        self.total_value_size = self.total_value_size + item.size;
        let _ = lhm_insert(&mut self.map, key, item);
        prev
    }

    /// If the key is present: moves its entry to the most-recently-used
    /// position, adds one to its access counter (which sticks at its
    /// maximum), and returns a copy of the updated item.
    pub fn get_refresh(&mut self, key: &NanoTime) -> (r: Option<StoreItem<Record>>)
        requires
            old(self).wf(),
        ensures
            final(self).wf(),
            final(self).max_spec() == old(self).max_spec(),
            final(self).total_spec() == old(self).total_spec(),
            !has_key(old(self).entries(), *key) ==> {
                &&& r is None
                &&& final(self).entries() == old(self).entries()
            },
            has_key(old(self).entries(), *key) ==> {
                let e = old(self).entries();
                let i = index_of_key(e, *key);
                let it2 = bumped_item(e[i].1);
                &&& final(self).entries() == e.remove(i).push((*key, it2))
                &&& r == Some(it2)
            },
    {
        let ghost orig = self.entries();
        let removed = lhm_remove(&mut self.map, key);
        match removed {
            None => None,
            Some(it) => {
                proof {
                    let i = index_of_key(orig, *key);
                    lemma_sum_remove(orig, i);
                    lemma_remove_props(orig, i);
                    lemma_push_props(
                        orig.remove(i),
                        (*key, bumped_item(orig[i].1)),
                    );
                    lemma_sum_push(orig.remove(i), (*key, bumped_item(orig[i].1)));
                    lemma_sum_nonneg(orig.remove(i));
                }
                let count = if it.access_count == u64::MAX {
                    u64::MAX
                } else {
                    it.access_count + 1
                };
                let value_copy = it.value.duplicate();
                let stored = StoreItem { value: it.value, access_count: count, size: it.size };
                let _ = lhm_insert(&mut self.map, *key, stored);
                Some(StoreItem { value: value_copy, access_count: count, size: it.size })
            },
        }
    }

    /// Removes the entry under the key regardless of its recency; an absent
    /// key is a harmless no-op.
    pub fn remove(&mut self, key: &NanoTime) -> (r: Option<Record>)
        requires
            old(self).wf(),
        ensures
            final(self).wf(),
            final(self).max_spec() == old(self).max_spec(),
            final(self).entries() == drop_key(old(self).entries(), *key),
            (r is Some) <==> has_key(old(self).entries(), *key),
            has_key(old(self).entries(), *key) ==> {
                let e = old(self).entries();
                let i = index_of_key(e, *key);
                &&& r == Some(e[i].1.value)
                &&& final(self).total_spec() == old(self).total_spec() - e[i].1.size
            },
    {
        let ghost orig = self.entries();
        let removed = lhm_remove(&mut self.map, key);
        match removed {
            None => None,
            Some(it) => {
                proof {
                    let i = index_of_key(orig, *key);
                    lemma_sum_remove(orig, i);
                    lemma_sum_nonneg(orig.remove(i));
                    lemma_remove_props(orig, i);
                }
                self.total_value_size = self.total_value_size - it.size;
                Some(it.value)
            },
        }
    }
}

} // verus!
