use pastebin::lru_hash_map::LruValueSize;
use pastebin::record::{Record, RECORD_BASE_COST};
use pastebin::store::{Store, StoreItem};

fn rec(content: &str, dead_time: u128) -> Record {
    Record {
        title: String::new(),
        lang: String::new(),
        content: content.to_string(),
        saving_time: 0,
        expiration: 0,
        dead_time,
    }
}

// an empty record costs exactly the base cost
const C: usize = RECORD_BASE_COST;

#[test]
fn test_capacity_invariant() {
    // budget for three empty records and a little slack
    let budget = 3 * C + 10;
    let mut s = Store::new(budget, 8);
    for i in 0..6u128 {
        s.save(i, rec("", 1_000_000), 1_000_000);
        assert!(s.total_value_size() <= budget);
        assert_eq!(s.total_value_size(), C * s.item_count());
    }
    assert_eq!(s.item_count(), 3);
}

#[test]
fn test_lru_eviction_order() {
    // budget that fits exactly three minimal records
    let mut s = Store::new(3 * C, 8);
    s.save(1, rec("", 1000), 1000);
    s.save(2, rec("", 1000), 1000);
    s.save(3, rec("", 1000), 1000);
    assert_eq!(s.item_count(), 3);
    // a fourth save evicts exactly the least recently touched key
    s.save(4, rec("", 1000), 1000);
    assert!(s.access(1).is_none());
    assert!(s.access(2).is_some());
    assert!(s.access(3).is_some());
    assert!(s.access(4).is_some());
    // refreshing a key protects it: 2, 3 and 4 were just accessed, so the
    // recency order is now 2, 3, 4 and a fifth save evicts 2 -- access 2
    // again to protect it, then save
    s.access(2);
    // order: 3, 4, 2
    s.save(5, rec("", 1000), 1000);
    assert!(s.access(3).is_none());
    assert!(s.access(2).is_some());
    assert!(s.access(4).is_some());
    assert!(s.access(5).is_some());
}

#[test]
fn test_access_counting() {
    let mut s = Store::new(10 * C, 8);
    s.save(7, rec("", 1000), 1000);
    assert_eq!(s.access(7).unwrap().access_count, 1);
    assert_eq!(s.access(7).unwrap().access_count, 2);
    assert_eq!(s.access(7).unwrap().access_count, 3);
    // a fresh save resets the counter
    s.save(7, rec("", 2000), 2000);
    assert_eq!(s.access(7).unwrap().access_count, 1);
}

#[test]
fn test_overwrite_returns_old_value() {
    let mut s = Store::new(10 * C + 100, 8);
    assert!(s.save(1, rec("first", 1000), 1000).is_none());
    let old = s.save(1, rec("second", 2000), 2000);
    assert_eq!(old.unwrap().content, "first");
    assert_eq!(s.item_count(), 1);
    assert_eq!(s.total_value_size(), C + "second".len());
    assert_eq!(s.access(1).unwrap().value.content, "second");
}

#[test]
fn test_expiration_and_total() {
    // save key C with deadline now + 5 s; a sweep before the deadline
    // changes nothing, a sweep at the deadline removes the record
    let now: u128 = 1_000_000_000_000;
    let dead = now + 5_000_000_000;
    let mut s = Store::new(10 * C + 100, 8);
    s.save(77, rec("payload", dead), dead);
    let cost = C + "payload".len();
    assert_eq!(s.total_value_size(), cost);

    assert!(!s.needs_clean(dead - 1));
    let removed = s.clean(dead - 1);
    assert_eq!(removed, 0);
    assert_eq!(s.access(77).unwrap().access_count, 1);
    assert_eq!(s.total_value_size(), cost);

    assert!(s.needs_clean(dead));
    s.clean(dead);
    assert!(s.access(77).is_none());
    assert_eq!(s.total_value_size(), 0);
    assert_eq!(s.item_count(), 0);
}

#[test]
fn test_tombstone_tolerance() {
    // budget for exactly two records: the first save is later evicted by
    // capacity pressure, and its stale index entry must sweep harmlessly
    let mut s = Store::new(2 * C, 8);
    s.save(1, rec("", 1000), 1000);
    s.save(2, rec("", 2000), 2000);
    s.save(3, rec("", 3000), 3000);
    // key 1 fell to the size policy; its index entry is now a tombstone
    assert!(s.access(1).is_none());
    assert_eq!(s.access(2).unwrap().access_count, 1);
    let total_before = s.total_value_size();
    let count_before = s.item_count();
    // the sweep pops the tombstone: no error, no effect on unrelated keys
    assert!(s.needs_clean(1000));
    let removed = s.clean(1000);
    assert_eq!(removed, 1);
    assert_eq!(s.total_value_size(), total_before);
    assert_eq!(s.item_count(), count_before);
    assert_eq!(s.access(2).unwrap().access_count, 2);
    assert_eq!(s.access(3).unwrap().access_count, 1);
}

#[test]
fn test_noop_sweep() {
    let mut s = Store::new(4 * C, 8);
    s.save(1, rec("", 5000), 5000);
    s.save(2, rec("", 6000), 6000);
    let total_before = s.total_value_size();
    let count_before = s.item_count();
    assert!(!s.needs_clean(4999));
    let removed = s.clean(4999);
    assert_eq!(removed, 0);
    assert_eq!(s.total_value_size(), total_before);
    assert_eq!(s.item_count(), count_before);
    assert_eq!(s.access(1).unwrap().access_count, 1);
    assert_eq!(s.access(2).unwrap().access_count, 1);
}

#[test]
fn test_end_to_end_capacity_eviction() {
    // two items that cannot share the budget: the second save evicts the
    // first, reading the first reports not found, reading the second counts
    let now: u128 = 50_000_000_000;
    let budget = 2 * C + 100;
    // each record costs C + 60 bytes, so two together exceed the budget
    let body = "x".repeat(60);
    let mut s = Store::new(budget, 8);
    s.save(1, rec(&body, now + 10_000_000_000), now + 10_000_000_000);
    s.save(2, rec(&body, now + 20_000_000_000), now + 20_000_000_000);
    assert!(s.access(1).is_none());
    let item = s.access(2).unwrap();
    assert_eq!(item.access_count, 1);
    assert_eq!(s.item_count(), 1);
}

#[test]
fn test_store_item_new() {
    let it = StoreItem::new(rec("abc", 9));
    assert_eq!(it.access_count, 0);
    assert_eq!(it.size, C + 3);
    assert_eq!(it.value.content, "abc");
}

#[test]
fn test_record_cost() {
    let r = Record {
        title: "t".to_string(),
        lang: "rust".to_string(),
        content: "hello".to_string(),
        saving_time: 1,
        expiration: 2,
        dead_time: 3,
    };
    assert_eq!(r.lru_value_size(), RECORD_BASE_COST + 1 + 4 + 5);
    assert_eq!(r.try_cost(), Some(RECORD_BASE_COST + 1 + 4 + 5));
    let copy = r.duplicate();
    assert_eq!(copy.title, r.title);
    assert_eq!(copy.lang, r.lang);
    assert_eq!(copy.content, r.content);
    assert_eq!(copy.saving_time, r.saving_time);
    assert_eq!(copy.expiration, r.expiration);
    assert_eq!(copy.dead_time, r.dead_time);
}

#[test]
fn test_shared_store_lock() {
    let state = pastebin::state::State::new(3 * C, 8);
    let lock = &state.store_lock;
    assert_eq!(lock.max_value_size(), 3 * C);
    assert!(lock.save(1, rec("", 500), 500).is_none());
    assert_eq!(lock.item_count(), 1);
    assert_eq!(lock.total_value_size(), C);
    let item = lock.access(1).unwrap();
    assert_eq!(item.access_count, 1);
    assert!(lock.needs_clean(500));
    assert_eq!(lock.clean(500), 1);
    assert!(lock.access(1).is_none());
    assert_eq!(lock.total_value_size(), 0);
    lock.shrink();
    assert_eq!(lock.item_count(), 0);
}
