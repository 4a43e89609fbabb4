use pastebin::expiration::{Expiration, ExpirationQueue};
use pastebin::lru_hash_map::LruHashMap;
use pastebin::record::Record;
use pastebin::time::NanoTime;

#[test]
fn test_expiration_order() {
    let n = 100_usize;
    let mut v = vec![];
    for i in (0..n).rev() {
        let e = Expiration {
            key: i,
            dead_time: i as NanoTime,
        };
        v.push(e);
    }

    for i in 0..n {
        assert_eq!(
            v[i],
            Expiration {
                key: n - 1 - i,
                dead_time: (n - 1 - i) as NanoTime,
            }
        );
    }

    v.sort();

    for i in 0..n {
        assert_eq!(
            v[i],
            Expiration {
                key: i,
                dead_time: i as NanoTime,
            }
        );
    }
}

fn rec(i: u128) -> Record {
    Record {
        title: String::new(),
        lang: String::new(),
        content: String::new(),
        saving_time: 0,
        expiration: 0,
        dead_time: i,
    }
}

#[test]
fn test_expiration_queue_clean() {
    let n = 100_u128;
    let mut map = LruHashMap::with_capacity(usize::MAX, 20);
    let mut q = ExpirationQueue::with_capacity(20);
    for i in 0..n {
        q.push(i, i);
        map.insert(i, rec(i));
    }

    let now: NanoTime = 5;
    assert!(q.needs_clean(n));
    q.clean(now, &mut map);
    for i in 0..n {
        if i <= now {
            assert!(map.get_refresh(&i).is_none());
        } else {
            let item = map.get_refresh(&i).unwrap();
            assert_eq!(item.value.dead_time, i);
        }
    }
}

#[test]
fn test_needs_clean_boundary() {
    let mut q: ExpirationQueue<NanoTime> = ExpirationQueue::with_capacity(4);
    assert!(!q.needs_clean(u128::MAX));
    q.push(1, 100);
    assert!(!q.needs_clean(99));
    assert!(q.needs_clean(100));
    assert!(q.needs_clean(101));
}

#[test]
fn test_duplicate_deadlines() {
    let mut map = LruHashMap::with_capacity(usize::MAX, 8);
    let mut q = ExpirationQueue::with_capacity(8);
    map.insert(1, rec(100));
    map.insert(2, rec(100));
    map.insert(3, rec(200));
    q.push(1, 100);
    q.push(2, 100);
    q.push(3, 200);
    let removed = q.clean(100, &mut map);
    assert_eq!(removed, 2);
    assert!(map.get_refresh(&1).is_none());
    assert!(map.get_refresh(&2).is_none());
    assert!(map.get_refresh(&3).is_some());
    assert!(!q.needs_clean(100));
}
