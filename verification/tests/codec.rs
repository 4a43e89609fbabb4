use pastebin::key::{key_to_nano, nano_to_key, KEY_VALUE_BOUND};
use pastebin::time::{nano_to_sec, now_nano, sec_to_nano, NanoTime};

#[test]
fn test_key_nano() {
    for _ in 0..3 {
        let nano = now_nano();
        let key = nano_to_key("magic", nano);
        let nano2 = key_to_nano("magic", &key).unwrap();
        assert_eq!(nano, nano2);
        println!("nano: {}\nkey:  {}", nano, key);
        println!("arr:  {:?}", nano.to_ne_bytes());
    }
}

#[test]
fn test_now_nano() {
    for _ in 0..3 {
        println!("now: {} ns", now_nano());
    }
}

#[test]
fn test_key_roundtrip_values() {
    let cases: Vec<NanoTime> = vec![
        0,
        1,
        255,
        256,
        1_234_567_890_123_456_789,
        KEY_VALUE_BOUND - 1,
    ];
    for nano in cases {
        let key = nano_to_key("magic", nano);
        assert_eq!(key_to_nano("magic", &key), Some(nano));
    }
}

#[test]
fn test_key_roundtrip_truncates_high_bytes() {
    // the key carries only the eight low-order bytes of the timestamp
    let nano: NanoTime = KEY_VALUE_BOUND * 7 + 42;
    let key = nano_to_key("magic", nano);
    assert_eq!(key_to_nano("magic", &key), Some(42));
}

#[test]
fn test_key_depends_on_secret() {
    let a = nano_to_key("magic", 123_456_789);
    let b = nano_to_key("other secret", 123_456_789);
    assert_ne!(a, b);
}

#[test]
fn test_empty_key_is_rejected() {
    assert_eq!(key_to_nano("magic", ""), None);
}

#[test]
fn test_time_conversions() {
    assert_eq!(sec_to_nano(0), 0);
    assert_eq!(sec_to_nano(3), 3_000_000_000);
    assert_eq!(sec_to_nano(u64::MAX), (u64::MAX as u128) * 1_000_000_000);
    assert_eq!(nano_to_sec(0), 0);
    assert_eq!(nano_to_sec(999_999_999), 0);
    assert_eq!(nano_to_sec(1_000_000_000), 1);
    assert_eq!(nano_to_sec(sec_to_nano(12345)), 12345);
}
