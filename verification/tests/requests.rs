use pastebin::dto::{ErrRes, SaveRecordReq};
use pastebin::handler::{
    find_response, prepare_save, upstream_retry_action, UpstreamAction, UpstreamOutcome,
};
use pastebin::store::StoreItem;

fn req(expiration: u64) -> SaveRecordReq {
    SaveRecordReq {
        title: "a title".to_string(),
        lang: "rust".to_string(),
        content: "some content".to_string(),
        expiration,
    }
}

#[test]
fn test_prepare_save_ok() {
    let now: u128 = 1_700_000_000_123_456_789;
    let (record, dead_time) = prepare_save(req(90), now, 600).unwrap();
    // a requested time-to-live of N seconds yields a deadline exactly N
    // seconds of nanoseconds past `now`
    assert_eq!(dead_time, now + 90 * 1_000_000_000);
    assert_eq!(record.dead_time, dead_time);
    assert_eq!(record.saving_time, 1_700_000_000);
    assert_eq!(record.title, "a title");
    assert_eq!(record.lang, "rust");
    assert_eq!(record.content, "some content");
    assert_eq!(record.expiration, 90);
}

#[test]
fn test_prepare_save_rejects_long_expiration() {
    let err = prepare_save(req(601), 1_000, 600).unwrap_err();
    assert_eq!(err.code, 1003);
    assert_eq!(err.message, "Too long expiration");
    // the boundary itself is allowed
    assert!(prepare_save(req(600), 1_000, 600).is_ok());
}

#[test]
fn test_error_codes() {
    let cases = [
        (ErrRes::bad_key(), 1001, "Can not parse key"),
        (ErrRes::record_not_found(), 1002, "Can not find record"),
        (ErrRes::too_long_expiration(), 1003, "Too long expiration"),
        (ErrRes::too_long_content(), 1004, "Too long content"),
        (ErrRes::redis_error(), 1005, "Storage error"),
    ];
    for (err, code, message) in cases {
        assert_eq!(err.code, code);
        assert_eq!(err.message, message);
    }
}

#[test]
fn test_find_response() {
    let (record, _) = prepare_save(req(30), 2_000_000_000, 600).unwrap();
    let mut item = StoreItem::new(record);
    item.access_count = 4;
    let res = find_response(&item);
    assert_eq!(res.title, "a title");
    assert_eq!(res.lang, "rust");
    assert_eq!(res.content, "some content");
    assert_eq!(res.saving_time, 2);
    assert_eq!(res.expiration, 30);
    assert_eq!(res.view_count, 4);
}

#[test]
fn test_retry_policy() {
    assert!(matches!(
        upstream_retry_action(UpstreamOutcome::Done, false),
        UpstreamAction::Accept
    ));
    assert!(matches!(
        upstream_retry_action(UpstreamOutcome::Done, true),
        UpstreamAction::Accept
    ));
    assert!(matches!(
        upstream_retry_action(UpstreamOutcome::TransientError, false),
        UpstreamAction::ReconnectAndRetry
    ));
    match upstream_retry_action(UpstreamOutcome::TransientError, true) {
        UpstreamAction::GiveUp(e) => {
            assert_eq!(e.code, 1005);
            assert_eq!(e.message, "Storage error");
        }
        _ => panic!("a second failure must give up"),
    }
}
