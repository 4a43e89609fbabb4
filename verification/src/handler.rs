//! The pure request-handling rules: validation, deadline computation,
//! response shaping, and the bounded retry policy of the alternate backend.

use crate::dto::{ErrRes, FindRecordRes, SaveRecordReq};
use crate::record::Record;
use crate::store::StoreItem;
use crate::time::{nano_to_sec, sec_to_nano, NanoTime, SecTime, NANOS_PER_SEC};
use vstd::prelude::*;

verus! {

/// The compute part of a save request: a time-to-live over the configured
/// maximum is rejected; otherwise the record to store is built, with its
/// deadline exactly `now` plus the requested seconds.
pub fn prepare_save(req: SaveRecordReq, now: NanoTime, max_expiration: SecTime) -> (r: Result<
    (Record, NanoTime),
    ErrRes,
>)
    requires
        now + req.expiration * NANOS_PER_SEC <= u128::MAX,
    ensures
        match r {
            Ok((record, dead_time)) => {
                &&& req.expiration <= max_expiration
                &&& dead_time == now + req.expiration * NANOS_PER_SEC
                &&& record.title == req.title
                &&& record.lang == req.lang
                &&& record.content == req.content
                &&& record.saving_time == (now / NANOS_PER_SEC) as SecTime
                &&& record.expiration == req.expiration
                &&& record.dead_time == dead_time
            },
            Err(e) => req.expiration > max_expiration && e.is_too_long_expiration(),
        },
{
    if req.expiration > max_expiration {
        return Err(ErrRes::too_long_expiration());
    }
    let saving_time = nano_to_sec(now);
    let dead_time = now + sec_to_nano(req.expiration);
    let record = Record {
        title: req.title,
        lang: req.lang,
        content: req.content,
        saving_time,
        expiration: req.expiration,
        dead_time,
    };
    Ok((record, dead_time))
}

/// The response to a successful find: the stored fields and the
/// post-increment access counter.
pub fn find_response(item: &StoreItem<Record>) -> (r: FindRecordRes)
    ensures
        r.title == item.value.title,
        r.lang == item.value.lang,
        r.content == item.value.content,
        r.saving_time == item.value.saving_time,
        r.expiration == item.value.expiration,
        r.view_count == item.access_count,
{
    FindRecordRes {
        title: item.value.title.clone(),
        lang: item.value.lang.clone(),
        content: item.value.content.clone(),
        saving_time: item.value.saving_time,
        expiration: item.value.expiration,
        view_count: item.access_count,
    }
}

/// One request to the alternate backend's upstream store either went
/// through or failed transiently.
pub enum UpstreamOutcome {
    Done,
    TransientError,
}

/// What the handler does next with the alternate backend's upstream store.
pub enum UpstreamAction {
    Accept,
    ReconnectAndRetry,
    GiveUp(ErrRes),
}

/// The bounded retry policy of the alternate backend: a first transient
/// failure earns exactly one reconnect-and-retry; a failure after the retry
/// is surfaced as the stable upstream-storage error.
pub fn upstream_retry_action(outcome: UpstreamOutcome, already_retried: bool) -> (r:
    UpstreamAction)
    ensures
        match outcome {
            UpstreamOutcome::Done => r is Accept,
            UpstreamOutcome::TransientError => {
                if already_retried {
                    r matches UpstreamAction::GiveUp(e) && e.is_storage_error()
                } else {
                    r is ReconnectAndRetry
                }
            },
        },
{
    match outcome {
        UpstreamOutcome::Done => UpstreamAction::Accept,
        UpstreamOutcome::TransientError => {
            if already_retried {
                UpstreamAction::GiveUp(ErrRes::redis_error())
            } else {
                UpstreamAction::ReconnectAndRetry
            }
        },
    }
}

} // verus!
