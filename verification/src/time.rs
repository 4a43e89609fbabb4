//! Engine time: fine-grained nanoseconds for deadlines, whole seconds for
//! client-facing fields, and the conversions between them.

use vstd::prelude::*;

verus! {

/// Fine-grained engine time: nanoseconds since the Unix epoch.
pub type NanoTime = u128;

/// Coarse client-facing time: whole seconds.
pub type SecTime = u64;

/// The one scale factor between [`SecTime`] and [`NanoTime`].
pub const NANOS_PER_SEC: u128 = 1_000_000_000;

/// Relies on `std::time::SystemTime::now` and `Duration::as_nanos`: the
/// current time as nanoseconds since the Unix epoch, or 0 if the system
/// clock reads earlier than the epoch. Nothing is promised of the value.
#[verifier::external_body]
pub fn now_nano() -> NanoTime {
    match std::time::SystemTime::now().duration_since(std::time::UNIX_EPOCH) {
        Ok(d) => d.as_nanos(),
        Err(_) => 0,
    }
}

pub fn sec_to_nano(sec: SecTime) -> (r: NanoTime)
    ensures
        r == sec * NANOS_PER_SEC,
{
    (sec as NanoTime) * NANOS_PER_SEC
}

pub fn nano_to_sec(nano: NanoTime) -> (r: SecTime)
    ensures
        r == (nano / NANOS_PER_SEC) as SecTime,
{
    #[verifier::truncate]
    ((nano / NANOS_PER_SEC) as SecTime)
}

} // verus!
