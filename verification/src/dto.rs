//! Request and response shapes, and the machine-readable error replies.

use crate::time::SecTime;
use vstd::prelude::*;

verus! {

/// An inbound save request: the payload fields and the requested
/// time-to-live in whole seconds.
pub struct SaveRecordReq {
    pub title: String,
    pub lang: String,
    pub content: String,
    pub expiration: SecTime,
}

/// The reply to a successful save: the opaque key handed to the client.
pub struct SaveRecordRes {
    pub key: String,
}

/// The reply to a successful find: the stored fields and the post-increment
/// access counter.
pub struct FindRecordRes {
    pub title: String,
    pub lang: String,
    pub content: String,
    pub saving_time: SecTime,
    pub expiration: SecTime,
    pub view_count: u64,
}

/// An error reply: a small stable code, distinct per failure kind, and a
/// fixed message.
#[derive(Debug)]
pub struct ErrRes {
    pub code: i32,
    pub message: &'static str,
}

impl ErrRes {
    /// The client handed over a key that does not decode.
    pub open spec fn is_bad_key(self) -> bool {
        self.code == 1001 && self.message@ == "Can not parse key"@
    }

    pub fn bad_key() -> (r: ErrRes)
        ensures
            r.is_bad_key(),
    {
        ErrRes { code: 1001, message: "Can not parse key" }
    }

    /// The decoded key has no live entry: absent, evicted or expired.
    pub open spec fn is_record_not_found(self) -> bool {
        self.code == 1002 && self.message@ == "Can not find record"@
    }

    pub fn record_not_found() -> (r: ErrRes)
        ensures
            r.is_record_not_found(),
    {
        ErrRes { code: 1002, message: "Can not find record" }
    }

    /// The requested time-to-live exceeds the configured maximum.
    pub open spec fn is_too_long_expiration(self) -> bool {
        self.code == 1003 && self.message@ == "Too long expiration"@
    }

    pub fn too_long_expiration() -> (r: ErrRes)
        ensures
            r.is_too_long_expiration(),
    {
        ErrRes { code: 1003, message: "Too long expiration" }
    }

    /// The submitted payload exceeds the configured maximum size.
    pub open spec fn is_too_long_content(self) -> bool {
        self.code == 1004 && self.message@ == "Too long content"@
    }

    pub fn too_long_content() -> (r: ErrRes)
        ensures
            r.is_too_long_content(),
    {
        ErrRes { code: 1004, message: "Too long content" }
    }

    /// The alternate backend's upstream storage failed twice in a row.
    pub open spec fn is_storage_error(self) -> bool {
        self.code == 1005 && self.message@ == "Storage error"@
    }

    pub fn redis_error() -> (r: ErrRes)
        ensures
            r.is_storage_error(),
    {
        ErrRes { code: 1005, message: "Storage error" }
    }
}

} // verus!
