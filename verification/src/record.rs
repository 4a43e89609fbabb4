//! The stored paste and its byte cost.

use crate::lru_hash_map::LruValueSize;
use crate::store::WithDeadTime;
use crate::time::{NanoTime, SecTime};
use vstd::prelude::*;
use vstd::utf8::encode_utf8;

verus! {

/// The base byte cost attributed to every stored record, over and above the
/// byte length of its variable-length fields.
pub const RECORD_BASE_COST: usize = 104;

/// A stored paste: the payload fields, the client-facing times, and the
/// deadline at which it expires.
#[derive(Debug)]
pub struct Record {
    pub title: String,
    pub lang: String,
    pub content: String,
    pub saving_time: SecTime,
    pub expiration: SecTime,
    pub dead_time: NanoTime,
}

impl Record {
    /// Returns a record equal to this one.
    pub fn duplicate(&self) -> (r: Record)
        ensures
            r == *self,
    {
        Record {
            title: self.title.clone(),
            lang: self.lang.clone(),
            content: self.content.clone(),
            saving_time: self.saving_time,
            expiration: self.expiration,
            dead_time: self.dead_time,
        }
    }

    /// The record's byte cost, or nothing where it would not fit the
    /// machine's size type. Callers reject a record as oversized before it
    /// reaches the engine.
    pub fn try_cost(&self) -> (r: Option<usize>)
        ensures
            match r {
                Some(c) => c as nat == self.lru_size_spec(),
                None => self.lru_size_spec() > usize::MAX as nat,
            },
    {
        let a = RECORD_BASE_COST.checked_add(self.title.as_str().len());
        let b = match a {
            Some(x) => x.checked_add(self.lang.as_str().len()),
            None => None,
        };
        match b {
            Some(x) => x.checked_add(self.content.as_str().len()),
            None => None,
        }
    }
}

impl LruValueSize for Record {
    /// The byte cost of a record: the fixed base cost plus the byte length
    /// of each variable-length field, each as the machine measures it.
    open spec fn lru_size_spec(&self) -> nat {
        (RECORD_BASE_COST + (encode_utf8(self.title@).len() as usize) + (encode_utf8(
            self.lang@,
        ).len() as usize) + (encode_utf8(self.content@).len() as usize)) as nat
    }

    fn lru_value_size(&self) -> (r: usize)
        ensures
            r as nat == self.lru_size_spec(),
    {
        RECORD_BASE_COST + self.title.as_str().len() + self.lang.as_str().len()
            + self.content.as_str().len()
    }
}

impl WithDeadTime for Record {
    /// The deadline is the record's own `dead_time` field.
    open spec fn dead_time_spec(&self) -> NanoTime {
        self.dead_time
    }

    fn dead_time(&self) -> (r: NanoTime)
        ensures
            r == self.dead_time_spec(),
    {
        self.dead_time
    }
}

} // verus!
