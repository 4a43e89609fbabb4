//! A pastebin-style in-memory content store.
//!
//! The core is a byte-budgeted, deadline-expiring cache engine: a
//! capacity-bounded, recency-ordered map ([`lru_hash_map`]) combined with a
//! deadline-ordered expiration index ([`expiration`]) under one public
//! contract ([`store`]) and shared between request handlers and a background
//! sweeper through one lock ([`state`]). Around it stand the opaque key
//! codec ([`key`]), the request/response shapes ([`dto`]) and the pure
//! request-handling rules ([`handler`]).

pub mod dto;
pub mod expiration;
pub mod handler;
pub mod key;
pub mod lru_hash_map;
pub mod record;
pub mod state;
pub mod store;
pub mod time;
