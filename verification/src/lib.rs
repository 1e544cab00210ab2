//! A typed, verified access layer over an embedded ordered key-value store.
//!
//! The crate provides a key codec whose byte-lexicographic order matches
//! numeric order, a durable monotonic identifier allocator, a binary value
//! codec, and generic single-key and composite-key table operations with
//! prefix scans, together with the entity modules that maintain secondary
//! index tables by convention.

pub mod auth;
pub mod codec;
pub mod constants;
pub mod database;
pub mod errors;
pub mod id_types;
pub mod keys;
pub mod schedule;
pub mod store;
pub mod ticket;
pub mod train;
