//! The error kinds the storage layer produces.

use vstd::prelude::*;

verus! {

/// Every failure of the storage layer falls under one of these kinds;
/// callers decide policy (retry, abort the request, or treat as fatal).
#[derive(Clone, Copy, Debug, PartialEq, Eq, Structural)]
pub enum StorageError {
    /// The engine is not initialized, or an I/O failure occurred while
    /// opening or accessing it. Fatal for the operation; never retried
    /// silently.
    StorageUnavailable,
    /// A stored key does not have the expected fixed width; indicates
    /// corruption or version skew. Surfaced, never auto-corrected.
    MalformedKey,
    /// A record could not be serialized.
    EncodeError,
    /// Stored record bytes could not be deserialized; can be triggered by
    /// a corrupted page or a record written under an older schema.
    DecodeError,
    /// The durable identifier counter could not be advanced. Fatal: the
    /// process should stop serving writes.
    AllocatorExhausted,
}

impl StorageError {
    /// A short human-readable description of the error kind.
    pub fn describe(&self) -> (r: &'static str)
        ensures
            r@.len() > 0,
    {
        let s: &'static str = match self {
            StorageError::StorageUnavailable => "storage unavailable",
            StorageError::MalformedKey => "malformed stored key",
            StorageError::EncodeError => "record encoding failed",
            StorageError::DecodeError => "record decoding failed",
            StorageError::AllocatorExhausted => "identifier allocator exhausted",
        };
        proof {
            reveal_strlit("storage unavailable");
            reveal_strlit("malformed stored key");
            reveal_strlit("record encoding failed");
            reveal_strlit("record decoding failed");
            reveal_strlit("identifier allocator exhausted");
        }
        s
    }
}

} // verus!
