//! Value codec: records to stored bytes and back.
//!
//! The storage layer never inspects record contents; it only needs a
//! deterministic, round-tripping encoding. Every record type has an
//! abstract model (its view), the model flattens to a plain payload — a
//! sequence of 64-bit numbers and one text field — and the payload is
//! serialized to a compact binary form by an outside serializer, named
//! rather than restated here. Decoding reverses both steps, and fails
//! rather than panics on foreign or truncated bytes.

use vstd::prelude::*;
use crate::errors::StorageError;

verus! {

/// The bytes the outside serializer produces for a payload.
pub uninterp spec fn cbor_of(nums: Seq<u64>, text: Seq<char>) -> Seq<u8>;

/// The payload the outside deserializer recovers from a byte string, or
/// nothing where it reports an error.
pub uninterp spec fn cbor_payload(bytes: Seq<u8>) -> Option<(Seq<u64>, Seq<char>)>;

/// Relies on `serde_cbor::to_vec`: the bytes are a function of the
/// payload alone, and `serde_cbor::from_slice` decodes them back to the
/// same payload. Serializing numbers and text into a byte vector cannot
/// fail, so success is promised.
#[verifier::external_body]
pub(crate) fn cbor_encode(nums: &Vec<u64>, text: &str) -> (r: Result<Vec<u8>, StorageError>)
    ensures
        r is Ok,
        r matches Ok(b) ==> b@ == cbor_of(nums@, text@) && (cbor_payload(b@) matches Some(p)
            && p.0 == nums@ && p.1 == text@),
{
    match serde_cbor::to_vec(&(nums, text)) {
        Ok(b) => Ok(b),
        Err(_) => Err(StorageError::EncodeError),
    }
}

/// Relies on `serde_cbor::from_slice`: what it recovers, and whether it
/// fails, is a function of the input bytes alone.
#[verifier::external_body]
pub(crate) fn cbor_decode(bytes: &[u8]) -> (r: Result<(Vec<u64>, String), StorageError>)
    ensures
        r matches Ok(p) ==> (cbor_payload(bytes@) matches Some(q) && q.0 == p.0@ && q.1 == p.1@),
        r matches Err(e) ==> e == StorageError::DecodeError && cbor_payload(bytes@) is None,
{
    match serde_cbor::from_slice::<(Vec<u64>, String)>(bytes) {
        Ok(p) => Ok(p),
        Err(_) => Err(StorageError::DecodeError),
    }
}

/// A storable record: its abstract model flattens to a plain payload and
/// is recovered from one, and reading back a model's own payload always
/// yields that model.
pub trait Record: View + Sized {
    /// The payload this record's model flattens to.
    spec fn model_flat(m: Self::V) -> (Seq<u64>, Seq<char>);

    /// The model a payload denotes, if it is well-formed.
    spec fn model_unflat(nums: Seq<u64>, text: Seq<char>) -> Option<Self::V>;

    /// Reading back a model's own payload yields the model.
    proof fn lemma_flat_round_trip(m: Self::V)
        ensures
            Self::model_unflat(Self::model_flat(m).0, Self::model_flat(m).1) == Some(m),
    ;

    /// The numeric half of the payload.
    fn flat_nums(&self) -> (r: Vec<u64>)
        ensures
            r@ == Self::model_flat(self@).0,
    ;

    /// The text half of the payload.
    fn flat_text(&self) -> (r: &str)
        ensures
            r@ == Self::model_flat(self@).1,
    ;

    /// Rebuild a record from a payload; `None` on a malformed one.
    fn of_flat(nums: Vec<u64>, text: String) -> (r: Option<Self>)
        ensures
            r matches Some(v) ==> Self::model_unflat(nums@, text@) == Some(v@),
            r is None ==> Self::model_unflat(nums@, text@) is None,
    ;
}

/// The stored byte encoding of a record's model.
pub open spec fn spec_record_bytes<R: Record>(m: R::V) -> Seq<u8> {
    cbor_of(R::model_flat(m).0, R::model_flat(m).1)
}

/// The record model stored bytes denote, if they decode.
pub open spec fn spec_record_of_bytes<R: Record>(b: Seq<u8>) -> Option<R::V> {
    match cbor_payload(b) {
        Some(p) => R::model_unflat(p.0, p.1),
        None => None,
    }
}

/// Serialize a record: it always succeeds, the bytes are exactly the
/// encoding of the record's model, and decoding them is guaranteed to
/// yield that model back: the round-trip property of the codec.
pub fn encode_record<R: Record>(r: &R) -> (res: Result<Vec<u8>, StorageError>)
    ensures
        res is Ok,
        res matches Ok(b) ==> b@ == spec_record_bytes::<R>(r@) && spec_record_of_bytes::<R>(b@)
            == Some(r@),
{
    let nums = r.flat_nums();
    let text = r.flat_text();
    let b = match cbor_encode(&nums, text) {
        Ok(b) => b,
        Err(e) => {
            return Err(e);
        },
    };
    proof {
        R::lemma_flat_round_trip(r@);
    }
    Ok(b)
}

/// Deserialize a record; fails with a decode error exactly on bytes that
/// denote no record.
pub fn decode_record<R: Record>(bytes: &[u8]) -> (res: Result<R, StorageError>)
    ensures
        res matches Ok(v) ==> spec_record_of_bytes::<R>(bytes@) == Some(v@),
        res matches Err(e) ==> e == StorageError::DecodeError && spec_record_of_bytes::<R>(
            bytes@,
        ) is None,
{
    match cbor_decode(bytes) {
        Ok((nums, text)) => match R::of_flat(nums, text) {
            Some(v) => Ok(v),
            None => Err(StorageError::DecodeError),
        },
        Err(_) => Err(StorageError::DecodeError),
    }
}

} // verus!
