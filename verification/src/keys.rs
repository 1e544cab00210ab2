//! Order-preserving key codec.
//!
//! Logical keys are 64-bit identifiers; stored keys are fixed-width
//! big-endian byte strings. Because the encoding is big-endian and
//! fixed-width, byte-lexicographic order on encoded keys coincides with
//! numeric order on the identifiers, which is what makes prefix scans
//! over composite keys equivalent to range queries.

use vstd::prelude::*;
use crate::errors::StorageError;

verus! {

/// The big-endian 8-byte encoding of a 64-bit identifier.
pub open spec fn spec_encode_single(x: u64) -> Seq<u8> {
    seq![
        ((x >> 56) & 0xff) as u8,
        ((x >> 48) & 0xff) as u8,
        ((x >> 40) & 0xff) as u8,
        ((x >> 32) & 0xff) as u8,
        ((x >> 24) & 0xff) as u8,
        ((x >> 16) & 0xff) as u8,
        ((x >> 8) & 0xff) as u8,
        (x & 0xff) as u8,
    ]
}

/// The identifier denoted by an 8-byte big-endian string.
pub open spec fn spec_decode_single(s: Seq<u8>) -> u64
    recommends
        s.len() == 8,
{
    (((s[0] as u64) << 56) | ((s[1] as u64) << 48) | ((s[2] as u64) << 40)
        | ((s[3] as u64) << 32) | ((s[4] as u64) << 24) | ((s[5] as u64) << 16)
        | ((s[6] as u64) << 8) | (s[7] as u64)) as u64
}

/// The 16-byte encoding of a composite key: the first component's bytes
/// followed by the second component's bytes.
pub open spec fn spec_encode_pair(a: u64, b: u64) -> Seq<u8> {
    spec_encode_single(a) + spec_encode_single(b)
}

/// Strict byte-lexicographic order, the order in which the underlying
/// engine stores its keys: a proper prefix sorts before its extensions,
/// and otherwise the first differing byte decides.
pub open spec fn lex_less(a: Seq<u8>, b: Seq<u8>) -> bool {
    exists|i: int|
        0 <= i <= a.len() && i <= b.len()
        && #[trigger] a.subrange(0, i) =~= b.subrange(0, i)
        && if i < a.len() && i < b.len() {
            a[i] < b[i]
        } else {
            i == a.len() && i < b.len()
        }
}

/// A low byte extracted by masking always fits in eight bits, and casting
/// it down and back up loses nothing.
proof fn lemma_low_byte(y: u64)
    ensures
        y & 0xff < 256,
        ((y & 0xff) as u8) as u64 == y & 0xff,
{
    assert(y & 0xff < 256) by (bit_vector);
}

/// Decoding the encoding of any identifier yields that identifier back.
pub proof fn lemma_single_round_trip(x: u64)
    ensures
        spec_decode_single(spec_encode_single(x)) == x,
{
    assert((((((x >> 56) & 0xff) as u8) as u64) << 56
        | ((((x >> 48) & 0xff) as u8) as u64) << 48
        | ((((x >> 40) & 0xff) as u8) as u64) << 40
        | ((((x >> 32) & 0xff) as u8) as u64) << 32
        | ((((x >> 24) & 0xff) as u8) as u64) << 24
        | ((((x >> 16) & 0xff) as u8) as u64) << 16
        | ((((x >> 8) & 0xff) as u8) as u64) << 8
        | (((x & 0xff) as u8) as u64)) as u64 == x) by (bit_vector);
}

/// Encoding the value an 8-byte string decodes to yields the same bytes,
/// so the encoding is a bijection between identifiers and 8-byte strings.
pub proof fn lemma_single_bijective(s: Seq<u8>)
    requires
        s.len() == 8,
    ensures
        spec_encode_single(spec_decode_single(s)) =~= s,
{
    let b0 = s[0];
    let b1 = s[1];
    let b2 = s[2];
    let b3 = s[3];
    let b4 = s[4];
    let b5 = s[5];
    let b6 = s[6];
    let b7 = s[7];
    let x = spec_decode_single(s);
    assert({
        let y = (((b0 as u64) << 56) | ((b1 as u64) << 48) | ((b2 as u64) << 40)
            | ((b3 as u64) << 32) | ((b4 as u64) << 24) | ((b5 as u64) << 16)
            | ((b6 as u64) << 8) | (b7 as u64)) as u64;
        ((y >> 56) & 0xff) as u8 == b0
        && ((y >> 48) & 0xff) as u8 == b1
        && ((y >> 40) & 0xff) as u8 == b2
        && ((y >> 32) & 0xff) as u8 == b3
        && ((y >> 24) & 0xff) as u8 == b4
        && ((y >> 16) & 0xff) as u8 == b5
        && ((y >> 8) & 0xff) as u8 == b6
        && (y & 0xff) as u8 == b7
    }) by (bit_vector);
    assert(spec_encode_single(x)[0] == s[0]);
    assert(spec_encode_single(x)[1] == s[1]);
    assert(spec_encode_single(x)[2] == s[2]);
    assert(spec_encode_single(x)[3] == s[3]);
    assert(spec_encode_single(x)[4] == s[4]);
    assert(spec_encode_single(x)[5] == s[5]);
    assert(spec_encode_single(x)[6] == s[6]);
    assert(spec_encode_single(x)[7] == s[7]);
}

/// Numeric order coincides with the byte-at-a-time comparison chain on the
/// eight big-endian bytes: the first differing byte decides.
proof fn lemma_byte_chain(a: u64, b: u64)
    ensures
        (a < b) <==> (a >> 56 & 0xff < b >> 56 & 0xff
            || (a >> 56 & 0xff == b >> 56 & 0xff && a >> 48 & 0xff < b >> 48 & 0xff)
            || (a >> 56 & 0xff == b >> 56 & 0xff && a >> 48 & 0xff == b >> 48 & 0xff
                && a >> 40 & 0xff < b >> 40 & 0xff)
            || (a >> 56 & 0xff == b >> 56 & 0xff && a >> 48 & 0xff == b >> 48 & 0xff
                && a >> 40 & 0xff == b >> 40 & 0xff && a >> 32 & 0xff < b >> 32 & 0xff)
            || (a >> 56 & 0xff == b >> 56 & 0xff && a >> 48 & 0xff == b >> 48 & 0xff
                && a >> 40 & 0xff == b >> 40 & 0xff && a >> 32 & 0xff == b >> 32 & 0xff
                && a >> 24 & 0xff < b >> 24 & 0xff)
            || (a >> 56 & 0xff == b >> 56 & 0xff && a >> 48 & 0xff == b >> 48 & 0xff
                && a >> 40 & 0xff == b >> 40 & 0xff && a >> 32 & 0xff == b >> 32 & 0xff
                && a >> 24 & 0xff == b >> 24 & 0xff && a >> 16 & 0xff < b >> 16 & 0xff)
            || (a >> 56 & 0xff == b >> 56 & 0xff && a >> 48 & 0xff == b >> 48 & 0xff
                && a >> 40 & 0xff == b >> 40 & 0xff && a >> 32 & 0xff == b >> 32 & 0xff
                && a >> 24 & 0xff == b >> 24 & 0xff && a >> 16 & 0xff == b >> 16 & 0xff
                && a >> 8 & 0xff < b >> 8 & 0xff)
            || (a >> 56 & 0xff == b >> 56 & 0xff && a >> 48 & 0xff == b >> 48 & 0xff
                && a >> 40 & 0xff == b >> 40 & 0xff && a >> 32 & 0xff == b >> 32 & 0xff
                && a >> 24 & 0xff == b >> 24 & 0xff && a >> 16 & 0xff == b >> 16 & 0xff
                && a >> 8 & 0xff == b >> 8 & 0xff && a & 0xff < b & 0xff)),
{
    assert((a < b) <==> (a >> 56 & 0xff < b >> 56 & 0xff
        || (a >> 56 & 0xff == b >> 56 & 0xff && a >> 48 & 0xff < b >> 48 & 0xff)
        || (a >> 56 & 0xff == b >> 56 & 0xff && a >> 48 & 0xff == b >> 48 & 0xff
            && a >> 40 & 0xff < b >> 40 & 0xff)
        || (a >> 56 & 0xff == b >> 56 & 0xff && a >> 48 & 0xff == b >> 48 & 0xff
            && a >> 40 & 0xff == b >> 40 & 0xff && a >> 32 & 0xff < b >> 32 & 0xff)
        || (a >> 56 & 0xff == b >> 56 & 0xff && a >> 48 & 0xff == b >> 48 & 0xff
            && a >> 40 & 0xff == b >> 40 & 0xff && a >> 32 & 0xff == b >> 32 & 0xff
            && a >> 24 & 0xff < b >> 24 & 0xff)
        || (a >> 56 & 0xff == b >> 56 & 0xff && a >> 48 & 0xff == b >> 48 & 0xff
            && a >> 40 & 0xff == b >> 40 & 0xff && a >> 32 & 0xff == b >> 32 & 0xff
            && a >> 24 & 0xff == b >> 24 & 0xff && a >> 16 & 0xff < b >> 16 & 0xff)
        || (a >> 56 & 0xff == b >> 56 & 0xff && a >> 48 & 0xff == b >> 48 & 0xff
            && a >> 40 & 0xff == b >> 40 & 0xff && a >> 32 & 0xff == b >> 32 & 0xff
            && a >> 24 & 0xff == b >> 24 & 0xff && a >> 16 & 0xff == b >> 16 & 0xff
            && a >> 8 & 0xff < b >> 8 & 0xff)
        || (a >> 56 & 0xff == b >> 56 & 0xff && a >> 48 & 0xff == b >> 48 & 0xff
            && a >> 40 & 0xff == b >> 40 & 0xff && a >> 32 & 0xff == b >> 32 & 0xff
            && a >> 24 & 0xff == b >> 24 & 0xff && a >> 16 & 0xff == b >> 16 & 0xff
            && a >> 8 & 0xff == b >> 8 & 0xff && a & 0xff < b & 0xff))) by (bit_vector);
}

/// Byte-lexicographic order on encoded keys is exactly numeric order on
/// the identifiers they encode.
pub proof fn lemma_encode_single_order(a: u64, b: u64)
    ensures
        (a < b) <==> lex_less(spec_encode_single(a), spec_encode_single(b)),
{
    let ea = spec_encode_single(a);
    let eb = spec_encode_single(b);
    lemma_byte_chain(a, b);
    lemma_low_byte(a >> 56);
    lemma_low_byte(a >> 48);
    lemma_low_byte(a >> 40);
    lemma_low_byte(a >> 32);
    lemma_low_byte(a >> 24);
    lemma_low_byte(a >> 16);
    lemma_low_byte(a >> 8);
    lemma_low_byte(a);
    lemma_low_byte(b >> 56);
    lemma_low_byte(b >> 48);
    lemma_low_byte(b >> 40);
    lemma_low_byte(b >> 32);
    lemma_low_byte(b >> 24);
    lemma_low_byte(b >> 16);
    lemma_low_byte(b >> 8);
    lemma_low_byte(b);
    if a < b {
        let i = choose|i: int|
            0 <= i < 8 && (forall|j: int| 0 <= j < i ==> ea[j] == eb[j]) && ea[i] < eb[i];
        assert(exists|i: int|
            0 <= i < 8 && (forall|j: int| 0 <= j < i ==> ea[j] == eb[j]) && #[trigger] ea[i]
                < eb[i]) by {
            if ea[0] < eb[0] {
                assert(0 <= 0 < 8 && (forall|j: int| 0 <= j < 0 ==> ea[j] == eb[j]) && ea[0]
                    < eb[0]);
            } else if ea[1] < eb[1] {
                assert(0 <= 1 < 8 && (forall|j: int| 0 <= j < 1 ==> ea[j] == eb[j]) && ea[1]
                    < eb[1]);
            } else if ea[2] < eb[2] {
                assert(0 <= 2 < 8 && (forall|j: int| 0 <= j < 2 ==> ea[j] == eb[j]) && ea[2]
                    < eb[2]);
            } else if ea[3] < eb[3] {
                assert(0 <= 3 < 8 && (forall|j: int| 0 <= j < 3 ==> ea[j] == eb[j]) && ea[3]
                    < eb[3]);
            } else if ea[4] < eb[4] {
                assert(0 <= 4 < 8 && (forall|j: int| 0 <= j < 4 ==> ea[j] == eb[j]) && ea[4]
                    < eb[4]);
            } else if ea[5] < eb[5] {
                assert(0 <= 5 < 8 && (forall|j: int| 0 <= j < 5 ==> ea[j] == eb[j]) && ea[5]
                    < eb[5]);
            } else if ea[6] < eb[6] {
                assert(0 <= 6 < 8 && (forall|j: int| 0 <= j < 6 ==> ea[j] == eb[j]) && ea[6]
                    < eb[6]);
            } else {
                assert(0 <= 7 < 8 && (forall|j: int| 0 <= j < 7 ==> ea[j] == eb[j]) && ea[7]
                    < eb[7]);
            }
        }
        assert(ea.subrange(0, i) =~= eb.subrange(0, i));
        assert(lex_less(ea, eb));
    }
    if lex_less(ea, eb) {
        let i = choose|i: int|
            0 <= i <= ea.len() && i <= eb.len()
            && #[trigger] ea.subrange(0, i) =~= eb.subrange(0, i)
            && if i < ea.len() && i < eb.len() {
                ea[i] < eb[i]
            } else {
                i == ea.len() && i < eb.len()
            };
        assert(0 <= i < 8);
        assert forall|j: int| 0 <= j < i implies ea[j] == eb[j] by {
            assert(ea.subrange(0, i)[j] == eb.subrange(0, i)[j]);
            assert(ea.subrange(0, i)[j] == ea[j]);
            assert(eb.subrange(0, i)[j] == eb[j]);
        }
        assert(ea[i] < eb[i]);
        assert(a < b);
    }
}

/// The first component of a composite key occupies the first eight bytes
/// exactly, so a scan by that prefix selects precisely the keys sharing it.
pub proof fn lemma_pair_prefix(a: u64, b: u64)
    ensures
        spec_encode_pair(a, b).len() == 16,
        spec_encode_pair(a, b).subrange(0, 8) =~= spec_encode_single(a),
        spec_encode_pair(a, b).subrange(8, 16) =~= spec_encode_single(b),
{
}

/// Decoding the two halves of a composite key recovers both components.
pub proof fn lemma_pair_round_trip(a: u64, b: u64)
    ensures
        spec_decode_single(spec_encode_pair(a, b).subrange(0, 8)) == a,
        spec_decode_single(spec_encode_pair(a, b).subrange(8, 16)) == b,
{
    lemma_pair_prefix(a, b);
    lemma_single_round_trip(a);
    lemma_single_round_trip(b);
}

/// No byte string sorts strictly before itself.
pub proof fn lemma_lex_irreflexive(x: Seq<u8>)
    ensures
        !lex_less(x, x),
{
    if lex_less(x, x) {
        let i = choose|i: int|
            0 <= i <= x.len() && i <= x.len()
            && #[trigger] x.subrange(0, i) =~= x.subrange(0, i)
            && if i < x.len() && i < x.len() {
                x[i] < x[i]
            } else {
                i == x.len() && i < x.len()
            };
        assert(false);
    }
}

/// Prepending one shared prefix to two byte strings preserves their
/// relative lexicographic order.
pub proof fn lemma_lex_same_prefix(p: Seq<u8>, s: Seq<u8>, t: Seq<u8>)
    ensures
        lex_less(p + s, p + t) <==> lex_less(s, t),
{
    let ps = p + s;
    let pt = p + t;
    if lex_less(ps, pt) {
        let i = choose|i: int|
            0 <= i <= ps.len() && i <= pt.len()
            && #[trigger] ps.subrange(0, i) =~= pt.subrange(0, i)
            && if i < ps.len() && i < pt.len() {
                ps[i] < pt[i]
            } else {
                i == ps.len() && i < pt.len()
            };
        if i < p.len() {
            assert(ps.subrange(0, i) =~= pt.subrange(0, i));
            assert(ps[i] == p[i]);
            assert(pt[i] == p[i]);
            assert(false);
        }
        let j = i - p.len();
        assert forall|x: int| 0 <= x < j implies s[x] == t[x] by {
            assert(ps.subrange(0, i)[p.len() + x] == pt.subrange(0, i)[p.len() + x]);
            assert(ps[p.len() + x] == s[x]);
            assert(pt[p.len() + x] == t[x]);
        }
        assert(s.subrange(0, j) =~= t.subrange(0, j));
        if i < ps.len() && i < pt.len() {
            assert(s[j] == ps[i]);
            assert(t[j] == pt[i]);
        }
        assert(lex_less(s, t));
    }
    if lex_less(s, t) {
        let j = choose|j: int|
            0 <= j <= s.len() && j <= t.len()
            && #[trigger] s.subrange(0, j) =~= t.subrange(0, j)
            && if j < s.len() && j < t.len() {
                s[j] < t[j]
            } else {
                j == s.len() && j < t.len()
            };
        let i = j + p.len();
        assert forall|x: int| 0 <= x < i implies ps[x] == pt[x] by {
            if x < p.len() {
                assert(ps[x] == p[x]);
                assert(pt[x] == p[x]);
            } else {
                assert(s.subrange(0, j)[x - p.len()] == t.subrange(0, j)[x - p.len()]);
                assert(ps[x] == s[x - p.len()]);
                assert(pt[x] == t[x - p.len()]);
            }
        }
        assert(ps.subrange(0, i) =~= pt.subrange(0, i));
        if j < s.len() && j < t.len() {
            assert(ps[i] == s[j]);
            assert(pt[i] == t[j]);
        }
        assert(lex_less(ps, pt));
    }
}

/// Two composite keys that share their first component compare, and
/// therefore sort, by their second component.
pub proof fn lemma_pair_tail_order(a: u64, k1: Seq<u8>, k2: Seq<u8>)
    requires
        k1.len() == 16,
        k2.len() == 16,
        k1.subrange(0, 8) == spec_encode_single(a),
        k2.subrange(0, 8) == spec_encode_single(a),
        lex_less(k1, k2),
    ensures
        spec_decode_single(k1.subrange(8, 16)) < spec_decode_single(k2.subrange(8, 16)),
{
    let p = spec_encode_single(a);
    let t1 = k1.subrange(8, 16);
    let t2 = k2.subrange(8, 16);
    assert(k1 =~= p + t1);
    assert(k2 =~= p + t2);
    lemma_lex_same_prefix(p, t1, t2);
    lemma_single_bijective(t1);
    lemma_single_bijective(t2);
    lemma_encode_single_order(spec_decode_single(t1), spec_decode_single(t2));
}

/// Extract one big-endian byte of an identifier.
fn shift_byte(x: u64, sh: u64) -> (r: u8)
    requires
        sh <= 56,
    ensures
        r == ((x >> sh) & 0xff) as u8,
{
    proof {
        lemma_low_byte(x >> sh);
    }
    ((x >> sh) & 0xff) as u8
}

/// Encode one identifier as its fixed-width big-endian byte string.
pub fn encode_single(id: u64) -> (r: Vec<u8>)
    ensures
        r@ =~= spec_encode_single(id),
        r@.len() == 8,
{
    let mut v: Vec<u8> = Vec::new();
    v.push(shift_byte(id, 56));
    v.push(shift_byte(id, 48));
    v.push(shift_byte(id, 40));
    v.push(shift_byte(id, 32));
    v.push(shift_byte(id, 24));
    v.push(shift_byte(id, 16));
    v.push(shift_byte(id, 8));
    v.push(shift_byte(id, 0));
    proof {
        assert((id >> 0) & 0xff == id & 0xff) by (bit_vector);
        assert(v@.len() == 8);
        assert(v@[0] == ((id >> 56) & 0xff) as u8);
        assert(v@[1] == ((id >> 48) & 0xff) as u8);
        assert(v@[2] == ((id >> 40) & 0xff) as u8);
        assert(v@[3] == ((id >> 32) & 0xff) as u8);
        assert(v@[4] == ((id >> 24) & 0xff) as u8);
        assert(v@[5] == ((id >> 16) & 0xff) as u8);
        assert(v@[6] == ((id >> 8) & 0xff) as u8);
        assert(v@[7] == (id & 0xff) as u8);
    }
    v
}

/// Encode a composite key: first component's bytes, then the second's.
pub fn encode_pair(a: u64, b: u64) -> (r: Vec<u8>)
    ensures
        r@ =~= spec_encode_pair(a, b),
        r@.len() == 16,
{
    let mut v = encode_single(a);
    let mut w = encode_single(b);
    v.append(&mut w);
    v
}

/// Decode an 8-byte big-endian string back to its identifier; any other
/// length indicates corruption or version skew and is rejected.
pub fn decode_single(bytes: &[u8]) -> (r: Result<u64, StorageError>)
    ensures
        bytes@.len() == 8 ==> r == Ok::<u64, StorageError>(spec_decode_single(bytes@)),
        bytes@.len() != 8 ==> r == Err::<u64, StorageError>(StorageError::MalformedKey),
{
    if bytes.len() != 8 {
        return Err(StorageError::MalformedKey);
    }
    let x = ((bytes[0] as u64) << 56) | ((bytes[1] as u64) << 48) | ((bytes[2] as u64) << 40)
        | ((bytes[3] as u64) << 32) | ((bytes[4] as u64) << 24) | ((bytes[5] as u64) << 16)
        | ((bytes[6] as u64) << 8) | (bytes[7] as u64);
    Ok(x)
}

} // verus!
