use railstore::errors::StorageError;
use railstore::keys::{decode_single, encode_pair, encode_single};

#[test]
fn encode_single_is_big_endian() {
    assert_eq!(encode_single(0), vec![0, 0, 0, 0, 0, 0, 0, 0]);
    assert_eq!(encode_single(5), vec![0, 0, 0, 0, 0, 0, 0, 5]);
    assert_eq!(encode_single(0x0102030405060708), vec![1, 2, 3, 4, 5, 6, 7, 8]);
    assert_eq!(
        encode_single(u64::MAX),
        vec![0xff, 0xff, 0xff, 0xff, 0xff, 0xff, 0xff, 0xff]
    );
}

#[test]
fn encode_single_preserves_order() {
    let samples: Vec<u64> = vec![
        0,
        1,
        2,
        255,
        256,
        257,
        65535,
        65536,
        1 << 24,
        (1 << 32) - 1,
        1 << 32,
        1 << 40,
        1 << 56,
        u64::MAX - 1,
        u64::MAX,
    ];
    for &a in &samples {
        for &b in &samples {
            let ea = encode_single(a);
            let eb = encode_single(b);
            assert_eq!(a < b, ea < eb, "order mismatch for {} and {}", a, b);
            assert_eq!(a == b, ea == eb);
        }
    }
}

#[test]
fn decode_single_inverts_encode() {
    let samples: Vec<u64> = vec![0, 1, 42, 255, 256, 1 << 31, 1 << 63, u64::MAX];
    for &x in &samples {
        let e = encode_single(x);
        assert_eq!(decode_single(&e), Ok(x));
    }
}

#[test]
fn decode_single_rejects_wrong_width() {
    assert_eq!(decode_single(&[]), Err(StorageError::MalformedKey));
    assert_eq!(decode_single(&[1, 2, 3]), Err(StorageError::MalformedKey));
    assert_eq!(
        decode_single(&[1, 2, 3, 4, 5, 6, 7, 8, 9]),
        Err(StorageError::MalformedKey)
    );
}

#[test]
fn encode_pair_concatenates_halves() {
    let p = encode_pair(5, 9);
    assert_eq!(p.len(), 16);
    assert_eq!(&p[0..8], encode_single(5).as_slice());
    assert_eq!(&p[8..16], encode_single(9).as_slice());
    assert_eq!(decode_single(&p[0..8]), Ok(5));
    assert_eq!(decode_single(&p[8..16]), Ok(9));
}

#[test]
fn encode_pair_prefix_orders_like_first_component() {
    let a = encode_pair(5, 900);
    let b = encode_pair(7, 1);
    assert!(a < b);
    assert_eq!(&a[0..8], encode_single(5).as_slice());
}
