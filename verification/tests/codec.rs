//! Tests of the compact integer and byte-string codec.

use paint_client::codec::{compact_decode, compact_encode, compact_encode_bytes};

fn round_trip(n: u128) {
    let enc = compact_encode(n);
    let (value, consumed) = compact_decode(&enc, 0).expect("encodings must decode");
    assert_eq!(value, n);
    assert_eq!(consumed, enc.len());
}

#[test]
fn encode_single_byte_class() {
    assert_eq!(compact_encode(0), vec![0x00]);
    assert_eq!(compact_encode(1), vec![0x04]);
    assert_eq!(compact_encode(42), vec![0xa8]);
    assert_eq!(compact_encode(63), vec![0xfc]);
}

#[test]
fn encode_two_byte_class() {
    assert_eq!(compact_encode(64), vec![0x01, 0x01]);
    assert_eq!(compact_encode(16383), vec![0xfd, 0xff]);
}

#[test]
fn encode_four_byte_class() {
    assert_eq!(compact_encode(16384), vec![0x02, 0x00, 0x01, 0x00]);
    assert_eq!(compact_encode(0x3fff_ffff), vec![0xfe, 0xff, 0xff, 0xff]);
}

#[test]
fn encode_big_class() {
    assert_eq!(compact_encode(0x4000_0000), vec![0x03, 0x00, 0x00, 0x00, 0x40]);
    let mut expected = vec![0x13];
    expected.extend(vec![0xff; 8]);
    assert_eq!(compact_encode(u64::MAX as u128), expected);
    let mut expected = vec![0x33];
    expected.extend(vec![0xff; 16]);
    assert_eq!(compact_encode(u128::MAX), expected);
}

#[test]
fn encode_uses_fewest_bytes() {
    // One byte more than the class boundary needs would be non-canonical:
    // each boundary value takes exactly the declared width.
    assert_eq!(compact_encode(63).len(), 1);
    assert_eq!(compact_encode(64).len(), 2);
    assert_eq!(compact_encode(16383).len(), 2);
    assert_eq!(compact_encode(16384).len(), 4);
    assert_eq!(compact_encode(0x3fff_ffff).len(), 4);
    assert_eq!(compact_encode(0x4000_0000).len(), 5);
    assert_eq!(compact_encode(0x1_0000_0000).len(), 6);
}

#[test]
fn decode_is_left_inverse_of_encode() {
    let samples: Vec<u128> = vec![
        0,
        1,
        41,
        63,
        64,
        255,
        256,
        16383,
        16384,
        65535,
        0x3fff_ffff,
        0x4000_0000,
        0xdead_beef,
        u64::MAX as u128 - 1,
        u64::MAX as u128,
        u128::MAX - 1,
        u128::MAX,
    ];
    for n in samples {
        round_trip(n);
    }
}

#[test]
fn encode_is_deterministic() {
    assert_eq!(compact_encode(123_456_789), compact_encode(123_456_789));
}

#[test]
fn encode_is_injective_on_samples() {
    let samples: Vec<u128> = vec![0, 1, 63, 64, 16383, 16384, 0x4000_0000, u64::MAX as u128];
    for (i, a) in samples.iter().enumerate() {
        for (j, b) in samples.iter().enumerate() {
            if i != j {
                assert_ne!(compact_encode(*a), compact_encode(*b));
            }
        }
    }
}

#[test]
fn decode_consumes_only_the_encoding() {
    let mut bytes = compact_encode(16384);
    bytes.push(0x98);
    bytes.push(0x77);
    let (value, consumed) = compact_decode(&bytes, 0).expect("prefix is a valid encoding");
    assert_eq!(value, 16384);
    assert_eq!(consumed, 4);
    // Decoding can resume mid-buffer at the next offset.
    let (next, next_consumed) = compact_decode(&bytes, consumed).expect("tail decodes too");
    assert_eq!(next, 0x98 / 4);
    assert_eq!(next_consumed, 1);
}

#[test]
fn decode_empty_is_malformed() {
    let bytes: Vec<u8> = vec![];
    assert!(compact_decode(&bytes, 0).is_err());
}

#[test]
fn decode_truncated_two_byte_is_malformed() {
    // 0x01 declares the two-byte class but only one byte remains.
    let bytes = vec![0x01];
    assert!(compact_decode(&bytes, 0).is_err());
}

#[test]
fn decode_truncated_four_byte_is_malformed() {
    let bytes = vec![0x02, 0x00, 0x01];
    assert!(compact_decode(&bytes, 0).is_err());
}

#[test]
fn decode_truncated_big_is_malformed() {
    // Header declares 4 value bytes; only 3 follow.
    let bytes = vec![0x03, 0x00, 0x00, 0x40];
    assert!(compact_decode(&bytes, 0).is_err());
}

#[test]
fn decode_oversized_width_class_is_malformed() {
    // Header 0x37 declares 17 value bytes: out of range for 128 bits,
    // malformed even though enough bytes follow.
    let bytes = vec![0x37; 18];
    assert!(compact_decode(&bytes, 0).is_err());
}

#[test]
fn encode_bytes_is_length_prefixed() {
    let data = vec![0xaa, 0xbb, 0xcc];
    let enc = compact_encode_bytes(&data);
    assert_eq!(enc, vec![0x0c, 0xaa, 0xbb, 0xcc]);
    let empty: Vec<u8> = vec![];
    assert_eq!(compact_encode_bytes(&empty), vec![0x00]);
}
