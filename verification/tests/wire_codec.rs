use zkp_course::bignum::BigNum;
use zkp_course::codec::{deserialize, serialize, DecodeError};

fn n(v: u64) -> BigNum {
    BigNum::from_bytes_be(&v.to_be_bytes())
}

#[test]
fn encoding_is_fixed_width_big_endian() {
    assert_eq!(serialize(&n(1125), 2), Some(vec![4, 101]));
    assert_eq!(serialize(&n(1125), 4), Some(vec![0, 0, 4, 101]));
    assert_eq!(serialize(&n(0), 3), Some(vec![0, 0, 0]));
    assert_eq!(serialize(&n(0), 0), Some(vec![]));
    assert_eq!(serialize(&n(255), 1), Some(vec![255]));
    assert_eq!(serialize(&BigNum::from_bytes_be(&[0, 0, 0, 7]), 2), Some(vec![0, 7]));
}

#[test]
fn encoding_refuses_what_does_not_fit() {
    assert_eq!(serialize(&n(256), 1), None);
    assert_eq!(serialize(&n(1), 0), None);
    assert_eq!(serialize(&n(u64::MAX), 7), None);
    assert_eq!(serialize(&n(u64::MAX), 8), Some(vec![255; 8]));
    assert_eq!(serialize(&BigNum::from_bytes_be(&[1, 0, 0]), 2), None);
}

#[test]
fn decoding_rejects_truncated_bytes() {
    assert_eq!(deserialize(&[1, 2, 3], 4).err(), Some(DecodeError::Truncated));
    assert_eq!(deserialize(&[], 1).err(), Some(DecodeError::Truncated));
}

#[test]
fn decoding_rejects_oversized_bytes() {
    assert_eq!(deserialize(&[0, 1, 2, 3, 4], 4).err(), Some(DecodeError::Oversized));
    assert_eq!(deserialize(&[0], 0).err(), Some(DecodeError::Oversized));
}

#[test]
fn decoding_reads_exactly_the_agreed_width() {
    assert!(deserialize(&[0, 0, 4, 101], 4).unwrap().equals(&n(1125)));
    assert!(deserialize(&[255, 255], 2).unwrap().equals(&n(65535)));
    assert!(deserialize(&[], 0).unwrap().is_zero());
}

#[test]
fn codec_round_trip() {
    for width in 0..5usize {
        for v in [0u64, 1, 2, 127, 128, 255, 256, 257, 65535, 65536, 16777215, 16777216, 4294967295] {
            match serialize(&n(v), width) {
                Some(bytes) => {
                    assert_eq!(bytes.len(), width);
                    assert!(deserialize(&bytes, width).unwrap().equals(&n(v)));
                }
                None => assert!(width < 8 && (v >> (8 * width)) != 0),
            }
        }
    }
}

#[test]
fn codec_round_trip_on_bytes() {
    let bytes = [0u8, 9, 0, 200, 17];
    let value = deserialize(&bytes, 5).unwrap();
    assert_eq!(serialize(&value, 5), Some(bytes.to_vec()));
}
