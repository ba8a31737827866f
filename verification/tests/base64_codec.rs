//! Tests for the base64 payload encoding: round trips across padding
//! lengths, and rejection of characters outside the alphabet.

use wafer_guest::base64::{base64_decode, base64_encode};

#[test]
fn encode_empty() {
    assert_eq!(base64_encode(&[]), "");
}

#[test]
fn encode_hello() {
    assert_eq!(base64_encode(b"hello"), "aGVsbG8=");
}

#[test]
fn encode_padding_variants() {
    assert_eq!(base64_encode(b"f"), "Zg==");
    assert_eq!(base64_encode(b"fo"), "Zm8=");
    assert_eq!(base64_encode(b"foo"), "Zm9v");
    assert_eq!(base64_encode(b"foob"), "Zm9vYg==");
    assert_eq!(base64_encode(b"fooba"), "Zm9vYmE=");
    assert_eq!(base64_encode(b"foobar"), "Zm9vYmFy");
}

#[test]
fn decode_empty() {
    assert_eq!(base64_decode("").unwrap(), Vec::<u8>::new());
}

#[test]
fn decode_hello() {
    assert_eq!(base64_decode("aGVsbG8=").unwrap(), b"hello".to_vec());
}

#[test]
fn decode_without_padding() {
    assert_eq!(base64_decode("aGVsbG8").unwrap(), b"hello".to_vec());
}

#[test]
fn round_trip_all_lengths() {
    for n in 0..32usize {
        let bytes: Vec<u8> = (0..n).map(|i| (i * 37 + 11) as u8).collect();
        let text = base64_encode(&bytes);
        assert_eq!(base64_decode(&text).unwrap(), bytes);
    }
}

#[test]
fn round_trip_binary_bytes() {
    let bytes: Vec<u8> = vec![0, 255, 1, 254, 127, 128, 63, 64];
    assert_eq!(base64_decode(&base64_encode(&bytes)).unwrap(), bytes);
}

#[test]
fn decode_rejects_outside_alphabet() {
    assert!(base64_decode("aGVs bG8=").is_err());
    assert!(base64_decode("aGVs*G8=").is_err());
    assert!(base64_decode("a=b=").is_err());
}
