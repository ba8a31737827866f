//! Tests for the memory bridge: packing and unpacking pointer/length
//! pairs.

use wafer_guest::{pack_ptr_len, unpack_ptr_len};

#[test]
fn pack_unpack_example() {
    let packed = pack_ptr_len(0xDEADBEEFu32 as i32, 0x00000010);
    let (p, l) = unpack_ptr_len(packed);
    assert_eq!(p as u32, 0xDEADBEEF);
    assert_eq!(l, 16);
}

#[test]
fn pack_unpack_zero() {
    let packed = pack_ptr_len(0, 0);
    assert_eq!(packed, 0);
    assert_eq!(unpack_ptr_len(packed), (0, 0));
}

#[test]
fn pack_unpack_extremes() {
    let cases: [(i32, i32); 5] = [
        (-1, -1),
        (i32::MIN, i32::MAX),
        (i32::MAX, i32::MIN),
        (1, 0),
        (0, -1),
    ];
    for (p, l) in cases {
        let packed = pack_ptr_len(p, l);
        assert_eq!(unpack_ptr_len(packed), (p, l));
    }
}

#[test]
fn pack_layout_high_and_low() {
    let packed = pack_ptr_len(1, 2);
    assert_eq!(packed as u64, (1u64 << 32) | 2);
}

#[test]
fn allocate_buffer_is_zeroed() {
    let v = wafer_guest::context::allocate_buffer(5);
    assert_eq!(v, vec![0u8; 5]);
}

#[test]
fn null_host_reply_is_host_error() {
    let r = wafer_guest::context::interpret_send_reply(0, 0, &[]);
    assert_eq!(r.action, wafer_guest::Action::Error);
    assert_eq!(r.error.unwrap().code, "host_error");
}

#[test]
fn undecodable_host_reply_is_decode_error() {
    let r = wafer_guest::context::interpret_send_reply(64, 3, b"???");
    assert_eq!(r.action, wafer_guest::Action::Error);
    assert_eq!(r.error.unwrap().code, "decode_error");
}

#[test]
fn valid_host_reply_is_decoded() {
    let r = wafer_guest::context::interpret_send_reply(64, 17, br#"{"action":"drop"}"#);
    assert_eq!(r.action, wafer_guest::Action::Drop);
    assert!(r.response.is_none() && r.error.is_none());
}
