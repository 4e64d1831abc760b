//! Packets and replies.

use display_studio::ddc::protocol::{
    checksum, frame, parse_capability_chunk, parse_vcp_reply, OP_CAPS_REPLY, OP_CAPS_REQUEST,
    OP_GET_VCP, OP_GET_VCP_REPLY, OP_SET_VCP, SEED_GET, SEED_REPLY, SEED_SET,
};
use display_studio::ddc::Error;

/// The bytes for Get VCP 0x10, confirmed working against real hardware.
#[test]
fn get_vcp_frame_matches_monitorcontrol_bytes() {
    assert_eq!(
        frame(OP_GET_VCP, &[0x10], SEED_GET),
        vec![0x82, 0x01, 0x10, 0xFD]
    );
}

#[test]
fn set_vcp_frame_matches_monitorcontrol_bytes() {
    assert_eq!(
        frame(OP_SET_VCP, &[0x10, 0x00, 0x32], SEED_SET),
        vec![0x84, 0x03, 0x10, 0x00, 0x32, 0x9A]
    );
}

/// 0xF3 must not be encoded as a Set VCP. The length byte must reflect the operand count, and the op
/// byte must stay 0xF3.
#[test]
fn caps_request_is_not_mistaken_for_set_vcp() {
    let p = frame(OP_CAPS_REQUEST, &[0x00, 0x00], SEED_GET);
    assert_eq!(p[0], 0x83, "length byte must encode 3 data bytes");
    assert_eq!(p[1], OP_CAPS_REQUEST);
    assert_ne!(p[1], OP_SET_VCP);
}

fn vcp_reply_bytes(code: u8, ty: u8, max: u16, cur: u16, result: u8) -> [u8; 11] {
    let mut r = [
        0x6E,
        0x88,
        OP_GET_VCP_REPLY,
        result,
        code,
        ty,
        (max >> 8) as u8,
        (max & 0xFF) as u8,
        (cur >> 8) as u8,
        (cur & 0xFF) as u8,
        0,
    ];
    r[10] = checksum(SEED_REPLY, &r, 0, 9);
    r
}

#[test]
fn parses_a_well_formed_reply() {
    let r = vcp_reply_bytes(0x10, 0x00, 100, 50, 0x00);
    let p = parse_vcp_reply(&r, 0x10).unwrap();
    assert_eq!(p.current, 50);
    assert_eq!(p.max, 100);
    assert!(!p.non_continuous);
}

#[test]
fn flags_non_continuous_codes() {
    let r = vcp_reply_bytes(0x60, 0x01, 0x11, 0x0F, 0x00);
    assert!(parse_vcp_reply(&r, 0x60).unwrap().non_continuous);
}

/// Result code 1 means "unsupported", not "value is 0".
#[test]
fn unsupported_vcp_is_an_error_not_a_zero_reading() {
    let r = vcp_reply_bytes(0x10, 0x00, 0, 0, 0x01);
    assert!(parse_vcp_reply(&r, 0x10).is_err());
}

#[test]
fn rejects_reply_for_a_different_code() {
    let r = vcp_reply_bytes(0x12, 0x00, 100, 50, 0x00);
    assert!(parse_vcp_reply(&r, 0x10).is_err());
}

#[test]
fn rejects_corrupt_checksum() {
    let mut r = vcp_reply_bytes(0x10, 0x00, 100, 50, 0x00);
    r[10] ^= 0xFF;
    assert!(matches!(
        parse_vcp_reply(&r, 0x10),
        Err(Error::Checksum { .. })
    ));
}

fn caps_reply_bytes(offset: u16, data: &[u8], buf_len: usize) -> Vec<u8> {
    let len = data.len() + 3;
    let mut r = vec![
        0x6E,
        0x80 | len as u8,
        OP_CAPS_REPLY,
        (offset >> 8) as u8,
        (offset & 0xFF) as u8,
    ];
    r.extend_from_slice(data);
    r.push(0);
    let last = r.len() - 1;
    r[last] = checksum(SEED_REPLY, &r, 0, last - 1);
    r.resize(buf_len, 0); // trailing garbage, as a real fixed-size read has
    r
}

#[test]
fn parses_caps_chunk_from_oversized_buffer() {
    let r = caps_reply_bytes(0, b"(prot(monitor)", 64);
    assert_eq!(parse_capability_chunk(&r, 0).unwrap(), b"(prot(monitor)");
}

#[test]
fn empty_caps_chunk_terminates_without_error() {
    let r = caps_reply_bytes(12, b"", 64);
    assert!(parse_capability_chunk(&r, 12).unwrap().is_empty());
}

#[test]
fn rejects_caps_chunk_at_wrong_offset() {
    let r = caps_reply_bytes(32, b"abc", 64);
    assert!(parse_capability_chunk(&r, 0).is_err());
}

#[test]
fn rejects_caps_frame_longer_than_read_buffer() {
    let mut r = caps_reply_bytes(0, b"abcdefgh", 64);
    r[1] = 0x80 | 60; // claim more payload than was read
    assert!(parse_capability_chunk(&r[..16], 0).is_err());
}
