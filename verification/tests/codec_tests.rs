//! The frame codec: the length prefix, and the decode of well-formed and
//! broken buffers.

use challenge_relay::codec::{decode_frame, encode_frame, ProtocolError};

#[test]
fn encode_prefixes_the_length_in_big_endian() {
    let payload: Vec<u8> = vec![b'h', b'i'];
    let framed = encode_frame(&payload);
    assert_eq!(framed, vec![0, 0, 0, 2, b'h', b'i']);
}

#[test]
fn encode_then_decode_gives_back_the_payload() {
    let payload: Vec<u8> = (0..=255u8).collect();
    let framed = encode_frame(&payload);
    assert_eq!(decode_frame(&framed), Ok(payload));
}

#[test]
fn decode_rejects_a_short_header() {
    let buf: Vec<u8> = vec![0, 0, 1];
    assert_eq!(decode_frame(&buf), Err(ProtocolError::TruncatedHeader));
}

#[test]
fn decode_rejects_a_wrong_payload_size() {
    let buf: Vec<u8> = vec![0, 0, 0, 3, b'h', b'i'];
    assert_eq!(decode_frame(&buf), Err(ProtocolError::PayloadSizeMismatch));
    let buf2: Vec<u8> = vec![0, 0, 0, 1, b'h', b'i'];
    assert_eq!(decode_frame(&buf2), Err(ProtocolError::PayloadSizeMismatch));
}

#[test]
fn empty_payload_round_trips() {
    let payload: Vec<u8> = vec![];
    let framed = encode_frame(&payload);
    assert_eq!(framed, vec![0, 0, 0, 0]);
    assert_eq!(decode_frame(&framed), Ok(vec![]));
}
