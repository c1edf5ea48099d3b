//! Frame codec: every message travels as a 4-byte big-endian length prefix
//! followed by exactly that many payload bytes. Encoding and decoding are
//! exact inverses, proved below.

use vstd::prelude::*;

verus! {

/// A frame that cannot be decoded. Fatal to the connection that sent it.
#[derive(Debug, PartialEq, Eq, Clone, Copy)]
pub enum ProtocolError {
    /// Fewer than four bytes: no complete length prefix.
    TruncatedHeader,
    /// The buffer does not hold exactly the announced number of payload
    /// bytes after the prefix.
    PayloadSizeMismatch,
}

/// The four big-endian bytes of a 32-bit length.
pub open spec fn be_bytes(n: u32) -> Seq<u8> {
    seq![
        ((n >> 24) & 0xFF) as u8,
        ((n >> 16) & 0xFF) as u8,
        ((n >> 8) & 0xFF) as u8,
        (n & 0xFF) as u8,
    ]
}

/// The 32-bit value read from four big-endian bytes.
pub open spec fn be_value(b: Seq<u8>) -> u32
    recommends
        b.len() >= 4,
{
    ((b[0] as u32) << 24) | ((b[1] as u32) << 16) | ((b[2] as u32) << 8) | (b[3] as u32)
}

/// A whole frame: the length prefix followed by the payload.
pub open spec fn frame_spec(payload: Seq<u8>) -> Seq<u8>
    recommends
        payload.len() <= u32::MAX,
{
    be_bytes(payload.len() as u32) + payload
}

/// The payload of a well-formed frame buffer, or the error that such a
/// buffer earns.
pub open spec fn parse_frame_spec(bytes: Seq<u8>) -> Result<Seq<u8>, ProtocolError> {
    if bytes.len() < 4 {
        Err(ProtocolError::TruncatedHeader)
    } else if bytes.len() != 4 + be_value(bytes) {
        Err(ProtocolError::PayloadSizeMismatch)
    } else {
        Ok(bytes.skip(4))
    }
}

/// Encodes a payload as one frame: its length as four big-endian bytes,
/// then the payload itself.
pub fn encode_frame(payload: &Vec<u8>) -> (r: Vec<u8>)
    requires
        payload@.len() <= u32::MAX,
    ensures
        r@ == frame_spec(payload@),
        r@.len() == 4 + payload@.len(),
{
    let len: u32 = payload.len() as u32;
    let mut r: Vec<u8> = Vec::new();
    proof {
        assert((len >> 24) & 0xFF < 256 && (len >> 16) & 0xFF < 256 && (len >> 8) & 0xFF < 256
            && len & 0xFF < 256) by (bit_vector);
    }
    r.push(((len >> 24) & 0xFF) as u8);
    r.push(((len >> 16) & 0xFF) as u8);
    r.push(((len >> 8) & 0xFF) as u8);
    r.push((len & 0xFF) as u8);
    let mut i: usize = 0;
    while i < payload.len()
        invariant
            i <= payload@.len(),
            payload@.len() <= u32::MAX,
            len == payload@.len() as u32,
            r@ == be_bytes(len) + payload@.take(i as int),
        decreases payload@.len() - i,
    {
        r.push(payload[i]);
        proof {
            assert(be_bytes(len) + payload@.take(i + 1) =~= (be_bytes(len) + payload@.take(
                i as int,
            )).push(payload@[i as int]));
        }
        i = i + 1;
    }
    proof {
        assert(payload@.take(payload@.len() as int) =~= payload@);
    }
    r
}

/// Decodes one complete frame buffer back to its payload. Rejects a buffer
/// too short for the prefix, and one whose length does not match the prefix
/// exactly.
pub fn decode_frame(bytes: &Vec<u8>) -> (r: Result<Vec<u8>, ProtocolError>)
    ensures
        match r {
            Ok(p) => parse_frame_spec(bytes@) == Ok::<Seq<u8>, ProtocolError>(p@),
            Err(e) => parse_frame_spec(bytes@) == Err::<Seq<u8>, ProtocolError>(e),
        },
{
    if bytes.len() < 4 {
        return Err(ProtocolError::TruncatedHeader);
    }
    let announced: u32 = ((bytes[0] as u32) << 24) | ((bytes[1] as u32) << 16) | ((bytes[2] as u32)
        << 8) | (bytes[3] as u32);
    proof {
        assert(announced == be_value(bytes@));
    }
    let announced_usize: usize = announced as usize;
    if bytes.len() - 4 != announced_usize {
        return Err(ProtocolError::PayloadSizeMismatch);
    }
    let mut p: Vec<u8> = Vec::new();
    let mut i: usize = 4;
    while i < bytes.len()
        invariant
            4 <= i <= bytes@.len(),
            p@ == bytes@.subrange(4, i as int),
        decreases bytes@.len() - i,
    {
        p.push(bytes[i]);
        proof {
            assert(bytes@.subrange(4, i + 1) =~= bytes@.subrange(4, i as int).push(
                bytes@[i as int],
            ));
        }
        i = i + 1;
    }
    proof {
        assert(p@ =~= bytes@.skip(4));
    }
    Ok(p)
}

/// Law: decoding an encoded frame gives back exactly the payload that was
/// encoded.
pub proof fn lemma_frame_round_trip(payload: Seq<u8>)
    requires
        payload.len() <= u32::MAX,
    ensures
        parse_frame_spec(frame_spec(payload)) == Ok::<Seq<u8>, ProtocolError>(payload),
{
    let n = payload.len() as u32;
    let framed = frame_spec(payload);
    assert(framed.len() == 4 + payload.len());
    let b0 = (n >> 24) & 0xFF;
    let b1 = (n >> 16) & 0xFF;
    let b2 = (n >> 8) & 0xFF;
    let b3 = n & 0xFF;
    assert((n >> 24) & 0xFF < 256 && (n >> 16) & 0xFF < 256 && (n >> 8) & 0xFF < 256 && n & 0xFF
        < 256) by (bit_vector);
    assert(framed[0] == b0 as u8 && framed[1] == b1 as u8 && framed[2] == b2 as u8 && framed[3]
        == b3 as u8);
    assert(((b0 as u8) as u32) == b0 && ((b1 as u8) as u32) == b1 && ((b2 as u8) as u32) == b2 && ((
    b3 as u8) as u32) == b3);
    assert((((n >> 24) & 0xFF) << 24) | (((n >> 16) & 0xFF) << 16) | (((n >> 8) & 0xFF) << 8) | (n
        & 0xFF) == n) by (bit_vector);
    assert(be_value(framed) == n);
    assert(framed.skip(4) =~= payload);
}

} // verus!
