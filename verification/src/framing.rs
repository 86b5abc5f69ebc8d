//! Length-prefix plus type-tag framing.
//!
//! Every unit on a stream is one frame: a 4-byte big-endian total length
//! `L` (covering the type tag and the payload, `0 < L <= 8 MiB`), one
//! type-tag byte, and `L - 1` payload bytes. The framing layer does not
//! interpret payloads; it only guarantees message boundaries.

use vstd::prelude::*;
use vstd::slice::slice_subrange;

use crate::error::NetworkError;
use crate::MAX_FRAME_SIZE;

verus! {

/// Type tag of a frame that carries an encoded protocol message.
pub const FRAME_TYPE_PROTOCOL: u8 = 0x00;

/// Type tag of a frame that carries raw application bytes.
pub const FRAME_TYPE_RAW: u8 = 0x01;

/// The big-endian 4-byte encoding of a 32-bit value.
pub open spec fn u32_be_bytes(x: u32) -> Seq<u8> {
    seq![(x >> 24) as u8, (x >> 16) as u8, (x >> 8) as u8, x as u8]
}

/// The 32-bit value read back from 4 big-endian bytes.
pub open spec fn u32_from_be(s: Seq<u8>) -> u32
    recommends
        s.len() == 4,
{
    (((s[0] as u32) << 24) | ((s[1] as u32) << 16) | ((s[2] as u32) << 8) | (s[3] as u32)) as u32
}

/// Reading back the big-endian bytes of a value yields the value.
pub proof fn lemma_u32_be_round_trip(x: u32)
    ensures
        u32_from_be(u32_be_bytes(x)) == x,
{
    let s = u32_be_bytes(x);
    let b0 = s[0];
    let b1 = s[1];
    let b2 = s[2];
    let b3 = s[3];
    assert((((b0 as u32) << 24) | ((b1 as u32) << 16) | ((b2 as u32) << 8) | (b3 as u32)) as u32
        == x) by (bit_vector)
        requires
            b0 == (x >> 24) as u8 && b1 == (x >> 16) as u8 && b2 == (x >> 8) as u8 && b3
                == x as u8,
    ;
}

/// The big-endian 8-byte encoding of a 64-bit value.
pub open spec fn u64_be_bytes(x: u64) -> Seq<u8> {
    seq![
        (x >> 56) as u8,
        (x >> 48) as u8,
        (x >> 40) as u8,
        (x >> 32) as u8,
        (x >> 24) as u8,
        (x >> 16) as u8,
        (x >> 8) as u8,
        x as u8,
    ]
}

/// The 64-bit value read back from 8 big-endian bytes.
pub open spec fn u64_from_be(s: Seq<u8>) -> u64
    recommends
        s.len() == 8,
{
    (((s[0] as u64) << 56) | ((s[1] as u64) << 48) | ((s[2] as u64) << 40) | ((s[3] as u64) << 32)
        | ((s[4] as u64) << 24) | ((s[5] as u64) << 16) | ((s[6] as u64) << 8) | (
    s[7] as u64)) as u64
}

/// Reading back the big-endian bytes of a 64-bit value yields the value.
pub proof fn lemma_u64_be_round_trip(x: u64)
    ensures
        u64_from_be(u64_be_bytes(x)) == x,
{
    let s = u64_be_bytes(x);
    let b0 = s[0];
    let b1 = s[1];
    let b2 = s[2];
    let b3 = s[3];
    let b4 = s[4];
    let b5 = s[5];
    let b6 = s[6];
    let b7 = s[7];
    assert((((b0 as u64) << 56) | ((b1 as u64) << 48) | ((b2 as u64) << 40) | ((b3 as u64) << 32)
        | ((b4 as u64) << 24) | ((b5 as u64) << 16) | ((b6 as u64) << 8) | (b7 as u64)) as u64
        == x) by (bit_vector)
        requires
            b0 == (x >> 56) as u8 && b1 == (x >> 48) as u8 && b2 == (x >> 40) as u8 && b3 == (x
                >> 32) as u8 && b4 == (x >> 24) as u8 && b5 == (x >> 16) as u8 && b6 == (x
                >> 8) as u8 && b7 == x as u8,
    ;
}

/// Writes one 64-bit value as 8 big-endian bytes.
pub fn u64_to_be(x: u64) -> (r: Vec<u8>)
    ensures
        r@ == u64_be_bytes(x),
{
    let mut r: Vec<u8> = Vec::new();
    r.push((x >> 56) as u8);
    r.push((x >> 48) as u8);
    r.push((x >> 40) as u8);
    r.push((x >> 32) as u8);
    r.push((x >> 24) as u8);
    r.push((x >> 16) as u8);
    r.push((x >> 8) as u8);
    r.push(x as u8);
    proof {
        assert(r@ =~= u64_be_bytes(x));
    }
    r
}

/// Reads one 64-bit value back from 8 big-endian bytes.
pub fn u64_from_be_slice(b: &[u8]) -> (r: u64)
    requires
        b@.len() == 8,
    ensures
        r == u64_from_be(b@),
{
    (((b[0] as u64) << 56) | ((b[1] as u64) << 48) | ((b[2] as u64) << 40) | ((b[3] as u64) << 32)
        | ((b[4] as u64) << 24) | ((b[5] as u64) << 16) | ((b[6] as u64) << 8) | (
    b[7] as u64)) as u64
}

/// True when a payload of `n` bytes fits in one frame: the total length
/// `n + 1` (payload plus type tag) must not exceed the frame size limit.
pub open spec fn fits_in_frame(n: nat) -> bool {
    n + 1 <= MAX_FRAME_SIZE
}

/// The bytes of one whole frame: big-endian length, type tag, payload.
pub open spec fn frame_bytes(tag: u8, payload: Seq<u8>) -> Seq<u8>
    recommends
        fits_in_frame(payload.len()),
{
    u32_be_bytes((payload.len() + 1) as u32) + seq![tag] + payload
}

/// The parse of a byte buffer holding exactly one frame.
///
/// The parse succeeds when the buffer holds a 4-byte length header, the
/// header value covers the rest of the buffer exactly, and that value is
/// positive and within the frame size limit; it then yields the type tag
/// and the payload.
pub open spec fn parse_frame(buf: Seq<u8>) -> Option<(u8, Seq<u8>)> {
    if buf.len() >= 5 && u32_from_be(buf.subrange(0, 4)) as int == buf.len() - 4 && buf.len() - 4
        <= MAX_FRAME_SIZE {
        Some((buf[4], buf.subrange(5, buf.len() as int)))
    } else {
        None
    }
}

/// Parsing the frame written for a payload yields the tag and the payload.
pub proof fn lemma_frame_round_trip(tag: u8, payload: Seq<u8>)
    requires
        fits_in_frame(payload.len()),
    ensures
        parse_frame(frame_bytes(tag, payload)) == Some((tag, payload)),
{
    let len32 = (payload.len() + 1) as u32;
    let buf = frame_bytes(tag, payload);
    lemma_u32_be_round_trip(len32);
    assert(buf.subrange(0, 4) =~= u32_be_bytes(len32));
    assert(buf.subrange(5, buf.len() as int) =~= payload);
}

/// Writes one value as 4 big-endian bytes.
pub fn u32_to_be(x: u32) -> (r: Vec<u8>)
    ensures
        r@ == u32_be_bytes(x),
{
    let mut r: Vec<u8> = Vec::new();
    r.push((x >> 24) as u8);
    r.push((x >> 16) as u8);
    r.push((x >> 8) as u8);
    r.push(x as u8);
    proof {
        assert(r@ =~= u32_be_bytes(x));
    }
    r
}

/// Reads one value back from 4 big-endian bytes.
pub fn u32_from_be_slice(b: &[u8]) -> (r: u32)
    requires
        b@.len() == 4,
    ensures
        r == u32_from_be(b@),
{
    (((b[0] as u32) << 24) | ((b[1] as u32) << 16) | ((b[2] as u32) << 8) | (b[3] as u32)) as u32
}

/// Builds the bytes of one typed frame for a payload.
///
/// A payload too large for one frame is rejected at the writer; nothing
/// is written for it.
pub fn write_typed_frame(frame_type: u8, data: &[u8]) -> (r: Result<Vec<u8>, NetworkError>)
    ensures
        r is Ok <==> fits_in_frame(data@.len()),
        r is Ok ==> r->Ok_0@ == frame_bytes(frame_type, data@),
{
    if data.len() > MAX_FRAME_SIZE - 1 {
        return Err(NetworkError::Protocol(String::from_str("frame too large")));
    }
    let total_len: u32 = (data.len() + 1) as u32;
    let mut r = u32_to_be(total_len);
    r.push(frame_type);
    r.extend_from_slice(data);
    proof {
        assert(r@ =~= frame_bytes(frame_type, data@));
    }
    Ok(r)
}

/// Validates a frame header and yields the total length to read next.
///
/// The header is the 4-byte big-endian length `L`; the caller then reads
/// `L` further bytes (type tag plus payload). A zero or oversized length
/// is rejected here, before any payload is read or allocated.
pub fn frame_len_from_header(header: &[u8]) -> (r: Result<usize, NetworkError>)
    requires
        header@.len() == 4,
    ensures
        r is Ok <==> 0 < u32_from_be(header@) && u32_from_be(header@) <= MAX_FRAME_SIZE,
        r is Ok ==> r->Ok_0 == u32_from_be(header@) as usize,
{
    let len = u32_from_be_slice(header);
    if len == 0 {
        return Err(NetworkError::Protocol(String::from_str("empty frame")));
    }
    if len > MAX_FRAME_SIZE as u32 {
        return Err(NetworkError::Protocol(String::from_str("frame too large")));
    }
    Ok(len as usize)
}

/// Parses one whole frame out of a buffer.
///
/// Succeeds exactly when the buffer is one well-formed frame, and then
/// yields its type tag and its payload.
pub fn read_typed_frame(buf: &[u8]) -> (r: Result<(u8, Vec<u8>), NetworkError>)
    ensures
        r is Ok <==> parse_frame(buf@) is Some,
        r is Ok ==> Some((r->Ok_0.0, r->Ok_0.1@)) == parse_frame(buf@),
{
    if buf.len() < 5 {
        proof {
            if buf@.len() == 4 {
                assert(buf@.subrange(0, 4) =~= buf@);
            }
        }
        return Err(NetworkError::Protocol(String::from_str("truncated frame")));
    }
    let header = slice_subrange(buf, 0, 4);
    let total_len = u32_from_be_slice(header);
    proof {
        assert(header@ =~= buf@.subrange(0, 4));
    }
    if total_len as usize != buf.len() - 4 {
        return Err(NetworkError::Protocol(String::from_str("frame length mismatch")));
    }
    if buf.len() - 4 > MAX_FRAME_SIZE {
        return Err(NetworkError::Protocol(String::from_str("frame too large")));
    }
    let tag = buf[4];
    let payload_slice = slice_subrange(buf, 5, buf.len());
    let mut payload: Vec<u8> = Vec::new();
    payload.extend_from_slice(payload_slice);
    proof {
        assert(payload@ =~= buf@.subrange(5, buf@.len() as int));
    }
    Ok((tag, payload))
}

} // verus!
