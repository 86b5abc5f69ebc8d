//! The typed-frame send and receive paths of one stream.
//!
//! A stream carries whole frames; sending a protocol message means
//! encoding it and framing it under the protocol type tag, sending raw
//! bytes means framing them under the raw type tag, and receiving means
//! parsing one frame and classifying it by its tag. The runtime performs
//! the reads and writes; everything between bytes and values is here.

use vstd::prelude::*;

use crate::channel::{decode_typed_frame, TypedFrame};
use crate::error::NetworkError;
use crate::framing::{
    fits_in_frame, frame_bytes, parse_frame, read_typed_frame, write_typed_frame,
    FRAME_TYPE_PROTOCOL, FRAME_TYPE_RAW,
};
use crate::framing::lemma_frame_round_trip;
use crate::message::{
    decode_message, encodable, lemma_message_round_trip, message_view_bytes, MessageView,
    ProtocolMessage,
};

verus! {

/// What a stream records about itself: the id and method name used when
/// it was opened, and when it was opened (milliseconds since an epoch
/// the runtime chooses).
#[derive(Debug, Clone)]
pub struct StreamHandle {
    pub stream_id: u64,
    pub method: String,
    pub created_at_millis: u64,
}

/// Encodes a protocol message as one whole frame: header, protocol type
/// tag, message bytes.
///
/// Fails exactly when the message is too large to encode; an encodable
/// message always fits its frame.
pub fn encode_protocol_frame(msg: &ProtocolMessage) -> (r: Result<Vec<u8>, NetworkError>)
    ensures
        r is Ok <==> encodable(msg@),
        r is Ok ==> r->Ok_0@ == frame_bytes(FRAME_TYPE_PROTOCOL, message_view_bytes(msg@)),
{
    let bytes = match msg.into_frame() {
        Ok(b) => b,
        Err(e) => {
            return Err(e);
        },
    };
    write_typed_frame(FRAME_TYPE_PROTOCOL, bytes.as_slice())
}

/// Encodes raw application bytes as one whole frame: header, raw type
/// tag, the bytes untouched.
///
/// Bytes too long for one frame are rejected at the writer.
pub fn encode_raw_frame(data: &[u8]) -> (r: Result<Vec<u8>, NetworkError>)
    ensures
        r is Ok <==> fits_in_frame(data@.len()),
        r is Ok ==> r->Ok_0@ == frame_bytes(FRAME_TYPE_RAW, data@),
{
    write_typed_frame(FRAME_TYPE_RAW, data)
}

/// Parses one whole frame and classifies it by its type tag: a protocol
/// frame yields its decoded message, a raw frame yields its payload, and
/// an unknown tag or a malformed frame is an error.
pub fn decode_frame_bytes(buf: &[u8]) -> (r: Result<TypedFrame, NetworkError>)
    ensures
        r is Ok ==> parse_frame(buf@) is Some,
        parse_frame(buf@) is Some ==> {
            let tag = (parse_frame(buf@)->0).0;
            let payload = (parse_frame(buf@)->0).1;
            &&& tag == FRAME_TYPE_PROTOCOL ==> (r is Ok <==> decode_message(payload) is Some) && (
            r is Ok ==> r->Ok_0 is Protocol && r->Ok_0->Protocol_0@ == decode_message(payload)->0)
            &&& tag == FRAME_TYPE_RAW ==> r is Ok && r->Ok_0 is Raw && r->Ok_0->Raw_0@ == payload
            &&& tag >= 2 ==> r is Err
        },
{
    let (tag, payload) = match read_typed_frame(buf) {
        Ok(tp) => tp,
        Err(e) => {
            return Err(e);
        },
    };
    decode_typed_frame(tag, payload)
}

/// Law: the protocol send path inverts on the receive path. For any
/// encodable message, framing its bytes under the protocol tag parses
/// back to that tag and those bytes, and the bytes decode back to the
/// message.
pub proof fn lemma_protocol_frame_round_trip(v: MessageView)
    requires
        encodable(v),
    ensures
        parse_frame(frame_bytes(FRAME_TYPE_PROTOCOL, message_view_bytes(v))) == Some(
            (FRAME_TYPE_PROTOCOL, message_view_bytes(v)),
        ),
        decode_message(message_view_bytes(v)) == Some(v),
{
    lemma_frame_round_trip(FRAME_TYPE_PROTOCOL, message_view_bytes(v));
    lemma_message_round_trip(v);
}

/// Law: the raw send path inverts on the receive path. For any byte
/// string that fits one frame, framing it under the raw tag parses back
/// to that tag and exactly those bytes.
pub proof fn lemma_raw_frame_round_trip(data: Seq<u8>)
    requires
        fits_in_frame(data.len()),
    ensures
        parse_frame(frame_bytes(FRAME_TYPE_RAW, data)) == Some((FRAME_TYPE_RAW, data)),
{
    lemma_frame_round_trip(FRAME_TYPE_RAW, data);
}

} // verus!
