//! The protocol message envelope and its binary codec.
//!
//! A `ProtocolMessage` carries a correlation id, a method name, a message
//! kind, and an opaque payload byte string. On the wire it is encoded as
//! the id (8 bytes big-endian), the kind (1 byte), the method name
//! (4-byte big-endian length, then UTF-8 bytes), and the payload (4-byte
//! big-endian length, then the bytes).

use vstd::prelude::*;
use vstd::slice::slice_subrange;
use vstd::utf8::{decode_utf8, encode_utf8, valid_utf8};

use crate::error::NetworkError;
use crate::framing::{u32_be_bytes, u32_from_be, u32_from_be_slice, u32_to_be};
use crate::framing::{u64_be_bytes, u64_from_be, u64_from_be_slice, u64_to_be};
use crate::framing::{lemma_u32_be_round_trip, lemma_u64_be_round_trip};
use crate::strutil::{string_from_utf8, string_to_bytes};
use crate::MAX_FRAME_SIZE;

verus! {

/// The kind of a protocol message.
#[derive(Debug, Clone, Copy, PartialEq, Eq, Structural)]
pub enum MessageType {
    /// A call that expects a response carrying the same id.
    Request,
    /// The answer to the request with the same id.
    Response,
    /// A one-way push; its id is always zero.
    Event,
    /// A failure report; it answers the request with the same id, or is
    /// unsolicited when no such request is pending.
    Error,
}

/// The wire tag of a message kind.
pub open spec fn tag_of_kind(t: MessageType) -> u8 {
    match t {
        MessageType::Request => 0,
        MessageType::Response => 1,
        MessageType::Event => 2,
        MessageType::Error => 3,
    }
}

/// The message kind of a wire tag.
pub open spec fn kind_of_tag(tag: u8) -> MessageType
    recommends
        tag <= 3,
{
    if tag == 0 {
        MessageType::Request
    } else if tag == 1 {
        MessageType::Response
    } else if tag == 2 {
        MessageType::Event
    } else {
        MessageType::Error
    }
}

/// The wire tag of a message kind, computed.
pub fn msg_type_tag(t: MessageType) -> (r: u8)
    ensures
        r == tag_of_kind(t),
{
    match t {
        MessageType::Request => 0,
        MessageType::Response => 1,
        MessageType::Event => 2,
        MessageType::Error => 3,
    }
}

/// The message kind of a wire tag, computed.
pub fn msg_type_of_tag(tag: u8) -> (r: MessageType)
    requires
        tag <= 3,
    ensures
        r == kind_of_tag(tag),
{
    if tag == 0 {
        MessageType::Request
    } else if tag == 1 {
        MessageType::Response
    } else if tag == 2 {
        MessageType::Event
    } else {
        MessageType::Error
    }
}

/// The mathematical model of a protocol message.
#[verifier::ext_equal]
pub ghost struct MessageView {
    pub id: u64,
    pub method: Seq<char>,
    pub msg_type: MessageType,
    pub payload: Seq<u8>,
}

/// The unit of structured communication on a channel.
#[derive(Debug, Clone)]
pub struct ProtocolMessage {
    /// Correlation id: per-channel monotonic for requests, echoed by
    /// responses and errors, zero for unsolicited events.
    pub id: u64,
    /// Short operation or event name.
    pub method: String,
    /// One of the four message kinds.
    pub msg_type: MessageType,
    /// Opaque encoded user-level value.
    pub payload: Vec<u8>,
}

impl View for ProtocolMessage {
    type V = MessageView;

    open spec fn view(&self) -> MessageView {
        MessageView {
            id: self.id,
            method: self.method@,
            msg_type: self.msg_type,
            payload: self.payload@,
        }
    }
}

/// The wire bytes of a message.
pub open spec fn message_view_bytes(v: MessageView) -> Seq<u8> {
    u64_be_bytes(v.id) + seq![tag_of_kind(v.msg_type)] + u32_be_bytes(
        encode_utf8(v.method).len() as u32,
    ) + encode_utf8(v.method) + u32_be_bytes(v.payload.len() as u32) + v.payload
}

/// True when a message is small enough to encode: its 17 bytes of fixed
/// fields, its method bytes and its payload must leave room for the type
/// tag within the frame size limit.
pub open spec fn encodable(v: MessageView) -> bool {
    encode_utf8(v.method).len() + v.payload.len() + 18 <= MAX_FRAME_SIZE
}

/// The parse of a byte buffer holding exactly one encoded message.
///
/// The parse succeeds when the buffer holds the fixed fields, the kind
/// tag is known, the two length fields cover the buffer exactly, and the
/// method bytes are valid UTF-8.
pub open spec fn decode_message(buf: Seq<u8>) -> Option<MessageView> {
    if buf.len() < 17 {
        None
    } else {
        let id = u64_from_be(buf.subrange(0, 8));
        let kind = buf[8];
        let mlen = u32_from_be(buf.subrange(9, 13)) as int;
        if kind <= 3 && buf.len() >= 17 + mlen {
            let mbytes = buf.subrange(13, 13 + mlen);
            let plen = u32_from_be(buf.subrange(13 + mlen, 17 + mlen)) as int;
            if buf.len() == 17 + mlen + plen && valid_utf8(mbytes) {
                Some(
                    MessageView {
                        id,
                        method: decode_utf8(mbytes),
                        msg_type: kind_of_tag(kind),
                        payload: buf.subrange(17 + mlen, buf.len() as int),
                    },
                )
            } else {
                None
            }
        } else {
            None
        }
    }
}

/// Decoding the encoding of a message yields the message back.
pub proof fn lemma_message_round_trip(v: MessageView)
    requires
        encodable(v),
    ensures
        decode_message(message_view_bytes(v)) == Some(v),
{
    broadcast use vstd::utf8::encode_utf8_decode_utf8;
    broadcast use vstd::utf8::encode_utf8_valid_utf8;

    let mbytes = encode_utf8(v.method);
    let m = mbytes.len() as int;
    let p = v.payload.len() as int;
    let buf = message_view_bytes(v);
    assert(buf.len() == 17 + m + p);
    lemma_u64_be_round_trip(v.id);
    lemma_u32_be_round_trip(mbytes.len() as u32);
    lemma_u32_be_round_trip(v.payload.len() as u32);
    assert(buf.subrange(0, 8) =~= u64_be_bytes(v.id));
    assert(buf[8] == tag_of_kind(v.msg_type));
    assert(buf.subrange(9, 13) =~= u32_be_bytes(mbytes.len() as u32));
    assert(buf.subrange(13, 13 + m) =~= mbytes);
    assert(buf.subrange(13 + m, 17 + m) =~= u32_be_bytes(v.payload.len() as u32));
    assert(buf.subrange(17 + m, buf.len() as int) =~= v.payload);
    assert(kind_of_tag(tag_of_kind(v.msg_type)) == v.msg_type);
    assert(decode_message(buf)->0 =~= v);
}

impl ProtocolMessage {
    /// Encodes the message to its wire bytes.
    ///
    /// A message whose method and payload would overrun the frame size
    /// limit is rejected; everything else encodes.
    pub fn into_frame(&self) -> (r: Result<Vec<u8>, NetworkError>)
        ensures
            r is Ok <==> encodable(self@),
            r is Ok ==> r->Ok_0@ == message_view_bytes(self@),
    {
        let mb = string_to_bytes(self.method.as_str());
        if mb.len() > MAX_FRAME_SIZE - 18 {
            return Err(NetworkError::Serialization(String::from_str("method too long")));
        }
        if self.payload.len() > MAX_FRAME_SIZE - 18 - mb.len() {
            return Err(NetworkError::Serialization(String::from_str("payload too large")));
        }
        let mut out = u64_to_be(self.id);
        out.push(msg_type_tag(self.msg_type));
        let mut mlen = u32_to_be(mb.len() as u32);
        out.append(&mut mlen);
        out.extend_from_slice(mb.as_slice());
        let mut plen = u32_to_be(self.payload.len() as u32);
        out.append(&mut plen);
        out.extend_from_slice(self.payload.as_slice());
        proof {
            assert(out@ =~= message_view_bytes(self@));
        }
        Ok(out)
    }

    /// Decodes a message from its wire bytes.
    ///
    /// Succeeds exactly on buffers that are one well-formed message
    /// encoding, and then yields the encoded message.
    pub fn from_frame(buf: &[u8]) -> (r: Result<ProtocolMessage, NetworkError>)
        ensures
            r is Ok <==> decode_message(buf@) is Some,
            r is Ok ==> r->Ok_0@ == decode_message(buf@)->0,
    {
        if buf.len() < 17 {
            return Err(NetworkError::Protocol(String::from_str("message too short")));
        }
        let id = u64_from_be_slice(slice_subrange(buf, 0, 8));
        proof {
            assert(buf@.subrange(0, 8) =~= buf@.subrange(0, 8));
        }
        let kind = buf[8];
        if kind > 3 {
            return Err(NetworkError::Protocol(String::from_str("unknown message kind")));
        }
        let mlen = u32_from_be_slice(slice_subrange(buf, 9, 13)) as usize;
        if mlen > buf.len() - 17 {
            return Err(NetworkError::Protocol(String::from_str("method length out of range")));
        }
        let mslice = slice_subrange(buf, 13, 13 + mlen);
        let plen = u32_from_be_slice(slice_subrange(buf, 13 + mlen, 17 + mlen)) as usize;
        if plen != buf.len() - 17 - mlen {
            return Err(NetworkError::Protocol(String::from_str("payload length mismatch")));
        }
        let mut mbytes: Vec<u8> = Vec::new();
        mbytes.extend_from_slice(mslice);
        proof {
            assert(mbytes@ =~= buf@.subrange(13, 13 + mlen as int));
        }
        let method = match string_from_utf8(mbytes) {
            Some(s) => s,
            None => {
                return Err(NetworkError::Protocol(String::from_str("method is not utf-8")));
            },
        };
        let pslice = slice_subrange(buf, 17 + mlen, buf.len());
        let mut payload: Vec<u8> = Vec::new();
        payload.extend_from_slice(pslice);
        let msg = ProtocolMessage { id, method, msg_type: msg_type_of_tag(kind), payload };
        proof {
            broadcast use vstd::utf8::encode_utf8_decode_utf8;

            assert(msg@ =~= decode_message(buf@)->0);
        }
        Ok(msg)
    }

    /// Builds a request message with the given fresh id.
    pub fn new_request(id: u64, method: String, payload: Vec<u8>) -> (r: ProtocolMessage)
        ensures
            r@ == (MessageView {
                id,
                method: method@,
                msg_type: MessageType::Request,
                payload: payload@,
            }),
    {
        ProtocolMessage { id, method, msg_type: MessageType::Request, payload }
    }

    /// Builds the response to the request with the given id.
    pub fn new_response(id: u64, method: String, payload: Vec<u8>) -> (r: ProtocolMessage)
        ensures
            r@ == (MessageView {
                id,
                method: method@,
                msg_type: MessageType::Response,
                payload: payload@,
            }),
    {
        ProtocolMessage { id, method, msg_type: MessageType::Response, payload }
    }

    /// Builds a one-way event message; its id is zero.
    pub fn new_event(method: String, payload: Vec<u8>) -> (r: ProtocolMessage)
        ensures
            r@ == (MessageView {
                id: 0,
                method: method@,
                msg_type: MessageType::Event,
                payload: payload@,
            }),
    {
        ProtocolMessage { id: 0, method, msg_type: MessageType::Event, payload }
    }

    /// Builds an error message answering the request with the given id.
    pub fn new_error(id: u64, method: String, payload: Vec<u8>) -> (r: ProtocolMessage)
        ensures
            r@ == (MessageView {
                id,
                method: method@,
                msg_type: MessageType::Error,
                payload: payload@,
            }),
    {
        ProtocolMessage { id, method, msg_type: MessageType::Error, payload }
    }

    /// Builds a message whose payload is the JSON encoding of a value.
    ///
    /// The payload is encoded and then checked back through the JSON
    /// parser, so a built message's payload is always JSON text that
    /// decodes; a value whose encoding the parser would refuse (its
    /// nesting exceeds the parser's recursion budget) is rejected here
    /// instead of travelling undecodable.
    pub fn new_with_json(
        id: u64,
        method: String,
        msg_type: MessageType,
        payload: &serde_json::Value,
    ) -> (r: Result<ProtocolMessage, NetworkError>)
        ensures
            r is Ok ==> r->Ok_0@.id == id && r->Ok_0@.method == method@ && r->Ok_0@.msg_type
                == msg_type,
            r is Ok ==> json_text(r->Ok_0@.payload) && valid_utf8(r->Ok_0@.payload),
            r is Err ==> r->Err_0 is Serialization,
    {
        let bytes = match json_value_to_bytes(payload) {
            Ok(bytes) => bytes,
            Err(e) => {
                return Err(NetworkError::Serialization(e));
            },
        };
        match json_bytes_to_value(bytes.as_slice()) {
            Ok(_) => Ok(ProtocolMessage { id, method, msg_type, payload: bytes }),
            Err(e) => Err(NetworkError::Serialization(e)),
        }
    }

    /// Reads the payload back as a JSON value.
    ///
    /// Succeeds exactly on payloads that are JSON text.
    pub fn payload_as_value(&self) -> (r: Result<serde_json::Value, NetworkError>)
        ensures
            r is Ok <==> json_text(self@.payload),
    {
        match json_bytes_to_value(self.payload.as_slice()) {
            Ok(v) => Ok(v),
            Err(e) => Err(NetworkError::Serialization(e)),
        }
    }
}

/// The JSON value type of the `serde_json` crate, carried opaquely.
#[verifier::external_type_specification]
#[verifier::external_body]
pub struct ExJsonValue(serde_json::Value);

/// True of the byte strings the JSON parser accepts as one value: the
/// acceptance set of `serde_json::from_slice`, which depends on the
/// bytes alone.
pub uninterp spec fn json_text(b: Seq<u8>) -> bool;

/// Relies on `serde_json::to_vec`: encoding a `Value` cannot fail (the
/// sink is a vector, map keys are strings, and no other error path
/// exists for a `Value`), and the result is JSON text in UTF-8 bytes.
/// The error is carried as text.
#[verifier::external_body]
fn json_value_to_bytes(v: &serde_json::Value) -> (r: Result<Vec<u8>, String>)
    ensures
        r is Ok,
        r is Ok ==> valid_utf8(r->Ok_0@),
{
    serde_json::to_vec(v).map_err(|e| e.to_string())
}

/// Relies on `serde_json::from_slice`: it parses JSON text into a
/// value, succeeding exactly on the byte strings named by [`json_text`].
/// The error is carried as text.
#[verifier::external_body]
fn json_bytes_to_value(b: &[u8]) -> (r: Result<serde_json::Value, String>)
    ensures
        r is Ok <==> json_text(b@),
{
    serde_json::from_slice(b).map_err(|e| e.to_string())
}

} // verus!
