//! Stream-open routing and the reserved method names.
//!
//! The first protocol frame on a newly opened stream is a handshake: its
//! method is `__channel:<name>` to open the named channel, or
//! `__identity` on the server-initiated stream that carries the server's
//! self-description. The server dispatches each client-opened stream by
//! that method against its registered channel handlers; a stream whose
//! handshake names no registered channel is closed.

use vstd::prelude::*;

use crate::error::NetworkError;
use crate::identity::{parse_identity, ServerIdentity};
use crate::message::{MessageType, MessageView, ProtocolMessage};
use crate::strutil::{str_eq, string_chars, string_from_chars};

verus! {

/// The characters of the reserved channel-open method prefix.
pub open spec fn channel_prefix() -> Seq<char> {
    "__channel:"@
}

/// The characters of the reserved identity method name.
pub open spec fn identity_method() -> Seq<char> {
    "__identity"@
}

/// True when a method name opens a channel: it starts with the reserved
/// prefix, and the rest is the channel's name.
pub open spec fn is_channel_method(m: Seq<char>) -> bool {
    m.len() >= channel_prefix().len() && m.take(channel_prefix().len() as int) == channel_prefix()
}

/// The channel name carried by a channel-open method.
pub open spec fn channel_method_name(m: Seq<char>) -> Seq<char>
    recommends
        is_channel_method(m),
{
    m.skip(channel_prefix().len() as int)
}

/// Builds the method name that opens the named channel.
pub fn make_channel_open_method(name: &str) -> (r: String)
    ensures
        r@ == channel_prefix() + name@,
        is_channel_method(r@),
        channel_method_name(r@) == name@,
{
    let r = String::from_str("__channel:").concat(name);
    proof {
        reveal_strlit("__channel:");
        assert(r@.take(channel_prefix().len() as int) =~= channel_prefix());
        assert(r@.skip(channel_prefix().len() as int) =~= name@);
    }
    r
}

/// Reads the channel name out of a method, when the method opens a
/// channel.
pub fn parse_channel_method(method: &str) -> (r: Option<String>)
    ensures
        r is Some <==> is_channel_method(method@),
        r is Some ==> method@ == channel_prefix() + r->0@,
        r is Some ==> r->0@ == channel_method_name(method@),
{
    proof {
        reveal_strlit("__channel:");
    }
    let chars = string_chars(method);
    let prefix = string_chars("__channel:");
    let plen = prefix.len();
    if chars.len() < plen {
        proof {
            assert(!is_channel_method(method@));
        }
        return None;
    }
    let mut k: usize = 0;
    while k < plen
        invariant
            chars@ == method@,
            prefix@ == channel_prefix(),
            plen == prefix@.len(),
            chars@.len() >= plen,
            0 <= k <= plen,
            forall|i: int| 0 <= i < k ==> chars@[i] == prefix@[i],
        decreases plen - k,
    {
        if chars[k] != prefix[k] {
            proof {
                if is_channel_method(method@) {
                    assert(method@.take(plen as int)[k as int] == channel_prefix()[k as int]);
                }
            }
            return None;
        }
        k = k + 1;
    }
    let mut name_chars: Vec<char> = Vec::new();
    let mut j: usize = plen;
    let n = chars.len();
    while j < n
        invariant
            chars@ == method@,
            plen == channel_prefix().len(),
            n == chars@.len(),
            plen <= j <= n,
            name_chars@ =~= chars@.subrange(plen as int, j as int),
        decreases n - j,
    {
        name_chars.push(chars[j]);
        j = j + 1;
    }
    let name = string_from_chars(&name_chars);
    proof {
        assert(method@.take(plen as int) =~= channel_prefix());
        assert(name@ =~= method@.skip(plen as int));
        assert(method@ =~= channel_prefix() + name@);
    }
    Some(name)
}

/// True when a method is the reserved identity method.
pub fn is_identity_method(method: &str) -> (r: bool)
    ensures
        r <==> method@ == identity_method(),
{
    str_eq(method, "__identity")
}

/// What the server does with one client-opened stream, judged by its
/// handshake frame.
pub enum HandshakeDecision {
    /// The handshake opens a channel with a registered handler: hand the
    /// stream to it.
    OpenChannel(String),
    /// The handshake names a channel with no registered handler: close
    /// the stream.
    UnknownChannel(String),
    /// The handshake is no channel open at all: close the stream;
    /// channels are the only supported model.
    Reject,
}

/// True when some registered name equals the given one.
pub open spec fn registered_contains(rs: Seq<String>, name: Seq<char>) -> bool {
    exists|i: int| 0 <= i < rs.len() && rs[i]@ == name
}

/// Judges the handshake frame of one client-opened stream against the
/// registered channel names.
pub fn handshake_decision(method: &str, registered: &Vec<String>) -> (r: HandshakeDecision)
    ensures
        r is Reject <==> !is_channel_method(method@),
        is_channel_method(method@) ==> {
            let name = channel_method_name(method@);
            &&& (r is OpenChannel <==> registered_contains(registered@, name))
            &&& (r is OpenChannel ==> r->OpenChannel_0@ == name)
            &&& (r is UnknownChannel ==> r->UnknownChannel_0@ == name)
        },
{
    let name = match parse_channel_method(method) {
        Some(n) => n,
        None => {
            return HandshakeDecision::Reject;
        },
    };
    let n = registered.len();
    let mut k: usize = 0;
    while k < n
        invariant
            n == registered@.len(),
            0 <= k <= n,
            is_channel_method(method@),
            name@ == channel_method_name(method@),
            forall|i: int| 0 <= i < k ==> (#[trigger] registered@[i])@ != name@,
        decreases n - k,
    {
        if str_eq(registered[k].as_str(), name.as_str()) {
            proof {
                assert(registered@[k as int]@ == name@);
                assert(registered_contains(registered@, name@));
            }
            return HandshakeDecision::OpenChannel(name);
        }
        k = k + 1;
    }
    proof {
        if registered_contains(registered@, name@) {
            let i = choose|i: int| 0 <= i < registered@.len() && registered@[i]@ == name@;
            assert(registered@[i]@ != name@);
        }
    }
    HandshakeDecision::UnknownChannel(name)
}

/// The life of one server-side channel stream: opened, handed to its
/// handler, closed.
#[derive(Debug, Clone, Copy, PartialEq, Eq, Structural)]
pub enum StreamPhase {
    /// The stream was accepted; its handshake frame is awaited.
    Opened,
    /// The handshake named a registered channel; the handler services
    /// the stream.
    Registered,
    /// The stream is closed.
    Closed,
}

/// Moves a just-opened stream past its handshake: to its handler when
/// the handshake opened a registered channel, otherwise straight to
/// closed.
pub fn handshake_transition(decision: &HandshakeDecision) -> (p: StreamPhase)
    ensures
        p is Registered <==> decision is OpenChannel,
        !(decision is OpenChannel) ==> p is Closed,
{
    match decision {
        HandshakeDecision::OpenChannel(_) => StreamPhase::Registered,
        HandshakeDecision::UnknownChannel(_) => StreamPhase::Closed,
        HandshakeDecision::Reject => StreamPhase::Closed,
    }
}

/// Builds the handshake message that opens the named channel: the
/// reserved method, a fresh id, kind request, empty payload.
pub fn make_channel_open_message(name: &str, id: u64) -> (r: ProtocolMessage)
    ensures
        r@ == (MessageView {
            id,
            method: channel_prefix() + name@,
            msg_type: MessageType::Request,
            payload: Seq::empty(),
        }),
{
    let method = make_channel_open_method(name);
    let r = ProtocolMessage { id, method, msg_type: MessageType::Request, payload: Vec::new() };
    proof {
        assert(r@ =~= MessageView {
            id,
            method: channel_prefix() + name@,
            msg_type: MessageType::Request,
            payload: Seq::empty(),
        });
    }
    r
}

/// Reads the server identity out of the first frame of a
/// server-initiated stream.
///
/// Succeeds exactly when the frame's method is the reserved identity
/// method and its payload decodes as an identity.
pub fn receive_identity_message(msg: &ProtocolMessage) -> (r: Result<ServerIdentity, NetworkError>)
    ensures
        r is Ok <==> msg@.method == identity_method() && parse_identity(msg@.payload) is Some,
        r is Ok ==> r->Ok_0@ == parse_identity(msg@.payload)->0,
{
    if !is_identity_method(msg.method.as_str()) {
        return Err(NetworkError::Protocol(String::from_str("expected identity message")));
    }
    ServerIdentity::from_protocol_message(msg)
}

/// Allocates the next request id out of a monotonic counter.
pub fn generate_request_id(counter: &mut u64) -> (r: u64)
    requires
        *old(counter) < u64::MAX,
    ensures
        r == *old(counter),
        *final(counter) == *old(counter) + 1,
{
    let id = *counter;
    *counter = *counter + 1;
    id
}

} // verus!
