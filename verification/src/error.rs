//! Error taxonomy of the protocol core.

use vstd::prelude::*;

verus! {

/// An error raised by the protocol core.
///
/// The variants group failures by kind: connection establishment or
/// teardown, protocol violations (malformed frames, unknown tags,
/// out-of-range lengths), payload encode or decode failures, request
/// timeouts, operations on an unconnected endpoint, channel dispatch to
/// an unregistered handler, and transport-level failures.
#[derive(Debug, Clone)]
pub enum NetworkError {
    /// Establishment or teardown failure of the underlying connection.
    Connection(String),
    /// Malformed frame, unknown tag, missing handshake, out-of-range
    /// length, or unparseable message.
    Protocol(String),
    /// Payload encode or decode failure.
    Serialization(String),
    /// Transport-level failure reported by the QUIC layer.
    Quic(String),
    /// A request waited longer than its configured budget.
    Timeout,
    /// The server received a channel-open request with no registered
    /// handler for the named channel.
    HandlerNotFound { method: String },
    /// An operation was issued before connect or after disconnect.
    NotConnected,
    /// The requested transport is not supported.
    UnsupportedTransport(String),
}

impl NetworkError {
    /// A human-readable description of the error: the variant's kind,
    /// followed by its detail text where it carries one.
    pub fn message(&self) -> (r: String)
        ensures
            r@.len() > 0,
            self is Connection ==> r@ == "connection error: "@ + self->Connection_0@,
            self is Protocol ==> r@ == "protocol error: "@ + self->Protocol_0@,
            self is Serialization ==> r@ == "serialization error: "@ + self->Serialization_0@,
            self is Quic ==> r@ == "quic error: "@ + self->Quic_0@,
            self is Timeout ==> r@ == "timeout error"@,
            self is HandlerNotFound ==> r@ == "handler not found for method: "@
                + self->HandlerNotFound_method@,
            self is NotConnected ==> r@ == "not connected"@,
            self is UnsupportedTransport ==> r@ == "unsupported transport: "@
                + self->UnsupportedTransport_0@,
    {
        let r = match self {
            NetworkError::Connection(s) => String::from_str("connection error: ").concat(
                s.as_str(),
            ),
            NetworkError::Protocol(s) => String::from_str("protocol error: ").concat(s.as_str()),
            NetworkError::Serialization(s) => String::from_str("serialization error: ").concat(
                s.as_str(),
            ),
            NetworkError::Quic(s) => String::from_str("quic error: ").concat(s.as_str()),
            NetworkError::Timeout => String::from_str("timeout error"),
            NetworkError::HandlerNotFound { method } => String::from_str(
                "handler not found for method: ",
            ).concat(method.as_str()),
            NetworkError::NotConnected => String::from_str("not connected"),
            NetworkError::UnsupportedTransport(s) => String::from_str(
                "unsupported transport: ",
            ).concat(s.as_str()),
        };
        proof {
            reveal_strlit("connection error: ");
            reveal_strlit("protocol error: ");
            reveal_strlit("serialization error: ");
            reveal_strlit("quic error: ");
            reveal_strlit("timeout error");
            reveal_strlit("handler not found for method: ");
            reveal_strlit("not connected");
            reveal_strlit("unsupported transport: ");
        }
        r
    }
}

} // verus!
