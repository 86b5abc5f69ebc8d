//! A multiplexed bidirectional RPC and event-streaming protocol core.
//!
//! The crate models the channel and framing subsystem of a QUIC-based
//! protocol: the binary frame format on the wire, the length-prefix plus
//! type-tag framing discipline, the per-channel demultiplexer that routes
//! incoming frames to pending requests and event or raw queues, the
//! connection bootstrap, the per-connection channel registry, and the
//! server-side channel dispatch.

use vstd::prelude::*;

pub mod addr;
pub mod channel;
pub mod codegen;
pub mod context;
mod error;
pub mod fields;
pub mod identity;
pub mod framing;
pub mod message;
pub mod routing;
pub mod schema;
pub mod server;
pub mod stream;
pub mod strutil;

pub use channel::{ChannelState, RouteAction, TypedFrame};
pub use error::NetworkError;
pub use message::{MessageType, ProtocolMessage};

verus! {

/// Largest number of bytes a wire frame may carry (type tag plus payload).
pub const MAX_FRAME_SIZE: usize = 8 * 1024 * 1024;

} // verus!
