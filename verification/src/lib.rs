use vstd::prelude::*;

pub mod broadcast;
pub mod commands;
pub mod codec;
pub mod dispatch;
pub mod frame;
pub mod incoming;
pub mod net_types;
pub mod outgoing;
pub mod schema;
pub mod scheduler;
pub mod state;
pub mod wire;

verus! {

/// Errors on the wire or during dispatch. Every variant but `HandlerError`
/// is fatal to the connection that produced it.
#[derive(Clone, Copy, PartialEq, Eq, Structural, Debug)]
pub enum WireError {
    MalformedVarInt,
    MalformedFrame,
    UnknownPacket,
    DecodeFieldError,
    CryptoError,
    CompressionError,
    HandlerError,
}

/// Errors a decoder may produce: everything except the two that belong to
/// dispatch (an id missing from the registry, a handler's own failure).
pub open spec fn codec_fatal(e: WireError) -> bool {
    e != WireError::UnknownPacket && e != WireError::HandlerError
}

} // verus!
