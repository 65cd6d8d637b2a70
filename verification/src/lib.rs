//! A server core for real-time collaborative editing over a CRDT document
//! model: connection identifiers, the framed wire codec, the protocol
//! handler, and the room and registry state machines.

pub mod awareness;
pub mod codec;
pub mod crdt;
pub mod document;
pub mod handler;
pub mod message;
pub mod message_type;
pub mod room;
pub mod server;
pub mod snowflake;
pub mod sync;

use vstd::prelude::*;

verus! {

/// Errors of the wire codec and the protocol handler.
#[derive(Debug, Clone, Copy, PartialEq, Eq, Structural)]
pub enum ProtocolError {
    /// A length or a variable-length integer runs past the end of the
    /// buffer, or a payload is not what its message type demands.
    MalformedFrame,
    /// A message type or a sync sub-message value is unrecognized.
    UnknownType,
    /// The document name embedded in a frame does not equal the room's name.
    NameMismatch,
    /// The CRDT library refused to apply an update.
    CrdtApplyFailure,
}

} // verus!
