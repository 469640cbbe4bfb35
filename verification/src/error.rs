//! The ways in which a connection can be given up.

use vstd::prelude::*;

verus! {

/// Why a connection was abandoned. Every failure is local to one connection;
/// nothing is sent back to the peer.
#[derive(Clone, Copy, Debug, PartialEq, Eq, Structural)]
pub enum ProtocolError {
    /// A read or write on the transport failed, or the stream ended inside a field.
    TransportError,
    /// A variable-length integer did not end within five bytes.
    MalformedVarint,
    /// A length or protocol number decoded to zero or less.
    InvalidValue,
    /// A frame is larger than the protocol allows at that point.
    FrameTooLarge,
    /// A field inside a frame is longer than its own limit.
    FieldTooLarge,
    /// A packet carried an id other than the one expected in that position.
    UnexpectedPacketId,
    /// The client speaks a protocol version that the version table does not list.
    UnknownProtocolVersion,
    /// The handshake asked for something other than status or login.
    InvalidIntent,
    /// A packet of fixed size declared another length.
    UnexpectedPayload,
    /// The user name is empty or longer than sixteen bytes.
    UsernameLengthInvalid,
}

} // verus!
