//! The error taxonomy of the node.
//!
//! Transport and relay errors stay local to the connection or stream they
//! concern. A backend failure never reaches the remote peer as a protocol
//! failure: it is turned into an ordinary response that carries a message.

use vstd::prelude::*;

verus! {

/// An address text that is not an address of the grammar. It is reported
/// before any network activity.
#[derive(Debug, Clone, Copy, PartialEq, Eq, Structural)]
pub enum AddressError {
    /// The part before the first peer identifier names no usable transport.
    InvalidTransport,
    /// A `/p2p` component is not followed by the text of a peer identifier.
    InvalidPeerIdentifier,
    /// A `/circuit` marker does not directly follow a peer identifier.
    MisplacedCircuit,
    /// A component after the first peer identifier is neither a peer
    /// identifier nor the circuit marker.
    UnexpectedComponent,
    /// The address names no peer where one is needed.
    MissingPeerIdentifier,
}

/// Why a secure channel was not established. The connection is dropped, the
/// node goes on.
#[derive(Debug, Clone, Copy, PartialEq, Eq, Structural)]
pub enum HandshakeError {
    /// The verified remote identifier is not the one the dialed address named.
    Mismatch,
    /// The peer did not answer within the bounded interval.
    Timeout,
    /// The peer violated the handshake protocol.
    Malformed,
}

/// Why a stream could not be opened.
#[derive(Debug, Clone, Copy, PartialEq, Eq, Structural)]
pub enum MuxError {
    /// The underlying connection has terminated.
    ConnectionClosed,
}

/// Why a relay could not be used.
#[derive(Debug, Clone, Copy, PartialEq, Eq, Structural)]
pub enum RelayError {
    /// The reservation has lapsed and must be renewed before reuse.
    ReservationExpired,
    /// The relay declined the request.
    Refused,
    /// The relay holds no usable reservation for the target.
    TargetUnreachable,
}

/// How an outbound request failed. Each request resolves exactly once.
#[derive(Debug, Clone, Copy, PartialEq, Eq, Structural)]
pub enum RequestError {
    /// The transport broke before a response arrived.
    StreamFailed,
    /// The payload was malformed.
    Decode,
    /// The configured maximum wait was exceeded.
    Timeout,
}

/// Why a response channel did not take a response.
#[derive(Debug, Clone, Copy, PartialEq, Eq, Structural)]
pub enum ChannelError {
    /// The channel is not open: it was used before, was abandoned, or never
    /// existed.
    NotOpen,
}

} // verus!
