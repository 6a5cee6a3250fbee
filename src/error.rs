//! The errors of the library.
use vstd::prelude::*;

verus! {

/// What can go wrong in a client operation.
#[derive(Debug, Clone, Copy, PartialEq, Eq, Structural)]
pub enum RatsioError {
    /// The configuration cannot be used: no server address, or an invalid option.
    ConfigurationError,
    /// No server address could be reached and no retry was asked for.
    NoRouteToHostError,
    /// A frame or an envelope received from the server is malformed.
    ProtocolDecodeError,
    /// Writing to the connection failed.
    SendError,
    /// The reply sequence of a request ended without a message.
    RequestStreamClosed,
    /// A message without an ack inbox was acknowledged.
    AckInboxMissing,
    /// The server answered with an error.
    InternalServerError,
    /// The client holds no reference to itself, so it cannot reconnect.
    CannotReconnectToServer,
    /// The client was shut down.
    ClientClosed,
    /// No reply arrived within the time the caller allowed.
    RequestTimeout,
    /// The identifier generator has run out of sequence values.
    IdentifiersExhausted,
}

} // verus!
