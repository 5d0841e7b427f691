use vstd::prelude::*;

verus! {

/// A line or a message that the protocol layer cannot use. It is dropped
/// at message granularity; it never ends the connection that carried it.
#[derive(Clone, Copy, Debug, PartialEq, Eq, Structural)]
pub enum ProtocolError {
    /// The line holds no command token.
    MissingCommand,
    /// A recognised command came with a number of arguments it cannot use.
    WrongArity,
    /// A command that names its sender came without a prefix.
    MissingPrefix,
    /// A command that has no canonical meaning.
    UnknownCommand,
}

/// A canonical message handed to a side that does not carry it (a
/// notification sent towards the origin, say).
#[derive(Clone, Copy, Debug, PartialEq, Eq, Structural)]
pub enum RoutingError {
    Unroutable,
}

/// Why a bounce session ended. Each is fatal by design: there is one
/// origin, and a sink out of step with the others is a desync.
#[derive(Clone, Copy, Debug, PartialEq, Eq, Structural)]
pub enum SessionError {
    /// The origin's connection ended.
    SourceClosed,
    /// A message from a sink could not be forwarded to the origin.
    ForwardFailed,
    /// A message from the origin could not be broadcast to every sink.
    BroadcastFailed,
}

/// A request to the control service without the expected bearer token.
#[derive(Clone, Copy, Debug, PartialEq, Eq, Structural)]
pub enum AuthError {
    Unauthenticated,
}

} // verus!
