//! The errors of the connection layer.

use vstd::prelude::*;

verus! {

/// What can go wrong between a caller and the bus.
#[derive(Clone, Debug, PartialEq, Eq)]
pub enum Error {
    /// An address is missing or cannot be used; the text says why.
    Address(String),
    /// The transport failed; the text is that of the I/O error.
    InputOutput(String),
    /// The peer refused the handshake; the text says at which step.
    Handshake(String),
    /// A message lacks a header field that its type requires.
    MissingField,
    /// A message carries the serial number 0.
    InvalidSerial,
    /// The text of a match rule cannot be read as one.
    InvalidMatchRule,
    /// A name, path or signature breaks the rules of its kind.
    InvalidName(String),
    /// The bytes of a message cannot be read.
    Protocol(String),
    /// The remote side answered a call with an error: its name, and the
    /// description that came with it, if any.
    MethodError(String, Option<String>),
    /// A message that is no reply was taken for one.
    InvalidReply,
    /// The connection is terminated.
    Closed,
    /// The platform or the peer does not offer what was asked for.
    Unsupported,
    /// Anything else; the text says what.
    Failure(String),
}

} // verus!
