//! The errors of the wire format.

use vstd::prelude::*;
use vstd::string::to_string_from_display_ensures;
use vstd::string::StringExecFns;
use crate::text::concat;

verus! {

/// The error type of `std` for input and output, which this library only
/// carries along.
#[verifier::external_type_specification]
#[verifier::external_body]
pub struct ExIoError(std::io::Error);

/// Why a row of bytes holds no value of the type that was asked for.
#[derive(Clone, Copy, Debug, PartialEq, Eq, Structural)]
pub enum Fault {
    /// The bytes end before the value does.
    InsufficientData,
    /// A padding byte is not zero, and the reader was told to mind.
    PaddingNot0,
    /// The bytes spell what no value of the type is encoded as.
    IncorrectValue,
    /// The bytes of a string are not well-formed UTF-8.
    InvalidUtf8,
    /// The text of a signature is none.
    InvalidSignature,
    /// The type is one that this encoding does not handle.
    UnsupportedType,
    /// Bytes are left over after the value.
    ExcessData,
}

/// What can go wrong when values are written to or read from bytes.
#[derive(Debug)]
pub enum Error {
    /// An error with a text of its own, as a serializer reports it.
    Message(String),
    /// Reading or writing the underlying bytes failed.
    Io(std::io::Error),
    /// Bytes are left over after the value.
    ExcessData,
    /// The bytes hold a value of another type than was asked for.
    IncorrectType,
    /// The bytes hold what no value of the type is encoded as.
    IncorrectValue,
    /// The bytes of a string are not well-formed UTF-8.
    InvalidUtf8,
    /// The bytes end before the value does.
    InsufficientData,
    /// A padding byte is not zero.
    PaddingNot0,
    /// The text is no signature.
    InvalidSignature(String),
    /// The signature names a type that cannot be handled here.
    UnsupportedType(String),
}

/// For results that fail with an error of the wire format.
pub type Result<T> = core::result::Result<T, Error>;

/// Formats an I/O error of `std` with its `Display`. What the text says is
/// up to the platform.
#[verifier::external_body]
fn io_error_text(e: &std::io::Error) -> (s: String) {
    format!("{e}")
}

impl Error {
    /// The characters of the text that describes the error. An I/O error
    /// describes itself, in words that the platform chooses: it has no text
    /// here.
    pub open spec fn text(&self) -> Option<Seq<char>> {
        match self {
            Error::Message(s) => Some(s@),
            Error::Io(_) => None,
            Error::ExcessData => Some("excess data"@),
            Error::IncorrectType => Some("incorrect type"@),
            Error::IncorrectValue => Some("incorrect value"@),
            Error::InvalidUtf8 => Some("invalid UTF-8"@),
            Error::InsufficientData => Some("insufficient data"@),
            Error::PaddingNot0 => Some("non-0 padding byte(s)"@),
            Error::InvalidSignature(s) => Some("invalid signature: \""@ + s@ + "\""@),
            Error::UnsupportedType(s) => Some("unsupported type (signature: \""@ + s@ + "\")"@),
        }
    }

    /// The reason that a reader gives with this error, for the errors that
    /// readers give.
    pub open spec fn fault(&self) -> Option<Fault> {
        match self {
            Error::InsufficientData => Some(Fault::InsufficientData),
            Error::PaddingNot0 => Some(Fault::PaddingNot0),
            Error::IncorrectValue => Some(Fault::IncorrectValue),
            Error::InvalidUtf8 => Some(Fault::InvalidUtf8),
            Error::InvalidSignature(_) => Some(Fault::InvalidSignature),
            Error::UnsupportedType(_) => Some(Fault::UnsupportedType),
            Error::ExcessData => Some(Fault::ExcessData),
            _ => None,
        }
    }

    /// The error as text.
    pub fn to_string(&self) -> (s: String)
        ensures
            self.text() matches Some(text) ==> s@ == text,
    {
        match self {
            Error::Message(s) => s.clone(),
            Error::Io(e) => io_error_text(e),
            Error::ExcessData => "excess data".to_owned(),
            Error::IncorrectType => "incorrect type".to_owned(),
            Error::IncorrectValue => "incorrect value".to_owned(),
            Error::InvalidUtf8 => "invalid UTF-8".to_owned(),
            Error::InsufficientData => "insufficient data".to_owned(),
            Error::PaddingNot0 => "non-0 padding byte(s)".to_owned(),
            Error::InvalidSignature(s) => concat("invalid signature: \"", s.as_str()).concat(
                "\"",
            ),
            Error::UnsupportedType(s) => concat(
                "unsupported type (signature: \"",
                s.as_str(),
            ).concat("\")"),
        }
    }

    /// An error that says `msg` and nothing else.
    pub fn custom<T: core::fmt::Display>(msg: T) -> (e: Error)
        ensures
            e matches Error::Message(s) && to_string_from_display_ensures::<T>(&msg, s),
    {
        Error::Message(msg.to_string())
    }
}

} // verus!
