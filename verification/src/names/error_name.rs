//! Error names, such as `org.freedesktop.DBus.Error.Failed`.

use vstd::prelude::*;
use vstd::std_specs::cmp::PartialEqSpecImpl;
use vstd::std_specs::convert::FromSpecImpl;
use vstd::utf8::encode_utf8;
use crate::names::error::Error;
use crate::names::interface_name::{is_interface_name, validate_bytes};
use crate::text::str_eq;
use crate::wire::basic::{Basic, Type};
use crate::wire::signature::{Signature, SignatureView};

verus! {

/// The message of the error for text that is no error name.
pub const INVALID_ERROR_NAME: &'static str =
    "Invalid error name. See https://dbus.freedesktop.org/doc/dbus-specification.html#message-protocol-names-error";

/// The bytes `s` spell an error name. Error names follow the rules of
/// interface names.
pub open spec fn is_error_name(s: Seq<u8>) -> bool {
    is_interface_name(s)
}

/// The error that text which is no error name is turned down with.
pub open spec fn error_name_error(text: Seq<char>) -> Error {
    Error::InvalidName(INVALID_ERROR_NAME)
}

/// Reading `text` as an error name: the text itself where it is one.
pub open spec fn parse_error_name(text: Seq<char>) -> Option<Seq<char>> {
    if is_error_name(encode_utf8(text)) {
        Some(text)
    } else {
        None
    }
}

/// Accepts `name` where it is an error name.
pub fn validate(name: &str) -> (r: Result<(), Error>)
    ensures
        r is Ok <==> parse_error_name(name@) is Some,
        r matches Err(e) ==> e == error_name_error(name@),
{
    match validate_bytes(name.as_bytes()) {
        Ok(()) => Ok(()),
        Err(()) => Err(Error::InvalidName(INVALID_ERROR_NAME)),
    }
}

/// Text that identifies an error name on the bus.
///
/// A value is made from checked text by [`ErrorName::try_from`], or from any
/// text by one of the `_unchecked` constructors; [`ErrorName::is_valid`] tells
/// the two apart in contracts.
#[derive(Debug, Hash, PartialOrd, Ord)]
pub struct ErrorName {
    text: String,
}

impl Clone for ErrorName {
    fn clone(&self) -> (r: Self)
        ensures
            r@ == self@,
    {
        ErrorName { text: self.text.clone() }
    }
}

impl View for ErrorName {
    type V = Seq<char>;

    closed spec fn view(&self) -> Seq<char> {
        self.text@
    }
}

impl PartialEq for ErrorName {
    fn eq(&self, other: &Self) -> (r: bool) {
        self.text == other.text
    }
}

impl PartialEqSpecImpl for ErrorName {
    open spec fn obeys_eq_spec() -> bool {
        true
    }

    open spec fn eq_spec(&self, other: &Self) -> bool {
        self@ == other@
    }
}

impl Eq for ErrorName {

}

impl ErrorName {
    /// The name obeys the rules of its kind.
    pub open spec fn is_valid(&self) -> bool {
        is_error_name(encode_utf8(self@))
    }

    /// Reads `value` as an error name.
    pub fn try_from(value: &str) -> (r: Result<Self, Error>)
        ensures
            match r {
                Ok(name) => parse_error_name(value@) == Some(name@),
                Err(e) => parse_error_name(value@) is None && e == error_name_error(value@),
            },
    {
        match validate(value) {
            Ok(()) => Ok(ErrorName { text: value.to_owned() }),
            Err(e) => Err(e),
        }
    }

    /// Reads the owned text `value` as an error name, without copying it.
    pub fn try_from_string(value: String) -> (r: Result<Self, Error>)
        ensures
            match r {
                Ok(name) => parse_error_name(value@) == Some(name@),
                Err(e) => parse_error_name(value@) is None && e == error_name_error(value@),
            },
    {
        match validate(value.as_str()) {
            Ok(()) => Ok(ErrorName { text: value }),
            Err(e) => Err(e),
        }
    }

    /// Same as [`ErrorName::try_from`], for text that lives as long as the program.
    pub fn from_static_str(name: &'static str) -> (r: Result<Self, Error>)
        ensures
            match r {
                Ok(n) => parse_error_name(name@) == Some(n@),
                Err(e) => parse_error_name(name@) is None && e == error_name_error(name@),
            },
    {
        Self::try_from(name)
    }

    /// Takes `name` as an error name without checking it. Prefer
    /// [`ErrorName::try_from`].
    pub fn from_str_unchecked(name: &str) -> (r: Self)
        ensures
            r@ == name@,
    {
        ErrorName { text: name.to_owned() }
    }

    /// Same as [`ErrorName::from_str_unchecked`], for text that lives as long
    /// as the program.
    pub fn from_static_str_unchecked(name: &'static str) -> (r: Self)
        ensures
            r@ == name@,
    {
        ErrorName { text: name.to_owned() }
    }

    /// Same as [`ErrorName::from_str_unchecked`], for owned text.
    pub fn from_string_unchecked(name: String) -> (r: Self)
        ensures
            r@ == name@,
    {
        ErrorName { text: name }
    }

    /// The name as text.
    pub fn as_str(&self) -> (r: &str)
        ensures
            r@ == self@,
    {
        self.text.as_str()
    }

    /// The name as owned text.
    pub fn to_string(&self) -> (r: String)
        ensures
            r@ == self@,
    {
        self.text.clone()
    }

    /// A copy of the name.
    pub fn as_ref(&self) -> (r: ErrorName)
        ensures
            r@ == self@,
    {
        ErrorName { text: self.text.clone() }
    }

    /// A copy of the name that borrows nothing.
    pub fn to_owned(&self) -> (r: ErrorName)
        ensures
            r@ == self@,
    {
        ErrorName { text: self.text.clone() }
    }

    /// The name itself, borrowing nothing.
    pub fn into_owned(self) -> (r: ErrorName)
        ensures
            r@ == self@,
    {
        self
    }

    /// Tells whether the name is spelled `other`.
    pub fn eq_str(&self, other: &str) -> (r: bool)
        ensures
            r == (self@ == other@),
    {
        str_eq(self.text.as_str(), other)
    }
}

/// Owned sibling of [`ErrorName`].
#[derive(Debug, Hash, PartialOrd, Ord)]
pub struct OwnedErrorName(ErrorName);

impl Clone for OwnedErrorName {
    fn clone(&self) -> (r: Self)
        ensures
            r@ == self@,
    {
        OwnedErrorName(self.0.clone())
    }
}

impl View for OwnedErrorName {
    type V = Seq<char>;

    closed spec fn view(&self) -> Seq<char> {
        self.0@
    }
}

impl PartialEq for OwnedErrorName {
    fn eq(&self, other: &Self) -> (r: bool) {
        self.0 == other.0
    }
}

impl PartialEqSpecImpl for OwnedErrorName {
    open spec fn obeys_eq_spec() -> bool {
        true
    }

    open spec fn eq_spec(&self, other: &Self) -> bool {
        self@ == other@
    }
}

impl Eq for OwnedErrorName {

}

impl From<ErrorName> for OwnedErrorName {
    fn from(name: ErrorName) -> (r: OwnedErrorName)
        ensures
            r@ == name@,
    {
        OwnedErrorName(name)
    }
}

impl FromSpecImpl<ErrorName> for OwnedErrorName {
    open spec fn obeys_from_spec() -> bool {
        true
    }

    closed spec fn from_spec(name: ErrorName) -> OwnedErrorName {
        OwnedErrorName(name)
    }
}

impl From<OwnedErrorName> for ErrorName {
    fn from(name: OwnedErrorName) -> (r: ErrorName)
        ensures
            r@ == name@,
    {
        name.0
    }
}

impl FromSpecImpl<OwnedErrorName> for ErrorName {
    open spec fn obeys_from_spec() -> bool {
        true
    }

    closed spec fn from_spec(name: OwnedErrorName) -> ErrorName {
        name.0
    }
}

impl OwnedErrorName {
    /// The name obeys the rules of its kind.
    pub open spec fn is_valid(&self) -> bool {
        is_error_name(encode_utf8(self@))
    }

    /// Reads `value` as an error name.
    pub fn try_from(value: &str) -> (r: Result<Self, Error>)
        ensures
            match r {
                Ok(name) => parse_error_name(value@) == Some(name@),
                Err(e) => parse_error_name(value@) is None && e == error_name_error(value@),
            },
    {
        match ErrorName::try_from(value) {
            Ok(name) => Ok(OwnedErrorName(name)),
            Err(e) => Err(e),
        }
    }

    /// Reads the owned text `value` as an error name, without copying it.
    pub fn try_from_string(value: String) -> (r: Result<Self, Error>)
        ensures
            match r {
                Ok(name) => parse_error_name(value@) == Some(name@),
                Err(e) => parse_error_name(value@) is None && e == error_name_error(value@),
            },
    {
        match ErrorName::try_from_string(value) {
            Ok(name) => Ok(OwnedErrorName(name)),
            Err(e) => Err(e),
        }
    }

    /// Gives up the wrapper and returns the name inside.
    pub fn into_inner(self) -> (r: ErrorName)
        ensures
            r@ == self@,
    {
        self.0
    }

    /// The name inside.
    pub fn inner(&self) -> (r: &ErrorName)
        ensures
            r@ == self@,
    {
        &self.0
    }

    /// A copy of the name inside.
    pub fn as_ref(&self) -> (r: ErrorName)
        ensures
            r@ == self@,
    {
        self.0.as_ref()
    }

    /// The name as text.
    pub fn as_str(&self) -> (r: &str)
        ensures
            r@ == self@,
    {
        self.0.as_str()
    }

    /// The name as owned text.
    pub fn to_string(&self) -> (r: String)
        ensures
            r@ == self@,
    {
        self.0.to_string()
    }

    /// Tells whether the name is spelled `other`.
    pub fn eq_str(&self, other: &str) -> (r: bool)
        ensures
            r == (self@ == other@),
    {
        self.0.eq_str(other)
    }
}

/// On the wire an error name travels as a string.
impl Type for ErrorName {
    open spec fn spec_signature() -> SignatureView {
        SignatureView::Str
    }

    fn signature() -> (r: Signature) {
        Signature::Str
    }
}

impl Basic for ErrorName {
    const SIGNATURE_CHAR: char = 's';

    const SIGNATURE_STR: &'static str = "s";

    proof fn lemma_signature_spelled() {
        reveal_strlit("s");
        assert(Self::SIGNATURE_STR@ =~= seq![Self::SIGNATURE_CHAR]);
        assert(Self::spec_signature().text() =~= seq![Self::SIGNATURE_CHAR as u8]);
    }
}

impl Type for OwnedErrorName {
    open spec fn spec_signature() -> SignatureView {
        SignatureView::Str
    }

    fn signature() -> (r: Signature) {
        Signature::Str
    }
}

impl Basic for OwnedErrorName {
    const SIGNATURE_CHAR: char = 's';

    const SIGNATURE_STR: &'static str = "s";

    proof fn lemma_signature_spelled() {
        reveal_strlit("s");
        assert(Self::SIGNATURE_STR@ =~= seq![Self::SIGNATURE_CHAR]);
        assert(Self::spec_signature().text() =~= seq![Self::SIGNATURE_CHAR as u8]);
    }
}

/// A valid name, written out as text and read again, is the same name.
pub proof fn lemma_valid_name_reads_back(name: ErrorName)
    requires
        name.is_valid(),
    ensures
        parse_error_name(name@) == Some(name@),
{
}

/// Text that breaks the rules of the kind is never read as a name, and text
/// that is read is read as itself.
pub proof fn lemma_reading_is_exact(text: Seq<char>)
    ensures
        !is_error_name(encode_utf8(text)) ==> parse_error_name(text) is None,
        parse_error_name(text) matches Some(name) ==> name == text && is_error_name(encode_utf8(text)),
{
}

} // verus!
