//! Unique bus names, such as `:1.42`.

use vstd::prelude::*;
use vstd::std_specs::cmp::PartialEqSpecImpl;
use vstd::std_specs::convert::FromSpecImpl;
use vstd::utf8::encode_utf8;
use crate::names::error::Error;
use crate::names::rules::{has_dot, is_dotted, scan_dotted, MAX_NAME_LEN};
use crate::text::bytes_eq;
use crate::text::str_eq;
use crate::wire::basic::{Basic, Type};
use crate::wire::signature::{Signature, SignatureView};

verus! {

/// The message of the error for text that is no unique name.
pub const INVALID_UNIQUE_NAME: &'static str =
    "Invalid unique name. See https://dbus.freedesktop.org/doc/dbus-specification.html#message-protocol-names-bus";

/// The byte that opens the unique name of a peer.
pub const COLON: u8 = 0x3a;

/// The bytes of `org.freedesktop.DBus`, the unique name of the bus itself.
pub open spec fn bus_name_bytes() -> Seq<u8> {
    seq![
        0x6fu8, 0x72, 0x67, 0x2e, 0x66, 0x72, 0x65, 0x65, 0x64, 0x65, 0x73, 0x6b, 0x74, 0x6f,
        0x70, 0x2e, 0x44, 0x42, 0x75, 0x73,
    ]
}

/// The bytes `s` spell the unique name of a peer: a colon, then two or more
/// non-empty elements joined by dots, each made of ASCII letters, digits,
/// underscores and dashes. An element may start with a digit.
pub open spec fn is_peer_name(s: Seq<u8>) -> bool {
    &&& s.len() > 0
    &&& s[0] == COLON
    &&& is_dotted(s.skip(1), true, true)
    &&& has_dot(s.skip(1))
}

/// The bytes `s` spell a unique bus name: at most 255 bytes that are either
/// the name of the bus itself or the name of a peer.
pub open spec fn is_unique_name(s: Seq<u8>) -> bool {
    &&& s.len() <= MAX_NAME_LEN
    &&& (s == bus_name_bytes() || is_peer_name(s))
}

/// The error that text which is no unique name is turned down with.
pub open spec fn unique_name_error(text: Seq<char>) -> Error {
    Error::InvalidName(INVALID_UNIQUE_NAME)
}

/// Reading `text` as a unique bus name: the text itself where it is one.
pub open spec fn parse_unique_name(text: Seq<char>) -> Option<Seq<char>> {
    if is_unique_name(encode_utf8(text)) {
        Some(text)
    } else {
        None
    }
}

/// Tells whether `bytes` spell a unique bus name.
pub fn validate_bytes(bytes: &[u8]) -> (r: Result<(), ()>)
    ensures
        r is Ok <==> is_unique_name(bytes@),
{
    if bytes.len() == 0 || bytes.len() > MAX_NAME_LEN {
        return Err(());
    }
    if bytes[0] == COLON {
        return match scan_dotted(bytes, 1, true, true) {
            Some(true) => Ok(()),
            _ => Err(()),
        };
    }
    let bus: [u8; 20] = [
        0x6f, 0x72, 0x67, 0x2e, 0x66, 0x72, 0x65, 0x65, 0x64, 0x65, 0x73, 0x6b, 0x74, 0x6f, 0x70,
        0x2e, 0x44, 0x42, 0x75, 0x73,
    ];
    assert(bus@ =~= bus_name_bytes());
    if bytes_eq(bytes, bus.as_slice()) {
        Ok(())
    } else {
        Err(())
    }
}

/// Accepts `name` where it is a unique bus name.
pub fn validate(name: &str) -> (r: Result<(), Error>)
    ensures
        r is Ok <==> parse_unique_name(name@) is Some,
        r matches Err(e) ==> e == unique_name_error(name@),
{
    match validate_bytes(name.as_bytes()) {
        Ok(()) => Ok(()),
        Err(()) => Err(Error::InvalidName(INVALID_UNIQUE_NAME)),
    }
}

/// Text that identifies a unique bus name on the bus.
///
/// A value is made from checked text by [`UniqueName::try_from`], or from any
/// text by one of the `_unchecked` constructors; [`UniqueName::is_valid`] tells
/// the two apart in contracts.
#[derive(Debug, Hash, PartialOrd, Ord)]
pub struct UniqueName {
    text: String,
}

impl Clone for UniqueName {
    fn clone(&self) -> (r: Self)
        ensures
            r@ == self@,
    {
        UniqueName { text: self.text.clone() }
    }
}

impl View for UniqueName {
    type V = Seq<char>;

    closed spec fn view(&self) -> Seq<char> {
        self.text@
    }
}

impl PartialEq for UniqueName {
    fn eq(&self, other: &Self) -> (r: bool) {
        self.text == other.text
    }
}

impl PartialEqSpecImpl for UniqueName {
    open spec fn obeys_eq_spec() -> bool {
        true
    }

    open spec fn eq_spec(&self, other: &Self) -> bool {
        self@ == other@
    }
}

impl Eq for UniqueName {

}

impl UniqueName {
    /// The name obeys the rules of its kind.
    pub open spec fn is_valid(&self) -> bool {
        is_unique_name(encode_utf8(self@))
    }

    /// Reads `value` as a unique bus name.
    pub fn try_from(value: &str) -> (r: Result<Self, Error>)
        ensures
            match r {
                Ok(name) => parse_unique_name(value@) == Some(name@),
                Err(e) => parse_unique_name(value@) is None && e == unique_name_error(value@),
            },
    {
        match validate(value) {
            Ok(()) => Ok(UniqueName { text: value.to_owned() }),
            Err(e) => Err(e),
        }
    }

    /// Reads the owned text `value` as a unique bus name, without copying it.
    pub fn try_from_string(value: String) -> (r: Result<Self, Error>)
        ensures
            match r {
                Ok(name) => parse_unique_name(value@) == Some(name@),
                Err(e) => parse_unique_name(value@) is None && e == unique_name_error(value@),
            },
    {
        match validate(value.as_str()) {
            Ok(()) => Ok(UniqueName { text: value }),
            Err(e) => Err(e),
        }
    }

    /// Same as [`UniqueName::try_from`], for text that lives as long as the program.
    pub fn from_static_str(name: &'static str) -> (r: Result<Self, Error>)
        ensures
            match r {
                Ok(n) => parse_unique_name(name@) == Some(n@),
                Err(e) => parse_unique_name(name@) is None && e == unique_name_error(name@),
            },
    {
        Self::try_from(name)
    }

    /// Takes `name` as a unique bus name without checking it. Prefer
    /// [`UniqueName::try_from`].
    pub fn from_str_unchecked(name: &str) -> (r: Self)
        ensures
            r@ == name@,
    {
        UniqueName { text: name.to_owned() }
    }

    /// Same as [`UniqueName::from_str_unchecked`], for text that lives as long
    /// as the program.
    pub fn from_static_str_unchecked(name: &'static str) -> (r: Self)
        ensures
            r@ == name@,
    {
        UniqueName { text: name.to_owned() }
    }

    /// Same as [`UniqueName::from_str_unchecked`], for owned text.
    pub fn from_string_unchecked(name: String) -> (r: Self)
        ensures
            r@ == name@,
    {
        UniqueName { text: name }
    }

    /// The name as text.
    pub fn as_str(&self) -> (r: &str)
        ensures
            r@ == self@,
    {
        self.text.as_str()
    }

    /// The name as owned text.
    pub fn to_string(&self) -> (r: String)
        ensures
            r@ == self@,
    {
        self.text.clone()
    }

    /// A copy of the name.
    pub fn as_ref(&self) -> (r: UniqueName)
        ensures
            r@ == self@,
    {
        UniqueName { text: self.text.clone() }
    }

    /// A copy of the name that borrows nothing.
    pub fn to_owned(&self) -> (r: UniqueName)
        ensures
            r@ == self@,
    {
        UniqueName { text: self.text.clone() }
    }

    /// The name itself, borrowing nothing.
    pub fn into_owned(self) -> (r: UniqueName)
        ensures
            r@ == self@,
    {
        self
    }

    /// Tells whether the name is spelled `other`.
    pub fn eq_str(&self, other: &str) -> (r: bool)
        ensures
            r == (self@ == other@),
    {
        str_eq(self.text.as_str(), other)
    }
}

/// Owned sibling of [`UniqueName`].
#[derive(Debug, Hash, PartialOrd, Ord)]
pub struct OwnedUniqueName(UniqueName);

impl Clone for OwnedUniqueName {
    fn clone(&self) -> (r: Self)
        ensures
            r@ == self@,
    {
        OwnedUniqueName(self.0.clone())
    }
}

impl View for OwnedUniqueName {
    type V = Seq<char>;

    closed spec fn view(&self) -> Seq<char> {
        self.0@
    }
}

impl PartialEq for OwnedUniqueName {
    fn eq(&self, other: &Self) -> (r: bool) {
        self.0 == other.0
    }
}

impl PartialEqSpecImpl for OwnedUniqueName {
    open spec fn obeys_eq_spec() -> bool {
        true
    }

    open spec fn eq_spec(&self, other: &Self) -> bool {
        self@ == other@
    }
}

impl Eq for OwnedUniqueName {

}

impl From<UniqueName> for OwnedUniqueName {
    fn from(name: UniqueName) -> (r: OwnedUniqueName)
        ensures
            r@ == name@,
    {
        OwnedUniqueName(name)
    }
}

impl FromSpecImpl<UniqueName> for OwnedUniqueName {
    open spec fn obeys_from_spec() -> bool {
        true
    }

    closed spec fn from_spec(name: UniqueName) -> OwnedUniqueName {
        OwnedUniqueName(name)
    }
}

impl From<OwnedUniqueName> for UniqueName {
    fn from(name: OwnedUniqueName) -> (r: UniqueName)
        ensures
            r@ == name@,
    {
        name.0
    }
}

impl FromSpecImpl<OwnedUniqueName> for UniqueName {
    open spec fn obeys_from_spec() -> bool {
        true
    }

    closed spec fn from_spec(name: OwnedUniqueName) -> UniqueName {
        name.0
    }
}

impl OwnedUniqueName {
    /// The name obeys the rules of its kind.
    pub open spec fn is_valid(&self) -> bool {
        is_unique_name(encode_utf8(self@))
    }

    /// Reads `value` as a unique bus name.
    pub fn try_from(value: &str) -> (r: Result<Self, Error>)
        ensures
            match r {
                Ok(name) => parse_unique_name(value@) == Some(name@),
                Err(e) => parse_unique_name(value@) is None && e == unique_name_error(value@),
            },
    {
        match UniqueName::try_from(value) {
            Ok(name) => Ok(OwnedUniqueName(name)),
            Err(e) => Err(e),
        }
    }

    /// Reads the owned text `value` as a unique bus name, without copying it.
    pub fn try_from_string(value: String) -> (r: Result<Self, Error>)
        ensures
            match r {
                Ok(name) => parse_unique_name(value@) == Some(name@),
                Err(e) => parse_unique_name(value@) is None && e == unique_name_error(value@),
            },
    {
        match UniqueName::try_from_string(value) {
            Ok(name) => Ok(OwnedUniqueName(name)),
            Err(e) => Err(e),
        }
    }

    /// Gives up the wrapper and returns the name inside.
    pub fn into_inner(self) -> (r: UniqueName)
        ensures
            r@ == self@,
    {
        self.0
    }

    /// The name inside.
    pub fn inner(&self) -> (r: &UniqueName)
        ensures
            r@ == self@,
    {
        &self.0
    }

    /// A copy of the name inside.
    pub fn as_ref(&self) -> (r: UniqueName)
        ensures
            r@ == self@,
    {
        self.0.as_ref()
    }

    /// The name as text.
    pub fn as_str(&self) -> (r: &str)
        ensures
            r@ == self@,
    {
        self.0.as_str()
    }

    /// The name as owned text.
    pub fn to_string(&self) -> (r: String)
        ensures
            r@ == self@,
    {
        self.0.to_string()
    }

    /// Tells whether the name is spelled `other`.
    pub fn eq_str(&self, other: &str) -> (r: bool)
        ensures
            r == (self@ == other@),
    {
        self.0.eq_str(other)
    }
}

/// On the wire a unique bus name travels as a string.
impl Type for UniqueName {
    open spec fn spec_signature() -> SignatureView {
        SignatureView::Str
    }

    fn signature() -> (r: Signature) {
        Signature::Str
    }
}

impl Basic for UniqueName {
    const SIGNATURE_CHAR: char = 's';

    const SIGNATURE_STR: &'static str = "s";

    proof fn lemma_signature_spelled() {
        reveal_strlit("s");
        assert(Self::SIGNATURE_STR@ =~= seq![Self::SIGNATURE_CHAR]);
        assert(Self::spec_signature().text() =~= seq![Self::SIGNATURE_CHAR as u8]);
    }
}

impl Type for OwnedUniqueName {
    open spec fn spec_signature() -> SignatureView {
        SignatureView::Str
    }

    fn signature() -> (r: Signature) {
        Signature::Str
    }
}

impl Basic for OwnedUniqueName {
    const SIGNATURE_CHAR: char = 's';

    const SIGNATURE_STR: &'static str = "s";

    proof fn lemma_signature_spelled() {
        reveal_strlit("s");
        assert(Self::SIGNATURE_STR@ =~= seq![Self::SIGNATURE_CHAR]);
        assert(Self::spec_signature().text() =~= seq![Self::SIGNATURE_CHAR as u8]);
    }
}

/// A valid name, written out as text and read again, is the same name.
pub proof fn lemma_valid_name_reads_back(name: UniqueName)
    requires
        name.is_valid(),
    ensures
        parse_unique_name(name@) == Some(name@),
{
}

/// Text that breaks the rules of the kind is never read as a name, and text
/// that is read is read as itself.
pub proof fn lemma_reading_is_exact(text: Seq<char>)
    ensures
        !is_unique_name(encode_utf8(text)) ==> parse_unique_name(text) is None,
        parse_unique_name(text) matches Some(name) ==> name == text && is_unique_name(encode_utf8(text)),
{
}

} // verus!
