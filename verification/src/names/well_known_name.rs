//! Well-known bus names, such as `org.freedesktop.NetworkManager`.

use vstd::prelude::*;
use vstd::std_specs::cmp::PartialEqSpecImpl;
use vstd::std_specs::convert::FromSpecImpl;
use vstd::utf8::encode_utf8;
use crate::names::error::Error;
use crate::names::rules::{has_dot, is_dotted, scan_dotted, MAX_NAME_LEN};
use crate::text::str_eq;
use crate::wire::basic::{Basic, Type};
use crate::wire::signature::{Signature, SignatureView};

verus! {

/// The message of the error for text that is no well-known name.
pub const INVALID_WELL_KNOWN_NAME: &'static str =
    "Invalid well-known name. See https://dbus.freedesktop.org/doc/dbus-specification.html#message-protocol-names-bus";

/// The bytes `s` spell a well-known bus name: at most 255 bytes, two or
/// more elements joined by dots, each element made of ASCII letters, digits,
/// underscores and dashes and not starting with a digit.
pub open spec fn is_well_known_name(s: Seq<u8>) -> bool {
    &&& s.len() <= MAX_NAME_LEN
    &&& is_dotted(s, true, false)
    &&& has_dot(s)
}

/// The error that text which is no well-known name is turned down with.
pub open spec fn well_known_name_error(text: Seq<char>) -> Error {
    Error::InvalidName(INVALID_WELL_KNOWN_NAME)
}

/// Reading `text` as a well-known bus name: the text itself where it is one.
pub open spec fn parse_well_known_name(text: Seq<char>) -> Option<Seq<char>> {
    if is_well_known_name(encode_utf8(text)) {
        Some(text)
    } else {
        None
    }
}

/// Tells whether `bytes` spell a well-known bus name.
pub fn validate_bytes(bytes: &[u8]) -> (r: Result<(), ()>)
    ensures
        r is Ok <==> is_well_known_name(bytes@),
{
    assert(bytes@.skip(0) =~= bytes@);
    match scan_dotted(bytes, 0, true, false) {
        Some(true) => if bytes.len() > MAX_NAME_LEN {
            Err(())
        } else {
            Ok(())
        },
        _ => Err(()),
    }
}

/// Accepts `name` where it is a well-known bus name.
pub fn validate(name: &str) -> (r: Result<(), Error>)
    ensures
        r is Ok <==> parse_well_known_name(name@) is Some,
        r matches Err(e) ==> e == well_known_name_error(name@),
{
    match validate_bytes(name.as_bytes()) {
        Ok(()) => Ok(()),
        Err(()) => Err(Error::InvalidName(INVALID_WELL_KNOWN_NAME)),
    }
}

/// Text that identifies a well-known bus name on the bus.
///
/// A value is made from checked text by [`WellKnownName::try_from`], or from any
/// text by one of the `_unchecked` constructors; [`WellKnownName::is_valid`] tells
/// the two apart in contracts.
#[derive(Debug, Hash, PartialOrd, Ord)]
pub struct WellKnownName {
    text: String,
}

impl Clone for WellKnownName {
    fn clone(&self) -> (r: Self)
        ensures
            r@ == self@,
    {
        WellKnownName { text: self.text.clone() }
    }
}

impl View for WellKnownName {
    type V = Seq<char>;

    closed spec fn view(&self) -> Seq<char> {
        self.text@
    }
}

impl PartialEq for WellKnownName {
    fn eq(&self, other: &Self) -> (r: bool) {
        self.text == other.text
    }
}

impl PartialEqSpecImpl for WellKnownName {
    open spec fn obeys_eq_spec() -> bool {
        true
    }

    open spec fn eq_spec(&self, other: &Self) -> bool {
        self@ == other@
    }
}

impl Eq for WellKnownName {

}

impl WellKnownName {
    /// The name obeys the rules of its kind.
    pub open spec fn is_valid(&self) -> bool {
        is_well_known_name(encode_utf8(self@))
    }

    /// Reads `value` as a well-known bus name.
    pub fn try_from(value: &str) -> (r: Result<Self, Error>)
        ensures
            match r {
                Ok(name) => parse_well_known_name(value@) == Some(name@),
                Err(e) => parse_well_known_name(value@) is None && e == well_known_name_error(value@),
            },
    {
        match validate(value) {
            Ok(()) => Ok(WellKnownName { text: value.to_owned() }),
            Err(e) => Err(e),
        }
    }

    /// Reads the owned text `value` as a well-known bus name, without copying it.
    pub fn try_from_string(value: String) -> (r: Result<Self, Error>)
        ensures
            match r {
                Ok(name) => parse_well_known_name(value@) == Some(name@),
                Err(e) => parse_well_known_name(value@) is None && e == well_known_name_error(value@),
            },
    {
        match validate(value.as_str()) {
            Ok(()) => Ok(WellKnownName { text: value }),
            Err(e) => Err(e),
        }
    }

    /// Same as [`WellKnownName::try_from`], for text that lives as long as the program.
    pub fn from_static_str(name: &'static str) -> (r: Result<Self, Error>)
        ensures
            match r {
                Ok(n) => parse_well_known_name(name@) == Some(n@),
                Err(e) => parse_well_known_name(name@) is None && e == well_known_name_error(name@),
            },
    {
        Self::try_from(name)
    }

    /// Takes `name` as a well-known bus name without checking it. Prefer
    /// [`WellKnownName::try_from`].
    pub fn from_str_unchecked(name: &str) -> (r: Self)
        ensures
            r@ == name@,
    {
        WellKnownName { text: name.to_owned() }
    }

    /// Same as [`WellKnownName::from_str_unchecked`], for text that lives as long
    /// as the program.
    pub fn from_static_str_unchecked(name: &'static str) -> (r: Self)
        ensures
            r@ == name@,
    {
        WellKnownName { text: name.to_owned() }
    }

    /// Same as [`WellKnownName::from_str_unchecked`], for owned text.
    pub fn from_string_unchecked(name: String) -> (r: Self)
        ensures
            r@ == name@,
    {
        WellKnownName { text: name }
    }

    /// The name as text.
    pub fn as_str(&self) -> (r: &str)
        ensures
            r@ == self@,
    {
        self.text.as_str()
    }

    /// The name as owned text.
    pub fn to_string(&self) -> (r: String)
        ensures
            r@ == self@,
    {
        self.text.clone()
    }

    /// A copy of the name.
    pub fn as_ref(&self) -> (r: WellKnownName)
        ensures
            r@ == self@,
    {
        WellKnownName { text: self.text.clone() }
    }

    /// A copy of the name that borrows nothing.
    pub fn to_owned(&self) -> (r: WellKnownName)
        ensures
            r@ == self@,
    {
        WellKnownName { text: self.text.clone() }
    }

    /// The name itself, borrowing nothing.
    pub fn into_owned(self) -> (r: WellKnownName)
        ensures
            r@ == self@,
    {
        self
    }

    /// Tells whether the name is spelled `other`.
    pub fn eq_str(&self, other: &str) -> (r: bool)
        ensures
            r == (self@ == other@),
    {
        str_eq(self.text.as_str(), other)
    }
}

/// Owned sibling of [`WellKnownName`].
#[derive(Debug, Hash, PartialOrd, Ord)]
pub struct OwnedWellKnownName(WellKnownName);

impl Clone for OwnedWellKnownName {
    fn clone(&self) -> (r: Self)
        ensures
            r@ == self@,
    {
        OwnedWellKnownName(self.0.clone())
    }
}

impl View for OwnedWellKnownName {
    type V = Seq<char>;

    closed spec fn view(&self) -> Seq<char> {
        self.0@
    }
}

impl PartialEq for OwnedWellKnownName {
    fn eq(&self, other: &Self) -> (r: bool) {
        self.0 == other.0
    }
}

impl PartialEqSpecImpl for OwnedWellKnownName {
    open spec fn obeys_eq_spec() -> bool {
        true
    }

    open spec fn eq_spec(&self, other: &Self) -> bool {
        self@ == other@
    }
}

impl Eq for OwnedWellKnownName {

}

impl From<WellKnownName> for OwnedWellKnownName {
    fn from(name: WellKnownName) -> (r: OwnedWellKnownName)
        ensures
            r@ == name@,
    {
        OwnedWellKnownName(name)
    }
}

impl FromSpecImpl<WellKnownName> for OwnedWellKnownName {
    open spec fn obeys_from_spec() -> bool {
        true
    }

    closed spec fn from_spec(name: WellKnownName) -> OwnedWellKnownName {
        OwnedWellKnownName(name)
    }
}

impl From<OwnedWellKnownName> for WellKnownName {
    fn from(name: OwnedWellKnownName) -> (r: WellKnownName)
        ensures
            r@ == name@,
    {
        name.0
    }
}

impl FromSpecImpl<OwnedWellKnownName> for WellKnownName {
    open spec fn obeys_from_spec() -> bool {
        true
    }

    closed spec fn from_spec(name: OwnedWellKnownName) -> WellKnownName {
        name.0
    }
}

impl OwnedWellKnownName {
    /// The name obeys the rules of its kind.
    pub open spec fn is_valid(&self) -> bool {
        is_well_known_name(encode_utf8(self@))
    }

    /// Reads `value` as a well-known bus name.
    pub fn try_from(value: &str) -> (r: Result<Self, Error>)
        ensures
            match r {
                Ok(name) => parse_well_known_name(value@) == Some(name@),
                Err(e) => parse_well_known_name(value@) is None && e == well_known_name_error(value@),
            },
    {
        match WellKnownName::try_from(value) {
            Ok(name) => Ok(OwnedWellKnownName(name)),
            Err(e) => Err(e),
        }
    }

    /// Reads the owned text `value` as a well-known bus name, without copying it.
    pub fn try_from_string(value: String) -> (r: Result<Self, Error>)
        ensures
            match r {
                Ok(name) => parse_well_known_name(value@) == Some(name@),
                Err(e) => parse_well_known_name(value@) is None && e == well_known_name_error(value@),
            },
    {
        match WellKnownName::try_from_string(value) {
            Ok(name) => Ok(OwnedWellKnownName(name)),
            Err(e) => Err(e),
        }
    }

    /// Gives up the wrapper and returns the name inside.
    pub fn into_inner(self) -> (r: WellKnownName)
        ensures
            r@ == self@,
    {
        self.0
    }

    /// The name inside.
    pub fn inner(&self) -> (r: &WellKnownName)
        ensures
            r@ == self@,
    {
        &self.0
    }

    /// A copy of the name inside.
    pub fn as_ref(&self) -> (r: WellKnownName)
        ensures
            r@ == self@,
    {
        self.0.as_ref()
    }

    /// The name as text.
    pub fn as_str(&self) -> (r: &str)
        ensures
            r@ == self@,
    {
        self.0.as_str()
    }

    /// The name as owned text.
    pub fn to_string(&self) -> (r: String)
        ensures
            r@ == self@,
    {
        self.0.to_string()
    }

    /// Tells whether the name is spelled `other`.
    pub fn eq_str(&self, other: &str) -> (r: bool)
        ensures
            r == (self@ == other@),
    {
        self.0.eq_str(other)
    }
}

/// On the wire a well-known bus name travels as a string.
impl Type for WellKnownName {
    open spec fn spec_signature() -> SignatureView {
        SignatureView::Str
    }

    fn signature() -> (r: Signature) {
        Signature::Str
    }
}

impl Basic for WellKnownName {
    const SIGNATURE_CHAR: char = 's';

    const SIGNATURE_STR: &'static str = "s";

    proof fn lemma_signature_spelled() {
        reveal_strlit("s");
        assert(Self::SIGNATURE_STR@ =~= seq![Self::SIGNATURE_CHAR]);
        assert(Self::spec_signature().text() =~= seq![Self::SIGNATURE_CHAR as u8]);
    }
}

impl Type for OwnedWellKnownName {
    open spec fn spec_signature() -> SignatureView {
        SignatureView::Str
    }

    fn signature() -> (r: Signature) {
        Signature::Str
    }
}

impl Basic for OwnedWellKnownName {
    const SIGNATURE_CHAR: char = 's';

    const SIGNATURE_STR: &'static str = "s";

    proof fn lemma_signature_spelled() {
        reveal_strlit("s");
        assert(Self::SIGNATURE_STR@ =~= seq![Self::SIGNATURE_CHAR]);
        assert(Self::spec_signature().text() =~= seq![Self::SIGNATURE_CHAR as u8]);
    }
}

/// A valid name, written out as text and read again, is the same name.
pub proof fn lemma_valid_name_reads_back(name: WellKnownName)
    requires
        name.is_valid(),
    ensures
        parse_well_known_name(name@) == Some(name@),
{
}

/// Text that breaks the rules of the kind is never read as a name, and text
/// that is read is read as itself.
pub proof fn lemma_reading_is_exact(text: Seq<char>)
    ensures
        !is_well_known_name(encode_utf8(text)) ==> parse_well_known_name(text) is None,
        parse_well_known_name(text) matches Some(name) ==> name == text && is_well_known_name(encode_utf8(text)),
{
}

} // verus!
