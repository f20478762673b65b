//! Property names, such as `Version`.

use vstd::prelude::*;
use vstd::std_specs::cmp::PartialEqSpecImpl;
use vstd::std_specs::convert::FromSpecImpl;
use vstd::utf8::encode_utf8;
use crate::names::error::Error;
use vstd::string::StringSliceAdditionalSpecFns;
use crate::names::rules::MAX_NAME_LEN;
use crate::text::str_eq;
use crate::wire::basic::{Basic, Type};
use crate::wire::signature::{Signature, SignatureView};

verus! {

/// The message of the error for an empty property name.
pub const EMPTY_PROPERTY_NAME: &'static str =
    "Invalid property name. It has to be at least 1 character long.";

/// The message of the error for a property name that is too long.
pub const LONG_PROPERTY_NAME: &'static str =
    "Invalid property name. It can not be longer than 255 characters.";

/// The bytes `s` spell a property name: any text of 1 to 255 bytes.
pub open spec fn is_property_name(s: Seq<u8>) -> bool {
    0 < s.len() <= MAX_NAME_LEN
}

/// The error that text which is no property name is turned down with: one
/// for empty text, another for text that is too long.
pub open spec fn property_name_error(text: Seq<char>) -> Error {
    if encode_utf8(text).len() == 0 {
        Error::InvalidName(EMPTY_PROPERTY_NAME)
    } else {
        Error::InvalidName(LONG_PROPERTY_NAME)
    }
}

/// Reading `text` as a property name: the text itself where it is one.
pub open spec fn parse_property_name(text: Seq<char>) -> Option<Seq<char>> {
    if is_property_name(encode_utf8(text)) {
        Some(text)
    } else {
        None
    }
}

/// Accepts `name` where it is a property name.
pub fn ensure_correct_property_name(name: &str) -> (r: Result<(), Error>)
    ensures
        r is Ok <==> parse_property_name(name@) is Some,
        r matches Err(e) ==> e == property_name_error(name@),
{
    let len = name.as_bytes().len();
    if len == 0 {
        Err(Error::InvalidName(EMPTY_PROPERTY_NAME))
    } else if len > MAX_NAME_LEN {
        Err(Error::InvalidName(LONG_PROPERTY_NAME))
    } else {
        Ok(())
    }
}

/// Text that identifies a property name on the bus.
///
/// A value is made from checked text by [`PropertyName::try_from`], or from any
/// text by one of the `_unchecked` constructors; [`PropertyName::is_valid`] tells
/// the two apart in contracts.
#[derive(Debug, Hash, PartialOrd, Ord)]
pub struct PropertyName {
    text: String,
}

impl Clone for PropertyName {
    fn clone(&self) -> (r: Self)
        ensures
            r@ == self@,
    {
        PropertyName { text: self.text.clone() }
    }
}

impl View for PropertyName {
    type V = Seq<char>;

    closed spec fn view(&self) -> Seq<char> {
        self.text@
    }
}

impl PartialEq for PropertyName {
    fn eq(&self, other: &Self) -> (r: bool) {
        self.text == other.text
    }
}

impl PartialEqSpecImpl for PropertyName {
    open spec fn obeys_eq_spec() -> bool {
        true
    }

    open spec fn eq_spec(&self, other: &Self) -> bool {
        self@ == other@
    }
}

impl Eq for PropertyName {

}

impl PropertyName {
    /// The name obeys the rules of its kind.
    pub open spec fn is_valid(&self) -> bool {
        is_property_name(encode_utf8(self@))
    }

    /// Reads `value` as a property name.
    pub fn try_from(value: &str) -> (r: Result<Self, Error>)
        ensures
            match r {
                Ok(name) => parse_property_name(value@) == Some(name@),
                Err(e) => parse_property_name(value@) is None && e == property_name_error(value@),
            },
    {
        match ensure_correct_property_name(value) {
            Ok(()) => Ok(PropertyName { text: value.to_owned() }),
            Err(e) => Err(e),
        }
    }

    /// Reads the owned text `value` as a property name, without copying it.
    pub fn try_from_string(value: String) -> (r: Result<Self, Error>)
        ensures
            match r {
                Ok(name) => parse_property_name(value@) == Some(name@),
                Err(e) => parse_property_name(value@) is None && e == property_name_error(value@),
            },
    {
        match ensure_correct_property_name(value.as_str()) {
            Ok(()) => Ok(PropertyName { text: value }),
            Err(e) => Err(e),
        }
    }

    /// Same as [`PropertyName::try_from`], for text that lives as long as the program.
    pub fn from_static_str(name: &'static str) -> (r: Result<Self, Error>)
        ensures
            match r {
                Ok(n) => parse_property_name(name@) == Some(n@),
                Err(e) => parse_property_name(name@) is None && e == property_name_error(name@),
            },
    {
        Self::try_from(name)
    }

    /// Takes `name` as a property name without checking it. Prefer
    /// [`PropertyName::try_from`].
    pub fn from_str_unchecked(name: &str) -> (r: Self)
        ensures
            r@ == name@,
    {
        PropertyName { text: name.to_owned() }
    }

    /// Same as [`PropertyName::from_str_unchecked`], for text that lives as long
    /// as the program.
    pub fn from_static_str_unchecked(name: &'static str) -> (r: Self)
        ensures
            r@ == name@,
    {
        PropertyName { text: name.to_owned() }
    }

    /// Same as [`PropertyName::from_str_unchecked`], for owned text.
    pub fn from_string_unchecked(name: String) -> (r: Self)
        ensures
            r@ == name@,
    {
        PropertyName { text: name }
    }

    /// The name as text.
    pub fn as_str(&self) -> (r: &str)
        ensures
            r@ == self@,
    {
        self.text.as_str()
    }

    /// The name as owned text.
    pub fn to_string(&self) -> (r: String)
        ensures
            r@ == self@,
    {
        self.text.clone()
    }

    /// A copy of the name.
    pub fn as_ref(&self) -> (r: PropertyName)
        ensures
            r@ == self@,
    {
        PropertyName { text: self.text.clone() }
    }

    /// A copy of the name that borrows nothing.
    pub fn to_owned(&self) -> (r: PropertyName)
        ensures
            r@ == self@,
    {
        PropertyName { text: self.text.clone() }
    }

    /// The name itself, borrowing nothing.
    pub fn into_owned(self) -> (r: PropertyName)
        ensures
            r@ == self@,
    {
        self
    }

    /// Tells whether the name is spelled `other`.
    pub fn eq_str(&self, other: &str) -> (r: bool)
        ensures
            r == (self@ == other@),
    {
        str_eq(self.text.as_str(), other)
    }
}

/// Owned sibling of [`PropertyName`].
#[derive(Debug, Hash, PartialOrd, Ord)]
pub struct OwnedPropertyName(PropertyName);

impl Clone for OwnedPropertyName {
    fn clone(&self) -> (r: Self)
        ensures
            r@ == self@,
    {
        OwnedPropertyName(self.0.clone())
    }
}

impl View for OwnedPropertyName {
    type V = Seq<char>;

    closed spec fn view(&self) -> Seq<char> {
        self.0@
    }
}

impl PartialEq for OwnedPropertyName {
    fn eq(&self, other: &Self) -> (r: bool) {
        self.0 == other.0
    }
}

impl PartialEqSpecImpl for OwnedPropertyName {
    open spec fn obeys_eq_spec() -> bool {
        true
    }

    open spec fn eq_spec(&self, other: &Self) -> bool {
        self@ == other@
    }
}

impl Eq for OwnedPropertyName {

}

impl From<PropertyName> for OwnedPropertyName {
    fn from(name: PropertyName) -> (r: OwnedPropertyName)
        ensures
            r@ == name@,
    {
        OwnedPropertyName(name)
    }
}

impl FromSpecImpl<PropertyName> for OwnedPropertyName {
    open spec fn obeys_from_spec() -> bool {
        true
    }

    closed spec fn from_spec(name: PropertyName) -> OwnedPropertyName {
        OwnedPropertyName(name)
    }
}

impl From<OwnedPropertyName> for PropertyName {
    fn from(name: OwnedPropertyName) -> (r: PropertyName)
        ensures
            r@ == name@,
    {
        name.0
    }
}

impl FromSpecImpl<OwnedPropertyName> for PropertyName {
    open spec fn obeys_from_spec() -> bool {
        true
    }

    closed spec fn from_spec(name: OwnedPropertyName) -> PropertyName {
        name.0
    }
}

impl OwnedPropertyName {
    /// The name obeys the rules of its kind.
    pub open spec fn is_valid(&self) -> bool {
        is_property_name(encode_utf8(self@))
    }

    /// Reads `value` as a property name.
    pub fn try_from(value: &str) -> (r: Result<Self, Error>)
        ensures
            match r {
                Ok(name) => parse_property_name(value@) == Some(name@),
                Err(e) => parse_property_name(value@) is None && e == property_name_error(value@),
            },
    {
        match PropertyName::try_from(value) {
            Ok(name) => Ok(OwnedPropertyName(name)),
            Err(e) => Err(e),
        }
    }

    /// Reads the owned text `value` as a property name, without copying it.
    pub fn try_from_string(value: String) -> (r: Result<Self, Error>)
        ensures
            match r {
                Ok(name) => parse_property_name(value@) == Some(name@),
                Err(e) => parse_property_name(value@) is None && e == property_name_error(value@),
            },
    {
        match PropertyName::try_from_string(value) {
            Ok(name) => Ok(OwnedPropertyName(name)),
            Err(e) => Err(e),
        }
    }

    /// Gives up the wrapper and returns the name inside.
    pub fn into_inner(self) -> (r: PropertyName)
        ensures
            r@ == self@,
    {
        self.0
    }

    /// The name inside.
    pub fn inner(&self) -> (r: &PropertyName)
        ensures
            r@ == self@,
    {
        &self.0
    }

    /// A copy of the name inside.
    pub fn as_ref(&self) -> (r: PropertyName)
        ensures
            r@ == self@,
    {
        self.0.as_ref()
    }

    /// The name as text.
    pub fn as_str(&self) -> (r: &str)
        ensures
            r@ == self@,
    {
        self.0.as_str()
    }

    /// The name as owned text.
    pub fn to_string(&self) -> (r: String)
        ensures
            r@ == self@,
    {
        self.0.to_string()
    }

    /// Tells whether the name is spelled `other`.
    pub fn eq_str(&self, other: &str) -> (r: bool)
        ensures
            r == (self@ == other@),
    {
        self.0.eq_str(other)
    }
}

/// On the wire a property name travels as a string.
impl Type for PropertyName {
    open spec fn spec_signature() -> SignatureView {
        SignatureView::Str
    }

    fn signature() -> (r: Signature) {
        Signature::Str
    }
}

impl Basic for PropertyName {
    const SIGNATURE_CHAR: char = 's';

    const SIGNATURE_STR: &'static str = "s";

    proof fn lemma_signature_spelled() {
        reveal_strlit("s");
        assert(Self::SIGNATURE_STR@ =~= seq![Self::SIGNATURE_CHAR]);
        assert(Self::spec_signature().text() =~= seq![Self::SIGNATURE_CHAR as u8]);
    }
}

impl Type for OwnedPropertyName {
    open spec fn spec_signature() -> SignatureView {
        SignatureView::Str
    }

    fn signature() -> (r: Signature) {
        Signature::Str
    }
}

impl Basic for OwnedPropertyName {
    const SIGNATURE_CHAR: char = 's';

    const SIGNATURE_STR: &'static str = "s";

    proof fn lemma_signature_spelled() {
        reveal_strlit("s");
        assert(Self::SIGNATURE_STR@ =~= seq![Self::SIGNATURE_CHAR]);
        assert(Self::spec_signature().text() =~= seq![Self::SIGNATURE_CHAR as u8]);
    }
}

/// A valid name, written out as text and read again, is the same name.
pub proof fn lemma_valid_name_reads_back(name: PropertyName)
    requires
        name.is_valid(),
    ensures
        parse_property_name(name@) == Some(name@),
{
}

/// Text that breaks the rules of the kind is never read as a name, and text
/// that is read is read as itself.
pub proof fn lemma_reading_is_exact(text: Seq<char>)
    ensures
        !is_property_name(encode_utf8(text)) ==> parse_property_name(text) is None,
        parse_property_name(text) matches Some(name) ==> name == text && is_property_name(encode_utf8(text)),
{
}

} // verus!
