//! Object paths, such as `/org/freedesktop/DBus`.

use vstd::prelude::*;
use vstd::std_specs::cmp::PartialEqSpecImpl;
use vstd::std_specs::convert::FromSpecImpl;
use vstd::utf8::encode_utf8;
use crate::names::error::Error;
use vstd::string::StringSliceAdditionalSpecFns;
use crate::names::rules::{element_byte, is_element_byte, MAX_NAME_LEN};
use crate::text::str_eq;
use crate::wire::basic::{Basic, Type};
use crate::wire::signature::{Signature, SignatureView};

verus! {

/// The message of the error for text that is no object path.
pub const INVALID_OBJECT_PATH: &'static str =
    "Invalid object path. See https://dbus.freedesktop.org/doc/dbus-specification.html#message-protocol-marshaling-object-path";

/// The byte that separates the elements of a path.
pub const SLASH: u8 = 0x2f;

/// The bytes `s` spell an object path: at most 255 bytes that start with a
/// slash; then either nothing more, which is the root, or non-empty elements
/// of ASCII letters, digits and underscores with single slashes between
/// them and none at the end.
pub open spec fn is_object_path(s: Seq<u8>) -> bool {
    &&& 0 < s.len() <= MAX_NAME_LEN
    &&& s[0] == SLASH
    &&& s.len() > 1 ==> s[s.len() - 1] != SLASH
    &&& forall|i: int|
        0 < i < s.len() ==> if s[i - 1] == SLASH {
            is_element_byte(#[trigger] s[i], false)
        } else {
            s[i] == SLASH || is_element_byte(s[i], false)
        }
}

/// The error that text which is no object path is turned down with.
pub open spec fn object_path_error(text: Seq<char>) -> Error {
    Error::InvalidName(INVALID_OBJECT_PATH)
}

/// Reading `text` as an object path: the text itself where it is one.
pub open spec fn parse_object_path(text: Seq<char>) -> Option<Seq<char>> {
    if is_object_path(encode_utf8(text)) {
        Some(text)
    } else {
        None
    }
}

/// Tells whether `bytes` spell an object path.
pub fn validate_bytes(bytes: &[u8]) -> (r: Result<(), ()>)
    ensures
        r is Ok <==> is_object_path(bytes@),
{
    let n = bytes.len();
    if n == 0 || n > MAX_NAME_LEN || bytes[0] != SLASH {
        return Err(());
    }
    let mut i: usize = 1;
    while i < n
        invariant
            1 <= i <= n,
            n == bytes.len(),
            bytes@[0] == SLASH,
            forall|k: int|
                0 < k < i ==> if bytes@[k - 1] == SLASH {
                    is_element_byte(#[trigger] bytes@[k], false)
                } else {
                    bytes@[k] == SLASH || is_element_byte(bytes@[k], false)
                },
        decreases n - i,
    {
        let b = bytes[i];
        if bytes[i - 1] == SLASH {
            if !element_byte(b, false) {
                return Err(());
            }
        } else if b != SLASH && !element_byte(b, false) {
            return Err(());
        }
        i += 1;
    }
    if n > 1 && bytes[n - 1] == SLASH {
        return Err(());
    }
    Ok(())
}

/// Accepts `name` where it is an object path.
pub fn validate(name: &str) -> (r: Result<(), Error>)
    ensures
        r is Ok <==> parse_object_path(name@) is Some,
        r matches Err(e) ==> e == object_path_error(name@),
{
    match validate_bytes(name.as_bytes()) {
        Ok(()) => Ok(()),
        Err(()) => Err(Error::InvalidName(INVALID_OBJECT_PATH)),
    }
}

/// Text that identifies an object path on the bus.
///
/// A value is made from checked text by [`ObjectPath::try_from`], or from any
/// text by one of the `_unchecked` constructors; [`ObjectPath::is_valid`] tells
/// the two apart in contracts.
#[derive(Debug, Hash, PartialOrd, Ord)]
pub struct ObjectPath {
    text: String,
}

impl Clone for ObjectPath {
    fn clone(&self) -> (r: Self)
        ensures
            r@ == self@,
    {
        ObjectPath { text: self.text.clone() }
    }
}

impl View for ObjectPath {
    type V = Seq<char>;

    closed spec fn view(&self) -> Seq<char> {
        self.text@
    }
}

impl PartialEq for ObjectPath {
    fn eq(&self, other: &Self) -> (r: bool) {
        self.text == other.text
    }
}

impl PartialEqSpecImpl for ObjectPath {
    open spec fn obeys_eq_spec() -> bool {
        true
    }

    open spec fn eq_spec(&self, other: &Self) -> bool {
        self@ == other@
    }
}

impl Eq for ObjectPath {

}

impl ObjectPath {
    /// The name obeys the rules of its kind.
    pub open spec fn is_valid(&self) -> bool {
        is_object_path(encode_utf8(self@))
    }

    /// Reads `value` as an object path.
    pub fn try_from(value: &str) -> (r: Result<Self, Error>)
        ensures
            match r {
                Ok(name) => parse_object_path(value@) == Some(name@),
                Err(e) => parse_object_path(value@) is None && e == object_path_error(value@),
            },
    {
        match validate(value) {
            Ok(()) => Ok(ObjectPath { text: value.to_owned() }),
            Err(e) => Err(e),
        }
    }

    /// Reads the owned text `value` as an object path, without copying it.
    pub fn try_from_string(value: String) -> (r: Result<Self, Error>)
        ensures
            match r {
                Ok(name) => parse_object_path(value@) == Some(name@),
                Err(e) => parse_object_path(value@) is None && e == object_path_error(value@),
            },
    {
        match validate(value.as_str()) {
            Ok(()) => Ok(ObjectPath { text: value }),
            Err(e) => Err(e),
        }
    }

    /// Same as [`ObjectPath::try_from`], for text that lives as long as the program.
    pub fn from_static_str(name: &'static str) -> (r: Result<Self, Error>)
        ensures
            match r {
                Ok(n) => parse_object_path(name@) == Some(n@),
                Err(e) => parse_object_path(name@) is None && e == object_path_error(name@),
            },
    {
        Self::try_from(name)
    }

    /// Takes `name` as an object path without checking it. Prefer
    /// [`ObjectPath::try_from`].
    pub fn from_str_unchecked(name: &str) -> (r: Self)
        ensures
            r@ == name@,
    {
        ObjectPath { text: name.to_owned() }
    }

    /// Same as [`ObjectPath::from_str_unchecked`], for text that lives as long
    /// as the program.
    pub fn from_static_str_unchecked(name: &'static str) -> (r: Self)
        ensures
            r@ == name@,
    {
        ObjectPath { text: name.to_owned() }
    }

    /// Same as [`ObjectPath::from_str_unchecked`], for owned text.
    pub fn from_string_unchecked(name: String) -> (r: Self)
        ensures
            r@ == name@,
    {
        ObjectPath { text: name }
    }

    /// The name as text.
    pub fn as_str(&self) -> (r: &str)
        ensures
            r@ == self@,
    {
        self.text.as_str()
    }

    /// The name as owned text.
    pub fn to_string(&self) -> (r: String)
        ensures
            r@ == self@,
    {
        self.text.clone()
    }

    /// A copy of the name.
    pub fn as_ref(&self) -> (r: ObjectPath)
        ensures
            r@ == self@,
    {
        ObjectPath { text: self.text.clone() }
    }

    /// A copy of the name that borrows nothing.
    pub fn to_owned(&self) -> (r: ObjectPath)
        ensures
            r@ == self@,
    {
        ObjectPath { text: self.text.clone() }
    }

    /// The name itself, borrowing nothing.
    pub fn into_owned(self) -> (r: ObjectPath)
        ensures
            r@ == self@,
    {
        self
    }

    /// Tells whether the name is spelled `other`.
    pub fn eq_str(&self, other: &str) -> (r: bool)
        ensures
            r == (self@ == other@),
    {
        str_eq(self.text.as_str(), other)
    }
}

/// Owned sibling of [`ObjectPath`].
#[derive(Debug, Hash, PartialOrd, Ord)]
pub struct OwnedObjectPath(ObjectPath);

impl Clone for OwnedObjectPath {
    fn clone(&self) -> (r: Self)
        ensures
            r@ == self@,
    {
        OwnedObjectPath(self.0.clone())
    }
}

impl View for OwnedObjectPath {
    type V = Seq<char>;

    closed spec fn view(&self) -> Seq<char> {
        self.0@
    }
}

impl PartialEq for OwnedObjectPath {
    fn eq(&self, other: &Self) -> (r: bool) {
        self.0 == other.0
    }
}

impl PartialEqSpecImpl for OwnedObjectPath {
    open spec fn obeys_eq_spec() -> bool {
        true
    }

    open spec fn eq_spec(&self, other: &Self) -> bool {
        self@ == other@
    }
}

impl Eq for OwnedObjectPath {

}

impl From<ObjectPath> for OwnedObjectPath {
    fn from(name: ObjectPath) -> (r: OwnedObjectPath)
        ensures
            r@ == name@,
    {
        OwnedObjectPath(name)
    }
}

impl FromSpecImpl<ObjectPath> for OwnedObjectPath {
    open spec fn obeys_from_spec() -> bool {
        true
    }

    closed spec fn from_spec(name: ObjectPath) -> OwnedObjectPath {
        OwnedObjectPath(name)
    }
}

impl From<OwnedObjectPath> for ObjectPath {
    fn from(name: OwnedObjectPath) -> (r: ObjectPath)
        ensures
            r@ == name@,
    {
        name.0
    }
}

impl FromSpecImpl<OwnedObjectPath> for ObjectPath {
    open spec fn obeys_from_spec() -> bool {
        true
    }

    closed spec fn from_spec(name: OwnedObjectPath) -> ObjectPath {
        name.0
    }
}

impl OwnedObjectPath {
    /// The name obeys the rules of its kind.
    pub open spec fn is_valid(&self) -> bool {
        is_object_path(encode_utf8(self@))
    }

    /// Reads `value` as an object path.
    pub fn try_from(value: &str) -> (r: Result<Self, Error>)
        ensures
            match r {
                Ok(name) => parse_object_path(value@) == Some(name@),
                Err(e) => parse_object_path(value@) is None && e == object_path_error(value@),
            },
    {
        match ObjectPath::try_from(value) {
            Ok(name) => Ok(OwnedObjectPath(name)),
            Err(e) => Err(e),
        }
    }

    /// Reads the owned text `value` as an object path, without copying it.
    pub fn try_from_string(value: String) -> (r: Result<Self, Error>)
        ensures
            match r {
                Ok(name) => parse_object_path(value@) == Some(name@),
                Err(e) => parse_object_path(value@) is None && e == object_path_error(value@),
            },
    {
        match ObjectPath::try_from_string(value) {
            Ok(name) => Ok(OwnedObjectPath(name)),
            Err(e) => Err(e),
        }
    }

    /// Gives up the wrapper and returns the name inside.
    pub fn into_inner(self) -> (r: ObjectPath)
        ensures
            r@ == self@,
    {
        self.0
    }

    /// The name inside.
    pub fn inner(&self) -> (r: &ObjectPath)
        ensures
            r@ == self@,
    {
        &self.0
    }

    /// A copy of the name inside.
    pub fn as_ref(&self) -> (r: ObjectPath)
        ensures
            r@ == self@,
    {
        self.0.as_ref()
    }

    /// The name as text.
    pub fn as_str(&self) -> (r: &str)
        ensures
            r@ == self@,
    {
        self.0.as_str()
    }

    /// The name as owned text.
    pub fn to_string(&self) -> (r: String)
        ensures
            r@ == self@,
    {
        self.0.to_string()
    }

    /// Tells whether the name is spelled `other`.
    pub fn eq_str(&self, other: &str) -> (r: bool)
        ensures
            r == (self@ == other@),
    {
        self.0.eq_str(other)
    }
}

/// On the wire an object path travels as a value of its own type.
impl Type for ObjectPath {
    open spec fn spec_signature() -> SignatureView {
        SignatureView::ObjectPath
    }

    fn signature() -> (r: Signature) {
        Signature::ObjectPath
    }
}

impl Basic for ObjectPath {
    const SIGNATURE_CHAR: char = 'o';

    const SIGNATURE_STR: &'static str = "o";

    proof fn lemma_signature_spelled() {
        reveal_strlit("o");
        assert(Self::SIGNATURE_STR@ =~= seq![Self::SIGNATURE_CHAR]);
        assert(Self::spec_signature().text() =~= seq![Self::SIGNATURE_CHAR as u8]);
    }
}

impl Type for OwnedObjectPath {
    open spec fn spec_signature() -> SignatureView {
        SignatureView::ObjectPath
    }

    fn signature() -> (r: Signature) {
        Signature::ObjectPath
    }
}

impl Basic for OwnedObjectPath {
    const SIGNATURE_CHAR: char = 'o';

    const SIGNATURE_STR: &'static str = "o";

    proof fn lemma_signature_spelled() {
        reveal_strlit("o");
        assert(Self::SIGNATURE_STR@ =~= seq![Self::SIGNATURE_CHAR]);
        assert(Self::spec_signature().text() =~= seq![Self::SIGNATURE_CHAR as u8]);
    }
}

/// A valid name, written out as text and read again, is the same name.
pub proof fn lemma_valid_name_reads_back(name: ObjectPath)
    requires
        name.is_valid(),
    ensures
        parse_object_path(name@) == Some(name@),
{
}

/// Text that breaks the rules of the kind is never read as a name, and text
/// that is read is read as itself.
pub proof fn lemma_reading_is_exact(text: Seq<char>)
    ensures
        !is_object_path(encode_utf8(text)) ==> parse_object_path(text) is None,
        parse_object_path(text) matches Some(name) ==> name == text && is_object_path(encode_utf8(text)),
{
}

} // verus!
