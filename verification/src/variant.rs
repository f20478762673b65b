//! A value paired with its signature, kept as the bytes it has on the wire.
//!
//! A variant remembers the byte order that its bytes are in. The functions
//! that take no order use that of the machine; those that end in `_in` take
//! the order from the caller, as a reader of messages does, who is told the
//! order by the first byte of each message.

use vstd::prelude::*;
use vstd::slice::slice_subrange;
use vstd::slice::slice_to_vec;
use vstd::string::StringSliceAdditionalSpecFns;
use vstd::utf8::{decode_utf8, encode_utf8, encode_utf8_decode_utf8, encode_utf8_valid_utf8, valid_utf8};
use byteorder::ByteOrder;
use crate::text::{append_bytes, from_utf8, str_eq};
use crate::wire::de::{decode, parse_single};
use crate::wire::dbus::{decoded, parse_complete};
use crate::wire::endian::{
    lemma_u32_prefix, lemma_u32_roundtrip, u32_bytes, u32_from_bytes, u32_to_bytes, u32_value,
    Endian,
};
use crate::wire::error::{Error, Fault};
use crate::wire::grammar::MAX_SIGNATURE_LEN;

verus! {

/// Why a [`Variant`] could not be made or read.
#[derive(Clone, Copy, Debug, PartialEq, Eq, Structural)]
pub enum VariantError {
    /// The value was asked for as a type that its signature does not name.
    IncorrectType,
    /// The bytes of a string are not well-formed UTF-8.
    InvalidUtf8,
    /// The data ends before the value does.
    InsufficientData,
    /// The signature names a type that a variant cannot hold.
    UnsupportedType,
    /// The text is no signature: it names no single complete type, or it
    /// is longer than 255 bytes.
    InvalidSignature,
    /// The bytes are no value of the type: a string does not end in a zero
    /// byte, or a truth value is neither 0 nor 1.
    IncorrectValue,
}

impl VariantError {
    /// The characters of the text that describes the error.
    pub open spec fn text(self) -> Seq<char> {
        match self {
            VariantError::IncorrectType => "incorrect type"@,
            VariantError::InvalidUtf8 => "invalid UTF-8"@,
            VariantError::InsufficientData => "insufficient data"@,
            VariantError::UnsupportedType => "unsupported type"@,
            VariantError::InvalidSignature => "invalid signature"@,
            VariantError::IncorrectValue => "incorrect value"@,
        }
    }

    /// The error as text.
    pub fn to_string(&self) -> (s: String)
        ensures
            s@ == self.text(),
    {
        match self {
            VariantError::IncorrectType => "incorrect type".to_owned(),
            VariantError::InvalidUtf8 => "invalid UTF-8".to_owned(),
            VariantError::InsufficientData => "insufficient data".to_owned(),
            VariantError::UnsupportedType => "unsupported type".to_owned(),
            VariantError::InvalidSignature => "invalid signature".to_owned(),
            VariantError::IncorrectValue => "incorrect value".to_owned(),
        }
    }
}

/// The signature of an unsigned 32-bit number.
pub open spec fn sig_u32() -> Seq<char> {
    "u"@
}

/// The signature of a string.
pub open spec fn sig_string() -> Seq<char> {
    "s"@
}

/// The signature of an object path.
pub open spec fn sig_object_path() -> Seq<char> {
    "o"@
}

/// The signature of a signature.
pub open spec fn sig_signature() -> Seq<char> {
    "g"@
}

/// The signature of the index of a file descriptor.
pub open spec fn sig_fd() -> Seq<char> {
    "h"@
}

/// The signature is that of a string or of an object path, which share one
/// encoding.
pub open spec fn is_stringlike(signature: Seq<char>) -> bool {
    signature == sig_string() || signature == sig_object_path()
}

/// The four signatures are four different texts.
pub proof fn lemma_signatures_differ()
    ensures
        sig_u32() != sig_string(),
        sig_u32() != sig_object_path(),
        sig_u32() != sig_signature(),
        sig_string() != sig_object_path(),
        sig_string() != sig_signature(),
        sig_object_path() != sig_signature(),
{
    reveal_strlit("u");
    reveal_strlit("s");
    reveal_strlit("o");
    reveal_strlit("g");
    assert("u"@[0] == 'u');
    assert("s"@[0] == 's');
    assert("o"@[0] == 'o');
    assert("g"@[0] == 'g');
}

/// The longest text that a string on the wire can hold: its length is
/// written in four bytes.
pub const MAX_STRING_LEN: usize = 0xffff_ffff;

/// A string on the wire, with numbers in the given order: the length of the
/// text as four bytes, the text, and a terminating zero byte that the length
/// does not count.
pub open spec fn string_frame(order: Endian, text: Seq<u8>) -> Seq<u8> {
    u32_bytes(order, text.len() as u32) + text + seq![0u8]
}

/// A signature on the wire: the length of the text as one byte, the text,
/// and a terminating zero byte that the length does not count.
pub open spec fn signature_frame(text: Seq<u8>) -> Seq<u8> {
    seq![text.len() as u8] + text + seq![0u8]
}

/// `bytes` can be the encoding of a value of the given signature: four
/// bytes for a number; a length, a text and a zero byte for a string, an
/// object path and a signature.
pub open spec fn is_framed(signature: Seq<char>, bytes: Seq<u8>) -> bool {
    if signature == sig_u32() {
        bytes.len() == 4
    } else if is_stringlike(signature) {
        bytes.len() >= 5 && bytes[bytes.len() - 1] == 0
    } else if signature == sig_signature() {
        bytes.len() >= 2 && bytes[bytes.len() - 1] == 0
    } else {
        true
    }
}

/// The number at the start of `data`: its four bytes.
pub open spec fn number_part(data: Seq<u8>) -> Result<Seq<u8>, VariantError> {
    if data.len() < 4 {
        Err(VariantError::InsufficientData)
    } else {
        Ok(data.take(4))
    }
}

/// The string at the start of `data`: the four bytes of its length, which
/// is read in the given order, as many bytes of text, and the zero byte
/// behind them.
pub open spec fn string_part(order: Endian, data: Seq<u8>) -> Result<Seq<u8>, VariantError> {
    if data.len() < 4 || data.len() < u32_value(order, data) + 5 {
        Err(VariantError::InsufficientData)
    } else if data[u32_value(order, data) + 4] != 0 {
        Err(VariantError::IncorrectValue)
    } else {
        Ok(data.take(u32_value(order, data) + 5))
    }
}

/// The signature at the start of `data`: the byte of its length, as many
/// bytes of text, and the zero byte behind them.
pub open spec fn signature_part(data: Seq<u8>) -> Result<Seq<u8>, VariantError> {
    if data.len() < 1 || data.len() < data[0] + 2 {
        Err(VariantError::InsufficientData)
    } else if data[data[0] + 1] != 0 {
        Err(VariantError::IncorrectValue)
    } else {
        Ok(data.take(data[0] + 2))
    }
}

/// The error of a variant for the reason that a reader of the wire format
/// gives.
pub open spec fn fault_error(f: Fault) -> VariantError {
    match f {
        Fault::InsufficientData => VariantError::InsufficientData,
        Fault::InvalidUtf8 => VariantError::InvalidUtf8,
        Fault::InvalidSignature => VariantError::InvalidSignature,
        Fault::UnsupportedType => VariantError::UnsupportedType,
        Fault::PaddingNot0 | Fault::IncorrectValue | Fault::ExcessData => VariantError::IncorrectValue,
    }
}

/// The value of the type with the signature `signature` at the start of
/// `data`, as the wire format lays it out from position 0: the bytes that a
/// reader of the wire format takes for it. Text that names no single
/// complete type is no signature.
pub open spec fn value_part(order: Endian, signature: Seq<u8>, data: Seq<u8>) -> Result<
    Seq<u8>,
    VariantError,
> {
    match parse_complete(signature) {
        None => Err(VariantError::InvalidSignature),
        Some(sig) => match decoded(order, false, 0, sig, data) {
            Ok((_, n)) => Ok(data.take(n as int)),
            Err(f) => Err(fault_error(f)),
        },
    }
}

/// The part of `data` that encodes one value of the given signature, where
/// numbers are read in the given order; or the reason why there is none.
pub open spec fn leading_value(order: Endian, signature: Seq<char>, data: Seq<u8>) -> Result<
    Seq<u8>,
    VariantError,
> {
    if signature == sig_u32() {
        number_part(data)
    } else if is_stringlike(signature) {
        string_part(order, data)
    } else if signature == sig_signature() {
        signature_part(data)
    } else {
        value_part(order, encode_utf8(signature), data)
    }
}

/// The bytes of the text inside an encoded string, object path or signature:
/// what stands between the length and the terminator. `None` for every
/// other value.
pub open spec fn framed_text(signature: Seq<char>, bytes: Seq<u8>) -> Option<Seq<u8>> {
    if is_stringlike(signature) {
        Some(bytes.subrange(4, bytes.len() - 1))
    } else if signature == sig_signature() {
        Some(bytes.subrange(1, bytes.len() - 1))
    } else {
        None
    }
}

/// What a variant is: the text of its signature, the bytes of its value,
/// and the byte order that the bytes are in.
pub struct VariantView {
    pub signature: Seq<char>,
    pub bytes: Seq<u8>,
    pub order: Endian,
}

/// A value together with the signature that says how to read it.
pub struct Variant {
    signature: String,
    value: Vec<u8>,
    order: Endian,
}

impl View for Variant {
    type V = VariantView;

    closed spec fn view(&self) -> VariantView {
        VariantView { signature: self.signature@, bytes: self.value@, order: self.order }
    }
}

/// The result of making a variant is what `expected` says: the kept bytes
/// under the given signature and in the given order, or the same error.
pub open spec fn made_as(
    r: Result<Variant, VariantError>,
    order: Endian,
    signature: Seq<char>,
    expected: Result<Seq<u8>, VariantError>,
) -> bool {
    match (r, expected) {
        (Ok(v), Ok(bytes)) => v@.signature == signature && v@.bytes == bytes && v@.order == order,
        (Err(e), Err(x)) => e == x,
        _ => false,
    }
}

/// Calls `byteorder::NativeEndian::read_u32`, which reads the first four
/// bytes of `buf` as a number in the byte order of the machine, one of the
/// two orders. It panics on fewer than four bytes; `requires` leaves them out.
#[verifier::external_body]
fn read_u32_native(buf: &[u8]) -> (r: u32)
    requires
        buf.len() >= 4,
    ensures
        r == u32_value(Endian::Little, buf@) || r == u32_value(Endian::Big, buf@),
{
    byteorder::NativeEndian::read_u32(buf)
}

/// The byte order of the machine: the order in which the bytes 1, 0, 0, 0
/// are read as the number 1 is the little-endian one.
pub fn native_order() -> (r: Endian) {
    let one: [u8; 4] = [1, 0, 0, 0];
    if read_u32_native(one.as_slice()) == 1 {
        Endian::Little
    } else {
        Endian::Big
    }
}

/// The result of copying a value out of data is what `expected` says: the
/// kept bytes, or the same error.
pub open spec fn copied_as(
    r: Result<Vec<u8>, VariantError>,
    expected: Result<Seq<u8>, VariantError>,
) -> bool {
    match (r, expected) {
        (Ok(v), Ok(bytes)) => v@ == bytes,
        (Err(e), Err(x)) => e == x,
        _ => false,
    }
}

/// Copies the number at the start of `data`.
pub fn copy_u32(data: &[u8]) -> (r: Result<Vec<u8>, VariantError>)
    ensures
        copied_as(r, number_part(data@)),
{
    if data.len() < 4 {
        return Err(VariantError::InsufficientData);
    }
    Ok(slice_to_vec(slice_subrange(data, 0, 4)))
}

/// Copies the string at the start of `data`, whose length is read in the
/// given order.
pub fn copy_string(order: Endian, data: &[u8]) -> (r: Result<Vec<u8>, VariantError>)
    ensures
        copied_as(r, string_part(order, data@)),
{
    if data.len() < 4 {
        return Err(VariantError::InsufficientData);
    }
    let len = u32_from_bytes(order, data);
    let last_index: u64 = len as u64 + 5;
    if (data.len() as u64) < last_index {
        return Err(VariantError::InsufficientData);
    }
    let last_index = last_index as usize;
    if data[last_index - 1] != 0 {
        return Err(VariantError::IncorrectValue);
    }
    Ok(slice_to_vec(slice_subrange(data, 0, last_index)))
}

/// Copies the signature at the start of `data`.
pub fn copy_signature(data: &[u8]) -> (r: Result<Vec<u8>, VariantError>)
    ensures
        copied_as(r, signature_part(data@)),
{
    if data.len() < 1 {
        return Err(VariantError::InsufficientData);
    }
    let last_index: usize = data[0] as usize + 2;
    if data.len() < last_index {
        return Err(VariantError::InsufficientData);
    }
    if data[last_index - 1] != 0 {
        return Err(VariantError::IncorrectValue);
    }
    Ok(slice_to_vec(slice_subrange(data, 0, last_index)))
}

/// The error of a variant for an error of a reader of the wire format.
fn reader_error(e: &Error) -> (r: VariantError)
    ensures
        e.fault() matches Some(f) ==> r == fault_error(f),
{
    match e {
        Error::InsufficientData => VariantError::InsufficientData,
        Error::InvalidUtf8 => VariantError::InvalidUtf8,
        Error::InvalidSignature(_) => VariantError::InvalidSignature,
        Error::UnsupportedType(_) => VariantError::UnsupportedType,
        _ => VariantError::IncorrectValue,
    }
}

/// Copies the value of the type with the signature `signature` at the
/// start of `data`, as a reader of the wire format finds it.
pub fn copy_value(order: Endian, signature: &[u8], data: &[u8]) -> (r: Result<Vec<u8>, VariantError>)
    ensures
        copied_as(r, value_part(order, signature@, data@)),
{
    let sig = match parse_single(signature) {
        Some(sig) => sig,
        None => {
            return Err(VariantError::InvalidSignature);
        },
    };
    assert(data@.subrange(0, data.len() as int) =~= data@);
    match decode(order, false, 0, &sig, data, 0, data.len()) {
        Ok((_, end)) => {
            assert(data@.subrange(0, end as int) =~= data@.take(end as int));
            Ok(slice_to_vec(slice_subrange(data, 0, end)))
        },
        Err(e) => Err(reader_error(&e)),
    }
}

/// The bytes of a number in the given order.
pub fn encode_u32(order: Endian, value: u32) -> (bytes: Vec<u8>)
    ensures
        bytes@ == u32_bytes(order, value),
        bytes@.len() == 4,
{
    proof {
        lemma_u32_roundtrip(order, value);
    }
    let four = u32_to_bytes(order, value);
    slice_to_vec(four.as_slice())
}

/// The bytes of a string whose length is written in the given order.
pub fn encode_string(order: Endian, value: &str) -> (bytes: Vec<u8>)
    requires
        value.spec_bytes().len() <= MAX_STRING_LEN,
    ensures
        bytes@ == string_frame(order, value.spec_bytes()),
        bytes@.len() == value.spec_bytes().len() + 5,
{
    proof {
        lemma_u32_roundtrip(order, value.spec_bytes().len() as u32);
    }
    let text = value.as_bytes();
    let prefix = u32_to_bytes(order, text.len() as u32);
    let mut bytes = Vec::new();
    append_bytes(&mut bytes, prefix.as_slice());
    append_bytes(&mut bytes, text);
    bytes.push(0u8);
    assert(bytes@ =~= string_frame(order, value.spec_bytes()));
    bytes
}

/// The bytes of a signature.
pub fn encode_signature(value: &str) -> (bytes: Vec<u8>)
    requires
        value.spec_bytes().len() <= MAX_SIGNATURE_LEN,
    ensures
        bytes@ == signature_frame(value.spec_bytes()),
        bytes@.len() == value.spec_bytes().len() + 2,
{
    let text = value.as_bytes();
    let mut bytes = Vec::new();
    bytes.push(text.len() as u8);
    append_bytes(&mut bytes, text);
    bytes.push(0u8);
    assert(bytes@ =~= signature_frame(value.spec_bytes()));
    bytes
}

impl Variant {
    #[verifier::type_invariant]
    closed spec fn framed(&self) -> bool {
        is_framed(self.signature@, self.value@)
    }

    /// Takes from the start of `data` the bytes of one value of the given
    /// signature, where the numbers in `data` are in the given order: see
    /// [`leading_value`]. Every type that the wire format knows can be the
    /// type of the value.
    pub fn from_data_in(order: Endian, data: &[u8], signature: &str) -> (r: Result<
        Self,
        VariantError,
    >)
        ensures
            made_as(r, order, signature@, leading_value(order, signature@, data@)),
            r matches Ok(v) ==> is_framed(v@.signature, v@.bytes),
    {
        proof {
            lemma_signatures_differ();
        }
        let copied = if str_eq(signature, "u") {
            copy_u32(data)
        } else if str_eq(signature, "s") || str_eq(signature, "o") {
            copy_string(order, data)
        } else if str_eq(signature, "g") {
            copy_signature(data)
        } else {
            copy_value(order, signature.as_bytes(), data)
        };
        match copied {
            Ok(value) => Ok(Self { value, signature: signature.to_owned(), order }),
            Err(e) => Err(e),
        }
    }

    /// Takes from the start of `data` the bytes of one value of the given
    /// signature, with the numbers in the byte order of the machine,
    /// whichever of the two that is: the variant tells which.
    pub fn from_data(data: &[u8], signature: &str) -> (r: Result<Self, VariantError>)
        ensures
            match r {
                Ok(v) => made_as(
                    r,
                    v@.order,
                    signature@,
                    leading_value(v@.order, signature@, data@),
                ),
                Err(e) => leading_value(Endian::Little, signature@, data@) == Err::<
                    Seq<u8>,
                    VariantError,
                >(e) || leading_value(Endian::Big, signature@, data@) == Err::<
                    Seq<u8>,
                    VariantError,
                >(e),
            },
            r matches Ok(v) ==> is_framed(v@.signature, v@.bytes),
    {
        let order = native_order();
        let r = Self::from_data_in(order, data, signature);
        proof {
            match order {
                Endian::Little => {},
                Endian::Big => {},
            }
        }
        r
    }

    /// A variant that holds `string` as a string, with its length in the
    /// given order. The text is one that the four bytes of a length can
    /// count.
    pub fn from_string_in(order: Endian, string: &str) -> (r: Self)
        requires
            string.spec_bytes().len() <= MAX_STRING_LEN,
        ensures
            r@.signature == sig_string(),
            r@.order == order,
            r@.bytes == string_frame(order, string.spec_bytes()),
            framed_text(r@.signature, r@.bytes) == Some(string.spec_bytes()),
    {
        proof {
            lemma_signatures_differ();
            lemma_framed_text(order, sig_string(), string.spec_bytes());
        }
        Self { value: encode_string(order, string), signature: "s".to_owned(), order }
    }

    /// A variant that holds `string` as a string, in the byte order of the
    /// machine.
    pub fn from_string(string: &str) -> (r: Self)
        requires
            string.spec_bytes().len() <= MAX_STRING_LEN,
        ensures
            r@.signature == sig_string(),
            r@.bytes == string_frame(r@.order, string.spec_bytes()),
            framed_text(r@.signature, r@.bytes) == Some(string.spec_bytes()),
    {
        Self::from_string_in(native_order(), string)
    }

    /// A variant that holds `path` as an object path, with its length in
    /// the given order.
    pub fn from_object_path_in(order: Endian, path: &str) -> (r: Self)
        requires
            path.spec_bytes().len() <= MAX_STRING_LEN,
        ensures
            r@.signature == sig_object_path(),
            r@.order == order,
            r@.bytes == string_frame(order, path.spec_bytes()),
            framed_text(r@.signature, r@.bytes) == Some(path.spec_bytes()),
    {
        proof {
            lemma_signatures_differ();
            lemma_framed_text(order, sig_object_path(), path.spec_bytes());
        }
        Self { value: encode_string(order, path), signature: "o".to_owned(), order }
    }

    /// A variant that holds `path` as an object path, in the byte order of
    /// the machine.
    pub fn from_object_path(path: &str) -> (r: Self)
        requires
            path.spec_bytes().len() <= MAX_STRING_LEN,
        ensures
            r@.signature == sig_object_path(),
            r@.bytes == string_frame(r@.order, path.spec_bytes()),
            framed_text(r@.signature, r@.bytes) == Some(path.spec_bytes()),
    {
        Self::from_object_path_in(native_order(), path)
    }

    /// A variant that holds `signature_string` as a signature. Text of more
    /// than 255 bytes is no signature, and is refused.
    pub fn from_signature_string(signature_string: &str) -> (r: Result<Self, VariantError>)
        ensures
            match r {
                Ok(v) => signature_string.spec_bytes().len() <= MAX_SIGNATURE_LEN && v@.signature
                    == sig_signature() && v@.bytes == signature_frame(
                    signature_string.spec_bytes(),
                ) && framed_text(v@.signature, v@.bytes) == Some(signature_string.spec_bytes()),
                Err(e) => signature_string.spec_bytes().len() > MAX_SIGNATURE_LEN && e
                    == VariantError::InvalidSignature,
            },
    {
        proof {
            lemma_signatures_differ();
        }
        if signature_string.as_bytes().len() > MAX_SIGNATURE_LEN {
            return Err(VariantError::InvalidSignature);
        }
        let value = encode_signature(signature_string);
        proof {
            let text = signature_string.spec_bytes();
            assert(value@.subrange(1, value@.len() - 1) =~= text);
        }
        Ok(Self { value, signature: "g".to_owned(), order: native_order() })
    }

    /// A variant that holds `value` as an unsigned 32-bit number, in the
    /// given byte order.
    pub fn from_u32_in(order: Endian, value: u32) -> (r: Self)
        ensures
            r@.signature == sig_u32(),
            r@.order == order,
            r@.bytes == u32_bytes(order, value),
            u32_value(order, r@.bytes) == value,
    {
        proof {
            lemma_signatures_differ();
            lemma_u32_roundtrip(order, value);
        }
        Self { value: encode_u32(order, value), signature: "u".to_owned(), order }
    }

    /// A variant that holds `value` as an unsigned 32-bit number, in the
    /// byte order of the machine. What goes in comes out of
    /// [`Variant::get_u32`].
    pub fn from_u32(value: u32) -> (r: Self)
        ensures
            r@.signature == sig_u32(),
            r@.bytes == u32_bytes(r@.order, value),
            u32_value(r@.order, r@.bytes) == value,
    {
        Self::from_u32_in(native_order(), value)
    }

    /// The byte order that the bytes of the value are in.
    pub fn order(&self) -> (r: Endian)
        ensures
            r == self@.order,
    {
        self.order
    }

    /// The signature of the value.
    pub fn get_signature(&self) -> (r: String)
        ensures
            r@ == self@.signature,
            is_framed(self@.signature, self@.bytes),
    {
        proof {
            use_type_invariant(self);
        }
        self.signature.clone()
    }

    /// The bytes of the value as they stand on the wire.
    pub fn get_bytes(&self) -> (r: Vec<u8>)
        ensures
            r@ == self@.bytes,
            is_framed(self@.signature, self@.bytes),
    {
        proof {
            use_type_invariant(self);
        }
        slice_to_vec(self.value.as_slice())
    }

    /// The text of a string, an object path or a signature: the bytes
    /// between the length and the zero byte at the end, read as UTF-8.
    pub fn get_string(&self) -> (r: Result<String, VariantError>)
        ensures
            match framed_text(self@.signature, self@.bytes) {
                None => r == Err::<String, VariantError>(VariantError::IncorrectType),
                Some(text) => if valid_utf8(text) {
                    r matches Ok(s) && s@ == decode_utf8(text)
                } else {
                    r == Err::<String, VariantError>(VariantError::InvalidUtf8)
                },
            },
    {
        proof {
            use_type_invariant(self);
            lemma_signatures_differ();
        }
        let signature = self.signature.as_str();
        let i: usize = if str_eq(signature, "s") || str_eq(signature, "o") {
            4
        } else if str_eq(signature, "g") {
            1
        } else {
            return Err(VariantError::IncorrectType);
        };
        let text = slice_subrange(self.value.as_slice(), i, self.value.len() - 1);
        match from_utf8(text) {
            Ok(s) => Ok(s.to_owned()),
            Err(_) => Err(VariantError::InvalidUtf8),
        }
    }

    /// The number that a variant of signature `u` holds, read in the byte
    /// order of the variant.
    pub fn get_u32(&self) -> (r: Result<u32, VariantError>)
        ensures
            match r {
                Ok(v) => self@.signature == sig_u32() && v == u32_value(self@.order, self@.bytes),
                Err(e) => self@.signature != sig_u32() && e == VariantError::IncorrectType,
            },
    {
        proof {
            use_type_invariant(self);
        }
        if !str_eq(self.signature.as_str(), "u") || self.value.len() < 4 {
            return Err(VariantError::IncorrectType);
        }
        Ok(u32_from_bytes(self.order, self.value.as_slice()))
    }

    /// The index of the file descriptor that a variant of signature `h`
    /// stands for, among the `attached` descriptors that came with its
    /// message. An index that names none of them is no value: where the peer
    /// did not agree to pass descriptors, none are attached, and every index
    /// is refused.
    pub fn get_fd_index(&self, attached: usize) -> (r: Result<u32, VariantError>)
        ensures
            r == (if self@.signature != sig_fd() || self@.bytes.len() != 4 {
                Err::<u32, VariantError>(VariantError::IncorrectType)
            } else if u32_value(self@.order, self@.bytes) >= attached {
                Err::<u32, VariantError>(VariantError::IncorrectValue)
            } else {
                Ok::<u32, VariantError>(u32_value(self@.order, self@.bytes))
            }),
    {
        if !str_eq(self.signature.as_str(), "h") || self.value.len() != 4 {
            return Err(VariantError::IncorrectType);
        }
        let index = u32_from_bytes(self.order, self.value.as_slice());
        if index as u64 >= attached as u64 {
            return Err(VariantError::IncorrectValue);
        }
        Ok(index)
    }

    /// The number of bytes that the value takes on the wire.
    pub fn len(&self) -> (r: usize)
        ensures
            r == self@.bytes.len(),
    {
        self.value.len()
    }
}

/// The text of a string on the wire stands between its length and its zero
/// byte.
pub proof fn lemma_framed_text(order: Endian, signature: Seq<char>, text: Seq<u8>)
    requires
        is_stringlike(signature),
    ensures
        is_framed(signature, string_frame(order, text)),
        framed_text(signature, string_frame(order, text)) == Some(text),
{
    lemma_signatures_differ();
    let frame = string_frame(order, text);
    lemma_u32_roundtrip(order, text.len() as u32);
    assert(frame.subrange(4, frame.len() - 1) =~= text);
}

/// Text that is put into a variant as a string or an object path comes out
/// of it unchanged, whichever byte order the length was written in.
pub proof fn lemma_string_roundtrip(order: Endian, signature: Seq<char>, text: Seq<char>)
    requires
        is_stringlike(signature),
    ensures
        is_framed(signature, string_frame(order, encode_utf8(text))),
        framed_text(signature, string_frame(order, encode_utf8(text))) == Some(
            encode_utf8(text),
        ),
        valid_utf8(encode_utf8(text)),
        decode_utf8(encode_utf8(text)) == text,
{
    encode_utf8_valid_utf8(text);
    encode_utf8_decode_utf8(text);
    lemma_framed_text(order, signature, encode_utf8(text));
}

/// Text that is put into a variant as a signature comes out of it unchanged.
pub proof fn lemma_signature_roundtrip(text: Seq<char>)
    ensures
        is_framed(sig_signature(), signature_frame(encode_utf8(text))),
        framed_text(sig_signature(), signature_frame(encode_utf8(text))) == Some(
            encode_utf8(text),
        ),
        valid_utf8(encode_utf8(text)),
        decode_utf8(encode_utf8(text)) == text,
{
    lemma_signatures_differ();
    encode_utf8_valid_utf8(text);
    encode_utf8_decode_utf8(text);
    let bytes = encode_utf8(text);
    let frame = signature_frame(bytes);
    assert(frame.subrange(1, frame.len() - 1) =~= bytes);
}

/// Two numbers have the same bytes in one byte order only if they are the
/// same number.
pub proof fn lemma_numbers_differ(order: Endian, a: u32, b: u32)
    ensures
        u32_bytes(order, a) == u32_bytes(order, b) <==> a == b,
{
    lemma_u32_roundtrip(order, a);
    lemma_u32_roundtrip(order, b);
}

/// The bytes that were made for a number, a string, an object path or a
/// signature are taken back whole from data that starts with them, in the
/// same byte order: what `from_u32_in`, `from_string_in`,
/// `from_object_path_in` and `from_signature_string` make, `from_data_in`
/// reads as itself, whatever follows.
pub proof fn lemma_made_is_read(order: Endian, value: u32, text: Seq<u8>, rest: Seq<u8>)
    ensures
        leading_value(order, sig_u32(), u32_bytes(order, value) + rest) == Ok::<
            Seq<u8>,
            VariantError,
        >(u32_bytes(order, value)),
        text.len() <= MAX_STRING_LEN ==> leading_value(
            order,
            sig_string(),
            string_frame(order, text) + rest,
        ) == Ok::<Seq<u8>, VariantError>(string_frame(order, text)) && leading_value(
            order,
            sig_object_path(),
            string_frame(order, text) + rest,
        ) == Ok::<Seq<u8>, VariantError>(string_frame(order, text)),
        text.len() <= MAX_SIGNATURE_LEN ==> leading_value(
            order,
            sig_signature(),
            signature_frame(text) + rest,
        ) == Ok::<Seq<u8>, VariantError>(signature_frame(text)),
{
    lemma_signatures_differ();
    lemma_u32_roundtrip(order, value);
    let number = u32_bytes(order, value);
    assert((number + rest).take(4) =~= number);
    if text.len() <= MAX_STRING_LEN {
        let frame = string_frame(order, text);
        let data = frame + rest;
        lemma_u32_roundtrip(order, text.len() as u32);
        assert(data =~= u32_bytes(order, text.len() as u32) + (text + seq![0u8] + rest));
        lemma_u32_prefix(order, text.len() as u32, text + seq![0u8] + rest);
        assert(data[text.len() as int + 4] == 0);
        assert(data.take(text.len() as int + 5) =~= frame);
    }
    if text.len() <= MAX_SIGNATURE_LEN {
        let frame = signature_frame(text);
        let data = frame + rest;
        assert(data[0] == text.len());
        assert(data[text.len() as int + 1] == 0);
        assert(data.take(text.len() as int + 2) =~= frame);
    }
}

} // verus!
