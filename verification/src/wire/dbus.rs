//! The classic encoding: what the bytes of a value are, and what value a
//! row of bytes holds.

use vstd::prelude::*;
use vstd::utf8::{decode_utf8, encode_utf8, valid_utf8};
use crate::names::object_path::is_object_path;
use crate::wire::context::{all_zero, padding, zeros};
use crate::wire::endian::{
    u16_bytes, u16_value, u32_bytes, u32_value, u64_bytes, u64_value, Endian,
};
use crate::wire::error::Fault;
use crate::wire::grammar::{parse_one, MAX_SIGNATURE_LEN};
use crate::wire::signature::{texts, Format, SignatureView};
use crate::wire::value::{entry_type, signatures, ValueView};

verus! {

/// The 16 bits that stand for a signed number, in two's complement.
pub open spec fn i16_bits(v: i16) -> u16 {
    if v >= 0 {
        v as u16
    } else {
        (v + 0x1_0000) as u16
    }
}

/// The signed number that 16 bits stand for.
pub open spec fn i16_of_bits(b: u16) -> i16 {
    if b < 0x8000 {
        b as i16
    } else {
        (b - 0x1_0000) as i16
    }
}

/// The 32 bits that stand for a signed number, in two's complement.
pub open spec fn i32_bits(v: i32) -> u32 {
    if v >= 0 {
        v as u32
    } else {
        (v + 0x1_0000_0000) as u32
    }
}

/// The signed number that 32 bits stand for.
pub open spec fn i32_of_bits(b: u32) -> i32 {
    if b < 0x8000_0000 {
        b as i32
    } else {
        (b - 0x1_0000_0000) as i32
    }
}

/// The 64 bits that stand for a signed number, in two's complement.
pub open spec fn i64_bits(v: i64) -> u64 {
    if v >= 0 {
        v as u64
    } else {
        (v + 0x1_0000_0000_0000_0000) as u64
    }
}

/// The signed number that 64 bits stand for.
pub open spec fn i64_of_bits(b: u64) -> i64 {
    if b < 0x8000_0000_0000_0000 {
        b as i64
    } else {
        (b - 0x1_0000_0000_0000_0000) as i64
    }
}

/// `body`, behind the zero bytes that bring `pos` up to the alignment.
pub open spec fn aligned(pos: nat, alignment: nat, body: Seq<u8>) -> Seq<u8> {
    zeros(padding(pos, alignment)) + body
}

/// A string on the wire: its length in four bytes, its text, and a zero
/// byte that the length does not count.
pub open spec fn string_body(endian: Endian, text: Seq<u8>) -> Seq<u8> {
    u32_bytes(endian, text.len() as u32) + text + seq![0u8]
}

/// A signature on the wire: its length in one byte, its text, and a zero
/// byte that the length does not count.
pub open spec fn signature_body(text: Seq<u8>) -> Seq<u8> {
    seq![text.len() as u8] + text + seq![0u8]
}

/// The bytes of the value `v` where they start at position `pos` of a
/// message: the padding that its type asks for at that position, then the
/// value itself.
pub open spec fn encoded(endian: Endian, pos: nat, v: ValueView) -> Seq<u8>
    decreases v,
{
    match v {
        ValueView::U8(b) => seq![b],
        ValueView::Bool(b) => aligned(pos, 4, u32_bytes(endian, if b { 1u32 } else { 0u32 })),
        ValueView::I16(n) => aligned(pos, 2, u16_bytes(endian, i16_bits(n))),
        ValueView::U16(n) => aligned(pos, 2, u16_bytes(endian, n)),
        ValueView::I32(n) => aligned(pos, 4, u32_bytes(endian, i32_bits(n))),
        ValueView::U32(n) => aligned(pos, 4, u32_bytes(endian, n)),
        ValueView::I64(n) => aligned(pos, 8, u64_bytes(endian, i64_bits(n))),
        ValueView::U64(n) => aligned(pos, 8, u64_bytes(endian, n)),
        ValueView::F64(bits) => aligned(pos, 8, u64_bytes(endian, bits)),
        ValueView::Str(s) => aligned(pos, 4, string_body(endian, encode_utf8(s))),
        ValueView::ObjectPath(p) => aligned(pos, 4, string_body(endian, encode_utf8(p))),
        ValueView::Signature(row) => signature_body(texts(row)),
        ValueView::Fd(index) => aligned(pos, 4, u32_bytes(endian, index)),
        ValueView::Value(inner) => {
            let head = signature_body(inner.signature().text());
            head + encoded(endian, pos + head.len(), *inner)
        },
        ValueView::Array(element, items) => {
            let p = padding(pos, 4);
            let q = padding(pos + p + 4, element.alignment(Format::DBus));
            let payload = encoded_row(endian, pos + p + 4 + q, items);
            zeros(p) + u32_bytes(endian, payload.len() as u32) + zeros(q) + payload
        },
        ValueView::Structure(fields) => {
            let p = padding(pos, 8);
            zeros(p) + encoded_row(endian, pos + p, fields)
        },
        ValueView::Dict(_, _, entries) => {
            let p = padding(pos, 4);
            let q = padding(pos + p + 4, 8);
            let payload = encoded_row(endian, pos + p + 4 + q, entries);
            zeros(p) + u32_bytes(endian, payload.len() as u32) + zeros(q) + payload
        },
    }
}

/// The bytes of a row of values, one behind the other, where the first
/// starts at position `pos`.
pub open spec fn encoded_row(endian: Endian, pos: nat, items: Seq<ValueView>) -> Seq<u8>
    decreases items,
{
    if items.len() == 0 {
        seq![]
    } else {
        let first = encoded(endian, pos, items[0]);
        first + encoded_row(endian, pos + first.len(), items.drop_first())
    }
}

/// The padding in front of a value at position `pos`, as a reader sees it
/// in the bytes `b`: its length, if the bytes are there and, for a strict
/// reader, zero.
pub open spec fn padding_read(strict: bool, pos: nat, alignment: nat, b: Seq<u8>) -> Result<
    nat,
    Fault,
> {
    let p = padding(pos, alignment);
    if b.len() < p {
        Err(Fault::InsufficientData)
    } else if strict && !all_zero(b.take(p as int)) {
        Err(Fault::PaddingNot0)
    } else {
        Ok(p)
    }
}

/// The text of a string that stands at the start of `b`, behind its
/// padding: the bytes of the text, and the number of bytes read. The byte
/// behind the text is zero.
pub open spec fn string_read(endian: Endian, strict: bool, pos: nat, b: Seq<u8>) -> Result<
    (Seq<u8>, nat),
    Fault,
> {
    match padding_read(strict, pos, 4, b) {
        Err(f) => Err(f),
        Ok(p) => if b.len() < p + 4 {
            Err(Fault::InsufficientData)
        } else {
            let n = u32_value(endian, b.skip(p as int)) as nat;
            if b.len() < p + 4 + n + 1 {
                Err(Fault::InsufficientData)
            } else if b[p as int + 4 + n as int] != 0 {
                Err(Fault::IncorrectValue)
            } else {
                Ok((b.subrange(p as int + 4, p as int + 4 + n as int), p + 4 + n + 1))
            }
        },
    }
}

/// The text of a signature that stands at the start of `b`: the bytes of
/// the text, and the number of bytes read. The byte behind the text is zero.
pub open spec fn signature_read(b: Seq<u8>) -> Result<(Seq<u8>, nat), Fault> {
    if b.len() < 1 || b.len() < b[0] + 2 {
        Err(Fault::InsufficientData)
    } else if b[b[0] + 1] != 0 {
        Err(Fault::IncorrectValue)
    } else {
        Ok((b.subrange(1, 1 + b[0]), (b[0] + 2) as nat))
    }
}

/// Reads `text` as one complete type, from its first byte to its last.
pub open spec fn parse_complete(text: Seq<u8>) -> Option<SignatureView> {
    match parse_one(text) {
        Some((v, n)) => if n == text.len() && text.len() <= MAX_SIGNATURE_LEN {
            Some(v)
        } else {
            None
        },
        None => None,
    }
}

/// A number of `size` bytes that stands at the start of `b`, behind its
/// padding: the position of its first byte in `b`.
pub open spec fn fixed_read(strict: bool, pos: nat, size: nat, b: Seq<u8>) -> Result<nat, Fault> {
    match padding_read(strict, pos, size, b) {
        Err(f) => Err(f),
        Ok(p) => if b.len() < p + size {
            Err(Fault::InsufficientData)
        } else {
            Ok(p)
        },
    }
}

/// The head of a variant that stands at the start of `b`: the number of
/// bytes that its signature takes, and the signature, which is one complete
/// type.
pub open spec fn variant_head(b: Seq<u8>) -> Result<(nat, SignatureView), Fault> {
    match signature_read(b) {
        Err(f) => Err(f),
        Ok((text, n)) => match parse_complete(text) {
            None => Err(Fault::InvalidSignature),
            Some(inner_sig) => Ok((n, inner_sig)),
        },
    }
}

/// The frame of an array that stands at the start of `b`: where in `b` its
/// elements start, behind the length and the padding of the first element,
/// and how many bytes they take.
pub open spec fn array_frame(
    endian: Endian,
    strict: bool,
    pos: nat,
    alignment: nat,
    b: Seq<u8>,
) -> Result<(nat, nat), Fault> {
    match fixed_read(strict, pos, 4, b) {
        Err(f) => Err(f),
        Ok(p) => {
            let n = u32_value(endian, b.skip(p as int)) as nat;
            let behind = b.skip(p as int + 4);
            match padding_read(strict, pos + p + 4, alignment, behind) {
                Err(f) => Err(f),
                Ok(q) => if behind.len() < q + n {
                    Err(Fault::InsufficientData)
                } else {
                    Ok((p + 4 + q, n))
                },
            }
        },
    }
}

/// The type is that of a number, a truth value or the index of a file
/// descriptor: its values take a fixed number of bytes.
pub open spec fn is_fixed(sig: SignatureView) -> bool {
    sig.is_basic() && !(sig is Str) && !(sig is ObjectPath) && !(sig is Signature)
}

/// The type is that of a string, an object path or a signature.
pub open spec fn is_text(sig: SignatureView) -> bool {
    sig is Str || sig is ObjectPath || sig is Signature
}

/// The value of the fixed-size type `sig` that stands at the start of `b`.
pub open spec fn decoded_fixed(
    endian: Endian,
    strict: bool,
    pos: nat,
    sig: SignatureView,
    b: Seq<u8>,
) -> Result<(ValueView, nat), Fault> {
    match sig {
        SignatureView::U8 => if b.len() < 1 {
            Err(Fault::InsufficientData)
        } else {
            Ok((ValueView::U8(b[0]), 1))
        },
        SignatureView::Bool => match fixed_read(strict, pos, 4, b) {
            Err(f) => Err(f),
            Ok(p) => {
                let n = u32_value(endian, b.skip(p as int));
                if n == 0 {
                    Ok((ValueView::Bool(false), p + 4))
                } else if n == 1 {
                    Ok((ValueView::Bool(true), p + 4))
                } else {
                    Err(Fault::IncorrectValue)
                }
            },
        },
        SignatureView::I16 => match fixed_read(strict, pos, 2, b) {
            Err(f) => Err(f),
            Ok(p) => Ok((ValueView::I16(i16_of_bits(u16_value(endian, b.skip(p as int)))), p + 2)),
        },
        SignatureView::U16 => match fixed_read(strict, pos, 2, b) {
            Err(f) => Err(f),
            Ok(p) => Ok((ValueView::U16(u16_value(endian, b.skip(p as int))), p + 2)),
        },
        SignatureView::I32 => match fixed_read(strict, pos, 4, b) {
            Err(f) => Err(f),
            Ok(p) => Ok((ValueView::I32(i32_of_bits(u32_value(endian, b.skip(p as int)))), p + 4)),
        },
        SignatureView::U32 => match fixed_read(strict, pos, 4, b) {
            Err(f) => Err(f),
            Ok(p) => Ok((ValueView::U32(u32_value(endian, b.skip(p as int))), p + 4)),
        },
        SignatureView::I64 => match fixed_read(strict, pos, 8, b) {
            Err(f) => Err(f),
            Ok(p) => Ok((ValueView::I64(i64_of_bits(u64_value(endian, b.skip(p as int)))), p + 8)),
        },
        SignatureView::U64 => match fixed_read(strict, pos, 8, b) {
            Err(f) => Err(f),
            Ok(p) => Ok((ValueView::U64(u64_value(endian, b.skip(p as int))), p + 8)),
        },
        SignatureView::F64 => match fixed_read(strict, pos, 8, b) {
            Err(f) => Err(f),
            Ok(p) => Ok((ValueView::F64(u64_value(endian, b.skip(p as int))), p + 8)),
        },
        _ => match fixed_read(strict, pos, 4, b) {
            Err(f) => Err(f),
            Ok(p) => Ok((ValueView::Fd(u32_value(endian, b.skip(p as int))), p + 4)),
        },
    }
}

/// The string, object path or signature that stands at the start of `b`.
pub open spec fn decoded_text(
    endian: Endian,
    strict: bool,
    pos: nat,
    sig: SignatureView,
    b: Seq<u8>,
) -> Result<(ValueView, nat), Fault> {
    match sig {
        SignatureView::Str => match string_read(endian, strict, pos, b) {
            Err(f) => Err(f),
            Ok((text, n)) => if valid_utf8(text) {
                Ok((ValueView::Str(decode_utf8(text)), n))
            } else {
                Err(Fault::InvalidUtf8)
            },
        },
        SignatureView::ObjectPath => match string_read(endian, strict, pos, b) {
            Err(f) => Err(f),
            Ok((text, n)) => if !valid_utf8(text) {
                Err(Fault::InvalidUtf8)
            } else if !is_object_path(text) {
                Err(Fault::IncorrectValue)
            } else {
                Ok((ValueView::ObjectPath(decode_utf8(text)), n))
            },
        },
        _ => match signature_read(b) {
            Err(f) => Err(f),
            Ok((text, n)) => match crate::wire::grammar::parse_types(text) {
                Some(row) => Ok((ValueView::Signature(row), n)),
                None => Err(Fault::InvalidSignature),
            },
        },
    }
}

/// The variant that stands at the start of `b`: the signature of the value
/// in it, and the value.
pub open spec fn decoded_variant(
    endian: Endian,
    strict: bool,
    pos: nat,
    sig: SignatureView,
    b: Seq<u8>,
) -> Result<(ValueView, nat), Fault>
    decreases b.len(), sig, 2nat,
{
    match variant_head(b) {
        Err(f) => Err(f),
        Ok((n, inner_sig)) => if !(0 < n <= b.len()) {
            Err(Fault::InsufficientData)
        } else {
            match decoded(endian, strict, pos + n, inner_sig, b.skip(n as int)) {
                Err(f) => Err(f),
                Ok((inner, m)) => Ok((ValueView::Value(Box::new(inner)), n + m)),
            }
        },
    }
}

/// The array of the type `sig` that stands at the start of `b`: the length
/// of its elements in bytes, and the elements.
pub open spec fn decoded_array(
    endian: Endian,
    strict: bool,
    pos: nat,
    sig: SignatureView,
    b: Seq<u8>,
) -> Result<(ValueView, nat), Fault>
    decreases b.len(), sig, 2nat,
{
    match sig {
        SignatureView::Array(element) => match array_frame(
            endian,
            strict,
            pos,
            element.alignment(Format::DBus),
            b,
        ) {
            Err(f) => Err(f),
            Ok((first, n)) => if !(0 < first && first + n <= b.len()) {
                Err(Fault::InsufficientData)
            } else {
                match decoded_items(
                    endian,
                    strict,
                    pos + first,
                    *element,
                    b.subrange(first as int, first as int + n as int),
                ) {
                    Err(f) => Err(f),
                    Ok(items) => Ok((ValueView::Array(*element, items), first + n)),
                }
            },
        },
        _ => Err(Fault::UnsupportedType),
    }
}

/// The dictionary of the type `sig` that stands at the start of `b`: the
/// length of its entries in bytes, and the entries, each of which is laid
/// out as a structure of key and value.
pub open spec fn decoded_dict(
    endian: Endian,
    strict: bool,
    pos: nat,
    sig: SignatureView,
    b: Seq<u8>,
) -> Result<(ValueView, nat), Fault>
    decreases b.len(), sig, 2nat,
{
    match sig {
        SignatureView::Dict(key, value) => match array_frame(endian, strict, pos, 8, b) {
            Err(f) => Err(f),
            Ok((first, n)) => if !(0 < first && first + n <= b.len()) {
                Err(Fault::InsufficientData)
            } else {
                match decoded_items(
                    endian,
                    strict,
                    pos + first,
                    entry_type(*key, *value),
                    b.subrange(first as int, first as int + n as int),
                ) {
                    Err(f) => Err(f),
                    Ok(entries) => Ok((ValueView::Dict(*key, *value, entries), first + n)),
                }
            },
        },
        _ => Err(Fault::UnsupportedType),
    }
}

/// The structure of the type `sig` that stands at the start of `b`: its
/// fields, one behind the other.
pub open spec fn decoded_structure(
    endian: Endian,
    strict: bool,
    pos: nat,
    sig: SignatureView,
    b: Seq<u8>,
) -> Result<(ValueView, nat), Fault>
    decreases b.len(), sig, 2nat,
{
    match sig {
        SignatureView::Structure(fields) => if fields.len() == 0 {
            Err(Fault::UnsupportedType)
        } else {
            match padding_read(strict, pos, 8, b) {
                Err(f) => Err(f),
                Ok(p) => if p > b.len() {
                    Err(Fault::InsufficientData)
                } else {
                    match decoded_fields(endian, strict, pos + p, fields, b.skip(p as int)) {
                        Err(f) => Err(f),
                        Ok((values, n)) => Ok((ValueView::Structure(values), p + n)),
                    }
                },
            }
        },
        _ => Err(Fault::UnsupportedType),
    }
}

/// The value of type `sig` that stands at the start of `b`, where `b`
/// starts at position `pos` of a message: the value, and the number of bytes
/// it takes, padding included. Or the reason why there is none.
pub open spec fn decoded(
    endian: Endian,
    strict: bool,
    pos: nat,
    sig: SignatureView,
    b: Seq<u8>,
) -> Result<(ValueView, nat), Fault>
    decreases b.len(), sig, 3nat,
{
    match sig {
        SignatureView::Variant => decoded_variant(endian, strict, pos, sig, b),
        SignatureView::Array(_) => decoded_array(endian, strict, pos, sig, b),
        SignatureView::Dict(_, _) => decoded_dict(endian, strict, pos, sig, b),
        SignatureView::Structure(_) => decoded_structure(endian, strict, pos, sig, b),
        _ => if is_fixed(sig) {
            decoded_fixed(endian, strict, pos, sig, b)
        } else if is_text(sig) {
            decoded_text(endian, strict, pos, sig, b)
        } else {
            Err(Fault::UnsupportedType)
        },
    }
}

/// The elements of type `element` that fill all of `window`, which starts
/// at position `pos` of a message.
pub open spec fn decoded_items(
    endian: Endian,
    strict: bool,
    pos: nat,
    element: SignatureView,
    window: Seq<u8>,
) -> Result<Seq<ValueView>, Fault>
    decreases window.len(), element, 4nat,
{
    if window.len() == 0 {
        Ok(seq![])
    } else {
        match decoded(endian, strict, pos, element, window) {
            Err(f) => Err(f),
            Ok((first, n)) => if !(0 < n <= window.len()) {
                Err(Fault::IncorrectValue)
            } else {
                match decoded_items(endian, strict, pos + n, element, window.skip(n as int)) {
                    Err(f) => Err(f),
                    Ok(rest) => Ok(seq![first] + rest),
                }
            },
        }
    }
}

/// The values of the types `fields` that stand one behind the other at the
/// start of `b`, which starts at position `pos` of a message: the values,
/// and the number of bytes they take.
pub open spec fn decoded_fields(
    endian: Endian,
    strict: bool,
    pos: nat,
    fields: Seq<SignatureView>,
    b: Seq<u8>,
) -> Result<(Seq<ValueView>, nat), Fault>
    decreases b.len(), fields, 4nat,
{
    if fields.len() == 0 {
        Ok((seq![], 0))
    } else {
        match decoded(endian, strict, pos, fields[0], b) {
            Err(f) => Err(f),
            Ok((first, n)) => if n > b.len() {
                Err(Fault::InsufficientData)
            } else {
                match decoded_fields(
                    endian,
                    strict,
                    pos + n,
                    fields.drop_first(),
                    b.skip(n as int),
                ) {
                    Err(f) => Err(f),
                    Ok((rest, m)) => Ok((seq![first] + rest, n + m)),
                }
            },
        }
    }
}

/// The longest encoding that the lengths on the wire can describe.
pub const MAX_ENCODED_LEN: usize = 0xffff_ffff;

/// A signed number is the number that its bits stand for.
pub proof fn lemma_signed_bits(a: i16, b: i32, c: i64)
    ensures
        i16_of_bits(i16_bits(a)) == a,
        i32_of_bits(i32_bits(b)) == b,
        i64_of_bits(i64_bits(c)) == c,
{
}

/// The signature of a well-typed value is a single complete type.
pub proof fn lemma_signature_complete(v: ValueView)
    requires
        v.is_well_typed(),
    ensures
        v.signature().is_complete(),
    decreases v,
{
    match v {
        ValueView::Structure(fields) => {
            lemma_signatures_complete(fields);
        },
        _ => {},
    }
}

/// The signatures of a row of well-typed values are as many complete types.
pub proof fn lemma_signatures_complete(fields: Seq<ValueView>)
    requires
        forall|i: int| 0 <= i < fields.len() ==> (#[trigger] fields[i]).is_well_typed(),
    ensures
        signatures(fields).len() == fields.len(),
        forall|i: int|
            0 <= i < fields.len() ==> (#[trigger] signatures(fields)[i]).is_complete()
                && signatures(fields)[i] == fields[i].signature(),
    decreases fields,
{
    if fields.len() > 0 {
        let rest = fields.drop_first();
        assert forall|i: int| 0 <= i < rest.len() implies (#[trigger] rest[i]).is_well_typed() by {
            assert(rest[i] == fields[i + 1]);
        }
        lemma_signatures_complete(rest);
        lemma_signature_complete(fields[0]);
        assert forall|i: int| 0 <= i < fields.len() implies (#[trigger] signatures(
            fields,
        )[i]).is_complete() && signatures(fields)[i] == fields[i].signature() by {
            if i > 0 {
                assert(signatures(fields)[i] == signatures(rest)[i - 1]);
                assert(rest[i - 1] == fields[i]);
            }
        }
    }
}

/// Padding that was written as zeros is read as padding by every reader.
pub proof fn lemma_padding_read(strict: bool, pos: nat, alignment: nat, behind: Seq<u8>)
    ensures
        padding_read(strict, pos, alignment, zeros(padding(pos, alignment)) + behind) == Ok::<
            nat,
            Fault,
        >(padding(pos, alignment)),
        (zeros(padding(pos, alignment)) + behind).skip(padding(pos, alignment) as int)
            == behind,
{
    let p = padding(pos, alignment);
    let b = zeros(p) + behind;
    assert(b.take(p as int) =~= zeros(p));
    assert(b.skip(p as int) =~= behind);
}

/// A number that was written behind its padding is found there by every
/// reader: `body` is the bytes of the number, as many as it is aligned to.
pub proof fn lemma_fixed_read(strict: bool, pos: nat, size: nat, body: Seq<u8>, rest: Seq<u8>)
    requires
        body.len() == size,
    ensures
        fixed_read(strict, pos, size, aligned(pos, size, body) + rest) == Ok::<nat, Fault>(
            padding(pos, size),
        ),
        (aligned(pos, size, body) + rest).skip(padding(pos, size) as int) == body + rest,
        aligned(pos, size, body).len() == padding(pos, size) + size,
{
    let b = aligned(pos, size, body) + rest;
    assert(b =~= zeros(padding(pos, size)) + (body + rest));
    lemma_padding_read(strict, pos, size, body + rest);
}

/// A string that was written is read back as its text, whatever follows.
#[verifier::rlimit(60)]
#[verifier::spinoff_prover]
pub proof fn lemma_string_read(
    endian: Endian,
    strict: bool,
    pos: nat,
    text: Seq<u8>,
    rest: Seq<u8>,
)
    requires
        text.len() <= MAX_ENCODED_LEN,
    ensures
        string_read(endian, strict, pos, aligned(pos, 4, string_body(endian, text)) + rest)
            == Ok::<(Seq<u8>, nat), Fault>(
            (text, aligned(pos, 4, string_body(endian, text)).len()),
        ),
{
    let p = padding(pos, 4);
    let body = string_body(endian, text);
    let b = aligned(pos, 4, body) + rest;
    let count = u32_bytes(endian, text.len() as u32);
    let tail = text + seq![0u8] + rest;
    crate::wire::endian::lemma_u32_roundtrip(endian, text.len() as u32);
    crate::wire::endian::lemma_u32_prefix(endian, text.len() as u32, tail);
    assert(b =~= zeros(p) + (count + tail));
    lemma_padding_read(strict, pos, 4, count + tail);
    assert(b.len() == p + 4 + text.len() + 1 + rest.len());
    assert(b.subrange(p as int + 4, p as int + 4 + text.len() as int) =~= text);
    assert(aligned(pos, 4, body).len() == p + 4 + text.len() + 1);
    assert(b[p as int + 4 + text.len() as int] == 0);
}

/// A signature that was written is read back as its text, whatever follows.
pub proof fn lemma_signature_read(text: Seq<u8>, rest: Seq<u8>)
    requires
        text.len() <= MAX_SIGNATURE_LEN,
    ensures
        signature_read(signature_body(text) + rest) == Ok::<(Seq<u8>, nat), Fault>(
            (text, signature_body(text).len()),
        ),
{
    let b = signature_body(text) + rest;
    assert(b[0] == text.len() as u8);
    assert(b.subrange(1, 1 + text.len() as int) =~= text);
    assert(b[text.len() as int + 1] == 0);
}

/// A number, a truth value or the index of a file descriptor is read back
/// from its bytes as itself.
#[verifier::rlimit(60)]
#[verifier::spinoff_prover]
pub proof fn lemma_fixed_roundtrip(
    endian: Endian,
    strict: bool,
    pos: nat,
    v: ValueView,
    rest: Seq<u8>,
)
    requires
        v.signature().is_basic(),
        !(v is Str) && !(v is ObjectPath) && !(v is Signature),
    ensures
        encoded(endian, pos, v).len() > 0,
        decoded(endian, strict, pos, v.signature(), encoded(endian, pos, v) + rest) == Ok::<
            (ValueView, nat),
            Fault,
        >((v, encoded(endian, pos, v).len())),
{
    let b = encoded(endian, pos, v) + rest;
    match v {
        ValueView::U8(x) => {
            assert(b[0] == x);
        },
        ValueView::Bool(x) => {
            let n = if x { 1u32 } else { 0u32 };
            crate::wire::endian::lemma_u32_roundtrip(endian, n);
            crate::wire::endian::lemma_u32_prefix(endian, n, rest);
            lemma_fixed_read(strict, pos, 4, u32_bytes(endian, n), rest);
        },
        ValueView::I16(x) => {
            crate::wire::endian::lemma_u16_roundtrip(endian, i16_bits(x));
            crate::wire::endian::lemma_u16_prefix(endian, i16_bits(x), rest);
            lemma_fixed_read(strict, pos, 2, u16_bytes(endian, i16_bits(x)), rest);
            lemma_signed_bits(x, 0, 0);
        },
        ValueView::U16(x) => {
            crate::wire::endian::lemma_u16_roundtrip(endian, x);
            crate::wire::endian::lemma_u16_prefix(endian, x, rest);
            lemma_fixed_read(strict, pos, 2, u16_bytes(endian, x), rest);
        },
        ValueView::I32(x) => {
            crate::wire::endian::lemma_u32_roundtrip(endian, i32_bits(x));
            crate::wire::endian::lemma_u32_prefix(endian, i32_bits(x), rest);
            lemma_fixed_read(strict, pos, 4, u32_bytes(endian, i32_bits(x)), rest);
            lemma_signed_bits(0, x, 0);
        },
        ValueView::U32(x) => {
            crate::wire::endian::lemma_u32_roundtrip(endian, x);
            crate::wire::endian::lemma_u32_prefix(endian, x, rest);
            lemma_fixed_read(strict, pos, 4, u32_bytes(endian, x), rest);
        },
        ValueView::Fd(x) => {
            crate::wire::endian::lemma_u32_roundtrip(endian, x);
            crate::wire::endian::lemma_u32_prefix(endian, x, rest);
            lemma_fixed_read(strict, pos, 4, u32_bytes(endian, x), rest);
        },
        ValueView::I64(x) => {
            crate::wire::endian::lemma_u64_roundtrip(endian, i64_bits(x));
            crate::wire::endian::lemma_u64_prefix(endian, i64_bits(x), rest);
            lemma_fixed_read(strict, pos, 8, u64_bytes(endian, i64_bits(x)), rest);
            lemma_signed_bits(0, 0, x);
        },
        ValueView::U64(x) => {
            crate::wire::endian::lemma_u64_roundtrip(endian, x);
            crate::wire::endian::lemma_u64_prefix(endian, x, rest);
            lemma_fixed_read(strict, pos, 8, u64_bytes(endian, x), rest);
        },
        ValueView::F64(x) => {
            crate::wire::endian::lemma_u64_roundtrip(endian, x);
            crate::wire::endian::lemma_u64_prefix(endian, x, rest);
            lemma_fixed_read(strict, pos, 8, u64_bytes(endian, x), rest);
        },
        _ => {},
    }
}

/// A string, an object path or a signature is read back from its bytes as
/// itself.
#[verifier::rlimit(60)]
#[verifier::spinoff_prover]
pub proof fn lemma_text_roundtrip(
    endian: Endian,
    strict: bool,
    pos: nat,
    v: ValueView,
    rest: Seq<u8>,
)
    requires
        v is Str || v is ObjectPath || v is Signature,
        v.is_well_typed(),
        encoded(endian, pos, v).len() <= MAX_ENCODED_LEN,
    ensures
        encoded(endian, pos, v).len() > 0,
        decoded(endian, strict, pos, v.signature(), encoded(endian, pos, v) + rest) == Ok::<
            (ValueView, nat),
            Fault,
        >((v, encoded(endian, pos, v).len())),
{
    match v {
        ValueView::Str(text) => {
            vstd::utf8::encode_utf8_valid_utf8(text);
            vstd::utf8::encode_utf8_decode_utf8(text);
            lemma_string_read(endian, strict, pos, encode_utf8(text), rest);
        },
        ValueView::ObjectPath(text) => {
            vstd::utf8::encode_utf8_valid_utf8(text);
            vstd::utf8::encode_utf8_decode_utf8(text);
            lemma_string_read(endian, strict, pos, encode_utf8(text), rest);
        },
        ValueView::Signature(row) => {
            lemma_signature_read(texts(row), rest);
            crate::wire::grammar::lemma_parse_all_complete(row);
        },
        _ => {},
    }
}

/// A variant is read back from its bytes as itself.
#[verifier::rlimit(60)]
#[verifier::spinoff_prover]
pub proof fn lemma_variant_roundtrip(
    endian: Endian,
    strict: bool,
    pos: nat,
    v: ValueView,
    rest: Seq<u8>,
)
    requires
        v is Value,
        v.is_well_typed(),
        encoded(endian, pos, v).len() <= MAX_ENCODED_LEN,
    ensures
        encoded(endian, pos, v).len() > 0,
        decoded(endian, strict, pos, v.signature(), encoded(endian, pos, v) + rest) == Ok::<
            (ValueView, nat),
            Fault,
        >((v, encoded(endian, pos, v).len())),
    decreases v, 1nat,
{
    let inner = *v->Value_0;
    let b = encoded(endian, pos, v) + rest;
    let sig = inner.signature();
    let head = signature_body(sig.text());
    let body = encoded(endian, pos + head.len(), inner);
    assert(encoded(endian, pos, v) == head + body);
    assert(b =~= head + (body + rest));
    lemma_signature_read(sig.text(), body + rest);
    lemma_signature_complete(inner);
    crate::wire::grammar::lemma_parse_complete(sig, seq![]);
    assert(sig.text() + Seq::<u8>::empty() =~= sig.text());
    assert(parse_complete(sig.text()) == Some(sig));
    assert(b.skip(head.len() as int) =~= body + rest);
    lemma_roundtrip(endian, strict, pos + head.len(), inner, rest);
    let n = head.len();
    assert(signature_read(b) == Ok::<(Seq<u8>, nat), Fault>((sig.text(), n)));
    assert(variant_head(b) == Ok::<(nat, SignatureView), Fault>((n, sig)));
    assert(decoded(endian, strict, pos + n, sig, b.skip(n as int)) == Ok::<
        (ValueView, nat),
        Fault,
    >((inner, body.len())));
}

/// An array is read back from its bytes as itself.
#[verifier::rlimit(60)]
#[verifier::spinoff_prover]
pub proof fn lemma_array_roundtrip(
    endian: Endian,
    strict: bool,
    pos: nat,
    v: ValueView,
    rest: Seq<u8>,
)
    requires
        v is Array,
        v.is_well_typed(),
        encoded(endian, pos, v).len() <= MAX_ENCODED_LEN,
    ensures
        encoded(endian, pos, v).len() > 0,
        decoded(endian, strict, pos, v.signature(), encoded(endian, pos, v) + rest) == Ok::<
            (ValueView, nat),
            Fault,
        >((v, encoded(endian, pos, v).len())),
    decreases v, 1nat,
{
    let element = v->Array_0;
    let items = v->Array_1;
    let b = encoded(endian, pos, v) + rest;
    let p = padding(pos, 4);
    let q = padding(pos + p + 4, element.alignment(Format::DBus));
    let start = pos + p + 4 + q;
    let payload = encoded_row(endian, start, items);
    let count = u32_bytes(endian, payload.len() as u32);
    crate::wire::endian::lemma_u32_roundtrip(endian, payload.len() as u32);
    let behind_count = zeros(q) + (payload + rest);
    assert(encoded(endian, pos, v) == zeros(p) + count + zeros(q) + payload);
    assert(b =~= zeros(p) + (count + behind_count));
    lemma_padding_read(strict, pos, 4, count + behind_count);
    crate::wire::endian::lemma_u32_prefix(endian, payload.len() as u32, behind_count);
    assert(b.skip(p as int + 4) =~= behind_count);
    lemma_padding_read(strict, pos + p + 4, element.alignment(Format::DBus), payload + rest);
    assert(behind_count.subrange(q as int, q as int + payload.len() as int) =~= payload);
    lemma_items_roundtrip(endian, strict, start, element, items);
    assert(fixed_read(strict, pos, 4, b) == Ok::<nat, Fault>(p));
    assert(array_frame(endian, strict, pos, element.alignment(Format::DBus), b) == Ok::<
        (nat, nat),
        Fault,
    >((p + 4 + q, payload.len())));
    assert(b.subrange((p + 4 + q) as int, (p + 4 + q) as int + payload.len() as int)
        =~= payload);
}

/// A structure is read back from its bytes as itself.
#[verifier::rlimit(60)]
#[verifier::spinoff_prover]
pub proof fn lemma_structure_roundtrip(
    endian: Endian,
    strict: bool,
    pos: nat,
    v: ValueView,
    rest: Seq<u8>,
)
    requires
        v is Structure,
        v.is_well_typed(),
        encoded(endian, pos, v).len() <= MAX_ENCODED_LEN,
    ensures
        encoded(endian, pos, v).len() > 0,
        decoded(endian, strict, pos, v.signature(), encoded(endian, pos, v) + rest) == Ok::<
            (ValueView, nat),
            Fault,
        >((v, encoded(endian, pos, v).len())),
    decreases v, 1nat,
{
    let fields = v->Structure_0;
    let b = encoded(endian, pos, v) + rest;
    let p = padding(pos, 8);
    let row = encoded_row(endian, pos + p, fields);
    assert(encoded(endian, pos, v) == zeros(p) + row);
    assert(b =~= zeros(p) + (row + rest));
    lemma_padding_read(strict, pos, 8, row + rest);
    lemma_signatures_complete(fields);
    lemma_fields_roundtrip(endian, strict, pos + p, fields, rest);
}

/// A dictionary is read back from its bytes as itself.
#[verifier::rlimit(60)]
#[verifier::spinoff_prover]
pub proof fn lemma_dict_roundtrip(
    endian: Endian,
    strict: bool,
    pos: nat,
    v: ValueView,
    rest: Seq<u8>,
)
    requires
        v is Dict,
        v.is_well_typed(),
        encoded(endian, pos, v).len() <= MAX_ENCODED_LEN,
    ensures
        encoded(endian, pos, v).len() > 0,
        decoded(endian, strict, pos, v.signature(), encoded(endian, pos, v) + rest) == Ok::<
            (ValueView, nat),
            Fault,
        >((v, encoded(endian, pos, v).len())),
    decreases v, 1nat,
{
    let key = v->Dict_0;
    let value = v->Dict_1;
    let entries = v->Dict_2;
    let b = encoded(endian, pos, v) + rest;
    let p = padding(pos, 4);
    let q = padding(pos + p + 4, 8);
    let start = pos + p + 4 + q;
    let payload = encoded_row(endian, start, entries);
    let count = u32_bytes(endian, payload.len() as u32);
    crate::wire::endian::lemma_u32_roundtrip(endian, payload.len() as u32);
    let behind_count = zeros(q) + (payload + rest);
    assert(encoded(endian, pos, v) == zeros(p) + count + zeros(q) + payload);
    assert(b =~= zeros(p) + (count + behind_count));
    lemma_padding_read(strict, pos, 4, count + behind_count);
    crate::wire::endian::lemma_u32_prefix(endian, payload.len() as u32, behind_count);
    assert(b.skip(p as int + 4) =~= behind_count);
    lemma_padding_read(strict, pos + p + 4, 8, payload + rest);
    assert(behind_count.subrange(q as int, q as int + payload.len() as int) =~= payload);
    lemma_items_roundtrip(endian, strict, start, entry_type(key, value), entries);
    assert(fixed_read(strict, pos, 4, b) == Ok::<nat, Fault>(p));
    assert(array_frame(endian, strict, pos, 8, b) == Ok::<(nat, nat), Fault>(
        (p + 4 + q, payload.len()),
    ));
    assert(b.subrange((p + 4 + q) as int, (p + 4 + q) as int + payload.len() as int)
        =~= payload);
}

/// Reading gives back what was written: a well-typed value whose encoding
/// is short enough for the lengths on the wire is read from its bytes as
/// itself, in either byte order, at every position, by a strict reader and
/// by a lenient one, and whatever bytes follow its own.
#[verifier::rlimit(60)]
#[verifier::spinoff_prover]
pub proof fn lemma_roundtrip(endian: Endian, strict: bool, pos: nat, v: ValueView, rest: Seq<u8>)
    requires
        v.is_well_typed(),
        encoded(endian, pos, v).len() <= MAX_ENCODED_LEN,
    ensures
        encoded(endian, pos, v).len() > 0,
        decoded(endian, strict, pos, v.signature(), encoded(endian, pos, v) + rest) == Ok::<
            (ValueView, nat),
            Fault,
        >((v, encoded(endian, pos, v).len())),
    decreases v, 2nat,
{
    match v {
        ValueView::Str(_) | ValueView::ObjectPath(_) | ValueView::Signature(_) => {
            lemma_text_roundtrip(endian, strict, pos, v, rest);
        },
        ValueView::Value(inner) => {
            lemma_variant_roundtrip(endian, strict, pos, v, rest);
        },
        ValueView::Array(element, items) => {
            lemma_array_roundtrip(endian, strict, pos, v, rest);
        },
        ValueView::Structure(fields) => {
            lemma_structure_roundtrip(endian, strict, pos, v, rest);
        },
        ValueView::Dict(_, _, _) => {
            lemma_dict_roundtrip(endian, strict, pos, v, rest);
        },
        _ => {
            lemma_fixed_roundtrip(endian, strict, pos, v, rest);
        },
    }
}

/// The elements of an array are read back from their bytes as themselves.
#[verifier::rlimit(60)]
#[verifier::spinoff_prover]
pub proof fn lemma_items_roundtrip(
    endian: Endian,
    strict: bool,
    pos: nat,
    element: SignatureView,
    items: Seq<ValueView>,
)
    requires
        forall|i: int|
            0 <= i < items.len() ==> (#[trigger] items[i]).signature() == element
                && items[i].is_well_typed(),
        encoded_row(endian, pos, items).len() <= MAX_ENCODED_LEN,
    ensures
        decoded_items(endian, strict, pos, element, encoded_row(endian, pos, items)) == Ok::<
            Seq<ValueView>,
            Fault,
        >(items),
    decreases items, 0nat,
{
    if items.len() == 0 {
        assert(items =~= seq![]);
    } else {
        let first = items[0];
        let others = items.drop_first();
        let head = encoded(endian, pos, first);
        let tail = encoded_row(endian, pos + head.len(), others);
        assert(first.is_well_typed() && first.signature() == element);
        lemma_roundtrip(endian, strict, pos, first, tail);
        assert forall|i: int| 0 <= i < others.len() implies (#[trigger] others[i]).signature()
            == element && others[i].is_well_typed() by {
            assert(others[i] == items[i + 1]);
        }
        assert((head + tail).skip(head.len() as int) =~= tail);
        lemma_items_roundtrip(endian, strict, pos + head.len(), element, others);
        assert(seq![first] + others =~= items);
    }
}

/// The fields of a structure are read back from their bytes as themselves,
/// whatever follows.
#[verifier::rlimit(60)]
#[verifier::spinoff_prover]
pub proof fn lemma_fields_roundtrip(
    endian: Endian,
    strict: bool,
    pos: nat,
    fields: Seq<ValueView>,
    rest: Seq<u8>,
)
    requires
        forall|i: int| 0 <= i < fields.len() ==> (#[trigger] fields[i]).is_well_typed(),
        encoded_row(endian, pos, fields).len() <= MAX_ENCODED_LEN,
    ensures
        decoded_fields(
            endian,
            strict,
            pos,
            signatures(fields),
            encoded_row(endian, pos, fields) + rest,
        ) == Ok::<(Seq<ValueView>, nat), Fault>((fields, encoded_row(endian, pos, fields).len())),
        fields.len() > 0 ==> encoded_row(endian, pos, fields).len() > 0,
    decreases fields, 0nat,
{
    if fields.len() == 0 {
        assert(fields =~= seq![]);
    } else {
        let first = fields[0];
        let others = fields.drop_first();
        let head = encoded(endian, pos, first);
        let tail = encoded_row(endian, pos + head.len(), others);
        assert(first.is_well_typed());
        assert((head + tail) + rest =~= head + (tail + rest));
        lemma_roundtrip(endian, strict, pos, first, tail + rest);
        assert forall|i: int| 0 <= i < others.len() implies (#[trigger] others[i]).is_well_typed() by {
            assert(others[i] == fields[i + 1]);
        }
        assert((head + (tail + rest)).skip(head.len() as int) =~= tail + rest);
        lemma_fields_roundtrip(endian, strict, pos + head.len(), others, rest);
        assert(signatures(fields).drop_first() =~= signatures(others));
        assert(seq![first] + others =~= fields);
    }
}

} // verus!
