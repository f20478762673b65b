//! Writing values as bytes in the classic encoding.

use vstd::prelude::*;
use vstd::string::StringSliceAdditionalSpecFns;
use vstd::utf8::encode_utf8;
use crate::text::append_bytes;
use crate::wire::context::{padding, padding_at, push_zeros, zeros};
use crate::wire::dbus::{
    aligned, encoded, encoded_row, i16_bits, i32_bits, i64_bits, signature_body, string_body,
    MAX_ENCODED_LEN,
};
use crate::wire::endian::{
    lemma_u16_roundtrip, lemma_u32_roundtrip, lemma_u64_roundtrip, u16_to_bytes, u32_bytes,
    u32_to_bytes, u64_to_bytes, Endian,
};
use crate::wire::error::Error;
use crate::wire::grammar::MAX_SIGNATURE_LEN;
use crate::wire::signature::{
    lemma_texts_push, texts, views, Format, Signature, SignatureView,
};
use crate::wire::value::{
    lemma_array_view, lemma_dict_view, lemma_structure_value_view, signatures, value_trees,
    Value, ValueView,
};

verus! {

/// The text of the error for a value that the lengths on the wire cannot
/// describe.
pub const TOO_LARGE: &'static str = "value is too large to be encoded";

/// The bytes of a row with one more value behind are the bytes of the row
/// followed by the bytes of that value.
#[verifier::rlimit(60)]
#[verifier::spinoff_prover]
pub proof fn lemma_row_push(endian: Endian, pos: nat, items: Seq<ValueView>, last: ValueView)
    ensures
        encoded_row(endian, pos, items.push(last)) == encoded_row(endian, pos, items) + encoded(
            endian,
            pos + encoded_row(endian, pos, items).len(),
            last,
        ),
    decreases items.len(),
{
    let all = items.push(last);
    if items.len() == 0 {
        let head = encoded(endian, pos, last);
        assert(all[0] == last);
        assert(all.drop_first() =~= seq![]);
        assert(encoded_row(endian, pos + head.len(), all.drop_first()) =~= seq![]);
        assert(encoded_row(endian, pos, all) =~= head);
        assert(encoded_row(endian, pos, items) =~= seq![]);
    } else {
        let head = encoded(endian, pos, items[0]);
        assert(all[0] == items[0]);
        assert(all.drop_first() =~= items.drop_first().push(last));
        lemma_row_push(endian, pos + head.len(), items.drop_first(), last);
        assert(encoded_row(endian, pos, all) =~= encoded_row(endian, pos, items) + encoded(
            endian,
            pos + encoded_row(endian, pos, items).len(),
            last,
        ));
    }
}

/// The bytes of the first `k` values of a row are no more than the bytes of
/// the whole row.
pub proof fn lemma_row_grows(endian: Endian, pos: nat, items: Seq<ValueView>, k: int)
    requires
        0 <= k <= items.len(),
    ensures
        encoded_row(endian, pos, items.take(k)).len() <= encoded_row(endian, pos, items).len(),
    decreases items.len() - k,
{
    if k < items.len() {
        lemma_row_grows(endian, pos, items, k + 1);
        assert(items.take(k + 1) =~= items.take(k).push(items[k]));
        lemma_row_push(endian, pos, items.take(k), items[k]);
    } else {
        assert(items.take(k) =~= items);
    }
}

/// The signatures of a row with one more value behind are the signatures
/// of the row and that of the value.
pub proof fn lemma_signatures_push(fields: Seq<ValueView>, last: ValueView)
    ensures
        signatures(fields.push(last)) == signatures(fields).push(last.signature()),
    decreases fields.len(),
{
    let all = fields.push(last);
    if fields.len() == 0 {
        assert(all[0] == last);
        assert(all.drop_first() =~= seq![]);
        assert(signatures(all.drop_first()) =~= seq![]);
        assert(signatures(all) =~= seq![last.signature()]);
        assert(signatures(fields) =~= seq![]);
    } else {
        assert(all.drop_first() =~= fields.drop_first().push(last));
        lemma_signatures_push(fields.drop_first(), last);
        assert(signatures(all) =~= signatures(fields).push(last.signature()));
    }
}

/// Appends to `out` the texts of a row of signatures.
pub fn write_row_text(row: &Vec<Signature>, out: &mut Vec<u8>)
    ensures
        final(out)@ == old(out)@ + texts(views(row@)),
{
    let ghost all = views(row@);
    let mut i: usize = 0;
    assert(texts(all.take(0)) =~= seq![]);
    assert(out@ =~= old(out)@ + texts(all.take(0)));
    while i < row.len()
        invariant
            i <= row.len(),
            all == views(row@),
            out@ == old(out)@ + texts(all.take(i as int)),
        decreases row.len() - i,
    {
        row[i].write_text(out);
        proof {
            lemma_texts_push(all.take(i as int), all[i as int]);
            assert(all.take(i + 1) =~= all.take(i as int).push(all[i as int]));
        }
        i += 1;
    }
    assert(all.take(row.len() as int) =~= all);
}

/// Appends to `out` the text of the signature of `value`.
#[verifier::rlimit(60)]
#[verifier::spinoff_prover]
pub fn write_signature_of(value: &Value, out: &mut Vec<u8>)
    ensures
        final(out)@ == old(out)@ + value@.signature().text(),
    decreases value,
{
    match value {
        Value::U8(_) => out.push(0x79),
        Value::Bool(_) => out.push(0x62),
        Value::I16(_) => out.push(0x6e),
        Value::U16(_) => out.push(0x71),
        Value::I32(_) => out.push(0x69),
        Value::U32(_) => out.push(0x75),
        Value::I64(_) => out.push(0x78),
        Value::U64(_) => out.push(0x74),
        Value::F64(_) => out.push(0x64),
        Value::Str(_) => out.push(0x73),
        Value::Signature(_) => out.push(0x67),
        Value::ObjectPath(_) => out.push(0x6f),
        Value::Fd(_) => out.push(0x68),
        Value::Value(_) => out.push(0x76),
        Value::Array(element, items) => {
            proof {
                lemma_array_view(*element, *items);
            }
            out.push(0x61);
            element.write_text(out);
        },
        Value::Dict(key, value, entries) => {
            proof {
                lemma_dict_view(*key, *value, *entries);
            }
            out.push(0x61);
            out.push(0x7b);
            key.write_text(out);
            value.write_text(out);
            out.push(0x7d);
        },
        Value::Structure(fields) => {
            let ghost all = value_trees(fields@);
            proof {
                lemma_structure_value_view(*fields);
            }
            out.push(0x28);
            let mut i: usize = 0;
            assert(texts(signatures(all.take(0))) =~= seq![]);
            while i < fields.len()
                invariant
                    i <= fields.len(),
                    *value == Value::Structure(*fields),
                    all == value_trees(fields@),
                    out@ == old(out)@ + seq![0x28u8] + texts(signatures(all.take(i as int))),
                decreases fields.len() - i,
            {
                assert(decreases_to!(value => value->Structure_0));
                assert(decreases_to!(fields => fields[i as int]));
                write_signature_of(&fields[i], out);
                proof {
                    let before = all.take(i as int);
                    assert(all.take(i + 1) =~= before.push(all[i as int]));
                    lemma_signatures_push(before, all[i as int]);
                    lemma_texts_push(signatures(before), all[i as int].signature());
                }
                i += 1;
            }
            assert(all.take(fields.len() as int) =~= all);
            out.push(0x29);
        },
    }
    assert(out@ =~= old(out)@ + value@.signature().text());
}

/// Appends to `out` a number of `N` bytes behind the padding that brings it
/// to a multiple of its size.
pub(crate) fn write_fixed<const N: usize>(base: usize, body: [u8; N], out: &mut Vec<u8>)
    requires
        N == 1 || N == 2 || N == 4 || N == 8,
    ensures
        final(out)@ == old(out)@ + aligned((base + old(out)@.len()) as nat, N as nat, body@),
{
    let p = padding_at(base, out.len(), N);
    push_zeros(out, p);
    append_bytes(out, body.as_slice());
    assert(out@ =~= old(out)@ + aligned((base + old(out)@.len()) as nat, N as nat, body@));
}

/// Appends to `out` a string with the given text, behind its padding.
fn write_string(endian: Endian, base: usize, text: &[u8], out: &mut Vec<u8>) -> (r: Result<
    (),
    Error,
>)
    ensures
        r is Ok <==> text@.len() <= MAX_ENCODED_LEN,
        r is Ok ==> final(out)@ == old(out)@ + aligned(
            (base + old(out)@.len()) as nat,
            4,
            string_body(endian, text@),
        ),
{
    if text.len() > MAX_ENCODED_LEN {
        return Err(Error::Message(TOO_LARGE.to_owned()));
    }
    let p = padding_at(base, out.len(), 4);
    push_zeros(out, p);
    let count = u32_to_bytes(endian, text.len() as u32);
    append_bytes(out, count.as_slice());
    append_bytes(out, text);
    out.push(0u8);
    assert(out@ =~= old(out)@ + aligned(
        (base + old(out)@.len()) as nat,
        4,
        string_body(endian, text@),
    ));
    Ok(())
}

/// Appends to `out` a signature with the given text.
fn write_signature(text: &[u8], out: &mut Vec<u8>) -> (r: Result<(), Error>)
    ensures
        r is Ok <==> text@.len() <= MAX_SIGNATURE_LEN,
        r is Ok ==> final(out)@ == old(out)@ + signature_body(text@),
{
    if text.len() > MAX_SIGNATURE_LEN {
        return Err(Error::Message(TOO_LARGE.to_owned()));
    }
    out.push(text.len() as u8);
    append_bytes(out, text);
    out.push(0u8);
    assert(out@ =~= old(out)@ + signature_body(text@));
    Ok(())
}

/// The 16 bits of a signed number.
fn bits16(v: i16) -> (r: u16)
    ensures
        r == i16_bits(v),
{
    if v >= 0 {
        v as u16
    } else {
        (v as i32 + 0x1_0000) as u16
    }
}

/// The 32 bits of a signed number.
fn bits32(v: i32) -> (r: u32)
    ensures
        r == i32_bits(v),
{
    if v >= 0 {
        v as u32
    } else {
        (v as i64 + 0x1_0000_0000) as u32
    }
}

/// The 64 bits of a signed number.
fn bits64(v: i64) -> (r: u64)
    ensures
        r == i64_bits(v),
{
    if v >= 0 {
        v as u64
    } else {
        (v as i128 + 0x1_0000_0000_0000_0000) as u64
    }
}

/// Appends to `out` the bytes of a number, a truth value or the index of a
/// file descriptor.
#[verifier::rlimit(60)]
#[verifier::spinoff_prover]
pub(crate) fn encode_fixed(endian: Endian, base: usize, value: &Value, out: &mut Vec<u8>)
    requires
        crate::wire::dbus::is_fixed(value@.signature()),
    ensures
        final(out)@ == old(out)@ + encoded(endian, (base + old(out)@.len()) as nat, value@),
{
    let ghost pos = (base + out@.len()) as nat;
    match value {
        Value::U8(v) => {
            out.push(*v);
            assert(out@ =~= old(out)@ + encoded(endian, pos, value@));
        },
        Value::Bool(v) => {
            write_fixed(base, u32_to_bytes(endian, if *v { 1 } else { 0 }), out);
        },
        Value::I16(v) => {
            write_fixed(base, u16_to_bytes(endian, bits16(*v)), out);
        },
        Value::U16(v) => {
            write_fixed(base, u16_to_bytes(endian, *v), out);
        },
        Value::I32(v) => {
            write_fixed(base, u32_to_bytes(endian, bits32(*v)), out);
        },
        Value::U32(v) => {
            write_fixed(base, u32_to_bytes(endian, *v), out);
        },
        Value::Fd(v) => {
            write_fixed(base, u32_to_bytes(endian, *v), out);
        },
        Value::I64(v) => {
            write_fixed(base, u64_to_bytes(endian, bits64(*v)), out);
        },
        Value::U64(v) => {
            write_fixed(base, u64_to_bytes(endian, *v), out);
        },
        Value::F64(v) => {
            write_fixed(base, u64_to_bytes(endian, *v), out);
        },
        _ => {},
    }
}

/// Appends to `out` the bytes of a value that holds no other values.
#[verifier::rlimit(60)]
#[verifier::spinoff_prover]
pub(crate) fn encode_simple(endian: Endian, base: usize, value: &Value, out: &mut Vec<u8>) -> (r: Result<
    (),
    Error,
>)
    requires
        !(value is Value) && !(value is Array) && !(value is Structure) && !(value is Dict),
    ensures
        r is Ok ==> final(out)@ == old(out)@ + encoded(
            endian,
            (base + old(out)@.len()) as nat,
            value@,
        ),
        value@.is_well_typed() && encoded(
            endian,
            (base + old(out)@.len()) as nat,
            value@,
        ).len() <= MAX_ENCODED_LEN ==> r is Ok,
{
    let ghost pos = (base + out@.len()) as nat;
    match value {
        Value::Str(s) => {
            proof {
                lemma_u32_roundtrip(endian, encode_utf8(s@).len() as u32);
            }
            write_string(endian, base, s.as_str().as_bytes(), out)
        },
        Value::ObjectPath(p) => {
            proof {
                lemma_u32_roundtrip(endian, encode_utf8(p@).len() as u32);
            }
            write_string(endian, base, p.as_str().as_bytes(), out)
        },
        Value::Signature(row) => {
            let mut text: Vec<u8> = Vec::new();
            write_row_text(row, &mut text);
            assert(text@ =~= texts(views(row@)));
            write_signature(text.as_slice(), out)
        },
        _ => {
            encode_fixed(endian, base, value, out);
            Ok(())
        },
    }
}

/// Appends to `out` the bytes of a variant: the signature of the value in
/// it, and the value.
#[verifier::rlimit(60)]
#[verifier::spinoff_prover]
fn encode_variant(endian: Endian, base: usize, value: &Value, out: &mut Vec<u8>) -> (r: Result<
    (),
    Error,
>)
    requires
        value is Value,
    ensures
        r is Ok ==> final(out)@ == old(out)@ + encoded(
            endian,
            (base + old(out)@.len()) as nat,
            value@,
        ),
        value@.is_well_typed() && encoded(
            endian,
            (base + old(out)@.len()) as nat,
            value@,
        ).len() <= MAX_ENCODED_LEN ==> r is Ok,
    decreases value, 0nat,
{
    let ghost pos = (base + out@.len()) as nat;
    match value {
        Value::Value(inner) => {
            let mut text: Vec<u8> = Vec::new();
            write_signature_of(inner, &mut text);
            assert(text@ =~= inner@.signature().text());
            match write_signature(text.as_slice(), out) {
                Ok(()) => {},
                Err(e) => {
                    return Err(e);
                },
            }
            let r = encode(endian, base, inner, out);
            proof {
                if r is Ok {
                    assert(out@ =~= old(out)@ + encoded(endian, pos, value@));
                }
            }
            r
        },
        _ => Ok(()),
    }
}

/// Bytes that were written with four zeros in place of a length, and then
/// had the length written over the zeros, are the bytes with the length in
/// its place.
proof fn lemma_patched(
    front: Seq<u8>,
    p: nat,
    q: nat,
    payload: Seq<u8>,
    count: Seq<u8>,
    unpatched: Seq<u8>,
    patched: Seq<u8>,
)
    requires
        count.len() == 4,
        unpatched == front + zeros(p) + zeros(4) + zeros(q) + payload,
        patched == unpatched.update((front.len() + p) as int, count[0]).update(
            (front.len() + p) as int + 1,
            count[1],
        ).update((front.len() + p) as int + 2, count[2]).update(
            (front.len() + p) as int + 3,
            count[3],
        ),
    ensures
        patched == front + (zeros(p) + count + zeros(q) + payload),
{
    let k = (front.len() + p) as int;
    let target = front + (zeros(p) + count + zeros(q) + payload);
    assert(patched.len() == target.len());
    assert forall|i: int| 0 <= i < patched.len() implies patched[i] == target[i] by {
        if i < k {
            assert(patched[i] == unpatched[i]);
        } else if i < k + 4 {
            assert(target[i] == count[i - k]);
        } else {
            assert(patched[i] == unpatched[i]);
        }
    }
    assert(patched =~= target);
}

/// Appends to `out` the bytes of an array: the length of its elements in
/// bytes, and the elements.
#[verifier::rlimit(40)]
#[verifier::spinoff_prover]
fn encode_array(endian: Endian, base: usize, value: &Value, out: &mut Vec<u8>) -> (r: Result<
    (),
    Error,
>)
    requires
        value is Array,
    ensures
        r is Ok ==> final(out)@ == old(out)@ + encoded(
            endian,
            (base + old(out)@.len()) as nat,
            value@,
        ),
        value@.is_well_typed() && encoded(
            endian,
            (base + old(out)@.len()) as nat,
            value@,
        ).len() <= MAX_ENCODED_LEN ==> r is Ok,
    decreases value, 0nat,
{
    let ghost pos = (base + out@.len()) as nat;
    match value {
        Value::Array(element, items) => {
            let ghost all = value_trees(items@);
            proof {
                lemma_array_view(*element, *items);
            }
            let p = padding_at(base, out.len(), 4);
            push_zeros(out, p);
            let count_at = out.len();
            push_zeros(out, 4);
            let q = padding_at(base, out.len(), element.alignment(Format::DBus));
            push_zeros(out, q);
            let start = out.len();
            let ghost head = out@;
            let ghost first = (base + start) as nat;
            let ghost payload = encoded_row(endian, first, all);
            proof {
                lemma_u32_roundtrip(endian, payload.len() as u32);
                assert(head =~= old(out)@ + zeros(p as nat) + zeros(4) + zeros(q as nat));
                assert(encoded(endian, pos, value@) == zeros(p as nat) + u32_bytes(
                    endian,
                    payload.len() as u32,
                ) + zeros(q as nat) + payload);
            }
            assert(decreases_to!(value => value->Array_1));
            match encode_row(endian, base, items, out) {
                Ok(()) => {},
                Err(e) => {
                    return Err(e);
                },
            }
            let payload_len = out.len() - start;
            assert(out@ == head + payload);
            if payload_len > MAX_ENCODED_LEN {
                return Err(Error::Message(TOO_LARGE.to_owned()));
            }
            let count = u32_to_bytes(endian, payload_len as u32);
            let ghost unpatched = out@;
            out.set(count_at, count[0]);
            out.set(count_at + 1, count[1]);
            out.set(count_at + 2, count[2]);
            out.set(count_at + 3, count[3]);
            proof {
                lemma_patched(old(out)@, p as nat, q as nat, payload, count@, unpatched, out@);
            }
            Ok(())
        },
        _ => Ok(()),
    }
}

/// Appends to `out` the bytes of a structure: its fields, one behind the
/// other.
#[verifier::rlimit(60)]
#[verifier::spinoff_prover]
fn encode_structure(endian: Endian, base: usize, value: &Value, out: &mut Vec<u8>) -> (r:
    Result<(), Error>)
    requires
        value is Structure,
    ensures
        r is Ok ==> final(out)@ == old(out)@ + encoded(
            endian,
            (base + old(out)@.len()) as nat,
            value@,
        ),
        value@.is_well_typed() && encoded(
            endian,
            (base + old(out)@.len()) as nat,
            value@,
        ).len() <= MAX_ENCODED_LEN ==> r is Ok,
    decreases value, 0nat,
{
    let ghost pos = (base + out@.len()) as nat;
    match value {
        Value::Structure(fields) => {
            let ghost all = value_trees(fields@);
            proof {
                lemma_structure_value_view(*fields);
            }
            let p = padding_at(base, out.len(), 8);
            push_zeros(out, p);
            proof {
                assert(encoded(endian, pos, value@) == zeros(p as nat) + encoded_row(
                    endian,
                    pos + p as nat,
                    all,
                ));
            }
            assert(decreases_to!(value => value->Structure_0));
            match encode_row(endian, base, fields, out) {
                Ok(()) => {},
                Err(e) => {
                    return Err(e);
                },
            }
            assert(out@ =~= old(out)@ + encoded(endian, pos, value@));
            Ok(())
        },
        _ => Ok(()),
    }
}

/// Appends to `out` the bytes of a dictionary: the length of its entries
/// in bytes, and the entries.
#[verifier::rlimit(60)]
#[verifier::spinoff_prover]
fn encode_dict(endian: Endian, base: usize, value: &Value, out: &mut Vec<u8>) -> (r: Result<
    (),
    Error,
>)
    requires
        value is Dict,
    ensures
        r is Ok ==> final(out)@ == old(out)@ + encoded(
            endian,
            (base + old(out)@.len()) as nat,
            value@,
        ),
        value@.is_well_typed() && encoded(
            endian,
            (base + old(out)@.len()) as nat,
            value@,
        ).len() <= MAX_ENCODED_LEN ==> r is Ok,
    decreases value, 0nat,
{
    let ghost pos = (base + out@.len()) as nat;
    match value {
        Value::Dict(key, val, entries) => {
            let ghost all = value_trees(entries@);
            proof {
                lemma_dict_view(*key, *val, *entries);
            }
            let p = padding_at(base, out.len(), 4);
            push_zeros(out, p);
            let count_at = out.len();
            push_zeros(out, 4);
            let q = padding_at(base, out.len(), 8);
            push_zeros(out, q);
            let start = out.len();
            let ghost head = out@;
            let ghost first = (base + start) as nat;
            let ghost payload = encoded_row(endian, first, all);
            proof {
                lemma_u32_roundtrip(endian, payload.len() as u32);
                assert(head =~= old(out)@ + zeros(p as nat) + zeros(4) + zeros(q as nat));
                assert(encoded(endian, pos, value@) == zeros(p as nat) + u32_bytes(
                    endian,
                    payload.len() as u32,
                ) + zeros(q as nat) + payload);
            }
            assert(decreases_to!(value => value->Dict_2));
            match encode_row(endian, base, entries, out) {
                Ok(()) => {},
                Err(e) => {
                    return Err(e);
                },
            }
            let payload_len = out.len() - start;
            assert(out@ == head + payload);
            if payload_len > MAX_ENCODED_LEN {
                return Err(Error::Message(TOO_LARGE.to_owned()));
            }
            let count = u32_to_bytes(endian, payload_len as u32);
            let ghost unpatched = out@;
            out.set(count_at, count[0]);
            out.set(count_at + 1, count[1]);
            out.set(count_at + 2, count[2]);
            out.set(count_at + 3, count[3]);
            proof {
                lemma_patched(old(out)@, p as nat, q as nat, payload, count@, unpatched, out@);
            }
            Ok(())
        },
        _ => Ok(()),
    }
}

/// Appends to `out` the bytes of `value` in the classic encoding. The
/// bytes in `out` start at position `base` of their message, so the value
/// starts at `base` and the length of `out`.
///
/// A well-typed value whose encoding is short enough for the lengths on the
/// wire is always written.
#[verifier::rlimit(60)]
#[verifier::spinoff_prover]
pub fn encode(endian: Endian, base: usize, value: &Value, out: &mut Vec<u8>) -> (r: Result<
    (),
    Error,
>)
    ensures
        r is Ok ==> final(out)@ == old(out)@ + encoded(
            endian,
            (base + old(out)@.len()) as nat,
            value@,
        ),
        value@.is_well_typed() && encoded(
            endian,
            (base + old(out)@.len()) as nat,
            value@,
        ).len() <= MAX_ENCODED_LEN ==> r is Ok,
    decreases value, 1nat,
{
    match value {
        Value::Value(_) => encode_variant(endian, base, value, out),
        Value::Array(_, _) => encode_array(endian, base, value, out),
        Value::Structure(_) => encode_structure(endian, base, value, out),
        Value::Dict(_, _, _) => encode_dict(endian, base, value, out),
        _ => encode_simple(endian, base, value, out),
    }
}

/// Appends to `out` the bytes of a row of values, one behind the other.
#[verifier::rlimit(60)]
#[verifier::spinoff_prover]
pub fn encode_row(endian: Endian, base: usize, items: &Vec<Value>, out: &mut Vec<u8>) -> (r:
    Result<(), Error>)
    ensures
        r is Ok ==> final(out)@ == old(out)@ + encoded_row(
            endian,
            (base + old(out)@.len()) as nat,
            value_trees(items@),
        ),
        (forall|i: int|
            0 <= i < items.len() ==> (#[trigger] value_trees(items@)[i]).is_well_typed())
            && encoded_row(
            endian,
            (base + old(out)@.len()) as nat,
            value_trees(items@),
        ).len() <= MAX_ENCODED_LEN ==> r is Ok,
    decreases items, 0nat,
{
    let ghost all = value_trees(items@);
    let ghost head = out@;
    let ghost first = (base + out@.len()) as nat;
    let mut i: usize = 0;
    assert(encoded_row(endian, first, all.take(0)) =~= seq![]);
    assert(out@ =~= head + encoded_row(endian, first, all.take(0)));
    while i < items.len()
        invariant
            i <= items.len(),
            all == value_trees(items@),
            head == old(out)@,
            first == base + head.len(),
            out@ == head + encoded_row(endian, first, all.take(i as int)),
        decreases items.len() - i,
    {
        assert(decreases_to!(items => items[i as int]));
        let ghost before = all.take(i as int);
        let ghost row = encoded_row(endian, first, before);
        let r = encode(endian, base, &items[i], out);
        proof {
            assert(all[i as int] == items[i as int]@);
            assert(all.take(i + 1) =~= before.push(all[i as int]));
            lemma_row_push(endian, first, before, all[i as int]);
            lemma_row_grows(endian, first, all, i + 1);
            assert((base + (head + row).len()) as nat == first + row.len());
        }
        if r.is_err() {
            return r;
        }
        assert(out@ =~= head + encoded_row(endian, first, all.take(i + 1)));
        i += 1;
    }
    assert(all.take(items.len() as int) =~= all);
    Ok(())
}

} // verus!
