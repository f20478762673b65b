//! Reading values from bytes in the classic encoding.

use vstd::prelude::*;
use vstd::slice::slice_subrange;
use vstd::utf8::{decode_utf8, encode_utf8_decode_utf8, valid_utf8};
use crate::names::object_path::ObjectPath;
use crate::text::from_utf8;
use crate::wire::context::{padding_at, zeros_between};
use crate::wire::dbus::{
    array_frame, variant_head, decoded, decoded_array, decoded_dict, decoded_structure,
    decoded_variant, decoded_fields, decoded_fixed, decoded_items, decoded_text, fixed_read, is_fixed,
    is_text, i16_of_bits, i32_of_bits, i64_of_bits,
    padding_read, parse_complete, signature_read, string_read,
};
use crate::wire::endian::{u16_from_bytes, u32_from_bytes, u64_from_bytes, Endian};
use crate::wire::error::{Error, Fault};
use crate::wire::grammar::{parse_row, parse_type, MAX_SIGNATURE_LEN};
use crate::wire::signature::{lemma_structure_view, views, Format, Signature, SignatureView};
use crate::wire::value::{
    entry_type, lemma_array_view, lemma_dict_view, lemma_structure_value_view, value_trees,
    Value, ValueView,
};

verus! {

/// The result `r` of reading at `at` is what `expected` says: the value and
/// the position behind it, or an error with the same reason.
pub open spec fn read_as(
    r: Result<(Value, usize), Error>,
    at: usize,
    expected: Result<(ValueView, nat), Fault>,
) -> bool {
    match expected {
        Ok((v, n)) => r matches Ok((value, end)) && value@ == v && end == at + n,
        Err(f) => r matches Err(e) && e.fault() == Some(f),
    }
}

/// The signed number that 16 bits stand for.
fn of_bits16(b: u16) -> (r: i16)
    ensures
        r == i16_of_bits(b),
{
    if b < 0x8000 {
        b as i16
    } else {
        (b as i32 - 0x1_0000) as i16
    }
}

/// The signed number that 32 bits stand for.
fn of_bits32(b: u32) -> (r: i32)
    ensures
        r == i32_of_bits(b),
{
    if b < 0x8000_0000 {
        b as i32
    } else {
        (b as i64 - 0x1_0000_0000) as i32
    }
}

/// The signed number that 64 bits stand for.
fn of_bits64(b: u64) -> (r: i64)
    ensures
        r == i64_of_bits(b),
{
    if b < 0x8000_0000_0000_0000 {
        b as i64
    } else {
        (b as i128 - 0x1_0000_0000_0000_0000) as i64
    }
}

/// Reads the padding in front of a value at `at`: its length.
#[verifier::rlimit(60)]
#[verifier::spinoff_prover]
pub(crate) fn read_padding(
    strict: bool,
    base: usize,
    alignment: usize,
    bytes: &[u8],
    at: usize,
    limit: usize,
) -> (r: Result<usize, Error>)
    requires
        at <= limit <= bytes.len(),
        alignment == 1 || alignment == 2 || alignment == 4 || alignment == 8,
    ensures
        match padding_read(
            strict,
            (base + at) as nat,
            alignment as nat,
            bytes@.subrange(at as int, limit as int),
        ) {
            Ok(p) => r matches Ok(x) && x == p && at + p <= limit,
            Err(f) => r matches Err(e) && e.fault() == Some(f),
        },
{
    let p = padding_at(base, at, alignment);
    if limit - at < p {
        return Err(Error::InsufficientData);
    }
    assert(bytes@.subrange(at as int, limit as int).take(p as int) =~= bytes@.subrange(
        at as int,
        at + p,
    ));
    if strict && !zeros_between(bytes, at, at + p) {
        return Err(Error::PaddingNot0);
    }
    Ok(p)
}

/// Finds a number of `size` bytes behind its padding: where it starts.
#[verifier::rlimit(60)]
#[verifier::spinoff_prover]
fn read_fixed(strict: bool, base: usize, size: usize, bytes: &[u8], at: usize, limit: usize) -> (r:
    Result<usize, Error>)
    requires
        at <= limit <= bytes.len(),
        size == 1 || size == 2 || size == 4 || size == 8,
    ensures
        match fixed_read(
            strict,
            (base + at) as nat,
            size as nat,
            bytes@.subrange(at as int, limit as int),
        ) {
            Ok(p) => r matches Ok(start) && start == at + p && start + size <= limit
                && bytes@.subrange(at as int, limit as int).skip(p as int) == bytes@.subrange(
                start as int,
                limit as int,
            ),
            Err(f) => r matches Err(e) && e.fault() == Some(f),
        },
{
    let p = match read_padding(strict, base, size, bytes, at, limit) {
        Ok(p) => p,
        Err(e) => {
            return Err(e);
        },
    };
    if limit - at - p < size {
        return Err(Error::InsufficientData);
    }
    assert(bytes@.subrange(at as int, limit as int).skip(p as int) =~= bytes@.subrange(
        at + p,
        limit as int,
    ));
    Ok(at + p)
}

/// Reads a string behind its padding: the bytes of its text, and the
/// position behind its terminator.
#[verifier::rlimit(60)]
#[verifier::spinoff_prover]
fn read_string<'a>(
    endian: Endian,
    strict: bool,
    base: usize,
    bytes: &'a [u8],
    at: usize,
    limit: usize,
) -> (r: Result<(&'a [u8], usize), Error>)
    requires
        at <= limit <= bytes.len(),
    ensures
        match string_read(
            endian,
            strict,
            (base + at) as nat,
            bytes@.subrange(at as int, limit as int),
        ) {
            Ok((text, n)) => r matches Ok((t, end)) && t@ == text && end == at + n && end
                <= limit,
            Err(f) => r matches Err(e) && e.fault() == Some(f),
        },
{
    let ghost b = bytes@.subrange(at as int, limit as int);
    let p = match read_padding(strict, base, 4, bytes, at, limit) {
        Ok(p) => p,
        Err(e) => {
            return Err(e);
        },
    };
    if limit - at - p < 4 {
        return Err(Error::InsufficientData);
    }
    let start = at + p;
    assert(b.skip(p as int) =~= bytes@.subrange(start as int, limit as int));
    let n = u32_from_bytes(endian, slice_subrange(bytes, start, limit));
    if ((limit - start - 4) as u64) < n as u64 + 1 {
        return Err(Error::InsufficientData);
    }
    let from = start + 4;
    let to = from + n as usize;
    assert(b.subrange(p as int + 4, p as int + 4 + n as int) =~= bytes@.subrange(
        from as int,
        to as int,
    ));
    assert(b[p as int + 4 + n as int] == bytes@[to as int]);
    if bytes[to] != 0 {
        return Err(Error::IncorrectValue);
    }
    Ok((slice_subrange(bytes, from, to), to + 1))
}

/// Reads a signature: the bytes of its text, and the position behind its
/// terminator.
fn read_signature<'a>(bytes: &'a [u8], at: usize, limit: usize) -> (r: Result<
    (&'a [u8], usize),
    Error,
>)
    requires
        at <= limit <= bytes.len(),
    ensures
        match signature_read(bytes@.subrange(at as int, limit as int)) {
            Ok((text, n)) => r matches Ok((t, end)) && t@ == text && end == at + n && end
                <= limit && n >= 2,
            Err(f) => r matches Err(e) && e.fault() == Some(f),
        },
{
    let ghost b = bytes@.subrange(at as int, limit as int);
    if limit - at < 1 {
        return Err(Error::InsufficientData);
    }
    let n = bytes[at] as usize;
    assert(b[0] == bytes@[at as int]);
    if limit - at < n + 2 {
        return Err(Error::InsufficientData);
    }
    assert(b[n + 1] == bytes@[at + n + 1]);
    if bytes[at + n + 1] != 0 {
        return Err(Error::IncorrectValue);
    }
    assert(b.subrange(1, 1 + n) =~= bytes@.subrange(at + 1, at + 1 + n));
    Ok((slice_subrange(bytes, at + 1, at + 1 + n), at + n + 2))
}

/// The text that the bytes `text` spell, where they spell text, and the
/// empty text otherwise.
pub open spec fn spelled(text: Seq<u8>) -> Seq<char> {
    if valid_utf8(text) {
        decode_utf8(text)
    } else {
        Seq::empty()
    }
}

/// The text of a signature that could not be read, for the error that says
/// so: the text itself where it is text, and nothing otherwise.
pub(crate) fn lossy(text: &[u8]) -> (r: String)
    ensures
        r@ == spelled(text@),
{
    match from_utf8(text) {
        Ok(s) => s.to_owned(),
        Err(_) => String::new(),
    }
}

/// Reads a number, a truth value or the index of a file descriptor.
#[verifier::rlimit(60)]
#[verifier::spinoff_prover]
pub(crate) fn decode_fixed(
    endian: Endian,
    strict: bool,
    base: usize,
    sig: &Signature,
    bytes: &[u8],
    at: usize,
    limit: usize,
) -> (r: Result<(Value, usize), Error>)
    requires
        at <= limit <= bytes.len(),
        is_fixed(sig@),
    ensures
        read_as(
            r,
            at,
            decoded_fixed(
                endian,
                strict,
                (base + at) as nat,
                sig@,
                bytes@.subrange(at as int, limit as int),
            ),
        ),
        r matches Ok((_, end)) ==> end <= limit,
{
    let ghost b = bytes@.subrange(at as int, limit as int);
    match sig {
        Signature::U8 => {
            if limit - at < 1 {
                return Err(Error::InsufficientData);
            }
            assert(b[0] == bytes@[at as int]);
            Ok((Value::U8(bytes[at]), at + 1))
        },
        Signature::Bool => {
            let start = match read_fixed(strict, base, 4, bytes, at, limit) {
                Ok(start) => start,
                Err(e) => {
                    return Err(e);
                },
            };
            let n = u32_from_bytes(endian, slice_subrange(bytes, start, limit));
            if n == 0 {
                Ok((Value::Bool(false), start + 4))
            } else if n == 1 {
                Ok((Value::Bool(true), start + 4))
            } else {
                Err(Error::IncorrectValue)
            }
        },
        Signature::I16 => {
            let start = match read_fixed(strict, base, 2, bytes, at, limit) {
                Ok(start) => start,
                Err(e) => {
                    return Err(e);
                },
            };
            let n = u16_from_bytes(endian, slice_subrange(bytes, start, limit));
            Ok((Value::I16(of_bits16(n)), start + 2))
        },
        Signature::U16 => {
            let start = match read_fixed(strict, base, 2, bytes, at, limit) {
                Ok(start) => start,
                Err(e) => {
                    return Err(e);
                },
            };
            let n = u16_from_bytes(endian, slice_subrange(bytes, start, limit));
            Ok((Value::U16(n), start + 2))
        },
        Signature::I32 => {
            let start = match read_fixed(strict, base, 4, bytes, at, limit) {
                Ok(start) => start,
                Err(e) => {
                    return Err(e);
                },
            };
            let n = u32_from_bytes(endian, slice_subrange(bytes, start, limit));
            Ok((Value::I32(of_bits32(n)), start + 4))
        },
        Signature::U32 => {
            let start = match read_fixed(strict, base, 4, bytes, at, limit) {
                Ok(start) => start,
                Err(e) => {
                    return Err(e);
                },
            };
            let n = u32_from_bytes(endian, slice_subrange(bytes, start, limit));
            Ok((Value::U32(n), start + 4))
        },
        Signature::Fd => {
            let start = match read_fixed(strict, base, 4, bytes, at, limit) {
                Ok(start) => start,
                Err(e) => {
                    return Err(e);
                },
            };
            let n = u32_from_bytes(endian, slice_subrange(bytes, start, limit));
            Ok((Value::Fd(n), start + 4))
        },
        Signature::I64 => {
            let start = match read_fixed(strict, base, 8, bytes, at, limit) {
                Ok(start) => start,
                Err(e) => {
                    return Err(e);
                },
            };
            let n = u64_from_bytes(endian, slice_subrange(bytes, start, limit));
            Ok((Value::I64(of_bits64(n)), start + 8))
        },
        Signature::U64 => {
            let start = match read_fixed(strict, base, 8, bytes, at, limit) {
                Ok(start) => start,
                Err(e) => {
                    return Err(e);
                },
            };
            let n = u64_from_bytes(endian, slice_subrange(bytes, start, limit));
            Ok((Value::U64(n), start + 8))
        },
        Signature::F64 => {
            let start = match read_fixed(strict, base, 8, bytes, at, limit) {
                Ok(start) => start,
                Err(e) => {
                    return Err(e);
                },
            };
            let n = u64_from_bytes(endian, slice_subrange(bytes, start, limit));
            Ok((Value::F64(n), start + 8))
        },
        _ => Err(Error::IncorrectType),
    }
}

/// Reads a string, an object path or a signature.
#[verifier::rlimit(60)]
#[verifier::spinoff_prover]
fn decode_text(
    endian: Endian,
    strict: bool,
    base: usize,
    sig: &Signature,
    bytes: &[u8],
    at: usize,
    limit: usize,
) -> (r: Result<(Value, usize), Error>)
    requires
        at <= limit <= bytes.len(),
        is_text(sig@),
    ensures
        read_as(
            r,
            at,
            decoded_text(
                endian,
                strict,
                (base + at) as nat,
                sig@,
                bytes@.subrange(at as int, limit as int),
            ),
        ),
        r matches Ok((_, end)) ==> end <= limit,
{
    let ghost b = bytes@.subrange(at as int, limit as int);
    match sig {
        Signature::Str => {
            let (text, end) = match read_string(endian, strict, base, bytes, at, limit) {
                Ok(found) => found,
                Err(e) => {
                    return Err(e);
                },
            };
            match from_utf8(text) {
                Ok(s) => Ok((Value::Str(s.to_owned()), end)),
                Err(_) => Err(Error::InvalidUtf8),
            }
        },
        Signature::ObjectPath => {
            let (text, end) = match read_string(endian, strict, base, bytes, at, limit) {
                Ok(found) => found,
                Err(e) => {
                    return Err(e);
                },
            };
            let s = match from_utf8(text) {
                Ok(s) => s,
                Err(_) => {
                    return Err(Error::InvalidUtf8);
                },
            };
            proof {
                vstd::utf8::decode_utf8_encode_utf8(text@);
            }
            match ObjectPath::try_from(s) {
                Ok(path) => Ok((Value::ObjectPath(path), end)),
                Err(_) => Err(Error::IncorrectValue),
            }
        },
        Signature::Signature => {
            let (text, end) = match read_signature(bytes, at, limit) {
                Ok(found) => found,
                Err(e) => {
                    return Err(e);
                },
            };
            match parse_row(text) {
                Some(row) => Ok((Value::Signature(row), end)),
                None => Err(Error::InvalidSignature(lossy(text))),
            }
        },
        _ => Err(Error::IncorrectType),
    }
}

/// Reads `text` as one complete type, from its first byte to its last.
pub(crate) fn parse_single(text: &[u8]) -> (r: Option<Signature>)
    ensures
        match parse_complete(text@) {
            Some(v) => r matches Some(sig) && sig@ == v,
            None => r is None,
        },
{
    assert(text@.skip(0) =~= text@);
    match parse_type(text, 0) {
        Some((sig, end)) => if end == text.len() && text.len() <= MAX_SIGNATURE_LEN {
            Some(sig)
        } else {
            None
        },
        None => None,
    }
}

/// What is read when `done` was read before and `rest` is read behind it.
pub open spec fn items_behind(done: Seq<ValueView>, rest: Result<Seq<ValueView>, Fault>) -> Result<
    Seq<ValueView>,
    Fault,
> {
    match rest {
        Ok(more) => Ok(done + more),
        Err(f) => Err(f),
    }
}

/// What is read when `done` was read before, in `taken` bytes, and `rest`
/// is read behind it.
pub open spec fn fields_behind(
    done: Seq<ValueView>,
    taken: nat,
    rest: Result<(Seq<ValueView>, nat), Fault>,
) -> Result<(Seq<ValueView>, nat), Fault> {
    match rest {
        Ok((more, n)) => Ok((done + more, taken + n)),
        Err(f) => Err(f),
    }
}

/// Reads the head of a variant: the signature of the value in it, and the
/// position behind the signature.
fn read_variant_head(bytes: &[u8], at: usize, limit: usize) -> (r: Result<(Signature, usize), Error>)
    requires
        at <= limit <= bytes.len(),
    ensures
        match variant_head(bytes@.subrange(at as int, limit as int)) {
            Ok((n, inner)) => r matches Ok((sig, behind)) && sig@ == inner && behind == at + n
                && at < behind <= limit,
            Err(f) => r matches Err(e) && e.fault() == Some(f),
        },
{
    let (text, behind) = match read_signature(bytes, at, limit) {
        Ok(found) => found,
        Err(e) => {
            return Err(e);
        },
    };
    match parse_single(text) {
        Some(sig) => Ok((sig, behind)),
        None => Err(Error::InvalidSignature(lossy(text))),
    }
}

/// Reads a variant: the signature of the value in it, and the value.
#[verifier::rlimit(60)]
#[verifier::spinoff_prover]
fn decode_variant(
    endian: Endian,
    strict: bool,
    base: usize,
    sig: &Signature,
    bytes: &[u8],
    at: usize,
    limit: usize,
) -> (r: Result<(Value, usize), Error>)
    requires
        at <= limit <= bytes.len(),
        sig is Variant,
    ensures
        read_as(
            r,
            at,
            decoded_variant(
                endian,
                strict,
                (base + at) as nat,
                sig@,
                bytes@.subrange(at as int, limit as int),
            ),
        ),
        r matches Ok((_, end)) ==> end <= limit,
    decreases limit - at, sig, 2nat,
{
    let ghost b = bytes@.subrange(at as int, limit as int);
    let (inner_sig, behind) = match read_variant_head(bytes, at, limit) {
        Ok(head) => head,
        Err(e) => {
            return Err(e);
        },
    };
    assert(b.skip(behind - at) =~= bytes@.subrange(behind as int, limit as int));
    match decode(endian, strict, base, &inner_sig, bytes, behind, limit) {
        Ok((inner, end)) => Ok((Value::Value(Box::new(inner)), end)),
        Err(e) => Err(e),
    }
}

/// Reads the elements of an array, which fill the bytes from `at` up to
/// `limit`.
#[verifier::rlimit(60)]
#[verifier::spinoff_prover]
fn decode_items(
    endian: Endian,
    strict: bool,
    base: usize,
    element: &Signature,
    bytes: &[u8],
    at: usize,
    limit: usize,
) -> (r: Result<Vec<Value>, Error>)
    requires
        at <= limit <= bytes.len(),
    ensures
        match decoded_items(
            endian,
            strict,
            (base + at) as nat,
            element@,
            bytes@.subrange(at as int, limit as int),
        ) {
            Ok(items) => r matches Ok(values) && value_trees(values@) == items,
            Err(f) => r matches Err(e) && e.fault() == Some(f),
        },
    decreases limit - at, element, 4nat,
{
    let ghost whole = decoded_items(
        endian,
        strict,
        (base + at) as nat,
        element@,
        bytes@.subrange(at as int, limit as int),
    );
    let mut values: Vec<Value> = Vec::new();
    let mut cur: usize = at;
    assert(value_trees(values@) =~= seq![]);
    assert(whole == items_behind(value_trees(values@), whole)) by {
        if let Ok(more) = whole {
            assert(value_trees(values@) + more =~= more);
        }
    }
    while cur < limit
        invariant
            at <= cur <= limit <= bytes.len(),
            whole == decoded_items(
                endian,
                strict,
                (base + at) as nat,
                element@,
                bytes@.subrange(at as int, limit as int),
            ),
            whole == items_behind(
                value_trees(values@),
                decoded_items(
                    endian,
                    strict,
                    (base + cur) as nat,
                    element@,
                    bytes@.subrange(cur as int, limit as int),
                ),
            ),
        decreases limit - cur,
    {
        let ghost window = bytes@.subrange(cur as int, limit as int);
        let ghost done = value_trees(values@);
        assert(window.len() > 0);
        match decode(endian, strict, base, element, bytes, cur, limit) {
            Err(e) => {
                return Err(e);
            },
            Ok((value, end)) => {
                if end == cur {
                    return Err(Error::IncorrectValue);
                }
                let ghost v = value@;
                values.push(value);
                proof {
                    assert(value_trees(values@) =~= done + seq![v]);
                    assert(window.skip(end - cur) =~= bytes@.subrange(end as int, limit as int));
                    let rest = decoded_items(
                        endian,
                        strict,
                        (base + end) as nat,
                        element@,
                        bytes@.subrange(end as int, limit as int),
                    );
                    if let Ok(more) = rest {
                        assert(done + (seq![v] + more) =~= (done + seq![v]) + more);
                    }
                }
                cur = end;
            },
        }
    }
    assert(value_trees(values@) + Seq::<ValueView>::empty() =~= value_trees(values@));
    Ok(values)
}

/// Reads the frame of an array: where its elements start, and where they
/// end.
#[verifier::rlimit(60)]
#[verifier::spinoff_prover]
fn read_array_frame(
    endian: Endian,
    strict: bool,
    base: usize,
    alignment: usize,
    bytes: &[u8],
    at: usize,
    limit: usize,
) -> (r: Result<(usize, usize), Error>)
    requires
        at <= limit <= bytes.len(),
        alignment == 1 || alignment == 2 || alignment == 4 || alignment == 8,
    ensures
        match array_frame(
            endian,
            strict,
            (base + at) as nat,
            alignment as nat,
            bytes@.subrange(at as int, limit as int),
        ) {
            Ok((first, n)) => r matches Ok((from, to)) && from == at + first && to == from + n
                && at < from && to <= limit,
            Err(f) => r matches Err(e) && e.fault() == Some(f),
        },
{
    let ghost b = bytes@.subrange(at as int, limit as int);
    let start = match read_fixed(strict, base, 4, bytes, at, limit) {
        Ok(start) => start,
        Err(e) => {
            return Err(e);
        },
    };
    let n = u32_from_bytes(endian, slice_subrange(bytes, start, limit));
    let behind = start + 4;
    assert(b.skip(behind - at) =~= bytes@.subrange(behind as int, limit as int));
    let q = match read_padding(strict, base, alignment, bytes, behind, limit) {
        Ok(q) => q,
        Err(e) => {
            return Err(e);
        },
    };
    if ((limit - behind - q) as u64) < n as u64 {
        return Err(Error::InsufficientData);
    }
    let first = behind + q;
    Ok((first, first + n as usize))
}

/// Reads an array: the length of its elements in bytes, and the elements.
#[verifier::rlimit(60)]
#[verifier::spinoff_prover]
fn decode_array(
    endian: Endian,
    strict: bool,
    base: usize,
    sig: &Signature,
    bytes: &[u8],
    at: usize,
    limit: usize,
) -> (r: Result<(Value, usize), Error>)
    requires
        at <= limit <= bytes.len(),
        sig is Array,
    ensures
        read_as(
            r,
            at,
            decoded_array(
                endian,
                strict,
                (base + at) as nat,
                sig@,
                bytes@.subrange(at as int, limit as int),
            ),
        ),
        r matches Ok((_, end)) ==> end <= limit,
    decreases limit - at, sig, 2nat,
{
    let ghost b = bytes@.subrange(at as int, limit as int);
    match sig {
        Signature::Array(element) => {
            let (first, end) = match read_array_frame(
                endian,
                strict,
                base,
                element.alignment(Format::DBus),
                bytes,
                at,
                limit,
            ) {
                Ok(frame) => frame,
                Err(e) => {
                    return Err(e);
                },
            };
            assert(b.subrange(first - at, end - at) =~= bytes@.subrange(first as int, end as int));
            assert(decreases_to!(sig => sig->Array_0));
            match decode_items(endian, strict, base, element, bytes, first, end) {
                Ok(items) => {
                    proof {
                        lemma_array_view(**element, items);
                    }
                    Ok((Value::Array(element.duplicate(), items), end))
                },
                Err(e) => Err(e),
            }
        },
        _ => Err(Error::IncorrectType),
    }
}

/// Reads a dictionary: the length of its entries in bytes, and the
/// entries, each of which is laid out as a structure of key and value.
#[verifier::rlimit(60)]
#[verifier::spinoff_prover]
fn decode_dict(
    endian: Endian,
    strict: bool,
    base: usize,
    sig: &Signature,
    bytes: &[u8],
    at: usize,
    limit: usize,
) -> (r: Result<(Value, usize), Error>)
    requires
        at <= limit <= bytes.len(),
        sig is Dict,
    ensures
        read_as(
            r,
            at,
            decoded_dict(
                endian,
                strict,
                (base + at) as nat,
                sig@,
                bytes@.subrange(at as int, limit as int),
            ),
        ),
        r matches Ok((_, end)) ==> end <= limit,
    decreases limit - at, sig, 2nat,
{
    let ghost b = bytes@.subrange(at as int, limit as int);
    match sig {
        Signature::Dict { key, value } => {
            let (first, end) = match read_array_frame(endian, strict, base, 8, bytes, at, limit) {
                Ok(frame) => frame,
                Err(e) => {
                    return Err(e);
                },
            };
            assert(b.subrange(first - at, end - at) =~= bytes@.subrange(first as int, end as int));
            let mut pair: Vec<Signature> = Vec::new();
            pair.push(key.duplicate());
            pair.push(value.duplicate());
            proof {
                lemma_structure_view(pair);
                assert(views(pair@) =~= seq![key@, value@]);
            }
            let entry = Signature::Structure(pair);
            assert(entry@ == entry_type(key@, value@));
            match decode_items(endian, strict, base, &entry, bytes, first, end) {
                Ok(entries) => {
                    proof {
                        lemma_dict_view(**key, **value, entries);
                    }
                    Ok((Value::Dict(key.duplicate(), value.duplicate(), entries), end))
                },
                Err(e) => Err(e),
            }
        },
        _ => Err(Error::IncorrectType),
    }
}

/// Reads the fields of a structure, one behind the other: the fields, and
/// the position behind the last.
#[verifier::rlimit(60)]
#[verifier::spinoff_prover]
fn decode_fields(
    endian: Endian,
    strict: bool,
    base: usize,
    fields: &Vec<Signature>,
    bytes: &[u8],
    at: usize,
    limit: usize,
) -> (r: Result<(Vec<Value>, usize), Error>)
    requires
        at <= limit <= bytes.len(),
    ensures
        match decoded_fields(
            endian,
            strict,
            (base + at) as nat,
            views(fields@),
            bytes@.subrange(at as int, limit as int),
        ) {
            Ok((items, n)) => r matches Ok((values, end)) && value_trees(values@) == items
                && end == at + n && end <= limit,
            Err(f) => r matches Err(e) && e.fault() == Some(f),
        },
    decreases limit - at, fields, 4nat,
{
    let ghost all = views(fields@);
    let ghost whole = decoded_fields(
        endian,
        strict,
        (base + at) as nat,
        all,
        bytes@.subrange(at as int, limit as int),
    );
    let mut values: Vec<Value> = Vec::new();
    let mut cur: usize = at;
    let mut i: usize = 0;
    assert(value_trees(values@) =~= seq![]);
    assert(all.skip(0) =~= all);
    assert(whole == fields_behind(value_trees(values@), 0, whole)) by {
        if let Ok((more, n)) = whole {
            assert(value_trees(values@) + more =~= more);
        }
    }
    while i < fields.len()
        invariant
            i <= fields.len(),
            at <= cur <= limit <= bytes.len(),
            all == views(fields@),
            whole == decoded_fields(
                endian,
                strict,
                (base + at) as nat,
                all,
                bytes@.subrange(at as int, limit as int),
            ),
            whole == fields_behind(
                value_trees(values@),
                (cur - at) as nat,
                decoded_fields(
                    endian,
                    strict,
                    (base + cur) as nat,
                    all.skip(i as int),
                    bytes@.subrange(cur as int, limit as int),
                ),
            ),
        decreases fields.len() - i,
    {
        let ghost window = bytes@.subrange(cur as int, limit as int);
        let ghost done = value_trees(values@);
        let ghost left = all.skip(i as int);
        assert(left.len() > 0);
        assert(left[0] == fields[i as int]@);
        assert(left.drop_first() =~= all.skip(i + 1));
        assert(decreases_to!(fields => fields[i as int]));
        match decode(endian, strict, base, &fields[i], bytes, cur, limit) {
            Err(e) => {
                return Err(e);
            },
            Ok((value, end)) => {
                let ghost v = value@;
                values.push(value);
                proof {
                    assert(value_trees(values@) =~= done + seq![v]);
                    assert(window.skip(end - cur) =~= bytes@.subrange(end as int, limit as int));
                    let rest = decoded_fields(
                        endian,
                        strict,
                        (base + end) as nat,
                        all.skip(i + 1),
                        bytes@.subrange(end as int, limit as int),
                    );
                    if let Ok((more, m)) = rest {
                        assert(done + (seq![v] + more) =~= (done + seq![v]) + more);
                    }
                }
                cur = end;
                i += 1;
            },
        }
    }
    assert(all.skip(fields.len() as int) =~= seq![]);
    assert(value_trees(values@) + Seq::<ValueView>::empty() =~= value_trees(values@));
    Ok((values, cur))
}

/// Reads a structure: its fields, one behind the other.
#[verifier::rlimit(60)]
#[verifier::spinoff_prover]
fn decode_structure(
    endian: Endian,
    strict: bool,
    base: usize,
    sig: &Signature,
    bytes: &[u8],
    at: usize,
    limit: usize,
) -> (r: Result<(Value, usize), Error>)
    requires
        at <= limit <= bytes.len(),
        sig is Structure,
    ensures
        read_as(
            r,
            at,
            decoded_structure(
                endian,
                strict,
                (base + at) as nat,
                sig@,
                bytes@.subrange(at as int, limit as int),
            ),
        ),
        r matches Ok((_, end)) ==> end <= limit,
    decreases limit - at, sig, 2nat,
{
    let ghost b = bytes@.subrange(at as int, limit as int);
    match sig {
        Signature::Structure(fields) => {
            proof {
                lemma_structure_view(*fields);
            }
            if fields.len() == 0 {
                return Err(Error::UnsupportedType(sig.to_string()));
            }
            let p = match read_padding(strict, base, 8, bytes, at, limit) {
                Ok(p) => p,
                Err(e) => {
                    return Err(e);
                },
            };
            assert(b.skip(p as int) =~= bytes@.subrange(at + p, limit as int));
            assert(decreases_to!(sig => sig->Structure_0));
            match decode_fields(endian, strict, base, fields, bytes, at + p, limit) {
                Ok((values, end)) => {
                    proof {
                        lemma_structure_value_view(values);
                    }
                    Ok((Value::Structure(values), end))
                },
                Err(e) => Err(e),
            }
        },
        _ => Err(Error::IncorrectType),
    }
}

/// Reads from `bytes` the value of type `sig` that starts at `at` and ends
/// before `limit`, in the classic encoding. The first byte of `bytes` stands
/// at position `base` of its message. A strict reader refuses padding that
/// is not zero.
///
/// Gives the value and the position behind it. Malformed bytes give an
/// error and never a panic.
#[verifier::rlimit(60)]
#[verifier::spinoff_prover]
pub fn decode(
    endian: Endian,
    strict: bool,
    base: usize,
    sig: &Signature,
    bytes: &[u8],
    at: usize,
    limit: usize,
) -> (r: Result<(Value, usize), Error>)
    requires
        at <= limit <= bytes.len(),
    ensures
        read_as(
            r,
            at,
            decoded(
                endian,
                strict,
                (base + at) as nat,
                sig@,
                bytes@.subrange(at as int, limit as int),
            ),
        ),
        r matches Ok((_, end)) ==> end <= limit,
    decreases limit - at, sig, 3nat,
{
    match sig {
        Signature::Variant => decode_variant(endian, strict, base, sig, bytes, at, limit),
        Signature::Array(_) => decode_array(endian, strict, base, sig, bytes, at, limit),
        Signature::Structure(_) => decode_structure(endian, strict, base, sig, bytes, at, limit),
        Signature::Str | Signature::ObjectPath | Signature::Signature => decode_text(
            endian,
            strict,
            base,
            sig,
            bytes,
            at,
            limit,
        ),
        Signature::Dict { .. } => decode_dict(endian, strict, base, sig, bytes, at, limit),
        Signature::Unit | Signature::Maybe(_) => Err(Error::UnsupportedType(sig.to_string())),
        _ => decode_fixed(endian, strict, base, sig, bytes, at, limit),
    }
}

/// Reads the values of the types `fields` that fill `bytes` from its first
/// byte on, where `bytes` starts at position 0 of its message.
pub fn decode_fields_of(endian: Endian, strict: bool, fields: &Vec<Signature>, bytes: &[u8]) -> (r:
    Result<Vec<Value>, Error>)
    ensures
        match decoded_fields(endian, strict, 0, views(fields@), bytes@) {
            Ok((values, _)) => r matches Ok(v) && value_trees(v@) == values,
            Err(f) => r matches Err(e) && e.fault() == Some(f),
        },
{
    assert(bytes@.subrange(0, bytes.len() as int) =~= bytes@);
    match decode_fields(endian, strict, 0, fields, bytes, 0, bytes.len()) {
        Ok((values, _)) => Ok(values),
        Err(e) => Err(e),
    }
}

} // verus!
