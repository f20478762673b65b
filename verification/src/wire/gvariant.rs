//! The GVariant encoding.
//!
//! Numbers are laid out as in the classic encoding, but a truth value takes
//! one byte. Text has no length in front: it ends at its zero byte. A variant
//! is the value, a zero byte, and the signature of the value. Containers
//! have no length in front either: a container takes all the bytes it is
//! given, and where its members can differ in length, a table of their ends
//! follows them. A value that may be there or not is declined.

use vstd::prelude::*;
use vstd::slice::slice_subrange;
use vstd::utf8::{decode_utf8, encode_utf8, valid_utf8};
use crate::names::object_path::{is_object_path, ObjectPath};
use crate::text::{
    append_bytes, before_nul, find_last_nul, first_nul_at, from_utf8, last_nul, last_nul_at,
    lemma_before_nul_is, lemma_last_nul_is, until_nul,
};
use crate::wire::context::{padding, padding_at, push_zeros, zeros};
use crate::wire::de::{
    decode_fixed, fields_behind, items_behind, lossy, parse_single, read_as, read_padding,
};
use crate::wire::dbus::{
    decoded_fixed, is_fixed, lemma_fixed_roundtrip, lemma_padding_read,
    lemma_signature_complete, padding_read, parse_complete, MAX_ENCODED_LEN,
};
use crate::wire::endian::Endian;
use crate::wire::error::{Error, Fault};
use crate::wire::grammar::{
    lemma_parse_all_complete, lemma_parse_complete, parse_row, parse_types, MAX_SIGNATURE_LEN,
};
use crate::wire::ser::{encode_fixed, write_row_text, write_signature_of, TOO_LARGE};
use crate::wire::offsets::{
    as_nats, choose_width, is_boundary, is_fixed_size, lemma_alignment_is_boundary,
    lemma_entry_alignment, lemma_table_len, offset_at, offset_width, read_offset, read_width,
    table, table_back, width_in, write_table,
};
use crate::wire::signature::{
    lemma_structure_view, max_nat, texts, views, Format, Signature, SignatureView,
};
use crate::wire::gvariant_laws::{lemma_fixed_structure, lemma_sequence, lemma_structure};
use crate::wire::value::{
    entry_type, lemma_array_view, lemma_dict_view, lemma_structure_value_view, value_trees, Value,
    ValueView,
};

verus! {

/// The value is one that this encoding reads back: no string in it, at
/// whatever depth, has a zero byte, which would end it early.
pub open spec fn is_supported(v: ValueView) -> bool
    decreases v,
{
    match v {
        ValueView::Array(_, items) => forall|i: int|
            0 <= i < items.len() ==> is_supported(#[trigger] items[i]),
        ValueView::Dict(_, _, entries) => forall|i: int|
            0 <= i < entries.len() ==> is_supported(#[trigger] entries[i]),
        ValueView::Structure(fields) => forall|i: int|
            0 <= i < fields.len() ==> is_supported(#[trigger] fields[i]),
        ValueView::Value(inner) => is_supported(*inner),
        ValueView::Str(s) => !encode_utf8(s).contains(0u8),
        _ => true,
    }
}

/// The bytes of the value `v` where they start at position `pos`: the
/// padding that its type asks for at that position, then the value itself.
///
/// An array is its elements, one behind the other, and a dictionary is
/// the array of its entries. Where the elements can differ in length, the
/// table of their ends follows them. A structure is its fields, one behind
/// the other. Where all of them have a fixed size, zeros lead to the next
/// multiple of the alignment; else the ends of the fields that can differ in
/// length follow, but for that of the last field, from the last to the
/// first.
pub open spec fn encoded(endian: Endian, pos: nat, v: ValueView) -> Seq<u8>
    decreases v, 0nat,
{
    match v {
        ValueView::Bool(b) => seq![if b { 1u8 } else { 0u8 }],
        ValueView::Str(s) => encode_utf8(s) + seq![0u8],
        ValueView::ObjectPath(p) => encode_utf8(p) + seq![0u8],
        ValueView::Signature(row) => texts(row) + seq![0u8],
        ValueView::Value(inner) => {
            let p = padding(pos, 8);
            zeros(p) + encoded(endian, pos + p, *inner) + seq![0u8] + inner.signature().text()
        },
        ValueView::Array(element, items) => array_bytes(endian, pos, element, items),
        ValueView::Dict(key, value, entries) => array_bytes(
            endian,
            pos,
            entry_type(key, value),
            entries,
        ),
        ValueView::Structure(fields) => {
            let a = v.signature().alignment(Format::GVariant);
            let p = padding(pos, a);
            let body = row(endian, pos + p, fields);
            if is_fixed_size(v.signature()) {
                zeros(p) + body + zeros(padding(pos + p + body.len(), a))
            } else {
                let ends = framed_ends(endian, pos + p, fields, true);
                zeros(p) + body + table_back(ends, offset_width(body.len(), ends.len()))
            }
        },
        _ => crate::wire::dbus::encoded(endian, pos, v),
    }
}

/// The bytes of an array of the values `items` of the type `element`.
pub open spec fn array_bytes(
    endian: Endian,
    pos: nat,
    element: SignatureView,
    items: Seq<ValueView>,
) -> Seq<u8>
    decreases items, 2nat,
{
    let p = padding(pos, element.alignment(Format::GVariant));
    let body = row(endian, pos + p, items);
    if is_fixed_size(element) || items.len() == 0 {
        zeros(p) + body
    } else {
        zeros(p) + body + table(
            row_ends(endian, pos + p, items),
            offset_width(body.len(), items.len()),
        )
    }
}

/// The bytes of the values `items`, one behind the other, in a container
/// that starts at position `start`.
pub open spec fn row(endian: Endian, start: nat, items: Seq<ValueView>) -> Seq<u8>
    decreases items, 0nat,
{
    if items.len() == 0 {
        seq![]
    } else {
        let before = row(endian, start, items.drop_last());
        before + encoded(endian, start + before.len(), items.last())
    }
}

/// Where each of the values `items` ends, counted from the start of their
/// container.
pub open spec fn row_ends(endian: Endian, start: nat, items: Seq<ValueView>) -> Seq<nat>
    decreases items, 1nat,
{
    if items.len() == 0 {
        seq![]
    } else {
        row_ends(endian, start, items.drop_last()).push(row(endian, start, items).len())
    }
}

/// Where those of the fields `members` end whose length can differ, counted
/// from the start of their structure. The last field of a whole structure
/// is left out: it ends where the table starts.
pub open spec fn framed_ends(
    endian: Endian,
    start: nat,
    members: Seq<ValueView>,
    whole: bool,
) -> Seq<nat>
    decreases members, 1nat,
{
    if members.len() == 0 {
        seq![]
    } else {
        let before = framed_ends(endian, start, members.drop_last(), false);
        if whole || is_fixed_size(members.last().signature()) {
            before
        } else {
            before.push(row(endian, start, members).len())
        }
    }
}

/// The text that stands at the start of `b`, up to its zero byte.
pub open spec fn text_read(b: Seq<u8>) -> Result<(Seq<u8>, nat), Fault> {
    match before_nul(b) {
        Some(text) => Ok((text, text.len() + 1)),
        None => Err(Fault::InsufficientData),
    }
}

/// The string, object path or signature that stands at the start of `b`.
pub open spec fn decoded_text(sig: SignatureView, b: Seq<u8>) -> Result<(ValueView, nat), Fault> {
    match sig {
        SignatureView::Str => match text_read(b) {
            Err(f) => Err(f),
            Ok((text, n)) => if valid_utf8(text) {
                Ok((ValueView::Str(decode_utf8(text)), n))
            } else {
                Err(Fault::InvalidUtf8)
            },
        },
        SignatureView::ObjectPath => match text_read(b) {
            Err(f) => Err(f),
            Ok((text, n)) => if !valid_utf8(text) {
                Err(Fault::InvalidUtf8)
            } else if !is_object_path(text) {
                Err(Fault::IncorrectValue)
            } else {
                Ok((ValueView::ObjectPath(decoded_path(text)), n))
            },
        },
        _ => match text_read(b) {
            Err(f) => Err(f),
            Ok((text, n)) => match parse_types(text) {
                Some(row) => Ok((ValueView::Signature(row), n)),
                None => Err(Fault::InvalidSignature),
            },
        },
    }
}

/// The text that the bytes of a path spell.
pub open spec fn decoded_path(text: Seq<u8>) -> Seq<char> {
    decode_utf8(text)
}

/// The parts of a variant that fills `b`: the length of the padding in
/// front of it, the length of the value in it, and the signature of the
/// value, which stands behind the last zero byte.
pub open spec fn variant_frame(strict: bool, pos: nat, b: Seq<u8>) -> Result<
    (nat, nat, SignatureView),
    Fault,
> {
    match padding_read(strict, pos, 8, b) {
        Err(f) => Err(f),
        Ok(p) => {
            let frame = b.skip(p as int);
            match last_nul(frame) {
                None => Err(Fault::InsufficientData),
                Some(z) => if z < 0 {
                    Err(Fault::InsufficientData)
                } else {
                    match parse_complete(frame.skip(z + 1)) {
                        None => Err(Fault::InvalidSignature),
                        Some(inner_sig) => Ok((p, z as nat, inner_sig)),
                    }
                },
            }
        },
    }
}

/// The variant that fills `b`: the value in it, which stands in front of
/// the last zero byte and takes all the bytes up to there.
#[verifier::opaque]
pub open spec fn decoded_variant(endian: Endian, strict: bool, pos: nat, b: Seq<u8>) -> Result<
    (ValueView, nat),
    Fault,
>
    decreases b.len(), SignatureView::Variant, 0nat,
{
    match variant_frame(strict, pos, b) {
        Err(f) => Err(f),
        Ok((p, z, inner_sig)) => if !(p + z < b.len()) {
            Err(Fault::InsufficientData)
        } else {
            match decoded(endian, strict, pos + p, inner_sig, b.subrange(p as int, p as int + z as int)) {
                Err(f) => Err(f),
                Ok((inner, m)) => if m == z {
                    Ok((ValueView::Value(Box::new(inner)), b.len()))
                } else {
                    Err(Fault::ExcessData)
                },
            }
        },
    }
}

/// Where the table of an array starts whose members and table fill
/// `frame`, and how many bytes each of its offsets takes. The last offset of
/// the table is where the last element ends, and there the table starts.
pub open spec fn array_table(frame: Seq<u8>) -> Result<(nat, nat), Fault> {
    let w = width_in(frame.len());
    if frame.len() > MAX_ENCODED_LEN {
        Err(Fault::UnsupportedType)
    } else if frame.len() < w {
        Err(Fault::InsufficientData)
    } else {
        let last = offset_at(frame, frame.len() - w, w);
        if last > frame.len() - w || (frame.len() - last) % (w as int) != 0 {
            Err(Fault::IncorrectValue)
        } else {
            Ok((last, w))
        }
    }
}

/// The element of an array of the type `sig` that stands at the start of
/// `window`, or the entry of the dictionary of the type `sig`.
#[verifier::opaque]
pub open spec fn decoded_element(
    endian: Endian,
    strict: bool,
    pos: nat,
    sig: SignatureView,
    entry: bool,
    window: Seq<u8>,
) -> Result<(ValueView, nat), Fault>
    decreases window.len(), sig, (if entry {
        2nat
    } else {
        10nat
    }) + 2 * window.len(),
{
    if entry {
        decoded_pair(endian, strict, pos, sig, window)
    } else {
        decoded(endian, strict, pos, sig, window)
    }
}

/// The elements of a fixed size that fill all of `window`, which starts at
/// position `pos`.
#[verifier::opaque]
pub open spec fn packed_items(
    endian: Endian,
    strict: bool,
    pos: nat,
    sig: SignatureView,
    entry: bool,
    window: Seq<u8>,
) -> Result<Seq<ValueView>, Fault>
    decreases window.len(), sig, (if entry {
        3nat
    } else {
        11nat
    }) + 2 * window.len(),
{
    if window.len() == 0 {
        Ok(seq![])
    } else {
        match decoded_element(endian, strict, pos, sig, entry, window) {
            Err(f) => Err(f),
            Ok((first, n)) => if !(0 < n <= window.len()) {
                Err(Fault::IncorrectValue)
            } else {
                match packed_items(endian, strict, pos + n, sig, entry, window.skip(n as int)) {
                    Err(f) => Err(f),
                    Ok(rest) => Ok(seq![first] + rest),
                }
            },
        }
    }
}

/// The elements whose ends the table of `frame` gives from `slot` on, the
/// first of which starts at `cursor`. The frame starts at position `start`;
/// its table starts at `table_start`, and each offset in it takes `w` bytes.
/// Every element takes all the bytes up to its end.
#[verifier::opaque]
pub open spec fn framed_items(
    endian: Endian,
    strict: bool,
    start: nat,
    sig: SignatureView,
    entry: bool,
    frame: Seq<u8>,
    table_start: nat,
    w: nat,
    slot: nat,
    cursor: nat,
) -> Result<Seq<ValueView>, Fault>
    decreases frame.len(), sig, (if entry {
        3nat
    } else {
        11nat
    }) + 2 * frame.len() - (if slot <= frame.len() {
        slot
    } else {
        frame.len()
    }),
{
    if w == 0 || slot + w > frame.len() {
        Ok(seq![])
    } else {
        let end = offset_at(frame, slot as int, w);
        if !(cursor <= end && end <= table_start && table_start <= slot) {
            Err(Fault::IncorrectValue)
        } else {
            match decoded_element(
                endian,
                strict,
                start + cursor,
                sig,
                entry,
                frame.subrange(cursor as int, end as int),
            ) {
                Err(f) => Err(f),
                Ok((first, n)) => if n != end - cursor {
                    Err(Fault::ExcessData)
                } else {
                    match framed_items(
                        endian,
                        strict,
                        start,
                        sig,
                        entry,
                        frame,
                        table_start,
                        w,
                        slot + w,
                        end,
                    ) {
                        Err(f) => Err(f),
                        Ok(rest) => Ok(seq![first] + rest),
                    }
                },
            }
        }
    }
}

/// The array or the dictionary of the type `sig` that fills `b`.
#[verifier::opaque]
pub open spec fn decoded_sequence(
    endian: Endian,
    strict: bool,
    pos: nat,
    sig: SignatureView,
    b: Seq<u8>,
) -> Result<(ValueView, nat), Fault>
    decreases b.len(), sig, 8 + 2 * b.len(),
{
    match sig {
        SignatureView::Array(element) => match padding_read(
            strict,
            pos,
            element.alignment(Format::GVariant),
            b,
        ) {
            Err(f) => Err(f),
            Ok(p) => if p > b.len() {
                Err(Fault::InsufficientData)
            } else {
                match sequence_items(endian, strict, pos + p, *element, false, b.skip(p as int)) {
                    Err(f) => Err(f),
                    Ok(items) => Ok((ValueView::Array(*element, items), b.len())),
                }
            },
        },
        SignatureView::Dict(key, value) => match padding_read(
            strict,
            pos,
            entry_type(*key, *value).alignment(Format::GVariant),
            b,
        ) {
            Err(f) => Err(f),
            Ok(p) => if p > b.len() {
                Err(Fault::InsufficientData)
            } else {
                match sequence_items(endian, strict, pos + p, sig, true, b.skip(p as int)) {
                    Err(f) => Err(f),
                    Ok(entries) => Ok((ValueView::Dict(*key, *value, entries), b.len())),
                }
            },
        },
        _ => Err(Fault::UnsupportedType),
    }
}

/// The type of the members of an array of the elements `sig`, or of the
/// dictionary `sig`.
pub open spec fn member_type(sig: SignatureView, entry: bool) -> SignatureView {
    if entry {
        match sig {
            SignatureView::Dict(key, value) => entry_type(*key, *value),
            _ => sig,
        }
    } else {
        sig
    }
}

/// The members of an array or a dictionary that fill `frame`: one behind
/// the other where they have a fixed size, and each up to its end in the
/// table where they have none. An empty frame holds no members.
#[verifier::opaque]
pub open spec fn sequence_items(
    endian: Endian,
    strict: bool,
    start: nat,
    sig: SignatureView,
    entry: bool,
    frame: Seq<u8>,
) -> Result<Seq<ValueView>, Fault>
    decreases frame.len(), sig, (if entry {
        4nat
    } else {
        12nat
    }) + 2 * frame.len(),
{
    if is_fixed_size(member_type(sig, entry)) {
        packed_items(endian, strict, start, sig, entry, frame)
    } else if frame.len() == 0 {
        Ok(seq![])
    } else {
        match array_table(frame) {
            Err(f) => Err(f),
            Ok((table_start, w)) => framed_items(
                endian,
                strict,
                start,
                sig,
                entry,
                frame,
                table_start,
                w,
                table_start,
                0,
            ),
        }
    }
}

/// The entry of the dictionary of the type `sig` that stands at the start
/// of `b`: a structure of the key and the value.
///
/// Where the key has a fixed size, the value follows it; a value without
/// a fixed size takes all the bytes that are left. Where the key has none,
/// its end is the offset in the last bytes of the entry, and the value takes
/// all the bytes between the key and that offset.
#[verifier::opaque]
pub open spec fn decoded_pair(
    endian: Endian,
    strict: bool,
    pos: nat,
    sig: SignatureView,
    b: Seq<u8>,
) -> Result<(ValueView, nat), Fault>
    decreases b.len(), sig, 1nat,
{
    match sig {
        SignatureView::Dict(key, value) => {
            let a = entry_type(*key, *value).alignment(Format::GVariant);
            match padding_read(strict, pos, a, b) {
                Err(f) => Err(f),
                Ok(p) => if p > b.len() {
                    Err(Fault::InsufficientData)
                } else {
                    let frame = b.skip(p as int);
                    let start = pos + p;
                    if is_fixed_size(*key) {
                        match decoded(endian, strict, start, *key, frame) {
                            Err(f) => Err(f),
                            Ok((k, n)) => if n > frame.len() {
                                Err(Fault::InsufficientData)
                            } else {
                                match decoded(
                                    endian,
                                    strict,
                                    start + n,
                                    *value,
                                    frame.skip(n as int),
                                ) {
                                    Err(f) => Err(f),
                                    Ok((v, m)) => if n + m > frame.len() {
                                        Err(Fault::InsufficientData)
                                    } else if is_fixed_size(*value) {
                                        match padding_read(
                                            strict,
                                            start + n + m,
                                            a,
                                            frame.skip(n as int + m as int),
                                        ) {
                                            Err(f) => Err(f),
                                            Ok(q) => Ok(
                                                (ValueView::Structure(seq![k, v]), p + n + m + q),
                                            ),
                                        }
                                    } else if n + m != frame.len() {
                                        Err(Fault::ExcessData)
                                    } else {
                                        Ok((ValueView::Structure(seq![k, v]), b.len()))
                                    },
                                }
                            },
                        }
                    } else {
                        let w = width_in(frame.len());
                        if frame.len() > MAX_ENCODED_LEN {
                            Err(Fault::UnsupportedType)
                        } else if frame.len() < w {
                            Err(Fault::InsufficientData)
                        } else {
                            let table_start = (frame.len() - w) as nat;
                            let end = offset_at(frame, table_start as int, w);
                            if end > table_start {
                                Err(Fault::IncorrectValue)
                            } else {
                                match decoded(endian, strict, start, *key, frame.take(end as int)) {
                                    Err(f) => Err(f),
                                    Ok((k, n)) => if n != end {
                                        Err(Fault::ExcessData)
                                    } else {
                                        match decoded(
                                            endian,
                                            strict,
                                            start + end,
                                            *value,
                                            frame.subrange(end as int, table_start as int),
                                        ) {
                                            Err(f) => Err(f),
                                            Ok((v, m)) => if m != table_start - end {
                                                Err(Fault::ExcessData)
                                            } else {
                                                Ok((ValueView::Structure(seq![k, v]), b.len()))
                                            },
                                        }
                                    },
                                }
                            }
                        }
                    }
                },
            }
        },
        _ => Err(Fault::UnsupportedType),
    }
}

/// The number of fields among `fields` whose end the table of their
/// structure gives: those without a fixed size, but for the last field.
pub open spec fn framed_count(fields: Seq<SignatureView>) -> nat
    decreases fields.len(),
{
    if fields.len() <= 1 {
        0
    } else {
        (if is_fixed_size(fields[0]) {
            0nat
        } else {
            1nat
        }) + framed_count(fields.drop_first())
    }
}

/// The values of the types `fields`, all of a fixed size, that stand one
/// behind the other at the start of `b`, and the number of bytes they take.
#[verifier::opaque]
pub open spec fn packed_members(
    endian: Endian,
    strict: bool,
    pos: nat,
    fields: Seq<SignatureView>,
    b: Seq<u8>,
) -> Result<(Seq<ValueView>, nat), Fault>
    decreases b.len(), fields, 0nat,
{
    if fields.len() == 0 {
        Ok((seq![], 0))
    } else {
        match decoded(endian, strict, pos, fields[0], b) {
            Err(f) => Err(f),
            Ok((first, n)) => if n > b.len() {
                Err(Fault::InsufficientData)
            } else {
                match packed_members(
                    endian,
                    strict,
                    pos + n,
                    fields.drop_first(),
                    b.skip(n as int),
                ) {
                    Err(f) => Err(f),
                    Ok((rest, m)) => Ok((seq![first] + rest, n + m)),
                }
            },
        }
    }
}

/// The field of the type `sig` that stands in `frame` at `cursor`: the
/// field, where it ends, and where the offsets of the fields behind it end.
/// The table of the structure starts at `table_start`. A field of a fixed
/// size takes the bytes of its size. Another field takes all the bytes up to
/// its end: the last field up to the table, every other up to the offset
/// that stands in front of `slot`.
#[verifier::opaque]
pub open spec fn member_read(
    endian: Endian,
    strict: bool,
    start: nat,
    sig: SignatureView,
    last: bool,
    frame: Seq<u8>,
    table_start: nat,
    w: nat,
    slot: nat,
    cursor: nat,
) -> Result<(ValueView, nat, nat), Fault>
    decreases frame.len(), sig, 10 + 2 * frame.len(),
{
    if cursor > table_start || table_start > frame.len() {
        Err(Fault::IncorrectValue)
    } else if last || is_fixed_size(sig) {
        match decoded(
            endian,
            strict,
            start + cursor,
            sig,
            frame.subrange(cursor as int, table_start as int),
        ) {
            Err(f) => Err(f),
            Ok((v, n)) => if n > table_start - cursor {
                Err(Fault::InsufficientData)
            } else if last && !is_fixed_size(sig) && n != table_start - cursor {
                Err(Fault::ExcessData)
            } else {
                Ok((v, cursor + n, slot))
            },
        }
    } else if slot < table_start + w || slot > frame.len() {
        Err(Fault::InsufficientData)
    } else {
        let end = offset_at(frame, slot - w, w);
        if !(cursor <= end && end <= table_start) {
            Err(Fault::IncorrectValue)
        } else {
            match decoded(
                endian,
                strict,
                start + cursor,
                sig,
                frame.subrange(cursor as int, end as int),
            ) {
                Err(f) => Err(f),
                Ok((v, n)) => if n != end - cursor {
                    Err(Fault::ExcessData)
                } else {
                    Ok((v, end, (slot - w) as nat))
                },
            }
        }
    }
}

/// The values of the types `fields` that stand in `frame` from `cursor`
/// on, one behind the other, up to the table: see [`member_read`]. Behind
/// the last of them the table starts.
#[verifier::opaque]
pub open spec fn framed_members(
    endian: Endian,
    strict: bool,
    start: nat,
    fields: Seq<SignatureView>,
    frame: Seq<u8>,
    table_start: nat,
    w: nat,
    slot: nat,
    cursor: nat,
) -> Result<Seq<ValueView>, Fault>
    decreases frame.len(), fields, 0nat,
{
    if fields.len() == 0 {
        if cursor == table_start {
            Ok(seq![])
        } else {
            Err(Fault::ExcessData)
        }
    } else {
        match member_read(
            endian,
            strict,
            start,
            fields[0],
            fields.len() == 1,
            frame,
            table_start,
            w,
            slot,
            cursor,
        ) {
            Err(f) => Err(f),
            Ok((v, next, behind)) => match framed_members(
                endian,
                strict,
                start,
                fields.drop_first(),
                frame,
                table_start,
                w,
                behind,
                next,
            ) {
                Err(f) => Err(f),
                Ok(rest) => Ok(seq![v] + rest),
            },
        }
    }
}

/// The structure of the type `sig` that stands at the start of `b`. A
/// structure of a fixed size takes the bytes of its size; every other takes
/// all of `b`.
#[verifier::opaque]
pub open spec fn decoded_structure(
    endian: Endian,
    strict: bool,
    pos: nat,
    sig: SignatureView,
    b: Seq<u8>,
) -> Result<(ValueView, nat), Fault>
    decreases b.len(), sig, 8 + 2 * b.len(),
{
    match sig {
        SignatureView::Structure(fields) => if fields.len() == 0 {
            Err(Fault::UnsupportedType)
        } else {
            let a = sig.alignment(Format::GVariant);
            match padding_read(strict, pos, a, b) {
                Err(f) => Err(f),
                Ok(p) => if p > b.len() {
                    Err(Fault::InsufficientData)
                } else {
                    let frame = b.skip(p as int);
                    let start = pos + p;
                    if is_fixed_size(sig) {
                        match packed_members(endian, strict, start, fields, frame) {
                            Err(f) => Err(f),
                            Ok((values, n)) => if n > frame.len() {
                                Err(Fault::InsufficientData)
                            } else {
                                match padding_read(strict, start + n, a, frame.skip(n as int)) {
                                    Err(f) => Err(f),
                                    Ok(q) => Ok((ValueView::Structure(values), p + n + q)),
                                }
                            },
                        }
                    } else {
                        let w = width_in(frame.len());
                        let table_len = framed_count(fields) * w;
                        if frame.len() > MAX_ENCODED_LEN {
                            Err(Fault::UnsupportedType)
                        } else if table_len > frame.len() {
                            Err(Fault::InsufficientData)
                        } else {
                            match framed_members(
                                endian,
                                strict,
                                start,
                                fields,
                                frame,
                                (frame.len() - table_len) as nat,
                                w,
                                frame.len(),
                                0,
                            ) {
                                Err(f) => Err(f),
                                Ok(values) => Ok((ValueView::Structure(values), b.len())),
                            }
                        }
                    }
                },
            }
        },
        _ => Err(Fault::UnsupportedType),
    }
}

/// The value of type `sig` that stands at the start of `b`, and the number
/// of bytes it takes; or the reason why there is none. A value of a type
/// without a fixed size, text apart, takes all of `b`.
#[verifier::opaque]
pub open spec fn decoded(
    endian: Endian,
    strict: bool,
    pos: nat,
    sig: SignatureView,
    b: Seq<u8>,
) -> Result<(ValueView, nat), Fault>
    decreases b.len(), sig, 9 + 2 * b.len(),
{
    match sig {
        SignatureView::Bool => if b.len() < 1 {
            Err(Fault::InsufficientData)
        } else if b[0] == 0 {
            Ok((ValueView::Bool(false), 1))
        } else if b[0] == 1 {
            Ok((ValueView::Bool(true), 1))
        } else {
            Err(Fault::IncorrectValue)
        },
        SignatureView::Str | SignatureView::ObjectPath | SignatureView::Signature => decoded_text(
            sig,
            b,
        ),
        SignatureView::Variant => decoded_variant(endian, strict, pos, b),
        SignatureView::Array(_) | SignatureView::Dict(_, _) => decoded_sequence(
            endian,
            strict,
            pos,
            sig,
            b,
        ),
        SignatureView::Structure(_) => decoded_structure(endian, strict, pos, sig, b),
        _ => if is_fixed(sig) {
            decoded_fixed(endian, strict, pos, sig, b)
        } else {
            Err(Fault::UnsupportedType)
        },
    }
}

/// The text of a signature has no zero byte in it.
#[verifier::rlimit(60)]
#[verifier::spinoff_prover]
pub proof fn lemma_text_has_no_nul(v: SignatureView)
    ensures
        !v.text().contains(0u8),
    decreases v,
{
    let t = v.text();
    match v {
        SignatureView::Array(elem) => {
            lemma_text_has_no_nul(*elem);
            lemma_no_nul_in_parts(seq![0x61u8], elem.text());
        },
        SignatureView::Maybe(elem) => {
            lemma_text_has_no_nul(*elem);
            lemma_no_nul_in_parts(seq![0x6du8], elem.text());
        },
        SignatureView::Dict(key, value) => {
            lemma_text_has_no_nul(*key);
            lemma_text_has_no_nul(*value);
            lemma_no_nul_in_parts(seq![0x61u8, 0x7bu8], key.text());
            lemma_no_nul_in_parts(seq![0x61u8, 0x7bu8] + key.text(), value.text());
            lemma_no_nul_in_parts(seq![0x61u8, 0x7bu8] + key.text() + value.text(), seq![0x7du8]);
        },
        SignatureView::Structure(fields) => {
            lemma_texts_have_no_nul(fields);
            lemma_no_nul_in_parts(seq![0x28u8], texts(fields));
            lemma_no_nul_in_parts(seq![0x28u8] + texts(fields), seq![0x29u8]);
        },
        _ => {
            assert forall|i: int| 0 <= i < t.len() implies t[i] != 0 by {}
        },
    }
}

/// The text of a row of signatures has no zero byte in it.
pub proof fn lemma_texts_have_no_nul(fields: Seq<SignatureView>)
    ensures
        !texts(fields).contains(0u8),
    decreases fields,
{
    if fields.len() > 0 {
        lemma_text_has_no_nul(fields[0]);
        lemma_texts_have_no_nul(fields.drop_first());
        lemma_no_nul_in_parts(fields[0].text(), texts(fields.drop_first()));
    }
}

/// Two rows of bytes without a zero byte make one without.
pub proof fn lemma_no_nul_in_parts(a: Seq<u8>, b: Seq<u8>)
    requires
        !a.contains(0u8),
        !b.contains(0u8),
    ensures
        !(a + b).contains(0u8),
{
    let s = a + b;
    if s.contains(0u8) {
        let k = choose|k: int| 0 <= k < s.len() && s[k] == 0u8;
        if k < a.len() {
            assert(a[k] == 0u8);
        } else {
            assert(b[k - a.len()] == 0u8);
        }
    }
}

/// An object path has no zero byte in it.
pub proof fn lemma_path_has_no_nul(p: Seq<u8>)
    requires
        is_object_path(p),
    ensures
        !p.contains(0u8),
{
    if p.contains(0u8) {
        let k = choose|k: int| 0 <= k < p.len() && p[k] == 0u8;
        if k > 0 {
            assert(p[k] == 0x2fu8 || crate::names::rules::is_element_byte(p[k], false));
        }
    }
}

/// Text without a zero byte, written with its terminator, is read back,
/// whatever follows.
pub proof fn lemma_text_read(text: Seq<u8>, rest: Seq<u8>)
    requires
        !text.contains(0u8),
    ensures
        text_read(text + seq![0u8] + rest) == Ok::<(Seq<u8>, nat), Fault>(
            (text, text.len() + 1),
        ),
{
    let b = text + seq![0u8] + rest;
    let p = text.len() as int;
    assert(first_nul_at(b, p)) by {
        assert forall|k: int| 0 <= k < p implies b[k] != 0 by {
            assert(b[k] == text[k]);
            assert(text.contains(text[k]));
        }
    }
    lemma_before_nul_is(b, p);
    assert(b.take(p) =~= text);
}

/// A string, an object path or a signature is read back from its bytes as
/// itself.
#[verifier::rlimit(60)]
#[verifier::spinoff_prover]
pub proof fn lemma_text_roundtrip(endian: Endian, pos: nat, v: ValueView)
    requires
        v is Str || v is ObjectPath || v is Signature,
        v.is_well_typed(),
        is_supported(v),
    ensures
        decoded_text(v.signature(), encoded(endian, pos, v)) == Ok::<(ValueView, nat), Fault>(
            (v, encoded(endian, pos, v).len()),
        ),
{
    let b = encoded(endian, pos, v);
    match v {
        ValueView::Str(s) => {
            vstd::utf8::encode_utf8_valid_utf8(s);
            vstd::utf8::encode_utf8_decode_utf8(s);
            lemma_text_read(encode_utf8(s), seq![]);
            assert(b =~= encode_utf8(s) + seq![0u8] + Seq::<u8>::empty());
        },
        ValueView::ObjectPath(p) => {
            vstd::utf8::encode_utf8_valid_utf8(p);
            vstd::utf8::encode_utf8_decode_utf8(p);
            lemma_path_has_no_nul(encode_utf8(p));
            lemma_text_read(encode_utf8(p), seq![]);
            assert(b =~= encode_utf8(p) + seq![0u8] + Seq::<u8>::empty());
        },
        ValueView::Signature(row) => {
            lemma_texts_have_no_nul(row);
            lemma_text_read(texts(row), seq![]);
            assert(b =~= texts(row) + seq![0u8] + Seq::<u8>::empty());
            lemma_parse_all_complete(row);
        },
        _ => {},
    }
}

/// A variant is read back from its bytes as itself.
#[verifier::rlimit(60)]
#[verifier::spinoff_prover]
pub proof fn lemma_variant_roundtrip(endian: Endian, strict: bool, pos: nat, v: ValueView)
    requires
        v is Value,
        v.is_well_typed(),
        is_supported(v),
        encoded(endian, pos, v).len() <= MAX_ENCODED_LEN,
    ensures
        decoded(endian, strict, pos, v.signature(), encoded(endian, pos, v)) == Ok::<
            (ValueView, nat),
            Fault,
        >((v, encoded(endian, pos, v).len())),
    decreases v, 0nat,
{
    reveal(decoded);
    reveal(decoded_variant);
    let inner = *v->Value_0;
    let b = encoded(endian, pos, v);
    let p = padding(pos, 8);
    let body = encoded(endian, pos + p, inner);
    let sig = inner.signature();
    let frame = body + seq![0u8] + sig.text();
    let z = body.len() as int;
    assert(b =~= zeros(p) + frame);
    lemma_padding_read(strict, pos, 8, frame);
    lemma_text_has_no_nul(sig);
    assert(last_nul_at(frame, z)) by {
        assert forall|k: int| z < k < frame.len() implies frame[k] != 0 by {
            assert(frame[k] == sig.text()[k - z - 1]);
            assert(sig.text().contains(sig.text()[k - z - 1]));
        }
    }
    lemma_last_nul_is(frame, z);
    assert(frame.skip(z + 1) =~= sig.text());
    assert(frame.take(z) =~= body);
    lemma_signature_complete(inner);
    lemma_parse_complete(sig, seq![]);
    assert(sig.text() + Seq::<u8>::empty() =~= sig.text());
    assert(parse_complete(sig.text()) == Some(sig));
    assert(body.len() <= b.len());
    lemma_roundtrip(endian, strict, pos + p, inner);
    assert(padding_read(strict, pos, 8, b) == Ok::<nat, Fault>(p));
    assert(b.skip(p as int) == frame);
    assert(variant_frame(strict, pos, b) == Ok::<(nat, nat, SignatureView), Fault>(
        (p, z as nat, sig),
    ));
    assert(b.subrange(p as int, p + z) =~= body);
}

/// A number, a truth value or the index of a file descriptor is read back
/// from its bytes as itself.
#[verifier::rlimit(60)]
#[verifier::spinoff_prover]
pub proof fn lemma_number_roundtrip(endian: Endian, strict: bool, pos: nat, v: ValueView)
    requires
        is_fixed(v.signature()),
    ensures
        decoded(endian, strict, pos, v.signature(), encoded(endian, pos, v)) == Ok::<
            (ValueView, nat),
            Fault,
        >((v, encoded(endian, pos, v).len())),
{
    reveal(decoded);
    reveal(decoded_variant);
    let b = encoded(endian, pos, v);
    if v is Bool {
        assert(b[0] == if v->Bool_0 { 1u8 } else { 0u8 });
    } else {
        let classic = crate::wire::dbus::encoded(endian, pos, v);
        assert(b == classic);
        lemma_fixed_roundtrip(endian, strict, pos, v, seq![]);
        assert(classic + Seq::<u8>::empty() =~= classic);
        assert(crate::wire::dbus::decoded(endian, strict, pos, v.signature(), classic)
            == decoded_fixed(endian, strict, pos, v.signature(), classic));
        assert(decoded(endian, strict, pos, v.signature(), b) == decoded_fixed(
            endian,
            strict,
            pos,
            v.signature(),
            b,
        ));
    }
}

/// Reading gives back what was written: a well-typed value without a zero
/// byte in its strings, whose bytes are few enough for the lengths of a
/// message, is read from its bytes as itself, in either byte order, at every
/// position, by a strict reader and by a lenient one.
#[verifier::rlimit(60)]
#[verifier::spinoff_prover]
pub proof fn lemma_roundtrip(endian: Endian, strict: bool, pos: nat, v: ValueView)
    requires
        v.is_well_typed(),
        is_supported(v),
        encoded(endian, pos, v).len() <= MAX_ENCODED_LEN,
    ensures
        decoded(endian, strict, pos, v.signature(), encoded(endian, pos, v)) == Ok::<
            (ValueView, nat),
            Fault,
        >((v, encoded(endian, pos, v).len())),
    decreases v, 5nat,
{
    reveal(decoded);
    reveal(decoded_variant);
    if v is Str || v is ObjectPath || v is Signature {
        lemma_text_roundtrip(endian, pos, v);
    } else if v is Value {
        lemma_variant_roundtrip(endian, strict, pos, v);
    } else if v is Array || v is Dict {
        lemma_sequence(endian, strict, pos, v);
    } else if v is Structure {
        if is_fixed_size(v.signature()) {
            lemma_fixed_structure(endian, strict, pos, v, seq![]);
            assert(encoded(endian, pos, v) + Seq::<u8>::empty() =~= encoded(endian, pos, v));
        } else {
            lemma_structure(endian, strict, pos, v);
        }
    } else {
        lemma_number_roundtrip(endian, strict, pos, v);
    }
}

/// The bytes of the first `k` values of a row are no more than those of
/// the whole row.
pub proof fn lemma_row_grows(endian: Endian, start: nat, items: Seq<ValueView>, k: int)
    requires
        0 <= k <= items.len(),
    ensures
        row(endian, start, items.take(k)).len() <= row(endian, start, items).len(),
    decreases items.len(),
{
    if k == items.len() {
        assert(items.take(k) =~= items);
    } else {
        assert(items.drop_last().take(k) =~= items.take(k));
        lemma_row_grows(endian, start, items.drop_last(), k);
    }
}

/// The ends of a row are as many as its values, and each is the length of
/// the row up to its value.
pub proof fn lemma_row_ends(endian: Endian, start: nat, items: Seq<ValueView>)
    ensures
        row_ends(endian, start, items).len() == items.len(),
        forall|i: int|
            0 <= i < items.len() ==> (#[trigger] row_ends(endian, start, items)[i]) == row(
                endian,
                start,
                items.take(i + 1),
            ).len(),
    decreases items.len(),
{
    if items.len() > 0 {
        let front = items.drop_last();
        lemma_row_ends(endian, start, front);
        assert forall|i: int| 0 <= i < items.len() implies (#[trigger] row_ends(
            endian,
            start,
            items,
        )[i]) == row(endian, start, items.take(i + 1)).len() by {
            if i < front.len() {
                assert(front.take(i + 1) =~= items.take(i + 1));
            } else {
                assert(items.take(i + 1) =~= items);
            }
        }
    }
}

/// Appends to `out` the bytes of the values `items`, one behind the other,
/// and tells where each ends, counted from the length that `out` had.
#[verifier::rlimit(60)]
#[verifier::spinoff_prover]
fn encode_members(endian: Endian, base: usize, items: &Vec<Value>, out: &mut Vec<u8>) -> (r:
    Result<Vec<usize>, Error>)
    ensures
        match r {
            Ok(ends) => final(out)@ == old(out)@ + row(
                endian,
                (base + old(out)@.len()) as nat,
                value_trees(items@),
            ) && as_nats(ends@) == row_ends(
                endian,
                (base + old(out)@.len()) as nat,
                value_trees(items@),
            ),
            Err(_) => row(endian, (base + old(out)@.len()) as nat, value_trees(items@)).len()
                > MAX_ENCODED_LEN,
        },
    decreases items, 0nat,
{
    let ghost all = value_trees(items@);
    let ghost head = out@;
    let ghost start = (base + out@.len()) as nat;
    let first = out.len();
    let mut ends: Vec<usize> = Vec::new();
    let mut i: usize = 0;
    assert(all.take(0) =~= seq![]);
    assert(out@ =~= head + row(endian, start, all.take(0)));
    assert(as_nats(ends@) =~= row_ends(endian, start, all.take(0)));
    while i < items.len()
        invariant
            i <= items.len(),
            all == value_trees(items@),
            head == old(out)@,
            first == head.len(),
            start == base + head.len(),
            out@ == head + row(endian, start, all.take(i as int)),
            as_nats(ends@) == row_ends(endian, start, all.take(i as int)),
        decreases items.len() - i,
    {
        assert(decreases_to!(items => items[i as int]));
        let ghost before = all.take(i as int);
        let ghost next = all.take(i + 1);
        let ghost bytes = row(endian, start, before);
        proof {
            assert(all[i as int] == items[i as int]@);
            assert(next.drop_last() =~= before);
            assert(next.last() == all[i as int]);
            assert((base + (head + bytes).len()) as nat == start + bytes.len());
            lemma_row_grows(endian, start, all, i + 1);
        }
        match encode(endian, base, &items[i], out) {
            Ok(()) => {},
            Err(e) => {
                return Err(e);
            },
        }
        assert(out@ =~= head + row(endian, start, next));
        ends.push(out.len() - first);
        assert(as_nats(ends@) =~= row_ends(endian, start, next));
        i += 1;
    }
    assert(all.take(items.len() as int) =~= all);
    Ok(ends)
}

/// Appends to `out` the bytes of an array of the values `items`, whose
/// type starts at multiples of `a` and has a fixed size or not.
#[verifier::rlimit(60)]
#[verifier::spinoff_prover]
fn encode_sequence(
    endian: Endian,
    base: usize,
    a: usize,
    fixed: bool,
    items: &Vec<Value>,
    out: &mut Vec<u8>,
    Ghost(element): Ghost<SignatureView>,
) -> (r: Result<(), Error>)
    requires
        a == element.alignment(Format::GVariant),
        is_boundary(a as nat),
        fixed == is_fixed_size(element),
    ensures
        r is Ok ==> final(out)@ == old(out)@ + array_bytes(
            endian,
            (base + old(out)@.len()) as nat,
            element,
            value_trees(items@),
        ),
        array_bytes(endian, (base + old(out)@.len()) as nat, element, value_trees(items@)).len()
            <= MAX_ENCODED_LEN ==> r is Ok,
    decreases items, 1nat,
{
    let ghost all = value_trees(items@);
    let ghost pos = (base + out@.len()) as nat;
    let p = padding_at(base, out.len(), a);
    push_zeros(out, p);
    let ghost start = pos + p as nat;
    let first = out.len();
    let ends = match encode_members(endian, base, items, out) {
        Ok(ends) => ends,
        Err(e) => {
            return Err(e);
        },
    };
    if fixed || items.len() == 0 {
        assert(out@ =~= old(out)@ + array_bytes(endian, pos, element, all));
        return Ok(());
    }
    let body = out.len() - first;
    proof {
        lemma_row_ends(endian, start, all);
        lemma_table_len(
            row_ends(endian, start, all),
            offset_width(body as nat, items.len() as nat),
        );
        assert forall|i: int| 0 <= i < ends.len() implies ends[i] <= body by {
            assert(as_nats(ends@)[i] == ends[i] as nat);
            lemma_row_grows(endian, start, all, i + 1);
        }
    }
    let w = match choose_width(body, items.len()) {
        Some(w) => w,
        None => {
            return Err(Error::Message(TOO_LARGE.to_owned()));
        },
    };
    write_table(&ends, w, false, out);
    assert(out@ =~= old(out)@ + array_bytes(endian, pos, element, all));
    Ok(())
}

/// Appends to `out` the bytes of a structure.
#[verifier::rlimit(60)]
#[verifier::spinoff_prover]
fn encode_structure(endian: Endian, base: usize, value: &Value, out: &mut Vec<u8>) -> (r:
    Result<(), Error>)
    requires
        value is Structure,
    ensures
        r is Ok ==> final(out)@ == old(out)@ + encoded(
            endian,
            (base + old(out)@.len()) as nat,
            value@,
        ),
        encoded(endian, (base + old(out)@.len()) as nat, value@).len() <= MAX_ENCODED_LEN
            ==> r is Ok,
    decreases value, 0nat,
{
    let ghost pos = (base + out@.len()) as nat;
    match value {
        Value::Structure(fields) => {
            let ghost all = value_trees(fields@);
            proof {
                lemma_structure_value_view(*fields);
            }
            let a = value.alignment();
            let fixed = value.is_fixed_size();
            let p = padding_at(base, out.len(), a);
            push_zeros(out, p);
            let ghost start = pos + p as nat;
            let first = out.len();
            assert(decreases_to!(value => value->Structure_0));
            let ends = match encode_members(endian, base, fields, out) {
                Ok(ends) => ends,
                Err(e) => {
                    return Err(e);
                },
            };
            if fixed {
                let q = padding_at(base, out.len(), a);
                push_zeros(out, q);
                assert(out@ =~= old(out)@ + encoded(endian, pos, value@));
                return Ok(());
            }
            let body = out.len() - first;
            let n = fields.len();
            let mut framed: Vec<usize> = Vec::new();
            let mut i: usize = 0;
            proof {
                lemma_row_ends(endian, start, all);
                assert(all.take(0) =~= seq![]);
                assert(as_nats(framed@) =~= framed_ends(endian, start, all.take(0), false));
            }
            let others = if n == 0 {
                0
            } else {
                n - 1
            };
            while i < others
                invariant
                    i <= others,
                    others == if n == 0 {
                        0
                    } else {
                        n - 1
                    },
                    n == fields.len(),
                    ends.len() == n,
                    all == value_trees(fields@),
                    as_nats(ends@) == row_ends(endian, start, all),
                    forall|k: int|
                        0 <= k < all.len() ==> (#[trigger] row_ends(endian, start, all)[k]) == row(
                            endian,
                            start,
                            all.take(k + 1),
                        ).len(),
                    as_nats(framed@) == framed_ends(endian, start, all.take(i as int), false),
                    framed.len() <= i,
                    forall|k: int| 0 <= k < framed.len() ==> (#[trigger] framed[k]) <= body,
                    body == row(endian, start, all).len(),
                decreases others - i,
            {
                let ghost before = all.take(i as int);
                let ghost next = all.take(i + 1);
                proof {
                    assert(all[i as int] == fields[i as int]@);
                    assert(next.drop_last() =~= before);
                    assert(next.last() == all[i as int]);
                    assert(as_nats(ends@)[i as int] == ends[i as int] as nat);
                    lemma_row_grows(endian, start, all, i + 1);
                }
                if !fields[i].is_fixed_size() {
                    framed.push(ends[i]);
                }
                assert(as_nats(framed@) =~= framed_ends(endian, start, next, false));
                i += 1;
            }
            proof {
                if n > 0 {
                    assert(all.drop_last() =~= all.take(n - 1));
                    assert(i == n - 1);
                } else {
                    assert(all.take(0) =~= all);
                }
                assert(as_nats(framed@) == framed_ends(endian, start, all, true));
                lemma_table_len(
                    framed_ends(endian, start, all, true),
                    offset_width(body as nat, framed.len() as nat),
                );
            }
            let w = match choose_width(body, framed.len()) {
                Some(w) => w,
                None => {
                    return Err(Error::Message(TOO_LARGE.to_owned()));
                },
            };
            write_table(&framed, w, true, out);
            assert(out@ =~= old(out)@ + encoded(endian, pos, value@));
            Ok(())
        },
        _ => Ok(()),
    }
}

/// Appends to `out` the bytes of `value` in the GVariant encoding. The
/// bytes in `out` start at position `base` of their message.
///
/// Every value is written whose encoding is short enough for the lengths
/// of a message.
#[verifier::rlimit(60)]
#[verifier::spinoff_prover]
pub fn encode(endian: Endian, base: usize, value: &Value, out: &mut Vec<u8>) -> (r: Result<
    (),
    Error,
>)
    ensures
        r is Ok ==> final(out)@ == old(out)@ + encoded(
            endian,
            (base + old(out)@.len()) as nat,
            value@,
        ),
        encoded(endian, (base + old(out)@.len()) as nat, value@).len() <= MAX_ENCODED_LEN
            ==> r is Ok,
    decreases value, 1nat,
{
    let ghost pos = (base + out@.len()) as nat;
    match value {
        Value::Bool(b) => {
            out.push(if *b { 1u8 } else { 0u8 });
            assert(out@ =~= old(out)@ + encoded(endian, pos, value@));
            Ok(())
        },
        Value::Str(s) => {
            append_bytes(out, s.as_str().as_bytes());
            out.push(0u8);
            assert(out@ =~= old(out)@ + encoded(endian, pos, value@));
            Ok(())
        },
        Value::ObjectPath(p) => {
            append_bytes(out, p.as_str().as_bytes());
            out.push(0u8);
            assert(out@ =~= old(out)@ + encoded(endian, pos, value@));
            Ok(())
        },
        Value::Signature(row) => {
            write_row_text(row, out);
            out.push(0u8);
            assert(out@ =~= old(out)@ + encoded(endian, pos, value@));
            Ok(())
        },
        Value::Value(inner) => {
            let p = padding_at(base, out.len(), 8);
            push_zeros(out, p);
            match encode(endian, base, inner, out) {
                Ok(()) => {},
                Err(e) => {
                    return Err(e);
                },
            }
            out.push(0u8);
            write_signature_of(inner, out);
            assert(out@ =~= old(out)@ + encoded(endian, pos, value@));
            Ok(())
        },
        Value::Array(element, items) => {
            proof {
                lemma_array_view(*element, *items);
                lemma_alignment_is_boundary(element@, Format::GVariant);
            }
            assert(decreases_to!(value => value->Array_1));
            encode_sequence(
                endian,
                base,
                element.alignment(Format::GVariant),
                element.is_fixed_size(),
                items,
                out,
                Ghost(element@),
            )
        },
        Value::Dict(key, val, entries) => {
            proof {
                lemma_dict_view(*key, *val, *entries);
                lemma_entry(key@, val@);
            }
            assert(decreases_to!(value => value->Dict_2));
            let k = key.alignment(Format::GVariant);
            let v = val.alignment(Format::GVariant);
            encode_sequence(
                endian,
                base,
                if k >= v {
                    k
                } else {
                    v
                },
                key.is_fixed_size() && val.is_fixed_size(),
                entries,
                out,
                Ghost(entry_type(key@, val@)),
            )
        },
        Value::Structure(_) => encode_structure(endian, base, value, out),
        _ => {
            encode_fixed(endian, base, value, out);
            Ok(())
        },
    }
}

/// The entries of a dictionary start at the wider of the boundaries of key
/// and value, and have a fixed size where both key and value have one.
pub proof fn lemma_entry(key: SignatureView, value: SignatureView)
    ensures
        entry_type(key, value).alignment(Format::GVariant) == max_nat(
            key.alignment(Format::GVariant),
            value.alignment(Format::GVariant),
        ),
        is_boundary(entry_type(key, value).alignment(Format::GVariant)),
        is_fixed_size(entry_type(key, value)) == (is_fixed_size(key) && is_fixed_size(value)),
{
    lemma_entry_alignment(key, value, Format::GVariant);
    lemma_alignment_is_boundary(entry_type(key, value), Format::GVariant);
    let fields = seq![key, value];
    assert(fields[0] == key && fields[1] == value);
}

/// Reads the text that stands at `at`, up to its zero byte.
#[verifier::rlimit(60)]
#[verifier::spinoff_prover]
fn read_text<'a>(bytes: &'a [u8], at: usize, limit: usize) -> (r: Result<(&'a [u8], usize), Error>)
    requires
        at <= limit <= bytes.len(),
    ensures
        match text_read(bytes@.subrange(at as int, limit as int)) {
            Ok((text, n)) => r matches Ok((t, end)) && t@ == text && end == at + n && end
                <= limit,
            Err(f) => r matches Err(e) && e.fault() == Some(f),
        },
{
    match until_nul(slice_subrange(bytes, at, limit)) {
        Some(text) => {
            proof {
                let b = bytes@.subrange(at as int, limit as int);
                let p = choose|p: int| first_nul_at(b, p);
                assert(first_nul_at(b, p));
                assert(b.take(p).len() == p);
            }
            Ok((text, at + text.len() + 1))
        },
        None => Err(Error::InsufficientData),
    }
}

/// Reads a string, an object path or a signature.
#[verifier::rlimit(60)]
#[verifier::spinoff_prover]
fn decode_text(sig: &Signature, bytes: &[u8], at: usize, limit: usize) -> (r: Result<
    (Value, usize),
    Error,
>)
    requires
        at <= limit <= bytes.len(),
        sig is Str || sig is ObjectPath || sig is Signature,
    ensures
        read_as(r, at, decoded_text(sig@, bytes@.subrange(at as int, limit as int))),
        r matches Ok((_, end)) ==> end <= limit,
{
    let (text, end) = match read_text(bytes, at, limit) {
        Ok(found) => found,
        Err(e) => {
            return Err(e);
        },
    };
    match sig {
        Signature::Str => match from_utf8(text) {
            Ok(s) => Ok((Value::Str(s.to_owned()), end)),
            Err(_) => Err(Error::InvalidUtf8),
        },
        Signature::ObjectPath => {
            let s = match from_utf8(text) {
                Ok(s) => s,
                Err(_) => {
                    return Err(Error::InvalidUtf8);
                },
            };
            proof {
                vstd::utf8::decode_utf8_encode_utf8(text@);
            }
            match ObjectPath::try_from(s) {
                Ok(path) => Ok((Value::ObjectPath(path), end)),
                Err(_) => Err(Error::IncorrectValue),
            }
        },
        _ => match parse_row(text) {
            Some(row) => Ok((Value::Signature(row), end)),
            None => Err(Error::InvalidSignature(lossy(text))),
        },
    }
}

/// Finds the parts of a variant that fills the bytes from `at` up to
/// `limit`: where the value in it starts, where it ends, and its signature.
#[verifier::rlimit(60)]
#[verifier::spinoff_prover]
fn read_variant_frame(strict: bool, base: usize, bytes: &[u8], at: usize, limit: usize) -> (r:
    Result<(usize, usize, Signature), Error>)
    requires
        at <= limit <= bytes.len(),
    ensures
        match variant_frame(strict, (base + at) as nat, bytes@.subrange(at as int, limit as int)) {
            Ok((p, z, inner)) => r matches Ok((start, end, sig)) && start == at + p && end
                == start + z && end < limit && sig@ == inner,
            Err(f) => r matches Err(e) && e.fault() == Some(f),
        },
{
    let ghost b = bytes@.subrange(at as int, limit as int);
    let p = match read_padding(strict, base, 8, bytes, at, limit) {
        Ok(p) => p,
        Err(e) => {
            return Err(e);
        },
    };
    let start = at + p;
    let ghost frame = b.skip(p as int);
    assert(frame =~= bytes@.subrange(start as int, limit as int));
    let z = match find_last_nul(bytes, start, limit) {
        Some(z) => z,
        None => {
            return Err(Error::InsufficientData);
        },
    };
    let text = slice_subrange(bytes, z + 1, limit);
    assert(text@ =~= frame.skip(z - start + 1));
    match parse_single(text) {
        Some(sig) => Ok((start, z, sig)),
        None => Err(Error::InvalidSignature(lossy(text))),
    }
}

/// Reads a variant, which takes all the bytes from `at` up to `limit`.
#[verifier::rlimit(60)]
#[verifier::spinoff_prover]
fn decode_variant(
    endian: Endian,
    strict: bool,
    base: usize,
    bytes: &[u8],
    at: usize,
    limit: usize,
) -> (r: Result<(Value, usize), Error>)
    requires
        at <= limit <= bytes.len(),
    ensures
        read_as(
            r,
            at,
            decoded_variant(
                endian,
                strict,
                (base + at) as nat,
                bytes@.subrange(at as int, limit as int),
            ),
        ),
        r matches Ok((_, end)) ==> end <= limit,
    decreases limit - at, Signature::Variant, 0nat,
{
    proof {
        reveal(decoded_variant);
    }
    let ghost b = bytes@.subrange(at as int, limit as int);
    let (start, z, inner_sig) = match read_variant_frame(strict, base, bytes, at, limit) {
        Ok(frame) => frame,
        Err(e) => {
            return Err(e);
        },
    };
    assert(b.subrange(start - at, z - at) =~= bytes@.subrange(start as int, z as int));
    match decode(endian, strict, base, &inner_sig, bytes, start, z) {
        Ok((inner, end)) => {
            if end == z {
                Ok((Value::Value(Box::new(inner)), limit))
            } else {
                Err(Error::ExcessData)
            }
        },
        Err(e) => Err(e),
    }
}

/// Reads an element of an array, or an entry of a dictionary.
#[verifier::rlimit(60)]
#[verifier::spinoff_prover]
fn decode_element(
    endian: Endian,
    strict: bool,
    base: usize,
    sig: &Signature,
    entry: bool,
    bytes: &[u8],
    at: usize,
    limit: usize,
) -> (r: Result<(Value, usize), Error>)
    requires
        at <= limit <= bytes.len(),
    ensures
        read_as(
            r,
            at,
            decoded_element(
                endian,
                strict,
                (base + at) as nat,
                sig@,
                entry,
                bytes@.subrange(at as int, limit as int),
            ),
        ),
        r matches Ok((_, end)) ==> end <= limit,
    decreases limit - at, sig, (if entry {
        2nat
    } else {
        10nat
    }) + 2 * (limit - at),
{
    proof {
        reveal(decoded_element);
    }
    if entry {
        decode_pair(endian, strict, base, sig, bytes, at, limit)
    } else {
        decode(endian, strict, base, sig, bytes, at, limit)
    }
}

/// Reads the members of a fixed size that fill the bytes from `at` up to
/// `limit`.
#[verifier::rlimit(60)]
#[verifier::spinoff_prover]
fn decode_packed(
    endian: Endian,
    strict: bool,
    base: usize,
    sig: &Signature,
    entry: bool,
    bytes: &[u8],
    at: usize,
    limit: usize,
) -> (r: Result<Vec<Value>, Error>)
    requires
        at <= limit <= bytes.len(),
    ensures
        match packed_items(
            endian,
            strict,
            (base + at) as nat,
            sig@,
            entry,
            bytes@.subrange(at as int, limit as int),
        ) {
            Ok(items) => r matches Ok(values) && value_trees(values@) == items,
            Err(f) => r matches Err(e) && e.fault() == Some(f),
        },
    decreases limit - at, sig, (if entry {
        3nat
    } else {
        11nat
    }) + 2 * (limit - at),
{
    proof {
        reveal(packed_items);
    }
    let ghost whole = packed_items(
        endian,
        strict,
        (base + at) as nat,
        sig@,
        entry,
        bytes@.subrange(at as int, limit as int),
    );
    let mut values: Vec<Value> = Vec::new();
    let mut cur: usize = at;
    assert(value_trees(values@) =~= seq![]);
    assert(whole == items_behind(value_trees(values@), whole)) by {
        if let Ok(more) = whole {
            assert(value_trees(values@) + more =~= more);
        }
    }
    while cur < limit
        invariant
            at <= cur <= limit <= bytes.len(),
            whole == packed_items(
                endian,
                strict,
                (base + at) as nat,
                sig@,
                entry,
                bytes@.subrange(at as int, limit as int),
            ),
            whole == items_behind(
                value_trees(values@),
                packed_items(
                    endian,
                    strict,
                    (base + cur) as nat,
                    sig@,
                    entry,
                    bytes@.subrange(cur as int, limit as int),
                ),
            ),
        decreases limit - cur,
    {
        proof {
            reveal(packed_items);
        }
        let ghost window = bytes@.subrange(cur as int, limit as int);
        let ghost done = value_trees(values@);
        assert(window.len() > 0);
        match decode_element(endian, strict, base, sig, entry, bytes, cur, limit) {
            Err(e) => {
                return Err(e);
            },
            Ok((value, end)) => {
                if end == cur {
                    return Err(Error::IncorrectValue);
                }
                let ghost v = value@;
                values.push(value);
                proof {
                    assert(value_trees(values@) =~= done + seq![v]);
                    assert(window.skip(end - cur) =~= bytes@.subrange(end as int, limit as int));
                    let rest = packed_items(
                        endian,
                        strict,
                        (base + end) as nat,
                        sig@,
                        entry,
                        bytes@.subrange(end as int, limit as int),
                    );
                    if let Ok(more) = rest {
                        assert(done + (seq![v] + more) =~= (done + seq![v]) + more);
                    }
                }
                cur = end;
            },
        }
    }
    assert(value_trees(values@) + Seq::<ValueView>::empty() =~= value_trees(values@));
    Ok(values)
}

/// Reads the members whose ends the table gives: the frame runs from
/// `first` up to `limit`, and its table starts at `table_start`.
#[verifier::rlimit(60)]
#[verifier::spinoff_prover]
fn decode_framed(
    endian: Endian,
    strict: bool,
    base: usize,
    sig: &Signature,
    entry: bool,
    bytes: &[u8],
    first: usize,
    limit: usize,
    table_start: usize,
    w: usize,
) -> (r: Result<Vec<Value>, Error>)
    requires
        first <= table_start < limit <= bytes.len(),
        w == 1 || w == 2 || w == 4,
    ensures
        match framed_items(
            endian,
            strict,
            (base + first) as nat,
            sig@,
            entry,
            bytes@.subrange(first as int, limit as int),
            (table_start - first) as nat,
            w as nat,
            (table_start - first) as nat,
            0,
        ) {
            Ok(items) => r matches Ok(values) && value_trees(values@) == items,
            Err(f) => r matches Err(e) && e.fault() == Some(f),
        },
    decreases limit - first, sig, (if entry {
        3nat
    } else {
        11nat
    }) + 2 * (limit - first),
{
    proof {
        reveal(framed_items);
    }
    let ghost frame = bytes@.subrange(first as int, limit as int);
    let ghost start = (base + first) as nat;
    let ghost ts = (table_start - first) as nat;
    let ghost whole = framed_items(endian, strict, start, sig@, entry, frame, ts, w as nat, ts, 0);
    let mut values: Vec<Value> = Vec::new();
    let mut cursor: usize = first;
    let mut slot: usize = table_start;
    assert(value_trees(values@) =~= seq![]);
    assert(whole == items_behind(value_trees(values@), whole)) by {
        if let Ok(more) = whole {
            assert(value_trees(values@) + more =~= more);
        }
    }
    while limit - slot >= w
        invariant
            first <= cursor <= table_start <= slot <= limit <= bytes.len(),
            table_start < limit,
            w == 1 || w == 2 || w == 4,
            frame == bytes@.subrange(first as int, limit as int),
            start == base + first,
            ts == table_start - first,
            whole == framed_items(endian, strict, start, sig@, entry, frame, ts, w as nat, ts, 0),
            whole == items_behind(
                value_trees(values@),
                framed_items(
                    endian,
                    strict,
                    start,
                    sig@,
                    entry,
                    frame,
                    ts,
                    w as nat,
                    (slot - first) as nat,
                    (cursor - first) as nat,
                ),
            ),
        decreases limit - slot,
    {
        proof {
            reveal(framed_items);
        }
        let ghost done = value_trees(values@);
        let end_rel = read_offset(bytes, slot, w);
        assert(frame.subrange(slot - first, slot - first + w) =~= bytes@.subrange(
            slot as int,
            slot + w,
        ));
        if end_rel < cursor - first || end_rel > table_start - first {
            return Err(Error::IncorrectValue);
        }
        let end = first + end_rel;
        assert(frame.subrange(cursor - first, end - first) =~= bytes@.subrange(
            cursor as int,
            end as int,
        ));
        match decode_element(endian, strict, base, sig, entry, bytes, cursor, end) {
            Err(e) => {
                return Err(e);
            },
            Ok((value, stop)) => {
                if stop != end {
                    return Err(Error::ExcessData);
                }
                let ghost v = value@;
                values.push(value);
                proof {
                    assert(value_trees(values@) =~= done + seq![v]);
                    let rest = framed_items(
                        endian,
                        strict,
                        start,
                        sig@,
                        entry,
                        frame,
                        ts,
                        w as nat,
                        (slot + w - first) as nat,
                        (end - first) as nat,
                    );
                    if let Ok(more) = rest {
                        assert(done + (seq![v] + more) =~= (done + seq![v]) + more);
                    }
                }
                cursor = end;
                slot = slot + w;
            },
        }
    }
    assert(value_trees(values@) + Seq::<ValueView>::empty() =~= value_trees(values@));
    Ok(values)
}

/// Reads the members of an array or a dictionary, which fill the bytes
/// from `first` up to `limit`.
#[verifier::rlimit(60)]
#[verifier::spinoff_prover]
fn decode_sequence_items(
    endian: Endian,
    strict: bool,
    base: usize,
    sig: &Signature,
    entry: bool,
    fixed: bool,
    bytes: &[u8],
    first: usize,
    limit: usize,
) -> (r: Result<Vec<Value>, Error>)
    requires
        first <= limit <= bytes.len(),
        fixed == is_fixed_size(member_type(sig@, entry)),
    ensures
        match sequence_items(
            endian,
            strict,
            (base + first) as nat,
            sig@,
            entry,
            bytes@.subrange(first as int, limit as int),
        ) {
            Ok(items) => r matches Ok(values) && value_trees(values@) == items,
            Err(f) => r matches Err(e) && e.fault() == Some(f),
        },
    decreases limit - first, sig, (if entry {
        4nat
    } else {
        12nat
    }) + 2 * (limit - first),
{
    proof {
        reveal(sequence_items);
    }
    let ghost frame = bytes@.subrange(first as int, limit as int);
    if fixed {
        return decode_packed(endian, strict, base, sig, entry, bytes, first, limit);
    }
    if first == limit {
        let values: Vec<Value> = Vec::new();
        assert(value_trees(values@) =~= seq![]);
        return Ok(values);
    }
    let w = match read_width(limit - first) {
        Some(w) => w,
        None => {
            return Err(Error::UnsupportedType(sig.to_string()));
        },
    };
    if limit - first < w {
        return Err(Error::InsufficientData);
    }
    let last = read_offset(bytes, limit - w, w);
    assert(frame.subrange(frame.len() - w, frame.len() - w + w) =~= bytes@.subrange(
        limit - w,
        limit - w + w,
    ));
    if last > limit - first - w || (limit - first - last) % w != 0 {
        return Err(Error::IncorrectValue);
    }
    decode_framed(endian, strict, base, sig, entry, bytes, first, limit, first + last, w)
}

/// Reads an array or a dictionary, which fills the bytes from `at` up to
/// `limit`.
#[verifier::rlimit(60)]
#[verifier::spinoff_prover]
fn decode_sequence(
    endian: Endian,
    strict: bool,
    base: usize,
    sig: &Signature,
    bytes: &[u8],
    at: usize,
    limit: usize,
) -> (r: Result<(Value, usize), Error>)
    requires
        at <= limit <= bytes.len(),
    ensures
        read_as(
            r,
            at,
            decoded_sequence(
                endian,
                strict,
                (base + at) as nat,
                sig@,
                bytes@.subrange(at as int, limit as int),
            ),
        ),
        r matches Ok((_, end)) ==> end <= limit,
    decreases limit - at, sig, 8 + 2 * (limit - at),
{
    proof {
        reveal(decoded_sequence);
    }
    let ghost b = bytes@.subrange(at as int, limit as int);
    match sig {
        Signature::Array(element) => {
            proof {
                lemma_alignment_is_boundary(element@, Format::GVariant);
            }
            let a = element.alignment(Format::GVariant);
            let p = match read_padding(strict, base, a, bytes, at, limit) {
                Ok(p) => p,
                Err(e) => {
                    return Err(e);
                },
            };
            assert(b.skip(p as int) =~= bytes@.subrange(at + p, limit as int));
            match decode_sequence_items(
                endian,
                strict,
                base,
                element,
                false,
                element.is_fixed_size(),
                bytes,
                at + p,
                limit,
            ) {
                Ok(items) => {
                    let element = element.duplicate();
                    proof {
                        lemma_array_view(element, items);
                    }
                    Ok((Value::Array(element, items), limit))
                },
                Err(e) => Err(e),
            }
        },
        Signature::Dict { key, value } => {
            proof {
                lemma_entry(key@, value@);
            }
            let k = key.alignment(Format::GVariant);
            let v = value.alignment(Format::GVariant);
            let a = if k >= v {
                k
            } else {
                v
            };
            let p = match read_padding(strict, base, a, bytes, at, limit) {
                Ok(p) => p,
                Err(e) => {
                    return Err(e);
                },
            };
            assert(b.skip(p as int) =~= bytes@.subrange(at + p, limit as int));
            match decode_sequence_items(
                endian,
                strict,
                base,
                sig,
                true,
                key.is_fixed_size() && value.is_fixed_size(),
                bytes,
                at + p,
                limit,
            ) {
                Ok(entries) => {
                    let key = key.duplicate();
                    let value = value.duplicate();
                    proof {
                        lemma_dict_view(key, value, entries);
                    }
                    Ok((Value::Dict(key, value, entries), limit))
                },
                Err(e) => Err(e),
            }
        },
        _ => Err(Error::UnsupportedType(sig.to_string())),
    }
}

/// The structure of a key and a value.
fn make_pair(key: Value, value: Value) -> (r: Value)
    ensures
        r@ == ValueView::Structure(seq![key@, value@]),
{
    let mut parts: Vec<Value> = Vec::new();
    parts.push(key);
    parts.push(value);
    proof {
        lemma_structure_value_view(parts);
        assert(value_trees(parts@) =~= seq![key@, value@]);
    }
    Value::Structure(parts)
}

/// Reads an entry of a dictionary of the type `sig`.
#[verifier::rlimit(60)]
#[verifier::spinoff_prover]
fn decode_pair(
    endian: Endian,
    strict: bool,
    base: usize,
    sig: &Signature,
    bytes: &[u8],
    at: usize,
    limit: usize,
) -> (r: Result<(Value, usize), Error>)
    requires
        at <= limit <= bytes.len(),
    ensures
        read_as(
            r,
            at,
            decoded_pair(
                endian,
                strict,
                (base + at) as nat,
                sig@,
                bytes@.subrange(at as int, limit as int),
            ),
        ),
        r matches Ok((_, end)) ==> end <= limit,
    decreases limit - at, sig, 1nat,
{
    proof {
        reveal(decoded_pair);
    }
    let ghost b = bytes@.subrange(at as int, limit as int);
    match sig {
        Signature::Dict { key, value } => {
            proof {
                lemma_entry(key@, value@);
            }
            let k = key.alignment(Format::GVariant);
            let v = value.alignment(Format::GVariant);
            let a = if k >= v {
                k
            } else {
                v
            };
            let p = match read_padding(strict, base, a, bytes, at, limit) {
                Ok(p) => p,
                Err(e) => {
                    return Err(e);
                },
            };
            let start = at + p;
            let ghost frame = b.skip(p as int);
            assert(frame =~= bytes@.subrange(start as int, limit as int));
            if key.is_fixed_size() {
                let (first, e1) = match decode(endian, strict, base, key, bytes, start, limit) {
                    Ok(read) => read,
                    Err(e) => {
                        return Err(e);
                    },
                };
                assert(frame.skip(e1 - start) =~= bytes@.subrange(e1 as int, limit as int));
                let (second, e2) = match decode(endian, strict, base, value, bytes, e1, limit) {
                    Ok(read) => read,
                    Err(e) => {
                        return Err(e);
                    },
                };
                if value.is_fixed_size() {
                    assert(frame.skip((e1 - start) + (e2 - e1)) =~= bytes@.subrange(
                        e2 as int,
                        limit as int,
                    ));
                    let q = match read_padding(strict, base, a, bytes, e2, limit) {
                        Ok(q) => q,
                        Err(e) => {
                            return Err(e);
                        },
                    };
                    Ok((make_pair(first, second), e2 + q))
                } else if e2 != limit {
                    Err(Error::ExcessData)
                } else {
                    Ok((make_pair(first, second), limit))
                }
            } else {
                let w = match read_width(limit - start) {
                    Some(w) => w,
                    None => {
                        return Err(Error::UnsupportedType(sig.to_string()));
                    },
                };
                if limit - start < w {
                    return Err(Error::InsufficientData);
                }
                let table_start = limit - w;
                let end_rel = read_offset(bytes, table_start, w);
                assert(frame.subrange(table_start - start, table_start - start + w)
                    =~= bytes@.subrange(table_start as int, table_start + w));
                if end_rel > table_start - start {
                    return Err(Error::IncorrectValue);
                }
                let end = start + end_rel;
                assert(frame.take(end - start) =~= bytes@.subrange(start as int, end as int));
                let (first, stop) = match decode(endian, strict, base, key, bytes, start, end) {
                    Ok(read) => read,
                    Err(e) => {
                        return Err(e);
                    },
                };
                if stop != end {
                    return Err(Error::ExcessData);
                }
                assert(frame.subrange(end - start, table_start - start) =~= bytes@.subrange(
                    end as int,
                    table_start as int,
                ));
                let (second, stop) = match decode(
                    endian,
                    strict,
                    base,
                    value,
                    bytes,
                    end,
                    table_start,
                ) {
                    Ok(read) => read,
                    Err(e) => {
                        return Err(e);
                    },
                };
                if stop != table_start {
                    return Err(Error::ExcessData);
                }
                Ok((make_pair(first, second), limit))
            }
        },
        _ => Err(Error::UnsupportedType(sig.to_string())),
    }
}

/// Counts the fields whose end the table of their structure gives.
fn count_framed(fields: &Vec<Signature>) -> (r: usize)
    ensures
        r == framed_count(views(fields@)),
        r <= fields.len(),
{
    let ghost all = views(fields@);
    let n = fields.len();
    if n == 0 {
        return 0;
    }
    let mut count: usize = 0;
    let mut i: usize = n - 1;
    assert(all.skip(i as int).len() == 1);
    while i > 0
        invariant
            i < n,
            n == fields.len(),
            all == views(fields@),
            count == framed_count(all.skip(i as int)),
            count <= n - 1 - i,
        decreases i,
    {
        i -= 1;
        let ghost tail = all.skip(i as int);
        assert(tail[0] == fields[i as int]@);
        assert(tail.drop_first() =~= all.skip(i + 1));
        if !fields[i].is_fixed_size() {
            count += 1;
        }
    }
    assert(all.skip(0) =~= all);
    count
}

/// Reads the fields of a structure of a fixed size, one behind the other:
/// the fields, and the position behind the last.
#[verifier::rlimit(60)]
#[verifier::spinoff_prover]
fn decode_packed_members(
    endian: Endian,
    strict: bool,
    base: usize,
    fields: &Vec<Signature>,
    bytes: &[u8],
    at: usize,
    limit: usize,
) -> (r: Result<(Vec<Value>, usize), Error>)
    requires
        at <= limit <= bytes.len(),
    ensures
        match packed_members(
            endian,
            strict,
            (base + at) as nat,
            views(fields@),
            bytes@.subrange(at as int, limit as int),
        ) {
            Ok((items, n)) => r matches Ok((values, end)) && value_trees(values@) == items
                && end == at + n && end <= limit,
            Err(f) => r matches Err(e) && e.fault() == Some(f),
        },
    decreases limit - at, fields, 0nat,
{
    proof {
        reveal(packed_members);
    }
    let ghost all = views(fields@);
    let ghost whole = packed_members(
        endian,
        strict,
        (base + at) as nat,
        all,
        bytes@.subrange(at as int, limit as int),
    );
    let mut values: Vec<Value> = Vec::new();
    let mut cur: usize = at;
    let mut i: usize = 0;
    assert(value_trees(values@) =~= seq![]);
    assert(all.skip(0) =~= all);
    assert(whole == fields_behind(value_trees(values@), 0, whole)) by {
        if let Ok((more, n)) = whole {
            assert(value_trees(values@) + more =~= more);
        }
    }
    while i < fields.len()
        invariant
            i <= fields.len(),
            at <= cur <= limit <= bytes.len(),
            all == views(fields@),
            whole == packed_members(
                endian,
                strict,
                (base + at) as nat,
                all,
                bytes@.subrange(at as int, limit as int),
            ),
            whole == fields_behind(
                value_trees(values@),
                (cur - at) as nat,
                packed_members(
                    endian,
                    strict,
                    (base + cur) as nat,
                    all.skip(i as int),
                    bytes@.subrange(cur as int, limit as int),
                ),
            ),
        decreases fields.len() - i,
    {
        proof {
            reveal(packed_members);
        }
        let ghost window = bytes@.subrange(cur as int, limit as int);
        let ghost done = value_trees(values@);
        let ghost left = all.skip(i as int);
        assert(left.len() > 0);
        assert(left[0] == fields[i as int]@);
        assert(left.drop_first() =~= all.skip(i + 1));
        assert(decreases_to!(fields => fields[i as int]));
        match decode(endian, strict, base, &fields[i], bytes, cur, limit) {
            Err(e) => {
                return Err(e);
            },
            Ok((value, end)) => {
                let ghost v = value@;
                values.push(value);
                proof {
                    assert(value_trees(values@) =~= done + seq![v]);
                    assert(window.skip(end - cur) =~= bytes@.subrange(end as int, limit as int));
                    let rest = packed_members(
                        endian,
                        strict,
                        (base + end) as nat,
                        all.skip(i + 1),
                        bytes@.subrange(end as int, limit as int),
                    );
                    if let Ok((more, m)) = rest {
                        assert(done + (seq![v] + more) =~= (done + seq![v]) + more);
                    }
                }
                cur = end;
                i += 1;
            },
        }
    }
    assert(all.skip(fields.len() as int) =~= seq![]);
    assert(value_trees(values@) + Seq::<ValueView>::empty() =~= value_trees(values@));
    Ok((values, cur))
}

/// Reads a field of a structure without a fixed size: the field, where
/// it ends, and where the offsets of the fields behind it end.
#[verifier::rlimit(60)]
#[verifier::spinoff_prover]
fn decode_member(
    endian: Endian,
    strict: bool,
    base: usize,
    sig: &Signature,
    last: bool,
    bytes: &[u8],
    first: usize,
    limit: usize,
    table_start: usize,
    w: usize,
    slot: usize,
    cursor: usize,
) -> (r: Result<(Value, usize, usize), Error>)
    requires
        first <= cursor <= table_start <= limit <= bytes.len(),
        first <= slot <= limit,
        w == 1 || w == 2 || w == 4,
    ensures
        match member_read(
            endian,
            strict,
            (base + first) as nat,
            sig@,
            last,
            bytes@.subrange(first as int, limit as int),
            (table_start - first) as nat,
            w as nat,
            (slot - first) as nat,
            (cursor - first) as nat,
        ) {
            Ok((v, next, behind)) => r matches Ok((value, stop, next_slot)) && value@ == v && stop
                == first + next && next_slot == first + behind && cursor <= stop <= table_start
                && first <= next_slot <= limit,
            Err(f) => r matches Err(e) && e.fault() == Some(f),
        },
    decreases limit - first, sig, 10 + 2 * (limit - first),
{
    proof {
        reveal(member_read);
    }
    let ghost frame = bytes@.subrange(first as int, limit as int);
    let fixed = sig.is_fixed_size();
    if last || fixed {
        assert(frame.subrange(cursor - first, table_start - first) =~= bytes@.subrange(
            cursor as int,
            table_start as int,
        ));
        match decode(endian, strict, base, sig, bytes, cursor, table_start) {
            Err(e) => Err(e),
            Ok((value, stop)) => {
                if last && !fixed && stop != table_start {
                    Err(Error::ExcessData)
                } else {
                    Ok((value, stop, slot))
                }
            },
        }
    } else {
        if slot < table_start || slot - table_start < w {
            return Err(Error::InsufficientData);
        }
        let end_rel = read_offset(bytes, slot - w, w);
        assert(frame.subrange(slot - first - w, slot - first - w + w) =~= bytes@.subrange(
            slot - w,
            slot - w + w,
        ));
        if end_rel < cursor - first || end_rel > table_start - first {
            return Err(Error::IncorrectValue);
        }
        let end = first + end_rel;
        assert(frame.subrange(cursor - first, end - first) =~= bytes@.subrange(
            cursor as int,
            end as int,
        ));
        match decode(endian, strict, base, sig, bytes, cursor, end) {
            Err(e) => Err(e),
            Ok((value, stop)) => {
                if stop != end {
                    Err(Error::ExcessData)
                } else {
                    Ok((value, end, slot - w))
                }
            },
        }
    }
}

/// Reads the fields of a structure without a fixed size: the frame runs
/// from `first` up to `limit`, and its table starts at `table_start`.
#[verifier::rlimit(60)]
#[verifier::spinoff_prover]
fn decode_framed_members(
    endian: Endian,
    strict: bool,
    base: usize,
    fields: &Vec<Signature>,
    bytes: &[u8],
    first: usize,
    limit: usize,
    table_start: usize,
    w: usize,
) -> (r: Result<Vec<Value>, Error>)
    requires
        first <= table_start <= limit <= bytes.len(),
        w == 1 || w == 2 || w == 4,
    ensures
        match framed_members(
            endian,
            strict,
            (base + first) as nat,
            views(fields@),
            bytes@.subrange(first as int, limit as int),
            (table_start - first) as nat,
            w as nat,
            (limit - first) as nat,
            0,
        ) {
            Ok(items) => r matches Ok(values) && value_trees(values@) == items,
            Err(f) => r matches Err(e) && e.fault() == Some(f),
        },
    decreases limit - first, fields, 0nat,
{
    proof {
        reveal(framed_members);
    }
    let ghost all = views(fields@);
    let ghost frame = bytes@.subrange(first as int, limit as int);
    let ghost start = (base + first) as nat;
    let ghost ts = (table_start - first) as nat;
    let ghost whole = framed_members(
        endian,
        strict,
        start,
        all,
        frame,
        ts,
        w as nat,
        (limit - first) as nat,
        0,
    );
    let n = fields.len();
    let mut values: Vec<Value> = Vec::new();
    let mut cursor: usize = first;
    let mut slot: usize = limit;
    let mut i: usize = 0;
    assert(value_trees(values@) =~= seq![]);
    assert(all.skip(0) =~= all);
    assert(whole == items_behind(value_trees(values@), whole)) by {
        if let Ok(more) = whole {
            assert(value_trees(values@) + more =~= more);
        }
    }
    while i < n
        invariant
            i <= n,
            n == fields.len(),
            first <= cursor <= table_start <= limit <= bytes.len(),
            first <= slot <= limit,
            w == 1 || w == 2 || w == 4,
            all == views(fields@),
            frame == bytes@.subrange(first as int, limit as int),
            start == base + first,
            ts == table_start - first,
            whole == framed_members(
                endian,
                strict,
                start,
                all,
                frame,
                ts,
                w as nat,
                (limit - first) as nat,
                0,
            ),
            whole == items_behind(
                value_trees(values@),
                framed_members(
                    endian,
                    strict,
                    start,
                    all.skip(i as int),
                    frame,
                    ts,
                    w as nat,
                    (slot - first) as nat,
                    (cursor - first) as nat,
                ),
            ),
        decreases n - i,
    {
        proof {
            reveal(framed_members);
        }
        let ghost done = value_trees(values@);
        let ghost left = all.skip(i as int);
        assert(left.len() == n - i);
        assert(left[0] == fields[i as int]@);
        assert(left.drop_first() =~= all.skip(i + 1));
        assert(decreases_to!(fields => fields[i as int]));
        match decode_member(
            endian,
            strict,
            base,
            &fields[i],
            i + 1 == n,
            bytes,
            first,
            limit,
            table_start,
            w,
            slot,
            cursor,
        ) {
            Err(e) => {
                return Err(e);
            },
            Ok((value, stop, next_slot)) => {
                let ghost v = value@;
                values.push(value);
                proof {
                    assert(value_trees(values@) =~= done + seq![v]);
                    let rest = framed_members(
                        endian,
                        strict,
                        start,
                        all.skip(i + 1),
                        frame,
                        ts,
                        w as nat,
                        (next_slot - first) as nat,
                        (stop - first) as nat,
                    );
                    if let Ok(more) = rest {
                        assert(done + (seq![v] + more) =~= (done + seq![v]) + more);
                    }
                }
                cursor = stop;
                slot = next_slot;
                i += 1;
            },
        }
    }
    assert(all.skip(n as int) =~= seq![]);
    if cursor != table_start {
        return Err(Error::ExcessData);
    }
    assert(value_trees(values@) + Seq::<ValueView>::empty() =~= value_trees(values@));
    Ok(values)
}

/// Reads a structure.
#[verifier::rlimit(60)]
#[verifier::spinoff_prover]
fn decode_structure(
    endian: Endian,
    strict: bool,
    base: usize,
    sig: &Signature,
    bytes: &[u8],
    at: usize,
    limit: usize,
) -> (r: Result<(Value, usize), Error>)
    requires
        at <= limit <= bytes.len(),
    ensures
        read_as(
            r,
            at,
            decoded_structure(
                endian,
                strict,
                (base + at) as nat,
                sig@,
                bytes@.subrange(at as int, limit as int),
            ),
        ),
        r matches Ok((_, end)) ==> end <= limit,
    decreases limit - at, sig, 8 + 2 * (limit - at),
{
    proof {
        reveal(decoded_structure);
    }
    let ghost b = bytes@.subrange(at as int, limit as int);
    match sig {
        Signature::Structure(fields) => {
            proof {
                lemma_structure_view(*fields);
                lemma_alignment_is_boundary(sig@, Format::GVariant);
            }
            if fields.len() == 0 {
                return Err(Error::UnsupportedType(sig.to_string()));
            }
            let a = sig.alignment(Format::GVariant);
            let fixed = sig.is_fixed_size();
            let p = match read_padding(strict, base, a, bytes, at, limit) {
                Ok(p) => p,
                Err(e) => {
                    return Err(e);
                },
            };
            let start = at + p;
            let ghost frame = b.skip(p as int);
            assert(frame =~= bytes@.subrange(start as int, limit as int));
            assert(decreases_to!(sig => sig->Structure_0));
            if fixed {
                let (values, end) = match decode_packed_members(
                    endian,
                    strict,
                    base,
                    fields,
                    bytes,
                    start,
                    limit,
                ) {
                    Ok(read) => read,
                    Err(e) => {
                        return Err(e);
                    },
                };
                assert(frame.skip(end - start) =~= bytes@.subrange(end as int, limit as int));
                let q = match read_padding(strict, base, a, bytes, end, limit) {
                    Ok(q) => q,
                    Err(e) => {
                        return Err(e);
                    },
                };
                proof {
                    lemma_structure_value_view(values);
                }
                Ok((Value::Structure(values), end + q))
            } else {
                let w = match read_width(limit - start) {
                    Some(w) => w,
                    None => {
                        return Err(Error::UnsupportedType(sig.to_string()));
                    },
                };
                let count = count_framed(fields);
                let len = limit - start;
                let most = len / w;
                if count > most {
                    assert(count * w > len) by (nonlinear_arith)
                        requires
                            count > most,
                            most == len as int / w as int,
                            w > 0,
                    ;
                    return Err(Error::InsufficientData);
                }
                assert(count * w <= len) by (nonlinear_arith)
                    requires
                        count <= most,
                        most == len as int / w as int,
                        w > 0,
                        len >= 0,
                ;
                let table_start = limit - count * w;
                match decode_framed_members(
                    endian,
                    strict,
                    base,
                    fields,
                    bytes,
                    start,
                    limit,
                    table_start,
                    w,
                ) {
                    Ok(values) => {
                        proof {
                            lemma_structure_value_view(values);
                        }
                        Ok((Value::Structure(values), limit))
                    },
                    Err(e) => Err(e),
                }
            }
        },
        _ => Err(Error::UnsupportedType(sig.to_string())),
    }
}

/// Reads from `bytes` the value of type `sig` that starts at `at` and ends
/// before `limit`, in the GVariant encoding. The first byte of `bytes`
/// stands at position `base` of its message.
///
/// Gives the value and the position behind it. A variant, an array, a
/// dictionary and a structure without a fixed size take all the bytes up to
/// `limit`. Malformed bytes give an error and never a panic.
#[verifier::rlimit(60)]
#[verifier::spinoff_prover]
pub fn decode(
    endian: Endian,
    strict: bool,
    base: usize,
    sig: &Signature,
    bytes: &[u8],
    at: usize,
    limit: usize,
) -> (r: Result<(Value, usize), Error>)
    requires
        at <= limit <= bytes.len(),
    ensures
        read_as(
            r,
            at,
            decoded(
                endian,
                strict,
                (base + at) as nat,
                sig@,
                bytes@.subrange(at as int, limit as int),
            ),
        ),
        r matches Ok((_, end)) ==> end <= limit,
    decreases limit - at, sig, 9 + 2 * (limit - at),
{
    proof {
        reveal(decoded);
    }
    let ghost b = bytes@.subrange(at as int, limit as int);
    match sig {
        Signature::Bool => {
            if limit - at < 1 {
                return Err(Error::InsufficientData);
            }
            assert(b[0] == bytes@[at as int]);
            if bytes[at] == 0 {
                Ok((Value::Bool(false), at + 1))
            } else if bytes[at] == 1 {
                Ok((Value::Bool(true), at + 1))
            } else {
                Err(Error::IncorrectValue)
            }
        },
        Signature::Str | Signature::ObjectPath | Signature::Signature => decode_text(
            sig,
            bytes,
            at,
            limit,
        ),
        Signature::Variant => decode_variant(endian, strict, base, bytes, at, limit),
        Signature::Array(_) | Signature::Dict { .. } => decode_sequence(
            endian,
            strict,
            base,
            sig,
            bytes,
            at,
            limit,
        ),
        Signature::Structure(_) => decode_structure(endian, strict, base, sig, bytes, at, limit),
        Signature::U8
        | Signature::I16
        | Signature::U16
        | Signature::I32
        | Signature::U32
        | Signature::I64
        | Signature::U64
        | Signature::F64
        | Signature::Fd => decode_fixed(endian, strict, base, sig, bytes, at, limit),
        _ => Err(Error::UnsupportedType(sig.to_string())),
    }
}

} // verus!
