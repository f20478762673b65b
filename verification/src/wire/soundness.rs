//! What a reader hands out is a value of the type it was asked for,
//! whatever the bytes were.

use vstd::prelude::*;
use vstd::utf8::valid_utf8;
use crate::wire::dbus::{
    array_frame, decoded, decoded_array, decoded_dict, decoded_fields, decoded_fixed,
    decoded_items, decoded_structure, decoded_text, decoded_variant, is_fixed, is_text,
    padding_read, signature_read, string_read, variant_head,
};
use crate::wire::endian::Endian;
use crate::wire::gvariant as gv;
use crate::wire::offsets::{is_fixed_size, offset_at, width_in};
use crate::wire::error::Fault;
use crate::wire::grammar::{
    all_complete, lemma_parse_all_sound, lemma_parse_sound, MAX_SIGNATURE_LEN,
};
use crate::wire::signature::{Format, SignatureView};
use crate::wire::value::{entry_type, signatures, ValueView};

verus! {

/// What was read, if anything was read, is a well-typed value of the type
/// `sig`.
pub open spec fn is_typed(r: Result<(ValueView, nat), Fault>, sig: SignatureView) -> bool {
    r matches Ok((v, _)) ==> v.signature() == sig && v.is_well_typed()
}

/// Every value in `items` is a well-typed value of the type `element`.
pub open spec fn are_typed(items: Seq<ValueView>, element: SignatureView) -> bool {
    forall|i: int|
        0 <= i < items.len() ==> (#[trigger] items[i]).signature() == element
            && items[i].is_well_typed()
}

/// What is read as a number, a truth value or the index of a file
/// descriptor is one.
pub proof fn lemma_fixed_is_typed(
    endian: Endian,
    strict: bool,
    pos: nat,
    sig: SignatureView,
    b: Seq<u8>,
)
    requires
        is_fixed(sig),
    ensures
        is_typed(decoded_fixed(endian, strict, pos, sig, b), sig),
{
}

/// What is read as a string, an object path or a signature is one: the
/// path obeys the rules of paths, and the signature is a row of complete
/// types of at most 255 bytes.
pub proof fn lemma_text_is_typed(
    endian: Endian,
    strict: bool,
    pos: nat,
    sig: SignatureView,
    b: Seq<u8>,
)
    requires
        is_text(sig),
    ensures
        is_typed(decoded_text(endian, strict, pos, sig, b), sig),
{
    match sig {
        SignatureView::ObjectPath => {
            if let Ok((text, _)) = string_read(endian, strict, pos, b) {
                if valid_utf8(text) {
                    vstd::utf8::decode_utf8_encode_utf8(text);
                }
            }
        },
        SignatureView::Signature => {
            if let Ok((text, _)) = signature_read(b) {
                lemma_parse_all_sound(text);
            }
        },
        _ => {},
    }
}

/// The elements that are read for an array are well-typed values of the
/// type of its elements.
#[verifier::rlimit(60)]
#[verifier::spinoff_prover]
pub proof fn lemma_items_are_typed(
    endian: Endian,
    strict: bool,
    pos: nat,
    element: SignatureView,
    window: Seq<u8>,
)
    requires
        element.is_complete(),
    ensures
        decoded_items(endian, strict, pos, element, window) matches Ok(items) ==> are_typed(
            items,
            element,
        ),
    decreases window.len(), element, 4nat,
{
    if window.len() > 0 {
        lemma_decoded_is_typed(endian, strict, pos, element, window);
        if let Ok((first, n)) = decoded(endian, strict, pos, element, window) {
            if 0 < n <= window.len() {
                lemma_items_are_typed(endian, strict, pos + n, element, window.skip(n as int));
                if let Ok(rest) = decoded_items(
                    endian,
                    strict,
                    pos + n,
                    element,
                    window.skip(n as int),
                ) {
                    let items = seq![first] + rest;
                    assert forall|i: int| 0 <= i < items.len() implies (
                    #[trigger] items[i]).signature() == element && items[i].is_well_typed() by {
                        if i > 0 {
                            assert(items[i] == rest[i - 1]);
                        }
                    }
                }
            }
        }
    }
}

/// The fields that are read for a structure are well-typed values of the
/// types of its fields, one for one.
#[verifier::rlimit(60)]
#[verifier::spinoff_prover]
pub proof fn lemma_fields_are_typed(
    endian: Endian,
    strict: bool,
    pos: nat,
    fields: Seq<SignatureView>,
    b: Seq<u8>,
)
    requires
        all_complete(fields),
    ensures
        decoded_fields(endian, strict, pos, fields, b) matches Ok((values, _)) ==> signatures(
            values,
        ) == fields && values.len() == fields.len() && forall|i: int|
            0 <= i < values.len() ==> (#[trigger] values[i]).is_well_typed(),
    decreases b.len(), fields, 4nat,
{
    if fields.len() == 0 {
        assert(signatures(Seq::<ValueView>::empty()) =~= fields);
    } else {
        assert(fields[0].is_complete());
        lemma_decoded_is_typed(endian, strict, pos, fields[0], b);
        if let Ok((first, n)) = decoded(endian, strict, pos, fields[0], b) {
            if n <= b.len() {
                let others = fields.drop_first();
                assert(all_complete(others)) by {
                    assert forall|i: int| 0 <= i < others.len() implies (
                    #[trigger] others[i]).is_complete() by {
                        assert(others[i] == fields[i + 1]);
                    }
                }
                lemma_fields_are_typed(endian, strict, pos + n, others, b.skip(n as int));
                if let Ok((rest, _)) = decoded_fields(
                    endian,
                    strict,
                    pos + n,
                    others,
                    b.skip(n as int),
                ) {
                    let values = seq![first] + rest;
                    assert(values[0] == first);
                    assert(values.drop_first() =~= rest);
                    assert(signatures(values) =~= seq![first.signature()] + signatures(rest));
                    assert(signatures(values) =~= fields);
                    assert forall|i: int| 0 <= i < values.len() implies (
                    #[trigger] values[i]).is_well_typed() by {
                        if i > 0 {
                            assert(values[i] == rest[i - 1]);
                        }
                    }
                }
            }
        }
    }
}

/// The entries of a dictionary of well-formed type are of a complete type.
pub proof fn lemma_entry_is_complete(key: SignatureView, value: SignatureView)
    requires
        key.is_basic(),
        value.is_complete(),
    ensures
        entry_type(key, value).is_complete(),
{
    let both = seq![key, value];
    assert(both[0] == key && both[1] == value);
    assert(key.is_complete());
    assert forall|i: int| 0 <= i < both.len() implies (#[trigger] both[i]).is_complete() by {
        if i == 0 {
        } else {
        }
    }
}

/// What is read as a variant is one, with a well-typed value in it.
#[verifier::rlimit(60)]
#[verifier::spinoff_prover]
pub proof fn lemma_variant_is_typed(
    endian: Endian,
    strict: bool,
    pos: nat,
    sig: SignatureView,
    b: Seq<u8>,
)
    requires
        sig is Variant,
    ensures
        is_typed(decoded_variant(endian, strict, pos, sig, b), sig),
    decreases b.len(), sig, 2nat,
{
    if let Ok((n, inner_sig)) = variant_head(b) {
        if 0 < n <= b.len() {
            if let Ok((text, _)) = signature_read(b) {
                lemma_parse_sound(text, false);
                assert(text.take(text.len() as int) =~= text);
                assert(inner_sig.is_complete());
                assert(inner_sig.text().len() <= MAX_SIGNATURE_LEN);
            }
            lemma_decoded_is_typed(endian, strict, pos + n, inner_sig, b.skip(n as int));
        }
    }
}

/// What is read as an array is one, with well-typed elements of its type.
#[verifier::rlimit(60)]
#[verifier::spinoff_prover]
pub proof fn lemma_array_is_typed(
    endian: Endian,
    strict: bool,
    pos: nat,
    sig: SignatureView,
    b: Seq<u8>,
)
    requires
        sig is Array,
        sig.is_complete(),
    ensures
        is_typed(decoded_array(endian, strict, pos, sig, b), sig),
    decreases b.len(), sig, 2nat,
{
    let element = *sig->Array_0;
    if let Ok((first, n)) = array_frame(endian, strict, pos, element.alignment(Format::DBus), b) {
        if 0 < first && first + n <= b.len() {
            lemma_items_are_typed(
                endian,
                strict,
                pos + first,
                element,
                b.subrange(first as int, first as int + n as int),
            );
        }
    }
}

/// What is read as a dictionary is one, with well-typed entries of its
/// types.
#[verifier::rlimit(60)]
#[verifier::spinoff_prover]
pub proof fn lemma_dict_is_typed(
    endian: Endian,
    strict: bool,
    pos: nat,
    sig: SignatureView,
    b: Seq<u8>,
)
    requires
        sig is Dict,
        sig.is_complete(),
    ensures
        is_typed(decoded_dict(endian, strict, pos, sig, b), sig),
    decreases b.len(), sig, 2nat,
{
    let key = *sig->Dict_0;
    let value = *sig->Dict_1;
    lemma_entry_is_complete(key, value);
    if let Ok((first, n)) = array_frame(endian, strict, pos, 8, b) {
        if 0 < first && first + n <= b.len() {
            lemma_items_are_typed(
                endian,
                strict,
                pos + first,
                entry_type(key, value),
                b.subrange(first as int, first as int + n as int),
            );
        }
    }
}

/// What is read as a structure is one, with well-typed fields of its
/// types.
#[verifier::rlimit(60)]
#[verifier::spinoff_prover]
pub proof fn lemma_structure_is_typed(
    endian: Endian,
    strict: bool,
    pos: nat,
    sig: SignatureView,
    b: Seq<u8>,
)
    requires
        sig is Structure,
        sig.is_complete(),
    ensures
        is_typed(decoded_structure(endian, strict, pos, sig, b), sig),
    decreases b.len(), sig, 2nat,
{
    let fields = sig->Structure_0;
    if fields.len() > 0 {
        if let Ok(p) = padding_read(strict, pos, 8, b) {
            if p <= b.len() {
                lemma_fields_are_typed(endian, strict, pos + p, fields, b.skip(p as int));
            }
        }
    }
}

/// A reader never hands out a value of another type than it was asked
/// for, nor one that is not made as its kind demands: whatever the bytes,
/// the byte order and the position, what is read for a complete type is a
/// well-typed value of that type.
#[verifier::rlimit(60)]
#[verifier::spinoff_prover]
pub proof fn lemma_decoded_is_typed(
    endian: Endian,
    strict: bool,
    pos: nat,
    sig: SignatureView,
    b: Seq<u8>,
)
    requires
        sig.is_complete(),
    ensures
        is_typed(decoded(endian, strict, pos, sig, b), sig),
    decreases b.len(), sig, 3nat,
{
    match sig {
        SignatureView::Variant => {
            lemma_variant_is_typed(endian, strict, pos, sig, b);
        },
        SignatureView::Array(_) => {
            lemma_array_is_typed(endian, strict, pos, sig, b);
        },
        SignatureView::Dict(_, _) => {
            lemma_dict_is_typed(endian, strict, pos, sig, b);
        },
        SignatureView::Structure(_) => {
            lemma_structure_is_typed(endian, strict, pos, sig, b);
        },
        _ => {
            if is_fixed(sig) {
                lemma_fixed_is_typed(endian, strict, pos, sig, b);
            } else if is_text(sig) {
                lemma_text_is_typed(endian, strict, pos, sig, b);
            }
        },
    }
}

/// In the GVariant encoding too, what is read as a string, an object path
/// or a signature is one.
pub proof fn lemma_gv_text_is_typed(sig: SignatureView, b: Seq<u8>)
    requires
        is_text(sig),
    ensures
        is_typed(gv::decoded_text(sig, b), sig),
{
    if let Ok((text, _)) = gv::text_read(b) {
        match sig {
            SignatureView::ObjectPath => {
                if valid_utf8(text) {
                    vstd::utf8::decode_utf8_encode_utf8(text);
                }
            },
            SignatureView::Signature => {
                lemma_parse_all_sound(text);
            },
            _ => {},
        }
    }
}

/// What is read as an element of an array, or as an entry of a dictionary,
/// is a well-typed value of the type of the members.
#[verifier::rlimit(60)]
#[verifier::spinoff_prover]
pub proof fn lemma_gv_element_is_typed(
    endian: Endian,
    strict: bool,
    pos: nat,
    sig: SignatureView,
    entry: bool,
    window: Seq<u8>,
)
    requires
        sig.is_complete(),
        entry ==> sig is Dict,
    ensures
        is_typed(
            gv::decoded_element(endian, strict, pos, sig, entry, window),
            gv::member_type(sig, entry),
        ),
    decreases window.len(), sig, (if entry {
        2nat
    } else {
        10nat
    }) + 2 * window.len(),
{
    reveal(gv::decoded_element);
    if entry {
        lemma_gv_pair_is_typed(endian, strict, pos, sig, window);
    } else {
        lemma_gv_decoded_is_typed(endian, strict, pos, sig, window);
    }
}

/// The members of a fixed size that are read are well-typed values of
/// their type.
#[verifier::rlimit(60)]
#[verifier::spinoff_prover]
pub proof fn lemma_gv_packed_items_are_typed(
    endian: Endian,
    strict: bool,
    pos: nat,
    sig: SignatureView,
    entry: bool,
    window: Seq<u8>,
)
    requires
        sig.is_complete(),
        entry ==> sig is Dict,
    ensures
        gv::packed_items(endian, strict, pos, sig, entry, window) matches Ok(items) ==> are_typed(
            items,
            gv::member_type(sig, entry),
        ),
    decreases window.len(), sig, (if entry {
        3nat
    } else {
        11nat
    }) + 2 * window.len(),
{
    reveal(gv::packed_items);
    if window.len() > 0 {
        lemma_gv_element_is_typed(endian, strict, pos, sig, entry, window);
        if let Ok((first, n)) = gv::decoded_element(endian, strict, pos, sig, entry, window) {
            if 0 < n <= window.len() {
                lemma_gv_packed_items_are_typed(
                    endian,
                    strict,
                    pos + n,
                    sig,
                    entry,
                    window.skip(n as int),
                );
                if let Ok(rest) = gv::packed_items(
                    endian,
                    strict,
                    pos + n,
                    sig,
                    entry,
                    window.skip(n as int),
                ) {
                    let items = seq![first] + rest;
                    assert forall|i: int| 0 <= i < items.len() implies (
                    #[trigger] items[i]).signature() == gv::member_type(sig, entry)
                        && items[i].is_well_typed() by {
                        if i > 0 {
                            assert(items[i] == rest[i - 1]);
                        }
                    }
                }
            }
        }
    }
}

/// The members that are read by the ends in a table are well-typed values
/// of their type.
#[verifier::rlimit(60)]
#[verifier::spinoff_prover]
pub proof fn lemma_gv_framed_items_are_typed(
    endian: Endian,
    strict: bool,
    start: nat,
    sig: SignatureView,
    entry: bool,
    frame: Seq<u8>,
    table_start: nat,
    w: nat,
    slot: nat,
    cursor: nat,
)
    requires
        sig.is_complete(),
        entry ==> sig is Dict,
    ensures
        gv::framed_items(endian, strict, start, sig, entry, frame, table_start, w, slot, cursor)
            matches Ok(items) ==> are_typed(items, gv::member_type(sig, entry)),
    decreases frame.len(), sig, (if entry {
        3nat
    } else {
        11nat
    }) + 2 * frame.len() - (if slot <= frame.len() {
        slot
    } else {
        frame.len()
    }),
{
    reveal(gv::framed_items);
    if !(w == 0 || slot + w > frame.len()) {
        let end = offset_at(frame, slot as int, w);
        if cursor <= end && end <= table_start && table_start <= slot {
            let window = frame.subrange(cursor as int, end as int);
            lemma_gv_element_is_typed(endian, strict, start + cursor, sig, entry, window);
            if let Ok((first, n)) = gv::decoded_element(
                endian,
                strict,
                start + cursor,
                sig,
                entry,
                window,
            ) {
                if n == end - cursor {
                    lemma_gv_framed_items_are_typed(
                        endian,
                        strict,
                        start,
                        sig,
                        entry,
                        frame,
                        table_start,
                        w,
                        slot + w,
                        end,
                    );
                    if let Ok(rest) = gv::framed_items(
                        endian,
                        strict,
                        start,
                        sig,
                        entry,
                        frame,
                        table_start,
                        w,
                        slot + w,
                        end,
                    ) {
                        let items = seq![first] + rest;
                        assert forall|i: int| 0 <= i < items.len() implies (
                        #[trigger] items[i]).signature() == gv::member_type(sig, entry)
                            && items[i].is_well_typed() by {
                            if i > 0 {
                                assert(items[i] == rest[i - 1]);
                            }
                        }
                    }
                }
            }
        }
    }
}

/// What is read as an array or a dictionary is one, with well-typed
/// members of its type.
#[verifier::rlimit(60)]
#[verifier::spinoff_prover]
pub proof fn lemma_gv_sequence_is_typed(
    endian: Endian,
    strict: bool,
    pos: nat,
    sig: SignatureView,
    b: Seq<u8>,
)
    requires
        sig is Array || sig is Dict,
        sig.is_complete(),
    ensures
        is_typed(gv::decoded_sequence(endian, strict, pos, sig, b), sig),
    decreases b.len(), sig, 8 + 2 * b.len(),
{
    reveal(gv::decoded_sequence);
    reveal(gv::sequence_items);
    let entry = sig is Dict;
    let (of, member_sig) = match sig {
        SignatureView::Array(element) => (*element, *element),
        SignatureView::Dict(key, value) => (entry_type(*key, *value), sig),
        _ => (sig, sig),
    };
    if entry {
        lemma_entry_is_complete(*sig->Dict_0, *sig->Dict_1);
    }
    if let Ok(p) = padding_read(strict, pos, of.alignment(Format::GVariant), b) {
        if p <= b.len() {
            let frame = b.skip(p as int);
            if is_fixed_size(of) {
                lemma_gv_packed_items_are_typed(endian, strict, pos + p, member_sig, entry, frame);
            } else if frame.len() > 0 {
                if let Ok((table_start, w)) = gv::array_table(frame) {
                    lemma_gv_framed_items_are_typed(
                        endian,
                        strict,
                        pos + p,
                        member_sig,
                        entry,
                        frame,
                        table_start,
                        w,
                        table_start,
                        0,
                    );
                }
            }
        }
    }
}

/// What is read as an entry of a dictionary is a structure of a
/// well-typed key and a well-typed value of the types of the dictionary.
#[verifier::rlimit(100)]
#[verifier::spinoff_prover]
pub proof fn lemma_gv_pair_is_typed(
    endian: Endian,
    strict: bool,
    pos: nat,
    sig: SignatureView,
    b: Seq<u8>,
)
    requires
        sig is Dict,
        sig.is_complete(),
    ensures
        is_typed(gv::decoded_pair(endian, strict, pos, sig, b), gv::member_type(sig, true)),
    decreases b.len(), sig, 1nat,
{
    reveal(gv::decoded_pair);
    let key = *sig->Dict_0;
    let value = *sig->Dict_1;
    let a = entry_type(key, value).alignment(Format::GVariant);
    assert(key.is_complete());
    if let Ok(p) = padding_read(strict, pos, a, b) {
        if p <= b.len() {
            let frame = b.skip(p as int);
            let start = pos + p;
            if is_fixed_size(key) {
                lemma_gv_decoded_is_typed(endian, strict, start, key, frame);
                if let Ok((k, n)) = gv::decoded(endian, strict, start, key, frame) {
                    if n <= frame.len() {
                        let behind = frame.skip(n as int);
                        lemma_gv_decoded_is_typed(endian, strict, start + n, value, behind);
                        if let Ok((v, _)) = gv::decoded(endian, strict, start + n, value, behind) {
                            lemma_pair_signature(k, v);
                        }
                    }
                }
            } else {
                let w = width_in(frame.len());
                if frame.len() <= crate::wire::dbus::MAX_ENCODED_LEN && frame.len() >= w {
                    let table_start = (frame.len() - w) as nat;
                    let end = offset_at(frame, table_start as int, w);
                    if end <= table_start {
                        let first = frame.take(end as int);
                        let second = frame.subrange(end as int, table_start as int);
                        lemma_gv_decoded_is_typed(endian, strict, start, key, first);
                        lemma_gv_decoded_is_typed(endian, strict, start + end, value, second);
                        if let Ok((k, _)) = gv::decoded(endian, strict, start, key, first) {
                            if let Ok((v, _)) = gv::decoded(
                                endian,
                                strict,
                                start + end,
                                value,
                                second,
                            ) {
                                lemma_pair_signature(k, v);
                            }
                        }
                    }
                }
            }
        }
    }
}

/// The signature of a structure of two values is the structure of their
/// signatures, and the structure is well typed where the two are.
pub proof fn lemma_pair_signature(k: ValueView, v: ValueView)
    ensures
        ValueView::Structure(seq![k, v]).signature() == entry_type(k.signature(), v.signature()),
        k.is_well_typed() && v.is_well_typed() ==> ValueView::Structure(
            seq![k, v],
        ).is_well_typed(),
{
    let both = seq![k, v];
    let rest = both.drop_first();
    assert(both[0] == k);
    assert(rest[0] == v);
    assert(rest.drop_first() =~= seq![]);
    assert(signatures(rest.drop_first()) =~= seq![]);
    assert(signatures(rest) =~= seq![v.signature()]);
    assert(signatures(both) =~= seq![k.signature(), v.signature()]);
}

/// The fields of a fixed size that are read for a structure are
/// well-typed values of the types of its fields, one for one.
#[verifier::rlimit(60)]
#[verifier::spinoff_prover]
pub proof fn lemma_gv_packed_members_are_typed(
    endian: Endian,
    strict: bool,
    pos: nat,
    fields: Seq<SignatureView>,
    b: Seq<u8>,
)
    requires
        all_complete(fields),
    ensures
        gv::packed_members(endian, strict, pos, fields, b) matches Ok((values, _)) ==> signatures(
            values,
        ) == fields && values.len() == fields.len() && forall|i: int|
            0 <= i < values.len() ==> (#[trigger] values[i]).is_well_typed(),
    decreases b.len(), fields, 0nat,
{
    reveal(gv::packed_members);
    if fields.len() == 0 {
        assert(signatures(Seq::<ValueView>::empty()) =~= fields);
    } else {
        assert(fields[0].is_complete());
        lemma_gv_decoded_is_typed(endian, strict, pos, fields[0], b);
        if let Ok((first, n)) = gv::decoded(endian, strict, pos, fields[0], b) {
            if n <= b.len() {
                let others = fields.drop_first();
                assert(all_complete(others)) by {
                    assert forall|i: int| 0 <= i < others.len() implies (
                    #[trigger] others[i]).is_complete() by {
                        assert(others[i] == fields[i + 1]);
                    }
                }
                lemma_gv_packed_members_are_typed(endian, strict, pos + n, others, b.skip(n as int));
                if let Ok((rest, _)) = gv::packed_members(
                    endian,
                    strict,
                    pos + n,
                    others,
                    b.skip(n as int),
                ) {
                    lemma_row_is_typed(first, rest, fields);
                }
            }
        }
    }
}

/// A value of the first type in front of values of the other types is a
/// row of values of the types.
pub proof fn lemma_row_is_typed(first: ValueView, rest: Seq<ValueView>, fields: Seq<SignatureView>)
    requires
        fields.len() > 0,
        first.signature() == fields[0],
        first.is_well_typed(),
        signatures(rest) == fields.drop_first(),
        rest.len() == fields.len() - 1,
        forall|i: int| 0 <= i < rest.len() ==> (#[trigger] rest[i]).is_well_typed(),
    ensures
        signatures(seq![first] + rest) == fields,
        (seq![first] + rest).len() == fields.len(),
        forall|i: int|
            0 <= i < fields.len() ==> (#[trigger] (seq![first] + rest)[i]).is_well_typed(),
{
    let values = seq![first] + rest;
    assert(values[0] == first);
    assert(values.drop_first() =~= rest);
    assert(signatures(values) =~= seq![first.signature()] + signatures(rest));
    assert(signatures(values) =~= fields);
    assert forall|i: int| 0 <= i < fields.len() implies (#[trigger] values[i]).is_well_typed() by {
        if i > 0 {
            assert(values[i] == rest[i - 1]);
        }
    }
}

/// The fields that are read for a structure without a fixed size are
/// well-typed values of the types of its fields, one for one.
#[verifier::rlimit(60)]
#[verifier::spinoff_prover]
pub proof fn lemma_gv_framed_members_are_typed(
    endian: Endian,
    strict: bool,
    start: nat,
    fields: Seq<SignatureView>,
    frame: Seq<u8>,
    table_start: nat,
    w: nat,
    slot: nat,
    cursor: nat,
)
    requires
        all_complete(fields),
    ensures
        gv::framed_members(endian, strict, start, fields, frame, table_start, w, slot, cursor)
            matches Ok(values) ==> signatures(values) == fields && values.len() == fields.len()
            && forall|i: int| 0 <= i < values.len() ==> (#[trigger] values[i]).is_well_typed(),
    decreases frame.len(), fields, 0nat,
{
    reveal(gv::framed_members);
    if fields.len() == 0 {
        assert(signatures(Seq::<ValueView>::empty()) =~= fields);
    } else {
        assert(fields[0].is_complete());
        lemma_gv_member_is_typed(
            endian,
            strict,
            start,
            fields[0],
            fields.len() == 1,
            frame,
            table_start,
            w,
            slot,
            cursor,
        );
        if let Ok((first, next, behind)) = gv::member_read(
            endian,
            strict,
            start,
            fields[0],
            fields.len() == 1,
            frame,
            table_start,
            w,
            slot,
            cursor,
        ) {
            let others = fields.drop_first();
            assert(all_complete(others)) by {
                assert forall|i: int| 0 <= i < others.len() implies (
                #[trigger] others[i]).is_complete() by {
                    assert(others[i] == fields[i + 1]);
                }
            }
            lemma_gv_framed_members_are_typed(
                endian,
                strict,
                start,
                others,
                frame,
                table_start,
                w,
                behind,
                next,
            );
            if let Ok(rest) = gv::framed_members(
                endian,
                strict,
                start,
                others,
                frame,
                table_start,
                w,
                behind,
                next,
            ) {
                lemma_row_is_typed(first, rest, fields);
            }
        }
    }
}

/// The field that is read for a structure without a fixed size is a
/// well-typed value of its type.
#[verifier::rlimit(60)]
#[verifier::spinoff_prover]
pub proof fn lemma_gv_member_is_typed(
    endian: Endian,
    strict: bool,
    start: nat,
    sig: SignatureView,
    last: bool,
    frame: Seq<u8>,
    table_start: nat,
    w: nat,
    slot: nat,
    cursor: nat,
)
    requires
        sig.is_complete(),
    ensures
        gv::member_read(endian, strict, start, sig, last, frame, table_start, w, slot, cursor)
            matches Ok((v, _, _)) ==> v.signature() == sig && v.is_well_typed(),
    decreases frame.len(), sig, 10 + 2 * frame.len(),
{
    reveal(gv::member_read);
    if !(cursor > table_start || table_start > frame.len()) {
        if last || is_fixed_size(sig) {
            lemma_gv_decoded_is_typed(
                endian,
                strict,
                start + cursor,
                sig,
                frame.subrange(cursor as int, table_start as int),
            );
        } else if !(slot < table_start + w || slot > frame.len()) {
            let end = offset_at(frame, slot - w, w);
            if cursor <= end && end <= table_start {
                lemma_gv_decoded_is_typed(
                    endian,
                    strict,
                    start + cursor,
                    sig,
                    frame.subrange(cursor as int, end as int),
                );
            }
        }
    }
}

/// What is read as a structure is one, with well-typed fields of its
/// types.
#[verifier::rlimit(60)]
#[verifier::spinoff_prover]
pub proof fn lemma_gv_structure_is_typed(
    endian: Endian,
    strict: bool,
    pos: nat,
    sig: SignatureView,
    b: Seq<u8>,
)
    requires
        sig is Structure,
        sig.is_complete(),
    ensures
        is_typed(gv::decoded_structure(endian, strict, pos, sig, b), sig),
    decreases b.len(), sig, 8 + 2 * b.len(),
{
    reveal(gv::decoded_structure);
    let fields = sig->Structure_0;
    if fields.len() > 0 {
        let a = sig.alignment(Format::GVariant);
        if let Ok(p) = padding_read(strict, pos, a, b) {
            if p <= b.len() {
                let frame = b.skip(p as int);
                let start = pos + p;
                if is_fixed_size(sig) {
                    lemma_gv_packed_members_are_typed(endian, strict, start, fields, frame);
                } else {
                    let w = width_in(frame.len());
                    let table_len = gv::framed_count(fields) * w;
                    if table_len <= frame.len() {
                        lemma_gv_framed_members_are_typed(
                            endian,
                            strict,
                            start,
                            fields,
                            frame,
                            (frame.len() - table_len) as nat,
                            w,
                            frame.len(),
                            0,
                        );
                    }
                }
            }
        }
    }
}

/// What is read as a variant is one, with a well-typed value in it.
#[verifier::rlimit(60)]
#[verifier::spinoff_prover]
pub proof fn lemma_gv_variant_is_typed(endian: Endian, strict: bool, pos: nat, b: Seq<u8>)
    ensures
        is_typed(gv::decoded_variant(endian, strict, pos, b), SignatureView::Variant),
    decreases b.len(), SignatureView::Variant, 0nat,
{
    reveal(gv::decoded_variant);
    if let Ok((p, z, inner_sig)) = gv::variant_frame(strict, pos, b) {
        if p + z < b.len() {
            let frame = b.skip(p as int);
            let text = frame.skip(z as int + 1);
            lemma_parse_sound(text, false);
            assert(text.take(text.len() as int) =~= text);
            assert(inner_sig.is_complete());
            assert(inner_sig.text().len() <= MAX_SIGNATURE_LEN);
            lemma_gv_decoded_is_typed(
                endian,
                strict,
                pos + p,
                inner_sig,
                b.subrange(p as int, p as int + z as int),
            );
        }
    }
}

/// In the GVariant encoding too, a reader never hands out a value of
/// another type than it was asked for, nor one that is not made as its kind
/// demands.
#[verifier::rlimit(60)]
#[verifier::spinoff_prover]
pub proof fn lemma_gv_decoded_is_typed(
    endian: Endian,
    strict: bool,
    pos: nat,
    sig: SignatureView,
    b: Seq<u8>,
)
    requires
        sig.is_complete(),
    ensures
        is_typed(gv::decoded(endian, strict, pos, sig, b), sig),
    decreases b.len(), sig, 9 + 2 * b.len(),
{
    reveal(gv::decoded);
    match sig {
        SignatureView::Bool => {},
        SignatureView::Variant => {
            lemma_gv_variant_is_typed(endian, strict, pos, b);
        },
        SignatureView::Array(_) | SignatureView::Dict(_, _) => {
            lemma_gv_sequence_is_typed(endian, strict, pos, sig, b);
        },
        SignatureView::Structure(_) => {
            lemma_gv_structure_is_typed(endian, strict, pos, sig, b);
        },
        _ => {
            if is_text(sig) {
                lemma_gv_text_is_typed(sig, b);
            } else if is_fixed(sig) {
                lemma_fixed_is_typed(endian, strict, pos, sig, b);
            }
        },
    }
}

} // verus!
