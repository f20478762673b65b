//! Why the GVariant encoding reads back what it wrote: where the members
//! of a container stand in its bytes, and what its table says of them.

use vstd::prelude::*;
use crate::wire::context::{padding, zeros};
use crate::wire::dbus::{is_fixed, lemma_fixed_roundtrip, lemma_padding_read, MAX_ENCODED_LEN};
use crate::wire::endian::Endian;
use crate::wire::error::Fault;
use crate::wire::gvariant::{
    array_bytes, array_table, decoded, decoded_element, decoded_pair, decoded_sequence,
    decoded_structure, encoded, framed_count, framed_ends, framed_items, framed_members,
    is_supported, lemma_roundtrip, lemma_row_ends, member_read, member_type, packed_items,
    packed_members, row, row_ends, sequence_items,
};
use crate::wire::offsets::{
    is_boundary, is_fixed_size, lemma_alignment_is_boundary, lemma_offset_len,
    lemma_offset_roundtrip, lemma_signatures, lemma_table_len, offset_at, offset_bytes,
    offset_width, table, table_back, width_in,
};
use crate::wire::signature::{Format, SignatureView};
use crate::wire::value::{entry_type, signatures, ValueView};

verus! {

/// The width that a writer gives the offsets of a container is the one
/// that a reader takes from the length of the container, and every offset
/// into the container fits into it.
pub proof fn lemma_width_agrees(body: nat, count: nat)
    requires
        body + count * offset_width(body, count) <= MAX_ENCODED_LEN,
    ensures
        ({
            let w = offset_width(body, count);
            &&& w == 1 || w == 2 || w == 4
            &&& width_in(body + count * w) == w
            &&& w == 1 ==> body <= 0xff
            &&& w == 2 ==> body <= 0xffff
            &&& w == 4 ==> body <= 0xffff_ffff
        }),
{
    let w = offset_width(body, count);
    assert(count * 1 == count);
    assert(count * 8 >= count * 4 >= count * 2 >= count) by (nonlinear_arith);
}

/// The offsets of a table stand in it one behind the other.
pub proof fn lemma_table_entry(ends: Seq<nat>, w: nat, i: int)
    requires
        is_boundary(w),
        0 <= i < ends.len(),
    ensures
        table(ends, w).len() == ends.len() * w,
        0 <= i * w && i * w + w <= ends.len() * w,
        table(ends, w).subrange(i * w, i * w + w) == offset_bytes(ends[i], w),
    decreases ends.len(),
{
    let n = ends.len() as int;
    let front = ends.drop_last();
    lemma_table_len(ends, w);
    lemma_table_len(front, w);
    lemma_offset_len(ends.last(), w);
    assert(0 <= i * w && i * w + w <= n * w && (n - 1) * w + w == n * w) by (nonlinear_arith)
        requires
            0 <= i < n,
            w > 0,
    ;
    if i == n - 1 {
        assert(table(ends, w).subrange(i * w, i * w + w) =~= offset_bytes(ends[i], w));
    } else {
        lemma_table_entry(front, w, i);
        assert(i * w + w <= (n - 1) * w) by (nonlinear_arith)
            requires
                0 <= i < n - 1,
                w > 0,
        ;
        assert(table(ends, w).subrange(i * w, i * w + w) =~= table(front, w).subrange(
            i * w,
            i * w + w,
        ));
    }
}

/// The offsets of a table that is written backwards stand in it from the
/// last to the first.
pub proof fn lemma_table_back_entry(ends: Seq<nat>, w: nat, i: int)
    requires
        is_boundary(w),
        0 <= i < ends.len(),
    ensures
        table_back(ends, w).len() == ends.len() * w,
        0 <= (ends.len() - 1 - i) * w && (ends.len() - 1 - i) * w + w <= ends.len() * w,
        table_back(ends, w).subrange((ends.len() - 1 - i) * w, (ends.len() - 1 - i) * w + w)
            == offset_bytes(ends[i], w),
    decreases ends.len(),
{
    let n = ends.len() as int;
    let back = ends.drop_first();
    lemma_table_len(ends, w);
    lemma_table_len(back, w);
    lemma_offset_len(ends[0], w);
    assert(0 <= (n - 1 - i) * w && (n - 1 - i) * w + w <= n * w && (n - 1) * w + w == n * w)
        by (nonlinear_arith)
        requires
            0 <= i < n,
            w > 0,
    ;
    if i == 0 {
        assert(table_back(ends, w).subrange((n - 1) * w, (n - 1) * w + w) =~= offset_bytes(
            ends[0],
            w,
        ));
    } else {
        lemma_table_back_entry(back, w, i - 1);
        assert(back[i - 1] == ends[i]);
        assert((n - 1 - i) * w + w <= (n - 1) * w) by (nonlinear_arith)
            requires
                0 < i < n,
                w > 0,
        ;
        assert(table_back(ends, w).subrange((n - 1 - i) * w, (n - 1 - i) * w + w)
            =~= table_back(back, w).subrange((n - 1 - i) * w, (n - 1 - i) * w + w));
    }
}

/// The bytes of the first `k` values of a row are the first bytes of the
/// row.
pub proof fn lemma_row_prefix(endian: Endian, start: nat, items: Seq<ValueView>, k: int)
    requires
        0 <= k <= items.len(),
    ensures
        row(endian, start, items.take(k)).len() <= row(endian, start, items).len(),
        row(endian, start, items).take(row(endian, start, items.take(k)).len() as int) == row(
            endian,
            start,
            items.take(k),
        ),
    decreases items.len(),
{
    let whole = row(endian, start, items);
    if k == items.len() {
        assert(items.take(k) =~= items);
        assert(whole.take(whole.len() as int) =~= whole);
    } else {
        let front = items.drop_last();
        assert(front.take(k) =~= items.take(k));
        lemma_row_prefix(endian, start, front, k);
        let part = row(endian, start, items.take(k));
        assert(whole.take(part.len() as int) =~= row(endian, start, front).take(
            part.len() as int,
        ));
    }
}

/// Where a value of a row stands in the bytes of the row: behind the
/// values in front of it, at the position that they lead to.
pub proof fn lemma_row_segment(endian: Endian, start: nat, items: Seq<ValueView>, k: int)
    requires
        0 <= k < items.len(),
    ensures
        ({
            let a = row(endian, start, items.take(k)).len();
            let b = row(endian, start, items.take(k + 1)).len();
            &&& a <= b <= row(endian, start, items).len()
            &&& b == a + encoded(endian, start + a, items[k]).len()
            &&& row(endian, start, items).subrange(a as int, b as int) == encoded(
                endian,
                start + a,
                items[k],
            )
        }),
{
    let whole = row(endian, start, items);
    let before = row(endian, start, items.take(k));
    let with = row(endian, start, items.take(k + 1));
    lemma_row_prefix(endian, start, items, k);
    lemma_row_prefix(endian, start, items, k + 1);
    assert(items.take(k + 1).drop_last() =~= items.take(k));
    assert(items.take(k + 1).last() == items[k]);
    assert(with == before + encoded(endian, start + before.len(), items[k]));
    assert(whole.subrange(before.len() as int, with.len() as int) =~= whole.take(
        with.len() as int,
    ).skip(before.len() as int));
    assert(with.skip(before.len() as int) =~= encoded(endian, start + before.len(), items[k]));
}

/// What is left of a row behind its first `k` values starts with the next
/// value.
pub proof fn lemma_row_rest(endian: Endian, start: nat, items: Seq<ValueView>, k: int)
    requires
        0 <= k < items.len(),
    ensures
        ({
            let a = row(endian, start, items.take(k)).len();
            let b = row(endian, start, items.take(k + 1)).len();
            row(endian, start, items).skip(a as int) == encoded(endian, start + a, items[k])
                + row(endian, start, items).skip(b as int)
        }),
{
    let whole = row(endian, start, items);
    let a = row(endian, start, items.take(k)).len() as int;
    let b = row(endian, start, items.take(k + 1)).len() as int;
    lemma_row_segment(endian, start, items, k);
    assert(whole.skip(a) =~= whole.subrange(a, b) + whole.skip(b));
}

/// A value of a fixed size is read back from its bytes as itself, whatever
/// bytes follow them; and it takes a byte at least.
#[verifier::rlimit(60)]
#[verifier::spinoff_prover]
pub proof fn lemma_fixed_prefix(
    endian: Endian,
    strict: bool,
    pos: nat,
    v: ValueView,
    rest: Seq<u8>,
)
    requires
        v.is_well_typed(),
        is_fixed_size(v.signature()),
    ensures
        encoded(endian, pos, v).len() > 0,
        decoded(endian, strict, pos, v.signature(), encoded(endian, pos, v) + rest) == Ok::<
            (ValueView, nat),
            Fault,
        >((v, encoded(endian, pos, v).len())),
    decreases v, 1nat,
{
    reveal(decoded);
    let b = encoded(endian, pos, v);
    match v {
        ValueView::Bool(x) => {
            assert((b + rest)[0] == if x { 1u8 } else { 0u8 });
        },
        ValueView::Structure(fields) => {
            lemma_fixed_structure(endian, strict, pos, v, rest);
        },
        _ => {
            lemma_fixed_roundtrip(endian, strict, pos, v, rest);
            assert(crate::wire::dbus::decoded(endian, strict, pos, v.signature(), b + rest)
                == crate::wire::dbus::decoded_fixed(endian, strict, pos, v.signature(), b + rest));
        },
    }
}

/// The fields of a structure of a fixed size are read back from `k` on,
/// one behind the other.
#[verifier::rlimit(60)]
#[verifier::spinoff_prover]
pub proof fn lemma_packed_members(
    endian: Endian,
    strict: bool,
    start: nat,
    fields: Seq<ValueView>,
    k: int,
    rest: Seq<u8>,
)
    requires
        0 <= k <= fields.len(),
        forall|i: int|
            0 <= i < fields.len() ==> (#[trigger] fields[i]).is_well_typed() && is_fixed_size(
                fields[i].signature(),
            ),
    ensures
        ({
            let body = row(endian, start, fields);
            let a = row(endian, start, fields.take(k)).len();
            &&& a <= body.len()
            &&& packed_members(
                endian,
                strict,
                start + a,
                signatures(fields).skip(k),
                body.skip(a as int) + rest,
            ) == Ok::<(Seq<ValueView>, nat), Fault>((fields.skip(k), (body.len() - a) as nat))
        }),
    decreases fields, 0nat, fields.len() - k,
{
    reveal(packed_members);
    let body = row(endian, start, fields);
    let a = row(endian, start, fields.take(k)).len();
    let types = signatures(fields);
    lemma_signatures(fields);
    lemma_row_prefix(endian, start, fields, k);
    if k == fields.len() {
        assert(fields.take(k) =~= fields);
        assert(types.skip(k) =~= seq![]);
        assert(fields.skip(k) =~= seq![]);
    } else {
        let b = row(endian, start, fields.take(k + 1)).len();
        let item = fields[k];
        let window = body.skip(a as int) + rest;
        lemma_row_segment(endian, start, fields, k);
        lemma_row_rest(endian, start, fields, k);
        let behind = body.skip(b as int) + rest;
        assert(window =~= encoded(endian, start + a, item) + behind);
        assert(types.skip(k)[0] == item.signature());
        assert(types.skip(k).drop_first() =~= types.skip(k + 1));
        lemma_fixed_prefix(endian, strict, start + a, item, behind);
        lemma_packed_members(endian, strict, start, fields, k + 1, rest);
        assert(window.skip(b - a) =~= behind);
        assert(seq![item] + fields.skip(k + 1) =~= fields.skip(k));
    }
}

/// A structure of a fixed size is read back from its bytes as itself,
/// whatever bytes follow them.
#[verifier::rlimit(60)]
#[verifier::spinoff_prover]
pub proof fn lemma_fixed_structure(
    endian: Endian,
    strict: bool,
    pos: nat,
    v: ValueView,
    rest: Seq<u8>,
)
    requires
        v is Structure,
        v.is_well_typed(),
        is_fixed_size(v.signature()),
    ensures
        encoded(endian, pos, v).len() > 0,
        decoded_structure(endian, strict, pos, v.signature(), encoded(endian, pos, v) + rest)
            == Ok::<(ValueView, nat), Fault>((v, encoded(endian, pos, v).len())),
    decreases v, 0nat,
{
    reveal(decoded_structure);
    let fields = v->Structure_0;
    let sig = v.signature();
    let types = signatures(fields);
    let a = sig.alignment(Format::GVariant);
    let p = padding(pos, a);
    let start = pos + p;
    let body = row(endian, start, fields);
    let q = padding(start + body.len(), a);
    let b = encoded(endian, pos, v);
    lemma_signatures(fields);
    assert(b =~= zeros(p) + (body + zeros(q))) by {
        assert(b == zeros(p) + body + zeros(q));
    }
    let frame = body + zeros(q) + rest;
    assert(b + rest =~= zeros(p) + frame);
    lemma_padding_read(strict, pos, a, frame);
    assert forall|i: int| 0 <= i < fields.len() implies (#[trigger] fields[i]).is_well_typed()
        && is_fixed_size(fields[i].signature()) by {
        assert(types[i] == fields[i].signature());
    }
    assert(fields.take(0) =~= seq![]);
    lemma_packed_members(endian, strict, start, fields, 0, zeros(q) + rest);
    assert(body.skip(0) + (zeros(q) + rest) =~= frame);
    assert(types.skip(0) =~= types);
    assert(fields.skip(0) =~= fields);
    lemma_padding_read(strict, start + body.len(), a, rest);
    assert(frame.skip(body.len() as int) =~= zeros(q) + rest);
    assert(fields.len() > 0);
    lemma_row_segment(endian, start, fields, 0);
    lemma_fixed_prefix(endian, strict, start, fields[0], seq![]);
}

/// The members of a container are well typed, of the type `of`, without a
/// zero byte in their strings.
pub open spec fn are_members(items: Seq<ValueView>, of: SignatureView) -> bool {
    forall|i: int|
        0 <= i < items.len() ==> (#[trigger] items[i]).is_well_typed() && items[i].signature()
            == of && is_supported(items[i])
}

/// A member of an array, or an entry of a dictionary, is read back from
/// its bytes as itself.
#[verifier::rlimit(60)]
#[verifier::spinoff_prover]
pub proof fn lemma_member(
    endian: Endian,
    strict: bool,
    pos: nat,
    sig: SignatureView,
    entry: bool,
    item: ValueView,
)
    requires
        item.is_well_typed(),
        is_supported(item),
        item.signature() == member_type(sig, entry),
        entry ==> sig is Dict,
        encoded(endian, pos, item).len() <= MAX_ENCODED_LEN,
    ensures
        decoded_element(endian, strict, pos, sig, entry, encoded(endian, pos, item)) == Ok::<
            (ValueView, nat),
            Fault,
        >((item, encoded(endian, pos, item).len())),
    decreases item, 6nat,
{
    reveal(decoded_element);
    if entry {
        lemma_pair(endian, strict, pos, sig, item, seq![]);
        assert(encoded(endian, pos, item) + Seq::<u8>::empty() =~= encoded(endian, pos, item));
    } else {
        lemma_roundtrip(endian, strict, pos, item);
    }
}

/// A member of a fixed size is read back from its bytes as itself,
/// whatever bytes follow them.
#[verifier::rlimit(60)]
#[verifier::spinoff_prover]
pub proof fn lemma_member_prefix(
    endian: Endian,
    strict: bool,
    pos: nat,
    sig: SignatureView,
    entry: bool,
    item: ValueView,
    rest: Seq<u8>,
)
    requires
        item.is_well_typed(),
        is_supported(item),
        item.signature() == member_type(sig, entry),
        is_fixed_size(item.signature()),
        entry ==> sig is Dict,
    ensures
        encoded(endian, pos, item).len() > 0,
        decoded_element(endian, strict, pos, sig, entry, encoded(endian, pos, item) + rest)
            == Ok::<(ValueView, nat), Fault>((item, encoded(endian, pos, item).len())),
    decreases item, 6nat,
{
    reveal(decoded_element);
    if entry {
        lemma_fixed_prefix(endian, strict, pos, item, seq![]);
        lemma_pair(endian, strict, pos, sig, item, rest);
    } else {
        lemma_fixed_prefix(endian, strict, pos, item, rest);
    }
}

/// The members of a fixed size are read back from `k` on, one behind the
/// other.
#[verifier::rlimit(60)]
#[verifier::spinoff_prover]
pub proof fn lemma_packed_items(
    endian: Endian,
    strict: bool,
    start: nat,
    sig: SignatureView,
    entry: bool,
    items: Seq<ValueView>,
    k: int,
)
    requires
        0 <= k <= items.len(),
        are_members(items, member_type(sig, entry)),
        is_fixed_size(member_type(sig, entry)),
        entry ==> sig is Dict,
    ensures
        ({
            let body = row(endian, start, items);
            let a = row(endian, start, items.take(k)).len();
            &&& a <= body.len()
            &&& packed_items(endian, strict, start + a, sig, entry, body.skip(a as int)) == Ok::<
                Seq<ValueView>,
                Fault,
            >(items.skip(k))
        }),
    decreases items, 0nat, items.len() - k,
{
    reveal(packed_items);
    let body = row(endian, start, items);
    let a = row(endian, start, items.take(k)).len();
    lemma_row_prefix(endian, start, items, k);
    if k == items.len() {
        assert(items.take(k) =~= items);
        assert(items.skip(k) =~= seq![]);
    } else {
        let b = row(endian, start, items.take(k + 1)).len();
        let item = items[k];
        let window = body.skip(a as int);
        lemma_row_segment(endian, start, items, k);
        lemma_row_rest(endian, start, items, k);
        let behind = body.skip(b as int);
        lemma_member_prefix(endian, strict, start + a, sig, entry, item, behind);
        lemma_packed_items(endian, strict, start, sig, entry, items, k + 1);
        assert(window.skip(b - a) =~= behind);
        assert(seq![item] + items.skip(k + 1) =~= items.skip(k));
    }
}

/// The members whose ends a table gives are read back from `k` on, each
/// up to its end.
#[verifier::rlimit(80)]
#[verifier::spinoff_prover]
pub proof fn lemma_framed_items(
    endian: Endian,
    strict: bool,
    start: nat,
    sig: SignatureView,
    entry: bool,
    items: Seq<ValueView>,
    k: int,
)
    requires
        0 <= k <= items.len(),
        are_members(items, member_type(sig, entry)),
        entry ==> sig is Dict,
        row(endian, start, items).len() + items.len() * offset_width(
            row(endian, start, items).len(),
            items.len(),
        ) <= MAX_ENCODED_LEN,
    ensures
        ({
            let body = row(endian, start, items);
            let w = offset_width(body.len(), items.len());
            let frame = body + table(row_ends(endian, start, items), w);
            let a = row(endian, start, items.take(k)).len();
            framed_items(
                endian,
                strict,
                start,
                sig,
                entry,
                frame,
                body.len(),
                w,
                (body.len() + k * w) as nat,
                a,
            ) == Ok::<Seq<ValueView>, Fault>(items.skip(k))
        }),
    decreases items, 0nat, items.len() - k,
{
    reveal(framed_items);
    let n = items.len() as int;
    let body = row(endian, start, items);
    let w = offset_width(body.len(), items.len());
    let ends = row_ends(endian, start, items);
    let tail = table(ends, w);
    let frame = body + tail;
    let a = row(endian, start, items.take(k)).len();
    let slot = body.len() + k * w;
    lemma_width_agrees(body.len(), items.len());
    lemma_row_ends(endian, start, items);
    lemma_table_len(ends, w);
    lemma_row_prefix(endian, start, items, k);
    assert(0 <= k * w <= n * w) by (nonlinear_arith)
        requires
            0 <= k <= n,
            w > 0,
    ;
    if k == n {
        assert(items.skip(k) =~= seq![]);
    } else {
        let b = row(endian, start, items.take(k + 1)).len();
        let item = items[k];
        lemma_row_segment(endian, start, items, k);
        lemma_table_entry(ends, w, k);
        assert(k * w + w == (k + 1) * w) by (nonlinear_arith);
        assert(frame.subrange(slot as int, slot + w) =~= tail.subrange(k * w, k * w + w));
        assert(ends[k] == b);
        lemma_offset_roundtrip(b, w, seq![]);
        assert(offset_at(frame, slot as int, w) == b);
        assert(frame.subrange(a as int, b as int) =~= body.subrange(a as int, b as int));
        lemma_member(endian, strict, start + a, sig, entry, item);
        lemma_framed_items(endian, strict, start, sig, entry, items, k + 1);
        assert(seq![item] + items.skip(k + 1) =~= items.skip(k));
    }
}

/// An array or a dictionary is read back from its bytes as itself.
#[verifier::rlimit(80)]
#[verifier::spinoff_prover]
pub proof fn lemma_sequence(endian: Endian, strict: bool, pos: nat, v: ValueView)
    requires
        v is Array || v is Dict,
        v.is_well_typed(),
        is_supported(v),
        encoded(endian, pos, v).len() <= MAX_ENCODED_LEN,
    ensures
        decoded_sequence(endian, strict, pos, v.signature(), encoded(endian, pos, v)) == Ok::<
            (ValueView, nat),
            Fault,
        >((v, encoded(endian, pos, v).len())),
    decreases v, 4nat,
{
    reveal(decoded_sequence);
    reveal(sequence_items);
    let sig = v.signature();
    let entry = v is Dict;
    let (of, items) = match v {
        ValueView::Array(element, items) => (element, items),
        ValueView::Dict(key, value, entries) => (entry_type(key, value), entries),
        _ => (sig, seq![]),
    };
    let member_sig = if entry {
        sig
    } else {
        of
    };
    assert(member_type(member_sig, entry) == of);
    let a = of.alignment(Format::GVariant);
    let p = padding(pos, a);
    let start = pos + p;
    let body = row(endian, start, items);
    let b = encoded(endian, pos, v);
    assert(b == array_bytes(endian, pos, of, items));
    let frame = b.skip(p as int);
    assert(b =~= zeros(p) + frame);
    lemma_padding_read(strict, pos, a, frame);
    assert(are_members(items, of));
    assert(items.take(0) =~= seq![]);
    assert(items.skip(0) =~= items);
    if is_fixed_size(of) {
        assert(frame =~= body);
        lemma_packed_items(endian, strict, start, member_sig, entry, items, 0);
        assert(body.skip(0) =~= body);
    } else if items.len() == 0 {
        assert(frame =~= body);
        assert(frame.len() == 0);
    } else {
        let n = items.len();
        let w = offset_width(body.len(), n);
        let ends = row_ends(endian, start, items);
        let tail = table(ends, w);
        assert(frame =~= body + tail);
        lemma_row_ends(endian, start, items);
        if is_boundary(w) {
            lemma_table_len(ends, w);
        }
        assert(is_boundary(w));
        lemma_width_agrees(body.len(), n);
        lemma_table_entry(ends, w, n - 1);
        assert((n - 1) * w + w == n * w) by (nonlinear_arith);
        assert(frame.subrange(frame.len() - w, frame.len() - w + w) =~= tail.subrange(
            (n - 1) * w,
            (n - 1) * w + w,
        ));
        assert(items.take(n as int) =~= items);
        assert(ends[n - 1] == body.len());
        lemma_offset_roundtrip(body.len(), w, seq![]);
        assert(((n * w) as int) % (w as int) == 0) by (nonlinear_arith)
            requires
                w > 0,
                n >= 0,
        ;
        assert(array_table(frame) == Ok::<(nat, nat), Fault>((body.len(), w)));
        lemma_framed_items(endian, strict, start, member_sig, entry, items, 0);
        assert(0 * w == 0) by (nonlinear_arith);
    }
}

/// The bytes of a structure of two fields: the fields one behind the
/// other; zeros up to the next multiple of the alignment where both have a
/// fixed size; and the end of the first field where that has none.
#[verifier::rlimit(60)]
#[verifier::spinoff_prover]
pub proof fn lemma_pair_layout(endian: Endian, pos: nat, item: ValueView)
    requires
        item is Structure,
        item->Structure_0.len() == 2,
    ensures
        ({
            let k = item->Structure_0[0];
            let v = item->Structure_0[1];
            let a = item.signature().alignment(Format::GVariant);
            let p = padding(pos, a);
            let start = pos + p;
            let kb = encoded(endian, start, k);
            let vb = encoded(endian, start + kb.len(), v);
            &&& item.signature() == entry_type(k.signature(), v.signature())
            &&& is_fixed_size(item.signature()) == (is_fixed_size(k.signature())
                && is_fixed_size(v.signature()))
            &&& encoded(endian, pos, item) == zeros(p) + (kb + vb + (if is_fixed_size(
                k.signature(),
            ) {
                if is_fixed_size(v.signature()) {
                    zeros(padding(start + kb.len() + vb.len(), a))
                } else {
                    Seq::<u8>::empty()
                }
            } else {
                offset_bytes(kb.len(), offset_width(kb.len() + vb.len(), 1))
            }))
        }),
{
    let fields = item->Structure_0;
    let k = fields[0];
    let v = fields[1];
    let types = signatures(fields);
    lemma_signatures(fields);
    assert(types =~= seq![k.signature(), v.signature()]);
    let a = item.signature().alignment(Format::GVariant);
    let p = padding(pos, a);
    let start = pos + p;
    let kb = encoded(endian, start, k);
    let vb = encoded(endian, start + kb.len(), v);
    let one = fields.drop_last();
    let none = one.drop_last();
    assert(one =~= seq![k]);
    assert(one.last() == k);
    assert(fields.last() == v);
    assert(none =~= seq![]);
    assert(row(endian, start, none) =~= seq![]);
    assert(row(endian, start, one) =~= kb);
    let body = row(endian, start, fields);
    assert(body =~= kb + vb);
    assert(framed_ends(endian, start, none, false) =~= seq![]);
    let first = framed_ends(endian, start, one, false);
    assert(first =~= if is_fixed_size(k.signature()) {
        Seq::<nat>::empty()
    } else {
        seq![kb.len()]
    });
    let noted = framed_ends(endian, start, fields, true);
    assert(noted == first);
    assert(is_fixed_size(item.signature()) == (is_fixed_size(k.signature()) && is_fixed_size(
        v.signature(),
    ))) by {
        assert(types[0] == k.signature() && types[1] == v.signature());
    }
    let w = offset_width(body.len(), noted.len());
    if is_fixed_size(k.signature()) {
        assert(table_back(noted, w) =~= seq![]);
    } else {
        assert(noted.drop_first() =~= seq![]);
        assert(table_back(noted.drop_first(), w) =~= seq![]);
        assert(table_back(noted, w) =~= offset_bytes(kb.len(), w));
    }
    let b = encoded(endian, pos, item);
    if is_fixed_size(item.signature()) {
        assert(b =~= zeros(p) + (kb + vb + zeros(padding(start + body.len(), a))));
    } else {
        assert(b =~= zeros(p) + (kb + vb + table_back(noted, w)));
    }
}

/// What is known of an entry of the dictionary `sig`: its key and its
/// value are well typed, of the types that the dictionary names, and without
/// a zero byte in their strings.
pub open spec fn is_entry_of(sig: SignatureView, item: ValueView) -> bool {
    &&& sig is Dict
    &&& item is Structure
    &&& item->Structure_0.len() == 2
    &&& item->Structure_0[0].signature() == *sig->Dict_0
    &&& item->Structure_0[1].signature() == *sig->Dict_1
    &&& item->Structure_0[0].is_well_typed()
    &&& item->Structure_0[1].is_well_typed()
    &&& is_supported(item->Structure_0[0])
    &&& is_supported(item->Structure_0[1])
}

/// An entry whose key and value have a fixed size is read back, whatever
/// bytes follow its own.
#[verifier::rlimit(100)]
#[verifier::spinoff_prover]
pub proof fn lemma_pair_packed(
    endian: Endian,
    strict: bool,
    pos: nat,
    sig: SignatureView,
    item: ValueView,
    rest: Seq<u8>,
)
    requires
        is_entry_of(sig, item),
        is_fixed_size(*sig->Dict_0),
        is_fixed_size(*sig->Dict_1),
    ensures
        decoded_pair(endian, strict, pos, sig, encoded(endian, pos, item) + rest) == Ok::<
            (ValueView, nat),
            Fault,
        >((item, encoded(endian, pos, item).len())),
    decreases item, 1nat,
{
    let fields = item->Structure_0;
    let k = fields[0];
    let v = fields[1];
    assert(fields =~= seq![k, v]);
    lemma_pair_layout(endian, pos, item);
    let a = item.signature().alignment(Format::GVariant);
    let p = padding(pos, a);
    let start = pos + p;
    let kb = encoded(endian, start, k);
    let vb = encoded(endian, start + kb.len(), v);
    let b = encoded(endian, pos, item);
    let q = padding(start + kb.len() + vb.len(), a);
    let frame = kb + vb + zeros(q) + rest;
    assert(b == zeros(p) + (kb + vb + zeros(q)));
    assert(b + rest =~= zeros(p) + frame);
    assert(b.len() == p + kb.len() + vb.len() + q);
    lemma_padding_read(strict, pos, a, frame);
    assert(decreases_to!(item => fields));
    assert(decreases_to!(fields => fields[0]));
    assert(decreases_to!(fields => fields[1]));
    lemma_fixed_prefix(endian, strict, start, k, vb + zeros(q) + rest);
    assert(frame =~= kb + (vb + zeros(q) + rest));
    assert(frame.skip(kb.len() as int) =~= vb + (zeros(q) + rest));
    lemma_fixed_prefix(endian, strict, start + kb.len(), v, zeros(q) + rest);
    assert(frame.skip(kb.len() as int + vb.len() as int) =~= zeros(q) + rest);
    lemma_padding_read(strict, start + kb.len() + vb.len(), a, rest);
    reveal(decoded_pair);
}

/// An entry whose key has a fixed size and whose value has none is read
/// back.
#[verifier::rlimit(100)]
#[verifier::spinoff_prover]
pub proof fn lemma_pair_open(
    endian: Endian,
    strict: bool,
    pos: nat,
    sig: SignatureView,
    item: ValueView,
)
    requires
        is_entry_of(sig, item),
        is_fixed_size(*sig->Dict_0),
        !is_fixed_size(*sig->Dict_1),
        encoded(endian, pos, item).len() <= MAX_ENCODED_LEN,
    ensures
        decoded_pair(endian, strict, pos, sig, encoded(endian, pos, item)) == Ok::<
            (ValueView, nat),
            Fault,
        >((item, encoded(endian, pos, item).len())),
    decreases item, 1nat,
{
    let fields = item->Structure_0;
    let k = fields[0];
    let v = fields[1];
    assert(fields =~= seq![k, v]);
    lemma_pair_layout(endian, pos, item);
    let a = item.signature().alignment(Format::GVariant);
    let p = padding(pos, a);
    let start = pos + p;
    let kb = encoded(endian, start, k);
    let vb = encoded(endian, start + kb.len(), v);
    let b = encoded(endian, pos, item);
    let frame = kb + vb;
    assert(b =~= zeros(p) + frame);
    assert(b.len() == p + kb.len() + vb.len());
    lemma_padding_read(strict, pos, a, frame);
    assert(decreases_to!(item => fields));
    assert(decreases_to!(fields => fields[0]));
    assert(decreases_to!(fields => fields[1]));
    lemma_fixed_prefix(endian, strict, start, k, vb);
    assert(frame.skip(kb.len() as int) =~= vb);
    lemma_roundtrip(endian, strict, start + kb.len(), v);
    reveal(decoded_pair);
}

/// An entry whose key has no fixed size is read back.
#[verifier::rlimit(100)]
#[verifier::spinoff_prover]
pub proof fn lemma_pair_framed(
    endian: Endian,
    strict: bool,
    pos: nat,
    sig: SignatureView,
    item: ValueView,
)
    requires
        is_entry_of(sig, item),
        !is_fixed_size(*sig->Dict_0),
        encoded(endian, pos, item).len() <= MAX_ENCODED_LEN,
    ensures
        decoded_pair(endian, strict, pos, sig, encoded(endian, pos, item)) == Ok::<
            (ValueView, nat),
            Fault,
        >((item, encoded(endian, pos, item).len())),
    decreases item, 1nat,
{
    let fields = item->Structure_0;
    let k = fields[0];
    let v = fields[1];
    assert(fields =~= seq![k, v]);
    lemma_pair_layout(endian, pos, item);
    let a = item.signature().alignment(Format::GVariant);
    let p = padding(pos, a);
    let start = pos + p;
    let kb = encoded(endian, start, k);
    let vb = encoded(endian, start + kb.len(), v);
    let b = encoded(endian, pos, item);
    let w = offset_width(kb.len() + vb.len(), 1);
    let tail = offset_bytes(kb.len(), w);
    let body = kb + vb;
    let frame = body + tail;
    assert(b =~= zeros(p) + frame);
    lemma_padding_read(strict, pos, a, frame);
    if is_boundary(w) {
        lemma_offset_len(kb.len(), w);
    }
    assert(is_boundary(w));
    assert(b.len() == p + body.len() + w);
    assert(1 * w == w) by (nonlinear_arith);
    lemma_width_agrees(body.len(), 1);
    lemma_offset_roundtrip(kb.len(), w, seq![]);
    assert(tail + Seq::<u8>::empty() =~= tail);
    assert(frame.subrange(frame.len() - w, frame.len() - w + w) =~= tail);
    assert(offset_at(frame, frame.len() - w, w) == kb.len());
    assert(frame.take(kb.len() as int) =~= kb);
    assert(frame.subrange(kb.len() as int, body.len() as int) =~= vb);
    assert(decreases_to!(item => fields));
    assert(decreases_to!(fields => fields[0]));
    assert(decreases_to!(fields => fields[1]));
    lemma_roundtrip(endian, strict, start, k);
    if is_fixed_size(v.signature()) {
        lemma_fixed_prefix(endian, strict, start + kb.len(), v, seq![]);
        assert(vb + Seq::<u8>::empty() =~= vb);
    } else {
        lemma_roundtrip(endian, strict, start + kb.len(), v);
    }
    reveal(decoded_pair);
}

/// An entry of a dictionary is read back from its bytes as itself. Where
/// key and value have a fixed size, it is read back whatever bytes follow
/// its own.
#[verifier::rlimit(60)]
#[verifier::spinoff_prover]
pub proof fn lemma_pair(
    endian: Endian,
    strict: bool,
    pos: nat,
    sig: SignatureView,
    item: ValueView,
    rest: Seq<u8>,
)
    requires
        sig is Dict,
        item.is_well_typed(),
        is_supported(item),
        item.signature() == member_type(sig, true),
        rest.len() == 0 || is_fixed_size(item.signature()),
        is_fixed_size(item.signature()) || encoded(endian, pos, item).len() <= MAX_ENCODED_LEN,
    ensures
        decoded_pair(endian, strict, pos, sig, encoded(endian, pos, item) + rest) == Ok::<
            (ValueView, nat),
            Fault,
        >((item, encoded(endian, pos, item).len())),
    decreases item, 2nat,
{
    let key_type = *sig->Dict_0;
    let value_type = *sig->Dict_1;
    let fields = item->Structure_0;
    lemma_signatures(fields);
    assert(signatures(fields) == seq![key_type, value_type]);
    assert(fields.len() == 2);
    assert(fields[0].signature() == seq![key_type, value_type][0]);
    assert(fields[1].signature() == seq![key_type, value_type][1]);
    assert(is_entry_of(sig, item));
    lemma_pair_layout(endian, pos, item);
    let b = encoded(endian, pos, item);
    if is_fixed_size(key_type) && is_fixed_size(value_type) {
        lemma_pair_packed(endian, strict, pos, sig, item, rest);
    } else {
        assert(rest =~= seq![]);
        assert(b + rest =~= b);
        if is_fixed_size(key_type) {
            lemma_pair_open(endian, strict, pos, sig, item);
        } else {
            lemma_pair_framed(endian, strict, pos, sig, item);
        }
    }
}

/// The ends that a structure notes for its first `k` fields are the first
/// of those that it notes for its first `m` fields.
pub proof fn lemma_framed_prefix(
    endian: Endian,
    start: nat,
    fields: Seq<ValueView>,
    k: int,
    m: int,
)
    requires
        0 <= k <= m <= fields.len(),
    ensures
        ({
            let few = framed_ends(endian, start, fields.take(k), false);
            let more = framed_ends(endian, start, fields.take(m), false);
            &&& few.len() <= more.len()
            &&& more.take(few.len() as int) == few
        }),
    decreases m - k,
{
    let few = framed_ends(endian, start, fields.take(k), false);
    let more = framed_ends(endian, start, fields.take(m), false);
    if k == m {
        assert(more.take(few.len() as int) =~= few);
    } else {
        lemma_framed_prefix(endian, start, fields, k, m - 1);
        let less = framed_ends(endian, start, fields.take(m - 1), false);
        assert(fields.take(m).drop_last() =~= fields.take(m - 1));
        assert(more.take(few.len() as int) =~= less.take(few.len() as int));
    }
}

/// The structure notes as many ends as the reader counts from its type.
pub proof fn lemma_framed_count(endian: Endian, start: nat, fields: Seq<ValueView>, k: int)
    requires
        fields.len() > 0,
        0 <= k < fields.len(),
    ensures
        framed_count(signatures(fields).skip(k)) + framed_ends(
            endian,
            start,
            fields.take(k),
            false,
        ).len() == framed_ends(endian, start, fields, true).len(),
    decreases fields.len() - k,
{
    let n = fields.len() as int;
    let types = signatures(fields);
    lemma_signatures(fields);
    if k == n - 1 {
        assert(types.skip(k).len() == 1);
        assert(fields.drop_last() =~= fields.take(k));
    } else {
        lemma_framed_count(endian, start, fields, k + 1);
        assert(types.skip(k)[0] == fields[k].signature());
        assert(types.skip(k).drop_first() =~= types.skip(k + 1));
        assert(fields.take(k + 1).drop_last() =~= fields.take(k));
        assert(fields.take(k + 1).last() == fields[k]);
    }
}

/// How many ends the structure has noted before its field `k`.
pub open spec fn noted_before(endian: Endian, start: nat, fields: Seq<ValueView>, k: int) -> nat {
    framed_ends(
        endian,
        start,
        fields.take(if k < fields.len() {
            k
        } else {
            fields.len() - 1
        }),
        false,
    ).len()
}

/// The bytes of a structure without a fixed size, behind its padding: its
/// fields, and the table of the ends that it notes.
pub open spec fn structure_frame(endian: Endian, start: nat, fields: Seq<ValueView>) -> Seq<u8> {
    let body = row(endian, start, fields);
    let noted = framed_ends(endian, start, fields, true);
    body + table_back(noted, offset_width(body.len(), noted.len()))
}

/// The width of the offsets of such a structure.
pub open spec fn structure_width(endian: Endian, start: nat, fields: Seq<ValueView>) -> nat {
    offset_width(
        row(endian, start, fields).len(),
        framed_ends(endian, start, fields, true).len(),
    )
}

/// Where the reader of such a structure stands before its field `k`: behind
/// the fields in front of it, with the offsets of the fields from `k` on
/// still to be read.
pub open spec fn slot_before(endian: Endian, start: nat, fields: Seq<ValueView>, k: int) -> nat {
    (structure_frame(endian, start, fields).len() - noted_before(endian, start, fields, k)
        * structure_width(endian, start, fields)) as nat
}

/// The fields are the fields of a structure that is written and read back.
pub open spec fn are_fields(endian: Endian, start: nat, fields: Seq<ValueView>) -> bool {
    &&& fields.len() > 0
    &&& forall|i: int|
        0 <= i < fields.len() ==> (#[trigger] fields[i]).is_well_typed() && is_supported(
            fields[i],
        )
    &&& structure_frame(endian, start, fields).len() <= MAX_ENCODED_LEN
}

/// The field `k` of a structure without a fixed size is read back, and
/// the reader stands before the next field then.
#[verifier::rlimit(100)]
#[verifier::spinoff_prover]
pub proof fn lemma_member_read(
    endian: Endian,
    strict: bool,
    start: nat,
    fields: Seq<ValueView>,
    k: int,
)
    requires
        are_fields(endian, start, fields),
        0 <= k < fields.len(),
    ensures
        member_read(
            endian,
            strict,
            start,
            fields[k].signature(),
            k == fields.len() - 1,
            structure_frame(endian, start, fields),
            row(endian, start, fields).len(),
            structure_width(endian, start, fields),
            slot_before(endian, start, fields, k),
            row(endian, start, fields.take(k)).len(),
        ) == Ok::<(ValueView, nat, nat), Fault>(
            (
                fields[k],
                row(endian, start, fields.take(k + 1)).len(),
                slot_before(endian, start, fields, k + 1),
            ),
        ),
    decreases fields, 0nat,
{
    let n = fields.len() as int;
    let body = row(endian, start, fields);
    let noted = framed_ends(endian, start, fields, true);
    let w = structure_width(endian, start, fields);
    let tail = table_back(noted, w);
    let frame = structure_frame(endian, start, fields);
    let a = row(endian, start, fields.take(k)).len();
    let b = row(endian, start, fields.take(k + 1)).len();
    let j = noted_before(endian, start, fields, k);
    let item = fields[k];
    let last = k == n - 1;
    assert(frame == body + tail);
    if is_boundary(w) {
        lemma_table_len(noted, w);
    }
    assert(is_boundary(w));
    lemma_width_agrees(body.len(), noted.len());
    lemma_row_segment(endian, start, fields, k);
    lemma_row_rest(endian, start, fields, k);
    assert(fields.drop_last() =~= fields.take(n - 1));
    assert(noted == framed_ends(endian, start, fields.take(n - 1), false));
    lemma_framed_prefix(endian, start, fields, k, n - 1);
    assert(j <= noted.len());
    assert(0 <= j * w <= noted.len() * w) by (nonlinear_arith)
        requires
            0 <= j <= noted.len(),
            w > 0,
    ;
    assert(fields.take(k + 1).drop_last() =~= fields.take(k));
    assert(fields.take(k + 1).last() == item);
    assert(decreases_to!(fields => fields[k]));
    assert(encoded(endian, start + a, item).len() <= body.len());
    if last || is_fixed_size(item.signature()) {
        let window = frame.subrange(a as int, body.len() as int);
        assert(window =~= body.skip(a as int));
        assert(noted_before(endian, start, fields, k + 1) == j);
        if is_fixed_size(item.signature()) {
            lemma_fixed_prefix(endian, strict, start + a, item, body.skip(b as int));
        } else {
            assert(fields.take(n) =~= fields);
            assert(body.skip(b as int) =~= seq![]);
            assert(window =~= encoded(endian, start + a, item));
            lemma_roundtrip(endian, strict, start + a, item);
        }
        reveal(member_read);
    } else {
        let some = framed_ends(endian, start, fields.take(k), false);
        let next = framed_ends(endian, start, fields.take(k + 1), false);
        assert(next == some.push(b));
        lemma_framed_prefix(endian, start, fields, k + 1, n - 1);
        assert(noted.take(next.len() as int) == next);
        assert(noted[j as int] == next[j as int]);
        assert(noted[j as int] == b);
        assert(noted_before(endian, start, fields, k + 1) == j + 1);
        lemma_table_back_entry(noted, w, j as int);
        let slot = frame.len() - j * w;
        assert((noted.len() - 1 - j) * w + w == noted.len() * w - j * w) by (nonlinear_arith);
        assert((j + 1) * w == j * w + w) by (nonlinear_arith);
        assert(frame.subrange(slot - w, slot - w + w) =~= tail.subrange(
            (noted.len() - 1 - j) * w,
            (noted.len() - 1 - j) * w + w,
        ));
        lemma_offset_roundtrip(b, w, seq![]);
        assert(offset_at(frame, slot - w, w) == b);
        assert(frame.subrange(a as int, b as int) =~= body.subrange(a as int, b as int));
        lemma_roundtrip(endian, strict, start + a, item);
        reveal(member_read);
    }
}

/// The fields of a structure without a fixed size are read back from `k`
/// on.
#[verifier::rlimit(60)]
#[verifier::spinoff_prover]
pub proof fn lemma_framed_members(
    endian: Endian,
    strict: bool,
    start: nat,
    fields: Seq<ValueView>,
    k: int,
)
    requires
        are_fields(endian, start, fields),
        0 <= k <= fields.len(),
    ensures
        framed_members(
            endian,
            strict,
            start,
            signatures(fields).skip(k),
            structure_frame(endian, start, fields),
            row(endian, start, fields).len(),
            structure_width(endian, start, fields),
            slot_before(endian, start, fields, k),
            row(endian, start, fields.take(k)).len(),
        ) == Ok::<Seq<ValueView>, Fault>(fields.skip(k)),
    decreases fields, 1nat, fields.len() - k,
{
    reveal(framed_members);
    let n = fields.len() as int;
    let types = signatures(fields);
    lemma_signatures(fields);
    if k == n {
        assert(fields.take(k) =~= fields);
        assert(types.skip(k) =~= seq![]);
        assert(fields.skip(k) =~= seq![]);
    } else {
        assert(types.skip(k)[0] == fields[k].signature());
        assert(types.skip(k).len() == n - k);
        assert(types.skip(k).drop_first() =~= types.skip(k + 1));
        lemma_member_read(endian, strict, start, fields, k);
        lemma_framed_members(endian, strict, start, fields, k + 1);
        assert(seq![fields[k]] + fields.skip(k + 1) =~= fields.skip(k));
    }
}

/// A structure without a fixed size is read back from its bytes as
/// itself.
#[verifier::rlimit(80)]
#[verifier::spinoff_prover]
pub proof fn lemma_structure(endian: Endian, strict: bool, pos: nat, v: ValueView)
    requires
        v is Structure,
        v.is_well_typed(),
        is_supported(v),
        !is_fixed_size(v.signature()),
        encoded(endian, pos, v).len() <= MAX_ENCODED_LEN,
    ensures
        decoded_structure(endian, strict, pos, v.signature(), encoded(endian, pos, v)) == Ok::<
            (ValueView, nat),
            Fault,
        >((v, encoded(endian, pos, v).len())),
    decreases v, 4nat,
{
    let fields = v->Structure_0;
    let sig = v.signature();
    let types = signatures(fields);
    let a = sig.alignment(Format::GVariant);
    let p = padding(pos, a);
    let start = pos + p;
    let body = row(endian, start, fields);
    let noted = framed_ends(endian, start, fields, true);
    let w = structure_width(endian, start, fields);
    let tail = table_back(noted, w);
    let b = encoded(endian, pos, v);
    let frame = structure_frame(endian, start, fields);
    lemma_signatures(fields);
    assert(b =~= zeros(p) + frame);
    lemma_padding_read(strict, pos, a, frame);
    if is_boundary(w) {
        lemma_table_len(noted, w);
    }
    assert(is_boundary(w));
    lemma_width_agrees(body.len(), noted.len());
    lemma_framed_count(endian, start, fields, 0);
    assert(fields.take(0) =~= seq![]);
    assert(types.skip(0) =~= types);
    assert(fields.skip(0) =~= fields);
    assert(noted_before(endian, start, fields, 0) == 0);
    assert(0 * w == 0) by (nonlinear_arith);
    assert(slot_before(endian, start, fields, 0) == frame.len());
    assert(row(endian, start, fields.take(0)).len() == 0);
    assert(are_fields(endian, start, fields));
    lemma_framed_members(endian, strict, start, fields, 0);
    reveal(decoded_structure);
}

} // verus!
