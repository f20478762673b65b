//! What the GVariant encoding needs to know of a container before it lays
//! it out: whether the values of a type all take the same number of bytes,
//! and how the ends of the others are noted down behind them.
//!
//! A container whose members can differ in length ends with a table of
//! offsets, each the place where a member ends, counted from the start of
//! the container. Every offset of a table takes the same number of bytes,
//! the fewest that can hold the length of the whole container, and is laid
//! out with its low byte first.

use vstd::prelude::*;
use vstd::slice::slice_subrange;
use crate::text::append_bytes;
use crate::wire::dbus::MAX_ENCODED_LEN;
use crate::wire::endian::{
    lemma_u16_roundtrip, lemma_u32_roundtrip, u16_bytes, u16_from_bytes, u16_to_bytes, u16_value,
    u32_bytes, u32_from_bytes, u32_to_bytes, u32_value, u64_bytes, u64_value, Endian,
};
use crate::wire::signature::{
    lemma_structure_view, max_nat, views, widest, Format, Signature, SignatureView,
};
use crate::wire::value::{
    entry_type, lemma_structure_value_view, signatures, value_trees, Value, ValueView,
};

verus! {

/// The values of the type all take the same number of bytes: the type is
/// a number, a truth value or the index of a file descriptor, or a
/// structure of such types.
pub open spec fn is_fixed_size(sig: SignatureView) -> bool
    decreases sig,
{
    match sig {
        SignatureView::U8
        | SignatureView::Bool
        | SignatureView::I16
        | SignatureView::U16
        | SignatureView::I32
        | SignatureView::U32
        | SignatureView::I64
        | SignatureView::U64
        | SignatureView::F64
        | SignatureView::Fd => true,
        SignatureView::Structure(fields) => fields.len() > 0 && forall|i: int|
            0 <= i < fields.len() ==> is_fixed_size(#[trigger] fields[i]),
        _ => false,
    }
}

/// An alignment is 1, 2, 4 or 8.
pub open spec fn is_boundary(a: nat) -> bool {
    a == 1 || a == 2 || a == 4 || a == 8
}

/// The widest alignment in a row of types is an alignment.
pub proof fn lemma_widest_is_boundary(fields: Seq<SignatureView>, format: Format)
    ensures
        is_boundary(widest(fields, format)),
    decreases fields,
{
    if fields.len() > 0 {
        lemma_alignment_is_boundary(fields[0], format);
        lemma_widest_is_boundary(fields.drop_first(), format);
    }
}

/// The alignment of a type is 1, 2, 4 or 8.
pub proof fn lemma_alignment_is_boundary(sig: SignatureView, format: Format)
    ensures
        is_boundary(sig.alignment(format)),
    decreases sig,
{
    match format {
        Format::DBus => {},
        Format::GVariant => match sig {
            SignatureView::Array(elem) => {
                lemma_alignment_is_boundary(*elem, format);
            },
            SignatureView::Maybe(elem) => {
                lemma_alignment_is_boundary(*elem, format);
            },
            SignatureView::Dict(key, value) => {
                lemma_alignment_is_boundary(*key, format);
                lemma_alignment_is_boundary(*value, format);
            },
            SignatureView::Structure(fields) => {
                lemma_widest_is_boundary(fields, format);
            },
            _ => {},
        },
    }
}

/// The alignment of the entries of a dictionary is the wider of those of
/// key and value.
pub proof fn lemma_entry_alignment(key: SignatureView, value: SignatureView, format: Format)
    ensures
        entry_type(key, value).alignment(Format::GVariant) == max_nat(
            key.alignment(Format::GVariant),
            value.alignment(Format::GVariant),
        ),
{
    let row = seq![key, value];
    let rest = row.drop_first();
    assert(row[0] == key);
    assert(rest[0] == value);
    assert(entry_type(key, value).alignment(Format::GVariant) == widest(row, Format::GVariant));
    assert(rest.drop_first() =~= seq![]);
    assert(widest(rest.drop_first(), Format::GVariant) == 1);
    lemma_alignment_is_boundary(value, Format::GVariant);
    assert(widest(rest, Format::GVariant) == value.alignment(Format::GVariant));
}

impl Signature {
    /// Tells whether the values of the type all take the same number of
    /// bytes in the GVariant encoding.
    pub fn is_fixed_size(&self) -> (r: bool)
        ensures
            r == is_fixed_size(self@),
        decreases self,
    {
        match self {
            Signature::U8
            | Signature::Bool
            | Signature::I16
            | Signature::U16
            | Signature::I32
            | Signature::U32
            | Signature::I64
            | Signature::U64
            | Signature::F64
            | Signature::Fd => true,
            Signature::Structure(fields) => {
                proof {
                    lemma_structure_view(*fields);
                }
                let ghost all = views(fields@);
                if fields.len() == 0 {
                    return false;
                }
                let mut i: usize = 0;
                while i < fields.len()
                    invariant
                        i <= fields.len(),
                        *self == Signature::Structure(*fields),
                        all == views(fields@),
                        self@ == SignatureView::Structure(all),
                        forall|k: int| 0 <= k < i ==> is_fixed_size(#[trigger] all[k]),
                    decreases fields.len() - i,
                {
                    assert(decreases_to!(self => self->Structure_0));
                    assert(decreases_to!(fields => fields[i as int]));
                    assert(all[i as int] == fields[i as int]@);
                    if !fields[i].is_fixed_size() {
                        assert(self@ == SignatureView::Structure(all));
                        assert(!is_fixed_size(all[i as int]));
                        return false;
                    }
                    i += 1;
                }
                assert(self@ == SignatureView::Structure(all));
                true
            },
            _ => false,
        }
    }
}

impl Value {
    /// Tells whether the values of the type of this value all take the
    /// same number of bytes in the GVariant encoding.
    pub fn is_fixed_size(&self) -> (r: bool)
        ensures
            r == is_fixed_size(self@.signature()),
        decreases self,
    {
        match self {
            Value::U8(_)
            | Value::Bool(_)
            | Value::I16(_)
            | Value::U16(_)
            | Value::I32(_)
            | Value::U32(_)
            | Value::I64(_)
            | Value::U64(_)
            | Value::F64(_)
            | Value::Fd(_) => true,
            Value::Structure(fields) => {
                proof {
                    lemma_structure_value_view(*fields);
                }
                let ghost all = value_trees(fields@);
                let ghost types = signatures(all);
                proof {
                    lemma_signatures(all);
                }
                if fields.len() == 0 {
                    return false;
                }
                let mut i: usize = 0;
                while i < fields.len()
                    invariant
                        i <= fields.len(),
                        *self == Value::Structure(*fields),
                        all == value_trees(fields@),
                        types == signatures(all),
                        types.len() == all.len(),
                        self@.signature() == SignatureView::Structure(types),
                        forall|k: int| 0 <= k < all.len() ==> types[k] == (#[trigger] all[k]).signature(),
                        forall|k: int| 0 <= k < i ==> is_fixed_size(#[trigger] types[k]),
                    decreases fields.len() - i,
                {
                    assert(decreases_to!(self => self->Structure_0));
                    assert(decreases_to!(fields => fields[i as int]));
                    assert(all[i as int] == fields[i as int]@);
                    if !fields[i].is_fixed_size() {
                        assert(self@.signature() == SignatureView::Structure(types));
                        assert(types[i as int] == all[i as int].signature());
                        assert(!is_fixed_size(types[i as int]));
                        return false;
                    }
                    assert(is_fixed_size(types[i as int]));
                    i += 1;
                }
                assert(self@.signature() == SignatureView::Structure(types));
                true
            },
            _ => false,
        }
    }

    /// The boundary that the value starts at in the GVariant encoding.
    pub fn alignment(&self) -> (r: usize)
        ensures
            r == self@.signature().alignment(Format::GVariant),
            is_boundary(r as nat),
        decreases self,
    {
        match self {
            Value::I16(_) | Value::U16(_) => 2,
            Value::I32(_) | Value::U32(_) | Value::Fd(_) => 4,
            Value::I64(_) | Value::U64(_) | Value::F64(_) | Value::Value(_) => 8,
            Value::Array(element, _) => {
                proof {
                    lemma_alignment_is_boundary(element@, Format::GVariant);
                }
                element.alignment(Format::GVariant)
            },
            Value::Dict(key, value, _) => {
                proof {
                    lemma_alignment_is_boundary(key@, Format::GVariant);
                    lemma_alignment_is_boundary(value@, Format::GVariant);
                }
                let k = key.alignment(Format::GVariant);
                let v = value.alignment(Format::GVariant);
                if k >= v {
                    k
                } else {
                    v
                }
            },
            Value::Structure(fields) => {
                proof {
                    lemma_structure_value_view(*fields);
                }
                let ghost all = value_trees(fields@);
                let ghost types = signatures(all);
                proof {
                    lemma_signatures(all);
                }
                let mut widest_yet: usize = 1;
                let mut i: usize = fields.len();
                assert(types.skip(i as int) =~= seq![]);
                while i > 0
                    invariant
                        i <= fields.len(),
                        *self == Value::Structure(*fields),
                        all == value_trees(fields@),
                        types == signatures(all),
                        types.len() == all.len(),
                        forall|k: int| 0 <= k < all.len() ==> types[k] == (#[trigger] all[k]).signature(),
                        widest_yet == widest(types.skip(i as int), Format::GVariant),
                        is_boundary(widest_yet as nat),
                    decreases i,
                {
                    i -= 1;
                    assert(decreases_to!(self => self->Structure_0));
                    assert(decreases_to!(fields => fields[i as int]));
                    assert(all[i as int] == fields[i as int]@);
                    let a = fields[i].alignment();
                    proof {
                        let tail = types.skip(i as int);
                        assert(tail[0] == types[i as int]);
                        assert(tail.drop_first() =~= types.skip(i + 1));
                    }
                    if a > widest_yet {
                        widest_yet = a;
                    }
                }
                assert(types.skip(0) =~= types);
                widest_yet
            },
            _ => 1,
        }
    }
}

/// The signatures of a row of values are those of the values, one by one.
pub proof fn lemma_signatures(fields: Seq<ValueView>)
    ensures
        signatures(fields).len() == fields.len(),
        forall|i: int| 0 <= i < fields.len() ==> signatures(fields)[i] == (#[trigger] fields[i]).signature(),
    decreases fields,
{
    if fields.len() > 0 {
        let rest = fields.drop_first();
        lemma_signatures(rest);
        assert forall|i: int| 0 <= i < fields.len() implies signatures(fields)[i] == (
        #[trigger] fields[i]).signature() by {
            if i > 0 {
                assert(rest[i - 1] == fields[i]);
            }
        }
    }
}

/// The number of bytes that each offset takes in the table of a container
/// with `body` bytes of members and `count` offsets: the fewest of 1, 2, 4
/// and 8 that can hold the length of the container, table included.
pub open spec fn offset_width(body: nat, count: nat) -> nat {
    if body + count <= 0xff {
        1
    } else if body + 2 * count <= 0xffff {
        2
    } else if body + 4 * count <= 0xffff_ffff {
        4
    } else {
        8
    }
}

/// The number of bytes that each offset takes in the table of a container
/// of `len` bytes, table included.
pub open spec fn width_in(len: nat) -> nat {
    if len <= 0xff {
        1
    } else if len <= 0xffff {
        2
    } else if len <= 0xffff_ffff {
        4
    } else {
        8
    }
}

/// The bytes of the offset `n` in a table whose offsets take `w` bytes.
pub open spec fn offset_bytes(n: nat, w: nat) -> Seq<u8> {
    if w == 1 {
        seq![n as u8]
    } else if w == 2 {
        u16_bytes(Endian::Little, n as u16)
    } else if w == 4 {
        u32_bytes(Endian::Little, n as u32)
    } else {
        u64_bytes(Endian::Little, n as u64)
    }
}

/// The offset that the first `w` bytes of `b` spell.
pub open spec fn offset_value(b: Seq<u8>, w: nat) -> nat {
    if w == 1 {
        b[0] as nat
    } else if w == 2 {
        u16_value(Endian::Little, b) as nat
    } else if w == 4 {
        u32_value(Endian::Little, b) as nat
    } else {
        u64_value(Endian::Little, b) as nat
    }
}

/// The offset that stands at `at` in `frame`.
pub open spec fn offset_at(frame: Seq<u8>, at: int, w: nat) -> nat {
    offset_value(frame.subrange(at, at + w), w)
}

/// The table of the offsets `ends`, from the first to the last.
pub open spec fn table(ends: Seq<nat>, w: nat) -> Seq<u8>
    decreases ends.len(),
{
    if ends.len() == 0 {
        seq![]
    } else {
        table(ends.drop_last(), w) + offset_bytes(ends.last(), w)
    }
}

/// The table of the offsets `ends`, from the last to the first.
pub open spec fn table_back(ends: Seq<nat>, w: nat) -> Seq<u8>
    decreases ends.len(),
{
    if ends.len() == 0 {
        seq![]
    } else {
        table_back(ends.drop_first(), w) + offset_bytes(ends[0], w)
    }
}

/// The numbers in `ends`, as mathematical ones.
pub open spec fn as_nats(ends: Seq<usize>) -> Seq<nat> {
    Seq::new(ends.len(), |i: int| ends[i] as nat)
}

/// An offset takes as many bytes as its table gives each.
pub proof fn lemma_offset_len(n: nat, w: nat)
    requires
        is_boundary(w),
    ensures
        offset_bytes(n, w).len() == w,
{
    lemma_u16_roundtrip(Endian::Little, n as u16);
    lemma_u32_roundtrip(Endian::Little, n as u32);
    crate::wire::endian::lemma_u64_roundtrip(Endian::Little, n as u64);
}

/// A table takes as many bytes as its offsets do together.
pub proof fn lemma_table_len(ends: Seq<nat>, w: nat)
    requires
        is_boundary(w),
    ensures
        table(ends, w).len() == ends.len() * w,
        table_back(ends, w).len() == ends.len() * w,
    decreases ends.len(),
{
    if ends.len() > 0 {
        lemma_table_len(ends.drop_last(), w);
        lemma_table_len(ends.drop_first(), w);
        lemma_offset_len(ends.last(), w);
        lemma_offset_len(ends[0], w);
        assert((ends.len() - 1) * w + w == ends.len() * w) by (nonlinear_arith);
    } else {
        assert(ends.len() * w == 0) by (nonlinear_arith)
            requires
                ends.len() == 0,
        ;
    }
}

/// An offset that fits into its bytes is read back from them, whatever
/// follows.
pub proof fn lemma_offset_roundtrip(n: nat, w: nat, rest: Seq<u8>)
    requires
        w == 1 && n <= 0xff || w == 2 && n <= 0xffff || w == 4 && n <= 0xffff_ffff,
    ensures
        offset_value(offset_bytes(n, w) + rest, w) == n,
        offset_value(offset_bytes(n, w), w) == n,
{
    lemma_u16_roundtrip(Endian::Little, n as u16);
    lemma_u32_roundtrip(Endian::Little, n as u32);
    crate::wire::endian::lemma_u16_prefix(Endian::Little, n as u16, rest);
    crate::wire::endian::lemma_u32_prefix(Endian::Little, n as u32, rest);
    if w == 1 {
        assert((offset_bytes(n, w) + rest)[0] == n as u8);
    }
}

/// The width of the offsets of a container, for its writer: `None` where
/// the container would take more bytes than the lengths of a message allow.
pub fn choose_width(body: usize, count: usize) -> (r: Option<usize>)
    ensures
        match r {
            Some(w) => w == offset_width(body as nat, count as nat) && (w == 1 || w == 2 || w
                == 4) && body + count * w <= MAX_ENCODED_LEN && w == width_in(
                (body + count * w) as nat,
            ),
            None => body + count * offset_width(body as nat, count as nat) > MAX_ENCODED_LEN,
        },
{
    if body > MAX_ENCODED_LEN || count > MAX_ENCODED_LEN {
        assert(body + count * offset_width(body as nat, count as nat) > MAX_ENCODED_LEN)
            by (nonlinear_arith)
            requires
                body > MAX_ENCODED_LEN || count > MAX_ENCODED_LEN,
                offset_width(body as nat, count as nat) >= 1,
        ;
        return None;
    }
    let body = body as u64;
    let count = count as u64;
    if body + count <= 0xff {
        Some(1)
    } else if body + 2 * count <= 0xffff {
        Some(2)
    } else if body + 4 * count <= 0xffff_ffff {
        Some(4)
    } else {
        None
    }
}

/// Appends to `out` the offset `n` in `w` bytes.
pub fn write_offset(n: usize, w: usize, out: &mut Vec<u8>)
    requires
        w == 1 && n <= 0xff || w == 2 && n <= 0xffff || w == 4 && n <= 0xffff_ffff,
    ensures
        final(out)@ == old(out)@ + offset_bytes(n as nat, w as nat),
{
    if w == 1 {
        out.push(n as u8);
        assert(out@ =~= old(out)@ + offset_bytes(n as nat, w as nat));
    } else if w == 2 {
        let bytes = u16_to_bytes(Endian::Little, n as u16);
        append_bytes(out, bytes.as_slice());
    } else {
        let bytes = u32_to_bytes(Endian::Little, n as u32);
        append_bytes(out, bytes.as_slice());
    }
}

/// Appends to `out` the table of the offsets `ends`, from the first to the
/// last or, for a structure, from the last to the first.
pub fn write_table(ends: &Vec<usize>, w: usize, backwards: bool, out: &mut Vec<u8>)
    requires
        w == 1 || w == 2 || w == 4,
        forall|i: int|
            0 <= i < ends.len() ==> (w == 1 && ends[i] <= 0xff || w == 2 && ends[i] <= 0xffff || w
                == 4 && ends[i] <= 0xffff_ffff),
    ensures
        final(out)@ == old(out)@ + (if backwards {
            table_back(as_nats(ends@), w as nat)
        } else {
            table(as_nats(ends@), w as nat)
        }),
{
    let ghost all = as_nats(ends@);
    let n = ends.len();
    if backwards {
        let mut i: usize = n;
        assert(all.skip(n as int) =~= seq![]);
        assert(out@ =~= old(out)@ + table_back(all.skip(n as int), w as nat));
        while i > 0
            invariant
                i <= n,
                n == ends.len(),
                all == as_nats(ends@),
                w == 1 || w == 2 || w == 4,
                forall|k: int|
                    0 <= k < ends.len() ==> (w == 1 && ends[k] <= 0xff || w == 2 && ends[k]
                        <= 0xffff || w == 4 && ends[k] <= 0xffff_ffff),
                out@ == old(out)@ + table_back(all.skip(i as int), w as nat),
            decreases i,
        {
            i -= 1;
            let ghost tail = all.skip(i as int);
            assert(tail[0] == ends[i as int] as nat);
            assert(tail.drop_first() =~= all.skip(i + 1));
            write_offset(ends[i], w, out);
            assert(out@ =~= old(out)@ + table_back(tail, w as nat));
        }
        assert(all.skip(0) =~= all);
    } else {
        let mut i: usize = 0;
        assert(all.take(0) =~= seq![]);
        assert(out@ =~= old(out)@ + table(all.take(0), w as nat));
        while i < n
            invariant
                i <= n,
                n == ends.len(),
                all == as_nats(ends@),
                w == 1 || w == 2 || w == 4,
                forall|k: int|
                    0 <= k < ends.len() ==> (w == 1 && ends[k] <= 0xff || w == 2 && ends[k]
                        <= 0xffff || w == 4 && ends[k] <= 0xffff_ffff),
                out@ == old(out)@ + table(all.take(i as int), w as nat),
            decreases n - i,
        {
            let ghost head = all.take(i + 1);
            assert(head.last() == ends[i as int] as nat);
            assert(head.drop_last() =~= all.take(i as int));
            write_offset(ends[i], w, out);
            assert(out@ =~= old(out)@ + table(head, w as nat));
            i += 1;
        }
        assert(all.take(n as int) =~= all);
    }
}

/// The width of the offsets of a container of `len` bytes, for its reader:
/// `None` where the container is longer than the lengths of a message allow.
pub fn read_width(len: usize) -> (r: Option<usize>)
    ensures
        match r {
            Some(w) => w == width_in(len as nat) && (w == 1 || w == 2 || w == 4),
            None => len > MAX_ENCODED_LEN,
        },
{
    if len <= 0xff {
        Some(1)
    } else if len <= 0xffff {
        Some(2)
    } else if len <= MAX_ENCODED_LEN {
        Some(4)
    } else {
        None
    }
}

/// Reads the offset of `w` bytes that stands at `at`.
pub fn read_offset(bytes: &[u8], at: usize, w: usize) -> (r: usize)
    requires
        w == 1 || w == 2 || w == 4,
        at + w <= bytes.len(),
    ensures
        r == offset_value(bytes@.subrange(at as int, at + w), w as nat),
{
    let chunk = slice_subrange(bytes, at, at + w);
    if w == 1 {
        chunk[0] as usize
    } else if w == 2 {
        u16_from_bytes(Endian::Little, chunk) as usize
    } else {
        u32_from_bytes(Endian::Little, chunk) as usize
    }
}

} // verus!
