//! The context of an encoding: byte order, format, and where in a message
//! the bytes start.

use vstd::prelude::*;
use crate::wire::endian::Endian;
use crate::wire::signature::Format;

verus! {

/// What the encoding of a value depends on besides the value.
///
/// The position is the distance of the first byte from the start of the
/// message that the bytes belong to. Values are aligned against the start of
/// the message, so the padding in front of a value depends on it.
#[derive(Clone, Copy, Debug, PartialEq, Eq, Structural)]
pub struct Context {
    pub endian: Endian,
    pub format: Format,
    pub position: usize,
}

/// The number of bytes that bring `position` up to a multiple of `alignment`.
pub open spec fn padding(position: nat, alignment: nat) -> nat {
    if alignment == 0 || position % alignment == 0 {
        0
    } else {
        (alignment - position % alignment) as nat
    }
}

/// `n` zero bytes.
pub open spec fn zeros(n: nat) -> Seq<u8> {
    Seq::new(n, |i: int| 0u8)
}

/// Every byte of `s` is zero.
pub open spec fn all_zero(s: Seq<u8>) -> bool {
    forall|i: int| 0 <= i < s.len() ==> #[trigger] s[i] == 0
}

/// Padding leads to the next multiple of the alignment, and is shorter than
/// the alignment.
pub proof fn lemma_padding(position: nat, alignment: nat)
    requires
        alignment > 0,
    ensures
        padding(position, alignment) < alignment,
        (position + padding(position, alignment)) % alignment == 0,
{
    let r = position % alignment;
    if r != 0 {
        assert((position + (alignment - r)) % (alignment as int) == 0) by (nonlinear_arith)
            requires
                r == position % alignment,
                alignment > 0,
                0 < r < alignment,
        ;
    }
}

/// The number of bytes that bring `position` up to a multiple of `alignment`.
pub fn padding_for_n_bytes(position: usize, alignment: usize) -> (r: usize)
    requires
        alignment > 0,
    ensures
        r == padding(position as nat, alignment as nat),
        r < alignment,
{
    let rest = position % alignment;
    if rest == 0 {
        0
    } else {
        alignment - rest
    }
}

impl Context {
    /// A context for the given byte order and format, for bytes that start
    /// at `position` in their message.
    pub fn new(format: Format, endian: Endian, position: usize) -> (r: Context)
        ensures
            r == (Context { endian, format, position }),
    {
        Context { endian, format, position }
    }

    /// A context for the classic encoding.
    pub fn new_dbus(endian: Endian, position: usize) -> (r: Context)
        ensures
            r == (Context { endian, format: Format::DBus, position }),
    {
        Context { endian, format: Format::DBus, position }
    }

    /// A context for the GVariant encoding.
    pub fn new_gvariant(endian: Endian, position: usize) -> (r: Context)
        ensures
            r == (Context { endian, format: Format::GVariant, position }),
    {
        Context { endian, format: Format::GVariant, position }
    }

    /// The byte order of the encoding.
    pub fn endian(&self) -> (r: Endian)
        ensures
            r == self.endian,
    {
        self.endian
    }

    /// The format of the encoding.
    pub fn format(&self) -> (r: Format)
        ensures
            r == self.format,
    {
        self.format
    }

    /// The distance of the first byte from the start of the message.
    pub fn position(&self) -> (r: usize)
        ensures
            r == self.position,
    {
        self.position
    }
}

/// The padding in front of a value that stands `offset` bytes behind the
/// position `base`. The sum of the two need not fit into a machine word.
pub fn padding_at(base: usize, offset: usize, alignment: usize) -> (r: usize)
    requires
        alignment == 1 || alignment == 2 || alignment == 4 || alignment == 8,
    ensures
        r == padding((base + offset) as nat, alignment as nat),
        r < alignment,
{
    let phase = (base % alignment + offset % alignment) % alignment;
    proof {
        vstd::arithmetic::div_mod::lemma_add_mod_noop(
            base as int,
            offset as int,
            alignment as int,
        );
    }
    if phase == 0 {
        0
    } else {
        alignment - phase
    }
}

/// Appends `n` zero bytes to `out`.
pub fn push_zeros(out: &mut Vec<u8>, n: usize)
    ensures
        final(out)@ == old(out)@ + zeros(n as nat),
{
    let mut i: usize = 0;
    assert(out@ =~= old(out)@ + zeros(0));
    while i < n
        invariant
            i <= n,
            out@ == old(out)@ + zeros(i as nat),
        decreases n - i,
    {
        out.push(0u8);
        assert(out@ =~= old(out)@ + zeros((i + 1) as nat));
        i += 1;
    }
}

/// Tells whether the bytes of `b` from `from` up to `to` are all zero.
pub fn zeros_between(b: &[u8], from: usize, to: usize) -> (r: bool)
    requires
        from <= to <= b.len(),
    ensures
        r == all_zero(b@.subrange(from as int, to as int)),
{
    let mut i: usize = from;
    while i < to
        invariant
            from <= i <= to,
            to <= b.len(),
            forall|k: int| from <= k < i ==> b@[k] == 0,
        decreases to - i,
    {
        if b[i] != 0 {
            assert(b@.subrange(from as int, to as int)[i - from] != 0);
            return false;
        }
        i += 1;
    }
    true
}

} // verus!
