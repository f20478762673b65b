//! Byte order, and the fixed-width unsigned integers as bytes in either order.

use vstd::prelude::*;
use vstd::slice::slice_subrange;

verus! {

/// The order in which the bytes of a number stand on the wire.
#[derive(Clone, Copy, Debug, PartialEq, Eq, Structural)]
pub enum Endian {
    /// Least significant byte first.
    Little,
    /// Most significant byte first.
    Big,
}

/// The byte that announces little-endian numbers at the start of a message: `l`.
pub const LITTLE_MARK: u8 = 0x6c;

/// The byte that announces big-endian numbers at the start of a message: `B`.
pub const BIG_MARK: u8 = 0x42;

impl Endian {
    /// The byte that announces this order at the start of a message.
    pub open spec fn spec_mark(self) -> u8 {
        match self {
            Endian::Little => LITTLE_MARK,
            Endian::Big => BIG_MARK,
        }
    }

    /// The order that the first byte of a message announces, if any.
    pub open spec fn spec_from_mark(mark: u8) -> Option<Endian> {
        if mark == LITTLE_MARK {
            Some(Endian::Little)
        } else if mark == BIG_MARK {
            Some(Endian::Big)
        } else {
            None
        }
    }

    /// The byte that announces this order at the start of a message.
    pub fn mark(self) -> (m: u8)
        ensures
            m == self.spec_mark(),
            Endian::spec_from_mark(m) == Some(self),
    {
        match self {
            Endian::Little => LITTLE_MARK,
            Endian::Big => BIG_MARK,
        }
    }

    /// The order that the first byte of a message announces, if any.
    pub fn from_mark(mark: u8) -> (r: Option<Endian>)
        ensures
            r == Endian::spec_from_mark(mark),
    {
        if mark == LITTLE_MARK {
            Some(Endian::Little)
        } else if mark == BIG_MARK {
            Some(Endian::Big)
        } else {
            None
        }
    }
}

/// The two bytes of `v` in the given order.
#[verifier::opaque]
pub open spec fn u16_bytes(order: Endian, v: u16) -> Seq<u8> {
    let b0 = (v % 256) as u8;
    let b1 = (v / 256) as u8;
    match order {
        Endian::Little => seq![b0, b1],
        Endian::Big => seq![b1, b0],
    }
}

/// The number that the first two bytes of `b` spell in the given order.
#[verifier::opaque]
pub open spec fn u16_value(order: Endian, b: Seq<u8>) -> u16 {
    match order {
        Endian::Little => (b[0] + b[1] * 256) as u16,
        Endian::Big => (b[1] + b[0] * 256) as u16,
    }
}

/// The four bytes of `v` in the given order.
#[verifier::opaque]
pub open spec fn u32_bytes(order: Endian, v: u32) -> Seq<u8> {
    let b0 = (v % 256) as u8;
    let b1 = (v / 0x100 % 256) as u8;
    let b2 = (v / 0x1_0000 % 256) as u8;
    let b3 = (v / 0x100_0000) as u8;
    match order {
        Endian::Little => seq![b0, b1, b2, b3],
        Endian::Big => seq![b3, b2, b1, b0],
    }
}

/// The number that the first four bytes of `b` spell in the given order.
#[verifier::opaque]
pub open spec fn u32_value(order: Endian, b: Seq<u8>) -> u32 {
    match order {
        Endian::Little => (b[0] + b[1] * 0x100 + b[2] * 0x1_0000 + b[3] * 0x100_0000) as u32,
        Endian::Big => (b[3] + b[2] * 0x100 + b[1] * 0x1_0000 + b[0] * 0x100_0000) as u32,
    }
}

/// The eight bytes of `v` in the given order.
#[verifier::opaque]
pub open spec fn u64_bytes(order: Endian, v: u64) -> Seq<u8> {
    let lo = u32_bytes(order, (v % 0x1_0000_0000) as u32);
    let hi = u32_bytes(order, (v / 0x1_0000_0000) as u32);
    match order {
        Endian::Little => lo + hi,
        Endian::Big => hi + lo,
    }
}

/// The number that the first eight bytes of `b` spell in the given order.
#[verifier::opaque]
pub open spec fn u64_value(order: Endian, b: Seq<u8>) -> u64 {
    let first = u32_value(order, b.subrange(0, 4));
    let second = u32_value(order, b.subrange(4, 8));
    match order {
        Endian::Little => (first + second * 0x1_0000_0000) as u64,
        Endian::Big => (second + first * 0x1_0000_0000) as u64,
    }
}

/// A 16-bit number, written in either order and read in the same order, is
/// the same number.
pub proof fn lemma_u16_roundtrip(order: Endian, v: u16)
    ensures
        u16_bytes(order, v).len() == 2,
        u16_value(order, u16_bytes(order, v)) == v,
{
    reveal(u16_bytes);
    reveal(u16_value);
}

/// A 16-bit number is read from its own two bytes, whatever follows them.
pub proof fn lemma_u16_prefix(order: Endian, v: u16, rest: Seq<u8>)
    ensures
        u16_value(order, u16_bytes(order, v) + rest) == v,
{
    reveal(u16_bytes);
    reveal(u16_value);
    let x = u16_bytes(order, v);
    assert((x + rest)[0] == x[0] && (x + rest)[1] == x[1]);
}

/// A 32-bit number, written in either order and read in the same order, is
/// the same number.
pub proof fn lemma_u32_roundtrip(order: Endian, v: u32)
    ensures
        u32_bytes(order, v).len() == 4,
        u32_value(order, u32_bytes(order, v)) == v,
{
    reveal(u32_bytes);
    reveal(u32_value);
}

/// The number that bytes spell depends on the first four of them only.
pub proof fn lemma_u32_value_of_prefix(order: Endian, b: Seq<u8>, rest: Seq<u8>)
    requires
        b.len() >= 4,
    ensures
        u32_value(order, b + rest) == u32_value(order, b),
        u32_value(order, b.take(4)) == u32_value(order, b),
{
    reveal(u32_value);
    assert((b + rest)[0] == b[0] && (b + rest)[1] == b[1] && (b + rest)[2] == b[2] && (b
        + rest)[3] == b[3]);
    let t = b.take(4);
    assert(t[0] == b[0] && t[1] == b[1] && t[2] == b[2] && t[3] == b[3]);
}

/// A 32-bit number is read from its own four bytes, whatever follows them.
pub proof fn lemma_u32_prefix(order: Endian, v: u32, rest: Seq<u8>)
    ensures
        u32_value(order, u32_bytes(order, v) + rest) == v,
{
    lemma_u32_roundtrip(order, v);
    lemma_u32_value_of_prefix(order, u32_bytes(order, v), rest);
}

/// Four bytes, read as a number in either order and written in the same
/// order, are the same bytes.
#[verifier::rlimit(60)]
#[verifier::spinoff_prover]
pub proof fn lemma_u32_bytes_of_value(order: Endian, b: Seq<u8>)
    requires
        b.len() == 4,
    ensures
        u32_bytes(order, u32_value(order, b)) == b,
{
    reveal(u32_bytes);
    reveal(u32_value);
    let (b0, b1, b2, b3) = match order {
        Endian::Little => (b[0], b[1], b[2], b[3]),
        Endian::Big => (b[3], b[2], b[1], b[0]),
    };
    let k2: int = b2 + b3 * 0x100;
    let k1: int = b1 + k2 * 0x100;
    let v: int = b0 + k1 * 0x100;
    assert(v == u32_value(order, b));
    assert(v % 256 == b0 && v / 0x100 == k1);
    assert(k1 % 256 == b1 && k1 / 0x100 == k2);
    assert(k2 % 256 == b2 && k2 / 0x100 == b3);
    assert(v / 0x1_0000 == k2);
    assert(v / 0x100_0000 == b3);
    assert(u32_bytes(order, u32_value(order, b)) =~= b);
}

/// A 64-bit number, written in either order and read in the same order, is
/// the same number.
#[verifier::rlimit(60)]
#[verifier::spinoff_prover]
pub proof fn lemma_u64_roundtrip(order: Endian, v: u64)
    ensures
        u64_bytes(order, v).len() == 8,
        u64_value(order, u64_bytes(order, v)) == v,
{
    reveal(u64_bytes);
    reveal(u64_value);
    let lo = (v % 0x1_0000_0000) as u32;
    let hi = (v / 0x1_0000_0000) as u32;
    lemma_u32_roundtrip(order, lo);
    lemma_u32_roundtrip(order, hi);
    let b = u64_bytes(order, v);
    match order {
        Endian::Little => {
            assert(b.subrange(0, 4) =~= u32_bytes(order, lo));
            assert(b.subrange(4, 8) =~= u32_bytes(order, hi));
        },
        Endian::Big => {
            assert(b.subrange(0, 4) =~= u32_bytes(order, hi));
            assert(b.subrange(4, 8) =~= u32_bytes(order, lo));
        },
    }
}

/// A 64-bit number is read from its own eight bytes, whatever follows them.
pub proof fn lemma_u64_prefix(order: Endian, v: u64, rest: Seq<u8>)
    ensures
        u64_value(order, u64_bytes(order, v) + rest) == v,
{
    lemma_u64_roundtrip(order, v);
    reveal(u64_value);
    let z = u64_bytes(order, v);
    assert((z + rest).subrange(0, 4) =~= z.subrange(0, 4));
    assert((z + rest).subrange(4, 8) =~= z.subrange(4, 8));
}

/// Writes `v` as two bytes in the given order.
pub fn u16_to_bytes(order: Endian, v: u16) -> (r: [u8; 2])
    ensures
        r@ == u16_bytes(order, v),
{
    proof {
        reveal(u16_bytes);
    }
    let b0 = (v % 256) as u8;
    let b1 = (v / 256) as u8;
    let r = match order {
        Endian::Little => [b0, b1],
        Endian::Big => [b1, b0],
    };
    assert(r@ =~= u16_bytes(order, v));
    r
}

/// Reads the first two bytes of `b` as a number in the given order.
pub fn u16_from_bytes(order: Endian, b: &[u8]) -> (r: u16)
    requires
        b.len() >= 2,
    ensures
        r == u16_value(order, b@),
{
    proof {
        reveal(u16_value);
    }
    let b0 = b[0] as u16;
    let b1 = b[1] as u16;
    match order {
        Endian::Little => b0 + b1 * 256,
        Endian::Big => b1 + b0 * 256,
    }
}

/// Writes `v` as four bytes in the given order.
pub fn u32_to_bytes(order: Endian, v: u32) -> (r: [u8; 4])
    ensures
        r@ == u32_bytes(order, v),
{
    proof {
        reveal(u32_bytes);
    }
    let b0 = (v % 256) as u8;
    let b1 = (v / 0x100 % 256) as u8;
    let b2 = (v / 0x1_0000 % 256) as u8;
    let b3 = (v / 0x100_0000) as u8;
    let r = match order {
        Endian::Little => [b0, b1, b2, b3],
        Endian::Big => [b3, b2, b1, b0],
    };
    assert(r@ =~= u32_bytes(order, v));
    r
}

/// Reads the first four bytes of `b` as a number in the given order.
pub fn u32_from_bytes(order: Endian, b: &[u8]) -> (r: u32)
    requires
        b.len() >= 4,
    ensures
        r == u32_value(order, b@),
{
    proof {
        reveal(u32_value);
    }
    let b0 = b[0] as u32;
    let b1 = b[1] as u32;
    let b2 = b[2] as u32;
    let b3 = b[3] as u32;
    match order {
        Endian::Little => b0 + b1 * 0x100 + b2 * 0x1_0000 + b3 * 0x100_0000,
        Endian::Big => b3 + b2 * 0x100 + b1 * 0x1_0000 + b0 * 0x100_0000,
    }
}

/// Writes `v` as eight bytes in the given order.
pub fn u64_to_bytes(order: Endian, v: u64) -> (r: [u8; 8])
    ensures
        r@ == u64_bytes(order, v),
{
    proof {
        reveal(u64_bytes);
        lemma_u32_roundtrip(order, (v % 0x1_0000_0000) as u32);
        lemma_u32_roundtrip(order, (v / 0x1_0000_0000) as u32);
    }
    let lo = u32_to_bytes(order, (v % 0x1_0000_0000) as u32);
    let hi = u32_to_bytes(order, (v / 0x1_0000_0000) as u32);
    let r = match order {
        Endian::Little => [lo[0], lo[1], lo[2], lo[3], hi[0], hi[1], hi[2], hi[3]],
        Endian::Big => [hi[0], hi[1], hi[2], hi[3], lo[0], lo[1], lo[2], lo[3]],
    };
    assert(r@ =~= u64_bytes(order, v));
    r
}

/// Reads the first eight bytes of `b` as a number in the given order.
pub fn u64_from_bytes(order: Endian, b: &[u8]) -> (r: u64)
    requires
        b.len() >= 8,
    ensures
        r == u64_value(order, b@),
{
    proof {
        reveal(u64_value);
    }
    let first = u32_from_bytes(order, slice_subrange(b, 0, 4)) as u64;
    let second = u32_from_bytes(order, slice_subrange(b, 4, 8)) as u64;
    match order {
        Endian::Little => first + second * 0x1_0000_0000,
        Endian::Big => second + first * 0x1_0000_0000,
    }
}

} // verus!
