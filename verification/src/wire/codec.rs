//! Values to bytes and back, in a context.

use vstd::prelude::*;
use crate::wire::context::Context;
use crate::wire::dbus::MAX_ENCODED_LEN;
use crate::wire::de::read_as;
use crate::wire::error::{Error, Fault};
use crate::wire::gvariant::is_supported;
use crate::wire::signature::{Format, Signature, SignatureView};
use crate::wire::value::{Value, ValueView};

verus! {

/// The bytes of the value `v` in the context `ctx`: the padding that its
/// type asks for at the position of the context, then the value itself.
pub open spec fn encoding(ctx: Context, v: ValueView) -> Seq<u8> {
    match ctx.format {
        Format::DBus => crate::wire::dbus::encoded(ctx.endian, ctx.position as nat, v),
        Format::GVariant => crate::wire::gvariant::encoded(ctx.endian, ctx.position as nat, v),
    }
}

/// The value of type `sig` that stands at the start of `bytes` in the
/// context `ctx`, and the number of bytes it takes; or the reason why there
/// is none. A strict reader refuses padding that is not zero.
pub open spec fn decoding(ctx: Context, strict: bool, sig: SignatureView, bytes: Seq<u8>) -> Result<
    (ValueView, nat),
    Fault,
> {
    match ctx.format {
        Format::DBus => crate::wire::dbus::decoded(
            ctx.endian,
            strict,
            ctx.position as nat,
            sig,
            bytes,
        ),
        Format::GVariant => crate::wire::gvariant::decoded(
            ctx.endian,
            strict,
            ctx.position as nat,
            sig,
            bytes,
        ),
    }
}

/// The value can be written in the context, and read back: it is well
/// typed, and its bytes are few enough for the lengths on the wire. In the
/// GVariant format, where a string ends at its zero byte, no string in it
/// has such a byte.
pub open spec fn is_encodable(ctx: Context, v: ValueView) -> bool {
    &&& v.is_well_typed()
    &&& encoding(ctx, v).len() <= MAX_ENCODED_LEN
    &&& ctx.format is GVariant ==> is_supported(v)
}

/// Writes `value` as bytes in the context `ctx`. Every value that can be
/// written in the context is written.
pub fn to_bytes(ctx: Context, value: &Value) -> (r: Result<Vec<u8>, Error>)
    ensures
        r matches Ok(bytes) ==> bytes@ == encoding(ctx, value@),
        is_encodable(ctx, value@) ==> r is Ok,
{
    let mut out: Vec<u8> = Vec::new();
    let written = match ctx.format {
        Format::DBus => crate::wire::ser::encode(ctx.endian, ctx.position, value, &mut out),
        Format::GVariant => crate::wire::gvariant::encode(
            ctx.endian,
            ctx.position,
            value,
            &mut out,
        ),
    };
    match written {
        Ok(()) => {
            assert(out@ =~= encoding(ctx, value@));
            Ok(out)
        },
        Err(e) => Err(e),
    }
}

/// Reads from the start of `bytes` a value of the type `signature`, in the
/// context `ctx`. Gives the value and the number of bytes it took. Padding
/// that is not zero is let pass.
pub fn from_bytes(ctx: Context, signature: &Signature, bytes: &[u8]) -> (r: Result<
    (Value, usize),
    Error,
>)
    ensures
        read_as(r, 0, decoding(ctx, false, signature@, bytes@)),
{
    read(ctx, false, signature, bytes)
}

/// Reads like [`from_bytes`], and refuses padding that is not zero.
pub fn from_bytes_strict(ctx: Context, signature: &Signature, bytes: &[u8]) -> (r: Result<
    (Value, usize),
    Error,
>)
    ensures
        read_as(r, 0, decoding(ctx, true, signature@, bytes@)),
{
    read(ctx, true, signature, bytes)
}

fn read(ctx: Context, strict: bool, signature: &Signature, bytes: &[u8]) -> (r: Result<
    (Value, usize),
    Error,
>)
    ensures
        read_as(r, 0, decoding(ctx, strict, signature@, bytes@)),
{
    assert(bytes@.subrange(0, bytes.len() as int) =~= bytes@);
    match ctx.format {
        Format::DBus => crate::wire::de::decode(
            ctx.endian,
            strict,
            ctx.position,
            signature,
            bytes,
            0,
            bytes.len(),
        ),
        Format::GVariant => crate::wire::gvariant::decode(
            ctx.endian,
            strict,
            ctx.position,
            signature,
            bytes,
            0,
            bytes.len(),
        ),
    }
}

/// Reading gives back what was written: for every value that can be written
/// in a context, whatever the byte order, the format and the position of the
/// context, reading its bytes in the same context gives the value back and
/// takes exactly its bytes, whether the reader is strict or not.
#[verifier::rlimit(60)]
#[verifier::spinoff_prover]
pub proof fn lemma_decode_encode(ctx: Context, strict: bool, v: ValueView)
    requires
        is_encodable(ctx, v),
    ensures
        decoding(ctx, strict, v.signature(), encoding(ctx, v)) == Ok::<(ValueView, nat), Fault>(
            (v, encoding(ctx, v).len()),
        ),
{
    match ctx.format {
        Format::DBus => {
            crate::wire::dbus::lemma_roundtrip(ctx.endian, strict, ctx.position as nat, v, seq![]);
            assert(encoding(ctx, v) + Seq::<u8>::empty() =~= encoding(ctx, v));
        },
        Format::GVariant => {
            crate::wire::gvariant::lemma_roundtrip(ctx.endian, strict, ctx.position as nat, v);
        },
    }
}

/// In the classic format a value is read back whatever bytes follow its own.
pub proof fn lemma_decode_encode_then_more(ctx: Context, strict: bool, v: ValueView, rest: Seq<u8>)
    requires
        ctx.format is DBus,
        is_encodable(ctx, v),
    ensures
        decoding(ctx, strict, v.signature(), encoding(ctx, v) + rest) == Ok::<
            (ValueView, nat),
            Fault,
        >((v, encoding(ctx, v).len())),
{
    crate::wire::dbus::lemma_roundtrip(ctx.endian, strict, ctx.position as nat, v, rest);
}

/// A reader never hands out a value of another type than it was asked
/// for: whatever the bytes and the context, what is read for a complete
/// type is a well-typed value of that type.
pub proof fn lemma_read_is_typed(ctx: Context, strict: bool, sig: SignatureView, bytes: Seq<u8>)
    requires
        sig.is_complete(),
    ensures
        decoding(ctx, strict, sig, bytes) matches Ok((v, _)) ==> v.signature() == sig
            && v.is_well_typed(),
{
    match ctx.format {
        Format::DBus => {
            crate::wire::soundness::lemma_decoded_is_typed(
                ctx.endian,
                strict,
                ctx.position as nat,
                sig,
                bytes,
            );
        },
        Format::GVariant => {
            crate::wire::soundness::lemma_gv_decoded_is_typed(
                ctx.endian,
                strict,
                ctx.position as nat,
                sig,
                bytes,
            );
        },
    }
}

} // verus!
