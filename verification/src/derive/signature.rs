//! Signatures as source text: the expression that builds a signature when
//! the program that holds it is compiled.
//!
//! The text is what a procedural macro hands to the compiler as tokens; the
//! macro itself turns the text into tokens and a failure into a compile
//! error at the right place.

use vstd::prelude::*;
use vstd::string::StringExecFns;
use vstd::string::StringSliceAdditionalSpecFns;
use vstd::utf8::encode_utf8;
use crate::text::{str_eq, stripped, trim_matches};
use crate::wire::error::Error;
use crate::wire::grammar::parse_signature;
use crate::wire::signature::{lemma_structure_view, views, Signature, SignatureView};

verus! {

/// The path of the crate that the generated code names by default.
pub const DEFAULT_CRATE: &'static str = "::zvariant";

/// The name of the variant that stands for a type without children.
pub open spec fn leaf_name(v: SignatureView) -> Seq<char> {
    match v {
        SignatureView::Unit => "Unit"@,
        SignatureView::Bool => "Bool"@,
        SignatureView::U8 => "U8"@,
        SignatureView::I16 => "I16"@,
        SignatureView::U16 => "U16"@,
        SignatureView::I32 => "I32"@,
        SignatureView::U32 => "U32"@,
        SignatureView::I64 => "I64"@,
        SignatureView::U64 => "U64"@,
        SignatureView::F64 => "F64"@,
        SignatureView::Str => "Str"@,
        SignatureView::Signature => "Signature"@,
        SignatureView::ObjectPath => "ObjectPath"@,
        SignatureView::Variant => "Variant"@,
        _ => "Fd"@,
    }
}

/// A child that is known at compile time, as source text: `inner` is the
/// text of the child, `zv` the path of the crate.
pub open spec fn static_child(zv: Seq<char>, inner: Seq<char>) -> Seq<char> {
    zv + "::signature::Child::Static { child: &"@ + inner + ", }"@
}

/// The source text of the expression that builds the signature `v`, with
/// every name written out from the crate path `zv`.
pub open spec fn tokens(v: SignatureView, zv: Seq<char>) -> Seq<char>
    decreases v,
{
    match v {
        SignatureView::Array(child) => zv + "::Signature::Array("@ + static_child(
            zv,
            tokens(*child, zv),
        ) + ")"@,
        SignatureView::Maybe(child) => zv + "::Signature::Maybe("@ + static_child(
            zv,
            tokens(*child, zv),
        ) + ")"@,
        SignatureView::Dict(key, value) => zv + "::Signature::Dict { key: "@ + static_child(
            zv,
            tokens(*key, zv),
        ) + ", value: "@ + static_child(zv, tokens(*value, zv)) + ", }"@,
        SignatureView::Structure(fields) => zv + "::Signature::Structure("@ + zv
            + "::signature::Fields::Static { fields: &["@ + field_tokens(fields, zv) + "], })"@,
        _ => zv + "::Signature::"@ + leaf_name(v),
    }
}

/// The source text of the fields of a structure: each one behind `&`, with
/// commas between them.
pub open spec fn field_tokens(fields: Seq<SignatureView>, zv: Seq<char>) -> Seq<char>
    decreases fields,
{
    if fields.len() == 0 {
        Seq::empty()
    } else if fields.len() == 1 {
        "&"@ + tokens(fields[0], zv)
    } else {
        field_tokens(fields.drop_last(), zv) + ", &"@ + tokens(fields.last(), zv)
    }
}

/// Appends to `out` a child that is known at compile time.
fn write_child(child: &Signature, zv: &str, out: &mut String)
    ensures
        final(out)@ == old(out)@ + static_child(zv@, tokens(child@, zv@)),
    decreases child, 1nat,
{
    out.append(zv);
    out.append("::signature::Child::Static { child: &");
    write_tokens(child, zv, out);
    out.append(", }");
    assert(out@ =~= old(out)@ + static_child(zv@, tokens(child@, zv@)));
}

/// Appends to `out` the source text that builds `signature`.
fn write_tokens(signature: &Signature, zv: &str, out: &mut String)
    ensures
        final(out)@ == old(out)@ + tokens(signature@, zv@),
    decreases signature, 0nat,
{
    out.append(zv);
    match signature {
        Signature::Array(child) => {
            out.append("::Signature::Array(");
            write_child(child, zv, out);
            out.append(")");
        },
        Signature::Maybe(child) => {
            out.append("::Signature::Maybe(");
            write_child(child, zv, out);
            out.append(")");
        },
        Signature::Dict { key, value } => {
            out.append("::Signature::Dict { key: ");
            write_child(key, zv, out);
            out.append(", value: ");
            write_child(value, zv, out);
            out.append(", }");
        },
        Signature::Structure(fields) => {
            let ghost all = views(fields@);
            proof {
                lemma_structure_view(*fields);
            }
            out.append("::Signature::Structure(");
            out.append(zv);
            out.append("::signature::Fields::Static { fields: &[");
            let ghost head = out@;
            let mut i: usize = 0;
            assert(out@ =~= head + field_tokens(all.take(0), zv@));
            while i < fields.len()
                invariant
                    i <= fields.len(),
                    *signature == Signature::Structure(*fields),
                    all == views(fields@),
                    out@ == head + field_tokens(all.take(i as int), zv@),
                decreases fields.len() - i,
            {
                if i == 0 {
                    out.append("&");
                } else {
                    out.append(", &");
                }
                assert(decreases_to!(signature => signature->Structure_0));
                assert(decreases_to!(fields => fields[i as int]));
                write_tokens(&fields[i], zv, out);
                proof {
                    let next = all.take(i + 1);
                    assert(next.drop_last() =~= all.take(i as int));
                    assert(next.last() == all[i as int]);
                    assert(next[0] == all[0]);
                    assert(out@ =~= head + field_tokens(next, zv@));
                }
                i += 1;
            }
            assert(all.take(fields.len() as int) =~= all);
            out.append("], })");
        },
        Signature::Unit => {
            out.append("::Signature::");
            out.append("Unit");
        },
        Signature::Bool => {
            out.append("::Signature::");
            out.append("Bool");
        },
        Signature::U8 => {
            out.append("::Signature::");
            out.append("U8");
        },
        Signature::I16 => {
            out.append("::Signature::");
            out.append("I16");
        },
        Signature::U16 => {
            out.append("::Signature::");
            out.append("U16");
        },
        Signature::I32 => {
            out.append("::Signature::");
            out.append("I32");
        },
        Signature::U32 => {
            out.append("::Signature::");
            out.append("U32");
        },
        Signature::I64 => {
            out.append("::Signature::");
            out.append("I64");
        },
        Signature::U64 => {
            out.append("::Signature::");
            out.append("U64");
        },
        Signature::F64 => {
            out.append("::Signature::");
            out.append("F64");
        },
        Signature::Str => {
            out.append("::Signature::");
            out.append("Str");
        },
        Signature::Signature => {
            out.append("::Signature::");
            out.append("Signature");
        },
        Signature::ObjectPath => {
            out.append("::Signature::");
            out.append("ObjectPath");
        },
        Signature::Variant => {
            out.append("::Signature::");
            out.append("Variant");
        },
        Signature::Fd => {
            out.append("::Signature::");
            out.append("Fd");
        },
    }
    assert(out@ =~= old(out)@ + tokens(signature@, zv@));
}

/// The source text of the expression that builds `signature` when the
/// program is compiled, with every name written out from the crate path `zv`.
pub fn signature_to_tokens_with_crate(signature: &Signature, zv: &str) -> (r: String)
    ensures
        r@ == tokens(signature@, zv@),
{
    let mut out = String::new();
    write_tokens(signature, zv, &mut out);
    assert(out@ =~= tokens(signature@, zv@));
    out
}

/// The source text of the expression that builds `signature` when the
/// program is compiled, with every name written out from `::zvariant`.
pub fn signature_to_tokens(signature: &Signature) -> (r: String)
    ensures
        r@ == tokens(signature@, DEFAULT_CRATE@),
{
    signature_to_tokens_with_crate(signature, DEFAULT_CRATE)
}

/// The signature that the text `dict` stands for in place of its own
/// spelling: a dictionary from strings to variants.
pub open spec fn dict_shorthand() -> SignatureView {
    SignatureView::Dict(Box::new(SignatureView::Str), Box::new(SignatureView::Variant))
}

/// What the literal of a `signature!` call expands to: the literal without
/// the quotes around it is read as a signature, with `dict` as a shorthand,
/// and the signature is written out as source text.
pub open spec fn expansion(literal: Seq<char>) -> Option<Seq<char>> {
    let text = stripped(literal, '"');
    if text == "dict"@ {
        Some(tokens(dict_shorthand(), DEFAULT_CRATE@))
    } else {
        match parse_signature(encode_utf8(text)) {
            Some(v) => Some(tokens(v, DEFAULT_CRATE@)),
            None => None,
        }
    }
}

/// Expands the literal of a `signature!` call: `literal` is the string
/// literal as it stands in the source, quotes included. Text that is no
/// signature is reported as such, without the quotes.
pub fn expand_signature_macro(literal: &str) -> (r: Result<String, Error>)
    ensures
        match expansion(literal@) {
            Some(text) => r matches Ok(t) && t@ == text,
            None => r matches Err(Error::InvalidSignature(t)) && t@ == stripped(literal@, '"'),
        },
{
    let signature_string = trim_matches(literal, '"');
    let signature = if str_eq(signature_string, "dict") {
        Signature::dict(Signature::Str, Signature::Variant)
    } else {
        match Signature::from_str(signature_string) {
            Ok(signature) => signature,
            Err(e) => {
                return Err(e);
            },
        }
    };
    Ok(signature_to_tokens(&signature))
}

} // verus!
