//! Type signatures: the tree of a value's type, and its text.

use vstd::prelude::*;
use crate::text::{ascii_string, ascii_text, is_ascii_bytes};

verus! {

/// The two ways of laying values out as bytes.
#[derive(Clone, Copy, Debug, PartialEq, Eq, Structural)]
pub enum Format {
    /// The classic encoding of the message bus.
    DBus,
    /// The GVariant encoding.
    GVariant,
}

/// The type of a value, as a tree: what a signature means.
pub enum SignatureView {
    /// The type of no value at all, with the empty text.
    Unit,
    /// `y`, an unsigned byte.
    U8,
    /// `b`, a truth value.
    Bool,
    /// `n`, a signed 16-bit number.
    I16,
    /// `q`, an unsigned 16-bit number.
    U16,
    /// `i`, a signed 32-bit number.
    I32,
    /// `u`, an unsigned 32-bit number.
    U32,
    /// `x`, a signed 64-bit number.
    I64,
    /// `t`, an unsigned 64-bit number.
    U64,
    /// `d`, a floating point number in 64 bits.
    F64,
    /// `s`, a string.
    Str,
    /// `g`, a signature as a value.
    Signature,
    /// `o`, the path of an object.
    ObjectPath,
    /// `v`, a value that brings its own signature.
    Variant,
    /// `h`, the index of a file descriptor that travels beside the message.
    Fd,
    /// `a` and the type of the elements.
    Array(Box<SignatureView>),
    /// `a{`, the types of key and value, and `}`.
    Dict(Box<SignatureView>, Box<SignatureView>),
    /// The types of the fields between `(` and `)`.
    Structure(Seq<SignatureView>),
    /// `m` and the type of the value that may be there. GVariant only.
    Maybe(Box<SignatureView>),
}

impl SignatureView {
    /// The type is one of the basic ones, which alone can be the key of a
    /// dictionary: the numbers, the truth value, the three kinds of string
    /// and the file descriptor.
    pub open spec fn is_basic(self) -> bool {
        match self {
            SignatureView::U8
            | SignatureView::Bool
            | SignatureView::I16
            | SignatureView::U16
            | SignatureView::I32
            | SignatureView::U32
            | SignatureView::I64
            | SignatureView::U64
            | SignatureView::F64
            | SignatureView::Str
            | SignatureView::Signature
            | SignatureView::ObjectPath
            | SignatureView::Fd => true,
            _ => false,
        }
    }

    /// The type is a single complete one: there is no unit in it, every
    /// dictionary has a basic key, and every structure has a field.
    pub open spec fn is_complete(self) -> bool
        decreases self,
    {
        match self {
            SignatureView::Unit => false,
            SignatureView::Array(elem) => elem.is_complete(),
            SignatureView::Maybe(elem) => elem.is_complete(),
            SignatureView::Dict(key, value) => key.is_basic() && value.is_complete(),
            SignatureView::Structure(fields) => fields.len() > 0 && forall|i: int|
                0 <= i < fields.len() ==> (#[trigger] fields[i]).is_complete(),
            _ => true,
        }
    }

    /// The type is the unit or a single complete type.
    pub open spec fn is_well_formed(self) -> bool {
        self is Unit || self.is_complete()
    }

    /// The text of the signature, as bytes.
    pub open spec fn text(self) -> Seq<u8>
        decreases self,
    {
        match self {
            SignatureView::Unit => seq![],
            SignatureView::U8 => seq![0x79u8],
            SignatureView::Bool => seq![0x62u8],
            SignatureView::I16 => seq![0x6eu8],
            SignatureView::U16 => seq![0x71u8],
            SignatureView::I32 => seq![0x69u8],
            SignatureView::U32 => seq![0x75u8],
            SignatureView::I64 => seq![0x78u8],
            SignatureView::U64 => seq![0x74u8],
            SignatureView::F64 => seq![0x64u8],
            SignatureView::Str => seq![0x73u8],
            SignatureView::Signature => seq![0x67u8],
            SignatureView::ObjectPath => seq![0x6fu8],
            SignatureView::Variant => seq![0x76u8],
            SignatureView::Fd => seq![0x68u8],
            SignatureView::Array(elem) => seq![0x61u8] + elem.text(),
            SignatureView::Dict(key, value) => seq![0x61u8, 0x7bu8] + key.text() + value.text()
                + seq![0x7du8],
            SignatureView::Structure(fields) => seq![0x28u8] + texts(fields) + seq![0x29u8],
            SignatureView::Maybe(elem) => seq![0x6du8] + elem.text(),
        }
    }

    /// The boundary that a value of the type starts at in the given format.
    pub open spec fn alignment(self, format: Format) -> nat
        decreases self,
    {
        match format {
            Format::DBus => match self {
                SignatureView::U8 | SignatureView::Variant | SignatureView::Signature => 1,
                SignatureView::I16 | SignatureView::U16 => 2,
                SignatureView::I32
                | SignatureView::U32
                | SignatureView::Bool
                | SignatureView::Str
                | SignatureView::ObjectPath
                | SignatureView::Fd
                | SignatureView::Array(_)
                | SignatureView::Dict(_, _) => 4,
                SignatureView::I64
                | SignatureView::U64
                | SignatureView::F64
                | SignatureView::Structure(_) => 8,
                SignatureView::Unit | SignatureView::Maybe(_) => 1,
            },
            Format::GVariant => match self {
                SignatureView::I16 | SignatureView::U16 => 2,
                SignatureView::I32 | SignatureView::U32 | SignatureView::Fd => 4,
                SignatureView::I64
                | SignatureView::U64
                | SignatureView::F64
                | SignatureView::Variant => 8,
                SignatureView::Array(elem) => elem.alignment(format),
                SignatureView::Maybe(elem) => elem.alignment(format),
                SignatureView::Dict(key, value) => max_nat(
                    key.alignment(format),
                    value.alignment(format),
                ),
                SignatureView::Structure(fields) => widest(fields, format),
                _ => 1,
            },
        }
    }
}

/// The larger of two numbers.
pub open spec fn max_nat(a: nat, b: nat) -> nat {
    if a >= b {
        a
    } else {
        b
    }
}

/// The texts of `fields`, one after the other.
pub open spec fn texts(fields: Seq<SignatureView>) -> Seq<u8>
    decreases fields,
{
    if fields.len() == 0 {
        seq![]
    } else {
        fields[0].text() + texts(fields.drop_first())
    }
}

/// The widest alignment among `fields` in the given format, and 1 where
/// there are none.
pub open spec fn widest(fields: Seq<SignatureView>, format: Format) -> nat
    decreases fields,
{
    if fields.len() == 0 {
        1
    } else {
        max_nat(fields[0].alignment(format), widest(fields.drop_first(), format))
    }
}

/// The type of a value, as a tree.
#[derive(Debug, PartialEq, Eq)]
pub enum Signature {
    /// The type of no value at all, with the empty text.
    Unit,
    /// `y`, an unsigned byte.
    U8,
    /// `b`, a truth value.
    Bool,
    /// `n`, a signed 16-bit number.
    I16,
    /// `q`, an unsigned 16-bit number.
    U16,
    /// `i`, a signed 32-bit number.
    I32,
    /// `u`, an unsigned 32-bit number.
    U32,
    /// `x`, a signed 64-bit number.
    I64,
    /// `t`, an unsigned 64-bit number.
    U64,
    /// `d`, a floating point number in 64 bits.
    F64,
    /// `s`, a string.
    Str,
    /// `g`, a signature as a value.
    Signature,
    /// `o`, the path of an object.
    ObjectPath,
    /// `v`, a value that brings its own signature.
    Variant,
    /// `h`, the index of a file descriptor that travels beside the message.
    Fd,
    /// An array, with the type of its elements.
    Array(Box<Signature>),
    /// A dictionary, with the types of its keys and values.
    Dict { key: Box<Signature>, value: Box<Signature> },
    /// A structure, with the types of its fields.
    Structure(Vec<Signature>),
    /// A value that may be missing, with its type. GVariant only.
    Maybe(Box<Signature>),
}

/// The tree that a signature stands for.
pub open spec fn tree(signature: Signature) -> SignatureView
    decreases signature,
{
    match signature {
        Signature::Unit => SignatureView::Unit,
        Signature::U8 => SignatureView::U8,
        Signature::Bool => SignatureView::Bool,
        Signature::I16 => SignatureView::I16,
        Signature::U16 => SignatureView::U16,
        Signature::I32 => SignatureView::I32,
        Signature::U32 => SignatureView::U32,
        Signature::I64 => SignatureView::I64,
        Signature::U64 => SignatureView::U64,
        Signature::F64 => SignatureView::F64,
        Signature::Str => SignatureView::Str,
        Signature::Signature => SignatureView::Signature,
        Signature::ObjectPath => SignatureView::ObjectPath,
        Signature::Variant => SignatureView::Variant,
        Signature::Fd => SignatureView::Fd,
        Signature::Array(elem) => SignatureView::Array(Box::new(tree(*elem))),
        Signature::Dict { key, value } => SignatureView::Dict(
            Box::new(tree(*key)),
            Box::new(tree(*value)),
        ),
        Signature::Structure(fields) => SignatureView::Structure(
            Seq::new(
                fields.len() as nat,
                |i: int|
                    if 0 <= i < fields.len() {
                        tree(fields[i])
                    } else {
                        SignatureView::Unit
                    },
            ),
        ),
        Signature::Maybe(elem) => SignatureView::Maybe(Box::new(tree(*elem))),
    }
}

impl View for Signature {
    type V = SignatureView;

    open spec fn view(&self) -> SignatureView {
        tree(*self)
    }
}

/// The trees of a row of signatures.
pub open spec fn views(fields: Seq<Signature>) -> Seq<SignatureView> {
    Seq::new(fields.len(), |i: int| tree(fields[i]))
}

/// The tree of a structure is the structure of the trees of its fields.
pub proof fn lemma_structure_view(fields: Vec<Signature>)
    ensures
        Signature::Structure(fields)@ == SignatureView::Structure(views(fields@)),
{
    assert(Signature::Structure(fields)@->Structure_0 =~= views(fields@));
}

/// The text of a row of types with one more behind is the text of the row
/// followed by the text of that one.
pub proof fn lemma_texts_push(fields: Seq<SignatureView>, last: SignatureView)
    ensures
        texts(fields.push(last)) == texts(fields) + last.text(),
    decreases fields.len(),
{
    let all = fields.push(last);
    if fields.len() == 0 {
        assert(all.drop_first() =~= seq![]);
        assert(texts(all.drop_first()) =~= seq![]);
        assert(texts(all) =~= last.text());
        assert(texts(fields) =~= seq![]);
    } else {
        assert(all.drop_first() =~= fields.drop_first().push(last));
        lemma_texts_push(fields.drop_first(), last);
        assert(texts(all) =~= texts(fields) + last.text());
    }
}

/// The text of a signature is made of ASCII bytes.
pub proof fn lemma_text_is_ascii(v: SignatureView)
    ensures
        is_ascii_bytes(v.text()),
    decreases v,
{
    match v {
        SignatureView::Array(elem) => {
            lemma_text_is_ascii(*elem);
        },
        SignatureView::Maybe(elem) => {
            lemma_text_is_ascii(*elem);
        },
        SignatureView::Dict(key, value) => {
            lemma_text_is_ascii(*key);
            lemma_text_is_ascii(*value);
        },
        SignatureView::Structure(fields) => {
            lemma_texts_are_ascii(fields);
        },
        _ => {},
    }
}

/// The text of a row of signatures is made of ASCII bytes.
pub proof fn lemma_texts_are_ascii(fields: Seq<SignatureView>)
    ensures
        is_ascii_bytes(texts(fields)),
    decreases fields,
{
    if fields.len() > 0 {
        lemma_text_is_ascii(fields[0]);
        lemma_texts_are_ascii(fields.drop_first());
    }
}

impl Clone for Signature {
    fn clone(&self) -> (r: Self)
        ensures
            r@ == self@,
    {
        self.duplicate()
    }
}

impl Signature {
    /// A copy of the signature.
    pub fn duplicate(&self) -> (r: Signature)
        ensures
            r@ == self@,
        decreases self,
    {
        match self {
            Signature::Unit => Signature::Unit,
            Signature::U8 => Signature::U8,
            Signature::Bool => Signature::Bool,
            Signature::I16 => Signature::I16,
            Signature::U16 => Signature::U16,
            Signature::I32 => Signature::I32,
            Signature::U32 => Signature::U32,
            Signature::I64 => Signature::I64,
            Signature::U64 => Signature::U64,
            Signature::F64 => Signature::F64,
            Signature::Str => Signature::Str,
            Signature::Signature => Signature::Signature,
            Signature::ObjectPath => Signature::ObjectPath,
            Signature::Variant => Signature::Variant,
            Signature::Fd => Signature::Fd,
            Signature::Array(elem) => Signature::Array(Box::new(elem.duplicate())),
            Signature::Maybe(elem) => Signature::Maybe(Box::new(elem.duplicate())),
            Signature::Dict { key, value } => Signature::Dict {
                key: Box::new(key.duplicate()),
                value: Box::new(value.duplicate()),
            },
            Signature::Structure(fields) => {
                proof {
                    lemma_structure_view(*fields);
                }
                let mut copies: Vec<Signature> = Vec::new();
                let mut i: usize = 0;
                while i < fields.len()
                    invariant
                        i <= fields.len(),
                        *self == Signature::Structure(*fields),
                        copies.len() == i,
                        forall|k: int| 0 <= k < i ==> (#[trigger] copies[k])@ == fields[k]@,
                    decreases fields.len() - i,
                {
                    assert(decreases_to!(self => self->Structure_0));
                    assert(decreases_to!(fields => fields[i as int]));
                    copies.push(fields[i].duplicate());
                    i += 1;
                }
                proof {
                    lemma_structure_view(copies);
                    assert(views(copies@) =~= views(fields@));
                }
                Signature::Structure(copies)
            },
        }
    }

    /// Tells whether the type is one of the basic ones, which alone can be
    /// the key of a dictionary.
    pub fn is_basic(&self) -> (r: bool)
        ensures
            r == self@.is_basic(),
    {
        match self {
            Signature::U8
            | Signature::Bool
            | Signature::I16
            | Signature::U16
            | Signature::I32
            | Signature::U32
            | Signature::I64
            | Signature::U64
            | Signature::F64
            | Signature::Str
            | Signature::Signature
            | Signature::ObjectPath
            | Signature::Fd => true,
            _ => false,
        }
    }

    /// The boundary that a value of the type starts at in the given format.
    pub fn alignment(&self, format: Format) -> (r: usize)
        ensures
            r == self@.alignment(format),
            1 <= r <= 8,
        decreases self,
    {
        match format {
            Format::DBus => match self {
                Signature::U8 | Signature::Variant | Signature::Signature => 1,
                Signature::I16 | Signature::U16 => 2,
                Signature::I32
                | Signature::U32
                | Signature::Bool
                | Signature::Str
                | Signature::ObjectPath
                | Signature::Fd
                | Signature::Array(_)
                | Signature::Dict { .. } => 4,
                Signature::I64 | Signature::U64 | Signature::F64 | Signature::Structure(_) => 8,
                Signature::Unit | Signature::Maybe(_) => 1,
            },
            Format::GVariant => match self {
                Signature::I16 | Signature::U16 => 2,
                Signature::I32 | Signature::U32 | Signature::Fd => 4,
                Signature::I64 | Signature::U64 | Signature::F64 | Signature::Variant => 8,
                Signature::Array(elem) => elem.alignment(format),
                Signature::Maybe(elem) => elem.alignment(format),
                Signature::Dict { key, value } => {
                    let k = key.alignment(format);
                    let v = value.alignment(format);
                    if k >= v {
                        k
                    } else {
                        v
                    }
                },
                Signature::Structure(fields) => {
                    let ghost all = views(fields@);
                    proof {
                        lemma_structure_view(*fields);
                    }
                    let mut widest_yet: usize = 1;
                    let mut i: usize = fields.len();
                    assert(all.skip(i as int) =~= seq![]);
                    while i > 0
                        invariant
                            i <= fields.len(),
                            *self == Signature::Structure(*fields),
                            all == views(fields@),
                            widest_yet == widest(all.skip(i as int), format),
                            1 <= widest_yet <= 8,
                        decreases i,
                    {
                        i -= 1;
                        assert(decreases_to!(self => self->Structure_0));
                        assert(decreases_to!(fields => fields[i as int]));
                        let a = fields[i].alignment(format);
                        proof {
                            let tail = all.skip(i as int);
                            assert(tail[0] == fields[i as int]@);
                            assert(tail.drop_first() =~= all.skip(i + 1));
                        }
                        if a > widest_yet {
                            widest_yet = a;
                        }
                    }
                    assert(all.skip(0) =~= all);
                    widest_yet
                },
                _ => 1,
            },
        }
    }

    /// Appends the text of the signature to `out`.
    pub fn write_text(&self, out: &mut Vec<u8>)
        ensures
            final(out)@ == old(out)@ + self@.text(),
        decreases self,
    {
        match self {
            Signature::Unit => {
                assert(out@ =~= old(out)@ + self@.text());
            },
            Signature::U8 => out.push(0x79),
            Signature::Bool => out.push(0x62),
            Signature::I16 => out.push(0x6e),
            Signature::U16 => out.push(0x71),
            Signature::I32 => out.push(0x69),
            Signature::U32 => out.push(0x75),
            Signature::I64 => out.push(0x78),
            Signature::U64 => out.push(0x74),
            Signature::F64 => out.push(0x64),
            Signature::Str => out.push(0x73),
            Signature::Signature => out.push(0x67),
            Signature::ObjectPath => out.push(0x6f),
            Signature::Variant => out.push(0x76),
            Signature::Fd => out.push(0x68),
            Signature::Array(elem) => {
                out.push(0x61);
                elem.write_text(out);
            },
            Signature::Maybe(elem) => {
                out.push(0x6d);
                elem.write_text(out);
            },
            Signature::Dict { key, value } => {
                out.push(0x61);
                out.push(0x7b);
                key.write_text(out);
                value.write_text(out);
                out.push(0x7d);
            },
            Signature::Structure(fields) => {
                let ghost all = views(fields@);
                proof {
                    lemma_structure_view(*fields);
                }
                out.push(0x28);
                let mut i: usize = 0;
                assert(texts(all.take(0)) =~= seq![]);
                while i < fields.len()
                    invariant
                        i <= fields.len(),
                        *self == Signature::Structure(*fields),
                        all == views(fields@),
                        out@ == old(out)@ + seq![0x28u8] + texts(all.take(i as int)),
                    decreases fields.len() - i,
                {
                    assert(decreases_to!(self => self->Structure_0));
                    assert(decreases_to!(fields => fields[i as int]));
                    fields[i].write_text(out);
                    proof {
                        lemma_texts_push(all.take(i as int), all[i as int]);
                        assert(all.take(i + 1) =~= all.take(i as int).push(all[i as int]));
                    }
                    i += 1;
                }
                assert(all.take(fields.len() as int) =~= all);
                out.push(0x29);
            },
        }
        assert(out@ =~= old(out)@ + self@.text());
    }

    /// The text of the signature.
    pub fn to_string(&self) -> (r: String)
        ensures
            r@ == ascii_text(self@.text()),
    {
        let mut out: Vec<u8> = Vec::new();
        self.write_text(&mut out);
        proof {
            lemma_text_is_ascii(self@);
            assert(out@ =~= self@.text());
        }
        ascii_string(out.as_slice())
    }
}

} // verus!
