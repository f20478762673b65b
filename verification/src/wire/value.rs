//! Values of any type that the wire format knows, with the type decided at
//! run time.

use vstd::prelude::*;
use vstd::utf8::encode_utf8;
use crate::names::object_path::{is_object_path, ObjectPath};
use crate::wire::grammar::{all_complete, MAX_SIGNATURE_LEN};
use crate::wire::signature::{texts, tree, views, Signature, SignatureView};

verus! {

/// What a value is: its kind, and what it holds.
pub enum ValueView {
    /// An unsigned byte.
    U8(u8),
    /// A truth value.
    Bool(bool),
    /// A signed 16-bit number.
    I16(i16),
    /// An unsigned 16-bit number.
    U16(u16),
    /// A signed 32-bit number.
    I32(i32),
    /// An unsigned 32-bit number.
    U32(u32),
    /// A signed 64-bit number.
    I64(i64),
    /// An unsigned 64-bit number.
    U64(u64),
    /// A floating point number, as the 64 bits that encode it.
    F64(u64),
    /// A string.
    Str(Seq<char>),
    /// A signature: a row of complete types.
    Signature(Seq<SignatureView>),
    /// The path of an object.
    ObjectPath(Seq<char>),
    /// The index of a file descriptor among those that travel with the
    /// message.
    Fd(u32),
    /// A value that brings its own signature.
    Value(Box<ValueView>),
    /// An array: the type of its elements, and the elements.
    Array(SignatureView, Seq<ValueView>),
    /// A structure: its fields.
    Structure(Seq<ValueView>),
    /// A dictionary: the types of its keys and values, and its entries in
    /// the order in which they stand on the wire. Each entry is a structure
    /// of a key and a value.
    Dict(SignatureView, SignatureView, Seq<ValueView>),
}

impl ValueView {
    /// The signature of the value.
    pub open spec fn signature(self) -> SignatureView
        decreases self,
    {
        match self {
            ValueView::U8(_) => SignatureView::U8,
            ValueView::Bool(_) => SignatureView::Bool,
            ValueView::I16(_) => SignatureView::I16,
            ValueView::U16(_) => SignatureView::U16,
            ValueView::I32(_) => SignatureView::I32,
            ValueView::U32(_) => SignatureView::U32,
            ValueView::I64(_) => SignatureView::I64,
            ValueView::U64(_) => SignatureView::U64,
            ValueView::F64(_) => SignatureView::F64,
            ValueView::Str(_) => SignatureView::Str,
            ValueView::Signature(_) => SignatureView::Signature,
            ValueView::ObjectPath(_) => SignatureView::ObjectPath,
            ValueView::Fd(_) => SignatureView::Fd,
            ValueView::Value(_) => SignatureView::Variant,
            ValueView::Array(element, _) => SignatureView::Array(Box::new(element)),
            ValueView::Structure(fields) => SignatureView::Structure(signatures(fields)),
            ValueView::Dict(key, value, _) => SignatureView::Dict(Box::new(key), Box::new(value)),
        }
    }

    /// The value is made as its kind demands: a signature is a row of
    /// complete types of at most 255 bytes, an object path obeys the rules of paths,
    /// a variant holds a value whose signature fits into 255 bytes, the
    /// elements of an array all have the type that the array names, a
    /// structure has a field, and the entries of a dictionary are structures
    /// of a key and a value of the types that the dictionary names, of which
    /// that of the keys is a basic one.
    pub open spec fn is_well_typed(self) -> bool
        decreases self,
    {
        match self {
            ValueView::Signature(row) => all_complete(row) && texts(row).len()
                <= MAX_SIGNATURE_LEN,
            ValueView::ObjectPath(p) => is_object_path(encode_utf8(p)),
            ValueView::Value(inner) => inner.is_well_typed() && inner.signature().text().len()
                <= MAX_SIGNATURE_LEN,
            ValueView::Array(element, items) => element.is_complete() && forall|i: int|
                0 <= i < items.len() ==> (#[trigger] items[i]).signature() == element
                    && items[i].is_well_typed(),
            ValueView::Structure(fields) => fields.len() > 0 && forall|i: int|
                0 <= i < fields.len() ==> (#[trigger] fields[i]).is_well_typed(),
            ValueView::Dict(key, value, entries) => key.is_basic() && value.is_complete()
                && forall|i: int|
                0 <= i < entries.len() ==> (#[trigger] entries[i]).signature() == entry_type(
                    key,
                    value,
                ) && entries[i].is_well_typed(),
            _ => true,
        }
    }
}

/// The type of the entries of a dictionary: a structure of key and value.
pub open spec fn entry_type(key: SignatureView, value: SignatureView) -> SignatureView {
    SignatureView::Structure(seq![key, value])
}

/// The signatures of a row of values.
pub open spec fn signatures(fields: Seq<ValueView>) -> Seq<SignatureView>
    decreases fields,
{
    if fields.len() == 0 {
        seq![]
    } else {
        seq![fields[0].signature()] + signatures(fields.drop_first())
    }
}

/// A value of any type that the wire format knows.
#[derive(Debug, PartialEq, Eq)]
pub enum Value {
    /// An unsigned byte.
    U8(u8),
    /// A truth value.
    Bool(bool),
    /// A signed 16-bit number.
    I16(i16),
    /// An unsigned 16-bit number.
    U16(u16),
    /// A signed 32-bit number.
    I32(i32),
    /// An unsigned 32-bit number.
    U32(u32),
    /// A signed 64-bit number.
    I64(i64),
    /// An unsigned 64-bit number.
    U64(u64),
    /// A floating point number, as the 64 bits that encode it.
    F64(u64),
    /// A string.
    Str(String),
    /// A signature: a row of complete types.
    Signature(Vec<Signature>),
    /// The path of an object.
    ObjectPath(ObjectPath),
    /// The index of a file descriptor among those that travel with the
    /// message.
    Fd(u32),
    /// A value that brings its own signature.
    Value(Box<Value>),
    /// An array: the type of its elements, and the elements.
    Array(Signature, Vec<Value>),
    /// A structure: its fields.
    Structure(Vec<Value>),
    /// A dictionary: the types of its keys and values, and its entries in
    /// the order in which they stand on the wire. Each entry is a structure
    /// of a key and a value.
    Dict(Signature, Signature, Vec<Value>),
}

/// What a value is, as a tree.
pub open spec fn value_tree(value: Value) -> ValueView
    decreases value,
{
    match value {
        Value::U8(v) => ValueView::U8(v),
        Value::Bool(v) => ValueView::Bool(v),
        Value::I16(v) => ValueView::I16(v),
        Value::U16(v) => ValueView::U16(v),
        Value::I32(v) => ValueView::I32(v),
        Value::U32(v) => ValueView::U32(v),
        Value::I64(v) => ValueView::I64(v),
        Value::U64(v) => ValueView::U64(v),
        Value::F64(v) => ValueView::F64(v),
        Value::Str(s) => ValueView::Str(s@),
        Value::Signature(row) => ValueView::Signature(views(row@)),
        Value::ObjectPath(p) => ValueView::ObjectPath(p@),
        Value::Fd(v) => ValueView::Fd(v),
        Value::Value(inner) => ValueView::Value(Box::new(value_tree(*inner))),
        Value::Array(element, items) => ValueView::Array(
            tree(element),
            Seq::new(
                items.len() as nat,
                |i: int|
                    if 0 <= i < items.len() {
                        value_tree(items[i])
                    } else {
                        ValueView::U8(0)
                    },
            ),
        ),
        Value::Structure(fields) => ValueView::Structure(
            Seq::new(
                fields.len() as nat,
                |i: int|
                    if 0 <= i < fields.len() {
                        value_tree(fields[i])
                    } else {
                        ValueView::U8(0)
                    },
            ),
        ),
        Value::Dict(key, value, entries) => ValueView::Dict(
            tree(key),
            tree(value),
            Seq::new(
                entries.len() as nat,
                |i: int|
                    if 0 <= i < entries.len() {
                        value_tree(entries[i])
                    } else {
                        ValueView::U8(0)
                    },
            ),
        ),
    }
}

impl View for Value {
    type V = ValueView;

    open spec fn view(&self) -> ValueView {
        value_tree(*self)
    }
}

/// The trees of a row of values.
pub open spec fn value_trees(items: Seq<Value>) -> Seq<ValueView> {
    Seq::new(items.len(), |i: int| value_tree(items[i]))
}

/// The tree of a dictionary is the dictionary of the trees of its entries.
pub proof fn lemma_dict_view(key: Signature, value: Signature, entries: Vec<Value>)
    ensures
        Value::Dict(key, value, entries)@ == ValueView::Dict(key@, value@, value_trees(entries@)),
{
    assert(Value::Dict(key, value, entries)@->Dict_2 =~= value_trees(entries@));
}

/// The tree of an array is the array of the trees of its elements.
pub proof fn lemma_array_view(element: Signature, items: Vec<Value>)
    ensures
        Value::Array(element, items)@ == ValueView::Array(element@, value_trees(items@)),
{
    assert(Value::Array(element, items)@->Array_1 =~= value_trees(items@));
}

/// The tree of a structure is the structure of the trees of its fields.
pub proof fn lemma_structure_value_view(fields: Vec<Value>)
    ensures
        Value::Structure(fields)@ == ValueView::Structure(value_trees(fields@)),
{
    assert(Value::Structure(fields)@->Structure_0 =~= value_trees(fields@));
}

impl Value {
    /// A copy of the value.
    pub fn duplicate(&self) -> (r: Value)
        ensures
            r@ == self@,
        decreases self, 1nat,
    {
        match self {
            Value::U8(v) => Value::U8(*v),
            Value::Bool(v) => Value::Bool(*v),
            Value::I16(v) => Value::I16(*v),
            Value::U16(v) => Value::U16(*v),
            Value::I32(v) => Value::I32(*v),
            Value::U32(v) => Value::U32(*v),
            Value::I64(v) => Value::I64(*v),
            Value::U64(v) => Value::U64(*v),
            Value::F64(v) => Value::F64(*v),
            Value::Str(s) => Value::Str(s.as_str().to_owned()),
            Value::Signature(row) => {
                let mut copies: Vec<Signature> = Vec::new();
                let mut i: usize = 0;
                while i < row.len()
                    invariant
                        i <= row.len(),
                        copies.len() == i,
                        forall|k: int| 0 <= k < i ==> (#[trigger] copies[k])@ == row[k]@,
                    decreases row.len() - i,
                {
                    copies.push(row[i].duplicate());
                    i += 1;
                }
                assert(views(copies@) =~= views(row@));
                Value::Signature(copies)
            },
            Value::ObjectPath(p) => Value::ObjectPath(p.clone()),
            Value::Fd(v) => Value::Fd(*v),
            Value::Value(inner) => Value::Value(Box::new(inner.duplicate())),
            Value::Array(element, items) => {
                assert(decreases_to!(self => self->Array_1));
                let copies = duplicate_row(items);
                let element = element.duplicate();
                proof {
                    lemma_array_view(element, copies);
                    lemma_array_view(self->Array_0, *items);
                }
                Value::Array(element, copies)
            },
            Value::Structure(fields) => {
                assert(decreases_to!(self => self->Structure_0));
                let copies = duplicate_row(fields);
                proof {
                    lemma_structure_value_view(copies);
                    lemma_structure_value_view(*fields);
                }
                Value::Structure(copies)
            },
            Value::Dict(key, value, entries) => {
                assert(decreases_to!(self => self->Dict_2));
                let copies = duplicate_row(entries);
                let key = key.duplicate();
                let value = value.duplicate();
                proof {
                    lemma_dict_view(key, value, copies);
                    lemma_dict_view(self->Dict_0, self->Dict_1, *entries);
                }
                Value::Dict(key, value, copies)
            },
        }
    }
}

/// A copy of a row of values.
pub fn duplicate_row(items: &Vec<Value>) -> (r: Vec<Value>)
    ensures
        value_trees(r@) == value_trees(items@),
    decreases items, 0nat,
{
    let mut copies: Vec<Value> = Vec::new();
    let mut i: usize = 0;
    while i < items.len()
        invariant
            i <= items.len(),
            copies.len() == i,
            forall|k: int| 0 <= k < i ==> (#[trigger] copies[k])@ == items[k]@,
        decreases items.len() - i,
    {
        assert(decreases_to!(items => items[i as int]));
        copies.push(items[i].duplicate());
        i += 1;
    }
    assert(value_trees(copies@) =~= value_trees(items@));
    copies
}

} // verus!
