//! The properties of an object: what the methods `Get`, `GetAll` and
//! `Set` of the interface `org.freedesktop.DBus.Properties` answer, and the
//! signals by which an object and its manager tell of what has changed.

use vstd::prelude::*;
use vstd::utf8::encode_utf8;
use crate::error::Error;
use crate::fdo;
use crate::message::{Message, MessageView, Type};
use crate::names::interface_name::is_interface_name;
use crate::names::member_name::is_member_name;
use crate::names::object_path::{is_object_path, ObjectPath};
use crate::object_server::{
    index_of, lemma_index_of_is, lemma_index_of_none, OBJECT_MANAGER, PROPERTIES,
};
use crate::text::str_eq;
use crate::wire::dbus::{encoded_row, MAX_ENCODED_LEN};
use crate::wire::grammar::MAX_SIGNATURE_LEN;
use crate::wire::signature::{texts, views, Signature, SignatureView};
use crate::wire::value::{
    lemma_array_view, lemma_dict_view, lemma_structure_value_view, signatures, value_trees, Value,
    ValueView,
};

verus! {

/// Who may do what with a property.
#[derive(Clone, Copy, Debug, PartialEq, Eq, Structural)]
pub enum Access {
    /// The property can be read.
    Read,
    /// The property can be written.
    Write,
    /// The property can be read and written.
    ReadWrite,
}

impl Access {
    /// The property can be read.
    pub open spec fn spec_can_read(self) -> bool {
        self != Access::Write
    }

    /// The property can be written.
    pub open spec fn spec_can_write(self) -> bool {
        self != Access::Read
    }

    /// Tells whether the property can be read.
    pub fn can_read(self) -> (r: bool)
        ensures
            r == self.spec_can_read(),
    {
        match self {
            Access::Write => false,
            _ => true,
        }
    }

    /// Tells whether the property can be written.
    pub fn can_write(self) -> (r: bool)
        ensures
            r == self.spec_can_write(),
    {
        match self {
            Access::Read => false,
            _ => true,
        }
    }
}

/// A property: its name, its value, and who may do what with it.
#[derive(Debug, PartialEq, Eq)]
pub struct Property {
    pub name: String,
    pub value: Value,
    pub access: Access,
}

/// The properties of one interface of an object.
#[derive(Debug, PartialEq, Eq)]
pub struct PropertyTable {
    pub interface: String,
    pub properties: Vec<Property>,
}

/// The names of the properties, in their order.
pub open spec fn names(properties: Seq<Property>) -> Seq<Seq<char>> {
    Seq::new(properties.len(), |i: int| properties[i].name@)
}

/// A property as an entry of a dictionary: its name, and its value in a
/// variant.
pub open spec fn entry(property: Property) -> ValueView {
    ValueView::Structure(
        seq![ValueView::Str(property.name@), ValueView::Value(Box::new(property.value@))],
    )
}

/// The properties that can be read, as entries of a dictionary, in their
/// order.
pub open spec fn readable(properties: Seq<Property>) -> Seq<ValueView>
    decreases properties.len(),
{
    if properties.len() == 0 {
        seq![]
    } else if properties.last().access.spec_can_read() {
        readable(properties.drop_last()).push(entry(properties.last()))
    } else {
        readable(properties.drop_last())
    }
}

/// The type of a dictionary of properties, `a{sv}`.
pub open spec fn dictionary_type() -> SignatureView {
    SignatureView::Dict(Box::new(SignatureView::Str), Box::new(SignatureView::Variant))
}

/// The properties that can be read, as the dictionary that `GetAll`
/// returns.
pub open spec fn dictionary(properties: Seq<Property>) -> ValueView {
    ValueView::Dict(SignatureView::Str, SignatureView::Variant, readable(properties))
}

/// What `Get` answers for the property `name`: its value in a variant.
/// There is no such answer where there is no such property, or where it
/// cannot be read.
pub open spec fn got(properties: Seq<Property>, name: Seq<char>) -> Result<ValueView, Refusal> {
    match index_of(names(properties), name) {
        None => Err(Refusal::UnknownProperty),
        Some(i) => if properties[i].access.spec_can_read() {
            Ok(ValueView::Value(Box::new(properties[i].value@)))
        } else {
            Err(Refusal::AccessDenied)
        },
    }
}

/// Why `Set` does not set the property `name` to `value`, if it does not:
/// there is no such property; it cannot be written; or the signature of the
/// value is another than that of the property.
pub open spec fn set_refusal(properties: Seq<Property>, name: Seq<char>, value: ValueView) -> Option<
    Refusal,
> {
    match index_of(names(properties), name) {
        None => Some(Refusal::UnknownProperty),
        Some(i) => if !properties[i].access.spec_can_write() {
            Some(Refusal::ReadOnly)
        } else if properties[i].value@.signature().text() != value.signature().text() {
            Some(Refusal::InvalidArgs)
        } else {
            None
        },
    }
}

/// Why a property is not read or written.
#[derive(Clone, Copy, Debug, PartialEq, Eq, Structural)]
pub enum Refusal {
    /// The interface has no property of that name.
    UnknownProperty,
    /// The property cannot be read.
    AccessDenied,
    /// The property cannot be written.
    ReadOnly,
    /// The value is of another type than the property.
    InvalidArgs,
}

/// The refusal that an error stands for, if any.
pub open spec fn refusal_of(e: fdo::error::Error) -> Option<Refusal> {
    match e {
        fdo::error::Error::UnknownProperty(_) => Some(Refusal::UnknownProperty),
        fdo::error::Error::AccessDenied(_) => Some(Refusal::AccessDenied),
        fdo::error::Error::PropertyReadOnly(_) => Some(Refusal::ReadOnly),
        fdo::error::Error::InvalidArgs(_) => Some(Refusal::InvalidArgs),
        _ => None,
    }
}

/// The property as an entry of a dictionary.
fn make_entry(property: &Property) -> (r: Value)
    ensures
        r@ == entry(*property),
{
    let mut parts: Vec<Value> = Vec::new();
    parts.push(Value::Str(property.name.as_str().to_owned()));
    parts.push(Value::Value(Box::new(property.value.duplicate())));
    proof {
        lemma_structure_value_view(parts);
        assert(value_trees(parts@) =~= seq![
            ValueView::Str(property.name@),
            ValueView::Value(Box::new(property.value@)),
        ]);
    }
    Value::Structure(parts)
}

/// The type `a{sv}`.
fn make_dictionary_type() -> (r: Signature)
    ensures
        r@ == dictionary_type(),
{
    let key = Signature::Str;
    let value = Signature::Variant;
    assert(key@ == SignatureView::Str && value@ == SignatureView::Variant);
    Signature::Dict { key: Box::new(key), value: Box::new(value) }
}

impl PropertyTable {
    /// The place of the property `name`, if there is one.
    pub fn find(&self, name: &str) -> (r: Option<usize>)
        ensures
            match index_of(names(self.properties@), name@) {
                Some(i) => r == Some(i as usize) && 0 <= i < self.properties.len(),
                None => r is None,
            },
    {
        let ghost all = names(self.properties@);
        let mut i: usize = 0;
        while i < self.properties.len()
            invariant
                i <= self.properties.len(),
                all == names(self.properties@),
                forall|k: int| 0 <= k < i ==> all[k] != name@,
            decreases self.properties.len() - i,
        {
            assert(all[i as int] == self.properties[i as int].name@);
            if str_eq(self.properties[i].name.as_str(), name) {
                proof {
                    lemma_index_of_is(all, name@, i as int);
                }
                return Some(i);
            }
            i += 1;
        }
        proof {
            lemma_index_of_none(all, name@);
        }
        None
    }

    /// Answers `Get`: the value of the property `name`, in a variant.
    pub fn get(&self, name: &str) -> (r: Result<Value, fdo::error::Error>)
        ensures
            match got(self.properties@, name@) {
                Ok(value) => r matches Ok(v) && v@ == value,
                Err(refusal) => r matches Err(e) && refusal_of(e) == Some(refusal),
            },
    {
        match self.find(name) {
            None => Err(fdo::error::Error::UnknownProperty(name.to_owned())),
            Some(i) => {
                if self.properties[i].access.can_read() {
                    Ok(Value::Value(Box::new(self.properties[i].value.duplicate())))
                } else {
                    Err(fdo::error::Error::AccessDenied(name.to_owned()))
                }
            },
        }
    }

    /// Answers `GetAll`: the properties that can be read, as a dictionary
    /// from their names to their values.
    pub fn get_all(&self) -> (r: Value)
        ensures
            r@ == dictionary(self.properties@),
    {
        let ghost all = self.properties@;
        let mut entries: Vec<Value> = Vec::new();
        let mut i: usize = 0;
        assert(all.take(0) =~= seq![]);
        assert(value_trees(entries@) =~= readable(all.take(0)));
        while i < self.properties.len()
            invariant
                i <= self.properties.len(),
                all == self.properties@,
                value_trees(entries@) == readable(all.take(i as int)),
            decreases self.properties.len() - i,
        {
            let ghost next = all.take(i + 1);
            assert(next.drop_last() =~= all.take(i as int));
            assert(next.last() == all[i as int]);
            if self.properties[i].access.can_read() {
                let ghost before = value_trees(entries@);
                entries.push(make_entry(&self.properties[i]));
                assert(value_trees(entries@) =~= before.push(entry(all[i as int])));
            }
            i += 1;
        }
        assert(all.take(self.properties.len() as int) =~= all);
        proof {
            lemma_dict_view(Signature::Str, Signature::Variant, entries);
        }
        Value::Dict(Signature::Str, Signature::Variant, entries)
    }

    /// Answers `Set`: the property `name` gets the value `value`, where it
    /// can be written and the value is of its type: see [`set_refusal`].
    /// Nothing else changes, and nothing at all where the value is refused.
    pub fn set(&mut self, name: &str, value: Value) -> (r: Result<(), fdo::error::Error>)
        ensures
            match set_refusal(old(self).properties@, name@, value@) {
                Some(refusal) => r matches Err(e) && refusal_of(e) == Some(refusal) && *final(self)
                    == *old(self),
                None => {
                    &&& r is Ok
                    &&& final(self).interface == old(self).interface
                    &&& index_of(names(old(self).properties@), name@) matches Some(i)
                        && final(self).properties@ == old(self).properties@.update(
                        i,
                        (Property { value, ..old(self).properties@[i] }),
                    )
                },
            },
    {
        match self.find(name) {
            None => Err(fdo::error::Error::UnknownProperty(name.to_owned())),
            Some(i) => {
                if !self.properties[i].access.can_write() {
                    return Err(fdo::error::Error::PropertyReadOnly(name.to_owned()));
                }
                if !same_type(&self.properties[i].value, &value) {
                    return Err(fdo::error::Error::InvalidArgs(name.to_owned()));
                }
                let was = self.properties.remove(i);
                self.properties.insert(i, Property { name: was.name, value, access: was.access });
                assert(self.properties@ =~= old(self).properties@.update(
                    i as int,
                    Property { value, ..old(self).properties@[i as int] },
                ));
                Ok(())
            },
        }
    }
}

/// Tells whether two values have the same signature.
pub fn same_type(a: &Value, b: &Value) -> (r: bool)
    ensures
        r == (a@.signature().text() == b@.signature().text()),
{
    let mut left: Vec<u8> = Vec::new();
    let mut right: Vec<u8> = Vec::new();
    crate::wire::ser::write_signature_of(a, &mut left);
    crate::wire::ser::write_signature_of(b, &mut right);
    assert(left@ =~= a@.signature().text());
    assert(right@ =~= b@.signature().text());
    crate::text::bytes_eq(left.as_slice(), right.as_slice())
}

/// The message `m` is the signal `member` of `interface`, sent from the
/// object at `path` with the values `body`.
pub open spec fn is_signal(
    m: MessageView,
    path: Seq<char>,
    interface: Seq<char>,
    member: Seq<char>,
    body: Seq<ValueView>,
) -> bool {
    &&& m.is_consistent()
    &&& m.header.msg_type == Type::Signal
    &&& m.header.path matches Some(p) && p@ == path
    &&& m.header.interface matches Some(i) && i@ == interface
    &&& m.header.member matches Some(n) && n@ == member
    &&& m.body == encoded_row(m.header.endian, 0, body)
    &&& texts(views(m.header.signature@)) == texts(signatures(body))
}

/// The values can be the body of a message: they are well typed, and
/// their encoding and their signature are short enough for the wire.
pub open spec fn can_send(body: Seq<ValueView>) -> bool {
    &&& forall|i: int| 0 <= i < body.len() ==> (#[trigger] body[i]).is_well_typed()
    &&& forall|endian: crate::wire::endian::Endian| #[trigger]
        encoded_row(endian, 0, body).len() <= MAX_ENCODED_LEN
    &&& texts(signatures(body)).len() <= MAX_SIGNATURE_LEN
}

/// Makes the signal `member` of `interface`, sent from the object at
/// `path` with the values `body`.
pub fn signal(path: &ObjectPath, interface: &str, member: &str, body: &Vec<Value>) -> (r: Result<
    Message,
    Error,
>)
    ensures
        r matches Ok(m) ==> is_signal(m@, path@, interface@, member@, value_trees(body@)),
        path.is_valid() && is_interface_name(encode_utf8(interface@)) && is_member_name(
            encode_utf8(member@),
        ) && can_send(value_trees(body@)) ==> r is Ok,
{
    match Message::signal(path.as_str(), interface, member) {
        Ok(builder) => {
            let ghost endian = builder@.endian;
            assert(encoded_row(endian, 0, value_trees(body@)).len() <= MAX_ENCODED_LEN || !can_send(
                value_trees(body@),
            ));
            builder.build(body)
        },
        Err(e) => Err(e),
    }
}

/// The values in `PropertiesChanged`: the interface, the properties that
/// have changed with their values, and the names of those of which only
/// the change is told.
pub open spec fn changes(
    interface: Seq<char>,
    changed: Seq<Property>,
    invalidated: Seq<Seq<char>>,
) -> Seq<ValueView> {
    seq![
        ValueView::Str(interface),
        dictionary(changed),
        ValueView::Array(
            SignatureView::Str,
            Seq::new(invalidated.len(), |i: int| ValueView::Str(invalidated[i])),
        ),
    ]
}

/// An array of the strings `names`.
pub fn make_names(names: &Vec<String>) -> (r: Value)
    ensures
        r@ == ValueView::Array(
            SignatureView::Str,
            Seq::new(names.len() as nat, |i: int| ValueView::Str(names[i]@)),
        ),
{
    let mut items: Vec<Value> = Vec::new();
    let mut i: usize = 0;
    while i < names.len()
        invariant
            i <= names.len(),
            items.len() == i,
            forall|k: int| 0 <= k < i ==> (#[trigger] items[k])@ == ValueView::Str(names[k]@),
        decreases names.len() - i,
    {
        items.push(Value::Str(names[i].as_str().to_owned()));
        i += 1;
    }
    proof {
        lemma_array_view(Signature::Str, items);
        assert(value_trees(items@) =~= Seq::new(
            names.len() as nat,
            |i: int| ValueView::Str(names[i]@),
        ));
    }
    Value::Array(Signature::Str, items)
}

/// The texts of a row of strings.
pub open spec fn texts_of(names: Seq<String>) -> Seq<Seq<char>> {
    Seq::new(names.len(), |i: int| names[i]@)
}

/// Makes the signal `PropertiesChanged` of the object at `path`: the
/// properties in `changed` that can be read have changed to the values they
/// hold there, and those named in `invalidated` have changed to values that
/// the signal does not tell.
pub fn properties_changed(path: &ObjectPath, changed: &PropertyTable, invalidated: &Vec<String>) -> (r:
    Result<Message, Error>)
    ensures
        r matches Ok(m) ==> is_signal(
            m@,
            path@,
            PROPERTIES@,
            "PropertiesChanged"@,
            changes(changed.interface@, changed.properties@, texts_of(invalidated@)),
        ),
        path.is_valid() && is_interface_name(encode_utf8(PROPERTIES@)) && is_member_name(
            encode_utf8("PropertiesChanged"@),
        ) && can_send(changes(changed.interface@, changed.properties@, texts_of(invalidated@)))
            ==> r is Ok,
{
    let mut body: Vec<Value> = Vec::new();
    body.push(Value::Str(changed.interface.as_str().to_owned()));
    body.push(changed.get_all());
    body.push(make_names(invalidated));
    proof {
        let expected = changes(changed.interface@, changed.properties@, texts_of(invalidated@));
        assert(Seq::new(invalidated.len() as nat, |i: int| ValueView::Str(invalidated[i]@))
            =~= Seq::new(
            texts_of(invalidated@).len(),
            |i: int| ValueView::Str(texts_of(invalidated@)[i]),
        ));
        assert(value_trees(body@) =~= expected);
    }
    signal(path, PROPERTIES, "PropertiesChanged", &body)
}

/// The interfaces of an object with their properties, as the dictionary
/// that an object manager tells them in: from the name of each interface to
/// the dictionary of its properties.
pub open spec fn interfaces(tables: Seq<PropertyTable>) -> ValueView {
    ValueView::Dict(
        SignatureView::Str,
        dictionary_type(),
        Seq::new(
            tables.len(),
            |i: int|
                ValueView::Structure(
                    seq![
                        ValueView::Str(tables[i].interface@),
                        dictionary(tables[i].properties@),
                    ],
                ),
        ),
    )
}

/// The interfaces of an object with their properties, as a dictionary.
pub fn make_interfaces(tables: &Vec<PropertyTable>) -> (r: Value)
    ensures
        r@ == interfaces(tables@),
{
    let mut entries: Vec<Value> = Vec::new();
    let mut i: usize = 0;
    while i < tables.len()
        invariant
            i <= tables.len(),
            entries.len() == i,
            forall|k: int|
                0 <= k < i ==> (#[trigger] entries[k])@ == ValueView::Structure(
                    seq![ValueView::Str(tables[k].interface@), dictionary(tables[k].properties@)],
                ),
        decreases tables.len() - i,
    {
        let mut parts: Vec<Value> = Vec::new();
        parts.push(Value::Str(tables[i].interface.as_str().to_owned()));
        parts.push(tables[i].get_all());
        proof {
            lemma_structure_value_view(parts);
            assert(value_trees(parts@) =~= seq![
                ValueView::Str(tables[i as int].interface@),
                dictionary(tables[i as int].properties@),
            ]);
        }
        entries.push(Value::Structure(parts));
        i += 1;
    }
    let value_type = make_dictionary_type();
    proof {
        lemma_dict_view(Signature::Str, value_type, entries);
        assert(value_trees(entries@) =~= interfaces(tables@)->Dict_2);
    }
    Value::Dict(Signature::Str, value_type, entries)
}

/// Makes the signal `InterfacesAdded` of the object manager at `manager`:
/// the object at `object` has the interfaces `tables` now, with these
/// properties.
pub fn interfaces_added(manager: &ObjectPath, object: &ObjectPath, tables: &Vec<PropertyTable>) -> (r:
    Result<Message, Error>)
    ensures
        r matches Ok(m) ==> is_signal(
            m@,
            manager@,
            OBJECT_MANAGER@,
            "InterfacesAdded"@,
            seq![ValueView::ObjectPath(object@), interfaces(tables@)],
        ),
        manager.is_valid() && is_interface_name(encode_utf8(OBJECT_MANAGER@)) && is_member_name(
            encode_utf8("InterfacesAdded"@),
        ) && can_send(seq![ValueView::ObjectPath(object@), interfaces(tables@)]) ==> r is Ok,
{
    let mut body: Vec<Value> = Vec::new();
    body.push(Value::ObjectPath(object.clone()));
    body.push(make_interfaces(tables));
    assert(value_trees(body@) =~= seq![ValueView::ObjectPath(object@), interfaces(tables@)]);
    signal(manager, OBJECT_MANAGER, "InterfacesAdded", &body)
}

/// Makes the signal `InterfacesRemoved` of the object manager at
/// `manager`: the object at `object` has the interfaces `names` no more.
pub fn interfaces_removed(manager: &ObjectPath, object: &ObjectPath, names: &Vec<String>) -> (r:
    Result<Message, Error>)
    ensures
        r matches Ok(m) ==> is_signal(
            m@,
            manager@,
            OBJECT_MANAGER@,
            "InterfacesRemoved"@,
            seq![
                ValueView::ObjectPath(object@),
                ValueView::Array(
                    SignatureView::Str,
                    Seq::new(names.len() as nat, |i: int| ValueView::Str(names[i]@)),
                ),
            ],
        ),
        manager.is_valid() && is_interface_name(encode_utf8(OBJECT_MANAGER@)) && is_member_name(
            encode_utf8("InterfacesRemoved"@),
        ) && can_send(
            seq![
                ValueView::ObjectPath(object@),
                ValueView::Array(
                    SignatureView::Str,
                    Seq::new(names.len() as nat, |i: int| ValueView::Str(names[i]@)),
                ),
            ],
        ) ==> r is Ok,
{
    let mut body: Vec<Value> = Vec::new();
    body.push(Value::ObjectPath(object.clone()));
    body.push(make_names(names));
    assert(value_trees(body@) =~= seq![
        ValueView::ObjectPath(object@),
        ValueView::Array(
            SignatureView::Str,
            Seq::new(names.len() as nat, |i: int| ValueView::Str(names[i]@)),
        ),
    ]);
    signal(manager, OBJECT_MANAGER, "InterfacesRemoved", &body)
}

/// An object below an object manager: its path, and its interfaces with
/// their properties.
#[derive(Debug, PartialEq, Eq)]
pub struct Managed {
    pub path: ObjectPath,
    pub tables: Vec<PropertyTable>,
}

/// What `GetManagedObjects` returns for the objects `objects`: the
/// dictionary from the path of each to its interfaces with their properties.
pub open spec fn managed_objects(objects: Seq<Managed>) -> ValueView {
    ValueView::Dict(
        SignatureView::ObjectPath,
        SignatureView::Dict(Box::new(SignatureView::Str), Box::new(dictionary_type())),
        Seq::new(
            objects.len(),
            |i: int|
                ValueView::Structure(
                    seq![ValueView::ObjectPath(objects[i].path@), interfaces(objects[i].tables@)],
                ),
        ),
    )
}

/// Answers `GetManagedObjects`: see [`managed_objects`].
pub fn get_managed_objects(objects: &Vec<Managed>) -> (r: Value)
    ensures
        r@ == managed_objects(objects@),
{
    let mut entries: Vec<Value> = Vec::new();
    let mut i: usize = 0;
    while i < objects.len()
        invariant
            i <= objects.len(),
            entries.len() == i,
            forall|k: int|
                0 <= k < i ==> (#[trigger] entries[k])@ == ValueView::Structure(
                    seq![ValueView::ObjectPath(objects[k].path@), interfaces(objects[k].tables@)],
                ),
        decreases objects.len() - i,
    {
        let mut parts: Vec<Value> = Vec::new();
        parts.push(Value::ObjectPath(objects[i].path.clone()));
        parts.push(make_interfaces(&objects[i].tables));
        proof {
            lemma_structure_value_view(parts);
            assert(value_trees(parts@) =~= seq![
                ValueView::ObjectPath(objects[i as int].path@),
                interfaces(objects[i as int].tables@),
            ]);
        }
        entries.push(Value::Structure(parts));
        i += 1;
    }
    let key = Signature::Str;
    let inner = make_dictionary_type();
    assert(key@ == SignatureView::Str);
    let value_type = Signature::Dict { key: Box::new(key), value: Box::new(inner) };
    assert(value_type@ == SignatureView::Dict(
        Box::new(SignatureView::Str),
        Box::new(dictionary_type()),
    ));
    let path_type = Signature::ObjectPath;
    assert(path_type@ == SignatureView::ObjectPath);
    proof {
        lemma_dict_view(path_type, value_type, entries);
        assert(value_trees(entries@) =~= managed_objects(objects@)->Dict_2);
    }
    Value::Dict(path_type, value_type, entries)
}

} // verus!
