//! Messages as bytes: the header as the wire format lays it out, then the
//! body.
//!
//! A message starts with a fixed part of twelve bytes: the byte order, the
//! kind, the flags, the version of the protocol, the length of the body and
//! the serial. An array of header fields follows, each a code and a variant.
//! The body starts at the next multiple of 8.

use vstd::prelude::*;
use vstd::slice::{slice_subrange, slice_to_vec};
use vstd::utf8::encode_utf8;
use crate::error::Error;
use crate::message::{bus_name, invalid_name, is_bus_name, Header, Message, MessageView, Type, PROTOCOL_VERSION};
use crate::names::error_name::{is_error_name, ErrorName};
use crate::names::interface_name::{is_interface_name, InterfaceName};
use crate::names::member_name::{is_member_name, MemberName};
use crate::names::object_path::{is_object_path, ObjectPath};
use crate::names::unique_name::{is_unique_name, UniqueName};
use crate::wire::context::{
    all_zero, padding, padding_at, padding_for_n_bytes, push_zeros, zeros, zeros_between,
};
use crate::wire::de::decode;
use crate::wire::dbus::{decoded, encoded_row, lemma_roundtrip, lemma_signatures_complete};
use crate::wire::grammar::{
    all_complete, lemma_parse_all_complete, lemma_parse_all_sound, parse_row, parse_types, MAX_SIGNATURE_LEN,
};
use crate::wire::signature::texts;
use crate::wire::dbus::{encoded, MAX_ENCODED_LEN};
use crate::wire::endian::{lemma_u32_roundtrip, u32_bytes, u32_from_bytes, u32_value, Endian};
use crate::wire::error::Fault;
use crate::wire::ser::{encode, lemma_row_push, write_row_text};
use crate::wire::signature::{lemma_structure_view, views, Format, Signature, SignatureView};
use crate::wire::value::{
    lemma_array_view, lemma_structure_value_view, signatures, value_trees, Value, ValueView,
};

verus! {

/// The code of the header field that holds the path of the object.
pub const PATH: u8 = 1;

/// The code of the header field that holds the interface.
pub const INTERFACE: u8 = 2;

/// The code of the header field that holds the member.
pub const MEMBER: u8 = 3;

/// The code of the header field that holds the name of the error.
pub const ERROR_NAME: u8 = 4;

/// The code of the header field that holds the serial that is replied to.
pub const REPLY_SERIAL: u8 = 5;

/// The code of the header field that holds the destination.
pub const DESTINATION: u8 = 6;

/// The code of the header field that holds the sender.
pub const SENDER: u8 = 7;

/// The code of the header field that holds the signature of the body.
pub const SIGNATURE: u8 = 8;

/// The code of the header field that holds the number of file descriptors.
pub const UNIX_FDS: u8 = 9;

/// What a header says, with its names as characters.
pub struct HeaderView {
    pub endian: Endian,
    pub msg_type: Type,
    pub flags: u8,
    pub protocol_version: u8,
    pub body_len: u32,
    pub serial: u32,
    pub path: Option<Seq<char>>,
    pub interface: Option<Seq<char>>,
    pub member: Option<Seq<char>>,
    pub error_name: Option<Seq<char>>,
    pub reply_serial: Option<u32>,
    pub destination: Option<Seq<char>>,
    pub sender: Option<Seq<char>>,
    pub signature: Seq<SignatureView>,
    pub unix_fds: u32,
}

/// The text of a name that may be there.
pub open spec fn text_of<T: View<V = Seq<char>>>(name: Option<T>) -> Option<Seq<char>> {
    match name {
        Some(n) => Some(n@),
        None => None,
    }
}

impl View for Header {
    type V = HeaderView;

    open spec fn view(&self) -> HeaderView {
        HeaderView {
            endian: self.endian,
            msg_type: self.msg_type,
            flags: self.flags,
            protocol_version: self.protocol_version,
            body_len: self.body_len,
            serial: self.serial,
            path: text_of(self.path),
            interface: text_of(self.interface),
            member: text_of(self.member),
            error_name: text_of(self.error_name),
            reply_serial: self.reply_serial,
            destination: text_of(self.destination),
            sender: text_of(self.sender),
            signature: views(self.signature@),
            unix_fds: self.unix_fds,
        }
    }
}

/// The type of a header field: a code and a variant.
pub open spec fn field_type() -> SignatureView {
    SignatureView::Structure(seq![SignatureView::U8, SignatureView::Variant])
}

/// A header field with the given code and value.
pub open spec fn field(code: u8, value: ValueView) -> ValueView {
    ValueView::Structure(seq![ValueView::U8(code), ValueView::Value(Box::new(value))])
}

/// The header field with the given code that holds a string, if there is
/// one.
pub open spec fn string_field(code: u8, text: Option<Seq<char>>) -> Seq<ValueView> {
    match text {
        Some(t) => seq![field(code, ValueView::Str(t))],
        None => seq![],
    }
}

/// The fields of a header, in the order of their codes. A field is there
/// when the header holds something for it: the signature when the body has
/// one, the number of file descriptors when there are some.
#[verifier::opaque]
pub open spec fn field_values(h: HeaderView) -> Seq<ValueView> {
    (match h.path {
        Some(p) => seq![field(PATH, ValueView::ObjectPath(p))],
        None => seq![],
    }) + string_field(INTERFACE, h.interface) + string_field(MEMBER, h.member) + string_field(
        ERROR_NAME,
        h.error_name,
    ) + (match h.reply_serial {
        Some(s) => seq![field(REPLY_SERIAL, ValueView::U32(s))],
        None => seq![],
    }) + string_field(DESTINATION, h.destination) + string_field(SENDER, h.sender) + (if h.signature.len()
        > 0 {
        seq![field(SIGNATURE, ValueView::Signature(h.signature))]
    } else {
        seq![]
    }) + (if h.unix_fds > 0 {
        seq![field(UNIX_FDS, ValueView::U32(h.unix_fds))]
    } else {
        seq![]
    })
}

/// The header as a value of the wire format: a structure of the byte
/// order, the kind, the flags, the version, the length of the body, the
/// serial, and the array of the fields.
pub open spec fn header_value(h: HeaderView) -> ValueView {
    ValueView::Structure(
        seq![
            ValueView::U8(h.endian.spec_mark()),
            ValueView::U8(h.msg_type.spec_code()),
            ValueView::U8(h.flags),
            ValueView::U8(h.protocol_version),
            ValueView::U32(h.body_len),
            ValueView::U32(h.serial),
            ValueView::Array(field_type(), field_values(h)),
        ],
    )
}

/// The bytes of the header of a message, up to where the body starts: the
/// header as a value, and the padding that leads to a multiple of 8.
pub open spec fn header_bytes(h: HeaderView) -> Seq<u8> {
    let value = encoded(h.endian, 0, header_value(h));
    value + zeros(padding(value.len(), 8))
}

/// The bytes of a message: its header, and its body.
pub open spec fn message_bytes(m: MessageView) -> Seq<u8> {
    header_bytes(m.header@) + m.body
}

/// A header field with the given code and value.
fn make_field(code: u8, value: Value) -> (r: Value)
    ensures
        r@ == field(code, value@),
{
    let mut parts: Vec<Value> = Vec::new();
    parts.push(Value::U8(code));
    parts.push(Value::Value(Box::new(value)));
    proof {
        lemma_structure_value_view(parts);
        assert(value_trees(parts@) =~= seq![
            ValueView::U8(code),
            ValueView::Value(Box::new(value@)),
        ]);
    }
    Value::Structure(parts)
}

/// Appends the header field with the given code that holds a string, if
/// there is one.
fn push_string_field(fields: &mut Vec<Value>, code: u8, text: Option<&str>)
    ensures
        value_trees(final(fields)@) == value_trees(old(fields)@) + string_field(
            code,
            match text {
                Some(t) => Some(t@),
                None => None,
            },
        ),
{
    let ghost before = value_trees(fields@);
    match text {
        Some(t) => {
            fields.push(make_field(code, Value::Str(t.to_owned())));
            assert(value_trees(fields@) =~= before + seq![field(code, ValueView::Str(t@))]);
        },
        None => {
            assert(value_trees(fields@) =~= before + Seq::<ValueView>::empty());
        },
    }
}

/// A copy of a row of signatures.
fn copy_row(row: &Vec<Signature>) -> (r: Vec<Signature>)
    ensures
        views(r@) == views(row@),
{
    let mut copies: Vec<Signature> = Vec::new();
    let mut i: usize = 0;
    while i < row.len()
        invariant
            i <= row.len(),
            copies.len() == i,
            forall|k: int| 0 <= k < i ==> (#[trigger] copies[k])@ == row[k]@,
        decreases row.len() - i,
    {
        copies.push(row[i].duplicate());
        i += 1;
    }
    assert(views(copies@) =~= views(row@));
    copies
}

/// The fields of a header as values.
fn make_fields(h: &Header) -> (r: Vec<Value>)
    ensures
        value_trees(r@) == field_values(h@),
{
    proof {
        reveal(field_values);
    }
    let mut fields: Vec<Value> = Vec::new();
    assert(value_trees(fields@) =~= seq![]);
    match &h.path {
        Some(p) => {
            fields.push(make_field(PATH, Value::ObjectPath(p.clone())));
            assert(value_trees(fields@) =~= seq![field(PATH, ValueView::ObjectPath(p@))]);
        },
        None => {},
    }
    push_string_field(
        &mut fields,
        INTERFACE,
        match &h.interface {
            Some(n) => Some(n.as_str()),
            None => None,
        },
    );
    push_string_field(
        &mut fields,
        MEMBER,
        match &h.member {
            Some(n) => Some(n.as_str()),
            None => None,
        },
    );
    push_string_field(
        &mut fields,
        ERROR_NAME,
        match &h.error_name {
            Some(n) => Some(n.as_str()),
            None => None,
        },
    );
    let ghost s4 = value_trees(fields@);
    match h.reply_serial {
        Some(s) => {
            fields.push(make_field(REPLY_SERIAL, Value::U32(s)));
            assert(value_trees(fields@) =~= s4 + seq![field(REPLY_SERIAL, ValueView::U32(s))]);
        },
        None => {
            assert(value_trees(fields@) =~= s4 + Seq::<ValueView>::empty());
        },
    }
    push_string_field(
        &mut fields,
        DESTINATION,
        match &h.destination {
            Some(n) => Some(n.as_str()),
            None => None,
        },
    );
    push_string_field(
        &mut fields,
        SENDER,
        match &h.sender {
            Some(n) => Some(n.as_str()),
            None => None,
        },
    );
    let ghost s7 = value_trees(fields@);
    if h.signature.len() > 0 {
        fields.push(make_field(SIGNATURE, Value::Signature(copy_row(&h.signature))));
        assert(value_trees(fields@) =~= s7 + seq![
            field(SIGNATURE, ValueView::Signature(views(h.signature@))),
        ]);
    } else {
        assert(value_trees(fields@) =~= s7 + Seq::<ValueView>::empty());
    }
    let ghost s8 = value_trees(fields@);
    if h.unix_fds > 0 {
        fields.push(make_field(UNIX_FDS, Value::U32(h.unix_fds)));
        assert(value_trees(fields@) =~= s8 + seq![field(UNIX_FDS, ValueView::U32(h.unix_fds))]);
    } else {
        assert(value_trees(fields@) =~= s8 + Seq::<ValueView>::empty());
    }
    fields
}

/// The signature of a header field, as a signature of the wire format.
fn make_field_type() -> (r: Signature)
    ensures
        r@ == field_type(),
{
    let mut parts: Vec<Signature> = Vec::new();
    parts.push(Signature::U8);
    parts.push(Signature::Variant);
    proof {
        lemma_structure_view(parts);
        assert(views(parts@) =~= seq![SignatureView::U8, SignatureView::Variant]);
    }
    Signature::Structure(parts)
}

/// The header as a value of the wire format.
fn make_header_value(h: &Header) -> (r: Value)
    ensures
        r@ == header_value(h@),
{
    let fields = make_fields(h);
    let field_type = make_field_type();
    proof {
        lemma_array_view(field_type, fields);
    }
    let mut parts: Vec<Value> = Vec::new();
    parts.push(Value::U8(h.endian.mark()));
    parts.push(Value::U8(h.msg_type.code()));
    parts.push(Value::U8(h.flags));
    parts.push(Value::U8(h.protocol_version));
    parts.push(Value::U32(h.body_len));
    parts.push(Value::U32(h.serial));
    parts.push(Value::Array(field_type, fields));
    proof {
        lemma_structure_value_view(parts);
        assert(value_trees(parts@) =~= header_value(h@)->Structure_0);
    }
    Value::Structure(parts)
}

/// Writes the header of a message, up to where the body starts.
pub fn header_to_bytes(h: &Header) -> (r: Result<Vec<u8>, Error>)
    ensures
        r matches Ok(bytes) ==> bytes@ == header_bytes(h@),
        r matches Err(e) ==> e matches Error::Protocol(_),
        header_value(h@).is_well_typed() && encoded(h@.endian, 0, header_value(h@)).len()
            <= MAX_ENCODED_LEN ==> r is Ok,
{
    let value = make_header_value(h);
    let mut out: Vec<u8> = Vec::new();
    match encode(h.endian, 0, &value, &mut out) {
        Ok(()) => {},
        Err(e) => {
            return Err(Error::Protocol(e.to_string()));
        },
    }
    assert(out@ =~= encoded(h@.endian, 0, header_value(h@)));
    let p = padding_at(0, out.len(), 8);
    push_zeros(&mut out, p);
    Ok(out)
}

impl Message {
    /// Writes the message as it goes over the wire: the header, and the
    /// body from the next multiple of 8 on. A message is written whenever
    /// its header is short enough for the lengths on the wire.
    pub fn to_bytes(&self) -> (r: Result<Vec<u8>, Error>)
        ensures
            r matches Ok(bytes) ==> bytes@ == message_bytes(self@),
            r matches Err(e) ==> e matches Error::Protocol(_),
            encoded(self@.header@.endian, 0, header_value(self@.header@)).len()
                <= MAX_ENCODED_LEN ==> r is Ok,
    {
        let header = self.header();
        proof {
            lemma_header_is_typed(header@);
        }
        let mut out = match header_to_bytes(header) {
            Ok(out) => out,
            Err(e) => {
                return Err(e);
            },
        };
        crate::text::append_bytes(&mut out, self.body());
        Ok(out)
    }
}

/// Why bytes are not read as a message.
#[derive(Clone, Copy, Debug, PartialEq, Eq, Structural)]
pub enum Refusal {
    /// The bytes do not spell a header, or the body is not all there.
    Malformed,
    /// The serial of the message, or the one it replies to, is 0.
    InvalidSerial,
    /// A field that the kind of the message requires is not there.
    MissingField,
    /// A field holds a name that is none.
    InvalidName,
}

/// The refusal that an error of the connection stands for, if any.
pub open spec fn refusal_of(e: Error) -> Option<Refusal> {
    match e {
        Error::Protocol(_) => Some(Refusal::Malformed),
        Error::InvalidSerial => Some(Refusal::InvalidSerial),
        Error::MissingField => Some(Refusal::MissingField),
        Error::InvalidName(_) => Some(Refusal::InvalidName),
        _ => None,
    }
}

/// The type of a header as a value of the wire format.
pub open spec fn header_type() -> SignatureView {
    SignatureView::Structure(
        seq![
            SignatureView::U8,
            SignatureView::U8,
            SignatureView::U8,
            SignatureView::U8,
            SignatureView::U32,
            SignatureView::U32,
            SignatureView::Array(Box::new(field_type())),
        ],
    )
}

/// A header with the given fixed part and no fields.
pub open spec fn bare(
    endian: Endian,
    msg_type: Type,
    flags: u8,
    protocol_version: u8,
    body_len: u32,
    serial: u32,
) -> HeaderView {
    HeaderView {
        endian,
        msg_type,
        flags,
        protocol_version,
        body_len,
        serial,
        path: None,
        interface: None,
        member: None,
        error_name: None,
        reply_serial: None,
        destination: None,
        sender: None,
        signature: seq![],
        unix_fds: 0,
    }
}

/// The header `h` with one more field. A field with a code that is not
/// known is passed over. A field with a known code and a value of another
/// type than the code asks for gives nothing, and so does a signature that
/// is no row of complete types. Where a code comes twice, the later field
/// stands.
pub open spec fn with_field(h: HeaderView, code: u8, value: ValueView) -> Option<HeaderView> {
    if code == PATH {
        match value {
            ValueView::ObjectPath(p) => Some(HeaderView { path: Some(p), ..h }),
            _ => None,
        }
    } else if code == INTERFACE {
        match value {
            ValueView::Str(t) => Some(HeaderView { interface: Some(t), ..h }),
            _ => None,
        }
    } else if code == MEMBER {
        match value {
            ValueView::Str(t) => Some(HeaderView { member: Some(t), ..h }),
            _ => None,
        }
    } else if code == ERROR_NAME {
        match value {
            ValueView::Str(t) => Some(HeaderView { error_name: Some(t), ..h }),
            _ => None,
        }
    } else if code == REPLY_SERIAL {
        match value {
            ValueView::U32(s) => Some(HeaderView { reply_serial: Some(s), ..h }),
            _ => None,
        }
    } else if code == DESTINATION {
        match value {
            ValueView::Str(t) => Some(HeaderView { destination: Some(t), ..h }),
            _ => None,
        }
    } else if code == SENDER {
        match value {
            ValueView::Str(t) => Some(HeaderView { sender: Some(t), ..h }),
            _ => None,
        }
    } else if code == SIGNATURE {
        match value {
            ValueView::Signature(row) => match parse_types(texts(row)) {
                Some(types) => Some(HeaderView { signature: types, ..h }),
                None => None,
            },
            _ => None,
        }
    } else if code == UNIX_FDS {
        match value {
            ValueView::U32(n) => Some(HeaderView { unix_fds: n, ..h }),
            _ => None,
        }
    } else {
        Some(h)
    }
}

/// The code and the value of a header field, if `item` is one.
pub open spec fn field_parts(item: ValueView) -> Option<(u8, ValueView)> {
    match item {
        ValueView::Structure(parts) => if parts.len() == 2 {
            match (parts[0], parts[1]) {
                (ValueView::U8(code), ValueView::Value(inner)) => Some((code, *inner)),
                _ => None,
            }
        } else {
            None
        },
        _ => None,
    }
}

/// The header `h` with the fields of `items`, from the first to the last.
pub open spec fn with_fields(h: HeaderView, items: Seq<ValueView>) -> Option<HeaderView>
    decreases items.len(),
{
    if items.len() == 0 {
        Some(h)
    } else {
        match field_parts(items[0]) {
            Some((code, value)) => match with_field(h, code, value) {
                Some(next) => with_fields(next, items.drop_first()),
                None => None,
            },
            None => None,
        }
    }
}

/// The header that a value of the wire format stands for, if it stands for
/// one.
pub open spec fn header_of(v: ValueView) -> Option<HeaderView> {
    match v {
        ValueView::Structure(parts) => if parts.len() == 7 {
            match (parts[0], parts[1], parts[2], parts[3], parts[4], parts[5], parts[6]) {
                (
                    ValueView::U8(mark),
                    ValueView::U8(code),
                    ValueView::U8(flags),
                    ValueView::U8(version),
                    ValueView::U32(body_len),
                    ValueView::U32(serial),
                    ValueView::Array(_, items),
                ) => match (Endian::spec_from_mark(mark), Type::spec_from_code(code)) {
                    (Some(endian), Some(msg_type)) => with_fields(
                        bare(endian, msg_type, flags, version, body_len, serial),
                        items,
                    ),
                    _ => None,
                },
                _ => None,
            }
        } else {
            None
        },
        _ => None,
    }
}

/// The header holds what its kind requires.
pub open spec fn has_required_fields(h: HeaderView) -> bool {
    match h.msg_type {
        Type::MethodCall => h.path is Some && h.member is Some,
        Type::MethodReturn => h.reply_serial is Some,
        Type::Error => h.error_name is Some && h.reply_serial is Some,
        Type::Signal => h.path is Some && h.interface is Some && h.member is Some,
    }
}

/// Every name in the header obeys the rules of its kind.
pub open spec fn has_valid_names(h: HeaderView) -> bool {
    &&& h.path matches Some(p) ==> is_object_path(encode_utf8(p))
    &&& h.interface matches Some(i) ==> is_interface_name(encode_utf8(i))
    &&& h.member matches Some(m) ==> is_member_name(encode_utf8(m))
    &&& h.error_name matches Some(e) ==> is_error_name(encode_utf8(e))
    &&& h.destination matches Some(d) ==> is_bus_name(encode_utf8(d))
    &&& h.sender matches Some(s) ==> is_unique_name(encode_utf8(s))
}

/// Why a header that was read is not the header of a message, if it is
/// not: another version of the protocol; a serial of 0; a required field
/// that is missing; a name that is none.
pub open spec fn header_refusal(h: HeaderView) -> Option<Refusal> {
    if h.protocol_version != PROTOCOL_VERSION {
        Some(Refusal::Malformed)
    } else if h.serial == 0 || h.reply_serial == Some(0u32) {
        Some(Refusal::InvalidSerial)
    } else if !has_required_fields(h) {
        Some(Refusal::MissingField)
    } else if !has_valid_names(h) {
        Some(Refusal::InvalidName)
    } else {
        None
    }
}

/// The header that the value `value` stands for, if it stands for the
/// header of a message; or why it does not.
pub open spec fn header_read(value: ValueView) -> Result<HeaderView, Refusal> {
    match header_of(value) {
        None => Err(Refusal::Malformed),
        Some(h) => match header_refusal(h) {
            Some(refusal) => Err(refusal),
            None => Ok(h),
        },
    }
}

/// The body of the message with the header `h`, which ends at `n` in
/// `bytes`: zeros lead to the next multiple of 8, where the body starts. The
/// body has the length that the header gives; it is empty where the header
/// has no signature. The header counts the file descriptors.
pub open spec fn body_read(bytes: Seq<u8>, fds: nat, h: HeaderView, n: nat) -> Result<
    (HeaderView, Seq<u8>, nat),
    Refusal,
> {
    let start = n + padding(n, 8);
    let end = (start + h.body_len) as nat;
    if end > bytes.len() || !all_zero(bytes.subrange(n as int, start as int)) || (
    h.signature.len() == 0 && h.body_len != 0) || h.unix_fds != fds {
        Err(Refusal::Malformed)
    } else {
        Ok((h, bytes.subrange(start as int, end as int), end))
    }
}

/// What is read from the start of `bytes`, with `fds` file descriptors
/// beside them: the header of the message, its body, and the number of
/// bytes that the message takes. Or why the bytes are refused.
///
/// The first byte tells the byte order. The header is read strictly, as a
/// value of the wire format, and the body behind it.
pub open spec fn read_message(bytes: Seq<u8>, fds: nat) -> Result<
    (HeaderView, Seq<u8>, nat),
    Refusal,
> {
    if bytes.len() == 0 {
        Err(Refusal::Malformed)
    } else {
        match Endian::spec_from_mark(bytes[0]) {
            None => Err(Refusal::Malformed),
            Some(endian) => match decoded(endian, true, 0, header_type(), bytes) {
                Err(_) => Err(Refusal::Malformed),
                Ok((value, n)) => match header_read(value) {
                    Err(refusal) => Err(refusal),
                    Ok(h) => body_read(bytes, fds, h, n),
                },
            },
        }
    }
}

/// The fields of a header as they were read, before its names are
/// checked.
struct Fields {
    endian: Endian,
    msg_type: Type,
    flags: u8,
    protocol_version: u8,
    body_len: u32,
    serial: u32,
    path: Option<String>,
    interface: Option<String>,
    member: Option<String>,
    error_name: Option<String>,
    reply_serial: Option<u32>,
    destination: Option<String>,
    sender: Option<String>,
    signature: Vec<Signature>,
    unix_fds: u32,
}

impl Fields {
    /// What the fields say.
    spec fn said(self) -> HeaderView {
        HeaderView {
            endian: self.endian,
            msg_type: self.msg_type,
            flags: self.flags,
            protocol_version: self.protocol_version,
            body_len: self.body_len,
            serial: self.serial,
            path: text_of(self.path),
            interface: text_of(self.interface),
            member: text_of(self.member),
            error_name: text_of(self.error_name),
            reply_serial: self.reply_serial,
            destination: text_of(self.destination),
            sender: text_of(self.sender),
            signature: views(self.signature@),
            unix_fds: self.unix_fds,
        }
    }

    /// The signature is a row of complete types of at most 255 bytes.
    spec fn is_typed(self) -> bool {
        all_complete(views(self.signature@)) && texts(views(self.signature@)).len()
            <= MAX_SIGNATURE_LEN
    }
}

/// The fields with one more field: see [`with_field`].
fn apply_field(fields: Fields, code: u8, value: &Value) -> (r: Option<Fields>)
    requires
        fields.is_typed(),
    ensures
        match with_field(fields.said(), code, value@) {
            Some(h) => r matches Some(f) && f.said() == h && f.is_typed(),
            None => r is None,
        },
{
    let mut fields = fields;
    if code == PATH {
        match value {
            Value::ObjectPath(p) => {
                fields.path = Some(p.as_str().to_owned());
                Some(fields)
            },
            _ => None,
        }
    } else if code == INTERFACE {
        match value {
            Value::Str(t) => {
                fields.interface = Some(t.as_str().to_owned());
                Some(fields)
            },
            _ => None,
        }
    } else if code == MEMBER {
        match value {
            Value::Str(t) => {
                fields.member = Some(t.as_str().to_owned());
                Some(fields)
            },
            _ => None,
        }
    } else if code == ERROR_NAME {
        match value {
            Value::Str(t) => {
                fields.error_name = Some(t.as_str().to_owned());
                Some(fields)
            },
            _ => None,
        }
    } else if code == REPLY_SERIAL {
        match value {
            Value::U32(s) => {
                fields.reply_serial = Some(*s);
                Some(fields)
            },
            _ => None,
        }
    } else if code == DESTINATION {
        match value {
            Value::Str(t) => {
                fields.destination = Some(t.as_str().to_owned());
                Some(fields)
            },
            _ => None,
        }
    } else if code == SENDER {
        match value {
            Value::Str(t) => {
                fields.sender = Some(t.as_str().to_owned());
                Some(fields)
            },
            _ => None,
        }
    } else if code == SIGNATURE {
        match value {
            Value::Signature(row) => {
                let mut text: Vec<u8> = Vec::new();
                write_row_text(row, &mut text);
                assert(text@ =~= texts(views(row@)));
                proof {
                    lemma_parse_all_sound(text@);
                }
                match parse_row(text.as_slice()) {
                    Some(types) => {
                        fields.signature = types;
                        Some(fields)
                    },
                    None => None,
                }
            },
            _ => None,
        }
    } else if code == UNIX_FDS {
        match value {
            Value::U32(n) => {
                fields.unix_fds = *n;
                Some(fields)
            },
            _ => None,
        }
    } else {
        Some(fields)
    }
}

/// The fields with the fields of `items`, from the first to the last.
fn apply_fields(first: Fields, items: &Vec<Value>) -> (r: Option<Fields>)
    requires
        first.is_typed(),
    ensures
        match with_fields(first.said(), value_trees(items@)) {
            Some(h) => r matches Some(f) && f.said() == h && f.is_typed(),
            None => r is None,
        },
{
    let ghost all = value_trees(items@);
    let ghost whole = with_fields(first.said(), all);
    let mut fields = first;
    let mut i: usize = 0;
    assert(all.skip(0) =~= all);
    while i < items.len()
        invariant
            i <= items.len(),
            all == value_trees(items@),
            whole == with_fields(first.said(), all),
            fields.is_typed(),
            whole == with_fields(fields.said(), all.skip(i as int)),
        decreases items.len() - i,
    {
        let ghost rest = all.skip(i as int);
        assert(rest[0] == items[i as int]@);
        assert(rest.drop_first() =~= all.skip(i + 1));
        let ghost before = fields.said();
        assert(whole == with_fields(before, rest));
        assert(rest.len() > 0);
        let next = match &items[i] {
            Value::Structure(parts) => {
                proof {
                    lemma_structure_value_view(*parts);
                }
                if parts.len() == 2 {
                    assert(value_trees(parts@)[0] == parts[0]@);
                    assert(value_trees(parts@)[1] == parts[1]@);
                    match (&parts[0], &parts[1]) {
                        (Value::U8(code), Value::Value(inner)) => {
                            assert(field_parts(rest[0]) == Some((*code, (**inner)@)));
                            apply_field(fields, *code, &**inner)
                        },
                        _ => {
                            assert(field_parts(rest[0]) is None);
                            None
                        },
                    }
                } else {
                    assert(field_parts(rest[0]) is None);
                    None
                }
            },
            _ => {
                assert(field_parts(rest[0]) is None);
                None
            },
        };
        assert(match field_parts(rest[0]) {
            Some((code, value)) => match with_field(before, code, value) {
                Some(h) => next matches Some(f) && f.said() == h,
                None => next is None,
            },
            None => next is None,
        });
        match next {
            Some(f) => {
                fields = f;
            },
            None => {
                assert(with_fields(before, rest) is None);
                assert(whole is None);
                return None;
            },
        }
        i += 1;
    }
    Some(fields)
}

/// The fields of the header that `value` stands for: see [`header_of`].
fn read_fields(value: &Value) -> (r: Option<Fields>)
    ensures
        match header_of(value@) {
            Some(h) => r matches Some(f) && f.said() == h && f.is_typed(),
            None => r is None,
        },
{
    match value {
        Value::Structure(parts) => {
            proof {
                lemma_structure_value_view(*parts);
            }
            if parts.len() != 7 {
                return None;
            }
            match (&parts[0], &parts[1], &parts[2], &parts[3], &parts[4], &parts[5], &parts[6]) {
                (
                    Value::U8(mark),
                    Value::U8(code),
                    Value::U8(flags),
                    Value::U8(version),
                    Value::U32(body_len),
                    Value::U32(serial),
                    Value::Array(element, items),
                ) => {
                    proof {
                        lemma_array_view(*element, *items);
                    }
                    match (Endian::from_mark(*mark), Type::from_code(*code)) {
                        (Some(endian), Some(msg_type)) => {
                            let fields = Fields {
                                endian,
                                msg_type,
                                flags: *flags,
                                protocol_version: *version,
                                body_len: *body_len,
                                serial: *serial,
                                path: None,
                                interface: None,
                                member: None,
                                error_name: None,
                                reply_serial: None,
                                destination: None,
                                sender: None,
                                signature: Vec::new(),
                                unix_fds: 0,
                            };
                            assert(views(fields.signature@) =~= seq![]);
                            assert(texts(views(fields.signature@)) =~= seq![]);
                            apply_fields(fields, items)
                        },
                        _ => None,
                    }
                },
                _ => None,
            }
        },
        _ => None,
    }
}

/// The text of the error for bytes that spell no message.
pub const MALFORMED: &'static str = "Malformed message";

/// The error for bytes that spell no message.
fn malformed() -> (e: Error)
    ensures
        refusal_of(e) == Some(Refusal::Malformed),
{
    Error::Protocol(MALFORMED.to_owned())
}

/// The header with the fields that were read, its names checked: see
/// [`header_refusal`].
fn check_header(fields: Fields) -> (r: Result<Header, Error>)
    requires
        fields.is_typed(),
    ensures
        match header_refusal(fields.said()) {
            Some(refusal) => r matches Err(e) && refusal_of(e) == Some(refusal),
            None => r matches Ok(h) && h@ == fields.said() && h.is_well_formed(),
        },
{
    if fields.protocol_version != PROTOCOL_VERSION {
        return Err(malformed());
    }
    if fields.serial == 0 {
        return Err(Error::InvalidSerial);
    }
    match fields.reply_serial {
        Some(s) => {
            if s == 0 {
                return Err(Error::InvalidSerial);
            }
        },
        None => {},
    }
    let required = match fields.msg_type {
        Type::MethodCall => fields.path.is_some() && fields.member.is_some(),
        Type::MethodReturn => fields.reply_serial.is_some(),
        Type::Error => fields.error_name.is_some() && fields.reply_serial.is_some(),
        Type::Signal => fields.path.is_some() && fields.interface.is_some()
            && fields.member.is_some(),
    };
    if !required {
        return Err(Error::MissingField);
    }
    let Fields {
        endian,
        msg_type,
        flags,
        protocol_version,
        body_len,
        serial,
        path,
        interface,
        member,
        error_name,
        reply_serial,
        destination,
        sender,
        signature,
        unix_fds,
    } = fields;
    let path = match path {
        Some(t) => match ObjectPath::try_from_string(t) {
            Ok(name) => Some(name),
            Err(e) => {
                return Err(invalid_name(e));
            },
        },
        None => None,
    };
    let interface = match interface {
        Some(t) => match InterfaceName::try_from_string(t) {
            Ok(name) => Some(name),
            Err(e) => {
                return Err(invalid_name(e));
            },
        },
        None => None,
    };
    let member = match member {
        Some(t) => match MemberName::try_from_string(t) {
            Ok(name) => Some(name),
            Err(e) => {
                return Err(invalid_name(e));
            },
        },
        None => None,
    };
    let error_name = match error_name {
        Some(t) => match ErrorName::try_from_string(t) {
            Ok(name) => Some(name),
            Err(e) => {
                return Err(invalid_name(e));
            },
        },
        None => None,
    };
    let destination = match destination {
        Some(t) => match bus_name(t.as_str()) {
            Ok(name) => Some(name),
            Err(e) => {
                return Err(e);
            },
        },
        None => None,
    };
    let sender = match sender {
        Some(t) => match UniqueName::try_from_string(t) {
            Ok(name) => Some(name),
            Err(e) => {
                return Err(invalid_name(e));
            },
        },
        None => None,
    };
    Ok(
        Header {
            endian,
            msg_type,
            flags,
            protocol_version,
            body_len,
            serial,
            path,
            interface,
            member,
            error_name,
            reply_serial,
            destination,
            sender,
            signature,
            unix_fds,
        },
    )
}

/// The type of a header, as a signature of the wire format.
fn make_header_type() -> (r: Signature)
    ensures
        r@ == header_type(),
{
    let mut parts: Vec<Signature> = Vec::new();
    parts.push(Signature::U8);
    parts.push(Signature::U8);
    parts.push(Signature::U8);
    parts.push(Signature::U8);
    parts.push(Signature::U32);
    parts.push(Signature::U32);
    parts.push(Signature::Array(Box::new(make_field_type())));
    proof {
        lemma_structure_view(parts);
        assert(views(parts@) =~= header_type()->Structure_0);
    }
    Signature::Structure(parts)
}

impl Message {
    /// Reads the message at the start of `bytes`, which came with the file
    /// descriptors `fds`: see [`read_message`]. Gives the message and the
    /// number of bytes that it took, so that a reader goes on behind it.
    ///
    /// Bytes that spell no message give an error and never a panic.
    pub fn from_bytes(bytes: &[u8], fds: Vec<i32>) -> (r: Result<(Message, usize), Error>)
        ensures
            match read_message(bytes@, fds@.len()) {
                Ok((h, body, n)) => r matches Ok((m, used)) && m@.header@ == h && m@.body == body
                    && m@.fds == fds@ && used == n,
                Err(refusal) => r matches Err(e) && refusal_of(e) == Some(refusal),
            },
    {
        let len = bytes.len();
        if len == 0 {
            return Err(malformed());
        }
        let endian = match Endian::from_mark(bytes[0]) {
            Some(endian) => endian,
            None => {
                return Err(malformed());
            },
        };
        let header_type = make_header_type();
        assert(bytes@.subrange(0, len as int) =~= bytes@);
        let (value, n) = match decode(endian, true, 0, &header_type, bytes, 0, len) {
            Ok(read) => read,
            Err(_) => {
                return Err(malformed());
            },
        };
        let fields = match read_fields(&value) {
            Some(fields) => fields,
            None => {
                return Err(malformed());
            },
        };
        let header = match check_header(fields) {
            Ok(header) => header,
            Err(e) => {
                return Err(e);
            },
        };
        let gap = padding_at(0, n, 8);
        if gap > len - n {
            return Err(malformed());
        }
        let start = n + gap;
        if header.body_len as usize > len - start {
            return Err(malformed());
        }
        let end = start + header.body_len as usize;
        if !zeros_between(bytes, n, start) || (header.signature.len() == 0 && header.body_len
            != 0) || header.unix_fds as usize != fds.len() {
            return Err(malformed());
        }
        let body = slice_to_vec(slice_subrange(bytes, start, end));
        Ok((Message::from_parts(header, body, fds), end))
    }
}

/// Every item of `items` is a header field: a well-typed structure of a
/// code and a variant.
pub open spec fn are_fields(items: Seq<ValueView>) -> bool {
    forall|i: int|
        0 <= i < items.len() ==> (#[trigger] items[i]).signature() == field_type()
            && items[i].is_well_typed()
}

/// A code and a well-typed value make a header field, and the field gives
/// both back.
pub proof fn lemma_field(code: u8, value: ValueView)
    requires
        value.is_well_typed(),
        value.signature().text().len() <= MAX_SIGNATURE_LEN,
    ensures
        are_fields(seq![field(code, value)]),
        field_parts(field(code, value)) == Some((code, value)),
{
    let parts = seq![ValueView::U8(code), ValueView::Value(Box::new(value))];
    assert(parts[0].is_well_typed());
    assert(parts[1].is_well_typed());
    lemma_signatures_complete(parts);
    assert(signatures(parts) =~= seq![SignatureView::U8, SignatureView::Variant]);
}

/// Header fields behind header fields are header fields.
pub proof fn lemma_fields_join(a: Seq<ValueView>, b: Seq<ValueView>)
    requires
        are_fields(a),
        are_fields(b),
    ensures
        are_fields(a + b),
{
    assert forall|i: int| 0 <= i < (a + b).len() implies (#[trigger] (a + b)[i]).signature()
        == field_type() && (a + b)[i].is_well_typed() by {
        if i < a.len() {
            assert((a + b)[i] == a[i]);
        } else {
            assert((a + b)[i] == b[i - a.len()]);
        }
    }
}

/// The fields of `a + b` are taken in by taking in those of `a` and then
/// those of `b`.
pub proof fn lemma_with_fields_join(h: HeaderView, a: Seq<ValueView>, b: Seq<ValueView>)
    ensures
        with_fields(h, a + b) == match with_fields(h, a) {
            Some(next) => with_fields(next, b),
            None => None,
        },
    decreases a.len(),
{
    if a.len() == 0 {
        assert(a + b =~= b);
    } else {
        assert((a + b)[0] == a[0]);
        assert((a + b).drop_first() =~= a.drop_first() + b);
        match field_parts(a[0]) {
            Some((code, value)) => match with_field(h, code, value) {
                Some(next) => {
                    lemma_with_fields_join(next, a.drop_first(), b);
                },
                None => {},
            },
            None => {},
        }
    }
}

/// A row of one header field is taken in by taking in the field.
pub proof fn lemma_one_field(h: HeaderView, code: u8, value: ValueView)
    requires
        value.is_well_typed(),
        value.signature().text().len() <= MAX_SIGNATURE_LEN,
    ensures
        are_fields(seq![field(code, value)]),
        with_fields(h, seq![field(code, value)]) == with_field(h, code, value),
{
    lemma_field(code, value);
    let row = seq![field(code, value)];
    assert(row[0] == field(code, value));
    assert(row.drop_first().len() == 0);
    match with_field(h, code, value) {
        Some(next) => {
            assert(with_fields(next, row.drop_first()) == Some(next));
        },
        None => {},
    }
}

/// A field that holds a string, where there is one, is a header field, and
/// a row of it is taken in by taking in the string.
pub proof fn lemma_string_field(h: HeaderView, code: u8, text: Option<Seq<char>>)
    ensures
        are_fields(string_field(code, text)),
        with_fields(h, string_field(code, text)) == match text {
            Some(t) => with_field(h, code, ValueView::Str(t)),
            None => Some(h),
        },
{
    match text {
        Some(t) => {
            lemma_one_field(h, code, ValueView::Str(t));
        },
        None => {},
    }
}

/// The header is one that a message on the wire can have: nothing speaks
/// against it, and its signature is a row of complete types of at most 255
/// bytes.
pub open spec fn is_message_header(h: HeaderView) -> bool {
    &&& header_refusal(h) is None
    &&& all_complete(h.signature)
    &&& texts(h.signature).len() <= MAX_SIGNATURE_LEN
}

/// The path in the header, if there is one, is an object path, and the
/// signature is a row of complete types of at most 255 bytes.
pub open spec fn has_typed_fields(h: HeaderView) -> bool {
    &&& h.path matches Some(p) ==> is_object_path(encode_utf8(p))
    &&& all_complete(h.signature)
    &&& texts(h.signature).len() <= MAX_SIGNATURE_LEN
}

/// The fields of such a header are header fields, and taking them in gives
/// the header back.
#[verifier::rlimit(60)]
#[verifier::spinoff_prover]
pub proof fn lemma_fields_read_back(h: HeaderView)
    requires
        has_typed_fields(h),
    ensures
        are_fields(field_values(h)),
        with_fields(
            bare(h.endian, h.msg_type, h.flags, h.protocol_version, h.body_len, h.serial),
            field_values(h),
        ) == Some(h),
{
    let h0 = bare(h.endian, h.msg_type, h.flags, h.protocol_version, h.body_len, h.serial);
    let none = Seq::<ValueView>::empty();
    let part1 = match h.path {
        Some(p) => seq![field(PATH, ValueView::ObjectPath(p))],
        None => none,
    };
    let h1 = HeaderView { path: h.path, ..h0 };
    assert(are_fields(part1) && with_fields(h0, part1) == Some(h1)) by {
        match h.path {
            Some(p) => {
                lemma_one_field(h0, PATH, ValueView::ObjectPath(p));
            },
            None => {},
        }
    }
    let part2 = string_field(INTERFACE, h.interface);
    let h2 = HeaderView { interface: h.interface, ..h1 };
    assert(are_fields(part2) && with_fields(h1, part2) == Some(h2)) by {
        lemma_string_field(h1, INTERFACE, h.interface);
    }
    let part3 = string_field(MEMBER, h.member);
    let h3 = HeaderView { member: h.member, ..h2 };
    assert(are_fields(part3) && with_fields(h2, part3) == Some(h3)) by {
        lemma_string_field(h2, MEMBER, h.member);
    }
    let part4 = string_field(ERROR_NAME, h.error_name);
    let h4 = HeaderView { error_name: h.error_name, ..h3 };
    assert(are_fields(part4) && with_fields(h3, part4) == Some(h4)) by {
        lemma_string_field(h3, ERROR_NAME, h.error_name);
    }
    let part5 = match h.reply_serial {
        Some(s) => seq![field(REPLY_SERIAL, ValueView::U32(s))],
        None => none,
    };
    let h5 = HeaderView { reply_serial: h.reply_serial, ..h4 };
    assert(are_fields(part5) && with_fields(h4, part5) == Some(h5)) by {
        match h.reply_serial {
            Some(s) => {
                lemma_one_field(h4, REPLY_SERIAL, ValueView::U32(s));
            },
            None => {},
        }
    }
    let part6 = string_field(DESTINATION, h.destination);
    let h6 = HeaderView { destination: h.destination, ..h5 };
    assert(are_fields(part6) && with_fields(h5, part6) == Some(h6)) by {
        lemma_string_field(h5, DESTINATION, h.destination);
    }
    let part7 = string_field(SENDER, h.sender);
    let h7 = HeaderView { sender: h.sender, ..h6 };
    assert(are_fields(part7) && with_fields(h6, part7) == Some(h7)) by {
        lemma_string_field(h6, SENDER, h.sender);
    }
    let part8 = if h.signature.len() > 0 {
        seq![field(SIGNATURE, ValueView::Signature(h.signature))]
    } else {
        none
    };
    let h8 = HeaderView { signature: h.signature, ..h7 };
    assert(are_fields(part8) && with_fields(h7, part8) == Some(h8)) by {
        if h.signature.len() > 0 {
            lemma_parse_all_complete(h.signature);
            lemma_one_field(h7, SIGNATURE, ValueView::Signature(h.signature));
        } else {
            assert(h.signature =~= seq![]);
        }
    }
    let part9 = if h.unix_fds > 0 {
        seq![field(UNIX_FDS, ValueView::U32(h.unix_fds))]
    } else {
        none
    };
    assert(are_fields(part9) && with_fields(h8, part9) == Some(h)) by {
        if h.unix_fds > 0 {
            lemma_one_field(h8, UNIX_FDS, ValueView::U32(h.unix_fds));
        }
    }
    let row2 = part1 + part2;
    let row3 = row2 + part3;
    let row4 = row3 + part4;
    let row5 = row4 + part5;
    let row6 = row5 + part6;
    let row7 = row6 + part7;
    let row8 = row7 + part8;
    let row9 = row8 + part9;
    assert(row9 == field_values(h)) by {
        reveal(field_values);
    }
    lemma_fields_join(part1, part2);
    lemma_with_fields_join(h0, part1, part2);
    lemma_fields_join(row2, part3);
    lemma_with_fields_join(h0, row2, part3);
    lemma_fields_join(row3, part4);
    lemma_with_fields_join(h0, row3, part4);
    lemma_fields_join(row4, part5);
    lemma_with_fields_join(h0, row4, part5);
    lemma_fields_join(row5, part6);
    lemma_with_fields_join(h0, row5, part6);
    lemma_fields_join(row6, part7);
    lemma_with_fields_join(h0, row6, part7);
    lemma_fields_join(row7, part8);
    lemma_with_fields_join(h0, row7, part8);
    lemma_fields_join(row8, part9);
    lemma_with_fields_join(h0, row8, part9);
}

/// Such a header is, as a value, well typed and of the type of headers.
#[verifier::rlimit(60)]
#[verifier::spinoff_prover]
pub proof fn lemma_header_is_typed(h: HeaderView)
    requires
        has_typed_fields(h),
    ensures
        header_value(h).is_well_typed(),
        header_value(h).signature() == header_type(),
{
    lemma_fields_read_back(h);
    let parts = header_value(h)->Structure_0;
    assert(parts.len() == 7);
    assert(parts[6] == ValueView::Array(field_type(), field_values(h)));
    assert(field_type().is_complete()) by {
        let inner = seq![SignatureView::U8, SignatureView::Variant];
        assert(inner[0].is_complete() && inner[1].is_complete());
    }
    assert(parts[6].is_well_typed());
    assert(parts[6].signature() == SignatureView::Array(Box::new(field_type())));
    assert forall|i: int| 0 <= i < parts.len() implies (#[trigger] parts[i]).is_well_typed() by {
        if i == 6 {
        } else {
            assert(parts[i] is U8 || parts[i] is U32);
        }
    }
    lemma_signatures_complete(parts);
    let row = header_type()->Structure_0;
    assert(signatures(parts).len() == row.len());
    assert forall|i: int| 0 <= i < 7 implies signatures(parts)[i] == row[i] by {
        assert(signatures(parts)[i] == parts[i].signature());
    }
    assert(signatures(parts) =~= row);
}

/// A header whose fields are taken in as they are is, as a value, read as
/// itself.
pub proof fn lemma_header_of_value(h: HeaderView)
    requires
        with_fields(
            bare(h.endian, h.msg_type, h.flags, h.protocol_version, h.body_len, h.serial),
            field_values(h),
        ) == Some(h),
    ensures
        header_of(header_value(h)) == Some(h),
{
    assert(Endian::spec_from_mark(h.endian.spec_mark()) == Some(h.endian));
    assert(Type::spec_from_code(h.msg_type.spec_code()) == Some(h.msg_type));
    let parts = header_value(h)->Structure_0;
    assert(parts.len() == 7);
    assert(parts[0] == ValueView::U8(h.endian.spec_mark()));
    assert(parts[1] == ValueView::U8(h.msg_type.spec_code()));
    assert(parts[2] == ValueView::U8(h.flags));
    assert(parts[3] == ValueView::U8(h.protocol_version));
    assert(parts[4] == ValueView::U32(h.body_len));
    assert(parts[5] == ValueView::U32(h.serial));
    assert(parts[6] == ValueView::Array(field_type(), field_values(h)));
}

/// The header of a message, as a value, stands for that header.
pub proof fn lemma_header_stands(h: HeaderView)
    requires
        is_message_header(h),
    ensures
        header_read(header_value(h)) == Ok::<HeaderView, Refusal>(h),
{
    lemma_fields_read_back(h);
    lemma_header_of_value(h);
}

/// The bytes of a header start with the mark of its byte order.
pub proof fn lemma_header_starts(h: HeaderView)
    ensures
        encoded(h.endian, 0, header_value(h)).len() > 0,
        encoded(h.endian, 0, header_value(h))[0] == h.endian.spec_mark(),
{
    let parts = header_value(h)->Structure_0;
    let row = encoded_row(h.endian, 0, parts);
    assert(parts.len() == 7);
    assert(encoded(h.endian, 0, parts[0]) == seq![h.endian.spec_mark()]);
    assert(row[0] == h.endian.spec_mark() && row.len() > 0);
    assert(padding(0, 8) == 0);
    assert(encoded(h.endian, 0, header_value(h)) =~= row);
}

/// A well-formed header with a serial says what the header of a message
/// can say.
pub proof fn lemma_well_formed_header(header: Header)
    requires
        header.is_well_formed(),
        header.serial != 0,
    ensures
        is_message_header(header@),
{
}

/// Behind the bytes `front` of its header, the body of a message is read
/// as it was written.
pub proof fn lemma_body_reads_back(m: MessageView, front: Seq<u8>, rest: Seq<u8>)
    requires
        m.is_consistent(),
    ensures
        body_read(
            front + zeros(padding(front.len(), 8)) + m.body + rest,
            m.fds.len(),
            m.header@,
            front.len(),
        ) == Ok::<(HeaderView, Seq<u8>, nat), Refusal>(
            (m.header@, m.body, front.len() + padding(front.len(), 8) + m.body.len()),
        ),
{
    let n = front.len();
    let gap = zeros(padding(n, 8));
    let bytes = front + gap + m.body + rest;
    let start = n + padding(n, 8);
    let end = (start + m.header.body_len) as nat;
    assert(bytes.subrange(n as int, start as int) =~= gap);
    assert(bytes.subrange(start as int, end as int) =~= m.body);
    assert(m.header@.signature.len() == m.header.signature@.len());
}

/// Reading a message is reading its byte order, its header and its body,
/// one behind the other.
pub proof fn lemma_read_in_steps(
    bytes: Seq<u8>,
    fds: nat,
    endian: Endian,
    value: ValueView,
    n: nat,
    h: HeaderView,
)
    requires
        bytes.len() > 0,
        Endian::spec_from_mark(bytes[0]) == Some(endian),
        decoded(endian, true, 0, header_type(), bytes) == Ok::<(ValueView, nat), Fault>(
            (value, n),
        ),
        header_read(value) == Ok::<HeaderView, Refusal>(h),
    ensures
        read_message(bytes, fds) == body_read(bytes, fds, h, n),
{
}

/// The bytes of a message start with the bytes of its header as a value,
/// and the mark of the byte order is the first of them.
pub proof fn lemma_message_starts(m: MessageView, rest: Seq<u8>)
    ensures
        ({
            let front = encoded(m.header@.endian, 0, header_value(m.header@));
            let behind = zeros(padding(front.len(), 8)) + m.body + rest;
            &&& message_bytes(m) + rest == front + behind
            &&& message_bytes(m) + rest == front + zeros(padding(front.len(), 8)) + m.body + rest
            &&& message_bytes(m).len() == front.len() + padding(front.len(), 8) + m.body.len()
            &&& (message_bytes(m) + rest).len() > 0
            &&& Endian::spec_from_mark((message_bytes(m) + rest)[0]) == Some(m.header@.endian)
        }),
{
    let h = m.header@;
    lemma_header_starts(h);
    let front = encoded(h.endian, 0, header_value(h));
    let gap = zeros(padding(front.len(), 8));
    let bytes = message_bytes(m) + rest;
    assert(bytes =~= front + gap + m.body + rest);
    assert(bytes =~= front + (gap + m.body + rest));
    assert(bytes[0] == front[0]);
    assert(Endian::spec_from_mark(h.endian.spec_mark()) == Some(h.endian));
}

/// A message that was written is read back as itself: its bytes, with
/// whatever bytes follow them, are read as its header and its body, and the
/// reader stops behind them. This holds of every message with a serial
/// whose header is short enough for the lengths on the wire.
pub proof fn lemma_message_reads_back(m: MessageView, rest: Seq<u8>)
    requires
        m.is_consistent(),
        m.header.serial != 0,
        encoded(m.header@.endian, 0, header_value(m.header@)).len() <= MAX_ENCODED_LEN,
    ensures
        read_message(message_bytes(m) + rest, m.fds.len()) == Ok::<
            (HeaderView, Seq<u8>, nat),
            Refusal,
        >((m.header@, m.body, message_bytes(m).len())),
{
    let h = m.header@;
    let value = header_value(h);
    let front = encoded(h.endian, 0, value);
    let behind = zeros(padding(front.len(), 8)) + m.body + rest;
    lemma_well_formed_header(m.header);
    lemma_header_is_typed(h);
    lemma_header_stands(h);
    lemma_message_starts(m, rest);
    lemma_body_reads_back(m, front, rest);
    lemma_roundtrip(h.endian, true, 0, value, behind);
    lemma_read_in_steps(message_bytes(m) + rest, m.fds.len(), h.endian, value, front.len(), h);
}

/// The number of bytes at the start of a message that tell its length.
pub const PREFIX_LEN: usize = 16;

/// The length of the message that starts with `prefix`, which holds at
/// least 16 bytes: the first of them tells the byte order, the four from
/// the fourth on the length of the body, and the four from the twelfth on the
/// length of the header fields. The fields start at 16, and the body at the
/// next multiple of 8 behind them.
pub open spec fn frame_len(prefix: Seq<u8>) -> Option<nat> {
    match Endian::spec_from_mark(prefix[0]) {
        None => None,
        Some(endian) => {
            let body = u32_value(endian, prefix.subrange(4, 8));
            let fields = u32_value(endian, prefix.subrange(12, 16));
            Some((16 + fields + padding(fields as nat, 8) + body) as nat)
        },
    }
}

/// The length of the message that starts with `bytes`, once 16 bytes of it
/// are there: see [`frame_len`]. With fewer bytes there is no telling yet.
/// A first byte that is no mark of a byte order is an error.
pub fn frame_length(bytes: &[u8]) -> (r: Result<Option<u64>, Error>)
    ensures
        bytes.len() < PREFIX_LEN ==> r matches Ok(None),
        bytes.len() >= PREFIX_LEN ==> match frame_len(bytes@) {
            Some(n) => r matches Ok(Some(total)) && total == n,
            None => r matches Err(e) && refusal_of(e) == Some(Refusal::Malformed),
        },
{
    if bytes.len() < PREFIX_LEN {
        return Ok(None);
    }
    let endian = match Endian::from_mark(bytes[0]) {
        Some(endian) => endian,
        None => {
            return Err(malformed());
        },
    };
    let body = u32_from_bytes(endian, slice_subrange(bytes, 4, 8));
    let fields = u32_from_bytes(endian, slice_subrange(bytes, 12, 16));
    let gap = padding_for_n_bytes(fields as usize, 8);
    let total: u64 = 16 + fields as u64 + gap as u64 + body as u64;
    Ok(Some(total))
}

/// The bytes of a header as a value: the four bytes of byte order, kind,
/// flags and version, the length of the body, the serial, the length of the
/// fields, and from 16 on the fields.
#[verifier::rlimit(60)]
#[verifier::spinoff_prover]
pub proof fn lemma_header_layout(h: HeaderView)
    ensures
        ({
            let fields = encoded_row(h.endian, 16, field_values(h));
            encoded(h.endian, 0, header_value(h)) == seq![
                h.endian.spec_mark(),
                h.msg_type.spec_code(),
                h.flags,
                h.protocol_version,
            ] + u32_bytes(h.endian, h.body_len) + u32_bytes(h.endian, h.serial) + u32_bytes(
                h.endian,
                fields.len() as u32,
            ) + fields
        }),
{
    let e = h.endian;
    let parts = header_value(h)->Structure_0;
    let fields = encoded_row(e, 16, field_values(h));
    let r0 = Seq::<ValueView>::empty();
    let r1 = r0.push(parts[0]);
    let r2 = r1.push(parts[1]);
    let r3 = r2.push(parts[2]);
    let r4 = r3.push(parts[3]);
    let r5 = r4.push(parts[4]);
    let r6 = r5.push(parts[5]);
    let r7 = r6.push(parts[6]);
    assert(r7 =~= parts);
    lemma_u32_roundtrip(e, h.body_len);
    lemma_u32_roundtrip(e, h.serial);
    lemma_u32_roundtrip(e, fields.len() as u32);
    assert(encoded_row(e, 0, r0) =~= seq![]);
    lemma_row_push(e, 0, r0, parts[0]);
    let b1 = encoded_row(e, 0, r1);
    assert(b1 =~= seq![e.spec_mark()]);
    lemma_row_push(e, 0, r1, parts[1]);
    let b2 = encoded_row(e, 0, r2);
    assert(b2 =~= seq![e.spec_mark(), h.msg_type.spec_code()]);
    lemma_row_push(e, 0, r2, parts[2]);
    let b3 = encoded_row(e, 0, r3);
    assert(b3 =~= seq![e.spec_mark(), h.msg_type.spec_code(), h.flags]);
    lemma_row_push(e, 0, r3, parts[3]);
    let b4 = encoded_row(e, 0, r4);
    assert(b4 =~= seq![e.spec_mark(), h.msg_type.spec_code(), h.flags, h.protocol_version]);
    lemma_row_push(e, 0, r4, parts[4]);
    let b5 = encoded_row(e, 0, r5);
    assert(padding(4, 4) == 0);
    assert(encoded(e, 4, parts[4]) =~= u32_bytes(e, h.body_len));
    assert(b5 =~= b4 + u32_bytes(e, h.body_len));
    lemma_row_push(e, 0, r5, parts[5]);
    let b6 = encoded_row(e, 0, r6);
    assert(padding(8, 4) == 0);
    assert(encoded(e, 8, parts[5]) =~= u32_bytes(e, h.serial));
    assert(b6 =~= b5 + u32_bytes(e, h.serial));
    lemma_row_push(e, 0, r6, parts[6]);
    assert(padding(12, 4) == 0);
    assert(field_type().alignment(Format::DBus) == 8);
    assert(padding(16, 8) == 0);
    assert(encoded(e, 12, parts[6]) =~= u32_bytes(e, fields.len() as u32) + fields);
    assert(padding(0, 8) == 0);
    assert(encoded(e, 0, header_value(h)) =~= encoded_row(e, 0, parts));
    assert(encoded_row(e, 0, parts) =~= b4 + u32_bytes(e, h.body_len) + u32_bytes(e, h.serial)
        + u32_bytes(e, fields.len() as u32) + fields);
}

/// The first 16 bytes of a message that was written tell its length.
#[verifier::rlimit(60)]
#[verifier::spinoff_prover]
pub proof fn lemma_frame_of_message(m: MessageView, rest: Seq<u8>)
    requires
        m.is_consistent(),
        encoded(m.header@.endian, 0, header_value(m.header@)).len() <= MAX_ENCODED_LEN,
    ensures
        (message_bytes(m) + rest).len() >= PREFIX_LEN,
        frame_len(message_bytes(m) + rest) == Some(message_bytes(m).len()),
{
    let h = m.header@;
    let e = h.endian;
    let fields = encoded_row(e, 16, field_values(h));
    let front = encoded(e, 0, header_value(h));
    lemma_header_layout(h);
    lemma_message_starts(m, rest);
    lemma_u32_roundtrip(e, h.body_len);
    lemma_u32_roundtrip(e, h.serial);
    lemma_u32_roundtrip(e, fields.len() as u32);
    let bytes = message_bytes(m) + rest;
    assert(front.len() == 16 + fields.len());
    assert(bytes.subrange(4, 8) =~= u32_bytes(e, h.body_len));
    assert(bytes.subrange(12, 16) =~= u32_bytes(e, fields.len() as u32));
    assert(padding((16 + fields.len()) as nat, 8) == padding(fields.len(), 8));
}

/// What is taken from the bytes that have arrived.
#[derive(Clone, Copy, Debug, PartialEq, Eq, Structural)]
pub enum Taken {
    /// Nothing: the next message is not all there yet.
    Nothing,
    /// The next message.
    Message,
    /// The bytes of the next message, which spell no message: they are
    /// dropped, and the reader goes on behind them.
    Dropped(Refusal),
    /// Everything: the bytes do not start with the mark of a byte order, so
    /// that there is no telling where the next message starts.
    Lost,
}

/// What a reader takes from the bytes `buffer`, with `fds` file
/// descriptors beside them: how many bytes, and what they are. The length
/// of the next message is told by its first 16 bytes; the message is taken
/// once all its bytes are there.
pub open spec fn taken(buffer: Seq<u8>, fds: nat) -> (nat, Taken) {
    if buffer.len() < PREFIX_LEN {
        (0, Taken::Nothing)
    } else {
        match frame_len(buffer) {
            None => (buffer.len(), Taken::Lost),
            Some(total) => if buffer.len() < total {
                (0, Taken::Nothing)
            } else {
                match read_message(buffer.take(total as int), fds) {
                    Ok((_, _, used)) => if used == total {
                        (total, Taken::Message)
                    } else {
                        (total, Taken::Dropped(Refusal::Malformed))
                    },
                    Err(refusal) => (total, Taken::Dropped(refusal)),
                }
            },
        }
    }
}

/// The bytes that have arrived from a peer and are not yet taken as
/// messages. Bytes come in as the transport delivers them, in pieces of any
/// length; messages go out one by one.
pub struct Framer {
    buffer: Vec<u8>,
}

impl View for Framer {
    type V = Seq<u8>;

    closed spec fn view(&self) -> Seq<u8> {
        self.buffer@
    }
}

impl Framer {
    /// A reader that has read nothing.
    pub fn new() -> (r: Framer)
        ensures
            r@.len() == 0,
    {
        Framer { buffer: Vec::new() }
    }

    /// The number of bytes that wait.
    pub fn len(&self) -> (r: usize)
        ensures
            r == self@.len(),
    {
        self.buffer.len()
    }

    /// Takes in bytes that have arrived.
    pub fn push(&mut self, bytes: &[u8])
        ensures
            final(self)@ == old(self)@ + bytes@,
    {
        crate::text::append_bytes(&mut self.buffer, bytes);
    }

    /// The number of bytes that are to arrive before the next message can
    /// be taken, as far as the bytes that are there tell: 0 where a message
    /// waits, or where the bytes are lost.
    pub fn missing(&self) -> (r: usize)
        ensures
            self@.len() < PREFIX_LEN ==> r == PREFIX_LEN - self@.len(),
            self@.len() >= PREFIX_LEN ==> match frame_len(self@) {
                Some(total) => if total <= self@.len() {
                    r == 0
                } else if total - self@.len() <= usize::MAX {
                    r == total - self@.len()
                } else {
                    r == usize::MAX
                },
                None => r == 0,
            },
    {
        let len = self.buffer.len();
        if len < PREFIX_LEN {
            return PREFIX_LEN - len;
        }
        match frame_length(self.buffer.as_slice()) {
            Ok(Some(total)) => {
                if total <= len as u64 {
                    0
                } else if total - len as u64 <= usize::MAX as u64 {
                    (total - len as u64) as usize
                } else {
                    usize::MAX
                }
            },
            _ => 0,
        }
    }

    /// Takes the next message from the bytes that wait, if it is all
    /// there: see [`taken`]. The file descriptors are those that came with
    /// the bytes of the message. Bytes that spell no message are dropped, and
    /// the error says why; the reader goes on behind them.
    pub fn next(&mut self, fds: Vec<i32>) -> (r: Result<Option<Message>, Error>)
        ensures
            ({
                let (count, what) = taken(old(self)@, fds@.len());
                &&& final(self)@ == old(self)@.skip(count as int)
                &&& match what {
                    Taken::Nothing => r matches Ok(None),
                    Taken::Message => r matches Ok(Some(m)) && read_message(
                        old(self)@.take(count as int),
                        fds@.len(),
                    ) matches Ok((h, body, _)) && m@.header@ == h && m@.body == body && m@.fds
                        == fds@,
                    Taken::Dropped(refusal) => r matches Err(e) && refusal_of(e) == Some(refusal),
                    Taken::Lost => r matches Err(e) && refusal_of(e) == Some(Refusal::Malformed),
                }
            }),
    {
        let len = self.buffer.len();
        assert(self.buffer@.skip(0) =~= self.buffer@);
        if len < PREFIX_LEN {
            return Ok(None);
        }
        let total = match frame_length(self.buffer.as_slice()) {
            Ok(Some(total)) => total,
            _ => {
                self.buffer = Vec::new();
                assert(self.buffer@ =~= old(self)@.skip(len as int));
                return Err(malformed());
            },
        };
        if total > len as u64 {
            return Ok(None);
        }
        let total = total as usize;
        let rest = slice_to_vec(slice_subrange(self.buffer.as_slice(), total, len));
        let read = Message::from_bytes(slice_subrange(self.buffer.as_slice(), 0, total), fds);
        assert(self.buffer@.subrange(0, total as int) =~= self.buffer@.take(total as int));
        assert(rest@ =~= self.buffer@.skip(total as int));
        self.buffer = rest;
        match read {
            Ok((message, used)) => {
                if used == total {
                    Ok(Some(message))
                } else {
                    Err(malformed())
                }
            },
            Err(e) => Err(e),
        }
    }
}

} // verus!
