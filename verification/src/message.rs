//! Messages: a header that says what a message is and where it goes, and a
//! body of encoded values.

use vstd::prelude::*;
use vstd::std_specs::convert::FromSpecImpl;
use vstd::string::StringSliceAdditionalSpecFns;
use vstd::utf8::encode_utf8;
use crate::error::Error;
use crate::names::error_name::{is_error_name, ErrorName};
use crate::names::interface_name::{is_interface_name, InterfaceName};
use crate::names::member_name::{is_member_name, MemberName};
use crate::names::object_path::{is_object_path, ObjectPath};
use crate::names::unique_name::{is_unique_name, UniqueName};
use crate::names::well_known_name::is_well_known_name;
use crate::wire::dbus::{decoded_fields, encoded_row, MAX_ENCODED_LEN};
use crate::wire::de::decode_fields_of;
use crate::wire::endian::Endian;
use crate::wire::error::Fault;
use crate::wire::grammar::{all_complete, parse_row, parse_types, MAX_SIGNATURE_LEN};
use crate::wire::ser::{encode_row, write_signature_of, lemma_signatures_push};
use crate::wire::signature::{lemma_texts_push, texts, views, Signature, SignatureView};
use crate::wire::value::{signatures, value_trees, Value, ValueView};

verus! {

/// The only version of the protocol.
pub const PROTOCOL_VERSION: u8 = 1;

/// The four kinds of message.
#[derive(Clone, Copy, Debug, PartialEq, Eq, Structural)]
pub enum Type {
    /// A call of a method, which may ask for a reply.
    MethodCall,
    /// The reply to a call, with what the method returned.
    MethodReturn,
    /// The reply to a call that failed.
    Error,
    /// A signal, sent to whoever listens.
    Signal,
}

impl Type {
    /// The number that stands for the kind in a header.
    pub open spec fn spec_code(self) -> u8 {
        match self {
            Type::MethodCall => 1,
            Type::MethodReturn => 2,
            Type::Error => 3,
            Type::Signal => 4,
        }
    }

    /// The kind that a number in a header stands for, if any.
    pub open spec fn spec_from_code(code: u8) -> Option<Type> {
        if code == 1 {
            Some(Type::MethodCall)
        } else if code == 2 {
            Some(Type::MethodReturn)
        } else if code == 3 {
            Some(Type::Error)
        } else if code == 4 {
            Some(Type::Signal)
        } else {
            None
        }
    }

    /// The number that stands for the kind in a header.
    pub fn code(self) -> (c: u8)
        ensures
            c == self.spec_code(),
            Type::spec_from_code(c) == Some(self),
    {
        match self {
            Type::MethodCall => 1,
            Type::MethodReturn => 2,
            Type::Error => 3,
            Type::Signal => 4,
        }
    }

    /// The kind that a number in a header stands for, if any.
    pub fn from_code(code: u8) -> (r: Option<Type>)
        ensures
            r == Type::spec_from_code(code),
    {
        if code == 1 {
            Some(Type::MethodCall)
        } else if code == 2 {
            Some(Type::MethodReturn)
        } else if code == 3 {
            Some(Type::Error)
        } else if code == 4 {
            Some(Type::Signal)
        } else {
            None
        }
    }
}

/// The header of a message.
pub struct Header {
    pub endian: Endian,
    pub msg_type: Type,
    pub flags: u8,
    pub protocol_version: u8,
    /// The length of the body in bytes.
    pub body_len: u32,
    /// The number of the message on its connection; 0 until the connection
    /// gives it one.
    pub serial: u32,
    pub path: Option<ObjectPath>,
    pub interface: Option<InterfaceName>,
    pub member: Option<MemberName>,
    pub error_name: Option<ErrorName>,
    pub reply_serial: Option<u32>,
    pub destination: Option<String>,
    pub sender: Option<UniqueName>,
    /// The types of the values in the body, in their order.
    pub signature: Vec<Signature>,
    /// The number of file descriptors that travel with the message.
    pub unix_fds: u32,
}

/// The bytes `s` spell the name of a connection: a unique name or a
/// well-known one.
pub open spec fn is_bus_name(s: Seq<u8>) -> bool {
    is_unique_name(s) || is_well_known_name(s)
}

impl Header {
    /// The header holds the fields that its kind of message requires: a
    /// call has a path and a member, a return has the serial it replies to,
    /// an error has that and its name, and a signal has path, interface and
    /// member.
    pub open spec fn has_required_fields(&self) -> bool {
        match self.msg_type {
            Type::MethodCall => self.path is Some && self.member is Some,
            Type::MethodReturn => self.reply_serial is Some,
            Type::Error => self.error_name is Some && self.reply_serial is Some,
            Type::Signal => self.path is Some && self.interface is Some && self.member is Some,
        }
    }

    /// Every name in the header obeys the rules of its kind.
    pub open spec fn has_valid_names(&self) -> bool {
        &&& self.path matches Some(p) ==> p.is_valid()
        &&& self.interface matches Some(i) ==> i.is_valid()
        &&& self.member matches Some(m) ==> m.is_valid()
        &&& self.error_name matches Some(e) ==> e.is_valid()
        &&& self.sender matches Some(s) ==> s.is_valid()
        &&& self.destination matches Some(d) ==> is_bus_name(encode_utf8(d@))
    }

    /// The header is one that a message can have: it speaks the one version
    /// of the protocol, holds what its kind requires, names nothing that is
    /// no name, replies to no message without a serial, and its signature is
    /// a row of complete types of at most 255 bytes.
    pub open spec fn is_well_formed(&self) -> bool {
        &&& self.protocol_version == PROTOCOL_VERSION
        &&& self.has_required_fields()
        &&& self.has_valid_names()
        &&& self.reply_serial != Some(0u32)
        &&& all_complete(views(self.signature@))
        &&& texts(views(self.signature@)).len() <= MAX_SIGNATURE_LEN
    }

    /// The kind of the message.
    pub fn message_type(&self) -> (r: Type)
        ensures
            r == self.msg_type,
    {
        self.msg_type
    }

    /// The object that the message is sent to or comes from.
    pub fn path(&self) -> (r: Option<&ObjectPath>)
        ensures
            match r {
                Some(found) => self.path == Some(*found),
                None => self.path is None,
            },
    {
        self.path.as_ref()
    }

    /// The interface that the member belongs to.
    pub fn interface(&self) -> (r: Option<&InterfaceName>)
        ensures
            match r {
                Some(found) => self.interface == Some(*found),
                None => self.interface is None,
            },
    {
        self.interface.as_ref()
    }

    /// The method that is called or the signal that is sent.
    pub fn member(&self) -> (r: Option<&MemberName>)
        ensures
            match r {
                Some(found) => self.member == Some(*found),
                None => self.member is None,
            },
    {
        self.member.as_ref()
    }

    /// The name of the error that a failed call is answered with.
    pub fn error_name(&self) -> (r: Option<&ErrorName>)
        ensures
            match r {
                Some(found) => self.error_name == Some(*found),
                None => self.error_name is None,
            },
    {
        self.error_name.as_ref()
    }

    /// The serial of the call that the message replies to.
    pub fn reply_serial(&self) -> (r: Option<u32>)
        ensures
            r == self.reply_serial,
    {
        self.reply_serial
    }

    /// The connection that the message is meant for.
    pub fn destination(&self) -> (r: Option<&str>)
        ensures
            match r {
                Some(d) => self.destination matches Some(text) && text@ == d@,
                None => self.destination is None,
            },
    {
        match &self.destination {
            Some(d) => Some(d.as_str()),
            None => None,
        }
    }

    /// The connection that the message comes from.
    pub fn sender(&self) -> (r: Option<&UniqueName>)
        ensures
            match r {
                Some(found) => self.sender == Some(*found),
                None => self.sender is None,
            },
    {
        self.sender.as_ref()
    }

    /// The number of the message on its connection.
    pub fn serial(&self) -> (r: u32)
        ensures
            r == self.serial,
    {
        self.serial
    }

    /// The length of the body in bytes.
    pub fn body_len(&self) -> (r: u32)
        ensures
            r == self.body_len,
    {
        self.body_len
    }
}

/// A message: its header, the bytes of its body, and the file descriptors
/// that travel with it.
pub struct Message {
    header: Header,
    body: Vec<u8>,
    fds: Vec<i32>,
}

/// What a message is.
pub struct MessageView {
    pub header: Header,
    pub body: Seq<u8>,
    pub fds: Seq<i32>,
}

impl MessageView {
    /// The parts of the message agree: the header is well formed, it
    /// records the length of the body and the number of the descriptors, and
    /// a body without a signature is empty.
    pub open spec fn is_consistent(self) -> bool {
        &&& self.header.is_well_formed()
        &&& self.header.body_len == self.body.len()
        &&& self.header.unix_fds == self.fds.len()
        &&& self.header.signature@.len() == 0 ==> self.body.len() == 0
    }
}

impl View for Message {
    type V = MessageView;

    closed spec fn view(&self) -> MessageView {
        MessageView { header: self.header, body: self.body@, fds: self.fds@ }
    }
}

/// A message in the making.
pub struct Builder {
    header: Header,
}

impl View for Builder {
    type V = Header;

    closed spec fn view(&self) -> Header {
        self.header
    }
}

/// The sender of the call, if it names one, is the name of a connection.
pub open spec fn has_usable_sender(call: &Header) -> bool {
    call.sender matches Some(s) ==> is_bus_name(encode_utf8(s@))
}

/// The header `reply` is that of a reply to `call`: it names the serial of
/// the call, goes to the sender of the call, and names no object, interface
/// or member.
pub open spec fn replies_to(call: &Header, reply: Header) -> bool {
    &&& reply.reply_serial == Some(call.serial)
    &&& match call.sender {
        Some(s) => reply.destination matches Some(d) && d@ == s@,
        None => reply.destination is None,
    }
    &&& reply.path is None
    &&& reply.interface is None
    &&& reply.member is None
    &&& reply.sender is None
}

/// A header with nothing in it but the kind of the message.
fn blank(msg_type: Type) -> (h: Header)
    ensures
        h.msg_type == msg_type,
        h.endian == Endian::Little,
        h.flags == 0,
        h.protocol_version == PROTOCOL_VERSION,
        h.body_len == 0,
        h.serial == 0,
        h.path is None,
        h.interface is None,
        h.member is None,
        h.error_name is None,
        h.reply_serial is None,
        h.destination is None,
        h.sender is None,
        h.signature@.len() == 0,
        h.unix_fds == 0,
{
    Header {
        endian: Endian::Little,
        msg_type,
        flags: 0,
        protocol_version: PROTOCOL_VERSION,
        body_len: 0,
        serial: 0,
        path: None,
        interface: None,
        member: None,
        error_name: None,
        reply_serial: None,
        destination: None,
        sender: None,
        signature: Vec::new(),
        unix_fds: 0,
    }
}

/// Reads `text` as the name of a connection.
pub(crate) fn bus_name(text: &str) -> (r: Result<String, Error>)
    ensures
        match r {
            Ok(name) => name@ == text@ && is_bus_name(encode_utf8(text@)),
            Err(e) => !is_bus_name(encode_utf8(text@)) && e matches Error::InvalidName(_),
        },
{
    let bytes = text.as_bytes();
    if crate::names::unique_name::validate_bytes(bytes).is_ok()
        || crate::names::well_known_name::validate_bytes(bytes).is_ok() {
        Ok(text.to_owned())
    } else {
        Err(Error::InvalidName("Invalid bus name".to_owned()))
    }
}

/// The error of the connection layer for a name that was turned down.
pub(crate) fn invalid_name(e: crate::names::error::Error) -> (r: Error)
    ensures
        r matches Error::InvalidName(_),
{
    Error::InvalidName(e.to_string())
}

impl Builder {
    #[verifier::type_invariant]
    closed spec fn ready(&self) -> bool {
        self.is_ready()
    }

    /// The builder has everything that a message of its kind needs.
    pub open spec fn is_ready(&self) -> bool {
        &&& self@.protocol_version == PROTOCOL_VERSION
        &&& self@.has_required_fields()
        &&& self@.has_valid_names()
        &&& self@.reply_serial != Some(0u32)
        &&& self@.signature@.len() == 0
        &&& self@.serial == 0
        &&& self@.unix_fds == 0
    }

    /// Names the connection that the message is meant for.
    pub fn destination(self, destination: &str) -> (r: Result<Builder, Error>)
        ensures
            match r {
                Ok(b) => {
                    &&& is_bus_name(encode_utf8(destination@))
                    &&& b.is_ready()
                    &&& b@ == (Header { destination: b@.destination, ..self@ })
                    &&& b@.destination matches Some(d) && d@ == destination@
                },
                Err(e) => !is_bus_name(encode_utf8(destination@)) && e matches Error::InvalidName(
                    _,
                ),
            },
    {
        proof {
            use_type_invariant(&self);
        }
        let name = match bus_name(destination) {
            Ok(name) => name,
            Err(e) => {
                return Err(e);
            },
        };
        let mut header = self.header;
        header.destination = Some(name);
        Ok(Builder { header })
    }

    /// Names the interface that the member belongs to.
    pub fn interface(self, interface: &str) -> (r: Result<Builder, Error>)
        ensures
            match r {
                Ok(b) => {
                    &&& is_interface_name(encode_utf8(interface@))
                    &&& b.is_ready()
                    &&& b@ == (Header { interface: b@.interface, ..self@ })
                    &&& b@.interface matches Some(i) && i@ == interface@
                },
                Err(e) => !is_interface_name(encode_utf8(interface@)) && e
                    matches Error::InvalidName(_),
            },
    {
        proof {
            use_type_invariant(&self);
        }
        let name = match InterfaceName::try_from(interface) {
            Ok(name) => name,
            Err(e) => {
                return Err(invalid_name(e));
            },
        };
        let mut header = self.header;
        header.interface = Some(name);
        Ok(Builder { header })
    }

    /// Names the connection that the message comes from.
    pub fn sender(self, sender: &str) -> (r: Result<Builder, Error>)
        ensures
            match r {
                Ok(b) => {
                    &&& is_unique_name(encode_utf8(sender@))
                    &&& b.is_ready()
                    &&& b@ == (Header { sender: b@.sender, ..self@ })
                    &&& b@.sender matches Some(s) && s@ == sender@
                },
                Err(e) => !is_unique_name(encode_utf8(sender@)) && e matches Error::InvalidName(_),
            },
    {
        proof {
            use_type_invariant(&self);
        }
        let name = match UniqueName::try_from(sender) {
            Ok(name) => name,
            Err(e) => {
                return Err(invalid_name(e));
            },
        };
        let mut header = self.header;
        header.sender = Some(name);
        Ok(Builder { header })
    }

    /// Chooses the byte order of the message.
    pub fn endian(self, endian: Endian) -> (r: Builder)
        ensures
            r.is_ready(),
            r@ == (Header { endian, ..self@ }),
    {
        proof {
            use_type_invariant(&self);
        }
        let mut header = self.header;
        header.endian = endian;
        Builder { header }
    }

    /// Sets the flags of the message.
    pub fn with_flags(self, flags: u8) -> (r: Builder)
        ensures
            r.is_ready(),
            r@ == (Header { flags, ..self@ }),
    {
        proof {
            use_type_invariant(&self);
        }
        let mut header = self.header;
        header.flags = flags;
        Builder { header }
    }

    /// Finishes the message with the given values as its body. The header
    /// gets the signature of the values and the length of their encoding;
    /// the serial stays open until a connection sends the message.
    ///
    /// Well-typed values whose encoding and signature are short enough for
    /// the wire always give a message.
    #[verifier::rlimit(60)]
    #[verifier::spinoff_prover]
    pub fn build(self, body: &Vec<Value>) -> (r: Result<Message, Error>)
        ensures
            r matches Ok(m) ==> {
                &&& m@.is_consistent()
                &&& m@.body == encoded_row(self@.endian, 0, value_trees(body@))
                &&& texts(views(m@.header.signature@)) == texts(signatures(value_trees(body@)))
                &&& m@.fds.len() == 0
                &&& m@.header == (Header {
                    body_len: m@.header.body_len,
                    signature: m@.header.signature,
                    ..self@
                })
            },
            r matches Err(e) ==> e matches Error::Protocol(_),
            (forall|i: int|
                0 <= i < body.len() ==> (#[trigger] value_trees(body@)[i]).is_well_typed())
                && encoded_row(self@.endian, 0, value_trees(body@)).len() <= MAX_ENCODED_LEN
                && texts(signatures(value_trees(body@))).len() <= MAX_SIGNATURE_LEN ==> r is Ok,
    {
        proof {
            use_type_invariant(&self);
        }
        let ghost all = value_trees(body@);
        let mut text: Vec<u8> = Vec::new();
        let mut i: usize = 0;
        assert(texts(signatures(all.take(0))) =~= seq![]);
        while i < body.len()
            invariant
                i <= body.len(),
                all == value_trees(body@),
                text@ == texts(signatures(all.take(i as int))),
            decreases body.len() - i,
        {
            write_signature_of(&body[i], &mut text);
            proof {
                let before = all.take(i as int);
                assert(all.take(i + 1) =~= before.push(all[i as int]));
                lemma_signatures_push(before, all[i as int]);
                lemma_texts_push(signatures(before), all[i as int].signature());
            }
            i += 1;
        }
        assert(all.take(body.len() as int) =~= all);
        proof {
            crate::wire::grammar::lemma_parse_all_sound(text@);
            if forall|i: int| 0 <= i < all.len() ==> (#[trigger] all[i]).is_well_typed() {
                crate::wire::dbus::lemma_signatures_complete(all);
                crate::wire::grammar::lemma_parse_all_complete(signatures(all));
            }
        }
        let signature = match parse_row(text.as_slice()) {
            Some(signature) => signature,
            None => {
                return Err(Error::Protocol("invalid signature".to_owned()));
            },
        };
        let mut bytes: Vec<u8> = Vec::new();
        match encode_row(self.header.endian, 0, body, &mut bytes) {
            Ok(()) => {},
            Err(e) => {
                return Err(Error::Protocol(e.to_string()));
            },
        }
        assert(bytes@ =~= encoded_row(self@.endian, 0, all));
        if bytes.len() > MAX_ENCODED_LEN {
            return Err(Error::Protocol("body is too long".to_owned()));
        }
        proof {
            if signature@.len() == 0 {
                assert(views(signature@) =~= seq![]);
                assert(texts(signatures(all)).len() == 0);
                lemma_no_types_no_values(all);
            }
        }
        let mut header = self.header;
        header.body_len = bytes.len() as u32;
        header.signature = signature;
        Ok(Message { header, body: bytes, fds: Vec::new() })
    }
}

/// Values whose signatures make an empty text are no values at all.
pub proof fn lemma_no_types_no_values(values: Seq<ValueView>)
    requires
        texts(signatures(values)).len() == 0,
    ensures
        values.len() == 0,
{
    if values.len() > 0 {
        let first = values[0].signature();
        assert(signatures(values)[0] == first);
        assert(texts(signatures(values)) == first.text() + texts(
            signatures(values).drop_first(),
        ));
        lemma_value_signature_has_text(values[0]);
    }
}

/// The signature of a value is never the empty text.
pub proof fn lemma_value_signature_has_text(v: ValueView)
    ensures
        v.signature().text().len() > 0,
{
}

impl Message {
    #[verifier::type_invariant]
    closed spec fn consistent(&self) -> bool {
        self@.is_consistent()
    }

    /// Starts a call of the method `member` on the object at `path`.
    pub fn method_call(path: &str, member: &str) -> (r: Result<Builder, Error>)
        ensures
            match r {
                Ok(b) => is_object_path(encode_utf8(path@)) && is_member_name(
                    encode_utf8(member@),
                ) && b.is_ready() && b@.msg_type == Type::MethodCall && (b@.path matches Some(p)
                    && p@ == path@) && (b@.member matches Some(m) && m@ == member@)
                    && b@.interface is None && b@.destination is None && b@.sender is None
                    && b@.reply_serial is None && b@.error_name is None,
                Err(e) => !(is_object_path(encode_utf8(path@)) && is_member_name(
                    encode_utf8(member@),
                )) && e matches Error::InvalidName(_),
            },
    {
        let path = match ObjectPath::try_from(path) {
            Ok(path) => path,
            Err(e) => {
                return Err(invalid_name(e));
            },
        };
        let member = match MemberName::try_from(member) {
            Ok(member) => member,
            Err(e) => {
                return Err(invalid_name(e));
            },
        };
        let mut header = blank(Type::MethodCall);
        header.path = Some(path);
        header.member = Some(member);
        Ok(Builder { header })
    }

    /// Starts the signal `member` of `interface`, sent from the object at
    /// `path`.
    pub fn signal(path: &str, interface: &str, member: &str) -> (r: Result<Builder, Error>)
        ensures
            match r {
                Ok(b) => is_object_path(encode_utf8(path@)) && is_interface_name(
                    encode_utf8(interface@),
                ) && is_member_name(encode_utf8(member@)) && b.is_ready() && b@.msg_type
                    == Type::Signal && (b@.path matches Some(p) && p@ == path@) && (b@.interface
                    matches Some(i) && i@ == interface@) && (b@.member matches Some(m) && m@
                    == member@) && b@.destination is None && b@.sender is None
                    && b@.reply_serial is None && b@.error_name is None,
                Err(e) => !(is_object_path(encode_utf8(path@)) && is_interface_name(
                    encode_utf8(interface@),
                ) && is_member_name(encode_utf8(member@))) && e matches Error::InvalidName(_),
            },
    {
        let path = match ObjectPath::try_from(path) {
            Ok(path) => path,
            Err(e) => {
                return Err(invalid_name(e));
            },
        };
        let interface = match InterfaceName::try_from(interface) {
            Ok(interface) => interface,
            Err(e) => {
                return Err(invalid_name(e));
            },
        };
        let member = match MemberName::try_from(member) {
            Ok(member) => member,
            Err(e) => {
                return Err(invalid_name(e));
            },
        };
        let mut header = blank(Type::Signal);
        header.path = Some(path);
        header.interface = Some(interface);
        header.member = Some(member);
        Ok(Builder { header })
    }

    /// Starts the reply to the call with the header `call`. The reply goes
    /// to the sender of the call and names the serial of the call, which the
    /// call must have.
    pub fn method_return(call: &Header) -> (r: Result<Builder, Error>)
        ensures
            match r {
                Ok(b) => call.serial != 0 && replies_to(call, b@) && b.is_ready() && b@.msg_type
                    == Type::MethodReturn && b@.error_name is None,
                Err(e) => if call.serial == 0 {
                    e == Error::InvalidSerial
                } else {
                    !has_usable_sender(call) && e matches Error::InvalidName(_)
                },
            },
    {
        if call.serial == 0 {
            return Err(Error::InvalidSerial);
        }
        let mut header = blank(Type::MethodReturn);
        header.reply_serial = Some(call.serial);
        if let Some(sender) = &call.sender {
            match bus_name(sender.as_str()) {
                Ok(name) => {
                    header.destination = Some(name);
                },
                Err(e) => {
                    return Err(e);
                },
            }
        }
        Ok(Builder { header })
    }

    /// Starts the error `name` as the reply to the call with the header
    /// `call`.
    pub fn error(call: &Header, name: &str) -> (r: Result<Builder, Error>)
        ensures
            match r {
                Ok(b) => call.serial != 0 && is_error_name(encode_utf8(name@)) && replies_to(
                    call,
                    b@,
                ) && b.is_ready() && b@.msg_type == Type::Error && (b@.error_name matches Some(n)
                    && n@ == name@),
                Err(e) => if call.serial == 0 {
                    e == Error::InvalidSerial
                } else {
                    !(is_error_name(encode_utf8(name@)) && has_usable_sender(call)) && e
                        matches Error::InvalidName(_)
                },
            },
    {
        if call.serial == 0 {
            return Err(Error::InvalidSerial);
        }
        let name = match ErrorName::try_from(name) {
            Ok(name) => name,
            Err(e) => {
                return Err(invalid_name(e));
            },
        };
        let mut header = blank(Type::Error);
        header.reply_serial = Some(call.serial);
        header.error_name = Some(name);
        if let Some(sender) = &call.sender {
            match bus_name(sender.as_str()) {
                Ok(name) => {
                    header.destination = Some(name);
                },
                Err(e) => {
                    return Err(e);
                },
            }
        }
        Ok(Builder { header })
    }

    /// The header of the message.
    pub fn header(&self) -> (r: &Header)
        ensures
            *r == self@.header,
            self@.is_consistent(),
    {
        proof {
            use_type_invariant(self);
        }
        &self.header
    }

    /// The bytes of the body.
    pub fn body(&self) -> (r: &[u8])
        ensures
            r@ == self@.body,
            r@.len() == self@.header.body_len,
    {
        proof {
            use_type_invariant(self);
        }
        self.body.as_slice()
    }

    /// The file descriptors that travel with the message.
    pub fn fds(&self) -> (r: &[i32])
        ensures
            r@ == self@.fds,
            r@.len() == self@.header.unix_fds,
    {
        proof {
            use_type_invariant(self);
        }
        self.fds.as_slice()
    }

    /// The kind of the message.
    pub fn message_type(&self) -> (r: Type)
        ensures
            r == self@.header.msg_type,
    {
        self.header.msg_type
    }

    /// The message with the file descriptors `fds` attached, in place of
    /// those it had: the header counts them. The values of the type `h` in
    /// the body are indices into them. More descriptors than the header can
    /// count are refused.
    pub fn with_fds(self, fds: Vec<i32>) -> (r: Result<Message, Error>)
        ensures
            match r {
                Ok(m) => fds.len() <= u32::MAX && m@ == (MessageView {
                    header: Header { unix_fds: fds.len() as u32, ..self@.header },
                    fds: fds@,
                    ..self@
                }),
                Err(e) => fds.len() > u32::MAX && e matches Error::Protocol(_),
            },
    {
        proof {
            use_type_invariant(&self);
        }
        if fds.len() > u32::MAX as usize {
            return Err(Error::Protocol("too many file descriptors".to_owned()));
        }
        let Message { header, body, fds: _ } = self;
        let mut header = header;
        header.unix_fds = fds.len() as u32;
        Ok(Message { header, body, fds })
    }

    /// The message of the given parts, which agree.
    pub(crate) fn from_parts(header: Header, body: Vec<u8>, fds: Vec<i32>) -> (r: Message)
        requires
            (MessageView { header, body: body@, fds: fds@ }).is_consistent(),
        ensures
            r@ == (MessageView { header, body: body@, fds: fds@ }),
    {
        Message { header, body, fds }
    }

    /// The message with the serial that a connection gave it. No message
    /// has the serial 0.
    pub fn with_serial(self, serial: u32) -> (r: Result<Message, Error>)
        ensures
            match r {
                Ok(m) => serial != 0 && m@ == (MessageView {
                    header: Header { serial, ..self@.header },
                    ..self@
                }),
                Err(e) => serial == 0 && e == Error::InvalidSerial,
            },
    {
        proof {
            use_type_invariant(&self);
        }
        if serial == 0 {
            return Err(Error::InvalidSerial);
        }
        let Message { header, body, fds } = self;
        let mut header = header;
        header.serial = serial;
        Ok(Message { header, body, fds })
    }

    /// The values in the body, read by the signature in the header.
    pub fn body_values(&self) -> (r: Result<Vec<Value>, crate::wire::error::Error>)
        ensures
            match decoded_fields(
                self@.header.endian,
                false,
                0,
                views(self@.header.signature@),
                self@.body,
            ) {
                Ok((values, _)) => r matches Ok(v) && value_trees(v@) == values,
                Err(f) => r matches Err(e) && e.fault() == Some(f),
            },
    {
        decode_fields_of(self.header.endian, false, &self.header.signature, self.body.as_slice())
    }
}

/// Every message holds what its kind requires, and its header records the
/// length of its body: what a builder hands out is consistent, and stays so.
pub proof fn lemma_built_message_is_consistent(m: MessageView)
    requires
        m.is_consistent(),
    ensures
        m.header.body_len == m.body.len(),
        m.header.msg_type == Type::MethodCall ==> m.header.path is Some && m.header.member
            is Some,
        m.header.msg_type == Type::MethodReturn ==> m.header.reply_serial is Some,
        m.header.msg_type == Type::Error ==> m.header.error_name is Some
            && m.header.reply_serial is Some,
        m.header.msg_type == Type::Signal ==> m.header.path is Some && m.header.interface
            is Some && m.header.member is Some,
{
}

/// The text that an error message brings along: the first value of its
/// body, where that is a string.
pub open spec fn description_of(m: MessageView) -> Option<Seq<char>> {
    match decoded_fields(m.header.endian, false, 0, views(m.header.signature@), m.body) {
        Ok((values, _)) => if values.len() > 0 && values[0] is Str {
            Some(values[0]->Str_0)
        } else {
            None
        },
        Err(_) => None,
    }
}

/// The error that the message `m` stands for and `e` is: an error message
/// is the error that the remote side answered with, by its name and with the
/// text it brought; every other message is no reply to fail with.
pub open spec fn is_error_of(m: MessageView, e: Error) -> bool {
    if m.header.msg_type == Type::Error {
        e matches Error::MethodError(name, description) && m.header.error_name matches Some(n)
            && name@ == n@ && (match description_of(m) {
            Some(text) => description matches Some(d) && d@ == text,
            None => description is None,
        })
    } else {
        e == Error::InvalidReply
    }
}

impl Message {
    /// The text that an error message brings along, if any.
    pub fn description(&self) -> (r: Option<String>)
        ensures
            match description_of(self@) {
                Some(text) => r matches Some(d) && d@ == text,
                None => r is None,
            },
    {
        match self.body_values() {
            Ok(mut values) => {
                if values.len() == 0 {
                    return None;
                }
                let ghost all = value_trees(values@);
                assert(all[0] == values[0]@);
                match values.swap_remove(0) {
                    Value::Str(text) => Some(text),
                    _ => None,
                }
            },
            Err(_) => None,
        }
    }

    /// The error that the message stands for.
    pub fn into_error(self) -> (e: Error)
        ensures
            is_error_of(self@, e),
    {
        self.to_error()
    }

    /// The error that the message stands for; the message stays.
    pub fn to_error(&self) -> (e: Error)
        ensures
            is_error_of(self@, e),
    {
        proof {
            use_type_invariant(self);
        }
        match self.header.msg_type {
            Type::Error => {
                let description = self.description();
                match &self.header.error_name {
                    Some(name) => Error::MethodError(name.to_string(), description),
                    None => Error::InvalidReply,
                }
            },
            _ => Error::InvalidReply,
        }
    }
}

impl From<Message> for Error {
    fn from(m: Message) -> (e: Error)
        ensures
            is_error_of(m@, e),
    {
        m.into_error()
    }
}

/// What the conversion gives is said by its own contract, in terms of
/// [`is_error_of`]; the function below pins nothing down.
impl FromSpecImpl<Message> for Error {
    open spec fn obeys_from_spec() -> bool {
        false
    }

    open spec fn from_spec(m: Message) -> Error {
        Error::InvalidReply
    }
}

} // verus!
