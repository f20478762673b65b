//! The caller's side of the interface of the bus itself: the calls that
//! a connection makes on `org.freedesktop.DBus`, what the bus answers, and
//! the signals by which it tells who owns a name.

use vstd::prelude::*;
use vstd::utf8::encode_utf8;
use crate::connection::lemma_hello_names;
use crate::error::Error;
use crate::message::{is_error_of, Message, MessageView, Type};
use crate::names::member_name::is_member_name;
use crate::names::well_known_name::WellKnownName;
use crate::text::str_eq;
use crate::wire::dbus::{decoded_fields, encoded_row, MAX_ENCODED_LEN};
use crate::wire::endian::Endian;
use crate::wire::grammar::MAX_SIGNATURE_LEN;
use crate::wire::signature::{texts, views};
use crate::wire::value::{lemma_array_view, signatures, value_trees, Value, ValueView};

verus! {

/// The name of the bus on the bus.
pub const BUS_NAME: &'static str = "org.freedesktop.DBus";

/// The path of the object that stands for the bus.
pub const BUS_PATH: &'static str = "/org/freedesktop/DBus";

/// The interface of the bus.
pub const BUS_INTERFACE: &'static str = "org.freedesktop.DBus";

/// What a connection may ask for when it requests a name.
#[derive(Clone, Copy, Debug, PartialEq, Eq, Structural)]
pub enum RequestNameFlags {
    /// Another connection may take the name over.
    AllowReplacement,
    /// Take the name over from its owner, if the owner allows it.
    ReplaceExisting,
    /// Fail rather than wait in the queue for the name.
    DoNotQueue,
}

impl RequestNameFlags {
    /// The bit that stands for the flag.
    pub open spec fn spec_bits(self) -> u32 {
        match self {
            RequestNameFlags::AllowReplacement => 1,
            RequestNameFlags::ReplaceExisting => 2,
            RequestNameFlags::DoNotQueue => 4,
        }
    }

    /// The bit that stands for the flag.
    pub fn bits(self) -> (r: u32)
        ensures
            r == self.spec_bits(),
    {
        match self {
            RequestNameFlags::AllowReplacement => 1,
            RequestNameFlags::ReplaceExisting => 2,
            RequestNameFlags::DoNotQueue => 4,
        }
    }
}

/// What the bus answers to a request for a name.
#[derive(Clone, Copy, Debug, PartialEq, Eq, Structural)]
pub enum RequestNameReply {
    /// The caller owns the name now.
    PrimaryOwner,
    /// The caller waits in the queue for the name.
    InQueue,
    /// The name has an owner, and the caller does not wait for it.
    Exists,
    /// The caller owned the name already.
    AlreadyOwner,
}

impl RequestNameReply {
    /// The answer that a number stands for, if any.
    pub open spec fn spec_from_code(code: u32) -> Option<RequestNameReply> {
        if code == 1 {
            Some(RequestNameReply::PrimaryOwner)
        } else if code == 2 {
            Some(RequestNameReply::InQueue)
        } else if code == 3 {
            Some(RequestNameReply::Exists)
        } else if code == 4 {
            Some(RequestNameReply::AlreadyOwner)
        } else {
            None
        }
    }

    /// The answer that a number stands for, if any.
    pub fn from_code(code: u32) -> (r: Option<RequestNameReply>)
        ensures
            r == RequestNameReply::spec_from_code(code),
    {
        if code == 1 {
            Some(RequestNameReply::PrimaryOwner)
        } else if code == 2 {
            Some(RequestNameReply::InQueue)
        } else if code == 3 {
            Some(RequestNameReply::Exists)
        } else if code == 4 {
            Some(RequestNameReply::AlreadyOwner)
        } else {
            None
        }
    }
}

/// What the bus answers when a name is released.
#[derive(Clone, Copy, Debug, PartialEq, Eq, Structural)]
pub enum ReleaseNameReply {
    /// The caller has given the name up.
    Released,
    /// Nobody owns the name.
    NonExistent,
    /// The caller neither owns the name nor waits for it.
    NotOwner,
}

impl ReleaseNameReply {
    /// The answer that a number stands for, if any.
    pub open spec fn spec_from_code(code: u32) -> Option<ReleaseNameReply> {
        if code == 1 {
            Some(ReleaseNameReply::Released)
        } else if code == 2 {
            Some(ReleaseNameReply::NonExistent)
        } else if code == 3 {
            Some(ReleaseNameReply::NotOwner)
        } else {
            None
        }
    }

    /// The answer that a number stands for, if any.
    pub fn from_code(code: u32) -> (r: Option<ReleaseNameReply>)
        ensures
            r == ReleaseNameReply::spec_from_code(code),
    {
        if code == 1 {
            Some(ReleaseNameReply::Released)
        } else if code == 2 {
            Some(ReleaseNameReply::NonExistent)
        } else if code == 3 {
            Some(ReleaseNameReply::NotOwner)
        } else {
            None
        }
    }
}

/// What the bus answers when it is asked to start a service.
#[derive(Clone, Copy, Debug, PartialEq, Eq, Structural)]
pub enum StartServiceReply {
    /// The service was started.
    Success,
    /// The service ran already.
    AlreadyRunning,
}

impl StartServiceReply {
    /// The answer that a number stands for, if any.
    pub open spec fn spec_from_code(code: u32) -> Option<StartServiceReply> {
        if code == 1 {
            Some(StartServiceReply::Success)
        } else if code == 2 {
            Some(StartServiceReply::AlreadyRunning)
        } else {
            None
        }
    }

    /// The answer that a number stands for, if any.
    pub fn from_code(code: u32) -> (r: Option<StartServiceReply>)
        ensures
            r == StartServiceReply::spec_from_code(code),
    {
        if code == 1 {
            Some(StartServiceReply::Success)
        } else if code == 2 {
            Some(StartServiceReply::AlreadyRunning)
        } else {
            None
        }
    }
}

/// The message `m` is a call of the method `member` of the bus, with the
/// values `body`: it goes to the bus, to its object and its interface, in
/// little-endian order, and has no serial yet.
pub open spec fn is_bus_call(m: MessageView, member: Seq<char>, body: Seq<ValueView>) -> bool {
    &&& m.is_consistent()
    &&& m.header.msg_type == Type::MethodCall
    &&& m.header.endian == Endian::Little
    &&& m.header.serial == 0
    &&& m.header.path matches Some(p) && p@ == BUS_PATH@
    &&& m.header.interface matches Some(i) && i@ == BUS_INTERFACE@
    &&& m.header.destination matches Some(d) && d@ == BUS_NAME@
    &&& m.header.member matches Some(n) && n@ == member
    &&& m.header.sender is None
    &&& m.body == encoded_row(Endian::Little, 0, body)
    &&& texts(views(m.header.signature@)) == texts(signatures(body))
    &&& m.fds.len() == 0
}

/// The method `member` can be called with the values `body`: it is the
/// name of a member, the values are well typed, and their encoding and their
/// signature are short enough for the wire.
pub open spec fn can_call(member: Seq<char>, body: Seq<ValueView>) -> bool {
    &&& is_member_name(encode_utf8(member))
    &&& forall|i: int| 0 <= i < body.len() ==> (#[trigger] body[i]).is_well_typed()
    &&& encoded_row(Endian::Little, 0, body).len() <= MAX_ENCODED_LEN
    &&& texts(signatures(body)).len() <= MAX_SIGNATURE_LEN
}

/// Makes the call of the method `member` of the bus with the values
/// `body`, for a connection to send.
pub fn call(member: &str, body: &Vec<Value>) -> (r: Result<Message, Error>)
    ensures
        r matches Ok(m) ==> is_bus_call(m@, member@, value_trees(body@)),
        r matches Err(e) ==> (e matches Error::InvalidName(_) || e matches Error::Protocol(_)),
        can_call(member@, value_trees(body@)) ==> r is Ok,
{
    proof {
        lemma_hello_names();
    }
    let builder = match Message::method_call(BUS_PATH, member) {
        Ok(b) => b,
        Err(e) => {
            return Err(e);
        },
    };
    let builder = match builder.destination(BUS_NAME) {
        Ok(b) => b,
        Err(e) => {
            return Err(e);
        },
    };
    let builder = match builder.interface(BUS_INTERFACE) {
        Ok(b) => b,
        Err(e) => {
            return Err(e);
        },
    };
    let builder = builder.endian(Endian::Little);
    builder.build(body)
}

/// Makes the call `RequestName`: the caller asks for the name, with the
/// given flags.
pub fn request_name(name: &WellKnownName, flags: u32) -> (r: Result<Message, Error>)
    ensures
        r matches Ok(m) ==> is_bus_call(
            m@,
            "RequestName"@,
            seq![ValueView::Str(name@), ValueView::U32(flags)],
        ),
        can_call("RequestName"@, seq![ValueView::Str(name@), ValueView::U32(flags)]) ==> r is Ok,
{
    let mut body: Vec<Value> = Vec::new();
    body.push(Value::Str(name.to_string()));
    body.push(Value::U32(flags));
    assert(value_trees(body@) =~= seq![ValueView::Str(name@), ValueView::U32(flags)]);
    call("RequestName", &body)
}

/// Makes the call `ReleaseName`: the caller gives the name up.
pub fn release_name(name: &WellKnownName) -> (r: Result<Message, Error>)
    ensures
        r matches Ok(m) ==> is_bus_call(m@, "ReleaseName"@, seq![ValueView::Str(name@)]),
        can_call("ReleaseName"@, seq![ValueView::Str(name@)]) ==> r is Ok,
{
    call_with_text("ReleaseName", name.as_str())
}

/// Makes the call of a method of the bus that takes one string.
pub fn call_with_text(member: &str, text: &str) -> (r: Result<Message, Error>)
    ensures
        r matches Ok(m) ==> is_bus_call(m@, member@, seq![ValueView::Str(text@)]),
        r matches Err(e) ==> (e matches Error::InvalidName(_) || e matches Error::Protocol(_)),
        can_call(member@, seq![ValueView::Str(text@)]) ==> r is Ok,
{
    let mut body: Vec<Value> = Vec::new();
    body.push(Value::Str(text.to_owned()));
    assert(value_trees(body@) =~= seq![ValueView::Str(text@)]);
    call(member, &body)
}

/// Makes the call of a method of the bus that takes nothing.
pub fn call_with_nothing(member: &str) -> (r: Result<Message, Error>)
    ensures
        r matches Ok(m) ==> is_bus_call(m@, member@, seq![]),
        r matches Err(e) ==> (e matches Error::InvalidName(_) || e matches Error::Protocol(_)),
        can_call(member@, seq![]) ==> r is Ok,
{
    let body: Vec<Value> = Vec::new();
    assert(value_trees(body@) =~= seq![]);
    call(member, &body)
}

/// Makes the call `AddMatch`: the bus is to pass on what the rule with
/// the given text matches.
pub fn add_match(rule: &str) -> (r: Result<Message, Error>)
    ensures
        r matches Ok(m) ==> is_bus_call(m@, "AddMatch"@, seq![ValueView::Str(rule@)]),
        can_call("AddMatch"@, seq![ValueView::Str(rule@)]) ==> r is Ok,
{
    call_with_text("AddMatch", rule)
}

/// Makes the call `RemoveMatch`: the bus is to forget the rule with the
/// given text.
pub fn remove_match(rule: &str) -> (r: Result<Message, Error>)
    ensures
        r matches Ok(m) ==> is_bus_call(m@, "RemoveMatch"@, seq![ValueView::Str(rule@)]),
        can_call("RemoveMatch"@, seq![ValueView::Str(rule@)]) ==> r is Ok,
{
    call_with_text("RemoveMatch", rule)
}

/// Makes the call `GetNameOwner`: which connection owns the name?
pub fn get_name_owner(name: &str) -> (r: Result<Message, Error>)
    ensures
        r matches Ok(m) ==> is_bus_call(m@, "GetNameOwner"@, seq![ValueView::Str(name@)]),
        can_call("GetNameOwner"@, seq![ValueView::Str(name@)]) ==> r is Ok,
{
    call_with_text("GetNameOwner", name)
}

/// Makes the call `NameHasOwner`: does any connection own the name?
pub fn name_has_owner(name: &str) -> (r: Result<Message, Error>)
    ensures
        r matches Ok(m) ==> is_bus_call(m@, "NameHasOwner"@, seq![ValueView::Str(name@)]),
        can_call("NameHasOwner"@, seq![ValueView::Str(name@)]) ==> r is Ok,
{
    call_with_text("NameHasOwner", name)
}

/// Makes the call `GetConnectionCredentials`: what is known of the
/// connection with the name?
pub fn get_connection_credentials(name: &str) -> (r: Result<Message, Error>)
    ensures
        r matches Ok(m) ==> is_bus_call(
            m@,
            "GetConnectionCredentials"@,
            seq![ValueView::Str(name@)],
        ),
        can_call("GetConnectionCredentials"@, seq![ValueView::Str(name@)]) ==> r is Ok,
{
    call_with_text("GetConnectionCredentials", name)
}

/// Makes the call `StartServiceByName`: the bus is to start the service
/// that owns the name.
pub fn start_service_by_name(name: &WellKnownName, flags: u32) -> (r: Result<Message, Error>)
    ensures
        r matches Ok(m) ==> is_bus_call(
            m@,
            "StartServiceByName"@,
            seq![ValueView::Str(name@), ValueView::U32(flags)],
        ),
        can_call("StartServiceByName"@, seq![ValueView::Str(name@), ValueView::U32(flags)])
            ==> r is Ok,
{
    let mut body: Vec<Value> = Vec::new();
    body.push(Value::Str(name.to_string()));
    body.push(Value::U32(flags));
    assert(value_trees(body@) =~= seq![ValueView::Str(name@), ValueView::U32(flags)]);
    call("StartServiceByName", &body)
}

/// Makes the call `ListNames`: which names are owned?
pub fn list_names() -> (r: Result<Message, Error>)
    ensures
        r matches Ok(m) ==> is_bus_call(m@, "ListNames"@, seq![]),
        can_call("ListNames"@, seq![]) ==> r is Ok,
{
    call_with_nothing("ListNames")
}

/// Makes the call `ListActivatableNames`: which names can the bus start a
/// service for?
pub fn list_activatable_names() -> (r: Result<Message, Error>)
    ensures
        r matches Ok(m) ==> is_bus_call(m@, "ListActivatableNames"@, seq![]),
        can_call("ListActivatableNames"@, seq![]) ==> r is Ok,
{
    call_with_nothing("ListActivatableNames")
}

/// Makes the call `GetId`: what is the identifier of the bus?
pub fn get_id() -> (r: Result<Message, Error>)
    ensures
        r matches Ok(m) ==> is_bus_call(m@, "GetId"@, seq![]),
        can_call("GetId"@, seq![]) ==> r is Ok,
{
    call_with_nothing("GetId")
}

/// The values that a message returns: those in the body of a return.
pub open spec fn returned(m: MessageView) -> Option<Seq<ValueView>> {
    if m.header.msg_type == Type::MethodReturn {
        match decoded_fields(m.header.endian, false, 0, views(m.header.signature@), m.body) {
            Ok((values, _)) => Some(values),
            Err(_) => None,
        }
    } else {
        None
    }
}

/// The one value that a message returns, if it returns one.
pub open spec fn returned_one(m: MessageView) -> Option<ValueView> {
    match returned(m) {
        Some(values) => if values.len() == 1 {
            Some(values[0])
        } else {
            None
        },
        None => None,
    }
}

/// The number that a message returns, if it returns one number.
pub open spec fn returned_u32(m: MessageView) -> Option<u32> {
    match returned_one(m) {
        Some(ValueView::U32(n)) => Some(n),
        _ => None,
    }
}

/// The truth value that a message returns, if it returns one.
pub open spec fn returned_bool(m: MessageView) -> Option<bool> {
    match returned_one(m) {
        Some(ValueView::Bool(b)) => Some(b),
        _ => None,
    }
}

/// The string that a message returns, if it returns one.
pub open spec fn returned_text(m: MessageView) -> Option<Seq<char>> {
    match returned_one(m) {
        Some(ValueView::Str(t)) => Some(t),
        _ => None,
    }
}

/// The one value that the reply returns. A reply that is an error gives
/// that error; every other message that does not return one value is no
/// reply to the call.
pub fn read_one(reply: &Message) -> (r: Result<Value, Error>)
    ensures
        match returned_one(reply@) {
            Some(value) => r matches Ok(v) && v@ == value,
            None => r matches Err(e) && is_error_of(reply@, e),
        },
{
    match reply.message_type() {
        Type::MethodReturn => {},
        _ => {
            return Err(reply.to_error());
        },
    }
    match reply.body_values() {
        Ok(mut values) => {
            if values.len() != 1 {
                return Err(Error::InvalidReply);
            }
            let ghost all = value_trees(values@);
            assert(all[0] == values[0]@);
            Ok(values.remove(0))
        },
        Err(_) => Err(Error::InvalidReply),
    }
}

/// The number that the reply returns.
pub fn read_u32(reply: &Message) -> (r: Result<u32, Error>)
    ensures
        match returned_u32(reply@) {
            Some(n) => r == Ok::<u32, Error>(n),
            None => r matches Err(e) && is_error_of(reply@, e),
        },
{
    match read_one(reply) {
        Ok(Value::U32(n)) => Ok(n),
        Ok(_) => Err(Error::InvalidReply),
        Err(e) => Err(e),
    }
}

/// The truth value that the reply returns: the answer to `NameHasOwner`.
pub fn read_bool(reply: &Message) -> (r: Result<bool, Error>)
    ensures
        match returned_bool(reply@) {
            Some(b) => r == Ok::<bool, Error>(b),
            None => r matches Err(e) && is_error_of(reply@, e),
        },
{
    match read_one(reply) {
        Ok(Value::Bool(b)) => Ok(b),
        Ok(_) => Err(Error::InvalidReply),
        Err(e) => Err(e),
    }
}

/// The string that the reply returns: the answer to `Hello`,
/// `GetNameOwner` and `GetId`.
pub fn read_text(reply: &Message) -> (r: Result<String, Error>)
    ensures
        match returned_text(reply@) {
            Some(t) => r matches Ok(text) && text@ == t,
            None => r matches Err(e) && is_error_of(reply@, e),
        },
{
    match read_one(reply) {
        Ok(Value::Str(t)) => Ok(t),
        Ok(_) => Err(Error::InvalidReply),
        Err(e) => Err(e),
    }
}

/// The answer to `RequestName` that the reply gives.
pub fn request_name_reply(reply: &Message) -> (r: Result<RequestNameReply, Error>)
    ensures
        match returned_u32(reply@) {
            Some(n) => match RequestNameReply::spec_from_code(n) {
                Some(answer) => r == Ok::<RequestNameReply, Error>(answer),
                None => r == Err::<RequestNameReply, Error>(Error::InvalidReply),
            },
            None => r matches Err(e) && is_error_of(reply@, e),
        },
{
    match read_u32(reply) {
        Ok(n) => match RequestNameReply::from_code(n) {
            Some(answer) => Ok(answer),
            None => Err(Error::InvalidReply),
        },
        Err(e) => Err(e),
    }
}

/// The answer to `ReleaseName` that the reply gives.
pub fn release_name_reply(reply: &Message) -> (r: Result<ReleaseNameReply, Error>)
    ensures
        match returned_u32(reply@) {
            Some(n) => match ReleaseNameReply::spec_from_code(n) {
                Some(answer) => r == Ok::<ReleaseNameReply, Error>(answer),
                None => r == Err::<ReleaseNameReply, Error>(Error::InvalidReply),
            },
            None => r matches Err(e) && is_error_of(reply@, e),
        },
{
    match read_u32(reply) {
        Ok(n) => match ReleaseNameReply::from_code(n) {
            Some(answer) => Ok(answer),
            None => Err(Error::InvalidReply),
        },
        Err(e) => Err(e),
    }
}

/// The answer to `StartServiceByName` that the reply gives.
pub fn start_service_reply(reply: &Message) -> (r: Result<StartServiceReply, Error>)
    ensures
        match returned_u32(reply@) {
            Some(n) => match StartServiceReply::spec_from_code(n) {
                Some(answer) => r == Ok::<StartServiceReply, Error>(answer),
                None => r == Err::<StartServiceReply, Error>(Error::InvalidReply),
            },
            None => r matches Err(e) && is_error_of(reply@, e),
        },
{
    match read_u32(reply) {
        Ok(n) => match StartServiceReply::from_code(n) {
            Some(answer) => Ok(answer),
            None => Err(Error::InvalidReply),
        },
        Err(e) => Err(e),
    }
}

/// The strings that the values `values` are, if all of them are strings.
pub open spec fn texts_in(values: Seq<ValueView>) -> Option<Seq<Seq<char>>> {
    if forall|i: int| 0 <= i < values.len() ==> (#[trigger] values[i]) is Str {
        Some(Seq::new(values.len(), |i: int| values[i]->Str_0))
    } else {
        None
    }
}

/// The strings that the values are: see [`texts_in`].
pub fn read_texts(values: &Vec<Value>) -> (r: Option<Vec<String>>)
    ensures
        match texts_in(value_trees(values@)) {
            Some(texts) => r matches Some(found) && found@.len() == texts.len() && forall|i: int|
                0 <= i < texts.len() ==> (#[trigger] found@[i])@ == texts[i],
            None => r is None,
        },
{
    let ghost all = value_trees(values@);
    let mut found: Vec<String> = Vec::new();
    let mut i: usize = 0;
    while i < values.len()
        invariant
            i <= values.len(),
            all == value_trees(values@),
            found@.len() == i,
            forall|k: int| 0 <= k < i ==> (#[trigger] all[k]) is Str,
            forall|k: int| 0 <= k < i ==> (#[trigger] found@[k])@ == all[k]->Str_0,
        decreases values.len() - i,
    {
        assert(all[i as int] == values[i as int]@);
        match &values[i] {
            Value::Str(t) => {
                found.push(t.as_str().to_owned());
            },
            _ => {
                assert(!(all[i as int] is Str));
                return None;
            },
        }
        i += 1;
    }
    Some(found)
}

/// The strings that a message returns, if it returns one array of
/// strings.
pub open spec fn returned_texts(m: MessageView) -> Option<Seq<Seq<char>>> {
    match returned_one(m) {
        Some(ValueView::Array(_, items)) => texts_in(items),
        _ => None,
    }
}

/// The strings that the reply returns: the answer to `ListNames` and
/// `ListActivatableNames`.
pub fn read_names(reply: &Message) -> (r: Result<Vec<String>, Error>)
    ensures
        match returned_texts(reply@) {
            Some(texts) => r matches Ok(found) && found@.len() == texts.len() && forall|i: int|
                0 <= i < texts.len() ==> (#[trigger] found@[i])@ == texts[i],
            None => r matches Err(e) && is_error_of(reply@, e),
        },
{
    match read_one(reply) {
        Ok(Value::Array(element, items)) => {
            proof {
                lemma_array_view(element, items);
            }
            match read_texts(&items) {
                Some(found) => Ok(found),
                None => Err(Error::InvalidReply),
            }
        },
        Ok(_) => Err(Error::InvalidReply),
        Err(e) => Err(e),
    }
}

/// The strings that a message signals, if it is the signal `member` of the
/// bus and its body holds `count` strings and nothing else.
pub open spec fn signalled(m: MessageView, member: Seq<char>, count: nat) -> Option<
    Seq<Seq<char>>,
> {
    if m.header.msg_type == Type::Signal && (m.header.interface matches Some(i) && i@
        == BUS_INTERFACE@) && (m.header.member matches Some(n) && n@ == member) {
        match decoded_fields(m.header.endian, false, 0, views(m.header.signature@), m.body) {
            Ok((values, _)) => if values.len() == count {
                texts_in(values)
            } else {
                None
            },
            Err(_) => None,
        }
    } else {
        None
    }
}

/// The strings in the signal `member` of the bus: see [`signalled`].
pub fn read_signal(signal: &Message, member: &str, count: usize) -> (r: Option<Vec<String>>)
    ensures
        match signalled(signal@, member@, count as nat) {
            Some(texts) => r matches Some(found) && found@.len() == texts.len() && forall|i: int|
                0 <= i < texts.len() ==> (#[trigger] found@[i])@ == texts[i],
            None => r is None,
        },
{
    let header = signal.header();
    match header.message_type() {
        Type::Signal => {},
        _ => {
            return None;
        },
    }
    match header.interface() {
        Some(i) => {
            if !str_eq(i.as_str(), BUS_INTERFACE) {
                return None;
            }
        },
        None => {
            return None;
        },
    }
    match header.member() {
        Some(n) => {
            if !str_eq(n.as_str(), member) {
                return None;
            }
        },
        None => {
            return None;
        },
    }
    let values = match signal.body_values() {
        Ok(values) => values,
        Err(_) => {
            return None;
        },
    };
    if values.len() != count {
        return None;
    }
    read_texts(&values)
}

/// A name has changed hands: the name, who owned it, and who owns it now.
/// An empty owner stands for nobody.
#[derive(Debug, PartialEq, Eq)]
pub struct NameOwnerChanged {
    pub name: String,
    pub old_owner: String,
    pub new_owner: String,
}

/// What the signal `NameOwnerChanged` says, if the message is that signal.
pub fn name_owner_changed(signal: &Message) -> (r: Option<NameOwnerChanged>)
    ensures
        match signalled(signal@, "NameOwnerChanged"@, 3) {
            Some(texts) => r matches Some(change) && change.name@ == texts[0]
                && change.old_owner@ == texts[1] && change.new_owner@ == texts[2],
            None => r is None,
        },
{
    match read_signal(signal, "NameOwnerChanged", 3) {
        Some(mut found) => {
            let new_owner = found.remove(2);
            let old_owner = found.remove(1);
            let name = found.remove(0);
            Some(NameOwnerChanged { name, old_owner, new_owner })
        },
        None => None,
    }
}

/// The name that the signal `NameAcquired` tells the connection it owns
/// now, if the message is that signal.
pub fn name_acquired(signal: &Message) -> (r: Option<String>)
    ensures
        match signalled(signal@, "NameAcquired"@, 1) {
            Some(texts) => r matches Some(name) && name@ == texts[0],
            None => r is None,
        },
{
    match read_signal(signal, "NameAcquired", 1) {
        Some(mut found) => Some(found.remove(0)),
        None => None,
    }
}

/// The name that the signal `NameLost` tells the connection it owns no
/// more, if the message is that signal.
pub fn name_lost(signal: &Message) -> (r: Option<String>)
    ensures
        match signalled(signal@, "NameLost"@, 1) {
            Some(texts) => r matches Some(name) && name@ == texts[0],
            None => r is None,
        },
{
    match read_signal(signal, "NameLost", 1) {
        Some(mut found) => Some(found.remove(0)),
        None => None,
    }
}

} // verus!
