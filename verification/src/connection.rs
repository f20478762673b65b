//! The core of a connection: its states, its serial numbers, the calls that
//! wait for their replies, and what becomes of each message that comes in.
//!
//! Nothing here reads or writes a socket. The caller does that: it hands in
//! what happened and is told what to transmit and whom to tell.

use vstd::prelude::*;
use vstd::utf8::{encode_utf8, is_ascii_chars, is_ascii_chars_encode_utf8};
use crate::error::Error;
use crate::message::{description_of, is_bus_name, Header, Message, MessageView, Type};
use crate::names::interface_name::is_interface_name;
use crate::names::member_name::is_member_name;
use crate::names::object_path::is_object_path;
use crate::names::rules::has_dot;
use crate::names::unique_name::{bus_name_bytes, is_unique_name, UniqueName};
use crate::wire::signature::{Signature, SignatureView};

verus! {

/// The stations of a connection, in the order in which it passes them.
#[derive(Clone, Copy, Debug, PartialEq, Eq, Structural)]
pub enum State {
    /// The handshake is under way.
    Connecting,
    /// The handshake is done; nothing was sent yet.
    Authenticated,
    /// `Hello` is sent and its reply is awaited.
    Helloing,
    /// The bus has given the connection its name.
    Ready,
    /// The connection is being taken down.
    Closing,
    /// The connection is gone.
    Closed,
}

/// The serial number that follows `current` on a connection: the counter
/// is 32 bits wide, never yields 0, and wraps from the maximum back to 1.
pub open spec fn spec_next_serial(current: u32) -> u32 {
    if current == u32::MAX {
        1u32
    } else {
        (current + 1) as u32
    }
}

/// The serial number that follows `current`.
pub fn next_serial(current: u32) -> (next: u32)
    ensures
        next == spec_next_serial(current),
        next != 0,
{
    if current == u32::MAX {
        1
    } else {
        current + 1
    }
}

/// The type `sig` has a file descriptor somewhere in it.
pub open spec fn mentions_fd(sig: SignatureView) -> bool
    decreases sig,
{
    match sig {
        SignatureView::Fd => true,
        SignatureView::Array(elem) => mentions_fd(*elem),
        SignatureView::Maybe(elem) => mentions_fd(*elem),
        SignatureView::Dict(key, value) => mentions_fd(*key) || mentions_fd(*value),
        SignatureView::Structure(fields) => any_mentions_fd(fields),
        _ => false,
    }
}

/// One of the types in `fields` has a file descriptor somewhere in it.
pub open spec fn any_mentions_fd(fields: Seq<SignatureView>) -> bool
    decreases fields,
{
    if fields.len() == 0 {
        false
    } else {
        mentions_fd(fields[0]) || any_mentions_fd(fields.drop_first())
    }
}

/// One of the first `k` types of a row has a file descriptor in it exactly
/// when one of the first `k - 1` has, or the last of them.
pub proof fn lemma_any_mentions_fd_push(fields: Seq<SignatureView>, last: SignatureView)
    ensures
        any_mentions_fd(fields.push(last)) == (any_mentions_fd(fields) || mentions_fd(last)),
    decreases fields.len(),
{
    let all = fields.push(last);
    if fields.len() == 0 {
        assert(all[0] == last);
        assert(all.drop_first() =~= seq![]);
        assert(!any_mentions_fd(all.drop_first()));
    } else {
        assert(all[0] == fields[0]);
        assert(all.drop_first() =~= fields.drop_first().push(last));
        lemma_any_mentions_fd_push(fields.drop_first(), last);
    }
}

/// Tells whether the type has a file descriptor somewhere in it.
pub fn has_fd(sig: &Signature) -> (r: bool)
    ensures
        r == mentions_fd(sig@),
    decreases sig, 1nat,
{
    match sig {
        Signature::Fd => true,
        Signature::Array(elem) => has_fd(elem),
        Signature::Maybe(elem) => has_fd(elem),
        Signature::Dict { key, value } => has_fd(key) || has_fd(value),
        Signature::Structure(fields) => {
            proof {
                crate::wire::signature::lemma_structure_view(*fields);
            }
            assert(decreases_to!(sig => sig->Structure_0));
            any_has_fd(fields)
        },
        _ => false,
    }
}

/// Tells whether one of the types has a file descriptor somewhere in it.
pub fn any_has_fd(fields: &Vec<Signature>) -> (r: bool)
    ensures
        r == any_mentions_fd(crate::wire::signature::views(fields@)),
    decreases fields, 0nat,
{
    let ghost all = crate::wire::signature::views(fields@);
    let mut i: usize = 0;
    assert(all.take(0) =~= seq![]);
    while i < fields.len()
        invariant
            i <= fields.len(),
            all == crate::wire::signature::views(fields@),
            !any_mentions_fd(all.take(i as int)),
        decreases fields.len() - i,
    {
        assert(decreases_to!(fields => fields[i as int]));
        let found = has_fd(&fields[i]);
        proof {
            assert(all.take(i + 1) =~= all.take(i as int).push(all[i as int]));
            lemma_any_mentions_fd_push(all.take(i as int), all[i as int]);
        }
        if found {
            proof {
                lemma_any_mentions_fd_grows(all, i + 1);
            }
            return true;
        }
        i += 1;
    }
    assert(all.take(fields.len() as int) =~= all);
    false
}

/// A file descriptor among the first `k` types of a row is one in the row.
pub proof fn lemma_any_mentions_fd_grows(fields: Seq<SignatureView>, k: int)
    requires
        0 <= k <= fields.len(),
        any_mentions_fd(fields.take(k)),
    ensures
        any_mentions_fd(fields),
    decreases fields.len() - k,
{
    if k < fields.len() {
        assert(fields.take(k + 1) =~= fields.take(k).push(fields[k]));
        lemma_any_mentions_fd_push(fields.take(k), fields[k]);
        lemma_any_mentions_fd_grows(fields, k + 1);
    } else {
        assert(fields.take(k) =~= fields);
    }
}

/// The message carries file descriptors: its header counts some, or the
/// signature of its body has one in it.
pub open spec fn carries_fds(m: MessageView) -> bool {
    m.header.unix_fds > 0 || any_mentions_fd(crate::wire::signature::views(m.header.signature@))
}

/// What a connection is.
pub struct ConnectionView {
    pub state: State,
    /// The name that the bus gave the connection.
    pub unique_name: Option<Seq<char>>,
    /// The serial that was handed out last; 0 before the first.
    pub last_serial: u32,
    /// The serial of the `Hello` call; 0 before it is sent.
    pub hello_serial: u32,
    /// The serials of the calls that wait for their replies.
    pub pending: Seq<u32>,
    /// The messages that are held back until the connection is ready, the
    /// oldest first.
    pub queued: Seq<MessageView>,
    /// The peer agreed to pass file descriptors.
    pub fd_passing: bool,
}

impl ConnectionView {
    /// What holds of a connection at all times: no serial waits twice and
    /// the serial 0 never waits; a ready connection has its name and holds
    /// nothing back; a closed one has let go of everything; `Hello` is not
    /// sent before the connection has come that far; and every message that
    /// is held back has its serial.
    pub open spec fn is_sound(self) -> bool {
        &&& self.pending.no_duplicates()
        &&& !self.pending.contains(0u32)
        &&& self.state is Ready ==> self.unique_name is Some && self.queued.len() == 0
        &&& self.state is Closed || self.state is Closing ==> self.pending.len() == 0
            && self.queued.len() == 0
        &&& self.state is Connecting || self.state is Authenticated ==> self.hello_serial == 0
        &&& self.state is Helloing ==> self.hello_serial != 0
        &&& forall|i: int| 0 <= i < self.queued.len() ==> (#[trigger] self.queued[i]).header.serial != 0
    }

    /// The connection has not yet been given its name: it is on the way to
    /// being ready.
    pub open spec fn is_starting(self) -> bool {
        self.state is Connecting || self.state is Authenticated || self.state is Helloing
    }
}

/// The core of a connection.
pub struct Connection {
    state: State,
    unique_name: Option<UniqueName>,
    last_serial: u32,
    hello_serial: u32,
    pending: Vec<u32>,
    queued: Vec<Message>,
    fd_passing: bool,
}

/// What a row of messages is.
pub open spec fn message_views(queue: Seq<Message>) -> Seq<MessageView> {
    Seq::new(queue.len(), |i: int| queue[i]@)
}

impl View for Connection {
    type V = ConnectionView;

    closed spec fn view(&self) -> ConnectionView {
        ConnectionView {
            state: self.state,
            unique_name: match self.unique_name {
                Some(name) => Some(name@),
                None => None,
            },
            last_serial: self.last_serial,
            hello_serial: self.hello_serial,
            pending: self.pending@,
            queued: message_views(self.queued@),
            fd_passing: self.fd_passing,
        }
    }
}

/// What becomes of a message that came in.
pub enum Inbound {
    /// It was the reply to `Hello`: the connection has its name and is
    /// ready. The messages that were held back are to be transmitted now, in
    /// this order.
    Ready { released: Vec<Message> },
    /// It is the reply to the call with this serial, which waits no longer.
    Reply { serial: u32, message: Message },
    /// It is a signal, for every subscriber whose rule matches it.
    Signal(Message),
    /// It is a call, for the object server.
    Call(Message),
    /// `Hello` failed: the connection is closing.
    Failed(Error),
    /// Nobody waits for it.
    Dropped,
}

/// What becomes of a message that is to go out.
pub enum Outbound {
    /// It is to be transmitted now.
    Transmit(Message),
    /// It is held back until the connection is ready.
    Queued,
}

/// The names that `Hello` is called with are names.
#[verifier::rlimit(60)]
#[verifier::spinoff_prover]
pub proof fn lemma_hello_names()
    ensures
        is_object_path(encode_utf8("/org/freedesktop/DBus"@)),
        is_member_name(encode_utf8("Hello"@)),
        is_interface_name(encode_utf8("org.freedesktop.DBus"@)),
        is_bus_name(encode_utf8("org.freedesktop.DBus"@)),
{
    reveal_strlit("/org/freedesktop/DBus");
    let path = "/org/freedesktop/DBus"@;
    assert(is_ascii_chars(path));
    is_ascii_chars_encode_utf8(path);
    assert(encode_utf8(path) =~= seq![
        0x2fu8, 0x6f, 0x72, 0x67, 0x2f, 0x66, 0x72, 0x65, 0x65, 0x64, 0x65, 0x73, 0x6b, 0x74, 0x6f, 0x70,
        0x2f, 0x44, 0x42, 0x75, 0x73,
    ]);
    reveal_strlit("Hello");
    let member = "Hello"@;
    assert(is_ascii_chars(member));
    is_ascii_chars_encode_utf8(member);
    assert(encode_utf8(member) =~= seq![0x48u8, 0x65, 0x6c, 0x6c, 0x6f]);
    assert(!has_dot(encode_utf8(member)));
    reveal_strlit("org.freedesktop.DBus");
    let bus = "org.freedesktop.DBus"@;
    assert(is_ascii_chars(bus));
    is_ascii_chars_encode_utf8(bus);
    assert(encode_utf8(bus) =~= bus_name_bytes());
    assert(encode_utf8(bus)[3] == 0x2e);
}

/// Tells whether `serial` is among `pending`.
fn is_pending(pending: &Vec<u32>, serial: u32) -> (r: Option<usize>)
    ensures
        match r {
            Some(i) => i < pending.len() && pending@[i as int] == serial,
            None => !pending@.contains(serial),
        },
{
    let mut i: usize = 0;
    while i < pending.len()
        invariant
            i <= pending.len(),
            forall|k: int| 0 <= k < i ==> pending@[k] != serial,
        decreases pending.len() - i,
    {
        if pending[i] == serial {
            return Some(i);
        }
        i += 1;
    }
    None
}

/// Taking one serial out of a row without repeats leaves the others, each
/// once.
pub proof fn lemma_remove_pending(pending: Seq<u32>, i: int)
    requires
        pending.no_duplicates(),
        0 <= i < pending.len(),
    ensures
        pending.remove(i).no_duplicates(),
        !pending.remove(i).contains(pending[i]),
        forall|x: u32| x != pending[i] ==> (pending.remove(i).contains(x) <==> pending.contains(x)),
{
    let rest = pending.remove(i);
    assert forall|a: int, b: int| 0 <= a < rest.len() && 0 <= b < rest.len() && a != b implies rest[a]
        != rest[b] by {
        let a0 = if a < i { a } else { a + 1 };
        let b0 = if b < i { b } else { b + 1 };
        assert(rest[a] == pending[a0] && rest[b] == pending[b0]);
    }
    if rest.contains(pending[i]) {
        let k = choose|k: int| 0 <= k < rest.len() && rest[k] == pending[i];
        let k0 = if k < i { k } else { k + 1 };
        assert(rest[k] == pending[k0]);
    }
    assert forall|x: u32| x != pending[i] implies (rest.contains(x) <==> pending.contains(x)) by {
        if rest.contains(x) {
            let k = choose|k: int| 0 <= k < rest.len() && rest[k] == x;
            let k0 = if k < i { k } else { k + 1 };
            assert(pending[k0] == x);
        }
        if pending.contains(x) {
            let k = choose|k: int| 0 <= k < pending.len() && pending[k] == x;
            let k1 = if k < i { k } else { k - 1 };
            assert(rest[k1] == x);
        }
    }
}

impl Connection {
    /// A connection whose handshake is under way.
    pub fn new() -> (c: Connection)
        ensures
            c@.is_sound(),
            c@.state == State::Connecting,
            c@.unique_name is None,
            c@.last_serial == 0,
            c@.hello_serial == 0,
            c@.pending.len() == 0,
            c@.queued.len() == 0,
            !c@.fd_passing,
    {
        let c = Connection {
            state: State::Connecting,
            unique_name: None,
            last_serial: 0,
            hello_serial: 0,
            pending: Vec::new(),
            queued: Vec::new(),
            fd_passing: false,
        };
        assert(message_views(c.queued@) =~= seq![]);
        c
    }

    /// The station that the connection is at.
    pub fn state(&self) -> (r: State)
        ensures
            r == self@.state,
    {
        self.state
    }

    /// The name that the bus gave the connection, once it is ready.
    pub fn unique_name(&self) -> (r: Option<&str>)
        ensures
            match r {
                Some(name) => self@.unique_name == Some(name@),
                None => self@.unique_name is None,
            },
    {
        match &self.unique_name {
            Some(name) => Some(name.as_str()),
            None => None,
        }
    }

    /// The number of calls that wait for their replies.
    pub fn pending_calls(&self) -> (r: usize)
        ensures
            r == self@.pending.len(),
    {
        self.pending.len()
    }

    /// Tells whether the call with this serial waits for its reply.
    pub fn is_waiting(&self, serial: u32) -> (r: bool)
        ensures
            r == self@.pending.contains(serial),
    {
        is_pending(&self.pending, serial).is_some()
    }

    /// Tells whether the peer agreed to pass file descriptors.
    pub fn can_pass_fds(&self) -> (r: bool)
        ensures
            r == self@.fd_passing,
    {
        self.fd_passing
    }

    /// Hands out the next serial: one more than the last, and 1 after the
    /// largest. The serial 0 is never handed out.
    pub fn next_serial(&mut self) -> (serial: u32)
        requires
            old(self)@.is_sound(),
        ensures
            final(self)@.is_sound(),
            serial == spec_next_serial(old(self)@.last_serial),
            serial != 0,
            final(self)@ == (ConnectionView { last_serial: serial, ..old(self)@ }),
    {
        let serial = next_serial(self.last_serial);
        self.last_serial = serial;
        serial
    }

    /// Records that the handshake succeeded, and whether the peer agreed to
    /// pass file descriptors. Fails, and changes nothing, where the
    /// connection is not waiting for its handshake.
    pub fn authenticated(&mut self, fd_passing: bool) -> (r: Result<(), Error>)
        requires
            old(self)@.is_sound(),
        ensures
            final(self)@.is_sound(),
            match r {
                Ok(()) => old(self)@.state == State::Connecting && final(self)@ == (ConnectionView {
                    state: State::Authenticated,
                    fd_passing,
                    ..old(self)@
                }),
                Err(e) => old(self)@.state != State::Connecting && final(self)@ == old(self)@ && (
                if old(self)@.state is Closed || old(self)@.state is Closing {
                    e == Error::Closed
                } else {
                    e matches Error::Handshake(_)
                }),
            },
    {
        match self.state {
            State::Connecting => {
                self.state = State::Authenticated;
                self.fd_passing = fd_passing;
                Ok(())
            },
            State::Closing | State::Closed => Err(Error::Closed),
            _ => Err(Error::Handshake("the handshake is done already".to_owned())),
        }
    }

    /// Makes the `Hello` call, the first message of every connection, for
    /// the caller to transmit. Fails, and changes nothing, where the
    /// connection is not at the point of sending it.
    #[verifier::rlimit(60)]
    #[verifier::spinoff_prover]
    pub fn hello(&mut self) -> (r: Result<Message, Error>)
        requires
            old(self)@.is_sound(),
        ensures
            final(self)@.is_sound(),
            match r {
                Ok(m) => {
                    &&& old(self)@.state == State::Authenticated
                    &&& is_hello(m@)
                    &&& m@.header.serial == spec_next_serial(old(self)@.last_serial)
                    &&& final(self)@ == (ConnectionView {
                        state: State::Helloing,
                        last_serial: m@.header.serial,
                        hello_serial: m@.header.serial,
                        ..old(self)@
                    })
                },
                Err(e) => old(self)@.state != State::Authenticated && final(self)@ == old(self)@
                    && (if old(self)@.state is Closed || old(self)@.state is Closing {
                    e == Error::Closed
                } else {
                    e matches Error::Handshake(_)
                }),
            },
    {
        proof {
            lemma_hello_names();
        }
        match self.state {
            State::Authenticated => {},
            State::Closing | State::Closed => {
                return Err(Error::Closed);
            },
            _ => {
                return Err(Error::Handshake("Hello is sent once, after the handshake".to_owned()));
            },
        }
        let builder = match Message::method_call("/org/freedesktop/DBus", "Hello") {
            Ok(b) => b,
            Err(e) => {
                return Err(e);
            },
        };
        let builder = match builder.destination("org.freedesktop.DBus") {
            Ok(b) => b,
            Err(e) => {
                return Err(e);
            },
        };
        let builder = match builder.interface("org.freedesktop.DBus") {
            Ok(b) => b,
            Err(e) => {
                return Err(e);
            },
        };
        let body: Vec<crate::wire::value::Value> = Vec::new();
        proof {
            let none = crate::wire::value::value_trees(body@);
            assert(none =~= seq![]);
            assert(crate::wire::dbus::encoded_row(builder@.endian, 0, none) =~= seq![]);
            assert(crate::wire::value::signatures(none) =~= seq![]);
            assert(crate::wire::signature::texts(crate::wire::value::signatures(none)) =~= seq![]);
        }
        let message = match builder.build(&body) {
            Ok(m) => m,
            Err(e) => {
                return Err(e);
            },
        };
        let serial = next_serial(self.last_serial);
        let message = match message.with_serial(serial) {
            Ok(m) => m,
            Err(e) => {
                return Err(e);
            },
        };
        self.last_serial = serial;
        self.hello_serial = serial;
        self.state = State::Helloing;
        Ok(message)
    }

    /// Takes a message that is to go out. The message gets the next serial.
    /// A ready connection hands it back to be transmitted; a connection on
    /// the way to being ready holds it back, so that nothing goes out before
    /// `Hello` is answered.
    ///
    /// A connection that is closing or closed takes nothing, and a message
    /// with file descriptors is refused where the peer did not agree to pass
    /// them; neither changes the connection.
    #[verifier::rlimit(60)]
    #[verifier::spinoff_prover]
    pub fn send(&mut self, message: Message) -> (r: Result<Outbound, Error>)
        requires
            old(self)@.is_sound(),
        ensures
            final(self)@.is_sound(),
            match r {
                Ok(Outbound::Transmit(m)) => {
                    &&& old(self)@.state == State::Ready
                    &&& m@ == stamped(message@, spec_next_serial(old(self)@.last_serial))
                    &&& final(self)@ == (ConnectionView {
                        last_serial: m@.header.serial,
                        ..old(self)@
                    })
                },
                Ok(Outbound::Queued) => {
                    &&& old(self)@.is_starting()
                    &&& final(self)@ == (ConnectionView {
                        last_serial: spec_next_serial(old(self)@.last_serial),
                        queued: old(self)@.queued.push(
                            stamped(message@, spec_next_serial(old(self)@.last_serial)),
                        ),
                        ..old(self)@
                    })
                },
                Err(e) => final(self)@ == old(self)@ && (if old(self)@.state is Closed
                    || old(self)@.state is Closing {
                    e == Error::Closed
                } else {
                    carries_fds(message@) && !old(self)@.fd_passing && e == Error::Unsupported
                }),
            },
            (old(self)@.state is Ready || old(self)@.is_starting()) && (!carries_fds(message@)
                || old(self)@.fd_passing) ==> r is Ok,
    {
        match self.state {
            State::Closing | State::Closed => {
                return Err(Error::Closed);
            },
            _ => {},
        }
        if !self.fd_passing && (message.header().unix_fds > 0 || any_has_fd(
            &message.header().signature,
        )) {
            return Err(Error::Unsupported);
        }
        let serial = next_serial(self.last_serial);
        let ghost before = message@;
        let message = match message.with_serial(serial) {
            Ok(m) => m,
            Err(e) => {
                return Err(e);
            },
        };
        self.last_serial = serial;
        match self.state {
            State::Ready => Ok(Outbound::Transmit(message)),
            _ => {
                let ghost held = message_views(self.queued@);
                self.queued.push(message);
                assert(message_views(self.queued@) =~= held.push(stamped(before, serial)));
                Ok(Outbound::Queued)
            },
        }
    }

    /// Takes a call that is to go out, like [`Connection::send`], and notes
    /// that its reply is awaited. Gives the serial of the call, by which the
    /// reply will be known.
    ///
    /// A message that is no call is refused, and so is every call while the
    /// next serial still waits for its reply; beyond that, a call is refused
    /// where [`Connection::send`] refuses a message, and only there.
    #[verifier::rlimit(60)]
    #[verifier::spinoff_prover]
    pub fn call(&mut self, message: Message) -> (r: Result<(u32, Outbound), Error>)
        requires
            old(self)@.is_sound(),
        ensures
            final(self)@.is_sound(),
            match r {
                Ok((serial, out)) => {
                    &&& message@.header.msg_type == Type::MethodCall
                    &&& serial == spec_next_serial(old(self)@.last_serial)
                    &&& !old(self)@.pending.contains(serial)
                    &&& final(self)@.pending == old(self)@.pending.push(serial)
                    &&& final(self)@.last_serial == serial
                    &&& final(self)@.state == old(self)@.state
                    &&& match out {
                        Outbound::Transmit(m) => old(self)@.state == State::Ready && m@ == stamped(
                            message@,
                            serial,
                        ) && final(self)@.queued == old(self)@.queued,
                        Outbound::Queued => old(self)@.is_starting() && final(self)@.queued
                            == old(self)@.queued.push(stamped(message@, serial)),
                    }
                },
                Err(e) => final(self)@ == old(self)@ && (if message@.header.msg_type
                    != Type::MethodCall || old(self)@.pending.contains(
                    spec_next_serial(old(self)@.last_serial),
                ) {
                    e matches Error::Failure(_)
                } else if old(self)@.state is Closed || old(self)@.state is Closing {
                    e == Error::Closed
                } else {
                    carries_fds(message@) && !old(self)@.fd_passing && e == Error::Unsupported
                }),
            },
            message@.header.msg_type == Type::MethodCall && !old(self)@.pending.contains(
                spec_next_serial(old(self)@.last_serial),
            ) && (old(self)@.state is Ready || old(self)@.is_starting()) && (!carries_fds(message@)
                || old(self)@.fd_passing) ==> r is Ok,
    {
        match message.message_type() {
            Type::MethodCall => {},
            _ => {
                return Err(Error::Failure("only a call waits for a reply".to_owned()));
            },
        }
        let serial = next_serial(self.last_serial);
        if is_pending(&self.pending, serial).is_some() {
            return Err(Error::Failure("the next serial still waits for its reply".to_owned()));
        }
        match self.state {
            State::Closing | State::Closed => {
                return Err(Error::Closed);
            },
            _ => {},
        }
        if !self.fd_passing && (message.header().unix_fds > 0 || any_has_fd(
            &message.header().signature,
        )) {
            return Err(Error::Unsupported);
        }
        let ghost before = message@;
        let message = match message.with_serial(serial) {
            Ok(m) => m,
            Err(e) => {
                return Err(e);
            },
        };
        self.last_serial = serial;
        let ghost waiting = self.pending@;
        self.pending.push(serial);
        proof {
            assert forall|a: int, b: int|
                0 <= a < self.pending@.len() && 0 <= b < self.pending@.len() && a
                    != b implies self.pending@[a] != self.pending@[b] by {
                if a < waiting.len() && b < waiting.len() {
                    assert(waiting[a] != waiting[b]);
                } else if a < waiting.len() {
                    assert(waiting.contains(waiting[a]));
                } else if b < waiting.len() {
                    assert(waiting.contains(waiting[b]));
                }
            }
            if self.pending@.contains(0u32) {
                let k = choose|k: int| 0 <= k < self.pending@.len() && self.pending@[k] == 0u32;
                if k < waiting.len() {
                    assert(waiting[k] == 0u32);
                }
            }
        }
        match self.state {
            State::Ready => Ok((serial, Outbound::Transmit(message))),
            _ => {
                let ghost held = message_views(self.queued@);
                self.queued.push(message);
                assert(message_views(self.queued@) =~= held.push(stamped(before, serial)));
                Ok((serial, Outbound::Queued))
            },
        }
    }

    /// Forgets the call with this serial: its reply, should it still come,
    /// is dropped. Tells whether the call was waiting.
    pub fn cancel(&mut self, serial: u32) -> (r: bool)
        requires
            old(self)@.is_sound(),
        ensures
            final(self)@.is_sound(),
            r == old(self)@.pending.contains(serial),
            !final(self)@.pending.contains(serial),
            forall|other: u32|
                other != serial ==> (final(self)@.pending.contains(other) <==> old(
                    self,
                )@.pending.contains(other)),
            final(self)@ == (ConnectionView { pending: final(self)@.pending, ..old(self)@ }),
    {
        match is_pending(&self.pending, serial) {
            Some(i) => {
                proof {
                    lemma_remove_pending(self.pending@, i as int);
                }
                self.pending.remove(i);
                true
            },
            None => false,
        }
    }

    /// Takes a message that came in and says what becomes of it.
    ///
    /// - The reply to `Hello` makes the connection ready: the string in it
    ///   is the name of the connection, and the messages that were held back
    ///   are released in the order in which they were taken. A reply to
    ///   `Hello` that is an error, or that brings no name, closes the
    ///   connection.
    /// - Any other reply goes to the call whose serial it names, which then
    ///   waits no longer. A reply that names no waiting call is dropped.
    /// - A signal is for the subscribers, a call for the object server.
    /// - A connection that is closing or closed drops everything.
    #[verifier::rlimit(60)]
    #[verifier::spinoff_prover]
    pub fn receive(&mut self, message: Message) -> (r: Inbound)
        requires
            old(self)@.is_sound(),
        ensures
            final(self)@.is_sound(),
            receives(old(self)@, message@, final(self)@, r),
    {
        match self.state {
            State::Closing | State::Closed => {
                return Inbound::Dropped;
            },
            _ => {},
        }
        let kind = message.message_type();
        match kind {
            Type::Signal => {
                return Inbound::Signal(message);
            },
            Type::MethodCall => {
                return Inbound::Call(message);
            },
            _ => {},
        }
        let serial = match message.header().reply_serial {
            Some(serial) => serial,
            None => {
                return Inbound::Dropped;
            },
        };
        let helloing = match self.state {
            State::Helloing => serial == self.hello_serial,
            _ => false,
        };
        if helloing {
            let name = match kind {
                Type::MethodReturn => match message.description() {
                    Some(text) => match UniqueName::try_from_string(text) {
                        Ok(name) => Some(name),
                        Err(_) => None,
                    },
                    None => None,
                },
                _ => None,
            };
            match name {
                Some(name) => {
                    self.unique_name = Some(name);
                    self.state = State::Ready;
                    let mut released: Vec<Message> = Vec::new();
                    core::mem::swap(&mut released, &mut self.queued);
                    assert(message_views(self.queued@) =~= seq![]);
                    return Inbound::Ready { released };
                },
                None => {
                    self.state = State::Closing;
                    self.pending = Vec::new();
                    self.queued = Vec::new();
                    assert(message_views(self.queued@) =~= seq![]);
                    return Inbound::Failed(
                        Error::Handshake("the bus did not answer Hello with a name".to_owned()),
                    );
                },
            }
        }
        match is_pending(&self.pending, serial) {
            Some(i) => {
                proof {
                    lemma_remove_pending(self.pending@, i as int);
                }
                self.pending.remove(i);
                Inbound::Reply { serial, message }
            },
            None => Inbound::Dropped,
        }
    }

    /// Starts taking the connection down, for whatever reason. Gives the
    /// serials of the calls that were waiting; each of them ends with the
    /// error that the connection is closed. Nothing waits and nothing is
    /// held back afterwards.
    pub fn close(&mut self) -> (failed: Vec<u32>)
        requires
            old(self)@.is_sound(),
        ensures
            final(self)@.is_sound(),
            failed@ == old(self)@.pending,
            final(self)@ == (ConnectionView {
                state: if old(self)@.state is Closed {
                    State::Closed
                } else {
                    State::Closing
                },
                pending: Seq::empty(),
                queued: Seq::empty(),
                ..old(self)@
            }),
    {
        let mut failed: Vec<u32> = Vec::new();
        core::mem::swap(&mut failed, &mut self.pending);
        self.queued = Vec::new();
        assert(message_views(self.queued@) =~= seq![]);
        match self.state {
            State::Closed => {},
            _ => {
                self.state = State::Closing;
            },
        }
        assert(self.pending@ =~= Seq::<u32>::empty());
        failed
    }

    /// Records that the connection is gone.
    pub fn closed(&mut self) -> (failed: Vec<u32>)
        requires
            old(self)@.is_sound(),
        ensures
            final(self)@.is_sound(),
            failed@ == old(self)@.pending,
            final(self)@ == (ConnectionView {
                state: State::Closed,
                pending: Seq::empty(),
                queued: Seq::empty(),
                ..old(self)@
            }),
    {
        let failed = self.close();
        self.state = State::Closed;
        failed
    }
}

/// The message `m` with the serial that a connection gave it.
pub open spec fn stamped(m: MessageView, serial: u32) -> MessageView {
    MessageView { header: Header { serial, ..m.header }, ..m }
}

/// The message `m` is a call of `Hello` on the bus.
pub open spec fn is_hello(m: MessageView) -> bool {
    &&& m.header.msg_type == Type::MethodCall
    &&& m.header.path matches Some(p) && p@ == "/org/freedesktop/DBus"@
    &&& m.header.member matches Some(name) && name@ == "Hello"@
    &&& m.header.interface matches Some(i) && i@ == "org.freedesktop.DBus"@
    &&& m.header.destination matches Some(d) && d@ == "org.freedesktop.DBus"@
    &&& m.body.len() == 0
}

/// The name that a reply to `Hello` gives the connection: the string in a
/// return, where it is a unique name.
pub open spec fn hello_name(m: MessageView) -> Option<Seq<char>> {
    if m.header.msg_type == Type::MethodReturn {
        match description_of(m) {
            Some(text) => if is_unique_name(encode_utf8(text)) {
                Some(text)
            } else {
                None
            },
            None => None,
        }
    } else {
        None
    }
}

/// Taking the message `m` in leads the connection from `before` to `after`
/// and gives `r`.
pub open spec fn receives(
    before: ConnectionView,
    m: MessageView,
    after: ConnectionView,
    r: Inbound,
) -> bool {
    if before.state is Closing || before.state is Closed {
        r is Dropped && after == before
    } else if m.header.msg_type == Type::Signal {
        r matches Inbound::Signal(s) && s@ == m && after == before
    } else if m.header.msg_type == Type::MethodCall {
        r matches Inbound::Call(c) && c@ == m && after == before
    } else if m.header.reply_serial is None {
        r is Dropped && after == before
    } else if before.state is Helloing && m.header.reply_serial == Some(before.hello_serial) {
        match hello_name(m) {
            Some(name) => {
                &&& r matches Inbound::Ready { released }
                &&& message_views(released@) == before.queued
                &&& after == (ConnectionView {
                    state: State::Ready,
                    unique_name: Some(name),
                    queued: Seq::empty(),
                    ..before
                })
            },
            None => {
                &&& r matches Inbound::Failed(e)
                &&& e matches Error::Handshake(_)
                &&& after == (ConnectionView {
                    state: State::Closing,
                    pending: Seq::empty(),
                    queued: Seq::empty(),
                    ..before
                })
            },
        }
    } else if before.pending.contains(m.header.reply_serial->0) {
        &&& r matches Inbound::Reply { serial, message }
        &&& Some(serial) == m.header.reply_serial
        &&& message@ == m
        &&& !after.pending.contains(serial)
        &&& forall|other: u32|
            other != serial ==> (after.pending.contains(other) <==> before.pending.contains(other))
        &&& after == (ConnectionView { pending: after.pending, ..before })
    } else {
        r is Dropped && after == before
    }
}

/// Replies are never crossed: a reply is handed to the call whose serial it
/// names and to no other, and every other call goes on waiting.
pub proof fn lemma_replies_are_not_crossed(
    before: ConnectionView,
    m: MessageView,
    after: ConnectionView,
    r: Inbound,
    other: u32,
)
    requires
        before.is_sound(),
        receives(before, m, after, r),
        before.pending.contains(other),
        r matches Inbound::Reply { serial, message },
    ensures
        r matches Inbound::Reply { serial, message } && message@.header.reply_serial == Some(
            serial,
        ) && before.pending.contains(serial) && (other != serial ==> after.pending.contains(
            other,
        )) && !after.pending.contains(serial),
{
}

/// Nothing goes out before `Hello` is answered: a connection on the way to
/// being ready never hands a message back to be transmitted, and the
/// messages it held back are released, all of them and in their order, by
/// the reply to `Hello` and by nothing else.
pub proof fn lemma_nothing_before_hello(
    before: ConnectionView,
    m: MessageView,
    after: ConnectionView,
    r: Inbound,
)
    requires
        before.is_sound(),
        receives(before, m, after, r),
    ensures
        r matches Inbound::Ready { released } ==> before.state is Helloing && after.state
            is Ready && after.unique_name is Some && message_views(released@) == before.queued,
        before.is_starting() && !(r is Ready) ==> after.queued == before.queued
            || after.state is Closing,
        after.state is Ready ==> before.state is Ready || r is Ready,
{
}

} // verus!
