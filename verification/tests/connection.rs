use zbus::connection::{has_fd, next_serial, Connection, Inbound, Outbound, State};
use zbus::error::Error;
use zbus::message::{Message, Type};
use zbus::wire::signature::Signature;
use zbus::wire::value::Value;

fn call(member: &str) -> Message {
    Message::method_call("/org/example", member).unwrap().build(&vec![]).unwrap()
}

fn reply_to(serial: u32) -> Message {
    let c = call("X").with_serial(serial).unwrap();
    Message::method_return(c.header()).unwrap().build(&vec![]).unwrap()
}

fn hello_reply(serial: u32, name: &str) -> Message {
    let c = call("Hello").with_serial(serial).unwrap();
    Message::method_return(c.header())
        .unwrap()
        .build(&vec![Value::Str(name.to_string())])
        .unwrap()
}

fn ready() -> Connection {
    let mut c = Connection::new();
    c.authenticated(true).unwrap();
    let hello = c.hello().unwrap();
    match c.receive(hello_reply(hello.header().serial(), ":1.42")) {
        Inbound::Ready { released } => assert!(released.is_empty()),
        _ => panic!("not ready"),
    }
    c
}

#[test]
fn serial_after_the_largest_is_one() {
    assert_eq!(next_serial(0), 1);
    assert_eq!(next_serial(41), 42);
    assert_eq!(next_serial(u32::MAX - 1), u32::MAX);
    assert_eq!(next_serial(u32::MAX), 1);
    let mut c = Connection::new();
    assert_eq!(c.next_serial(), 1);
    assert_eq!(c.next_serial(), 2);
}

#[test]
fn startup_goes_through_its_stations() {
    let mut c = Connection::new();
    assert_eq!(c.state(), State::Connecting);
    assert_eq!(c.unique_name(), None);
    assert!(matches!(c.hello(), Err(Error::Handshake(_))));
    c.authenticated(false).unwrap();
    assert_eq!(c.state(), State::Authenticated);
    assert!(matches!(c.authenticated(false), Err(Error::Handshake(_))));
    let hello = c.hello().unwrap();
    assert_eq!(c.state(), State::Helloing);
    assert_eq!(hello.message_type(), Type::MethodCall);
    assert_eq!(hello.header().serial(), 1);
    assert_eq!(hello.header().path().unwrap().as_str(), "/org/freedesktop/DBus");
    assert_eq!(hello.header().interface().unwrap().as_str(), "org.freedesktop.DBus");
    assert_eq!(hello.header().member().unwrap().as_str(), "Hello");
    assert_eq!(hello.header().destination(), Some("org.freedesktop.DBus"));
    assert!(hello.body().is_empty());
    assert!(matches!(c.hello(), Err(Error::Handshake(_))));
    match c.receive(hello_reply(1, ":1.42")) {
        Inbound::Ready { released } => assert!(released.is_empty()),
        _ => panic!("not ready"),
    }
    assert_eq!(c.state(), State::Ready);
    assert_eq!(c.unique_name(), Some(":1.42"));
}

#[test]
fn nothing_goes_out_before_hello_is_answered() {
    let mut c = Connection::new();
    assert!(matches!(c.send(call("Early")), Ok(Outbound::Queued)));
    c.authenticated(true).unwrap();
    assert!(matches!(c.send(call("Earlier")), Ok(Outbound::Queued)));
    let hello = c.hello().unwrap();
    assert_eq!(hello.header().serial(), 3);
    let (serial, out) = c.call(call("Waiting")).unwrap();
    assert_eq!(serial, 4);
    assert!(matches!(out, Outbound::Queued));
    // a signal that comes in meanwhile releases nothing
    let signal = Message::signal("/a", "a.b", "S").unwrap().build(&vec![]).unwrap();
    assert!(matches!(c.receive(signal), Inbound::Signal(_)));
    assert_eq!(c.state(), State::Helloing);
    match c.receive(hello_reply(3, ":1.7")) {
        Inbound::Ready { released } => {
            let members: Vec<String> = released
                .iter()
                .map(|m| m.header().member().unwrap().as_str().to_string())
                .collect();
            assert_eq!(members, vec!["Early", "Earlier", "Waiting"]);
            let serials: Vec<u32> = released.iter().map(|m| m.header().serial()).collect();
            assert_eq!(serials, vec![1, 2, 4]);
        }
        _ => panic!("not ready"),
    }
    assert!(c.is_waiting(4));
    match c.send(call("Late")).unwrap() {
        Outbound::Transmit(m) => assert_eq!(m.header().serial(), 5),
        Outbound::Queued => panic!("held back"),
    }
}

#[test]
fn hello_that_fails_closes_the_connection() {
    let mut c = Connection::new();
    c.authenticated(true).unwrap();
    let hello = c.hello().unwrap();
    c.send(call("Held")).unwrap();
    let failed = Message::error(
        hello.header(),
        "org.freedesktop.DBus.Error.AccessDenied",
    )
    .unwrap()
    .build(&vec![])
    .unwrap();
    assert!(matches!(c.receive(failed), Inbound::Failed(Error::Handshake(_))));
    assert_eq!(c.state(), State::Closing);
    assert!(matches!(c.send(call("After")), Err(Error::Closed)));

    let mut c = Connection::new();
    c.authenticated(true).unwrap();
    c.hello().unwrap();
    assert!(matches!(c.receive(hello_reply(1, "no.unique.name")), Inbound::Failed(_)));
    let mut c = Connection::new();
    c.authenticated(true).unwrap();
    c.hello().unwrap();
    assert!(matches!(c.receive(reply_to(1)), Inbound::Failed(_)));
}

#[test]
fn each_call_gets_its_own_reply() {
    let mut c = ready();
    let (a, _) = c.call(call("A")).unwrap();
    let (b, _) = c.call(call("B")).unwrap();
    let (d, _) = c.call(call("D")).unwrap();
    assert_eq!((a, b, d), (2, 3, 4));
    assert_eq!(c.pending_calls(), 3);
    match c.receive(reply_to(b)) {
        Inbound::Reply { serial, message } => {
            assert_eq!(serial, b);
            assert_eq!(message.header().reply_serial(), Some(b));
        }
        _ => panic!("no reply"),
    }
    assert!(c.is_waiting(a) && !c.is_waiting(b) && c.is_waiting(d));
    // a second reply to the same call finds nobody
    assert!(matches!(c.receive(reply_to(b)), Inbound::Dropped));
    // an error is a reply too
    let asked = call("A").with_serial(a).unwrap();
    let error = Message::error(asked.header(), "a.b.Failed").unwrap().build(&vec![]).unwrap();
    assert!(matches!(c.receive(error), Inbound::Reply { serial, .. } if serial == a));
    assert!(matches!(c.receive(reply_to(d)), Inbound::Reply { serial, .. } if serial == d));
    assert_eq!(c.pending_calls(), 0);
    assert!(matches!(c.receive(reply_to(99)), Inbound::Dropped));
}

#[test]
fn a_cancelled_call_ignores_its_reply() {
    let mut c = ready();
    let (a, _) = c.call(call("A")).unwrap();
    let (b, _) = c.call(call("B")).unwrap();
    assert!(c.cancel(a));
    assert!(!c.cancel(a));
    assert!(matches!(c.receive(reply_to(a)), Inbound::Dropped));
    assert!(matches!(c.receive(reply_to(b)), Inbound::Reply { serial, .. } if serial == b));
}

#[test]
fn incoming_messages_are_sorted() {
    let mut c = ready();
    let signal = Message::signal("/a", "a.b", "S").unwrap().build(&vec![]).unwrap();
    assert!(matches!(c.receive(signal), Inbound::Signal(_)));
    assert!(matches!(c.receive(call("M")), Inbound::Call(_)));
}

#[test]
fn only_calls_wait_for_replies() {
    let mut c = ready();
    let signal = Message::signal("/a", "a.b", "S").unwrap().build(&vec![]).unwrap();
    assert!(matches!(c.call(signal), Err(Error::Failure(_))));
    assert_eq!(c.pending_calls(), 0);
    // the serial was not used up
    assert_eq!(c.call(call("M")).unwrap().0, 2);
}

#[test]
fn closing_fails_every_waiting_call() {
    let mut c = ready();
    let (a, _) = c.call(call("A")).unwrap();
    let (b, _) = c.call(call("B")).unwrap();
    assert_eq!(c.close(), vec![a, b]);
    assert_eq!(c.state(), State::Closing);
    assert_eq!(c.pending_calls(), 0);
    assert!(matches!(c.send(call("X")), Err(Error::Closed)));
    assert!(matches!(c.call(call("X")), Err(Error::Closed)));
    assert!(matches!(c.receive(reply_to(a)), Inbound::Dropped));
    assert!(matches!(c.authenticated(true), Err(Error::Closed)));
    assert!(c.closed().is_empty());
    assert_eq!(c.state(), State::Closed);
    assert!(matches!(c.hello(), Err(Error::Closed)));
    assert!(c.close().is_empty());
    assert_eq!(c.state(), State::Closed);
}

#[test]
fn descriptors_need_the_agreement_of_the_peer() {
    let with_fd = || {
        Message::method_call("/a", "TakeFd").unwrap().build(&vec![Value::Fd(0)]).unwrap()
    };
    let nested = || {
        Message::method_call("/a", "TakeFds")
            .unwrap()
            .build(&vec![Value::Structure(vec![
                Value::U8(1),
                Value::Array(Signature::Fd, vec![]),
            ])])
            .unwrap()
    };
    // the peer refused: the connection works, but descriptors do not travel
    let mut c = Connection::new();
    c.authenticated(false).unwrap();
    c.hello().unwrap();
    assert!(matches!(c.receive(hello_reply(1, ":1.1")), Inbound::Ready { .. }));
    assert!(!c.can_pass_fds());
    assert!(matches!(c.send(with_fd()), Err(Error::Unsupported)));
    assert!(matches!(c.send(nested()), Err(Error::Unsupported)));
    assert!(matches!(c.call(with_fd()), Err(Error::Unsupported)));
    assert!(matches!(c.send(call("Plain")), Ok(Outbound::Transmit(_))));
    // the peer agreed
    let mut c = ready();
    assert!(c.can_pass_fds());
    assert!(matches!(c.send(with_fd()), Ok(Outbound::Transmit(_))));
    assert!(matches!(c.send(nested()), Ok(Outbound::Transmit(_))));
}

#[test]
fn finds_descriptors_in_signatures() {
    for (text, expected) in [
        ("h", true),
        ("ah", true),
        ("a{sh}", true),
        ("(y(sah))", true),
        ("mh", true),
        ("", false),
        ("s", false),
        ("a{sv}", false),
        ("(yua(ss))", false),
    ] {
        assert_eq!(has_fd(&Signature::from_str(text).unwrap()), expected, "{}", text);
    }
}

/// What the bus answers when `Hello` is called a second time.
fn bus_refuses(call: &Message) -> Message {
    Message::error(call.header(), "org.freedesktop.DBus.Error.Failed")
        .unwrap()
        .build(&vec![Value::Str("Already handled an Hello message".to_string())])
        .unwrap()
}

fn second_hello(connection: &mut Connection) -> Result<Message, Error> {
    let hello = Message::method_call("/org/freedesktop/DBus", "Hello")
        .unwrap()
        .destination("org.freedesktop.DBus")
        .unwrap()
        .interface("org.freedesktop.DBus")
        .unwrap()
        .build(&vec![])
        .unwrap();
    let (serial, out) = connection.call(hello)?;
    let sent = match out {
        Outbound::Transmit(m) => m,
        Outbound::Queued => panic!("a ready connection holds nothing back"),
    };
    assert_eq!(sent.header().serial(), serial);
    match connection.receive(bus_refuses(&sent)) {
        Inbound::Reply { serial: answered, message } => {
            assert_eq!(answered, serial);
            match message.message_type() {
                Type::Error => Err(message.into_error()),
                _ => Ok(message),
            }
        }
        _ => panic!("the reply found nobody"),
    }
}

#[test]
fn basic_connection() {
    let mut connection = ready();
    // Hello method is already called during connection creation so subsequent calls are
    // expected to fail but only with a D-Bus error.
    match second_hello(&mut connection) {
        Err(Error::MethodError(_, _)) => (),
        Err(e) => panic!("{:?}", e),

        _ => panic!(),
    };
}

#[test]
fn basic_connection_async() {
    let mut connection = ready();

    match second_hello(&mut connection) {
        Err(Error::MethodError(name, description)) => {
            assert_eq!(name, "org.freedesktop.DBus.Error.Failed");
            assert_eq!(description.as_deref(), Some("Already handled an Hello message"));
        }
        Err(e) => panic!("{:?}", e),

        _ => panic!(),
    };
}

#[test]
fn no_object_manager_signals_before_hello() {
    // The service registers an object below an object manager before the connection is
    // up: the announcement is made at once and held back until the bus has answered Hello.
    let properties = Value::Dict(
        Signature::Str,
        Signature::Variant,
        vec![Value::Structure(vec![
            Value::Str("Test".to_string()),
            Value::Value(Box::new(Value::Str("test".to_string()))),
        ])],
    );
    let interfaces = Value::Dict(
        Signature::Str,
        Signature::from_str("a{sv}").unwrap(),
        vec![Value::Structure(vec![Value::Str("org.example.TestObj".to_string()), properties])],
    );
    let body = vec![
        Value::ObjectPath(
            zbus::names::object_path::ObjectPath::try_from(
                "/org/zbus/NoObjectManagerSignalsBeforeHello/Obj",
            )
            .unwrap(),
        ),
        interfaces,
    ];
    let added = Message::signal(
        "/org/zbus/NoObjectManagerSignalsBeforeHello",
        "org.freedesktop.DBus.ObjectManager",
        "InterfacesAdded",
    )
    .unwrap()
    .build(&body)
    .unwrap();

    let mut c = Connection::new();
    assert!(matches!(c.send(added), Ok(Outbound::Queued)));
    c.authenticated(true).unwrap();
    let hello = c.hello().unwrap();
    assert_eq!(c.unique_name(), None);
    let released = match c.receive(hello_reply(hello.header().serial(), ":1.99")) {
        Inbound::Ready { released } => released,
        _ => panic!("not ready"),
    };
    // the signal goes out only now that the connection has its name
    assert_eq!(c.unique_name(), Some(":1.99"));
    assert_eq!(released.len(), 1);
    let signal = &released[0];
    assert_eq!(signal.header().member().unwrap().as_str(), "InterfacesAdded");
    assert_eq!(
        signal.header().signature,
        vec![Signature::ObjectPath, Signature::from_str("a{sa{sv}}").unwrap()]
    );
    assert_eq!(signal.body_values().unwrap(), body);
}
