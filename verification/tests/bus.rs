use zbus::connection::{Connection, Inbound, Outbound};
use zbus::error::Error;
use zbus::fdo::dbus::{
    add_match, call, get_connection_credentials, get_id, get_name_owner, list_activatable_names,
    list_names, start_service_by_name,
    name_acquired, name_has_owner, name_lost, name_owner_changed, read_bool, read_names,
    read_one, read_text, read_u32, release_name, release_name_reply, remove_match, request_name,
    request_name_reply, start_service_reply, NameOwnerChanged, ReleaseNameReply,
    RequestNameFlags, RequestNameReply, StartServiceReply,
};
use zbus::match_rule::MatchRule;
use zbus::message::{Message, Type};
use zbus::names::well_known_name::WellKnownName;
use zbus::subscriptions::Subscriptions;
use zbus::wire::signature::Signature;
use zbus::wire::value::Value;

const BUS: &str = "org.freedesktop.DBus";

fn answer(call: &Message, body: Vec<Value>) -> Message {
    Message::method_return(call.header())
        .unwrap()
        .sender(BUS)
        .unwrap()
        .build(&body)
        .unwrap()
        .with_serial(77)
        .unwrap()
}

fn refusal(call: &Message, name: &str, text: &str) -> Message {
    Message::error(call.header(), name)
        .unwrap()
        .sender(BUS)
        .unwrap()
        .build(&vec![Value::Str(text.to_string())])
        .unwrap()
        .with_serial(78)
        .unwrap()
}

fn bus_signal(member: &str, texts: &[&str]) -> Message {
    Message::signal("/org/freedesktop/DBus", BUS, member)
        .unwrap()
        .sender(BUS)
        .unwrap()
        .build(&texts.iter().map(|t| Value::Str(t.to_string())).collect())
        .unwrap()
        .with_serial(5)
        .unwrap()
}

fn sent(m: Message, from: &str, serial: u32) -> Message {
    // as the bus sees it: with the serial and the name of the connection
    let bytes = m.with_serial(serial).unwrap().to_bytes().unwrap();
    let (read, _) = Message::from_bytes(&bytes, vec![]).unwrap();
    let values = read.body_values().unwrap();
    let h = read.header();
    let mut b = Message::method_call(h.path().unwrap().as_str(), h.member().unwrap().as_str())
        .unwrap()
        .sender(from)
        .unwrap();
    if let Some(d) = h.destination() {
        b = b.destination(d).unwrap();
    }
    if let Some(i) = h.interface() {
        b = b.interface(i.as_str()).unwrap();
    }
    b.build(&values).unwrap().with_serial(serial).unwrap()
}

fn ready() -> Connection {
    let mut c = Connection::new();
    c.authenticated(true).unwrap();
    let hello = c.hello().unwrap();
    let reply = answer(&hello, vec![Value::Str(":1.42".to_string())]);
    match c.receive(reply) {
        Inbound::Ready { .. } => c,
        _ => panic!("not ready"),
    }
}

fn asked(c: &mut Connection, m: Message, body: Vec<Value>) -> Message {
    let (serial, out) = c.call(m).unwrap();
    let out = match out {
        Outbound::Transmit(m) => m,
        Outbound::Queued => panic!("a ready connection holds nothing back"),
    };
    assert_eq!(out.header().serial(), serial);
    let reply = answer(&sent_as_is(&out), body);
    match c.receive(reply) {
        Inbound::Reply { serial: answered, message } => {
            assert_eq!(answered, serial);
            message
        }
        _ => panic!("the reply found nobody"),
    }
}

fn sent_as_is(m: &Message) -> Message {
    let bytes = m.to_bytes().unwrap();
    Message::from_bytes(&bytes, vec![]).unwrap().0
}

#[test]
fn a_request_for_a_name_is_a_call_on_the_bus() {
    let name = WellKnownName::try_from("org.example.T").unwrap();
    let m = request_name(&name, RequestNameFlags::ReplaceExisting.bits()).unwrap();
    let h = m.header();
    assert_eq!(h.message_type(), Type::MethodCall);
    assert_eq!(h.destination(), Some(BUS));
    assert_eq!(h.path().unwrap().as_str(), "/org/freedesktop/DBus");
    assert_eq!(h.interface().unwrap().as_str(), BUS);
    assert_eq!(h.member().unwrap().as_str(), "RequestName");
    assert_eq!(h.signature, vec![Signature::Str, Signature::U32]);
    assert_eq!(
        m.body_values().unwrap(),
        vec![Value::Str("org.example.T".to_string()), Value::U32(2)]
    );
    assert_eq!(
        m.body(),
        &[
            13u8, 0, 0, 0, b'o', b'r', b'g', b'.', b'e', b'x', b'a', b'm', b'p', b'l', b'e',
            b'.', b'T', 0, 0, 0, 2, 0, 0, 0
        ][..]
    );
}

#[test]
fn the_flags_of_a_request_are_bits() {
    assert_eq!(RequestNameFlags::AllowReplacement.bits(), 1);
    assert_eq!(RequestNameFlags::ReplaceExisting.bits(), 2);
    assert_eq!(RequestNameFlags::DoNotQueue.bits(), 4);
}

#[test]
fn the_calls_of_the_bus_name_their_methods() {
    let name = WellKnownName::try_from("org.example.T").unwrap();
    let member = |m: Message| m.header().member().unwrap().as_str().to_string();
    assert_eq!(member(release_name(&name).unwrap()), "ReleaseName");
    assert_eq!(member(add_match("type='signal'").unwrap()), "AddMatch");
    assert_eq!(member(remove_match("type='signal'").unwrap()), "RemoveMatch");
    assert_eq!(member(get_name_owner("org.example.T").unwrap()), "GetNameOwner");
    assert_eq!(member(name_has_owner("org.example.T").unwrap()), "NameHasOwner");
    assert_eq!(
        member(get_connection_credentials(BUS).unwrap()),
        "GetConnectionCredentials"
    );
    assert_eq!(member(list_names().unwrap()), "ListNames");
    assert_eq!(member(list_activatable_names().unwrap()), "ListActivatableNames");
    let start = start_service_by_name(&name, 0).unwrap();
    assert_eq!(
        start.body_values().unwrap(),
        vec![Value::Str("org.example.T".to_string()), Value::U32(0)]
    );
    assert_eq!(member(start), "StartServiceByName");
    assert_eq!(member(get_id().unwrap()), "GetId");
    let m = add_match("type='signal'").unwrap();
    assert_eq!(m.body_values().unwrap(), vec![Value::Str("type='signal'".to_string())]);
    assert!(list_names().unwrap().body().is_empty());
}

#[test]
fn a_method_that_is_no_name_is_not_called() {
    assert!(matches!(call("No.Dots", &vec![]), Err(Error::InvalidName(_))));
    assert!(matches!(call("", &vec![]), Err(Error::InvalidName(_))));
}

#[test]
fn the_answers_of_the_bus_are_read_by_their_numbers() {
    let name = WellKnownName::try_from("org.example.T").unwrap();
    let asked = sent(request_name(&name, 2).unwrap(), ":1.42", 3);
    let replies = [
        (1, Ok(RequestNameReply::PrimaryOwner)),
        (2, Ok(RequestNameReply::InQueue)),
        (3, Ok(RequestNameReply::Exists)),
        (4, Ok(RequestNameReply::AlreadyOwner)),
        (0, Err(Error::InvalidReply)),
        (5, Err(Error::InvalidReply)),
    ];
    for (code, expected) in replies {
        assert_eq!(request_name_reply(&answer(&asked, vec![Value::U32(code)])), expected);
    }
    let replies = [
        (1, Ok(ReleaseNameReply::Released)),
        (2, Ok(ReleaseNameReply::NonExistent)),
        (3, Ok(ReleaseNameReply::NotOwner)),
        (4, Err(Error::InvalidReply)),
    ];
    for (code, expected) in replies {
        assert_eq!(release_name_reply(&answer(&asked, vec![Value::U32(code)])), expected);
    }
    let replies = [
        (1, Ok(StartServiceReply::Success)),
        (2, Ok(StartServiceReply::AlreadyRunning)),
        (3, Err(Error::InvalidReply)),
    ];
    for (code, expected) in replies {
        assert_eq!(start_service_reply(&answer(&asked, vec![Value::U32(code)])), expected);
    }
}

#[test]
fn an_answer_of_another_shape_is_no_reply() {
    let asked = sent(get_id().unwrap(), ":1.42", 3);
    assert_eq!(read_u32(&answer(&asked, vec![])), Err(Error::InvalidReply));
    assert_eq!(
        read_u32(&answer(&asked, vec![Value::U32(1), Value::U32(2)])),
        Err(Error::InvalidReply)
    );
    assert_eq!(read_u32(&answer(&asked, vec![Value::Bool(true)])), Err(Error::InvalidReply));
    assert_eq!(read_bool(&answer(&asked, vec![Value::U32(1)])), Err(Error::InvalidReply));
    assert_eq!(read_text(&answer(&asked, vec![Value::U32(1)])), Err(Error::InvalidReply));
    assert_eq!(read_names(&answer(&asked, vec![Value::U32(1)])), Err(Error::InvalidReply));
    // a call is no reply either
    assert_eq!(read_text(&asked), Err(Error::InvalidReply));
}

#[test]
fn an_error_from_the_bus_is_that_error() {
    let asked = sent(get_name_owner("org.example.Nobody").unwrap(), ":1.42", 3);
    let reply = refusal(&asked, "org.freedesktop.DBus.Error.NameHasNoOwner", "nobody");
    assert_eq!(
        read_text(&reply),
        Err(Error::MethodError(
            "org.freedesktop.DBus.Error.NameHasNoOwner".to_string(),
            Some("nobody".to_string())
        ))
    );
}

#[test]
fn names_are_read_from_an_array() {
    let asked = sent(list_names().unwrap(), ":1.42", 3);
    let names = Value::Array(
        Signature::Str,
        vec![Value::Str(BUS.to_string()), Value::Str(":1.42".to_string())],
    );
    assert_eq!(
        read_names(&answer(&asked, vec![names])),
        Ok(vec![BUS.to_string(), ":1.42".to_string()])
    );
    let none = Value::Array(Signature::Str, vec![]);
    assert_eq!(read_names(&answer(&asked, vec![none])), Ok(vec![]));
    let numbers = Value::Array(Signature::U32, vec![Value::U32(1)]);
    assert_eq!(read_names(&answer(&asked, vec![numbers])), Err(Error::InvalidReply));
}

#[test]
fn the_signals_of_the_bus_are_read_by_their_names() {
    let changed = bus_signal("NameOwnerChanged", &["org.example.T", "", ":1.42"]);
    assert_eq!(
        name_owner_changed(&changed),
        Some(NameOwnerChanged {
            name: "org.example.T".to_string(),
            old_owner: String::new(),
            new_owner: ":1.42".to_string(),
        })
    );
    assert_eq!(name_acquired(&changed), None);
    assert_eq!(name_lost(&changed), None);
    let acquired = bus_signal("NameAcquired", &["org.example.T"]);
    assert_eq!(name_acquired(&acquired), Some("org.example.T".to_string()));
    assert_eq!(name_owner_changed(&acquired), None);
    let lost = bus_signal("NameLost", &["org.example.T"]);
    assert_eq!(name_lost(&lost), Some("org.example.T".to_string()));
    // the right name with the wrong body
    assert_eq!(name_owner_changed(&bus_signal("NameOwnerChanged", &["a", "b"])), None);
    // the right name on another interface
    let other = Message::signal("/org/freedesktop/DBus", "org.example.Other", "NameLost")
        .unwrap()
        .build(&vec![Value::Str("org.example.T".to_string())])
        .unwrap();
    assert_eq!(name_lost(&other), None);
}

#[test]
fn signal() {
    let c = ready();
    let well_known = "org.freedesktop.zbus.FdoSignalStreamTest";
    let unique_name = c.unique_name().unwrap().to_string();

    // Register a well-known name with the session bus and ensure we get the appropriate
    // signals called for that.
    let owner_changes = MatchRule::compile(&format!(
        "type='signal',sender='org.freedesktop.DBus',interface='org.freedesktop.DBus',\
         member='NameOwnerChanged',arg0='{well_known}',arg2='{unique_name}'"
    ))
    .unwrap();
    let acquisitions = MatchRule::compile(&format!(
        "type='signal',sender='org.freedesktop.DBus',interface='org.freedesktop.DBus',\
         member='NameAcquired',arg0='{well_known}'"
    ))
    .unwrap();
    let (s, owner_change_stream, _) = Subscriptions::new().subscribe(owner_changes).unwrap();
    let (s, name_acquired_stream, _) = s.subscribe(acquisitions).unwrap();

    let name = WellKnownName::try_from(well_known).unwrap();
    let request = request_name(&name, RequestNameFlags::ReplaceExisting.bits()).unwrap();
    let request = sent(request, &unique_name, 2);

    // what the bus sends when it gives the name away
    let changed = bus_signal("NameOwnerChanged", &[well_known, "", &unique_name]);
    let acquired = bus_signal("NameAcquired", &[well_known]);
    let others = bus_signal("NameOwnerChanged", &["org.example.Other", "", ":1.7"]);
    assert_eq!(s.route(&others), Vec::<u64>::new());
    assert_eq!(s.route(&changed), vec![owner_change_stream]);
    assert_eq!(s.route(&acquired), vec![name_acquired_stream]);

    let name_owner_changed = name_owner_changed(&changed).unwrap();
    let name_acquired = name_acquired(&acquired).unwrap();
    assert_eq!(name_owner_changed.name, name.as_str());
    assert_eq!(name_owner_changed.new_owner, unique_name);
    assert_eq!(name_acquired, name.as_str());
    assert_eq!(
        request_name_reply(&answer(&request, vec![Value::U32(1)])),
        Ok(RequestNameReply::PrimaryOwner)
    );

    let release = sent(release_name(&name).unwrap(), &unique_name, 3);
    let result = release_name_reply(&answer(&release, vec![Value::U32(1)])).unwrap();
    assert_eq!(result, ReleaseNameReply::Released);

    let release = sent(release_name(&name).unwrap(), &unique_name, 4);
    let result = release_name_reply(&answer(&release, vec![Value::U32(2)])).unwrap();
    assert_eq!(result, ReleaseNameReply::NonExistent);
}

#[test]
fn freedesktop_api() {
    let mut c = ready();
    let name = WellKnownName::try_from("org.freedesktop.zbus.sync").unwrap();

    let reply = asked(&mut c, request_name(&name, 2).unwrap(), vec![Value::U32(1)]);
    assert_eq!(reply.header().signature, vec![Signature::U32]);
    assert_eq!(request_name_reply(&reply), Ok(RequestNameReply::PrimaryOwner));

    let reply = asked(&mut c, get_id().unwrap(), vec![Value::Str("0123abcd".to_string())]);
    assert_eq!(reply.header().signature, vec![Signature::Str]);
    assert_eq!(read_text(&reply), Ok("0123abcd".to_string()));

    let reply =
        asked(&mut c, name_has_owner("org.freedesktop.zbus.sync").unwrap(), vec![Value::Bool(true)]);
    assert_eq!(reply.header().signature, vec![Signature::Bool]);
    assert_eq!(read_bool(&reply), Ok(true));

    let reply = asked(
        &mut c,
        get_name_owner("org.freedesktop.zbus.sync").unwrap(),
        vec![Value::Str(":1.42".to_string())],
    );
    assert_eq!(read_text(&reply).unwrap(), c.unique_name().unwrap());

    let credentials = Value::Dict(
        Signature::Str,
        Signature::Variant,
        vec![
            Value::Structure(vec![
                Value::Str("ProcessID".to_string()),
                Value::Value(Box::new(Value::U32(4242))),
            ]),
            Value::Structure(vec![
                Value::Str("UnixUserID".to_string()),
                Value::Value(Box::new(Value::U32(1000))),
            ]),
        ],
    );
    let reply = asked(&mut c, get_connection_credentials(BUS).unwrap(), vec![credentials]);
    assert_eq!(reply.header().signature, vec![Signature::from_str("a{sv}").unwrap()]);
    match read_one(&reply).unwrap() {
        Value::Dict(_, _, entries) => {
            assert_eq!(entries.len(), 2);
            assert_eq!(
                entries[0],
                Value::Structure(vec![
                    Value::Str("ProcessID".to_string()),
                    Value::Value(Box::new(Value::U32(4242))),
                ])
            );
        }
        other => panic!("{:?}", other),
    }
}
