use zbus::error::Error;
use zbus::fdo;
use zbus::message::{Message, Type};
use zbus::wire::endian::Endian;
use zbus::wire::signature::Signature;
use zbus::wire::value::Value;

#[test]
fn msg() {
    let m = Message::method_call("/org/freedesktop/DBus", "GetMachineId")
        .unwrap()
        .destination("org.freedesktop.DBus")
        .unwrap()
        .interface("org.freedesktop.DBus.Peer")
        .unwrap()
        .build(&vec![])
        .unwrap();
    let hdr = m.header();
    assert_eq!(hdr.path().unwrap().as_str(), "/org/freedesktop/DBus");
    assert_eq!(hdr.interface().unwrap().as_str(), "org.freedesktop.DBus.Peer");
    assert_eq!(hdr.member().unwrap().as_str(), "GetMachineId");
}

#[test]
fn error_from_zerror() {
    let m = Message::method_call("/", "foo")
        .unwrap()
        .destination(":1.2")
        .unwrap()
        .build(&vec![])
        .unwrap();
    // A reply names the serial of the call, which a connection gives when it sends.
    let m = m.with_serial(1).unwrap();
    let m = Message::error(m.header(), "org.freedesktop.DBus.Error.TimedOut")
        .unwrap()
        .build(&vec![Value::Str("so long".to_string())])
        .unwrap();
    let e: Error = m.into();
    let e: fdo::error::Error = e.into();
    assert_eq!(e, fdo::error::Error::TimedOut("so long".to_string()),);
    assert_eq!(e.name(), "org.freedesktop.DBus.Error.TimedOut");
    assert_eq!(e.description(), Some("so long"));
}

#[test]
fn built_header_records_the_body() {
    let body = vec![Value::Str("hello".to_string()), Value::U32(7), Value::U8(1)];
    let m = Message::signal("/org/example", "org.example.Iface", "Changed")
        .unwrap()
        .build(&body)
        .unwrap();
    assert_eq!(m.header().body_len() as usize, m.body().len());
    // 4 + 5 + 1 bytes of string, 2 of padding, 4 of number, 1 byte
    assert_eq!(m.body().len(), 17);
    assert_eq!(
        m.body(),
        &[5u8, 0, 0, 0, b'h', b'e', b'l', b'l', b'o', 0, 0, 0, 7, 0, 0, 0, 1][..]
    );
    assert_eq!(m.header().signature, vec![Signature::Str, Signature::U32, Signature::U8]);
    assert_eq!(m.header().serial(), 0);
    assert_eq!(m.header().protocol_version, 1);
    assert_eq!(m.fds().len(), 0);
    assert_eq!(m.body_values().unwrap(), body);
}

#[test]
fn empty_body_has_no_signature() {
    let m = Message::method_call("/", "Ping").unwrap().build(&vec![]).unwrap();
    assert_eq!(m.header().body_len(), 0);
    assert!(m.body().is_empty());
    assert!(m.header().signature.is_empty());
    assert!(m.body_values().unwrap().is_empty());
}

#[test]
fn each_kind_has_its_required_fields() {
    let call = Message::method_call("/a", "M").unwrap().build(&vec![]).unwrap();
    assert_eq!(call.message_type(), Type::MethodCall);
    assert!(call.header().path().is_some() && call.header().member().is_some());

    let signal = Message::signal("/a", "a.b", "S").unwrap().build(&vec![]).unwrap();
    assert_eq!(signal.message_type(), Type::Signal);
    assert!(signal.header().path().is_some());
    assert!(signal.header().interface().is_some());
    assert!(signal.header().member().is_some());

    let call = call.with_serial(9).unwrap();
    let ret = Message::method_return(call.header()).unwrap().build(&vec![]).unwrap();
    assert_eq!(ret.message_type(), Type::MethodReturn);
    assert_eq!(ret.header().reply_serial(), Some(9));

    let err = Message::error(call.header(), "a.b.Failed").unwrap().build(&vec![]).unwrap();
    assert_eq!(err.message_type(), Type::Error);
    assert_eq!(err.header().reply_serial(), Some(9));
    assert_eq!(err.header().error_name().unwrap().as_str(), "a.b.Failed");
}

#[test]
fn replies_go_to_the_sender_of_the_call() {
    let call = Message::method_call("/a", "M")
        .unwrap()
        .sender(":1.5")
        .unwrap()
        .build(&vec![])
        .unwrap()
        .with_serial(3)
        .unwrap();
    let ret = Message::method_return(call.header()).unwrap().build(&vec![]).unwrap();
    assert_eq!(ret.header().destination(), Some(":1.5"));
    assert_eq!(ret.header().sender(), None);
    let anonymous = Message::method_call("/a", "M").unwrap().build(&vec![]).unwrap();
    let anonymous = anonymous.with_serial(4).unwrap();
    let ret = Message::method_return(anonymous.header()).unwrap().build(&vec![]).unwrap();
    assert_eq!(ret.header().destination(), None);
}

#[test]
fn no_reply_to_a_call_without_serial() {
    let call = Message::method_call("/a", "M").unwrap().build(&vec![]).unwrap();
    assert!(matches!(Message::method_return(call.header()), Err(Error::InvalidSerial)));
    assert!(matches!(Message::error(call.header(), "a.b.C"), Err(Error::InvalidSerial)));
    assert!(matches!(call.with_serial(0), Err(Error::InvalidSerial)));
}

#[test]
fn builders_refuse_what_is_no_name() {
    assert!(matches!(Message::method_call("no/slash", "M"), Err(Error::InvalidName(_))));
    assert!(matches!(Message::method_call("/a", "M.N"), Err(Error::InvalidName(_))));
    assert!(matches!(Message::method_call("/a/", "M"), Err(Error::InvalidName(_))));
    assert!(matches!(Message::signal("/a", "nodots", "S"), Err(Error::InvalidName(_))));
    assert!(matches!(Message::signal("/a", "a.b", "1S"), Err(Error::InvalidName(_))));
    let b = Message::method_call("/a", "M").unwrap();
    assert!(matches!(b.destination("not a name"), Err(Error::InvalidName(_))));
    let b = Message::method_call("/a", "M").unwrap();
    assert!(matches!(b.interface("x"), Err(Error::InvalidName(_))));
    let b = Message::method_call("/a", "M").unwrap();
    assert!(matches!(b.sender("org.example.WellKnown"), Err(Error::InvalidName(_))));
    let call = Message::method_call("/a", "M").unwrap().build(&vec![]).unwrap();
    let call = call.with_serial(1).unwrap();
    assert!(matches!(Message::error(call.header(), "NoDots"), Err(Error::InvalidName(_))));
}

#[test]
fn destination_is_unique_or_well_known() {
    let m = Message::method_call("/a", "M").unwrap().destination(":1.2").unwrap();
    let m = m.build(&vec![]).unwrap();
    assert_eq!(m.header().destination(), Some(":1.2"));
    let m = Message::method_call("/a", "M").unwrap().destination("org.example.Name").unwrap();
    let m = m.build(&vec![]).unwrap();
    assert_eq!(m.header().destination(), Some("org.example.Name"));
}

#[test]
fn byte_order_and_flags_are_kept() {
    let m = Message::method_call("/a", "M")
        .unwrap()
        .endian(Endian::Big)
        .with_flags(0x01)
        .build(&vec![Value::U32(0x0102_0304)])
        .unwrap();
    assert_eq!(m.header().endian, Endian::Big);
    assert_eq!(m.header().flags, 1);
    assert_eq!(m.body(), &[1u8, 2, 3, 4][..]);
}

#[test]
fn error_message_without_text() {
    let call = Message::method_call("/a", "M").unwrap().build(&vec![]).unwrap();
    let call = call.with_serial(2).unwrap();
    let m = Message::error(call.header(), "org.freedesktop.DBus.Error.UnknownMethod")
        .unwrap()
        .build(&vec![])
        .unwrap();
    assert_eq!(m.description(), None);
    let e = m.into_error();
    assert_eq!(
        e,
        Error::MethodError("org.freedesktop.DBus.Error.UnknownMethod".to_string(), None)
    );
    assert_eq!(fdo::error::Error::from(e), fdo::error::Error::UnknownMethod(String::new()));
}

#[test]
fn error_message_with_another_first_value() {
    let call = Message::method_call("/a", "M").unwrap().build(&vec![]).unwrap();
    let call = call.with_serial(2).unwrap();
    let m = Message::error(call.header(), "org.example.Error.Custom")
        .unwrap()
        .build(&vec![Value::U32(5), Value::Str("not first".to_string())])
        .unwrap();
    assert_eq!(m.description(), None);
    let e: Error = m.into();
    assert_eq!(e, Error::MethodError("org.example.Error.Custom".to_string(), None));
    // no standard error has this name: the error is carried as it is
    assert_eq!(fdo::error::Error::from(e.clone()), fdo::error::Error::ZBus(e));
}

#[test]
fn a_message_that_is_no_error_is_no_reply() {
    let m = Message::signal("/a", "a.b", "S").unwrap().build(&vec![]).unwrap();
    assert_eq!(m.into_error(), Error::InvalidReply);
}

#[test]
fn standard_errors_have_their_names() {
    let e = fdo::error::Error::UnknownObject("gone".to_string());
    assert_eq!(e.name(), "org.freedesktop.DBus.Error.UnknownObject");
    assert_eq!(e.short_name(), "UnknownObject");
    assert_eq!(e.description(), Some("gone"));
    let e = fdo::error::Error::ZBus(Error::Closed);
    assert_eq!(e.name(), "org.freedesktop.DBus.Error.Failed");
    assert_eq!(e.description(), None);
    assert_eq!(
        fdo::error::Error::from_short_name("IOError", "x".to_string()),
        Ok(fdo::error::Error::IOError("x".to_string()))
    );
    assert_eq!(
        fdo::error::Error::from_short_name("NoSuchThing", "x".to_string()),
        Err("x".to_string())
    );
    assert_eq!(fdo::error::strip_error_prefix("org.freedesktop.DBus.Error.X"), Some("X"));
    assert_eq!(fdo::error::strip_error_prefix("org.freedesktop.DBus.Error."), Some(""));
    assert_eq!(fdo::error::strip_error_prefix("org.freedesktop.DBus.Erro"), None);
    assert_eq!(fdo::error::strip_error_prefix("com.example.Error.X"), None);
}

#[test]
fn other_errors_are_wrapped() {
    assert_eq!(
        fdo::error::Error::from(Error::Closed),
        fdo::error::Error::ZBus(Error::Closed)
    );
    assert_eq!(
        fdo::error::Error::from(Error::MethodError(
            "org.freedesktop.DBus.Error.NotAThing".to_string(),
            Some("d".to_string())
        )),
        fdo::error::Error::ZBus(Error::MethodError(
            "org.freedesktop.DBus.Error.NotAThing".to_string(),
            Some("d".to_string())
        ))
    );
}

#[test]
fn message_type_codes() {
    assert_eq!(Type::MethodCall.code(), 1);
    assert_eq!(Type::MethodReturn.code(), 2);
    assert_eq!(Type::Error.code(), 3);
    assert_eq!(Type::Signal.code(), 4);
    for code in 0u8..=255 {
        match Type::from_code(code) {
            Some(t) => assert_eq!(t.code(), code),
            None => assert!(code == 0 || code > 4),
        }
    }
}

#[test]
fn descriptors_are_attached_and_counted() {
    let m = Message::method_call("/", "Take")
        .unwrap()
        .build(&vec![Value::Fd(0), Value::Fd(1)])
        .unwrap();
    assert_eq!(m.fds(), &[] as &[i32]);
    let m = m.with_fds(vec![5, 9]).unwrap();
    assert_eq!(m.fds(), &[5, 9][..]);
    assert_eq!(m.header().unix_fds, 2);
    assert_eq!(m.body_values().unwrap(), vec![Value::Fd(0), Value::Fd(1)]);
    let bytes = m.with_serial(1).unwrap().to_bytes().unwrap();
    let (read, _) = Message::from_bytes(&bytes, vec![7, 8]).unwrap();
    assert_eq!(read.header().unix_fds, 2);
    assert_eq!(read.fds(), &[7, 8][..]);
}
