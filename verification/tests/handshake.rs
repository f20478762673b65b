use zbus::connection::{Connection, Inbound, Outbound};
use zbus::error::Error;
use zbus::handshake::{Handshake, Reply, Step};
use zbus::message::Message;
use zbus::wire::value::Value;

const GUID: &str = "0123456789abcdef0123456789ABCDEF";

fn ok_line() -> Vec<u8> {
    format!("OK {}", GUID).into_bytes()
}

#[test]
fn opening_names_the_user_in_hexadecimal() {
    let (h, bytes) = Handshake::new(1000, true);
    assert_eq!(h.step, Step::WaitingForOk);
    assert_eq!(bytes, b"\0AUTH EXTERNAL 31303030\r\n".to_vec());
    assert_eq!(Handshake::new(0, false).1, b"\0AUTH EXTERNAL 30\r\n".to_vec());
    assert_eq!(Handshake::new(7, false).1, b"\0AUTH EXTERNAL 37\r\n".to_vec());
    assert_eq!(
        Handshake::new(u32::MAX, false).1,
        b"\0AUTH EXTERNAL 34323934393637323935\r\n".to_vec()
    );
}

#[test]
fn handshake_with_descriptors() {
    let (mut h, _) = Handshake::new(1000, true);
    assert_eq!(h.line(&ok_line()), Reply::Send(b"NEGOTIATE_UNIX_FD\r\n".to_vec()));
    assert_eq!(h.step, Step::WaitingForAgreeUnixFd);
    assert_eq!(
        h.line(b"AGREE_UNIX_FD"),
        Reply::Begin { bytes: b"BEGIN\r\n".to_vec(), guid: GUID.to_string(), unix_fds: true }
    );
    assert_eq!(h.step, Step::Done);
}

#[test]
fn handshake_without_descriptors() {
    let (mut h, _) = Handshake::new(1000, false);
    assert_eq!(
        h.line(&ok_line()),
        Reply::Begin { bytes: b"BEGIN\r\n".to_vec(), guid: GUID.to_string(), unix_fds: false }
    );
    assert_eq!(h.step, Step::Done);
}

#[test]
fn refused_descriptors_do_not_stop_the_connection() {
    let (mut h, _) = Handshake::new(1000, true);
    h.line(&ok_line());
    let reply = h.line(b"ERROR \"not supported\"");
    assert_eq!(
        reply,
        Reply::Begin { bytes: b"BEGIN\r\n".to_vec(), guid: GUID.to_string(), unix_fds: false }
    );
    assert_eq!(h.step, Step::Done);

    // the connection comes up, but a message with a descriptor is not supported
    let unix_fds = match reply {
        Reply::Begin { unix_fds, .. } => unix_fds,
        _ => panic!("no begin"),
    };
    let mut c = Connection::new();
    c.authenticated(unix_fds).unwrap();
    let hello = c.hello().unwrap();
    let answer = Message::method_return(hello.header())
        .unwrap()
        .build(&vec![Value::Str(":1.3".to_string())])
        .unwrap();
    assert!(matches!(c.receive(answer), Inbound::Ready { .. }));
    let plain = Message::method_call("/a", "M").unwrap().build(&vec![]).unwrap();
    assert!(matches!(c.send(plain), Ok(Outbound::Transmit(_))));
    let with_fd = Message::method_call("/a", "M").unwrap().build(&vec![Value::Fd(0)]).unwrap();
    assert!(matches!(c.send(with_fd), Err(Error::Unsupported)));
}

#[test]
fn a_server_that_turns_the_client_down() {
    for line in [
        &b"REJECTED EXTERNAL DBUS_COOKIE_SHA1"[..],
        b"",
        b"OK",
        b"OK ",
        b"OK 0123",
        b"OK 0123456789abcdef0123456789abcdeg",
        b"OK  0123456789abcdef0123456789abcde",
        b"ok 0123456789abcdef0123456789abcdef",
        b"OK 0123456789abcdef0123456789abcdef ",
        b"AGREE_UNIX_FD",
    ] {
        let (mut h, _) = Handshake::new(1, true);
        assert_eq!(h.line(line), Reply::GiveUp, "{:?}", line);
        assert_eq!(h.step, Step::Failed);
        // nothing brings a failed handshake back
        assert_eq!(h.line(&ok_line()), Reply::GiveUp);
    }
}

#[test]
fn an_answer_that_nobody_understands() {
    for line in [&b"AGREE_UNIX_FD "[..], b"agree_unix_fd", b"OK", b"", b"EROR", b"BEGIN"] {
        let (mut h, _) = Handshake::new(1, true);
        h.line(&ok_line());
        assert_eq!(h.line(line), Reply::GiveUp, "{:?}", line);
        assert_eq!(h.step, Step::Failed);
    }
    // after the end there is nothing more to say
    let (mut h, _) = Handshake::new(1, false);
    h.line(&ok_line());
    assert_eq!(h.line(b"AGREE_UNIX_FD"), Reply::GiveUp);
}
