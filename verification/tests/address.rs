use zbus::address::parse::{parse_address, unescape, Entry, Scheme, Setting};
use zbus::error::Error;

fn setting(key: &str, value: &[u8]) -> Setting {
    Setting { key: key.as_bytes().to_vec(), value: value.to_vec() }
}

#[test]
fn a_unix_address_names_its_path() {
    let entries = parse_address("unix:path=/run/user/1000/bus").unwrap();
    assert_eq!(
        entries,
        vec![Entry {
            scheme: b"unix".to_vec(),
            settings: vec![setting("path", b"/run/user/1000/bus")],
        }]
    );
    assert_eq!(entries[0].scheme(), Ok(Scheme::Unix));
    assert_eq!(entries[0].value_of("path"), Some(&b"/run/user/1000/bus"[..]));
    assert_eq!(entries[0].value_of("abstract"), None);
    assert!(entries[0].has("path"));
    assert!(!entries[0].has("pat"));
}

#[test]
fn an_address_can_name_several_transports() {
    let entries =
        parse_address("unix:tmpdir=/tmp,guid=0123;tcp:host=localhost,port=4242,family=ipv4;ibus:")
            .unwrap();
    assert_eq!(entries.len(), 3);
    assert_eq!(entries[0].scheme(), Ok(Scheme::Unix));
    assert_eq!(entries[0].value_of("guid"), Some(&b"0123"[..]));
    assert_eq!(entries[1].scheme(), Ok(Scheme::Tcp));
    assert_eq!(entries[1].value_of("host"), Some(&b"localhost"[..]));
    assert_eq!(entries[1].value_of("port"), Some(&b"4242"[..]));
    assert_eq!(entries[1].value_of("family"), Some(&b"ipv4"[..]));
    assert_eq!(entries[2], Entry { scheme: b"ibus".to_vec(), settings: vec![] });
    assert_eq!(entries[2].scheme(), Ok(Scheme::Ibus));
}

#[test]
fn every_scheme_is_known_by_its_name() {
    let scheme = |text: &str| parse_address(text).unwrap()[0].scheme();
    assert_eq!(scheme("unix:abstract=x"), Ok(Scheme::Unix));
    assert_eq!(scheme("unix:dir=/tmp"), Ok(Scheme::Unix));
    assert_eq!(scheme("unix:runtime=yes"), Ok(Scheme::Unix));
    assert_eq!(scheme("tcp:host=::1"), Ok(Scheme::Tcp));
    assert_eq!(scheme("unixexec:path=/bin/bus,argv0=bus,argv1=--session"), Ok(Scheme::UnixExec));
    assert_eq!(scheme("autolaunch:"), Ok(Scheme::Autolaunch));
    assert_eq!(scheme("launchd:env=DBUS_LAUNCHD_SESSION_BUS_SOCKET"), Ok(Scheme::Launchd));
    assert_eq!(scheme("ibus:"), Ok(Scheme::Ibus));
    assert!(matches!(scheme("nonce-tcp:host=x"), Err(Error::Address(_))));
    assert!(matches!(scheme("Unix:path=/x"), Err(Error::Address(_))));
}

#[test]
fn a_transport_without_what_its_scheme_needs_is_refused() {
    let scheme = |text: &str| parse_address(text).unwrap()[0].scheme();
    assert!(matches!(scheme("unix:"), Err(Error::Address(_))));
    assert!(matches!(scheme("unix:guid=01"), Err(Error::Address(_))));
    assert!(matches!(scheme("tcp:port=1"), Err(Error::Address(_))));
    assert!(matches!(scheme("unixexec:argv0=x"), Err(Error::Address(_))));
    assert!(matches!(scheme("launchd:"), Err(Error::Address(_))));
}

#[test]
fn escaped_bytes_are_read_as_the_bytes_they_stand_for() {
    let entries = parse_address("unix:path=/tmp/a%20b%2c%3B%25%c3%A4").unwrap();
    assert_eq!(entries[0].value_of("path"), Some(&b"/tmp/a b,;%\xc3\xa4"[..]));
    assert_eq!(unescape(b"%00%ff", 0, 6), Some(vec![0, 255]));
    assert_eq!(unescape(b"abc", 1, 2), Some(vec![b'b']));
    assert_eq!(unescape(b"", 0, 0), Some(vec![]));
    assert_eq!(unescape(b"%4", 0, 2), None);
    assert_eq!(unescape(b"%", 0, 1), None);
    assert_eq!(unescape(b"%zz", 0, 3), None);
    assert_eq!(unescape(b"a%4g", 0, 4), None);
}

#[test]
fn text_that_spells_no_address_is_refused() {
    for text in [
        "",
        "unix",
        ":path=/x",
        "unix:path",
        "unix:=x",
        "unix:path=/x,",
        "unix:path=/x;",
        ";unix:path=/x",
        "unix:path=/x;;tcp:host=a",
        "unix:path=%2",
        "unix:path=/x,,guid=1",
    ] {
        assert_eq!(
            parse_address(text),
            Err(Error::Address("invalid address".to_string())),
            "{text:?}"
        );
    }
    // an equals sign in a value is the value's
    assert_eq!(
        parse_address("unix:path=a=b").unwrap()[0].value_of("path"),
        Some(&b"a=b"[..])
    );
    // and so is a colon
    assert_eq!(
        parse_address("tcp:host=::1").unwrap()[0].value_of("host"),
        Some(&b"::1"[..])
    );
}
