use zbus::address::ibus::{CommandOutcome, Ibus};
use zbus::address::parse::{Entry, Setting};
use zbus::error::Error;

#[test]
fn test_ibus_new() {
    let ibus = Ibus::new();
    assert_eq!(ibus.to_string(), "ibus:");
}

#[test]
fn test_ibus_default() {
    let ibus = Ibus::default();
    assert_eq!(ibus.to_string(), "ibus:");
}

#[test]
fn test_ibus_from_options() {
    let options = std::collections::HashMap::new();
    let ibus = Ibus::from_options(options).unwrap();
    assert_eq!(ibus, Ibus::new());
}

#[test]
fn test_ibus_display() {
    let ibus = Ibus::new();
    assert_eq!(format!("{}", ibus.to_string()), "ibus:");
}

#[test]
fn ibus_from_options_ignores_what_it_is_given() {
    let mut options = std::collections::HashMap::new();
    options.insert("path", "/tmp/somewhere");
    assert_eq!(Ibus::from_options(options).unwrap(), Ibus);
}

fn unix(key: &str, value: &[u8]) -> Entry {
    Entry {
        scheme: b"unix".to_vec(),
        settings: vec![Setting { key: key.as_bytes().to_vec(), value: value.to_vec() }],
    }
}

#[test]
fn ibus_address_is_the_trimmed_output_read_as_an_address() {
    let outcome = CommandOutcome::Exited {
        success: true,
        status: "exit status: 0".to_string(),
        stdout: b"  unix:path=/tmp/dbus-test,guid=0123\n".to_vec(),
    };
    let mut expected = unix("path", b"/tmp/dbus-test");
    expected.settings.push(Setting { key: b"guid".to_vec(), value: b"0123".to_vec() });
    assert_eq!(Ibus::new().bus_address(outcome), Ok(vec![expected]));
}

#[test]
fn ibus_address_trims_unicode_white_space() {
    let outcome = CommandOutcome::Exited {
        success: true,
        status: String::new(),
        stdout: "\u{2003}\tunix:abstract=x\u{3000}\r\n".as_bytes().to_vec(),
    };
    assert_eq!(Ibus::new().bus_address(outcome), Ok(vec![unix("abstract", b"x")]));
}

#[test]
fn ibus_output_that_spells_no_address_is_refused() {
    for stdout in ["", "\n", "hello", "unix:", "unix:path", "foo:bar=1", "unix:path=/x;"] {
        let outcome = CommandOutcome::Exited {
            success: true,
            status: String::new(),
            stdout: stdout.as_bytes().to_vec(),
        };
        assert!(
            matches!(Ibus::new().bus_address(outcome), Err(Error::Address(_))),
            "{stdout:?}"
        );
    }
}

#[test]
fn ibus_command_that_did_not_run() {
    let outcome = CommandOutcome::NotRun("No such file or directory (os error 2)".to_string());
    assert_eq!(
        Ibus::new().bus_address(outcome),
        Err(Error::Address(
            "Failed to execute ibus command: No such file or directory (os error 2)".to_string()
        ))
    );
}

#[test]
fn ibus_command_that_failed() {
    let outcome = CommandOutcome::Exited {
        success: false,
        status: "exit status: 1".to_string(),
        stdout: b"unix:path=/ignored".to_vec(),
    };
    assert_eq!(
        Ibus::new().bus_address(outcome),
        Err(Error::Address("ibus terminated with code: exit status: 1".to_string()))
    );
}

#[test]
fn ibus_output_that_is_no_text() {
    let outcome = CommandOutcome::Exited {
        success: true,
        status: String::new(),
        stdout: vec![b'u', 0xff, b'x'],
    };
    match Ibus::new().bus_address(outcome) {
        Err(Error::Address(text)) => {
            assert!(text.starts_with("Unable to parse ibus output as UTF-8: "));
            assert!(text.len() > "Unable to parse ibus output as UTF-8: ".len());
        }
        other => panic!("unexpected: {:?}", other),
    }
}
