use winnow::combinator::{alt, separated};
use winnow::stream::AsChar;
use winnow::token::{one_of, take_while};
use winnow::Parser;
use zbus::names::error::Error;
use zbus::names::error_name::{ErrorName, OwnedErrorName};
use zbus::names::interface_name::{InterfaceName, OwnedInterfaceName};
use zbus::names::member_name::{MemberName, OwnedMemberName};
use zbus::names::property_name::{OwnedPropertyName, PropertyName};
use zbus::names::unique_name::{OwnedUniqueName, UniqueName};
use zbus::names::well_known_name::{OwnedWellKnownName, WellKnownName};

fn grammar_interface(bytes: &[u8]) -> bool {
    let first_element_char = one_of((AsChar::is_alpha, b'_'));
    let subsequent_element_chars = take_while::<_, _, ()>(0.., (AsChar::is_alphanum, b'_'));
    let element = (first_element_char, subsequent_element_chars);
    let mut interface_name = separated(2.., element, b'.');
    let parsed: Result<(), _> = interface_name.parse(bytes);
    parsed.is_ok() && bytes.len() <= 255
}

fn grammar_member(bytes: &[u8]) -> bool {
    let first_element_char = one_of((AsChar::is_alpha, b'_'));
    let subsequent_element_chars = take_while::<_, _, ()>(0.., (AsChar::is_alphanum, b'_'));
    let mut member_name = (first_element_char, subsequent_element_chars);
    member_name.parse(bytes).is_ok() && bytes.len() <= 255
}

fn grammar_well_known(bytes: &[u8]) -> bool {
    let first_element_char = one_of((AsChar::is_alpha, b'_', b'-'));
    let subsequent_element_chars =
        take_while::<_, _, ()>(0.., (AsChar::is_alphanum, b'_', b'-'));
    let element = (first_element_char, subsequent_element_chars);
    let mut well_known_name = separated(2.., element, b'.');
    let parsed: Result<(), _> = well_known_name.parse(bytes);
    parsed.is_ok() && bytes.len() <= 255
}

fn grammar_unique(bytes: &[u8]) -> bool {
    let element = take_while::<_, _, ()>(1.., (AsChar::is_alphanum, b'_', b'-'));
    let peer_name = (b':', (separated(2.., element, b'.'))).map(|_: (_, ())| ());
    let bus_name = b"org.freedesktop.DBus".map(|_| ());
    let mut unique_name = alt((bus_name, peer_name));
    unique_name.parse(bytes).is_ok() && bytes.len() <= 255
}

fn samples() -> Vec<String> {
    let mut all: Vec<String> = [
        "",
        ".",
        "..",
        "a",
        "a.",
        ".a",
        "a.b",
        "a..b",
        "a.b.",
        "a.b.c",
        "_",
        "_._",
        "-",
        "-.-",
        "a-b.c",
        "a.b-c",
        "a.-b",
        "1",
        "1.2",
        "a.1",
        "a.b1",
        "a1.b",
        "1a.b",
        ":",
        ":1",
        ":1.",
        ":1.2",
        ":1.2.",
        ":.1",
        ":1..2",
        ":a.b",
        ":-.-",
        "::1.2",
        ":1.2:",
        "org.freedesktop.DBus",
        "org.freedesktop.DBus.",
        "org.freedesktop.DBusX",
        "org.freedesktop.DBu",
        "org.freedesktop",
        ":org.freedesktop.DBus",
        "org.gnome.Interface_for_you",
        "org.gnome.Service-for_you",
        "a.very.loooooooooooooooooo_ooooooo_0000o0ng.Name",
        "a.very.loooooooooooooooooo-ooooooo_0000o0ng.Name",
        ":start.with.a.colon",
        "double..dots",
        ".start.with.dot",
        "no-dots",
        "1st.element.starts.with.digit",
        "the.2nd.element.starts.with.digit",
        "contains.dashes-in.the.name",
        "Member_for_you",
        "CamelCase101",
        "1startWith_a_Digit",
        "contains.dots_in_the_name",
        "contains-dashes-in_the_name",
        "a b",
        "a.b c",
        "a/b",
        "a.b/c",
        "a\u{e9}.b",
        "a.b\u{0}",
        "\u{0}",
        "a.b\n",
        " a.b",
        "A.Z",
        "a.z",
        "@.a",
        "[.a",
        "`.a",
        "{.a",
        "a.@",
        "a.[",
        "a.`",
        "a.{",
        "/.a",
        "a.:",
        "0.9",
        ":0.9",
        ":/.a",
        ":a.:",
    ]
    .iter()
    .map(|s| s.to_string())
    .collect();
    // names at the limit of 255 bytes, and one byte beyond
    for total in [254usize, 255, 256, 300] {
        all.push(format!("a.{}", "b".repeat(total - 2)));
        all.push(format!(":1.{}", "2".repeat(total - 3)));
        all.push("m".repeat(total));
        all.push(format!("a-b.{}", "c".repeat(total - 4)));
    }
    all
}

#[test]
fn interface_names_follow_the_grammar() {
    for text in samples() {
        assert_eq!(
            InterfaceName::try_from(&text).is_ok(),
            grammar_interface(text.as_bytes()),
            "{:?}",
            text
        );
        assert_eq!(
            ErrorName::try_from(&text).is_ok(),
            grammar_interface(text.as_bytes()),
            "{:?}",
            text
        );
    }
}

#[test]
fn member_names_follow_the_grammar() {
    for text in samples() {
        assert_eq!(
            MemberName::try_from(&text).is_ok(),
            grammar_member(text.as_bytes()),
            "{:?}",
            text
        );
    }
}

#[test]
fn well_known_names_follow_the_grammar() {
    for text in samples() {
        assert_eq!(
            WellKnownName::try_from(&text).is_ok(),
            grammar_well_known(text.as_bytes()),
            "{:?}",
            text
        );
    }
}

#[test]
fn unique_names_follow_the_grammar() {
    for text in samples() {
        assert_eq!(
            UniqueName::try_from(&text).is_ok(),
            grammar_unique(text.as_bytes()),
            "{:?}",
            text
        );
    }
}

#[test]
fn byte_validators_agree_with_the_grammar() {
    for text in samples() {
        let bytes = text.as_bytes();
        assert_eq!(
            zbus::names::interface_name::validate_bytes(bytes).is_ok(),
            grammar_interface(bytes)
        );
        assert_eq!(zbus::names::member_name::validate_bytes(bytes).is_ok(), grammar_member(bytes));
        assert_eq!(
            zbus::names::well_known_name::validate_bytes(bytes).is_ok(),
            grammar_well_known(bytes)
        );
        assert_eq!(zbus::names::unique_name::validate_bytes(bytes).is_ok(), grammar_unique(bytes));
    }
    // bytes that are no text at all
    for bytes in [&[0xffu8, b'.', b'a'][..], &[b'a', b'.', 0x80][..], &[b':', 0xc3, b'.', b'1'][..]]
    {
        assert!(zbus::names::interface_name::validate_bytes(bytes).is_err());
        assert!(zbus::names::member_name::validate_bytes(bytes).is_err());
        assert!(zbus::names::well_known_name::validate_bytes(bytes).is_err());
        assert!(zbus::names::unique_name::validate_bytes(bytes).is_err());
    }
}

#[test]
fn interface_name_examples() {
    let name = InterfaceName::try_from("org.gnome.Interface_for_you").unwrap();
    assert_eq!(name.as_str(), "org.gnome.Interface_for_you");
    assert!(name.eq_str("org.gnome.Interface_for_you"));
    let name =
        InterfaceName::try_from("a.very.loooooooooooooooooo_ooooooo_0000o0ng.Name").unwrap();
    assert_eq!(name.to_string(), "a.very.loooooooooooooooooo_ooooooo_0000o0ng.Name");

    InterfaceName::try_from("").unwrap_err();
    InterfaceName::try_from(":start.with.a.colon").unwrap_err();
    InterfaceName::try_from("double..dots").unwrap_err();
    InterfaceName::try_from(".").unwrap_err();
    InterfaceName::try_from(".start.with.dot").unwrap_err();
    InterfaceName::try_from("no-dots").unwrap_err();
    InterfaceName::try_from("1st.element.starts.with.digit").unwrap_err();
    InterfaceName::try_from("the.2nd.element.starts.with.digit").unwrap_err();
    InterfaceName::try_from("contains.dashes-in.the.name").unwrap_err();
}

#[test]
fn error_name_examples() {
    let name = ErrorName::try_from("org.gnome.Error_for_you").unwrap();
    assert_eq!(name.as_str(), "org.gnome.Error_for_you");
    let name =
        ErrorName::try_from("a.very.loooooooooooooooooo_ooooooo_0000o0ng.ErrorName").unwrap();
    assert_eq!(name.as_str(), "a.very.loooooooooooooooooo_ooooooo_0000o0ng.ErrorName");

    ErrorName::try_from("").unwrap_err();
    ErrorName::try_from(":start.with.a.colon").unwrap_err();
    ErrorName::try_from("double..dots").unwrap_err();
    ErrorName::try_from(".").unwrap_err();
    ErrorName::try_from(".start.with.dot").unwrap_err();
    ErrorName::try_from("no-dots").unwrap_err();
    ErrorName::try_from("1st.element.starts.with.digit").unwrap_err();
    ErrorName::try_from("the.2nd.element.starts.with.digit").unwrap_err();
    ErrorName::try_from("contains.dashes-in.the.name").unwrap_err();
}

#[test]
fn member_name_examples() {
    let name = MemberName::try_from("Member_for_you").unwrap();
    assert_eq!(name.as_str(), "Member_for_you");
    let name = MemberName::try_from("CamelCase101").unwrap();
    assert_eq!(name.as_str(), "CamelCase101");
    let name = MemberName::try_from("a_very_loooooooooooooooooo_ooooooo_0000o0ngName").unwrap();
    assert_eq!(name.as_str(), "a_very_loooooooooooooooooo_ooooooo_0000o0ngName");

    MemberName::try_from("").unwrap_err();
    MemberName::try_from(".").unwrap_err();
    MemberName::try_from("1startWith_a_Digit").unwrap_err();
    MemberName::try_from("contains.dots_in_the_name").unwrap_err();
    MemberName::try_from("contains-dashes-in_the_name").unwrap_err();
}

#[test]
fn unique_name_examples() {
    let name = UniqueName::try_from(":org.gnome.Service-for_you").unwrap();
    assert_eq!(name.as_str(), ":org.gnome.Service-for_you");
    let name =
        UniqueName::try_from(":a.very.loooooooooooooooooo-ooooooo_0000o0ng.Name").unwrap();
    assert_eq!(name.as_str(), ":a.very.loooooooooooooooooo-ooooooo_0000o0ng.Name");
    assert_eq!(UniqueName::try_from("org.freedesktop.DBus").unwrap().as_str(), "org.freedesktop.DBus");
    assert_eq!(UniqueName::try_from(":1.42").unwrap().as_str(), ":1.42");

    UniqueName::try_from("").unwrap_err();
    UniqueName::try_from("dont.start.with.a.colon").unwrap_err();
    UniqueName::try_from(":double..dots").unwrap_err();
    UniqueName::try_from(".").unwrap_err();
    UniqueName::try_from(".start.with.dot").unwrap_err();
    UniqueName::try_from(":no-dots").unwrap_err();
}

#[test]
fn well_known_name_examples() {
    let name = WellKnownName::try_from("org.gnome.Service-for_you").unwrap();
    assert_eq!(name.as_str(), "org.gnome.Service-for_you");
    let name =
        WellKnownName::try_from("a.very.loooooooooooooooooo-ooooooo_0000o0ng.Name").unwrap();
    assert_eq!(name.as_str(), "a.very.loooooooooooooooooo-ooooooo_0000o0ng.Name");

    WellKnownName::try_from("").unwrap_err();
    WellKnownName::try_from("double..dots").unwrap_err();
    WellKnownName::try_from(".").unwrap_err();
    WellKnownName::try_from(".start.with.dot").unwrap_err();
    WellKnownName::try_from("1st.element.starts.with.digit").unwrap_err();
    WellKnownName::try_from("the.2nd.element.starts.with.digit").unwrap_err();
    WellKnownName::try_from("no-dots").unwrap_err();
}

#[test]
fn property_name_examples() {
    let name = PropertyName::try_from("Property_for_you").unwrap();
    assert_eq!(name.as_str(), "Property_for_you");
    let name = PropertyName::try_from("CamelCase101").unwrap();
    assert_eq!(name.as_str(), "CamelCase101");
    let name = PropertyName::try_from("a_very_loooooooooooooooooo_ooooooo_0000o0ngName").unwrap();
    assert_eq!(name.as_str(), "a_very_loooooooooooooooooo_ooooooo_0000o0ngName");
    let name = PropertyName::try_from("Property_for_you-1").unwrap();
    assert_eq!(name.as_str(), "Property_for_you-1");
}

#[test]
fn property_name_errors_say_what_is_wrong() {
    assert_eq!(
        PropertyName::try_from("").unwrap_err(),
        Error::InvalidName("Invalid property name. It has to be at least 1 character long.")
    );
    assert_eq!(
        PropertyName::try_from(&"p".repeat(256)).unwrap_err(),
        Error::InvalidName("Invalid property name. It can not be longer than 255 characters.")
    );
    // the limit counts bytes, not characters
    assert!(PropertyName::try_from(&"\u{e9}".repeat(127)).is_ok());
    assert!(PropertyName::try_from(&"\u{e9}".repeat(128)).is_err());
}

#[test]
fn errors_name_the_kind() {
    assert_eq!(
        InterfaceName::try_from("x").unwrap_err(),
        Error::InvalidName(
            "Invalid interface name. See https://dbus.freedesktop.org/doc/dbus-specification.html#message-protocol-names-interface"
        )
    );
    assert_eq!(
        ErrorName::try_from("x").unwrap_err().to_string(),
        "Invalid error name. See https://dbus.freedesktop.org/doc/dbus-specification.html#message-protocol-names-error"
    );
    assert_eq!(
        MemberName::try_from("x.y").unwrap_err().message(),
        "Invalid member name. See https://dbus.freedesktop.org/doc/dbus-specification.html#message-protocol-names-member"
    );
    assert_eq!(
        UniqueName::try_from("x").unwrap_err().message(),
        "Invalid unique name. See https://dbus.freedesktop.org/doc/dbus-specification.html#message-protocol-names-bus"
    );
    assert_eq!(
        WellKnownName::try_from("x").unwrap_err().message(),
        "Invalid well-known name. See https://dbus.freedesktop.org/doc/dbus-specification.html#message-protocol-names-bus"
    );
}

#[test]
fn names_of_255_bytes_are_accepted_and_256_are_not() {
    let interface_255 = format!("a.{}", "b".repeat(253));
    let interface_256 = format!("a.{}", "b".repeat(254));
    assert_eq!(interface_255.len(), 255);
    assert!(InterfaceName::try_from(&interface_255).is_ok());
    assert!(InterfaceName::try_from(&interface_256).is_err());
    assert!(ErrorName::try_from(&interface_255).is_ok());
    assert!(ErrorName::try_from(&interface_256).is_err());
    assert!(WellKnownName::try_from(&interface_255).is_ok());
    assert!(WellKnownName::try_from(&interface_256).is_err());

    assert!(MemberName::try_from(&"m".repeat(255)).is_ok());
    assert!(MemberName::try_from(&"m".repeat(256)).is_err());

    let unique_255 = format!(":1.{}", "2".repeat(252));
    let unique_256 = format!(":1.{}", "2".repeat(253));
    assert_eq!(unique_255.len(), 255);
    assert!(UniqueName::try_from(&unique_255).is_ok());
    assert!(UniqueName::try_from(&unique_256).is_err());

    assert!(PropertyName::try_from(&"p".repeat(255)).is_ok());
    assert!(PropertyName::try_from(&"p".repeat(256)).is_err());
}

#[test]
fn a_valid_name_reads_back_from_its_text() {
    let name = InterfaceName::try_from("org.example.Iface").unwrap();
    let again = InterfaceName::try_from(name.as_str()).unwrap();
    assert_eq!(again, name);
    let name = UniqueName::try_from(":1.7").unwrap();
    assert_eq!(UniqueName::try_from(&name.to_string()).unwrap(), name);
    let name = MemberName::try_from("Ping").unwrap();
    assert_eq!(MemberName::try_from_string(name.to_string()).unwrap(), name);
}

#[test]
fn unchecked_constructors_take_anything() {
    assert_eq!(InterfaceName::from_str_unchecked("not a name").as_str(), "not a name");
    assert_eq!(MemberName::from_static_str_unchecked("").as_str(), "");
    assert_eq!(UniqueName::from_string_unchecked("x".to_string()).as_str(), "x");
    assert!(WellKnownName::from_static_str("org.example.Name").is_ok());
    assert!(WellKnownName::from_static_str("org").is_err());
}

#[test]
fn owned_names_wrap_and_unwrap() {
    let name = InterfaceName::try_from("org.example.Iface").unwrap();
    let owned = OwnedInterfaceName::from(name.to_owned());
    assert_eq!(owned.as_str(), "org.example.Iface");
    assert_eq!(owned.inner(), &name);
    assert_eq!(owned.as_ref(), name);
    assert!(owned.eq_str("org.example.Iface"));
    assert_eq!(owned.to_string(), "org.example.Iface");
    let back: InterfaceName = owned.clone().into();
    assert_eq!(back, name);
    assert_eq!(owned.into_inner(), name.as_ref().into_owned());

    assert!(OwnedErrorName::try_from("org.example.Error").is_ok());
    assert!(OwnedErrorName::try_from("Error").is_err());
    assert!(OwnedMemberName::try_from("Member").is_ok());
    assert!(OwnedMemberName::try_from("Mem.ber").is_err());
    assert!(OwnedPropertyName::try_from("Any thing").is_ok());
    assert!(OwnedPropertyName::try_from_string(String::new()).is_err());
    assert!(OwnedUniqueName::try_from(":1.1").is_ok());
    assert!(OwnedUniqueName::try_from("1.1").is_err());
    assert!(OwnedWellKnownName::try_from("a.b-c").is_ok());
    assert!(OwnedWellKnownName::try_from("a").is_err());
}
