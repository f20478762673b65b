use zbus::wire::basic::{Basic, Type};
use zbus::wire::error::Error;
use zbus::wire::grammar::parse;
use zbus::wire::signature::{Format, Signature};

fn boxed(s: Signature) -> Box<Signature> {
    Box::new(s)
}

#[test]
fn basic_types_are_single_characters() {
    let all = [
        ("y", Signature::U8),
        ("b", Signature::Bool),
        ("n", Signature::I16),
        ("q", Signature::U16),
        ("i", Signature::I32),
        ("u", Signature::U32),
        ("x", Signature::I64),
        ("t", Signature::U64),
        ("d", Signature::F64),
        ("s", Signature::Str),
        ("g", Signature::Signature),
        ("o", Signature::ObjectPath),
        ("v", Signature::Variant),
        ("h", Signature::Fd),
    ];
    for (text, expected) in all {
        assert_eq!(Signature::from_str(text).unwrap(), expected);
        assert_eq!(expected.to_string(), text);
    }
}

#[test]
fn empty_text_is_the_unit() {
    assert_eq!(Signature::from_str("").unwrap(), Signature::Unit);
    assert_eq!(Signature::Unit.to_string(), "");
}

#[test]
fn containers_nest() {
    assert_eq!(Signature::from_str("as").unwrap(), Signature::Array(boxed(Signature::Str)));
    assert_eq!(
        Signature::from_str("aay").unwrap(),
        Signature::Array(boxed(Signature::Array(boxed(Signature::U8))))
    );
    assert_eq!(
        Signature::from_str("a{sv}").unwrap(),
        Signature::Dict { key: boxed(Signature::Str), value: boxed(Signature::Variant) }
    );
    assert_eq!(
        Signature::from_str("(su)").unwrap(),
        Signature::Structure(vec![Signature::Str, Signature::U32])
    );
    assert_eq!(Signature::from_str("mi").unwrap(), Signature::Maybe(boxed(Signature::I32)));
    assert_eq!(
        Signature::from_str("a(ya{oa(ii)}m(s))").unwrap(),
        Signature::Array(boxed(Signature::Structure(vec![
            Signature::U8,
            Signature::Dict {
                key: boxed(Signature::ObjectPath),
                value: boxed(Signature::Array(boxed(Signature::Structure(vec![
                    Signature::I32,
                    Signature::I32
                ])))),
            },
            Signature::Maybe(boxed(Signature::Structure(vec![Signature::Str]))),
        ])))
    );
}

#[test]
fn several_types_in_a_row_are_a_structure() {
    assert_eq!(
        Signature::from_str("su").unwrap(),
        Signature::Structure(vec![Signature::Str, Signature::U32])
    );
    assert_eq!(
        Signature::from_str("a{sv}as(i)").unwrap(),
        Signature::Structure(vec![
            Signature::Dict { key: boxed(Signature::Str), value: boxed(Signature::Variant) },
            Signature::Array(boxed(Signature::Str)),
            Signature::Structure(vec![Signature::I32]),
        ])
    );
}

#[test]
fn text_that_is_no_signature_is_refused() {
    for text in [
        "a", "m", "(", ")", "()", "(s", "s)", "a{", "a{s", "a{sv", "a{}", "a{s}", "a{vs}",
        "a{(s)s}", "a{asv}", "a{svs}", "{sv}", "}", "z", "S", " ", "s ", "a{sv}}", "((s)", "a()",
        "1", "a{sa}", "(a)", "\u{e9}",
    ] {
        match Signature::from_str(text) {
            Err(Error::InvalidSignature(t)) => assert_eq!(t, text),
            other => panic!("{:?} gave {:?}", text, other),
        }
    }
}

#[test]
fn a_signature_of_255_bytes_is_accepted_and_256_is_not() {
    let at_limit = "y".repeat(255);
    let beyond = "y".repeat(256);
    assert!(Signature::from_str(&at_limit).is_ok());
    assert!(matches!(Signature::from_str(&beyond), Err(Error::InvalidSignature(_))));
    let nested = format!("{}y", "a".repeat(254));
    assert!(Signature::from_str(&nested).is_ok());
    let nested = format!("{}y", "a".repeat(255));
    assert!(Signature::from_str(&nested).is_err());
    assert!(parse(&[b'y'; 255]).is_some());
    assert!(parse(&[b'y'; 256]).is_none());
}

#[test]
fn text_reads_back_as_the_same_tree() {
    for text in ["", "y", "as", "a{sv}", "(su)", "a(ya{oa(ii)}m(s))", "((((y))))", "a{ia{ia{iv}}}"] {
        let tree = Signature::from_str(text).unwrap();
        assert_eq!(tree.to_string(), text);
        assert_eq!(Signature::from_str(&tree.to_string()).unwrap(), tree);
    }
    // a row of types is written with the brackets of the structure it is read as
    assert_eq!(Signature::from_str("su").unwrap().to_string(), "(su)");
}

#[test]
fn write_text_appends() {
    let mut out = b"sig=".to_vec();
    Signature::from_str("a{sv}").unwrap().write_text(&mut out);
    assert_eq!(out, b"sig=a{sv}".to_vec());
}

#[test]
fn classic_alignment() {
    let cases = [
        ("y", 1),
        ("b", 4),
        ("n", 2),
        ("q", 2),
        ("i", 4),
        ("u", 4),
        ("x", 8),
        ("t", 8),
        ("d", 8),
        ("s", 4),
        ("o", 4),
        ("g", 1),
        ("v", 1),
        ("h", 4),
        ("ay", 4),
        ("at", 4),
        ("a{sv}", 4),
        ("(y)", 8),
        ("(yt)", 8),
    ];
    for (text, expected) in cases {
        assert_eq!(Signature::from_str(text).unwrap().alignment(Format::DBus), expected, "{}", text);
    }
}

#[test]
fn gvariant_alignment() {
    let cases = [
        ("y", 1),
        ("b", 1),
        ("n", 2),
        ("q", 2),
        ("i", 4),
        ("u", 4),
        ("x", 8),
        ("t", 8),
        ("d", 8),
        ("s", 1),
        ("o", 1),
        ("g", 1),
        ("v", 8),
        ("h", 4),
        ("ay", 1),
        ("at", 8),
        ("mi", 4),
        ("a{sv}", 8),
        ("a{yn}", 2),
        ("(y)", 1),
        ("(yqu)", 4),
        ("(y(sx)b)", 8),
        ("(ys)", 1),
    ];
    for (text, expected) in cases {
        assert_eq!(
            Signature::from_str(text).unwrap().alignment(Format::GVariant),
            expected,
            "{}",
            text
        );
    }
}

#[test]
fn basic_types_know_their_signature() {
    assert_eq!(<u8 as Basic>::SIGNATURE_CHAR, 'y');
    assert_eq!(<u8 as Basic>::SIGNATURE_STR, "y");
    assert_eq!(<bool as Basic>::SIGNATURE_STR, "b");
    assert_eq!(<i8 as Basic>::SIGNATURE_STR, "n");
    assert_eq!(<i16 as Basic>::SIGNATURE_STR, "n");
    assert_eq!(<u16 as Basic>::SIGNATURE_STR, "q");
    assert_eq!(<i32 as Basic>::SIGNATURE_STR, "i");
    assert_eq!(<u32 as Basic>::SIGNATURE_STR, "u");
    assert_eq!(<i64 as Basic>::SIGNATURE_STR, "x");
    assert_eq!(<u64 as Basic>::SIGNATURE_STR, "t");
    assert_eq!(<usize as Basic>::SIGNATURE_STR, "t");
    assert_eq!(<isize as Basic>::SIGNATURE_STR, "x");
    assert_eq!(<str as Basic>::SIGNATURE_STR, "s");
    assert_eq!(<String as Basic>::SIGNATURE_STR, "s");
    assert_eq!(<char as Basic>::SIGNATURE_STR, "s");
    assert_eq!(<&u32 as Basic>::SIGNATURE_CHAR, 'u');
    assert_eq!(<Box<str> as Basic>::SIGNATURE_CHAR, 's');
    assert_eq!(<std::rc::Rc<u16> as Basic>::SIGNATURE_CHAR, 'q');
    assert_eq!(<std::sync::Arc<i64> as Basic>::SIGNATURE_CHAR, 'x');
    assert_eq!(<u64 as Type>::signature(), Signature::U64);
    assert_eq!(<&str as Type>::signature(), Signature::Str);
}

#[test]
fn basic_types_know_their_alignment() {
    assert_eq!(<u8 as Basic>::alignment(Format::DBus), 1);
    assert_eq!(<bool as Basic>::alignment(Format::DBus), 4);
    assert_eq!(<bool as Basic>::alignment(Format::GVariant), 1);
    assert_eq!(<i8 as Basic>::alignment(Format::DBus), 2);
    assert_eq!(<u32 as Basic>::alignment(Format::DBus), 4);
    assert_eq!(<u64 as Basic>::alignment(Format::GVariant), 8);
    assert_eq!(<String as Basic>::alignment(Format::DBus), 4);
    assert_eq!(<String as Basic>::alignment(Format::GVariant), 1);
    assert_eq!(<usize as Basic>::alignment(Format::DBus), 8);
}

#[test]
fn wire_errors_have_texts() {
    assert_eq!(Error::Message("whatever".to_string()).to_string(), "whatever");
    assert_eq!(Error::ExcessData.to_string(), "excess data");
    assert_eq!(Error::IncorrectType.to_string(), "incorrect type");
    assert_eq!(Error::IncorrectValue.to_string(), "incorrect value");
    assert_eq!(Error::InvalidUtf8.to_string(), "invalid UTF-8");
    assert_eq!(Error::InsufficientData.to_string(), "insufficient data");
    assert_eq!(Error::PaddingNot0.to_string(), "non-0 padding byte(s)");
    assert_eq!(
        Error::InvalidSignature("a{".to_string()).to_string(),
        "invalid signature: \"a{\""
    );
    assert_eq!(
        Error::UnsupportedType("h".to_string()).to_string(),
        "unsupported type (signature: \"h\")"
    );
    let io = std::io::Error::new(std::io::ErrorKind::Other, "disk on fire");
    assert_eq!(Error::Io(io).to_string(), "disk on fire");
    match Error::custom("made to measure") {
        Error::Message(text) => assert_eq!(text, "made to measure"),
        other => panic!("unexpected: {:?}", other),
    }
    match Error::custom(42u8) {
        Error::Message(text) => assert_eq!(text, "42"),
        other => panic!("unexpected: {:?}", other),
    }
}
