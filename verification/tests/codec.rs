use zbus::names::object_path::ObjectPath;
use zbus::wire::de::decode;
use zbus::wire::endian::Endian;
use zbus::wire::error::Error;
use zbus::wire::ser::encode;
use zbus::wire::signature::Signature;
use zbus::wire::value::Value;

fn write(endian: Endian, position: usize, value: &Value) -> Vec<u8> {
    let mut out = Vec::new();
    encode(endian, position, value, &mut out).unwrap();
    out
}

fn read(endian: Endian, position: usize, text: &str, bytes: &[u8]) -> Result<(Value, usize), Error> {
    let signature = Signature::from_str(text).unwrap();
    decode(endian, true, position, &signature, bytes, 0, bytes.len())
}

fn samples() -> Vec<(&'static str, Value)> {
    vec![
        ("y", Value::U8(0xab)),
        ("b", Value::Bool(true)),
        ("b", Value::Bool(false)),
        ("n", Value::I16(-2)),
        ("n", Value::I16(i16::MIN)),
        ("q", Value::U16(0xfffe)),
        ("i", Value::I32(-1)),
        ("i", Value::I32(i32::MAX)),
        ("u", Value::U32(0xdead_beef)),
        ("x", Value::I64(i64::MIN)),
        ("x", Value::I64(-3)),
        ("t", Value::U64(u64::MAX - 1)),
        ("d", Value::F64(0x4009_21fb_5444_2d18)),
        ("h", Value::Fd(3)),
        ("s", Value::Str(String::new())),
        ("s", Value::Str("gr\u{fc}\u{df}e".to_string())),
        ("o", Value::ObjectPath(ObjectPath::try_from("/org/example/Thing").unwrap())),
        ("g", Value::Signature(vec![Signature::from_str("a{sv}").unwrap()])),
        ("g", Value::Signature(vec![])),
        ("g", Value::Signature(vec![Signature::Str, Signature::U32])),
        ("v", Value::Value(Box::new(Value::U64(7)))),
        ("v", Value::Value(Box::new(Value::Value(Box::new(Value::Str("deep".to_string())))))),
        ("ay", Value::Array(Signature::U8, vec![Value::U8(1), Value::U8(2), Value::U8(3)])),
        ("at", Value::Array(Signature::U64, vec![])),
        ("at", Value::Array(Signature::U64, vec![Value::U64(1), Value::U64(2)])),
        (
            "as",
            Value::Array(
                Signature::Str,
                vec![Value::Str("a".to_string()), Value::Str("bcd".to_string())],
            ),
        ),
        ("(yt)", Value::Structure(vec![Value::U8(1), Value::U64(2)])),
        (
            "a(yv)",
            Value::Array(
                Signature::Structure(vec![Signature::U8, Signature::Variant]),
                vec![
                    Value::Structure(vec![
                        Value::U8(1),
                        Value::Value(Box::new(Value::ObjectPath(
                            ObjectPath::try_from("/a").unwrap(),
                        ))),
                    ]),
                    Value::Structure(vec![
                        Value::U8(3),
                        Value::Value(Box::new(Value::Str("Ping".to_string()))),
                    ]),
                ],
            ),
        ),
        (
            "(s(uay)av)",
            Value::Structure(vec![
                Value::Str("x".to_string()),
                Value::Structure(vec![
                    Value::U32(9),
                    Value::Array(Signature::U8, vec![Value::U8(0)]),
                ]),
                Value::Array(
                    Signature::Variant,
                    vec![Value::Value(Box::new(Value::Bool(true)))],
                ),
            ]),
        ),
    ]
}

#[test]
fn what_is_written_is_read_back() {
    for endian in [Endian::Little, Endian::Big] {
        for position in 0usize..9 {
            for (text, value) in samples() {
                let bytes = write(endian, position, &value);
                let (back, end) = read(endian, position, text, &bytes).unwrap();
                assert_eq!(back, value, "{} at {}", text, position);
                assert_eq!(end, bytes.len());
                // bytes behind the value do not matter
                let mut longer = bytes.clone();
                longer.extend_from_slice(&[0xff, 0xee]);
                let (back, end) = read(endian, position, text, &longer).unwrap();
                assert_eq!(back, value);
                assert_eq!(end, bytes.len());
            }
        }
    }
}

#[test]
fn exact_bytes_of_basic_values() {
    assert_eq!(write(Endian::Little, 0, &Value::U8(7)), vec![7]);
    assert_eq!(write(Endian::Little, 0, &Value::Bool(true)), vec![1, 0, 0, 0]);
    assert_eq!(write(Endian::Big, 0, &Value::Bool(true)), vec![0, 0, 0, 1]);
    assert_eq!(write(Endian::Little, 0, &Value::I16(-2)), vec![0xfe, 0xff]);
    assert_eq!(write(Endian::Big, 0, &Value::U16(0x0102)), vec![1, 2]);
    assert_eq!(write(Endian::Little, 0, &Value::I32(-1)), vec![0xff; 4]);
    assert_eq!(write(Endian::Big, 0, &Value::U32(0x0102_0304)), vec![1, 2, 3, 4]);
    assert_eq!(write(Endian::Little, 0, &Value::I64(-1)), vec![0xff; 8]);
    assert_eq!(
        write(Endian::Big, 0, &Value::U64(0x0102_0304_0506_0708)),
        vec![1, 2, 3, 4, 5, 6, 7, 8]
    );
    assert_eq!(write(Endian::Little, 0, &Value::Fd(2)), vec![2, 0, 0, 0]);
    assert_eq!(
        write(Endian::Little, 0, &Value::Str("hi".to_string())),
        vec![2, 0, 0, 0, b'h', b'i', 0]
    );
    assert_eq!(
        write(Endian::Big, 0, &Value::ObjectPath(ObjectPath::try_from("/a").unwrap())),
        vec![0, 0, 0, 2, b'/', b'a', 0]
    );
    assert_eq!(
        write(Endian::Little, 0, &Value::Signature(vec![Signature::from_str("as").unwrap()])),
        vec![2, b'a', b's', 0]
    );
}

#[test]
fn padding_brings_values_to_their_boundary() {
    assert_eq!(write(Endian::Little, 1, &Value::Bool(true)), vec![0, 0, 0, 1, 0, 0, 0]);
    assert_eq!(write(Endian::Little, 1, &Value::U16(1)), vec![0, 1, 0]);
    assert_eq!(write(Endian::Little, 3, &Value::U64(1)), vec![0, 0, 0, 0, 0, 1, 0, 0, 0, 0, 0, 0, 0]);
    assert_eq!(write(Endian::Little, 5, &Value::U8(9)), vec![9]);
    assert_eq!(write(Endian::Little, 6, &Value::Str(String::new())), vec![0, 0, 0, 0, 0, 0, 0]);
    // a signature needs no padding
    assert_eq!(write(Endian::Little, 3, &Value::Signature(vec![Signature::U8])), vec![1, b'y', 0]);
}

#[test]
fn variant_is_signature_then_value() {
    // signature "b" takes 3 bytes, then the value is brought to a multiple of 4
    assert_eq!(
        write(Endian::Little, 0, &Value::Value(Box::new(Value::Bool(true)))),
        vec![1, b'b', 0, 0, 1, 0, 0, 0]
    );
    assert_eq!(
        write(Endian::Little, 0, &Value::Value(Box::new(Value::U8(5)))),
        vec![1, b'y', 0, 5]
    );
    assert_eq!(
        write(
            Endian::Little,
            0,
            &Value::Value(Box::new(Value::Structure(vec![Value::U8(1), Value::U8(2)])))
        ),
        vec![4, b'(', b'y', b'y', b')', 0, 0, 0, 1, 2]
    );
}

#[test]
fn array_length_leaves_out_the_padding() {
    // length 8, then 4 bytes of padding up to the boundary of the elements
    assert_eq!(
        write(Endian::Little, 0, &Value::Array(Signature::U64, vec![Value::U64(1)])),
        vec![8, 0, 0, 0, 0, 0, 0, 0, 1, 0, 0, 0, 0, 0, 0, 0]
    );
    // the padding is there even when the array is empty
    assert_eq!(
        write(Endian::Little, 0, &Value::Array(Signature::U64, vec![])),
        vec![0, 0, 0, 0, 0, 0, 0, 0]
    );
    assert_eq!(
        write(Endian::Little, 0, &Value::Array(Signature::U16, vec![Value::U16(1), Value::U16(2)])),
        vec![4, 0, 0, 0, 1, 0, 2, 0]
    );
}

#[test]
fn structure_starts_at_a_multiple_of_eight() {
    assert_eq!(
        write(Endian::Little, 1, &Value::Structure(vec![Value::U8(1), Value::U32(2)])),
        vec![0, 0, 0, 0, 0, 0, 0, 1, 0, 0, 0, 2, 0, 0, 0]
    );
}

#[test]
fn string_without_its_terminator_is_insufficient_data() {
    let bytes = [2u8, 0, 0, 0, b'h', b'i'];
    assert!(matches!(read(Endian::Little, 0, "s", &bytes), Err(Error::InsufficientData)));
    assert!(matches!(read(Endian::Little, 0, "o", &bytes), Err(Error::InsufficientData)));
    assert!(matches!(read(Endian::Little, 0, "g", &[2, b'a', b's']), Err(Error::InsufficientData)));
    let bytes = [2u8, 0, 0, 0, b'h', b'i', 0];
    assert!(read(Endian::Little, 0, "s", &bytes).is_ok());
}

#[test]
fn array_longer_than_the_buffer_is_insufficient_data() {
    let bytes = [5u8, 0, 0, 0, 1, 2, 3, 4];
    assert!(matches!(read(Endian::Little, 0, "ay", &bytes), Err(Error::InsufficientData)));
    let bytes = [0xffu8, 0xff, 0xff, 0xff, 1, 2, 3, 4];
    assert!(matches!(read(Endian::Little, 0, "ay", &bytes), Err(Error::InsufficientData)));
    let bytes = [4u8, 0, 0, 0, 1, 2, 3, 4];
    assert_eq!(
        read(Endian::Little, 0, "ay", &bytes).unwrap().0,
        Value::Array(
            Signature::U8,
            vec![Value::U8(1), Value::U8(2), Value::U8(3), Value::U8(4)]
        )
    );
    // an element that reaches beyond the array
    let bytes = [6u8, 0, 0, 0, 1, 0, 0, 0, 2, 0, 9, 9];
    assert!(matches!(read(Endian::Little, 0, "au", &bytes), Err(Error::InsufficientData)));
}

#[test]
fn short_buffers_are_insufficient_data() {
    assert!(matches!(read(Endian::Little, 0, "y", &[]), Err(Error::InsufficientData)));
    assert!(matches!(read(Endian::Little, 0, "u", &[1, 2, 3]), Err(Error::InsufficientData)));
    assert!(matches!(read(Endian::Little, 1, "u", &[0, 0]), Err(Error::InsufficientData)));
    assert!(matches!(read(Endian::Little, 0, "t", &[0; 7]), Err(Error::InsufficientData)));
    assert!(matches!(read(Endian::Little, 0, "v", &[1, b'u', 0, 0]), Err(Error::InsufficientData)));
    assert!(matches!(read(Endian::Little, 0, "(yu)", &[1, 0, 0, 0]), Err(Error::InsufficientData)));
}

#[test]
fn truth_values_are_zero_or_one() {
    assert!(matches!(read(Endian::Little, 0, "b", &[2, 0, 0, 0]), Err(Error::IncorrectValue)));
    assert!(matches!(read(Endian::Little, 0, "b", &[1, 0, 0, 1]), Err(Error::IncorrectValue)));
    assert_eq!(read(Endian::Little, 0, "b", &[0, 0, 0, 0]).unwrap(), (Value::Bool(false), 4));
}

#[test]
fn strict_reader_minds_the_padding() {
    let signature = Signature::U32;
    let bytes = [0u8, 1, 0, 7, 0, 0, 0];
    assert!(matches!(
        decode(Endian::Little, true, 1, &signature, &bytes, 0, bytes.len()),
        Err(Error::PaddingNot0)
    ));
    assert_eq!(
        decode(Endian::Little, false, 1, &signature, &bytes, 0, bytes.len()).unwrap(),
        (Value::U32(7), 7)
    );
}

#[test]
fn text_has_to_be_text() {
    let bytes = [2u8, 0, 0, 0, 0xff, 0xfe, 0];
    assert!(matches!(read(Endian::Little, 0, "s", &bytes), Err(Error::InvalidUtf8)));
    assert!(matches!(read(Endian::Little, 0, "o", &bytes), Err(Error::InvalidUtf8)));
    let bytes = [2u8, 0, 0, 0, b'a', b'b', 0];
    assert!(matches!(read(Endian::Little, 0, "o", &bytes), Err(Error::IncorrectValue)));
    match read(Endian::Little, 0, "g", &[2, b'a', b'{', 0]) {
        Err(Error::InvalidSignature(text)) => assert_eq!(text, "a{"),
        other => panic!("unexpected: {:?}", other),
    }
    // the signature of a variant is one complete type
    assert!(matches!(
        read(Endian::Little, 0, "v", &[2, b'y', b'y', 0, 1, 2]),
        Err(Error::InvalidSignature(_))
    ));
    assert!(matches!(read(Endian::Little, 0, "v", &[0, 0]), Err(Error::InvalidSignature(_))));
}

fn entry(key: Value, value: Value) -> Value {
    Value::Structure(vec![key, value])
}

fn properties() -> Value {
    Value::Dict(
        Signature::Str,
        Signature::Variant,
        vec![entry(Value::Str("Test".to_string()), Value::Value(Box::new(Value::Str("test".to_string()))))],
    )
}

#[test]
fn dictionaries_are_arrays_of_entries() {
    // one entry from a byte to a 16-bit number
    let dict = Value::Dict(
        Signature::U8,
        Signature::U16,
        vec![entry(Value::U8(1), Value::U16(2)), entry(Value::U8(3), Value::U16(4))],
    );
    let bytes = write(Endian::Little, 0, &dict);
    // length 12, padding up to 8, entry, padding up to 16, entry
    assert_eq!(bytes, vec![12, 0, 0, 0, 0, 0, 0, 0, 1, 0, 2, 0, 0, 0, 0, 0, 3, 0, 4, 0]);
    assert_eq!(read(Endian::Little, 0, "a{yq}", &bytes).unwrap(), (dict, 20));
    // an empty dictionary keeps the padding
    let empty = Value::Dict(Signature::Str, Signature::Variant, vec![]);
    assert_eq!(write(Endian::Little, 0, &empty), vec![0, 0, 0, 0, 0, 0, 0, 0]);
}

#[test]
fn dictionaries_are_read_back() {
    let interfaces = Value::Dict(
        Signature::Str,
        Signature::from_str("a{sv}").unwrap(),
        vec![entry(Value::Str("org.example.TestObj".to_string()), properties())],
    );
    for endian in [Endian::Little, Endian::Big] {
        for position in 0usize..9 {
            for (text, value) in [("a{sv}", properties()), ("a{sa{sv}}", interfaces_clone(&interfaces))] {
                let bytes = write(endian, position, &value);
                let (back, end) = read(endian, position, text, &bytes).unwrap();
                assert_eq!(back, value);
                assert_eq!(end, bytes.len());
            }
        }
    }
    // in a variant, the signature says that it is a dictionary
    let boxed = Value::Value(Box::new(properties()));
    let bytes = write(Endian::Little, 0, &boxed);
    assert_eq!(&bytes[..7], b"\x05a{sv}\0");
    assert_eq!(read(Endian::Little, 0, "v", &bytes).unwrap().0, boxed);
}

fn interfaces_clone(_: &Value) -> Value {
    Value::Dict(
        Signature::Str,
        Signature::from_str("a{sv}").unwrap(),
        vec![entry(Value::Str("org.example.TestObj".to_string()), properties())],
    )
}

#[test]
fn types_that_are_not_handled() {
    assert!(matches!(read(Endian::Little, 0, "my", &[0; 8]), Err(Error::UnsupportedType(_))));
    assert!(matches!(read(Endian::Little, 0, "", &[0; 8]), Err(Error::UnsupportedType(_))));
}

#[test]
fn reading_starts_and_ends_where_it_is_told() {
    let signature = Signature::U16;
    let bytes = [9u8, 9, 1, 0, 9, 9];
    assert_eq!(
        decode(Endian::Little, true, 0, &signature, &bytes, 2, 4).unwrap(),
        (Value::U16(1), 4)
    );
    assert!(matches!(
        decode(Endian::Little, true, 0, &signature, &bytes, 2, 3),
        Err(Error::InsufficientData)
    ));
}

#[test]
fn text_ends_in_a_zero_byte() {
    assert!(matches!(
        read(Endian::Little, 0, "s", &[2, 0, 0, 0, b'h', b'i', b'!']),
        Err(Error::IncorrectValue)
    ));
    assert!(matches!(
        read(Endian::Little, 0, "o", &[1, 0, 0, 0, b'/', 1]),
        Err(Error::IncorrectValue)
    ));
    assert!(matches!(read(Endian::Little, 0, "g", &[1, b'u', b'u']), Err(Error::IncorrectValue)));
    assert!(matches!(
        read(Endian::Little, 0, "v", &[1, b'u', 7, 0, 1, 0, 0, 0]),
        Err(Error::IncorrectValue)
    ));
    assert!(read(Endian::Little, 0, "s", &[2, 0, 0, 0, b'h', b'i', 0]).is_ok());
}
