use zbus::wire::basic::Basic;
use zbus::wire::codec::{from_bytes, from_bytes_strict, to_bytes};
use zbus::wire::context::{padding_for_n_bytes, Context};
use zbus::wire::endian::Endian;
use zbus::wire::error::Error;
use zbus::wire::signature::{Format, Signature};
use zbus::wire::value::Value;

const LE: Endian = Endian::Little;

/// Writes a basic value at position 1, where it needs padding, reads it back, writes it at
/// position 0, and does the same with the value inside a variant. Gives the bytes that
/// were written at position 0.
fn basic_type_test(
    endian: Endian,
    format: Format,
    test_value: Value,
    expected_len: usize,
    signature: &str,
    align: usize,
    expected_value_len: usize,
) -> Vec<u8> {
    let sig = Signature::from_str(signature).unwrap();
    // Lie that we're starting at byte 1 in the overall message to test padding
    let ctxt = Context::new(format, endian, 1);
    let encoded = to_bytes(ctxt, &test_value).unwrap();
    let padding = padding_for_n_bytes(1, align);
    assert_eq!(
        encoded.len(),
        expected_len + padding,
        "invalid encoding using `to_bytes`"
    );
    let (decoded, parsed) = from_bytes_strict(ctxt, &sig, &encoded).unwrap();
    assert_eq!(decoded, test_value, "invalid decoding");
    assert_eq!(parsed, encoded.len(), "invalid parsing");

    // Now encode w/o padding
    let ctxt = Context::new(format, endian, 0);
    let encoded = to_bytes(ctxt, &test_value).unwrap();
    assert_eq!(encoded.len(), expected_len);

    // As Value
    let as_value = Value::Value(Box::new(to_bytes_roundtrip(ctxt, &sig, &test_value)));
    let in_variant = to_bytes(ctxt, &as_value).unwrap();
    assert_eq!(in_variant.len(), expected_value_len);
    let (back, parsed) = from_bytes(ctxt, &Signature::Variant, &in_variant).unwrap();
    assert_eq!(back, as_value);
    assert_eq!(parsed, in_variant.len());

    encoded
}

fn to_bytes_roundtrip(ctxt: Context, sig: &Signature, value: &Value) -> Value {
    let bytes = to_bytes(ctxt, value).unwrap();
    from_bytes(ctxt, sig, &bytes).unwrap().0
}

#[test]
fn bool_value() {
    let encoded =
        basic_type_test(LE, Format::DBus, Value::Bool(true), 4, <bool as Basic>::SIGNATURE_STR, 4, 8);
    assert_eq!(encoded.len(), 4);

    {
        let gvariant = basic_type_test(
            LE,
            Format::GVariant,
            Value::Bool(true),
            1,
            <bool as Basic>::SIGNATURE_STR,
            1,
            3,
        );
        assert_eq!(gvariant, [1]);
    }
}

#[test]
fn u8_value() {
    let encoded = basic_type_test(LE, Format::DBus, Value::U8(77), 1, "y", 1, 4);
    assert_eq!(encoded, [77]);
    let encoded = basic_type_test(LE, Format::GVariant, Value::U8(77), 1, "y", 1, 3);
    assert_eq!(encoded, [77]);
}

#[test]
fn i16_value() {
    let encoded = basic_type_test(LE, Format::DBus, Value::I16(-77), 2, "n", 2, 6);
    assert_eq!(encoded, (-77i16).to_le_bytes());
    let encoded = basic_type_test(LE, Format::GVariant, Value::I16(-77), 2, "n", 2, 4);
    assert_eq!(encoded, (-77i16).to_le_bytes());
}

#[test]
fn u32_value() {
    let encoded = basic_type_test(LE, Format::DBus, Value::U32(0xabba_abba), 4, "u", 4, 8);
    assert_eq!(encoded, 0xabba_abbau32.to_le_bytes());
    let encoded = basic_type_test(LE, Format::GVariant, Value::U32(0xabba_abba), 4, "u", 4, 6);
    assert_eq!(encoded, 0xabba_abbau32.to_le_bytes());
    let encoded = basic_type_test(Endian::Big, Format::DBus, Value::U32(0xabba_abba), 4, "u", 4, 8);
    assert_eq!(encoded, 0xabba_abbau32.to_be_bytes());
}

#[test]
fn i64_value() {
    let v = -0x7bba_abba_abba_abbai64;
    let encoded = basic_type_test(LE, Format::DBus, Value::I64(v), 8, "x", 8, 16);
    assert_eq!(encoded, v.to_le_bytes());
    let encoded = basic_type_test(LE, Format::GVariant, Value::I64(v), 8, "x", 8, 10);
    assert_eq!(encoded, v.to_le_bytes());
}

#[test]
fn f64_value_travels_as_its_bits() {
    let bits = 99999.99999_f64.to_bits();
    let encoded = basic_type_test(LE, Format::DBus, Value::F64(bits), 8, "d", 8, 16);
    assert_eq!(f64::from_le_bytes(encoded.try_into().unwrap()), 99999.99999_f64);
}

#[test]
fn str_value() {
    let text = "hello world";
    let encoded = basic_type_test(LE, Format::DBus, Value::Str(text.to_string()), 16, "s", 4, 20);
    assert_eq!(&encoded[4..15], text.as_bytes());
    let encoded =
        basic_type_test(LE, Format::GVariant, Value::Str(text.to_string()), 12, "s", 1, 14);
    assert_eq!(encoded, b"hello world\0");
}

#[test]
fn gvariant_variant_is_value_separator_signature() {
    let ctxt = Context::new_gvariant(LE, 0);
    let bytes = to_bytes(ctxt, &Value::Value(Box::new(Value::Bool(true)))).unwrap();
    assert_eq!(bytes, [1, 0, b'b']);
    let bytes = to_bytes(ctxt, &Value::Value(Box::new(Value::U32(0)))).unwrap();
    assert_eq!(bytes, [0, 0, 0, 0, 0, b'u']);
    assert_eq!(
        from_bytes(ctxt, &Signature::Variant, &bytes).unwrap(),
        (Value::Value(Box::new(Value::U32(0))), 6)
    );
    // a variant starts at a multiple of 8
    let ctxt = Context::new_gvariant(LE, 3);
    let bytes = to_bytes(ctxt, &Value::Value(Box::new(Value::U8(9)))).unwrap();
    assert_eq!(bytes, [0, 0, 0, 0, 0, 9, 0, b'y']);
}

#[test]
fn gvariant_text_ends_at_its_zero_byte() {
    let ctxt = Context::new_gvariant(LE, 0);
    assert!(matches!(from_bytes(ctxt, &Signature::Str, b"no end"), Err(Error::InsufficientData)));
    assert_eq!(
        from_bytes(ctxt, &Signature::Str, b"end\0more").unwrap(),
        (Value::Str("end".to_string()), 4)
    );
    assert!(matches!(from_bytes(ctxt, &Signature::Str, b"\xff\0"), Err(Error::InvalidUtf8)));
    assert!(matches!(
        from_bytes(ctxt, &Signature::ObjectPath, b"not/a/path\0"),
        Err(Error::IncorrectValue)
    ));
    assert!(matches!(
        from_bytes(ctxt, &Signature::Signature, b"a{\0"),
        Err(Error::InvalidSignature(_))
    ));
    assert_eq!(
        from_bytes(ctxt, &Signature::Signature, b"a{sv}\0").unwrap().0,
        Value::Signature(vec![Signature::from_str("a{sv}").unwrap()])
    );
}

#[test]
fn gvariant_faults() {
    let ctxt = Context::new_gvariant(LE, 0);
    assert!(matches!(from_bytes(ctxt, &Signature::Bool, &[2]), Err(Error::IncorrectValue)));
    assert!(matches!(from_bytes(ctxt, &Signature::Bool, &[]), Err(Error::InsufficientData)));
    assert!(matches!(from_bytes(ctxt, &Signature::Variant, &[1, b'b']), Err(Error::InsufficientData)));
    assert!(matches!(
        from_bytes(ctxt, &Signature::Variant, &[1, 0, b'!']),
        Err(Error::InvalidSignature(_))
    ));
    // the value in the variant is shorter than the bytes in front of the separator
    assert!(matches!(
        from_bytes(ctxt, &Signature::Variant, &[1, 1, 0, b'b']),
        Err(Error::ExcessData)
    ));
    // a value that may be there or not is not read
    assert!(matches!(
        from_bytes(ctxt, &Signature::from_str("my").unwrap(), &[1]),
        Err(Error::UnsupportedType(_))
    ));
    assert!(matches!(
        from_bytes(ctxt, &Signature::from_str("amy").unwrap(), &[1, 1]),
        Err(Error::UnsupportedType(_))
    ));
    // a number that is cut short
    assert!(matches!(
        from_bytes(ctxt, &Signature::from_str("au").unwrap(), &[1, 2, 3, 4, 5]),
        Err(Error::InsufficientData)
    ));
}

#[test]
fn padding_for_every_phase() {
    for position in 0usize..32 {
        for alignment in [1usize, 2, 4, 8] {
            let p = padding_for_n_bytes(position, alignment);
            assert!(p < alignment);
            assert_eq!((position + p) % alignment, 0);
        }
    }
    assert_eq!(padding_for_n_bytes(1, 4), 3);
    assert_eq!(padding_for_n_bytes(8, 8), 0);
    assert_eq!(padding_for_n_bytes(usize::MAX, 8), 1);
}

#[test]
fn context_remembers_what_it_was_made_with() {
    let c = Context::new(Format::GVariant, Endian::Big, 7);
    assert_eq!(c.format(), Format::GVariant);
    assert_eq!(c.endian(), Endian::Big);
    assert_eq!(c.position(), 7);
    assert_eq!(Context::new_dbus(LE, 3), Context::new(Format::DBus, LE, 3));
    assert_eq!(Context::new_gvariant(LE, 3), Context::new(Format::GVariant, LE, 3));
}
