use zbus::wire::codec::{from_bytes, from_bytes_strict, to_bytes};
use zbus::wire::context::Context;
use zbus::wire::endian::Endian;
use zbus::wire::error::Error;
use zbus::wire::signature::Signature;
use zbus::wire::value::Value;

fn le() -> Context {
    Context::new_gvariant(Endian::Little, 0)
}

fn text(s: &str) -> Value {
    Value::Str(s.to_string())
}

fn sig(s: &str) -> Signature {
    Signature::from_str(s).unwrap()
}

fn pair(k: Value, v: Value) -> Value {
    Value::Structure(vec![k, v])
}

fn variant(v: Value) -> Value {
    Value::Value(Box::new(v))
}

fn there_and_back(ctx: Context, signature: &str, value: &Value) -> Vec<u8> {
    let bytes = to_bytes(ctx, value).unwrap();
    let (read, used) = from_bytes_strict(ctx, &sig(signature), &bytes).unwrap();
    assert_eq!(&read, value, "{signature}");
    assert_eq!(used, bytes.len(), "{signature}");
    let (read, used) = from_bytes(ctx, &sig(signature), &bytes).unwrap();
    assert_eq!(&read, value, "{signature}");
    assert_eq!(used, bytes.len(), "{signature}");
    bytes
}

#[test]
fn an_array_of_strings_ends_with_the_ends_of_its_strings() {
    let v = Value::Array(
        Signature::Str,
        vec![text("i"), text("can"), text("has"), text("strings?")],
    );
    let bytes = there_and_back(le(), "as", &v);
    let mut expected = b"i\0can\0has\0strings?\0".to_vec();
    expected.extend_from_slice(&[0x02, 0x06, 0x0a, 0x13]);
    assert_eq!(bytes, expected);
}

#[test]
fn a_structure_notes_the_end_of_its_string() {
    let v = Value::Structure(vec![text("foo"), Value::I32(-1)]);
    let bytes = there_and_back(le(), "(si)", &v);
    assert_eq!(bytes, vec![0x66, 0x6f, 0x6f, 0x00, 0xff, 0xff, 0xff, 0xff, 0x04]);
}

#[test]
fn an_array_of_structures_pads_between_them() {
    let v = Value::Array(
        sig("(si)"),
        vec![
            Value::Structure(vec![text("hi"), Value::I32(-2)]),
            Value::Structure(vec![text("bye"), Value::I32(-1)]),
        ],
    );
    let bytes = there_and_back(le(), "a(si)", &v);
    assert_eq!(
        bytes,
        vec![
            0x68, 0x69, 0x00, 0x00, 0xfe, 0xff, 0xff, 0xff, 0x03, 0x00, 0x00, 0x00, 0x62, 0x79,
            0x65, 0x00, 0xff, 0xff, 0xff, 0xff, 0x04, 0x09, 0x15,
        ]
    );
}

#[test]
fn structures_of_a_fixed_size_are_padded_to_their_alignment() {
    let v = Value::Structure(vec![Value::U8(0x70), Value::U8(0x80)]);
    assert_eq!(there_and_back(le(), "(yy)", &v), vec![0x70, 0x80]);
    let v = Value::Structure(vec![Value::I32(0x60), Value::U8(0x70)]);
    assert_eq!(there_and_back(le(), "(iy)", &v), vec![0x60, 0, 0, 0, 0x70, 0, 0, 0]);
    let v = Value::Structure(vec![Value::U8(0x70), Value::I32(0x60)]);
    assert_eq!(there_and_back(le(), "(yi)", &v), vec![0x70, 0, 0, 0, 0x60, 0, 0, 0]);
}

#[test]
fn an_array_of_structures_of_a_fixed_size_has_no_table() {
    let v = Value::Array(
        sig("(iy)"),
        vec![
            Value::Structure(vec![Value::I32(96), Value::U8(0x70)]),
            Value::Structure(vec![Value::I32(648), Value::U8(0xf7)]),
        ],
    );
    assert_eq!(
        there_and_back(le(), "a(iy)", &v),
        vec![0x60, 0, 0, 0, 0x70, 0, 0, 0, 0x88, 0x02, 0, 0, 0xf7, 0, 0, 0]
    );
}

#[test]
fn arrays_of_numbers_are_the_numbers() {
    let v = Value::Array(
        Signature::U8,
        vec![Value::U8(4), Value::U8(5), Value::U8(6), Value::U8(7)],
    );
    assert_eq!(there_and_back(le(), "ay", &v), vec![4, 5, 6, 7]);
    let v = Value::Array(Signature::I32, vec![Value::I32(4), Value::I32(258)]);
    assert_eq!(there_and_back(le(), "ai", &v), vec![4, 0, 0, 0, 2, 1, 0, 0]);
    let be = Context::new_gvariant(Endian::Big, 0);
    assert_eq!(there_and_back(be, "ai", &v), vec![0, 0, 0, 4, 0, 0, 1, 2]);
    let v = Value::Array(
        Signature::Bool,
        vec![
            Value::Bool(true),
            Value::Bool(false),
            Value::Bool(false),
            Value::Bool(true),
            Value::Bool(true),
        ],
    );
    assert_eq!(there_and_back(le(), "ab", &v), vec![1, 0, 0, 1, 1]);
}

#[test]
fn an_entry_notes_the_end_of_its_key() {
    let v = Value::Dict(
        Signature::Str,
        Signature::I32,
        vec![pair(text("a key"), Value::I32(514))],
    );
    let bytes = there_and_back(le(), "a{si}", &v);
    assert_eq!(
        bytes,
        vec![
            0x61, 0x20, 0x6b, 0x65, 0x79, 0x00, 0x00, 0x00, 0x02, 0x02, 0x00, 0x00, 0x06, 0x0d
        ]
    );
}

#[test]
fn empty_containers_take_no_bytes() {
    let v = Value::Array(Signature::Str, vec![]);
    assert_eq!(there_and_back(le(), "as", &v), Vec::<u8>::new());
    let v = Value::Array(Signature::U32, vec![]);
    assert_eq!(there_and_back(le(), "au", &v), Vec::<u8>::new());
    let v = Value::Dict(Signature::Str, Signature::Variant, vec![]);
    assert_eq!(there_and_back(le(), "a{sv}", &v), Vec::<u8>::new());
}

#[test]
fn issue_99() {
    let dict = Value::Dict(
        Signature::Str,
        Signature::Variant,
        vec![
            pair(text("hi"), variant(text("hello"))),
            pair(text("bye"), variant(text("then"))),
        ],
    );
    let element = Value::Structure(vec![dict]);

    let ctxt = Context::new_gvariant(Endian::Little, 0);
    let signature = sig("(a{sv})");

    let encoded = to_bytes(ctxt, &element).unwrap();
    let (decoded, _) = from_bytes(ctxt, &signature, &encoded).unwrap();
    assert_eq!(decoded, element);
}

#[test]
fn a_dictionary_of_variants_is_laid_out_entry_by_entry() {
    let dict = Value::Dict(
        Signature::Str,
        Signature::Variant,
        vec![pair(text("hi"), variant(text("hello")))],
    );
    let bytes = there_and_back(le(), "a{sv}", &dict);
    // the key, zeros up to 8, the string, a zero, its signature, the end of the key,
    // and the end of the entry
    let mut expected = b"hi\0\0\0\0\0\0hello\0\0s".to_vec();
    expected.extend_from_slice(&[3, 17]);
    assert_eq!(bytes, expected);
}

#[test]
fn nested_containers_come_back() {
    let inner = Value::Array(sig("as"), vec![
        Value::Array(Signature::Str, vec![text("a"), text("bc")]),
        Value::Array(Signature::Str, vec![]),
        Value::Array(Signature::Str, vec![text("")]),
    ]);
    there_and_back(le(), "aas", &inner);
    let v = Value::Structure(vec![
        Value::U8(7),
        inner,
        Value::Structure(vec![Value::U64(1 << 40), Value::Bool(true)]),
        text("tail"),
        Value::I16(-3),
        variant(Value::Structure(vec![Value::U32(9), text("nine")])),
        Value::Dict(
            Signature::U32,
            sig("(sy)"),
            vec![
                pair(Value::U32(1), Value::Structure(vec![text("one"), Value::U8(1)])),
                pair(Value::U32(2), Value::Structure(vec![text("two"), Value::U8(2)])),
            ],
        ),
        Value::Dict(
            Signature::U8,
            Signature::U64,
            vec![pair(Value::U8(1), Value::U64(10)), pair(Value::U8(2), Value::U64(20))],
        ),
    ]);
    for endian in [Endian::Little, Endian::Big] {
        for position in [0usize, 1, 3, 4, 8, 13] {
            there_and_back(
                Context::new_gvariant(endian, position),
                "(yaas(tb)snva{u(sy)}a{yt})",
                &v,
            );
        }
    }
}

#[test]
fn a_long_array_has_offsets_of_two_bytes() {
    let items: Vec<Value> = (0..100).map(|i| text(&format!("{i:03}"))).collect();
    let v = Value::Array(Signature::Str, items);
    let bytes = there_and_back(le(), "as", &v);
    assert_eq!(bytes.len(), 400 + 200);
    assert_eq!(&bytes[400..404], &[4, 0, 8, 0]);
    assert_eq!(&bytes[598..], &[0x90, 0x01]);
    // 63 strings fit with offsets of one byte, 64 do not
    let items: Vec<Value> = (0..51).map(|i| text(&format!("{i:03}"))).collect();
    let bytes = there_and_back(le(), "as", &Value::Array(Signature::Str, items));
    assert_eq!(bytes.len(), 204 + 51);
    let items: Vec<Value> = (0..52).map(|i| text(&format!("{i:03}"))).collect();
    let bytes = there_and_back(le(), "as", &Value::Array(Signature::Str, items));
    assert_eq!(bytes.len(), 208 + 104);
}

#[test]
fn broken_containers_are_refused_and_never_panic() {
    let v = Value::Structure(vec![
        Value::Array(sig("(si)"), vec![
            Value::Structure(vec![text("hi"), Value::I32(-2)]),
            Value::Structure(vec![text("bye"), Value::I32(-1)]),
        ]),
        Value::Dict(
            Signature::Str,
            Signature::Variant,
            vec![pair(text("k"), variant(Value::U16(5)))],
        ),
        text("end"),
    ]);
    let signature = sig("(a(si)a{sv}s)");
    let bytes = to_bytes(le(), &v).unwrap();
    assert_eq!(from_bytes(le(), &signature, &bytes).unwrap().0, v);
    for cut in 0..bytes.len() {
        assert!(from_bytes(le(), &signature, &bytes[..cut]).is_err(), "cut at {cut}");
    }
    for at in 0..bytes.len() {
        for bit in 0..8 {
            let mut broken = bytes.clone();
            broken[at] ^= 1 << bit;
            // whatever comes back, it is a value of the type or an error
            if let Ok((read, used)) = from_bytes(le(), &signature, &broken) {
                assert_eq!(used, broken.len());
                assert!(matches!(read, Value::Structure(_)));
            }
        }
    }
}

#[test]
fn an_offset_behind_the_table_is_refused() {
    // an array of strings whose only offset points behind itself
    let signature = sig("as");
    assert!(matches!(
        from_bytes(le(), &signature, &[b'a', 0, 9]),
        Err(Error::IncorrectValue)
    ));
    // a string that ends before its offset says
    assert!(from_bytes(le(), &signature, &[b'a', 0, 0, 3]).is_err());
    // a table that is no whole number of offsets cannot be: every byte counts here
    assert_eq!(
        from_bytes(le(), &signature, &[b'a', 0, 2]).unwrap().0,
        Value::Array(Signature::Str, vec![text("a")])
    );
}
