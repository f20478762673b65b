use zbus::variant::{
    copy_signature, copy_string, copy_u32, copy_value, native_order, Variant, VariantError,
};
use zbus::wire::endian::Endian;

fn native(v: u32) -> [u8; 4] {
    v.to_ne_bytes()
}

#[test]
fn the_order_of_the_machine_is_the_order_of_its_numbers() {
    let expected = if 1u32.to_ne_bytes() == [1, 0, 0, 0] { Endian::Little } else { Endian::Big };
    assert_eq!(native_order(), expected);
    assert_eq!(Variant::from_u32(1).order(), expected);
}

#[test]
fn u32_goes_in_and_comes_out() {
    for value in [0u32, 1, 0x0102_0304, 0xdead_beef, u32::MAX] {
        let v = Variant::from_u32(value);
        assert_eq!(v.get_signature(), "u");
        assert_eq!(v.get_bytes(), native(value).to_vec());
        assert_eq!(v.len(), 4);
        assert_eq!(v.get_u32().unwrap(), value);
    }
}

#[test]
fn u32_goes_in_and_comes_out_in_either_order() {
    let v = Variant::from_u32_in(Endian::Little, 0x0102_0304);
    assert_eq!(v.get_bytes(), vec![4u8, 3, 2, 1]);
    assert_eq!(v.get_u32(), Ok(0x0102_0304));
    let v = Variant::from_u32_in(Endian::Big, 0x0102_0304);
    assert_eq!(v.get_bytes(), vec![1u8, 2, 3, 4]);
    assert_eq!(v.get_u32(), Ok(0x0102_0304));
    assert_eq!(v.order(), Endian::Big);
}

#[test]
fn two_numbers_have_the_same_bytes_only_if_they_are_the_same() {
    for (a, b) in [(1u32, 2u32), (0x0100_0000, 1), (7, 7), (u32::MAX, 0)] {
        assert_eq!(
            Variant::from_u32(a).get_bytes() == Variant::from_u32(b).get_bytes(),
            a == b
        );
    }
}

#[test]
fn string_goes_in_and_comes_out() {
    for text in ["", "a", "hello world", "gr\u{fc}\u{df}e", "with\0nul"] {
        let v = Variant::from_string(text);
        assert_eq!(v.get_signature(), "s");
        assert_eq!(v.len(), text.len() + 5);
        assert_eq!(v.get_string().unwrap(), text);
    }
}

#[test]
fn string_is_framed_by_length_and_terminator() {
    let v = Variant::from_string("abc");
    let mut expected = native(3).to_vec();
    expected.extend_from_slice(b"abc\0");
    assert_eq!(v.get_bytes(), expected);
    let v = Variant::from_string_in(Endian::Big, "abc");
    assert_eq!(v.get_bytes(), b"\0\0\0\x03abc\0".to_vec());
    assert_eq!(v.get_string().unwrap(), "abc");
}

#[test]
fn object_path_goes_in_and_comes_out() {
    let v = Variant::from_object_path("/org/freedesktop/DBus");
    assert_eq!(v.get_signature(), "o");
    assert_eq!(v.len(), 21 + 5);
    assert_eq!(v.get_string().unwrap(), "/org/freedesktop/DBus");
    let mut expected = native(21).to_vec();
    expected.extend_from_slice(b"/org/freedesktop/DBus\0");
    assert_eq!(v.get_bytes(), expected);
    let v = Variant::from_object_path_in(Endian::Little, "/a");
    assert_eq!(v.get_bytes(), b"\x02\0\0\0/a\0".to_vec());
}

#[test]
fn signature_goes_in_and_comes_out() {
    let v = Variant::from_signature_string("a{sv}").unwrap();
    assert_eq!(v.get_signature(), "g");
    assert_eq!(v.get_bytes(), b"\x05a{sv}\0".to_vec());
    assert_eq!(v.get_string().unwrap(), "a{sv}");
    let empty = Variant::from_signature_string("").unwrap();
    assert_eq!(empty.get_bytes(), vec![0u8, 0]);
    assert_eq!(empty.get_string().unwrap(), "");
}

#[test]
fn a_signature_of_more_than_255_bytes_is_refused() {
    let longest = "y".repeat(255);
    let v = Variant::from_signature_string(&longest).unwrap();
    assert_eq!(v.len(), 257);
    assert_eq!(v.get_bytes()[0], 255);
    assert_eq!(v.get_string().unwrap(), longest);
    assert_eq!(
        Variant::from_signature_string(&"y".repeat(256)).err(),
        Some(VariantError::InvalidSignature)
    );
    assert_eq!(
        Variant::from_signature_string(&"y".repeat(1000)).err(),
        Some(VariantError::InvalidSignature)
    );
}

#[test]
fn what_was_made_is_read_back_from_its_bytes() {
    let made = vec![
        Variant::from_u32(77),
        Variant::from_string("hello"),
        Variant::from_object_path("/org/example"),
        Variant::from_signature_string("a{sv}").unwrap(),
        Variant::from_u32_in(Endian::Big, 77),
        Variant::from_string_in(Endian::Big, "hello"),
    ];
    for v in made {
        let mut data = v.get_bytes();
        data.extend_from_slice(b"what follows");
        let w = Variant::from_data_in(v.order(), &data, &v.get_signature()).unwrap();
        assert_eq!(w.get_bytes(), v.get_bytes());
        assert_eq!(w.get_signature(), v.get_signature());
        assert_eq!(w.get_string().ok(), v.get_string().ok());
        assert_eq!(w.get_u32().ok(), v.get_u32().ok());
    }
}

#[test]
fn from_data_takes_one_number() {
    let data = [1u8, 2, 3, 4, 5, 6];
    let v = Variant::from_data(&data, "u").unwrap();
    assert_eq!(v.get_signature(), "u");
    assert_eq!(v.get_bytes(), vec![1u8, 2, 3, 4]);
    assert_eq!(v.get_u32().unwrap(), u32::from_ne_bytes([1, 2, 3, 4]));
    assert!(matches!(Variant::from_data(&data[..3], "u"), Err(VariantError::InsufficientData)));
    assert!(matches!(Variant::from_data(&[], "u"), Err(VariantError::InsufficientData)));
    assert_eq!(copy_u32(&data), Ok(vec![1u8, 2, 3, 4]));
}

#[test]
fn from_data_takes_one_string() {
    let mut data = native(2).to_vec();
    data.extend_from_slice(b"hi\0rest");
    for signature in ["s", "o"] {
        let v = Variant::from_data(&data, signature).unwrap();
        assert_eq!(v.get_signature(), signature);
        assert_eq!(v.len(), 7);
        assert_eq!(v.get_bytes(), data[..7].to_vec());
        assert_eq!(v.get_string().unwrap(), "hi");
    }
    let v = Variant::from_data_in(Endian::Big, b"\0\0\0\x02hi\0rest", "s").unwrap();
    assert_eq!(v.get_string().unwrap(), "hi");
    assert_eq!(copy_string(Endian::Big, b"\0\0\0\x02hi\0rest"), Ok(b"\0\0\0\x02hi\0".to_vec()));
    assert_eq!(
        copy_string(Endian::Little, b"\0\0\0\x02hi\0rest"),
        Err(VariantError::InsufficientData)
    );
}

#[test]
fn string_without_its_terminator_is_insufficient() {
    let mut data = native(2).to_vec();
    data.extend_from_slice(b"hi");
    assert!(matches!(Variant::from_data(&data, "s"), Err(VariantError::InsufficientData)));
    assert!(matches!(Variant::from_data(&data, "o"), Err(VariantError::InsufficientData)));
    assert!(matches!(Variant::from_data(&data[..3], "s"), Err(VariantError::InsufficientData)));
    data.push(0);
    assert!(Variant::from_data(&data, "s").is_ok());
}

#[test]
fn a_string_that_does_not_end_in_zero_is_refused() {
    let mut data = native(2).to_vec();
    data.extend_from_slice(b"hi!");
    assert_eq!(Variant::from_data(&data, "s").err(), Some(VariantError::IncorrectValue));
    assert_eq!(Variant::from_data(&data, "o").err(), Some(VariantError::IncorrectValue));
    assert_eq!(Variant::from_data(b"\x02su!", "g").err(), Some(VariantError::IncorrectValue));
    assert_eq!(copy_signature(b"\x02su!"), Err(VariantError::IncorrectValue));
}

#[test]
fn string_longer_than_the_data_is_insufficient() {
    let mut data = native(u32::MAX).to_vec();
    data.extend_from_slice(b"short\0");
    assert!(matches!(Variant::from_data(&data, "s"), Err(VariantError::InsufficientData)));
}

#[test]
fn from_data_takes_one_signature() {
    let v = Variant::from_data(b"\x02su\0more", "g").unwrap();
    assert_eq!(v.get_signature(), "g");
    assert_eq!(v.get_bytes(), b"\x02su\0".to_vec());
    assert_eq!(v.get_string().unwrap(), "su");
    assert!(matches!(Variant::from_data(b"\x02su", "g"), Err(VariantError::InsufficientData)));
    assert!(matches!(Variant::from_data(b"", "g"), Err(VariantError::InsufficientData)));
    assert!(Variant::from_data(b"\0\0", "g").is_ok());
}

#[test]
fn a_truth_value_takes_four_bytes() {
    let v = Variant::from_data_in(Endian::Little, &[1u8, 0, 0, 0], "b").unwrap();
    assert_eq!(v.get_signature(), "b");
    assert_eq!(v.len(), 4);
    assert_eq!(v.get_bytes(), vec![1u8, 0, 0, 0]);
    assert_eq!(
        Variant::from_data_in(Endian::Little, &[2u8, 0, 0, 0], "b").err(),
        Some(VariantError::IncorrectValue)
    );
    assert_eq!(
        Variant::from_data_in(Endian::Little, &[1u8, 0], "b").err(),
        Some(VariantError::InsufficientData)
    );
    let v = Variant::from_data(&native(1), "b").unwrap();
    assert_eq!(v.len(), 4);
}

#[test]
fn the_index_of_a_descriptor_is_a_number() {
    let v = Variant::from_data_in(Endian::Little, &[0u8, 0, 0, 0], "h").unwrap();
    assert_eq!(v.get_signature(), "h");
    assert_eq!(v.get_bytes(), vec![0u8, 0, 0, 0]);
    let v = Variant::from_data(&[0u8, 0, 0, 0], "h").unwrap();
    assert_eq!(v.get_bytes(), vec![0u8, 0, 0, 0]);
}

#[test]
fn an_array_longer_than_the_data_is_insufficient() {
    // four bytes are announced, two are there
    let data = [4u8, 0, 0, 0, 1, 2];
    assert_eq!(
        Variant::from_data_in(Endian::Little, &data, "ay").err(),
        Some(VariantError::InsufficientData)
    );
    let v = Variant::from_data_in(Endian::Little, &[2u8, 0, 0, 0, 1, 2, 3], "ay").unwrap();
    assert_eq!(v.get_bytes(), vec![2u8, 0, 0, 0, 1, 2]);
    // numbers of eight bytes start at a multiple of eight
    let data = [8u8, 0, 0, 0, 0, 0, 0, 0, 1, 0, 0, 0, 0, 0, 0, 0, 9];
    let v = Variant::from_data_in(Endian::Little, &data, "at").unwrap();
    assert_eq!(v.len(), 16);
    assert_eq!(
        Variant::from_data_in(Endian::Little, &data[..12], "at").err(),
        Some(VariantError::InsufficientData)
    );
}

#[test]
fn every_type_of_the_wire_format_can_be_in_a_variant() {
    let data = [7u8, 0, 0, 0, 2, 0, 0, 0, b'h', b'i', 0, 0xff];
    let v = Variant::from_data_in(Endian::Little, &data, "(us)").unwrap();
    assert_eq!(v.get_signature(), "(us)");
    assert_eq!(v.get_bytes(), data[..11].to_vec());
    assert_eq!(copy_value(Endian::Little, b"(us)", &data), Ok(data[..11].to_vec()));
    let v = Variant::from_data_in(Endian::Little, &[1u8, b'y', 0, 9, 9], "v").unwrap();
    assert_eq!(v.len(), 4);
    let v = Variant::from_data_in(Endian::Big, &[0u8, 7, 1], "q").unwrap();
    assert_eq!(v.get_bytes(), vec![0u8, 7]);
    assert!(matches!(v.get_u32(), Err(VariantError::IncorrectType)));
    assert!(matches!(v.get_string(), Err(VariantError::IncorrectType)));
}

#[test]
fn a_variant_of_no_signature_is_refused() {
    for signature in ["", "uu", "S", "a", "(", "a{vs}", "!"] {
        assert_eq!(
            Variant::from_data(&[0u8; 16], signature).err(),
            Some(VariantError::InvalidSignature),
            "{signature:?}"
        );
    }
    assert_eq!(
        Variant::from_data(&[0u8; 16], "mu").err(),
        Some(VariantError::UnsupportedType)
    );
}

#[test]
fn wrong_type_is_refused() {
    let number = Variant::from_u32(7);
    assert!(matches!(number.get_string(), Err(VariantError::IncorrectType)));
    let text = Variant::from_string("7");
    assert!(matches!(text.get_u32(), Err(VariantError::IncorrectType)));
    let signature = Variant::from_signature_string("u").unwrap();
    assert!(matches!(signature.get_u32(), Err(VariantError::IncorrectType)));
}

#[test]
fn bytes_that_are_no_text_are_refused() {
    let mut data = native(2).to_vec();
    data.extend_from_slice(&[0xff, 0xfe, 0]);
    let v = Variant::from_data(&data, "s").unwrap();
    assert!(matches!(v.get_string(), Err(VariantError::InvalidUtf8)));
}

#[test]
fn errors_have_texts() {
    assert_eq!(VariantError::IncorrectType.to_string(), "incorrect type");
    assert_eq!(VariantError::InvalidUtf8.to_string(), "invalid UTF-8");
    assert_eq!(VariantError::InsufficientData.to_string(), "insufficient data");
    assert_eq!(VariantError::UnsupportedType.to_string(), "unsupported type");
    assert_eq!(VariantError::InvalidSignature.to_string(), "invalid signature");
    assert_eq!(VariantError::IncorrectValue.to_string(), "incorrect value");
}

#[test]
fn a_descriptor_is_one_of_those_that_are_attached() {
    let v = Variant::from_data_in(Endian::Little, &[1u8, 0, 0, 0], "h").unwrap();
    assert_eq!(v.get_fd_index(2), Ok(1));
    assert_eq!(v.get_fd_index(1), Err(VariantError::IncorrectValue));
    // nothing is attached where the peer did not agree to pass descriptors
    assert_eq!(v.get_fd_index(0), Err(VariantError::IncorrectValue));
    assert_eq!(Variant::from_u32(1).get_fd_index(2), Err(VariantError::IncorrectType));
}
