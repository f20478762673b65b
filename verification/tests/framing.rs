use zbus::error::Error;
use zbus::framing::{frame_length, header_to_bytes, Framer};
use zbus::message::{Message, Type};
use zbus::wire::endian::Endian;
use zbus::wire::signature::Signature;
use zbus::wire::value::Value;

fn call() -> Message {
    Message::method_call("/a", "M").unwrap().build(&vec![]).unwrap().with_serial(1).unwrap()
}

fn greeting(endian: Endian) -> Message {
    Message::signal("/org/example", "org.example.Iface", "Changed")
        .unwrap()
        .sender(":1.42")
        .unwrap()
        .destination("org.example.Listener")
        .unwrap()
        .endian(endian)
        .build(&vec![Value::Str("hello".to_string()), Value::U32(7)])
        .unwrap()
        .with_serial(0x0102_0304)
        .unwrap()
}

#[test]
fn a_call_is_written_byte_for_byte() {
    let bytes = call().to_bytes().unwrap();
    let expected: Vec<u8> = vec![
        0x6c, 1, 0, 1, // byte order, kind, flags, version
        0, 0, 0, 0, // length of the body
        1, 0, 0, 0, // serial
        26, 0, 0, 0, // length of the fields
        1, 1, b'o', 0, 2, 0, 0, 0, b'/', b'a', 0, // the path
        0, 0, 0, 0, 0, // to the next multiple of 8
        3, 1, b's', 0, 1, 0, 0, 0, b'M', 0, // the member
        0, 0, 0, 0, 0, 0, // to where the body starts
    ];
    assert_eq!(bytes, expected);
}

#[test]
fn a_big_endian_call_is_written_byte_for_byte() {
    let m = Message::method_call("/a", "M")
        .unwrap()
        .endian(Endian::Big)
        .build(&vec![Value::U32(0x0a0b_0c0d)])
        .unwrap()
        .with_serial(0x0102_0304)
        .unwrap();
    let bytes = m.to_bytes().unwrap();
    let expected: Vec<u8> = vec![
        0x42, 1, 0, 1, // byte order, kind, flags, version
        0, 0, 0, 4, // length of the body
        1, 2, 3, 4, // serial
        0, 0, 0, 39, // length of the fields
        1, 1, b'o', 0, 0, 0, 0, 2, b'/', b'a', 0, // the path
        0, 0, 0, 0, 0, // to the next multiple of 8
        3, 1, b's', 0, 0, 0, 0, 1, b'M', 0, // the member
        0, 0, 0, 0, 0, 0, // to the next multiple of 8
        8, 1, b'g', 0, 1, b'u', 0, // the signature
        0, // to where the body starts
        0x0a, 0x0b, 0x0c, 0x0d, // the body
    ];
    assert_eq!(bytes, expected);
}

#[test]
fn a_written_message_is_read_back() {
    for endian in [Endian::Little, Endian::Big] {
        let m = greeting(endian);
        let bytes = m.to_bytes().unwrap();
        let (read, used) = Message::from_bytes(&bytes, vec![]).unwrap();
        assert_eq!(used, bytes.len());
        let h = read.header();
        assert_eq!(h.endian, endian);
        assert_eq!(h.message_type(), Type::Signal);
        assert_eq!(h.serial(), 0x0102_0304);
        assert_eq!(h.path().unwrap().as_str(), "/org/example");
        assert_eq!(h.interface().unwrap().as_str(), "org.example.Iface");
        assert_eq!(h.member().unwrap().as_str(), "Changed");
        assert_eq!(h.sender().unwrap().as_str(), ":1.42");
        assert_eq!(h.destination(), Some("org.example.Listener"));
        assert_eq!(h.reply_serial(), None);
        assert_eq!(h.signature, vec![Signature::Str, Signature::U32]);
        assert_eq!(read.body(), m.body());
        assert_eq!(
            read.body_values().unwrap(),
            vec![Value::Str("hello".to_string()), Value::U32(7)]
        );
        assert_eq!(read.to_bytes().unwrap(), bytes);
    }
}

#[test]
fn a_reader_stops_behind_the_message() {
    let first = greeting(Endian::Little).to_bytes().unwrap();
    let second = call().to_bytes().unwrap();
    let mut stream = first.clone();
    stream.extend_from_slice(&second);
    let (m, used) = Message::from_bytes(&stream, vec![]).unwrap();
    assert_eq!(used, first.len());
    assert_eq!(m.message_type(), Type::Signal);
    let (m, used) = Message::from_bytes(&stream[used..], vec![]).unwrap();
    assert_eq!(used, second.len());
    assert_eq!(m.message_type(), Type::MethodCall);
}

#[test]
fn a_reply_is_read_back_with_the_serial_it_answers() {
    let asked = Message::method_call("/", "Ask")
        .unwrap()
        .sender(":1.7")
        .unwrap()
        .build(&vec![])
        .unwrap()
        .with_serial(9)
        .unwrap();
    let reply = Message::method_return(asked.header())
        .unwrap()
        .build(&vec![Value::Bool(true)])
        .unwrap()
        .with_serial(3)
        .unwrap();
    let (read, _) = Message::from_bytes(&reply.to_bytes().unwrap(), vec![]).unwrap();
    assert_eq!(read.message_type(), Type::MethodReturn);
    assert_eq!(read.header().reply_serial(), Some(9));
    assert_eq!(read.header().destination(), Some(":1.7"));
    assert_eq!(read.body_values().unwrap(), vec![Value::Bool(true)]);
}

#[test]
fn the_first_16_bytes_tell_the_length() {
    for endian in [Endian::Little, Endian::Big] {
        let bytes = greeting(endian).to_bytes().unwrap();
        assert_eq!(frame_length(&bytes[..16]).unwrap(), Some(bytes.len() as u64));
        assert_eq!(frame_length(&bytes).unwrap(), Some(bytes.len() as u64));
    }
    assert_eq!(frame_length(&call().to_bytes().unwrap()).unwrap(), Some(48));
}

#[test]
fn fewer_than_16_bytes_tell_no_length() {
    let bytes = call().to_bytes().unwrap();
    assert_eq!(frame_length(&bytes[..15]).unwrap(), None);
    assert_eq!(frame_length(&[]).unwrap(), None);
}

#[test]
fn a_first_byte_that_is_no_byte_order_is_refused() {
    let mut bytes = call().to_bytes().unwrap();
    bytes[0] = b'x';
    assert!(matches!(frame_length(&bytes), Err(Error::Protocol(_))));
    assert!(matches!(Message::from_bytes(&bytes, vec![]), Err(Error::Protocol(_))));
    assert!(matches!(Message::from_bytes(&[], vec![]), Err(Error::Protocol(_))));
}

#[test]
fn a_message_without_a_serial_is_refused() {
    let mut bytes = call().to_bytes().unwrap();
    bytes[8] = 0;
    assert_eq!(Message::from_bytes(&bytes, vec![]).err(), Some(Error::InvalidSerial));
}

#[test]
fn a_message_of_another_version_is_refused() {
    let mut bytes = call().to_bytes().unwrap();
    bytes[3] = 2;
    assert!(matches!(Message::from_bytes(&bytes, vec![]), Err(Error::Protocol(_))));
}

#[test]
fn a_message_of_no_kind_is_refused() {
    let mut bytes = call().to_bytes().unwrap();
    bytes[1] = 0;
    assert!(matches!(Message::from_bytes(&bytes, vec![]), Err(Error::Protocol(_))));
    bytes[1] = 5;
    assert!(matches!(Message::from_bytes(&bytes, vec![]), Err(Error::Protocol(_))));
}

#[test]
fn a_call_read_as_a_signal_misses_its_interface() {
    let mut bytes = call().to_bytes().unwrap();
    bytes[1] = 4;
    assert_eq!(Message::from_bytes(&bytes, vec![]).err(), Some(Error::MissingField));
    bytes[1] = 2;
    assert_eq!(Message::from_bytes(&bytes, vec![]).err(), Some(Error::MissingField));
    bytes[1] = 3;
    assert_eq!(Message::from_bytes(&bytes, vec![]).err(), Some(Error::MissingField));
}

#[test]
fn a_member_that_is_no_name_is_refused() {
    let mut bytes = call().to_bytes().unwrap();
    assert_eq!(bytes[40], b'M');
    bytes[40] = b'.';
    assert!(matches!(Message::from_bytes(&bytes, vec![]), Err(Error::InvalidName(_))));
}

#[test]
fn a_path_that_is_no_path_is_refused() {
    let mut bytes = call().to_bytes().unwrap();
    assert_eq!(bytes[24], b'/');
    bytes[24] = b'a';
    assert!(matches!(Message::from_bytes(&bytes, vec![]), Err(Error::Protocol(_))));
}

#[test]
fn a_field_of_the_wrong_type_is_refused() {
    let mut bytes = call().to_bytes().unwrap();
    // the member as an object path
    assert_eq!(bytes[34], b's');
    bytes[34] = b'o';
    bytes[40] = b'/';
    assert!(matches!(Message::from_bytes(&bytes, vec![]), Err(Error::Protocol(_))));
}

#[test]
fn a_field_with_an_unknown_code_is_passed_over() {
    let mut bytes = greeting(Endian::Little).to_bytes().unwrap();
    // the destination, under a code that nobody knows
    let at = bytes.iter().position(|b| *b == 6).unwrap();
    assert_eq!(&bytes[at..at + 4], &[6, 1, b's', 0]);
    bytes[at] = 200;
    let (read, used) = Message::from_bytes(&bytes, vec![]).unwrap();
    assert_eq!(used, bytes.len());
    assert_eq!(read.header().destination(), None);
    assert_eq!(read.header().sender().unwrap().as_str(), ":1.42");
}

#[test]
fn padding_that_is_not_zero_is_refused() {
    let mut bytes = call().to_bytes().unwrap();
    bytes[47] = 1;
    assert!(matches!(Message::from_bytes(&bytes, vec![]), Err(Error::Protocol(_))));
    let mut bytes = call().to_bytes().unwrap();
    bytes[28] = 1;
    assert!(matches!(Message::from_bytes(&bytes, vec![]), Err(Error::Protocol(_))));
}

#[test]
fn a_body_that_is_not_all_there_is_refused() {
    let bytes = greeting(Endian::Little).to_bytes().unwrap();
    for cut in 0..bytes.len() {
        assert!(matches!(Message::from_bytes(&bytes[..cut], vec![]), Err(Error::Protocol(_))));
    }
}

#[test]
fn a_body_without_a_signature_is_refused() {
    let mut bytes = call().to_bytes().unwrap();
    bytes[4] = 8;
    bytes.extend_from_slice(&[0u8; 8]);
    assert!(matches!(Message::from_bytes(&bytes, vec![]), Err(Error::Protocol(_))));
}

#[test]
fn descriptors_that_the_header_does_not_count_are_refused() {
    let bytes = call().to_bytes().unwrap();
    assert!(matches!(Message::from_bytes(&bytes, vec![5]), Err(Error::Protocol(_))));
}

#[test]
fn the_header_alone_ends_where_the_body_starts() {
    let m = greeting(Endian::Little);
    let header = header_to_bytes(m.header()).unwrap();
    assert_eq!(header.len() % 8, 0);
    let bytes = m.to_bytes().unwrap();
    assert_eq!(&bytes[..header.len()], &header[..]);
    assert_eq!(&bytes[header.len()..], m.body());
}

#[test]
fn messages_come_out_of_pieces_of_any_length() {
    let first = greeting(Endian::Big).to_bytes().unwrap();
    let second = call().to_bytes().unwrap();
    let mut stream = first.clone();
    stream.extend_from_slice(&second);
    for piece in [1usize, 3, 16, 17, 1000] {
        let mut framer = Framer::new();
        let mut read = Vec::new();
        for chunk in stream.chunks(piece) {
            framer.push(chunk);
            while let Some(m) = framer.next(vec![]).unwrap() {
                read.push(m);
            }
        }
        assert_eq!(read.len(), 2, "pieces of {piece}");
        assert_eq!(read[0].to_bytes().unwrap(), first);
        assert_eq!(read[1].to_bytes().unwrap(), second);
        assert_eq!(framer.len(), 0);
        assert_eq!(framer.missing(), 16);
    }
}

#[test]
fn a_reader_tells_how_many_bytes_it_waits_for() {
    let bytes = call().to_bytes().unwrap();
    let mut framer = Framer::new();
    assert_eq!(framer.missing(), 16);
    framer.push(&bytes[..10]);
    assert_eq!(framer.missing(), 6);
    assert!(framer.next(vec![]).unwrap().is_none());
    framer.push(&bytes[10..20]);
    assert_eq!(framer.missing(), 28);
    assert!(framer.next(vec![]).unwrap().is_none());
    framer.push(&bytes[20..]);
    assert_eq!(framer.missing(), 0);
    assert!(framer.next(vec![]).unwrap().is_some());
}

#[test]
fn a_message_that_is_none_is_dropped_and_the_next_is_read() {
    let mut broken = call().to_bytes().unwrap();
    broken[8] = 0; // no serial
    let good = call().to_bytes().unwrap();
    let mut framer = Framer::new();
    framer.push(&broken);
    framer.push(&good);
    assert_eq!(framer.next(vec![]).err(), Some(Error::InvalidSerial));
    assert_eq!(framer.len(), good.len());
    assert!(framer.next(vec![]).unwrap().is_some());
    // bytes that start with no byte order are lost
    framer.push(&[b'x'; 20]);
    assert!(matches!(framer.next(vec![]), Err(Error::Protocol(_))));
    assert_eq!(framer.len(), 0);
}
