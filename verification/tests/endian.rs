use zbus::connection::next_serial;
use zbus::wire::endian::{
    u16_from_bytes, u16_to_bytes, u32_from_bytes, u32_to_bytes, u64_from_bytes, u64_to_bytes,
    Endian,
};

#[test]
fn numbers_as_bytes_in_both_orders() {
    assert_eq!(u16_to_bytes(Endian::Little, 0x0102), [0x02, 0x01]);
    assert_eq!(u16_to_bytes(Endian::Big, 0x0102), [0x01, 0x02]);
    assert_eq!(u32_to_bytes(Endian::Little, 0x0102_0304), [0x04, 0x03, 0x02, 0x01]);
    assert_eq!(u32_to_bytes(Endian::Big, 0x0102_0304), [0x01, 0x02, 0x03, 0x04]);
    assert_eq!(
        u64_to_bytes(Endian::Little, 0x0102_0304_0506_0708),
        [0x08, 0x07, 0x06, 0x05, 0x04, 0x03, 0x02, 0x01]
    );
    assert_eq!(
        u64_to_bytes(Endian::Big, 0x0102_0304_0506_0708),
        [0x01, 0x02, 0x03, 0x04, 0x05, 0x06, 0x07, 0x08]
    );
}

#[test]
fn bytes_as_numbers_in_both_orders() {
    assert_eq!(u16_from_bytes(Endian::Little, &[0x02, 0x01, 0xff]), 0x0102);
    assert_eq!(u16_from_bytes(Endian::Big, &[0x01, 0x02]), 0x0102);
    assert_eq!(u32_from_bytes(Endian::Little, &[0x04, 0x03, 0x02, 0x01]), 0x0102_0304);
    assert_eq!(u32_from_bytes(Endian::Big, &[0x01, 0x02, 0x03, 0x04, 0xff]), 0x0102_0304);
    assert_eq!(
        u64_from_bytes(Endian::Little, &[0x08, 0x07, 0x06, 0x05, 0x04, 0x03, 0x02, 0x01]),
        0x0102_0304_0506_0708
    );
    assert_eq!(
        u64_from_bytes(Endian::Big, &[0x01, 0x02, 0x03, 0x04, 0x05, 0x06, 0x07, 0x08]),
        0x0102_0304_0506_0708
    );
}

#[test]
fn agrees_with_the_standard_library() {
    for v in [0u64, 1, 0xff, 0x100, 0xdead_beef, 0xfedc_ba98_7654_3210, u64::MAX] {
        assert_eq!(u64_to_bytes(Endian::Little, v), v.to_le_bytes());
        assert_eq!(u64_to_bytes(Endian::Big, v), v.to_be_bytes());
        assert_eq!(u64_from_bytes(Endian::Little, &v.to_le_bytes()), v);
        assert_eq!(u64_from_bytes(Endian::Big, &v.to_be_bytes()), v);
        let w = (v & 0xffff_ffff) as u32;
        assert_eq!(u32_to_bytes(Endian::Little, w), w.to_le_bytes());
        assert_eq!(u32_to_bytes(Endian::Big, w), w.to_be_bytes());
        assert_eq!(u32_from_bytes(Endian::Big, &w.to_be_bytes()), w);
        let h = (v & 0xffff) as u16;
        assert_eq!(u16_to_bytes(Endian::Little, h), h.to_le_bytes());
        assert_eq!(u16_to_bytes(Endian::Big, h), h.to_be_bytes());
        assert_eq!(u16_from_bytes(Endian::Little, &h.to_le_bytes()), h);
    }
}

#[test]
fn marks_announce_the_order() {
    assert_eq!(Endian::Little.mark(), b'l');
    assert_eq!(Endian::Big.mark(), b'B');
    assert_eq!(Endian::from_mark(b'l'), Some(Endian::Little));
    assert_eq!(Endian::from_mark(b'B'), Some(Endian::Big));
    assert_eq!(Endian::from_mark(b'b'), None);
    assert_eq!(Endian::from_mark(b'L'), None);
    assert_eq!(Endian::from_mark(0), None);
}

#[test]
fn serial_wraps_to_one() {
    assert_eq!(next_serial(0), 1);
    assert_eq!(next_serial(1), 2);
    assert_eq!(next_serial(u32::MAX - 1), u32::MAX);
    assert_eq!(next_serial(u32::MAX), 1);
}
