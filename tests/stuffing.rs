use concept2::stuffing::{stuff_bytes, unstuff};

#[test]
fn escape_round_trip_all_bytes() {
    for b in 0..=255u8 {
        assert_eq!(vec![b], unstuff(&stuff_bytes(b)));
    }
}

#[test]
fn stuffing_reserved_bytes() {
    assert_eq!(vec![0xf3, 0x00], stuff_bytes(0xf0));
    assert_eq!(vec![0xf3, 0x01], stuff_bytes(0xf1));
    assert_eq!(vec![0xf3, 0x02], stuff_bytes(0xf2));
    assert_eq!(vec![0xf3, 0x03], stuff_bytes(0xf3));
    assert_eq!(vec![0xef], stuff_bytes(0xef));
    assert_eq!(vec![0xf4], stuff_bytes(0xf4));
}

#[test]
fn unstuff_boundaries() {
    assert_eq!(Vec::<u8>::new(), unstuff(&[]));
    assert_eq!(vec![0x10, 0xf2], unstuff(&[0x10, 0xf2, 0x20]));
    assert_eq!(vec![0xf3], unstuff(&[0xf3]));
    assert_eq!(vec![0xf3], unstuff(&[0xf3, 0x04, 0x11]));
}
