use sqlite_reader::error::Error;
use sqlite_reader::serial::serial_type_size;
use sqlite_reader::varint::{encode_varint, read_varint};

fn round_trip(n: u64, expected_len: usize) {
    let enc = encode_varint(n);
    assert_eq!(enc.len(), expected_len);
    let (value, consumed) = read_varint(&enc, 0).unwrap();
    assert_eq!(value, n);
    assert_eq!(consumed, enc.len());
}

#[test]
fn varint_round_trip_at_length_boundaries() {
    round_trip(0, 1);
    round_trip(1, 1);
    round_trip(127, 1);
    round_trip(128, 2);
    round_trip(16383, 2);
    round_trip(16384, 3);
    round_trip(0x1f_ffff, 3);
    round_trip(0x20_0000, 4);
    round_trip(0xfff_ffff, 4);
    round_trip(0x1000_0000, 5);
    round_trip(0x7_ffff_ffff, 5);
    round_trip(0x8_0000_0000, 6);
    round_trip(0x3ff_ffff_ffff, 6);
    round_trip(0x400_0000_0000, 7);
    round_trip(0x1_ffff_ffff_ffff, 7);
    round_trip(0x2_0000_0000_0000, 8);
    round_trip(0xff_ffff_ffff_ffff, 8);
    round_trip(0x100_0000_0000_0000, 9);
    round_trip(u64::MAX, 9);
}

#[test]
fn varint_round_trip_scattered_values() {
    let mut n: u64 = 1;
    while n < u64::MAX / 3 {
        let enc = encode_varint(n);
        let (value, consumed) = read_varint(&enc, 0).unwrap();
        assert_eq!(value, n);
        assert_eq!(consumed, enc.len());
        n = n.wrapping_mul(3).wrapping_add(7);
    }
}

#[test]
fn varint_decodes_known_bytes() {
    // 0x81 0x00 carries 1 << 7.
    let buf = vec![0x81u8, 0x00];
    assert_eq!(read_varint(&buf, 0).unwrap(), (128, 2));
    // A single terminating byte carries its own value.
    let buf = vec![0x7fu8];
    assert_eq!(read_varint(&buf, 0).unwrap(), (127, 1));
    // Nine bytes: the ninth contributes all eight of its bits.
    let buf = vec![0xffu8, 0xff, 0xff, 0xff, 0xff, 0xff, 0xff, 0xff, 0xff];
    assert_eq!(read_varint(&buf, 0).unwrap(), (u64::MAX, 9));
}

#[test]
fn varint_at_offset() {
    let buf = vec![0x00u8, 0x00, 0x85, 0x22];
    assert_eq!(read_varint(&buf, 2).unwrap(), ((5 << 7) | 0x22, 2));
}

#[test]
fn varint_truncated_buffer_is_reported() {
    let buf = vec![0x80u8, 0x80];
    assert_eq!(read_varint(&buf, 0), Err(Error::Truncated));
    let empty: Vec<u8> = Vec::new();
    assert_eq!(read_varint(&empty, 0), Err(Error::Truncated));
    let buf = vec![0x01u8];
    assert_eq!(read_varint(&buf, 1), Err(Error::Truncated));
}

#[test]
fn serial_sizes_follow_the_catalog() {
    assert_eq!(serial_type_size(0), 0);
    assert_eq!(serial_type_size(1), 1);
    assert_eq!(serial_type_size(2), 2);
    assert_eq!(serial_type_size(3), 3);
    assert_eq!(serial_type_size(4), 4);
    assert_eq!(serial_type_size(5), 6);
    assert_eq!(serial_type_size(6), 8);
    assert_eq!(serial_type_size(7), 8);
    assert_eq!(serial_type_size(8), 0);
    assert_eq!(serial_type_size(9), 0);
    assert_eq!(serial_type_size(10), 0);
    assert_eq!(serial_type_size(11), 0);
    assert_eq!(serial_type_size(12), 0);
    assert_eq!(serial_type_size(13), 0);
    assert_eq!(serial_type_size(14), 1);
    assert_eq!(serial_type_size(15), 1);
    assert_eq!(serial_type_size(37), 12);
    assert_eq!(serial_type_size(38), 13);
}

#[test]
fn text_serial_sizes_round_trip_with_lengths() {
    for len in 0..40u64 {
        assert_eq!(serial_type_size(13 + 2 * len) as u64, len);
        assert_eq!(serial_type_size(12 + 2 * len) as u64, len);
    }
}
