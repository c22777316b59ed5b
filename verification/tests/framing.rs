//! The length-table framing and the byte cursor.

use basebored::byte_deserializer::{ByteDeserializer, ByteError};
use basebored::errors::Error;
use basebored::length_table::LengthTable;

#[test]
fn empty_sequence_frames_to_zero_table_length_and_zero_count() {
    let bytes = LengthTable::serialize(&Vec::new());
    // table_byte_length = 0 and count = 0, both little-endian.
    assert_eq!(bytes, vec![0u8, 0, 0, 0, 0, 0, 0, 0]);
    let back = LengthTable::deserialize(&bytes).unwrap();
    assert!(back.is_empty());
}

#[test]
fn table_length_is_four_per_object_plus_object_bytes() {
    let objects = vec![vec![1u8, 2, 3], vec![], vec![9u8, 8]];
    let total: usize = objects.iter().map(|o| o.len()).sum();
    let bytes = LengthTable::serialize(&objects);
    let table_len = u32::from_le_bytes([bytes[0], bytes[1], bytes[2], bytes[3]]);
    let count = u32::from_le_bytes([bytes[4], bytes[5], bytes[6], bytes[7]]);
    assert_eq!(table_len as usize, 4 * objects.len() + total);
    assert_eq!(count as usize, objects.len());
    // The length words are little-endian too.
    assert_eq!(u32::from_le_bytes([bytes[8], bytes[9], bytes[10], bytes[11]]), 3);
    assert_eq!(LengthTable::deserialize(&bytes).unwrap(), objects);
}

#[test]
fn truncating_a_table_by_one_byte_fails() {
    let objects = vec![vec![1u8, 2, 3], vec![4u8]];
    let bytes = LengthTable::serialize(&objects);
    for cut in 0..bytes.len() {
        let truncated = &bytes[..cut];
        assert!(LengthTable::deserialize(truncated).is_err(), "cut at {}", cut);
    }
}

#[test]
fn padding_a_table_fails() {
    let objects = vec![vec![7u8; 5]];
    let mut bytes = LengthTable::serialize(&objects);
    bytes.push(0);
    assert!(LengthTable::deserialize(&bytes).is_err());
}

#[test]
fn embedded_length_beyond_the_buffer_fails() {
    // One object claiming 200 bytes with only 2 present.
    let mut bytes = Vec::new();
    bytes.extend_from_slice(&(4u32 + 200).to_le_bytes());
    bytes.extend_from_slice(&1u32.to_le_bytes());
    bytes.extend_from_slice(&200u32.to_le_bytes());
    bytes.extend_from_slice(&[1, 2]);
    assert!(matches!(
        LengthTable::deserialize(&bytes),
        Err(Error::ByteError(ByteError::OutOfBoundsError { .. }))
    ));
}

#[test]
fn cursor_reads_big_endian_integers() {
    let data = [
        0x01u8, // u8
        0x01, 0x02, // u16
        0x01, 0x02, 0x03, 0x04, // u32
        0x01, 0x02, 0x03, 0x04, 0x05, 0x06, 0x07, 0x08, // u64
        0xff, // i8
        0xff, 0xfe, // i16
        0xff, 0xff, 0xff, 0xfd, // i32
        0xff, 0xff, 0xff, 0xff, 0xff, 0xff, 0xff, 0xfc, // i64
    ];
    let mut de = ByteDeserializer::new(&data);
    assert_eq!(de.read_u8().unwrap(), 1);
    assert_eq!(de.read_u16().unwrap(), 0x0102);
    assert_eq!(de.read_u32().unwrap(), 0x01020304);
    assert_eq!(de.read_u64().unwrap(), 0x0102030405060708);
    assert_eq!(de.read_i8().unwrap(), -1);
    assert_eq!(de.read_i16().unwrap(), -2);
    assert_eq!(de.read_i32().unwrap(), -3);
    assert_eq!(de.read_i64().unwrap(), -4);
}

#[test]
fn cursor_underrun_reports_position_and_length() {
    // Two bytes consumed, then a four-byte read out of three total.
    let data = [0u8, 0, 7];
    let mut de = ByteDeserializer::new(&data);
    de.read_u8().unwrap();
    de.read_u8().unwrap();
    match de.read_u32() {
        Err(Error::ByteError(ByteError::OutOfBoundsError { pos, len })) => {
            assert_eq!(pos, 2);
            assert_eq!(len, 3);
        }
        other => panic!("expected bounds error, got {:?}", other),
    }
    // The failed read moved nothing; a one-byte read still works.
    assert_eq!(de.read_u8().unwrap(), 7);
}

#[test]
fn cursor_rejects_reads_past_remaining() {
    let data = [1u8, 2, 3, 4];
    let mut de = ByteDeserializer::new(&data);
    assert!(de.read_u64().is_err());
    assert!(de.read_bytes(5).is_err());
    assert!(de.read_string(5).is_err());
    assert_eq!(de.read_bytes(4).unwrap(), vec![1, 2, 3, 4]);
    assert!(de.read_u8().is_err());
}

#[test]
fn cursor_bool_accepts_only_zero_and_one() {
    let data = [0u8, 1, 2];
    let mut de = ByteDeserializer::new(&data);
    assert_eq!(de.read_bool().unwrap(), false);
    assert_eq!(de.read_bool().unwrap(), true);
    assert!(matches!(
        de.read_bool(),
        Err(Error::ByteError(ByteError::BadBoolError { value: 2 }))
    ));
}

#[test]
fn cursor_reads_strings_and_remaining_bytes() {
    let data = *b"Employees!rest";
    let mut de = ByteDeserializer::new(&data);
    assert_eq!(de.read_string(9).unwrap(), "Employees");
    assert_eq!(de.read_u8().unwrap(), b'!');
    assert_eq!(de.remaining_bytes(), b"rest");
}

#[test]
fn cursor_string_read_is_lossy_on_invalid_utf8() {
    let data = [0xffu8, 0x41];
    let mut de = ByteDeserializer::new(&data);
    let s = de.read_string(2).unwrap();
    // The invalid byte is substituted; the read itself does not fail.
    assert_eq!(s, "\u{fffd}A");
}
