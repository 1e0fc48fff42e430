// The primitive readers.

use artistpath_core::codec::{
    read_id_at, read_u16_at, read_u32_at, read_u64_at, Cursor, ReadError,
};
use byteorder::{LittleEndian, WriteBytesExt};
use uuid::Uuid;

#[test]
fn readers_are_little_endian() {
    let data = [0x34u8, 0x12, 0x78, 0x56, 0xbc, 0x9a, 0xf0, 0xde, 0x01];
    assert_eq!(read_u16_at(&data, 0), Some(0x1234));
    assert_eq!(read_u16_at(&data, 7), Some(0x01de));
    assert_eq!(read_u32_at(&data, 0), Some(0x5678_1234));
    assert_eq!(read_u32_at(&data, 5), Some(0x01de_f09a));
    assert_eq!(read_u64_at(&data, 0), Some(0xdef0_9abc_5678_1234));
    assert_eq!(read_u64_at(&data, 1), Some(0x01de_f09a_bc56_7812));
}

#[test]
fn readers_report_missing_bytes() {
    let data = [1u8, 2, 3];
    assert_eq!(read_u16_at(&data, 2), None);
    assert_eq!(read_u16_at(&data, 3), None);
    assert_eq!(read_u16_at(&data, usize::MAX), None);
    assert_eq!(read_u32_at(&data, 0), None);
    assert_eq!(read_u64_at(&data, 0), None);
    assert_eq!(read_id_at(&data, 0), None);
    assert_eq!(read_u16_at(&data, 1), Some(0x0302));
    assert_eq!(read_u32_at(&[], 0), None);
}

#[test]
fn identifiers_are_read_first_byte_highest() {
    let id = Uuid::parse_str("a1a2a3a4-b1b2-c1c2-d1d2-d3d4d5d6d7d8").unwrap();
    let mut data = vec![0xffu8];
    data.extend_from_slice(&id.into_bytes());
    assert_eq!(
        read_id_at(&data, 1),
        Some(0xa1a2a3a4b1b2c1c2d1d2d3d4d5d6d7d8u128)
    );
    assert_eq!(read_id_at(&data, 1), Some(id.as_u128()));
    assert_eq!(read_id_at(&data, 2), None);
    let mut one = vec![0u8; 15];
    one.push(1);
    assert_eq!(read_id_at(&one, 0), Some(1));
    let mut high = vec![0x80u8];
    high.extend_from_slice(&[0u8; 15]);
    assert_eq!(read_id_at(&high, 0), Some(1u128 << 127));
}

#[test]
fn cursor_reads_in_sequence() {
    let id = Uuid::new_v4();
    let mut data = Vec::new();
    data.write_u16::<LittleEndian>(513).unwrap();
    data.write_u32::<LittleEndian>(70_000).unwrap();
    data.write_u64::<LittleEndian>(u64::MAX - 5).unwrap();
    data.extend_from_slice(&id.into_bytes());
    data.write_u16::<LittleEndian>(6).unwrap();
    data.extend_from_slice("Björk".as_bytes());

    let mut cursor = Cursor::new(&data, 0);
    assert_eq!(cursor.position(), 0);
    assert_eq!(cursor.read_u16(), Ok(513));
    assert_eq!(cursor.position(), 2);
    assert_eq!(cursor.read_u32(), Ok(70_000));
    assert_eq!(cursor.read_u64(), Ok(u64::MAX - 5));
    assert_eq!(cursor.read_id(), Ok(id.as_u128()));
    assert_eq!(cursor.position(), 30);
    assert_eq!(cursor.read_string(), Ok("Björk".to_string()));
    assert_eq!(cursor.position(), data.len());
    assert_eq!(cursor.read_u16(), Err(ReadError::Truncated));
    assert_eq!(cursor.position(), data.len());
}

#[test]
fn cursor_stays_put_on_failure() {
    let data = [5u8, 0, b'a', b'b'];
    let mut cursor = Cursor::new(&data, 0);
    // Five bytes are announced, two are there.
    assert_eq!(cursor.read_string(), Err(ReadError::Truncated));
    assert_eq!(cursor.position(), 0);
    assert_eq!(cursor.read_u64(), Err(ReadError::Truncated));
    assert_eq!(cursor.read_id(), Err(ReadError::Truncated));
    assert_eq!(cursor.position(), 0);
    assert_eq!(cursor.read_u32(), Ok(0x6261_0005));
    assert_eq!(cursor.read_u32(), Err(ReadError::Truncated));
    assert_eq!(cursor.position(), 4);
}

#[test]
fn cursor_rejects_bad_utf8() {
    let data = [2u8, 0, 0xff, 0xfe, 9];
    let mut cursor = Cursor::new(&data, 0);
    assert_eq!(cursor.read_string(), Err(ReadError::InvalidUtf8));
    assert_eq!(cursor.position(), 0);
    // An overlong encoding of '/' is no UTF-8 either.
    let overlong = [2u8, 0, 0xc0, 0xaf];
    let mut cursor = Cursor::new(&overlong, 0);
    assert_eq!(cursor.read_string(), Err(ReadError::InvalidUtf8));
}

#[test]
fn cursor_reads_the_empty_string() {
    let data = [0u8, 0, 7];
    let mut cursor = Cursor::new(&data, 0);
    assert_eq!(cursor.read_string(), Ok(String::new()));
    assert_eq!(cursor.position(), 2);
}

#[test]
fn cursor_behind_the_end_starts_at_the_end() {
    let data = [1u8, 2, 3, 4];
    let mut cursor = Cursor::new(&data, 9);
    assert_eq!(cursor.position(), 4);
    assert_eq!(cursor.read_u16(), Err(ReadError::Truncated));
    let mut cursor = Cursor::new(&data, 2);
    assert_eq!(cursor.read_u16(), Ok(0x0403));
}
