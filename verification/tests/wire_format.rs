use declavatar2::header::{
    read_blob, write_blob, BlobKind, AVATAR_DATA_VERSION, AVATAR_MAGIC, DIAGNOSTICS_DATA_VERSION, DIAGNOSTICS_MAGIC,
    HEADER_LEN, SCHEMA_VERSION,
};
use declavatar2::wire::{Decode, DecodeError, Encode, EncodeError, Reader, Writer};

fn decode_all<T: Decode>(bytes: &[u8]) -> Result<T, DecodeError> {
    let mut reader = Reader::new(bytes);
    let value = T::decode(&mut reader)?;
    reader.finish()?;
    Ok(value)
}

#[test]
fn integers_and_bools_are_little_endian_and_fixed_width() {
    let mut writer = Writer::new();
    writer.u8(0x01);
    writer.u16(0x0302);
    writer.u32(0x07060504);
    writer.i32(-1);
    writer.i64(i64::MIN);
    writer.bool(true);
    writer.bool(false);
    assert_eq!(
        writer.into_bytes(),
        [
            0x01, 0x02, 0x03, 0x04, 0x05, 0x06, 0x07, 0xff, 0xff, 0xff, 0xff, 0x00, 0x00, 0x00, 0x00, 0x00, 0x00,
            0x00, 0x80, 0x01, 0x00,
        ]
    );
}

#[test]
fn integers_read_back_what_was_written() {
    let mut writer = Writer::new();
    writer.u8(0xfe);
    writer.u16(0xbeef);
    writer.u32(u32::MAX);
    writer.i32(i32::MIN);
    writer.i32(123_456);
    writer.i64(-2);
    writer.i64(i64::MAX);
    writer.bool(true);
    assert_eq!(writer.len(), 1 + 2 + 4 + 4 + 4 + 8 + 8 + 1);
    assert!(!writer.is_empty());
    let bytes = writer.into_bytes();

    let mut reader = Reader::new(&bytes);
    assert_eq!(reader.u8().unwrap(), 0xfe);
    assert_eq!(reader.u16().unwrap(), 0xbeef);
    assert_eq!(reader.u32().unwrap(), u32::MAX);
    assert_eq!(reader.i32().unwrap(), i32::MIN);
    assert_eq!(reader.i32().unwrap(), 123_456);
    assert_eq!(reader.i64().unwrap(), -2);
    assert_eq!(reader.i64().unwrap(), i64::MAX);
    assert_eq!(reader.position(), bytes.len() - 1);
    assert_eq!(reader.remaining(), 1);
    assert!(reader.bool().unwrap());
    reader.finish().unwrap();
}

#[test]
fn an_empty_writer_has_no_bytes() {
    let writer = Writer::new();
    assert!(writer.is_empty());
    assert_eq!(writer.len(), 0);
    assert!(writer.into_bytes().is_empty());
}

#[test]
fn strings_carry_a_byte_length_and_utf8() {
    let mut writer = Writer::new();
    writer.string("Hips").unwrap();
    writer.string("日本").unwrap();
    writer.string("").unwrap();
    let bytes = writer.into_bytes();
    assert_eq!(
        bytes,
        [4, 0, 0, 0, b'H', b'i', b'p', b's', 6, 0, 0, 0, 0xe6, 0x97, 0xa5, 0xe6, 0x9c, 0xac, 0, 0, 0, 0]
    );

    let mut reader = Reader::new(&bytes);
    assert_eq!(reader.string().unwrap(), "Hips");
    assert_eq!(reader.string().unwrap(), "日本");
    assert_eq!(reader.string().unwrap(), "");
    reader.finish().unwrap();
}

#[test]
fn raw_bytes_and_lengths_are_written_as_given() {
    let mut writer = Writer::new();
    writer.length("list length", 3).unwrap();
    writer.bytes(&[9, 8, 7]);
    let bytes = writer.into_bytes();
    assert_eq!(bytes, [3, 0, 0, 0, 9, 8, 7]);

    let mut reader = Reader::new(&bytes);
    assert_eq!(reader.length("list length").unwrap(), 3);
    assert_eq!([reader.u8().unwrap(), reader.u8().unwrap(), reader.u8().unwrap()], [9, 8, 7]);
    reader.finish().unwrap();
}

#[test]
fn composite_values_round_trip() {
    let mut writer = Writer::new();
    Some(vec![1u32, 2, 3]).encode(&mut writer).unwrap();
    None::<String>.encode(&mut writer).unwrap();
    vec![true, false].encode(&mut writer).unwrap();
    (-7i64).encode(&mut writer).unwrap();
    (-7i32).encode(&mut writer).unwrap();
    let bytes = writer.into_bytes();
    assert_eq!(&bytes[..17], [1, 3, 0, 0, 0, 1, 0, 0, 0, 2, 0, 0, 0, 3, 0, 0, 0]);
    assert_eq!(bytes[17], 0);
    assert_eq!(&bytes[18..24], [2, 0, 0, 0, 1, 0]);

    let mut reader = Reader::new(&bytes);
    assert_eq!(reader.decode::<Option<Vec<u32>>>().unwrap(), Some(vec![1, 2, 3]));
    assert_eq!(reader.decode::<Option<String>>().unwrap(), None);
    assert_eq!(reader.decode::<Vec<bool>>().unwrap(), vec![true, false]);
    assert_eq!(reader.decode::<i64>().unwrap(), -7);
    assert_eq!(reader.decode::<i32>().unwrap(), -7);
    reader.finish().unwrap();
}

#[test]
fn malformed_bool_is_rejected() {
    assert_eq!(decode_all::<bool>(&[2]).unwrap_err(), DecodeError::InvalidBool(2));
}

#[test]
fn malformed_option_tag_is_rejected() {
    assert_eq!(decode_all::<Option<bool>>(&[2]).unwrap_err(), DecodeError::InvalidOptionTag(2));
}

#[test]
fn truncated_u32_is_rejected() {
    assert_eq!(
        decode_all::<u32>(&[1, 2, 3]).unwrap_err(),
        DecodeError::UnexpectedEnd { offset: 0, needed: 4, remaining: 3 }
    );
}

#[test]
fn truncated_string_is_rejected() {
    assert_eq!(
        decode_all::<String>(&[5, 0, 0, 0, b'a']).unwrap_err(),
        DecodeError::UnexpectedEnd { offset: 4, needed: 5, remaining: 1 }
    );
}

#[test]
fn invalid_utf8_is_rejected_at_its_offset() {
    assert_eq!(decode_all::<String>(&[1, 0, 0, 0, 0xff]).unwrap_err(), DecodeError::InvalidUtf8 { offset: 4 });
}

#[test]
fn trailing_bytes_are_rejected() {
    assert_eq!(decode_all::<bool>(&[1, 0]).unwrap_err(), DecodeError::TrailingBytes(1));
}

#[test]
fn a_short_list_is_rejected() {
    assert_eq!(
        decode_all::<Vec<bool>>(&[2, 0, 0, 0, 1]).unwrap_err(),
        DecodeError::UnexpectedEnd { offset: 5, needed: 1, remaining: 0 }
    );
}

#[test]
fn oversized_lengths_are_encode_errors() {
    let mut writer = Writer::new();
    if let Some(too_long) = (u32::MAX as usize).checked_add(1) {
        assert_eq!(
            writer.length("list length", too_long).unwrap_err(),
            EncodeError::Overflow { what: "list length", value: too_long }
        );
    }
    assert!(writer.is_empty());
    writer.length("list length", u32::MAX as usize).unwrap();
    assert_eq!(writer.into_bytes(), [0xff, 0xff, 0xff, 0xff]);
}

#[test]
fn a_written_header_has_the_documented_layout() {
    let bytes = write_blob(BlobKind::Avatar, &[0xaa, 0xbb, 0xcc]).unwrap();
    assert_eq!(bytes, [b'D', b'A', b'2', b'a', 1, 0, 1, 0, 0, 0, 0, 0, 3, 0, 0, 0, 0xaa, 0xbb, 0xcc]);
    assert_eq!(read_blob(BlobKind::Avatar, &bytes).unwrap(), [0xaa, 0xbb, 0xcc]);

    let bytes = write_blob(BlobKind::Diagnostics, &[]).unwrap();
    assert_eq!(bytes, [b'D', b'A', b'2', b'd', 1, 0, 1, 0, 0, 0, 0, 0, 0, 0, 0, 0]);
    assert_eq!(read_blob(BlobKind::Diagnostics, &bytes).unwrap(), [] as [u8; 0]);
}

fn header(magic: &[u8; 4], schema: u16, data: u16, reserved: u32, payload_len: u32) -> Vec<u8> {
    let mut bytes = magic.to_vec();
    bytes.extend_from_slice(&schema.to_le_bytes());
    bytes.extend_from_slice(&data.to_le_bytes());
    bytes.extend_from_slice(&reserved.to_le_bytes());
    bytes.extend_from_slice(&payload_len.to_le_bytes());
    bytes
}

#[test]
fn header_validation_reports_the_first_failure() {
    let cases: Vec<(Vec<u8>, DecodeError)> = vec![
        (header(b"DA2a", 1, 1, 0, 0)[..15].to_vec(), DecodeError::TruncatedHeader { found: 15 }),
        (vec![], DecodeError::TruncatedHeader { found: 0 }),
        (header(b"DA2x", 1, 1, 0, 0), DecodeError::UnknownMagic(*b"DA2x")),
        (
            header(b"DA2d", 1, 1, 0, 0),
            DecodeError::UnexpectedKind { expected: BlobKind::Avatar, found: BlobKind::Diagnostics },
        ),
        (header(b"DA2a", 2, 1, 0, 0), DecodeError::SchemaVersionMismatch { expected: 1, found: 2 }),
        (
            header(b"DA2a", 1, 9, 0, 0),
            DecodeError::DataVersionMismatch { kind: BlobKind::Avatar, expected: 1, found: 9 },
        ),
        (header(b"DA2a", 1, 1, 0x100, 0), DecodeError::ReservedNotZero(0x100)),
        (header(b"DA2a", 1, 1, 0, 2), DecodeError::LengthMismatch { declared: 2, actual: 0 }),
        ([header(b"DA2a", 1, 1, 0, 0), vec![0]].concat(), DecodeError::LengthMismatch { declared: 0, actual: 1 }),
        (header(b"DA2a", 1, 1, 0, u32::MAX), DecodeError::LengthMismatch { declared: u32::MAX, actual: 0 }),
    ];
    for (bytes, expected) in cases {
        assert_eq!(read_blob(BlobKind::Avatar, &bytes).unwrap_err(), expected);
    }
}

#[test]
fn kind_checks_precede_version_checks() {
    let bytes = header(b"DA2d", 2, 9, 1, 0);
    assert_eq!(
        read_blob(BlobKind::Avatar, &bytes).unwrap_err(),
        DecodeError::UnexpectedKind { expected: BlobKind::Avatar, found: BlobKind::Diagnostics }
    );
    assert_eq!(
        read_blob(BlobKind::Diagnostics, &bytes).unwrap_err(),
        DecodeError::SchemaVersionMismatch { expected: 1, found: 2 }
    );
}

#[test]
fn blob_kinds() {
    for value in [BlobKind::Avatar, BlobKind::Diagnostics] {
        let blob = write_blob(value, &[1, 2, 3]).unwrap();
        assert_eq!(&blob[..4], value.magic());
        assert_eq!(BlobKind::of_magic(value.magic()), Some(value));
        assert_eq!(read_blob(value, &blob).unwrap(), [1, 2, 3]);
    }
}

#[test]
fn each_kind_has_its_own_magic_and_version() {
    assert_eq!(BlobKind::Avatar.magic(), AVATAR_MAGIC);
    assert_eq!(BlobKind::Diagnostics.magic(), DIAGNOSTICS_MAGIC);
    assert_eq!(&AVATAR_MAGIC, b"DA2a");
    assert_eq!(&DIAGNOSTICS_MAGIC, b"DA2d");
    assert_eq!(BlobKind::Avatar.data_version(), AVATAR_DATA_VERSION);
    assert_eq!(BlobKind::Diagnostics.data_version(), DIAGNOSTICS_DATA_VERSION);
    assert_eq!(BlobKind::of_magic(*b"DA2x"), None);
    assert_eq!(HEADER_LEN, 16);
    assert_eq!(SCHEMA_VERSION, 1);
}
