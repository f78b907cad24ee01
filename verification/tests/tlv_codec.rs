use pakr_typed_io::error::IoError;
use pakr_typed_io::tlv::{read, tlv_png, Chunk, Endianess, Fields, TlvType};
use pakr_typed_io::{ByteCursor, SafeRead};

const IHDR_CRC: u32 = 0x8509D9F6;

#[test]
fn png_chunk_wire_format() {
    let shape = tlv_png();
    let chunk = Chunk::new(*b"IHDR", Some(IHDR_CRC), vec![0x00, 0x00, 0x00, 0x01]);
    let mut cur = ByteCursor::new(Vec::new());
    chunk.write(&mut cur, &shape).unwrap();
    let bytes = cur.into_inner();
    assert_eq!(
        vec![
            0x00, 0x00, 0x00, 0x04, // length of the payload alone, big-endian
            b'I', b'H', b'D', b'R', // tag
            0x00, 0x00, 0x00, 0x01, // payload
            0x85, 0x09, 0xD9, 0xF6, // CRC-32 over tag and payload
        ],
        bytes
    );
}

#[test]
fn png_chunk_round_trip() {
    let shape = tlv_png();
    let chunk = Chunk::new(*b"IHDR", Some(IHDR_CRC), vec![0x00, 0x00, 0x00, 0x01]);
    let mut cur = ByteCursor::new(Vec::new());
    chunk.write(&mut cur, &shape).unwrap();
    cur.seek_to(0).unwrap();
    let decoded = read(&mut cur, &shape).unwrap();
    assert_eq!(chunk, decoded);
    assert_eq!(Some(IHDR_CRC), decoded.checksum());
    assert_eq!(b"IHDR", decoded.typ());
    assert_eq!(&vec![0x00, 0x00, 0x00, 0x01], decoded.data());
    // the cursor stands immediately after the record
    assert_eq!(16, SafeRead::tell(&mut cur).unwrap());
}

#[test]
fn corrupted_value_fails_checksum() {
    let shape = tlv_png();
    let chunk = Chunk::new(*b"IHDR", Some(IHDR_CRC), vec![0x00, 0x00, 0x00, 0x01]);
    let mut cur = ByteCursor::new(Vec::new());
    chunk.write(&mut cur, &shape).unwrap();
    let mut bytes = cur.into_inner();
    bytes[11] ^= 0x10; // one payload byte, checksum left alone
    let mut cur = ByteCursor::new(bytes);
    match read(&mut cur, &shape) {
        Err(IoError::ChecksumMismatch(stored, computed)) => {
            assert_eq!(IHDR_CRC, stored);
            assert_ne!(stored, computed);
        }
        other => panic!("expected a checksum mismatch, got {:?}", other),
    }
}

#[test]
fn truncated_record_is_short_read() {
    let shape = tlv_png();
    let mut cur = ByteCursor::new(vec![0x00, 0x00, 0x00, 0x04, b'I', b'H']);
    assert!(matches!(read(&mut cur, &shape), Err(IoError::ShortRead)));
}

#[test]
fn length_underflow_is_reported() {
    // the stored length must cover the tag it is declared to include
    let shape = TlvType::new(
        [Fields::Length, Fields::Tag, Fields::Value, Fields::Absent],
        Endianess::Big,
        true,
        false,
        false,
        false,
    )
    .unwrap();
    let mut cur = ByteCursor::new(vec![0x00, 0x00, 0x00, 0x02, b'A', b'B', b'C', b'D']);
    assert_eq!(
        Err(IoError::LengthUnderflow(2, 4)),
        read(&mut cur, &shape).map(|_| ())
    );
}

#[test]
fn invalid_shapes_are_rejected_at_construction() {
    // a field kind may not appear twice
    assert_eq!(
        Err(IoError::InvalidShape),
        TlvType::new(
            [Fields::Tag, Fields::Tag, Fields::Value, Fields::Absent],
            Endianess::Big,
            false,
            false,
            false,
            false,
        )
        .map(|_| ())
    );
    // a payload with a stored length must follow its Length field
    assert_eq!(
        Err(IoError::InvalidShape),
        TlvType::new(
            [Fields::Value, Fields::Length, Fields::Tag, Fields::Absent],
            Endianess::Big,
            false,
            false,
            false,
            false,
        )
        .map(|_| ())
    );
    // a coverage flag may not name an absent field
    assert_eq!(
        Err(IoError::InvalidShape),
        TlvType::new(
            [Fields::Length, Fields::Tag, Fields::Value, Fields::Absent],
            Endianess::Big,
            false,
            false,
            true,
            false,
        )
        .map(|_| ())
    );
}

#[test]
fn little_endian_shape_round_trip() {
    let shape = TlvType::new(
        [Fields::Tag, Fields::Length, Fields::Checksum, Fields::Value],
        Endianess::Little,
        false,
        true,
        true,
        true,
    )
    .unwrap();
    let chunk = Chunk::new(*b"DATA", None, vec![1, 2, 3, 4, 5]);
    let mut cur = ByteCursor::new(Vec::new());
    chunk.write(&mut cur, &shape).unwrap();
    cur.seek_to(0).unwrap();
    let decoded = read(&mut cur, &shape).unwrap();
    assert_eq!(decoded.typ(), b"DATA");
    assert_eq!(decoded.data(), &vec![1, 2, 3, 4, 5]);
    assert!(decoded.checksum().is_some());
}

#[test]
fn value_to_end_without_length() {
    let shape = TlvType::new(
        [Fields::Tag, Fields::Value, Fields::Absent, Fields::Absent],
        Endianess::Big,
        false,
        false,
        false,
        false,
    )
    .unwrap();
    let mut cur = ByteCursor::new(vec![b'B', b'L', b'O', b'B', 1, 2, 3]);
    let decoded = read(&mut cur, &shape).unwrap();
    assert_eq!(decoded.typ(), b"BLOB");
    assert_eq!(decoded.data(), &vec![1, 2, 3]);
    assert_eq!(None, decoded.checksum());
}

#[test]
fn checksum_may_precede_the_fields_it_covers() {
    // the encoder materialises every field before emitting, so a checksum
    // can stand first in the stream and still cover the payload
    let shape = TlvType::new(
        [Fields::Checksum, Fields::Length, Fields::Tag, Fields::Value],
        Endianess::Big,
        false,
        false,
        true,
        true,
    )
    .unwrap();
    let chunk = Chunk::new(*b"HEAD", None, vec![0xAA, 0xBB]);
    let mut cur = ByteCursor::new(Vec::new());
    chunk.write(&mut cur, &shape).unwrap();
    cur.seek_to(0).unwrap();
    let decoded = read(&mut cur, &shape).unwrap();
    assert_eq!(decoded.typ(), b"HEAD");
    assert_eq!(decoded.data(), &vec![0xAA, 0xBB]);
    assert!(decoded.checksum().is_some());

    // corrupting the payload still trips the up-front checksum
    cur.seek_to(0).unwrap();
    let mut bytes = cur.into_inner();
    let last = bytes.len() - 1;
    bytes[last] ^= 0x01;
    let mut cur = ByteCursor::new(bytes);
    assert!(matches!(
        read(&mut cur, &shape),
        Err(IoError::ChecksumMismatch(_, _))
    ));
}

#[test]
fn shape_without_tag_yields_zero_tag() {
    let shape = TlvType::new(
        [Fields::Length, Fields::Value, Fields::Absent, Fields::Absent],
        Endianess::Big,
        false,
        false,
        false,
        false,
    )
    .unwrap();
    let mut cur = ByteCursor::new(vec![0, 0, 0, 2, 0xCA, 0xFE, 9, 9]);
    let decoded = read(&mut cur, &shape).unwrap();
    assert_eq!(decoded.typ(), &[0u8; 4]);
    assert_eq!(decoded.data(), &vec![0xCA, 0xFE]);
    // the cursor stands after the record, before the trailing bytes
    assert_eq!(6, SafeRead::tell(&mut cur).unwrap());
}

#[test]
fn shape_check_accepts_png() {
    assert!(tlv_png().check());
}
