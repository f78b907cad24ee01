use pakr_typed_io::error::IoError;
use pakr_typed_io::{ByteCursor, SafeRead, SafeWrite};

#[test]
fn read_typed_values() {
    let buf = vec![0, 0, 1, 1, 0xff, 0xff, 0, 0, 1, 1, 1, 1, 0, 0];
    let mut cur = ByteCursor::new(buf.clone());

    assert_eq!(0, cur.read_u8().unwrap());
    assert_eq!(buf.len(), cur.len().unwrap());
    assert_eq!(1, SafeRead::tell(&mut cur).unwrap());
    assert_eq!(0, cur.read_i8().unwrap());
    assert_eq!(1, cur.read_u8().unwrap());
    assert_eq!(1, cur.read_i8().unwrap());
    assert_eq!(255, cur.read_u8().unwrap());
    assert_eq!(-1, cur.read_i8().unwrap());
    assert_eq!(0x0101, cur.read_u32be().unwrap());
    assert_eq!(0x0101, cur.read_u32le().unwrap());
    assert!(cur.read_u8().is_err());
}

#[test]
fn write_typed_values() {
    let mut cur = ByteCursor::new(Vec::new());
    cur.write_u8(0).unwrap();
    cur.write_i8(0).unwrap();
    cur.write_u8(1).unwrap();
    cur.write_i8(1).unwrap();
    cur.write_u8(255).unwrap();
    cur.write_i8(-1).unwrap();
    cur.write_u32_be(0x0101).unwrap();
    cur.write_u32_le(0x0101).unwrap();
    assert_eq!(
        vec![0, 0, 1, 1, 0xff, 0xff, 0, 0, 1, 1, 1, 1, 0, 0],
        cur.into_inner()
    );
}

#[test]
fn fixed_width_round_trips() {
    let mut cur = ByteCursor::new(Vec::new());
    cur.write_u16_be(0xBEEF).unwrap();
    cur.write_u16_le(0xBEEF).unwrap();
    cur.write_i16_be(-2).unwrap();
    cur.write_i16_le(-2).unwrap();
    cur.write_u64_be(0x0102030405060708).unwrap();
    cur.write_u64_le(0x0102030405060708).unwrap();
    cur.write_i64_be(-5).unwrap();
    cur.write_i64_le(-5).unwrap();
    cur.write_u128_be(0x0102030405060708090a0b0c0d0e0f10).unwrap();
    cur.write_u128_le(0x0102030405060708090a0b0c0d0e0f10).unwrap();
    cur.write_i128_be(i128::MIN).unwrap();
    cur.write_i128_le(i128::MIN).unwrap();
    cur.write_i32_be(i32::MIN).unwrap();
    cur.write_i32_le(i32::MAX).unwrap();
    cur.seek_to(0).unwrap();
    assert_eq!(0xBEEF, cur.read_u16be().unwrap());
    assert_eq!(0xBEEF, cur.read_u16le().unwrap());
    assert_eq!(-2, cur.read_i16be().unwrap());
    assert_eq!(-2, cur.read_i16le().unwrap());
    assert_eq!(0x0102030405060708, cur.read_u64be().unwrap());
    assert_eq!(0x0102030405060708, cur.read_u64le().unwrap());
    assert_eq!(-5, cur.read_i64be().unwrap());
    assert_eq!(-5, cur.read_i64le().unwrap());
    assert_eq!(0x0102030405060708090a0b0c0d0e0f10, cur.read_u128be().unwrap());
    assert_eq!(0x0102030405060708090a0b0c0d0e0f10, cur.read_u128le().unwrap());
    assert_eq!(i128::MIN, cur.read_i128be().unwrap());
    assert_eq!(i128::MIN, cur.read_i128le().unwrap());
    assert_eq!(i32::MIN, cur.read_i32be().unwrap());
    assert_eq!(i32::MAX, cur.read_i32le().unwrap());
}

#[test]
fn exact_wire_bytes() {
    let mut cur = ByteCursor::new(Vec::new());
    cur.write_u32_be(0x01020304).unwrap();
    assert_eq!(vec![1, 2, 3, 4], cur.into_inner());

    let mut cur = ByteCursor::new(Vec::new());
    cur.write_u32_le(0x01020304).unwrap();
    assert_eq!(vec![4, 3, 2, 1], cur.into_inner());

    let mut cur = ByteCursor::new(Vec::new());
    cur.write_i16_be(-2).unwrap();
    assert_eq!(vec![0xFF, 0xFE], cur.into_inner());

    let mut cur = ByteCursor::new(Vec::new());
    cur.write_i8(-128).unwrap();
    assert_eq!(vec![0x80], cur.into_inner());
}

#[test]
fn len_does_not_move_cursor() {
    let mut cur = ByteCursor::new(vec![1, 2, 3, 4, 5]);
    cur.read_u8().unwrap();
    let before = SafeRead::tell(&mut cur).unwrap();
    let total = cur.len().unwrap();
    let after = SafeRead::tell(&mut cur).unwrap();
    assert_eq!(total, 5);
    assert_eq!(before, after);
    assert_eq!(before, 1);
}

#[test]
fn read_past_end_is_short_read() {
    let mut cur = ByteCursor::new(vec![7]);
    assert_eq!(7, cur.read_u8().unwrap());
    assert_eq!(Err(IoError::ShortRead), cur.read_u8());
    // a wider read with too few bytes also fails, and consumes nothing
    let mut cur = ByteCursor::new(vec![1, 2, 3]);
    assert_eq!(Err(IoError::ShortRead), cur.read_u32be());
    assert_eq!(0, SafeRead::tell(&mut cur).unwrap());
}

#[test]
fn read_into_and_read_as_vec() {
    let mut cur = ByteCursor::new(vec![9, 8, 7, 6, 5]);
    let v = cur.read_as_vec(2).unwrap();
    assert_eq!(vec![9, 8], v);
    let mut buf = vec![0u8; 3];
    cur.read_into(&mut buf).unwrap();
    assert_eq!(vec![7, 6, 5], buf);
    assert_eq!(Err(IoError::ShortRead), cur.read_as_vec(1));
}

#[test]
fn read_until_excludes_sentinel() {
    let mut cur = ByteCursor::new(vec![1, 2, 3, 0, 9]);
    assert_eq!(vec![1, 2, 3], cur.read_until(0).unwrap());
    assert_eq!(4, SafeRead::tell(&mut cur).unwrap());
    // missing sentinel surfaces the short read instead of a partial result
    let mut cur = ByteCursor::new(vec![1, 2, 3]);
    assert_eq!(Err(IoError::ShortRead), cur.read_until(0));
}

#[test]
fn read_asciiz_round_trip() {
    let mut cur = ByteCursor::new(Vec::new());
    cur.write_exact(b"hello world").unwrap();
    cur.write_u8(0).unwrap();
    cur.seek_to(0).unwrap();
    assert_eq!("hello world", cur.read_asciiz().unwrap());

    // multi-byte UTF-8 survives the round trip
    let mut cur = ByteCursor::new(Vec::new());
    cur.write_exact("héllo ∞".as_bytes()).unwrap();
    cur.write_u8(0).unwrap();
    cur.seek_to(0).unwrap();
    assert_eq!("héllo ∞", cur.read_asciiz().unwrap());
}

#[test]
fn read_asciiz_replaces_invalid_utf8() {
    let mut cur = ByteCursor::new(vec![0xFF, 0]);
    assert_eq!("\u{FFFD}", cur.read_asciiz().unwrap());
}

#[test]
fn overwrite_then_extend() {
    let mut cur = ByteCursor::new(vec![1, 2, 3]);
    cur.seek_to(2).unwrap();
    cur.write_exact(&[8, 9]).unwrap();
    assert_eq!(vec![1, 2, 8, 9], cur.into_inner());
}
