use pakr_typed_io::be;
use pakr_typed_io::le;
use pakr_typed_io::ByteCursor;

#[test]
fn auto_reads_pick_width_from_type() {
    let buf = vec![0, 0, 1, 1, 0xff, 0xff, 0, 0, 1, 1, 1, 1, 0, 0];
    let mut cur = ByteCursor::new(buf);
    let a: u8 = be::SafeReader::read_auto(&mut cur).unwrap();
    assert_eq!(0, a);
    let b: i8 = be::SafeReader::read_auto(&mut cur).unwrap();
    assert_eq!(0, b);
    let c: u16 = be::SafeReader::read_auto(&mut cur).unwrap();
    assert_eq!(0x0101, c);
    let d: u32 = be::SafeReader::read_auto(&mut cur).unwrap();
    assert_eq!(0xFFFF_0000, d);
    let e: u32 = le::SafeReader::read_auto(&mut cur).unwrap();
    assert_eq!(0x0101_0101, e);
}

#[test]
fn auto_writes_pick_width_from_type() {
    let mut cur = ByteCursor::new(Vec::new());
    be::SafeWriter::write_auto(&mut cur, 0x0102u16).unwrap();
    le::SafeWriter::write_auto(&mut cur, 0x0102u16).unwrap();
    be::SafeWriter::write_auto(&mut cur, -1i8).unwrap();
    be::SafeWriter::write_auto(&mut cur, 0x01020304u32).unwrap();
    le::SafeWriter::write_auto(&mut cur, 0x01020304u32).unwrap();
    assert_eq!(
        vec![1, 2, 2, 1, 0xFF, 1, 2, 3, 4, 4, 3, 2, 1],
        cur.into_inner()
    );
}

#[test]
fn auto_round_trip_signed_wide() {
    let mut cur = ByteCursor::new(Vec::new());
    be::SafeWriter::write_auto(&mut cur, i64::MIN).unwrap();
    le::SafeWriter::write_auto(&mut cur, i64::MIN).unwrap();
    be::SafeWriter::write_auto(&mut cur, u128::MAX).unwrap();
    cur.seek_to(0).unwrap();
    let a: i64 = be::SafeReader::read_auto(&mut cur).unwrap();
    let b: i64 = le::SafeReader::read_auto(&mut cur).unwrap();
    let c: u128 = be::SafeReader::read_auto(&mut cur).unwrap();
    assert_eq!(i64::MIN, a);
    assert_eq!(i64::MIN, b);
    assert_eq!(u128::MAX, c);
}
