use pakr_typed_io::error::IoError;
use pakr_typed_io::{ByteCursor, SafeRead, SafeWrite};

fn leb_round_trip(v: u128) -> Vec<u8> {
    let mut cur = ByteCursor::new(Vec::new());
    cur.write_leb128(v).unwrap();
    let bytes = cur.into_inner();
    let mut cur = ByteCursor::new(bytes.clone());
    assert_eq!(v, cur.read_leb128().unwrap());
    bytes
}

fn vlq_round_trip(v: u128) -> Vec<u8> {
    let mut cur = ByteCursor::new(Vec::new());
    cur.write_vlq128(v).unwrap();
    let bytes = cur.into_inner();
    let mut cur = ByteCursor::new(bytes.clone());
    assert_eq!(v, cur.read_vlq128().unwrap());
    bytes
}

#[test]
fn leb128_round_trips() {
    assert_eq!(vec![0], leb_round_trip(0));
    assert_eq!(vec![0x7F], leb_round_trip(127));
    assert_eq!(vec![0x81, 0x00], leb_round_trip(128));
    // 300 = 0b10_0101100: most significant group first
    assert_eq!(vec![0x82, 0x2C], leb_round_trip(300));
    assert_eq!(19, leb_round_trip(u128::MAX).len());
}

#[test]
fn vlq128_round_trips() {
    assert_eq!(vec![0], vlq_round_trip(0));
    assert_eq!(vec![0x7F], vlq_round_trip(127));
    assert_eq!(vec![0x80, 0x01], vlq_round_trip(128));
    // 300 = 0b10_0101100: least significant group first
    assert_eq!(vec![0xAC, 0x02], vlq_round_trip(300));
    assert_eq!(19, vlq_round_trip(u128::MAX).len());
}

#[test]
fn varint_minimal_lengths() {
    // one group per seven bits, no leading all-zero groups
    for (v, n) in [(0u128, 1), (127, 1), (128, 2), (16383, 2), (16384, 3)] {
        assert_eq!(n, leb_round_trip(v).len());
        assert_eq!(n, vlq_round_trip(v).len());
    }
}

#[test]
fn varint_overflow_reports_bits() {
    // nineteen continuation bytes exhaust the bound before any terminator
    let mut cur = ByteCursor::new(vec![0xFF; 25]);
    assert_eq!(Err(IoError::VarintOverflow(133)), cur.read_leb128());
    let mut cur = ByteCursor::new(vec![0xFF; 25]);
    assert_eq!(Err(IoError::VarintOverflow(133)), cur.read_vlq128());
}

#[test]
fn varint_truncated_is_short_read() {
    let mut cur = ByteCursor::new(vec![0x81, 0x82]);
    assert_eq!(Err(IoError::ShortRead), cur.read_leb128());
    let mut cur = ByteCursor::new(vec![0x81, 0x82]);
    assert_eq!(Err(IoError::ShortRead), cur.read_vlq128());
}
