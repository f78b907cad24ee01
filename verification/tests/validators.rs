use pakr_typed_io::error::IoError;
use pakr_typed_io::validator::{hex_string, Validate, Validator};
use pakr_typed_io::{ByteCursor, SafeRead};

fn message(e: IoError) -> String {
    match e {
        IoError::Validation(m) => m,
        other => panic!("expected a validation error, got {:?}", other),
    }
}

#[test]
fn validators_chain_over_a_stream() {
    let buf = vec![0, 1, 2, 3, 4, 5, 6, 7, 8, 9, 10, 11, 12, 13, 14, 15, 16];
    let mut cur = ByteCursor::new(buf);

    assert_eq!(0, cur.read_u8().unwrap().validate_equals(0).unwrap());
    assert_eq!(1, cur.read_u8().unwrap().validate_not_equals(0).unwrap());
    assert_eq!(2, cur.read_u8().unwrap().validate_in_range(1..4).unwrap());
    assert_eq!(3, cur.read_u8().unwrap().validate_not_in_range(10..14).unwrap());
    assert_eq!(4, cur.read_u8().unwrap().validate_in_list(&[4, 5, 6]).unwrap());
    assert_eq!(5, cur.read_u8().unwrap().validate_not_in_list(&[1, 2, 3]).unwrap());
    assert_eq!(6, cur.read_u8().unwrap().validate_in_array([4, 5, 6]).unwrap());
    assert_eq!(7, cur.read_u8().unwrap().validate_not_in_array([1, 2, 3]).unwrap());
    assert_eq!(8, cur.read_u8().unwrap().validate(|v| v % 2 == 0).unwrap());
    assert_eq!(9, cur.read_u8().unwrap().validate_not(|v| v % 2 == 0).unwrap());

    assert_eq!(
        "value 0xA not equal to expected 0x0",
        message(cur.read_u8().unwrap().validate_equals(0).unwrap_err())
    );
    assert_eq!(
        "value VarX=0xB not equal to expected 0x0",
        message(cur.read_u8().unwrap().validate_equals_ctx(0, "VarX").unwrap_err())
    );
    assert_eq!(
        12,
        cur.read_u8()
            .unwrap()
            .validate_in_range(10..15)
            .unwrap()
            .validate_not_equals(11)
            .unwrap()
            .validate(|v| v % 2 == 0)
            .unwrap()
    );
}

#[test]
fn chained_validators_short_circuit() {
    let mut second_ran = false;
    let r = 10u8
        .validate_equals(0)
        .and_then(|v| v.validate(|_| {
            second_ran = true;
            true
        }));
    assert!(r.is_err());
    assert!(!second_ran);
}

#[test]
fn validator_messages() {
    assert_eq!(
        "value is unexpectedly equal to 0x7",
        message(7u8.validate_not_equals(7).unwrap_err())
    );
    assert_eq!(
        "value 0x14 not in expected range 1..4",
        message(20u8.validate_in_range(1..4).unwrap_err())
    );
    assert_eq!(
        "value 0x2 unexpectedly is in range 1..4",
        message(2u8.validate_not_in_range(1..4).unwrap_err())
    );
    assert_eq!(
        "value 0x9 is not on expected list [1, 2, 3]",
        message(9u8.validate_in_list(&[1, 2, 3]).unwrap_err())
    );
    assert_eq!(
        "value 0x2 is unexpectedly on list [1, 2, 3]",
        message(2u8.validate_not_in_list(&[1, 2, 3]).unwrap_err())
    );
    assert_eq!(
        "value 0x9 failed test",
        message(9u8.validate(|v| v % 2 == 0).unwrap_err())
    );
    assert_eq!(
        "value 0x8 unexpectedly succeeded test",
        message(8u8.validate_not(|v| v % 2 == 0).unwrap_err())
    );
    assert_eq!(
        "value X=0x9 failed test",
        message(9u8.validate_ctx(|v| v % 2 == 0, "X").unwrap_err())
    );
}

#[test]
fn validators_render_signed_bit_patterns() {
    // hexadecimal shows the two's-complement bit pattern
    assert_eq!(
        "value 0xFF not equal to expected 0x0",
        message((-1i8).validate_equals(0).unwrap_err())
    );
    assert_eq!(
        "value 0xFFFFFFFE not equal to expected 0x1",
        message((-2i32).validate_equals(1).unwrap_err())
    );
    // but comparison is by mathematical value
    assert_eq!(-5, (-5i16).validate_in_range(-10..0).unwrap());
}

#[test]
fn validators_on_wider_types() {
    assert_eq!(70000u32, 70000u32.validate_equals(70000).unwrap());
    assert_eq!(
        u64::MAX,
        u64::MAX.validate_in_list(&[1, u64::MAX]).unwrap()
    );
    assert_eq!(
        i128::MIN,
        i128::MIN.validate_not_in_range(0..10).unwrap()
    );
}

#[test]
fn hex_rendering() {
    assert_eq!("0", hex_string(0));
    assert_eq!("A", hex_string(10));
    assert_eq!("FF", hex_string(255));
    assert_eq!("DEADBEEF", hex_string(0xDEADBEEF));
    assert_eq!(
        "FFFFFFFFFFFFFFFFFFFFFFFFFFFFFFFF",
        hex_string(u128::MAX)
    );
}

#[test]
fn error_messages_carry_both_values() {
    assert_eq!(
        "varint overflow - no end byte after 133 bits",
        IoError::VarintOverflow(133).message()
    );
    assert_eq!(
        "stored length 0x2 smaller than covered field size 0x4",
        IoError::LengthUnderflow(2, 4).message()
    );
    assert_eq!(
        "stored checksum 0xDEAD does not match computed 0xBEEF",
        IoError::ChecksumMismatch(0xDEAD, 0xBEEF).message()
    );
    assert_eq!(
        "value 0xA not equal to expected 0x0",
        10u8.validate_equals(0).unwrap_err().message()
    );
    assert_eq!("invalid record shape", IoError::InvalidShape.message());
}

struct Header {
    version: u8,
}

impl Validate for Header {}

#[test]
fn validate_hook_accepts_by_default() {
    let h = Header { version: 3 };
    let h = h.validate().unwrap();
    assert_eq!(3, h.version);
}
