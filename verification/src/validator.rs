//! Post-read validation of decoded values.
//!
//! Every validator hands the value back unchanged on success, so checks
//! chain, and fails with a descriptive [`IoError::Validation`] message that
//! renders the offending value in uppercase hexadecimal.  The `_ctx`
//! variants carry a caller-supplied label in the message.

use vstd::prelude::*;
use vstd::string::StringExecFns;

use crate::error::IoError;
use crate::numcodec::{
    i128_to_u128, i16_to_u16, i32_to_u32, i64_to_u64, i8_to_u8, unsigned_rep,
};

verus! {

/// The uppercase hexadecimal digit for `d`.
pub open spec fn hex_digit(d: nat) -> char {
    if d == 0 {
        '0'
    } else if d == 1 {
        '1'
    } else if d == 2 {
        '2'
    } else if d == 3 {
        '3'
    } else if d == 4 {
        '4'
    } else if d == 5 {
        '5'
    } else if d == 6 {
        '6'
    } else if d == 7 {
        '7'
    } else if d == 8 {
        '8'
    } else if d == 9 {
        '9'
    } else if d == 10 {
        'A'
    } else if d == 11 {
        'B'
    } else if d == 12 {
        'C'
    } else if d == 13 {
        'D'
    } else if d == 14 {
        'E'
    } else {
        'F'
    }
}

/// `v` in uppercase hexadecimal, most significant digit first, no leading
/// zeros except for the value zero itself.
pub open spec fn hex_digits(v: nat) -> Seq<char>
    decreases v,
{
    if v < 16 {
        seq![hex_digit(v)]
    } else {
        hex_digits(v / 16).push(hex_digit(v % 16))
    }
}

/// The decimal digit character for `d`.
pub open spec fn dec_digit(d: nat) -> char {
    if d == 0 {
        '0'
    } else if d == 1 {
        '1'
    } else if d == 2 {
        '2'
    } else if d == 3 {
        '3'
    } else if d == 4 {
        '4'
    } else if d == 5 {
        '5'
    } else if d == 6 {
        '6'
    } else if d == 7 {
        '7'
    } else if d == 8 {
        '8'
    } else {
        '9'
    }
}

/// `v` in decimal, most significant digit first.
pub open spec fn dec_digits(v: nat) -> Seq<char>
    decreases v,
{
    if v < 10 {
        seq![dec_digit(v)]
    } else {
        dec_digits(v / 10).push(dec_digit(v % 10))
    }
}

fn dec_digit_str(d: u8) -> (r: &'static str)
    requires
        d < 10,
    ensures
        r@ == seq![dec_digit(d as nat)],
{
    proof {
        reveal_strlit("0");
        reveal_strlit("1");
        reveal_strlit("2");
        reveal_strlit("3");
        reveal_strlit("4");
        reveal_strlit("5");
        reveal_strlit("6");
        reveal_strlit("7");
        reveal_strlit("8");
        reveal_strlit("9");
    }
    match d {
        0 => "0",
        1 => "1",
        2 => "2",
        3 => "3",
        4 => "4",
        5 => "5",
        6 => "6",
        7 => "7",
        8 => "8",
        _ => "9",
    }
}

/// Renders `v` in decimal.
pub fn dec_string(v: u32) -> (s: String)
    ensures
        s@ == dec_digits(v as nat),
    decreases v,
{
    if v < 10 {
        String::from_str(dec_digit_str(v as u8))
    } else {
        let mut s = dec_string(v / 10);
        s.append(dec_digit_str((v % 10) as u8));
        s
    }
}

fn hex_digit_str(d: u8) -> (r: &'static str)
    requires
        d < 16,
    ensures
        r@ == seq![hex_digit(d as nat)],
{
    proof {
        reveal_strlit("0");
        reveal_strlit("1");
        reveal_strlit("2");
        reveal_strlit("3");
        reveal_strlit("4");
        reveal_strlit("5");
        reveal_strlit("6");
        reveal_strlit("7");
        reveal_strlit("8");
        reveal_strlit("9");
        reveal_strlit("A");
        reveal_strlit("B");
        reveal_strlit("C");
        reveal_strlit("D");
        reveal_strlit("E");
        reveal_strlit("F");
    }
    match d {
        0 => "0",
        1 => "1",
        2 => "2",
        3 => "3",
        4 => "4",
        5 => "5",
        6 => "6",
        7 => "7",
        8 => "8",
        9 => "9",
        10 => "A",
        11 => "B",
        12 => "C",
        13 => "D",
        14 => "E",
        _ => "F",
    }
}

/// Renders `v` in uppercase hexadecimal.
pub fn hex_string(v: u128) -> (s: String)
    ensures
        s@ == hex_digits(v as nat),
    decreases v,
{
    if v < 16 {
        String::from_str(hex_digit_str(v as u8))
    } else {
        let mut s = hex_string(v / 16);
        s.append(hex_digit_str((v % 16) as u8));
        s
    }
}


/// "value 0xA not equal to expected 0xB".
pub open spec fn msg_not_equal(a: nat, b: nat) -> Seq<char> {
    "value 0x"@ + hex_digits(a) + " not equal to expected 0x"@ + hex_digits(b)
}

/// "value is unexpectedly equal to 0xB".
pub open spec fn msg_unexpectedly_equal(b: nat) -> Seq<char> {
    "value is unexpectedly equal to 0x"@ + hex_digits(b)
}

/// "value 0xA not in expected range LO..HI".
pub open spec fn msg_not_in_range(a: nat, lo: nat, hi: nat) -> Seq<char> {
    "value 0x"@ + hex_digits(a) + " not in expected range "@ + hex_digits(lo) + ".."@
        + hex_digits(hi)
}

/// "value 0xA unexpectedly is in range LO..HI".
pub open spec fn msg_in_range(a: nat, lo: nat, hi: nat) -> Seq<char> {
    "value 0x"@ + hex_digits(a) + " unexpectedly is in range "@ + hex_digits(lo) + ".."@
        + hex_digits(hi)
}

/// "value 0xA is not on expected list [..]".
pub open spec fn msg_not_on_list(a: nat, l: Seq<char>) -> Seq<char> {
    "value 0x"@ + hex_digits(a) + " is not on expected list ["@ + l + "]"@
}

/// "value 0xA is unexpectedly on list [..]".
pub open spec fn msg_on_list(a: nat, l: Seq<char>) -> Seq<char> {
    "value 0x"@ + hex_digits(a) + " is unexpectedly on list ["@ + l + "]"@
}

/// "value 0xA failed test".
pub open spec fn msg_failed_test(a: nat) -> Seq<char> {
    "value 0x"@ + hex_digits(a) + " failed test"@
}

/// "value 0xA unexpectedly succeeded test".
pub open spec fn msg_succeeded_test(a: nat) -> Seq<char> {
    "value 0x"@ + hex_digits(a) + " unexpectedly succeeded test"@
}

/// "value CTX=0xA not equal to expected 0xB".
pub open spec fn msg_not_equal_ctx(m: Seq<char>, a: nat, b: nat) -> Seq<char> {
    "value "@ + m + "=0x"@ + hex_digits(a) + " not equal to expected 0x"@ + hex_digits(b)
}

/// "value CTX is unexpectedly equal to 0xB".
pub open spec fn msg_unexpectedly_equal_ctx(m: Seq<char>, b: nat) -> Seq<char> {
    "value "@ + m + " is unexpectedly equal to 0x"@ + hex_digits(b)
}

/// "value CTX=0xA not in expected range LO..HI".
pub open spec fn msg_not_in_range_ctx(m: Seq<char>, a: nat, lo: nat, hi: nat) -> Seq<char> {
    "value "@ + m + "=0x"@ + hex_digits(a) + " not in expected range "@ + hex_digits(lo) + ".."@
        + hex_digits(hi)
}

/// "value CTX=0xA unexpectedly is in range LO..HI".
pub open spec fn msg_in_range_ctx(m: Seq<char>, a: nat, lo: nat, hi: nat) -> Seq<char> {
    "value "@ + m + "=0x"@ + hex_digits(a) + " unexpectedly is in range "@ + hex_digits(lo)
        + ".."@ + hex_digits(hi)
}

/// "value CTX=0xA is not on expected list [..]".
pub open spec fn msg_not_on_list_ctx(m: Seq<char>, a: nat, l: Seq<char>) -> Seq<char> {
    "value "@ + m + "=0x"@ + hex_digits(a) + " is not on expected list ["@ + l + "]"@
}

/// "value CTX=0xA is unexpectedly on list [..]".
pub open spec fn msg_on_list_ctx(m: Seq<char>, a: nat, l: Seq<char>) -> Seq<char> {
    "value "@ + m + "=0x"@ + hex_digits(a) + " is unexpectedly on list ["@ + l + "]"@
}

/// "value CTX=0xA failed test".
pub open spec fn msg_failed_test_ctx(m: Seq<char>, a: nat) -> Seq<char> {
    "value "@ + m + "=0x"@ + hex_digits(a) + " failed test"@
}

/// "value CTX=0xA unexpectedly succeeded test".
pub open spec fn msg_succeeded_test_ctx(m: Seq<char>, a: nat) -> Seq<char> {
    "value "@ + m + "=0x"@ + hex_digits(a) + " unexpectedly succeeded test"@
}

/// A value among a list of mathematical values.
pub open spec fn on_list(x: int, l: Seq<int>) -> bool {
    exists|k: int| 0 <= k < l.len() && l[k] == x
}

/// A list of bit patterns in uppercase hexadecimal, comma-separated.
pub open spec fn hex_list(l: Seq<nat>) -> Seq<char>
    decreases l.len(),
{
    if l.len() == 0 {
        Seq::empty()
    } else if l.len() == 1 {
        hex_digits(l[0])
    } else {
        hex_list(l.drop_last()) + ", "@ + hex_digits(l.last())
    }
}

/// A type whose decoded values the validators can check: it has a
/// mathematical reading, an unsigned bit pattern for hexadecimal display,
/// and executable comparisons that agree with the reading.
pub trait Validator: Sized + Copy {
    /// The value as a mathematical integer.
    spec fn as_int(self) -> int;

    /// The value's bit pattern read as an unsigned integer, as the
    /// hexadecimal rendering shows it.
    spec fn as_ubits(self) -> nat;

    /// Equality, by mathematical value.
    fn eq_v(self, other: Self) -> (r: bool)
        ensures
            r == (self.as_int() == other.as_int()),
    ;

    /// Order, by mathematical value.
    fn le_v(self, other: Self) -> (r: bool)
        ensures
            r == (self.as_int() <= other.as_int()),
    ;

    /// The value in uppercase hexadecimal.
    fn hex(self) -> (s: String)
        ensures
            s@ == hex_digits(self.as_ubits()),
    ;

    /// Passes the value through when it equals `val`.
    fn validate_equals(self, val: Self) -> (r: Result<Self, IoError>)
        ensures
            self.as_int() == val.as_int() ==> r == Ok::<Self, IoError>(self),
            self.as_int() != val.as_int() ==> (r matches Err(e) && e matches IoError::Validation(
                m,
            ) && m@ == msg_not_equal(self.as_ubits(), val.as_ubits())),
    {
        if self.eq_v(val) {
            Ok(self)
        } else {
            let h1 = self.hex();
            let h2 = val.hex();
            let mut m = String::from_str("value 0x");
            m.append(h1.as_str());
            m.append(" not equal to expected 0x");
            m.append(h2.as_str());
            proof {
                assert(m@ =~= msg_not_equal(self.as_ubits(), val.as_ubits()));
            }
            Err(IoError::Validation(m))
        }
    }

    /// Passes the value through when it differs from `val`.
    fn validate_not_equals(self, val: Self) -> (r: Result<Self, IoError>)
        ensures
            self.as_int() != val.as_int() ==> r == Ok::<Self, IoError>(self),
            self.as_int() == val.as_int() ==> (r matches Err(e) && e matches IoError::Validation(
                m,
            ) && m@ == msg_unexpectedly_equal(val.as_ubits())),
    {
        if !self.eq_v(val) {
            Ok(self)
        } else {
            let h2 = val.hex();
            let mut m = String::from_str("value is unexpectedly equal to 0x");
            m.append(h2.as_str());
            proof {
                assert(m@ =~= msg_unexpectedly_equal(val.as_ubits()));
            }
            Err(IoError::Validation(m))
        }
    }

    /// Passes the value through when it lies in the half-open range.
    fn validate_in_range(self, range: core::ops::Range<Self>) -> (r: Result<Self, IoError>)
        ensures
            (range.start.as_int() <= self.as_int() && self.as_int() < range.end.as_int())
                ==> r == Ok::<Self, IoError>(self),
            !(range.start.as_int() <= self.as_int() && self.as_int() < range.end.as_int())
                ==> (r matches Err(e) && e matches IoError::Validation(m) && m@
                == msg_not_in_range(self.as_ubits(), range.start.as_ubits(),
                range.end.as_ubits())),
    {
        if range.start.le_v(self) && !self.eq_v(range.end) && (self.le_v(range.end)) {
            Ok(self)
        } else {
            let h = self.hex();
            let hl = range.start.hex();
            let hh = range.end.hex();
            let mut m = String::from_str("value 0x");
            m.append(h.as_str());
            m.append(" not in expected range ");
            m.append(hl.as_str());
            m.append("..");
            m.append(hh.as_str());
            proof {
                assert(m@ =~= msg_not_in_range(self.as_ubits(), range.start.as_ubits(),
                    range.end.as_ubits()));
            }
            Err(IoError::Validation(m))
        }
    }

    /// Passes the value through when it lies outside the half-open range.
    fn validate_not_in_range(self, range: core::ops::Range<Self>) -> (r: Result<Self, IoError>)
        ensures
            !(range.start.as_int() <= self.as_int() && self.as_int() < range.end.as_int())
                ==> r == Ok::<Self, IoError>(self),
            (range.start.as_int() <= self.as_int() && self.as_int() < range.end.as_int())
                ==> (r matches Err(e) && e matches IoError::Validation(m) && m@
                == msg_in_range(self.as_ubits(), range.start.as_ubits(), range.end.as_ubits())),
    {
        if !(range.start.le_v(self) && !self.eq_v(range.end) && self.le_v(range.end)) {
            Ok(self)
        } else {
            let h = self.hex();
            let hl = range.start.hex();
            let hh = range.end.hex();
            let mut m = String::from_str("value 0x");
            m.append(h.as_str());
            m.append(" unexpectedly is in range ");
            m.append(hl.as_str());
            m.append("..");
            m.append(hh.as_str());
            proof {
                assert(m@ =~= msg_in_range(self.as_ubits(), range.start.as_ubits(),
                    range.end.as_ubits()));
            }
            Err(IoError::Validation(m))
        }
    }

    /// Passes the value through when the list holds it.
    fn validate_in_list(self, list: &[Self]) -> (r: Result<Self, IoError>)
        ensures
            on_list(self.as_int(), list@.map_values(|v: Self| v.as_int())) ==> r == Ok::<Self, IoError>(self),
            !on_list(self.as_int(), list@.map_values(|v: Self| v.as_int())) ==> (r matches Err(e) && e matches IoError::Validation(m)
                && m@ == msg_not_on_list(self.as_ubits(), hex_list(list@.map_values(|v: Self| v.as_ubits())))),
    {
        if self.contains_value(list) {
            Ok(self)
        } else {
            let h = self.hex();
            let hl = Self::hex_join(list);
            let mut m = String::from_str("value 0x");
            m.append(h.as_str());
            m.append(" is not on expected list [");
            m.append(hl.as_str());
            m.append("]");
            proof {
                assert(m@ =~= msg_not_on_list(self.as_ubits(), hex_list(list@.map_values(|v: Self| v.as_ubits()))));
            }
            Err(IoError::Validation(m))
        }
    }

    /// Passes the value through when the list does not hold it.
    fn validate_not_in_list(self, list: &[Self]) -> (r: Result<Self, IoError>)
        ensures
            !on_list(self.as_int(), list@.map_values(|v: Self| v.as_int())) ==> r == Ok::<Self, IoError>(self),
            on_list(self.as_int(), list@.map_values(|v: Self| v.as_int())) ==> (r matches Err(e) && e matches IoError::Validation(m)
                && m@ == msg_on_list(self.as_ubits(), hex_list(list@.map_values(|v: Self| v.as_ubits())))),
    {
        if !self.contains_value(list) {
            Ok(self)
        } else {
            let h = self.hex();
            let hl = Self::hex_join(list);
            let mut m = String::from_str("value 0x");
            m.append(h.as_str());
            m.append(" is unexpectedly on list [");
            m.append(hl.as_str());
            m.append("]");
            proof {
                assert(m@ =~= msg_on_list(self.as_ubits(), hex_list(list@.map_values(|v: Self| v.as_ubits()))));
            }
            Err(IoError::Validation(m))
        }
    }

    /// Passes the value through when the array holds it.
    fn validate_in_array<const N: usize>(self, list: [Self; N]) -> (r: Result<Self, IoError>)
        ensures
            on_list(self.as_int(), list@.map_values(|v: Self| v.as_int())) ==> r == Ok::<Self, IoError>(self),
            !on_list(self.as_int(), list@.map_values(|v: Self| v.as_int())) ==> (r matches Err(e) && e matches IoError::Validation(m)
                && m@ == msg_not_on_list(self.as_ubits(), hex_list(list@.map_values(|v: Self| v.as_ubits())))),
    {
        self.validate_in_list(list.as_slice())
    }

    /// Passes the value through when the array does not hold it.
    fn validate_not_in_array<const N: usize>(self, list: [Self; N]) -> (r: Result<
        Self,
        IoError,
    >)
        ensures
            !on_list(self.as_int(), list@.map_values(|v: Self| v.as_int())) ==> r == Ok::<Self, IoError>(self),
            on_list(self.as_int(), list@.map_values(|v: Self| v.as_int())) ==> (r matches Err(e) && e matches IoError::Validation(m)
                && m@ == msg_on_list(self.as_ubits(), hex_list(list@.map_values(|v: Self| v.as_ubits())))),
    {
        self.validate_not_in_list(list.as_slice())
    }

    /// Passes the value through when the predicate holds of it.
    fn validate<P: FnOnce(&Self) -> bool>(self, predicate: P) -> (r: Result<Self, IoError>)
        requires
            call_requires(predicate, (&self,)),
        ensures
            r matches Ok(v) ==> v == self && call_ensures(predicate, (&self,), true),
            r matches Err(e) ==> ({
                &&& call_ensures(predicate, (&self,), false)
                &&& e matches IoError::Validation(m) && m@ == msg_failed_test(self.as_ubits())
            }),
    {
        if predicate(&self) {
            Ok(self)
        } else {
            let h = self.hex();
            let mut m = String::from_str("value 0x");
            m.append(h.as_str());
            m.append(" failed test");
            proof {
                assert(m@ =~= msg_failed_test(self.as_ubits()));
            }
            Err(IoError::Validation(m))
        }
    }

    /// Passes the value through when the predicate does not hold of it.
    fn validate_not<P: FnOnce(&Self) -> bool>(self, predicate: P) -> (r: Result<Self, IoError>)
        requires
            call_requires(predicate, (&self,)),
        ensures
            r matches Ok(v) ==> v == self && call_ensures(predicate, (&self,), false),
            r matches Err(e) ==> ({
                &&& call_ensures(predicate, (&self,), true)
                &&& e matches IoError::Validation(m) && m@ == msg_succeeded_test(self.as_ubits())
            }),
    {
        if !predicate(&self) {
            Ok(self)
        } else {
            let h = self.hex();
            let mut m = String::from_str("value 0x");
            m.append(h.as_str());
            m.append(" unexpectedly succeeded test");
            proof {
                assert(m@ =~= msg_succeeded_test(self.as_ubits()));
            }
            Err(IoError::Validation(m))
        }
    }

    /// As [`Validator::validate_equals`], labelling the value with `msg`.
    fn validate_equals_ctx(self, val: Self, msg: &str) -> (r: Result<Self, IoError>)
        ensures
            self.as_int() == val.as_int() ==> r == Ok::<Self, IoError>(self),
            self.as_int() != val.as_int() ==> (r matches Err(e) && e matches IoError::Validation(
                m,
            ) && m@ == msg_not_equal_ctx(msg@, self.as_ubits(), val.as_ubits())),
    {
        if self.eq_v(val) {
            Ok(self)
        } else {
            let h1 = self.hex();
            let h2 = val.hex();
            let mut m = String::from_str("value ");
            m.append(msg);
            m.append("=0x");
            m.append(h1.as_str());
            m.append(" not equal to expected 0x");
            m.append(h2.as_str());
            proof {
                assert(m@ =~= msg_not_equal_ctx(msg@, self.as_ubits(), val.as_ubits()));
            }
            Err(IoError::Validation(m))
        }
    }

    /// As [`Validator::validate_not_equals`], labelling the value with `msg`.
    fn validate_not_equals_ctx(self, val: Self, msg: &str) -> (r: Result<Self, IoError>)
        ensures
            self.as_int() != val.as_int() ==> r == Ok::<Self, IoError>(self),
            self.as_int() == val.as_int() ==> (r matches Err(e) && e matches IoError::Validation(
                m,
            ) && m@ == msg_unexpectedly_equal_ctx(msg@, val.as_ubits())),
    {
        if !self.eq_v(val) {
            Ok(self)
        } else {
            let h2 = val.hex();
            let mut m = String::from_str("value ");
            m.append(msg);
            m.append(" is unexpectedly equal to 0x");
            m.append(h2.as_str());
            proof {
                assert(m@ =~= msg_unexpectedly_equal_ctx(msg@, val.as_ubits()));
            }
            Err(IoError::Validation(m))
        }
    }

    /// As [`Validator::validate_in_range`], labelling the value with `msg`.
    fn validate_in_range_ctx(self, range: core::ops::Range<Self>, msg: &str) -> (r: Result<
        Self,
        IoError,
    >)
        ensures
            (range.start.as_int() <= self.as_int() && self.as_int() < range.end.as_int())
                ==> r == Ok::<Self, IoError>(self),
            !(range.start.as_int() <= self.as_int() && self.as_int() < range.end.as_int())
                ==> (r matches Err(e) && e matches IoError::Validation(m) && m@
                == msg_not_in_range_ctx(msg@, self.as_ubits(), range.start.as_ubits(),
                range.end.as_ubits())),
    {
        if range.start.le_v(self) && !self.eq_v(range.end) && self.le_v(range.end) {
            Ok(self)
        } else {
            let h = self.hex();
            let hl = range.start.hex();
            let hh = range.end.hex();
            let mut m = String::from_str("value ");
            m.append(msg);
            m.append("=0x");
            m.append(h.as_str());
            m.append(" not in expected range ");
            m.append(hl.as_str());
            m.append("..");
            m.append(hh.as_str());
            proof {
                assert(m@ =~= msg_not_in_range_ctx(msg@, self.as_ubits(),
                    range.start.as_ubits(), range.end.as_ubits()));
            }
            Err(IoError::Validation(m))
        }
    }

    /// As [`Validator::validate_not_in_range`], labelling the value with `msg`.
    fn validate_not_in_range_ctx(self, range: core::ops::Range<Self>, msg: &str) -> (r: Result<
        Self,
        IoError,
    >)
        ensures
            !(range.start.as_int() <= self.as_int() && self.as_int() < range.end.as_int())
                ==> r == Ok::<Self, IoError>(self),
            (range.start.as_int() <= self.as_int() && self.as_int() < range.end.as_int())
                ==> (r matches Err(e) && e matches IoError::Validation(m) && m@
                == msg_in_range_ctx(msg@, self.as_ubits(), range.start.as_ubits(),
                range.end.as_ubits())),
    {
        if !(range.start.le_v(self) && !self.eq_v(range.end) && self.le_v(range.end)) {
            Ok(self)
        } else {
            let h = self.hex();
            let hl = range.start.hex();
            let hh = range.end.hex();
            let mut m = String::from_str("value ");
            m.append(msg);
            m.append("=0x");
            m.append(h.as_str());
            m.append(" unexpectedly is in range ");
            m.append(hl.as_str());
            m.append("..");
            m.append(hh.as_str());
            proof {
                assert(m@ =~= msg_in_range_ctx(msg@, self.as_ubits(), range.start.as_ubits(),
                    range.end.as_ubits()));
            }
            Err(IoError::Validation(m))
        }
    }

    /// As [`Validator::validate_in_list`], labelling the value with `msg`.
    fn validate_in_list_ctx(self, list: &[Self], msg: &str) -> (r: Result<Self, IoError>)
        ensures
            on_list(self.as_int(), list@.map_values(|v: Self| v.as_int())) ==> r == Ok::<Self, IoError>(self),
            !on_list(self.as_int(), list@.map_values(|v: Self| v.as_int())) ==> (r matches Err(e) && e matches IoError::Validation(m)
                && m@ == msg_not_on_list_ctx(msg@, self.as_ubits(), hex_list(list@.map_values(|v: Self| v.as_ubits())))),
    {
        if self.contains_value(list) {
            Ok(self)
        } else {
            let h = self.hex();
            let hl = Self::hex_join(list);
            let mut m = String::from_str("value ");
            m.append(msg);
            m.append("=0x");
            m.append(h.as_str());
            m.append(" is not on expected list [");
            m.append(hl.as_str());
            m.append("]");
            proof {
                assert(m@ =~= msg_not_on_list_ctx(msg@, self.as_ubits(), hex_list(list@.map_values(|v: Self| v.as_ubits()))));
            }
            Err(IoError::Validation(m))
        }
    }

    /// As [`Validator::validate_not_in_list`], labelling the value with `msg`.
    fn validate_not_in_list_ctx(self, list: &[Self], msg: &str) -> (r: Result<Self, IoError>)
        ensures
            !on_list(self.as_int(), list@.map_values(|v: Self| v.as_int())) ==> r == Ok::<Self, IoError>(self),
            on_list(self.as_int(), list@.map_values(|v: Self| v.as_int())) ==> (r matches Err(e) && e matches IoError::Validation(m)
                && m@ == msg_on_list_ctx(msg@, self.as_ubits(), hex_list(list@.map_values(|v: Self| v.as_ubits())))),
    {
        if !self.contains_value(list) {
            Ok(self)
        } else {
            let h = self.hex();
            let hl = Self::hex_join(list);
            let mut m = String::from_str("value ");
            m.append(msg);
            m.append("=0x");
            m.append(h.as_str());
            m.append(" is unexpectedly on list [");
            m.append(hl.as_str());
            m.append("]");
            proof {
                assert(m@ =~= msg_on_list_ctx(msg@, self.as_ubits(), hex_list(list@.map_values(|v: Self| v.as_ubits()))));
            }
            Err(IoError::Validation(m))
        }
    }

    /// As [`Validator::validate_in_array`], labelling the value with `msg`.
    fn validate_in_array_ctx<const N: usize>(self, list: [Self; N], msg: &str) -> (r: Result<
        Self,
        IoError,
    >)
        ensures
            on_list(self.as_int(), list@.map_values(|v: Self| v.as_int())) ==> r == Ok::<Self, IoError>(self),
            !on_list(self.as_int(), list@.map_values(|v: Self| v.as_int())) ==> (r matches Err(e) && e matches IoError::Validation(m)
                && m@ == msg_not_on_list_ctx(msg@, self.as_ubits(), hex_list(list@.map_values(|v: Self| v.as_ubits())))),
    {
        self.validate_in_list_ctx(list.as_slice(), msg)
    }

    /// As [`Validator::validate_not_in_array`], labelling the value with `msg`.
    fn validate_not_in_array_ctx<const N: usize>(self, list: [Self; N], msg: &str) -> (r: Result<
        Self,
        IoError,
    >)
        ensures
            !on_list(self.as_int(), list@.map_values(|v: Self| v.as_int())) ==> r == Ok::<Self, IoError>(self),
            on_list(self.as_int(), list@.map_values(|v: Self| v.as_int())) ==> (r matches Err(e) && e matches IoError::Validation(m)
                && m@ == msg_on_list_ctx(msg@, self.as_ubits(), hex_list(list@.map_values(|v: Self| v.as_ubits())))),
    {
        self.validate_not_in_list_ctx(list.as_slice(), msg)
    }

    /// As [`Validator::validate`], labelling the value with `msg`.
    fn validate_ctx<P: FnOnce(&Self) -> bool>(self, predicate: P, msg: &str) -> (r: Result<
        Self,
        IoError,
    >)
        requires
            call_requires(predicate, (&self,)),
        ensures
            r matches Ok(v) ==> v == self && call_ensures(predicate, (&self,), true),
            r matches Err(e) ==> ({
                &&& call_ensures(predicate, (&self,), false)
                &&& e matches IoError::Validation(m) && m@ == msg_failed_test_ctx(
                    msg@,
                    self.as_ubits(),
                )
            }),
    {
        if predicate(&self) {
            Ok(self)
        } else {
            let h = self.hex();
            let mut m = String::from_str("value ");
            m.append(msg);
            m.append("=0x");
            m.append(h.as_str());
            m.append(" failed test");
            proof {
                assert(m@ =~= msg_failed_test_ctx(msg@, self.as_ubits()));
            }
            Err(IoError::Validation(m))
        }
    }

    /// As [`Validator::validate_not`], labelling the value with `msg`.
    fn validate_not_ctx<P: FnOnce(&Self) -> bool>(self, predicate: P, msg: &str) -> (r: Result<
        Self,
        IoError,
    >)
        requires
            call_requires(predicate, (&self,)),
        ensures
            r matches Ok(v) ==> v == self && call_ensures(predicate, (&self,), false),
            r matches Err(e) ==> ({
                &&& call_ensures(predicate, (&self,), true)
                &&& e matches IoError::Validation(m) && m@ == msg_succeeded_test_ctx(
                    msg@,
                    self.as_ubits(),
                )
            }),
    {
        if !predicate(&self) {
            Ok(self)
        } else {
            let h = self.hex();
            let mut m = String::from_str("value ");
            m.append(msg);
            m.append("=0x");
            m.append(h.as_str());
            m.append(" unexpectedly succeeded test");
            proof {
                assert(m@ =~= msg_succeeded_test_ctx(msg@, self.as_ubits()));
            }
            Err(IoError::Validation(m))
        }
    }

    /// Whether the slice holds the value, by mathematical value.
    fn contains_value(self, list: &[Self]) -> (r: bool)
        ensures
            r == on_list(self.as_int(), list@.map_values(|v: Self| v.as_int())),
    {
        let n = list.len();
        let mut i: usize = 0;
        while i < n
            invariant
                i <= n == list@.len(),
                forall|k: int| 0 <= k < i ==> list@[k].as_int() != self.as_int(),
            decreases n - i,
        {
            if list[i].eq_v(self) {
                proof {
                    assert(list@.map_values(|v: Self| v.as_int())[i as int]
                        == list@[i as int].as_int());
                }
                return true;
            }
            i = i + 1;
        }
        proof {
            let mapped = list@.map_values(|v: Self| v.as_int());
            assert(forall|k: int| 0 <= k < mapped.len() ==> #[trigger] mapped[k]
                == list@[k].as_int());
        }
        false
    }

    /// Renders the slice's values in uppercase hexadecimal, comma-separated.
    fn hex_join(list: &[Self]) -> (s: String)
        ensures
            s@ == hex_list(list@.map_values(|v: Self| v.as_ubits())),
    {
        let n = list.len();
        let mut s = String::new();
        let mut i: usize = 0;
        while i < n
            invariant
                i <= n == list@.len(),
                s@ == hex_list(list@.map_values(|v: Self| v.as_ubits()).take(i as int)),
            decreases n - i,
        {
            let ghost mapped = list@.map_values(|v: Self| v.as_ubits());
            proof {
                assert(mapped.take(i + 1).drop_last() =~= mapped.take(i as int));
                assert(mapped.take(i + 1).last() == mapped[i as int]);
                assert(mapped[i as int] == list@[i as int].as_ubits());
                if i == 0 {
                    assert(mapped.take(1)[0] == mapped[0]);
                }
            }
            if i > 0 {
                s.append(", ");
            }
            let h = list[i].hex();
            s.append(h.as_str());
            proof {
                assert(s@ =~= hex_list(list@.map_values(|v: Self| v.as_ubits()).take(i + 1)));
            }
            i = i + 1;
        }
        proof {
            assert(list@.map_values(|v: Self| v.as_ubits()).take(n as int) =~= list@.map_values(
                |v: Self| v.as_ubits(),
            ));
        }
        s
    }
}


impl Validator for u8 {
    open spec fn as_int(self) -> int {
        self as int
    }

    open spec fn as_ubits(self) -> nat {
        self as nat
    }

    fn eq_v(self, other: u8) -> (r: bool) {
        self == other
    }

    fn le_v(self, other: u8) -> (r: bool) {
        self <= other
    }

    fn hex(self) -> (s: String) {
        hex_string(self as u128)
    }
}

impl Validator for u16 {
    open spec fn as_int(self) -> int {
        self as int
    }

    open spec fn as_ubits(self) -> nat {
        self as nat
    }

    fn eq_v(self, other: u16) -> (r: bool) {
        self == other
    }

    fn le_v(self, other: u16) -> (r: bool) {
        self <= other
    }

    fn hex(self) -> (s: String) {
        hex_string(self as u128)
    }
}

impl Validator for u32 {
    open spec fn as_int(self) -> int {
        self as int
    }

    open spec fn as_ubits(self) -> nat {
        self as nat
    }

    fn eq_v(self, other: u32) -> (r: bool) {
        self == other
    }

    fn le_v(self, other: u32) -> (r: bool) {
        self <= other
    }

    fn hex(self) -> (s: String) {
        hex_string(self as u128)
    }
}

impl Validator for u64 {
    open spec fn as_int(self) -> int {
        self as int
    }

    open spec fn as_ubits(self) -> nat {
        self as nat
    }

    fn eq_v(self, other: u64) -> (r: bool) {
        self == other
    }

    fn le_v(self, other: u64) -> (r: bool) {
        self <= other
    }

    fn hex(self) -> (s: String) {
        hex_string(self as u128)
    }
}

impl Validator for u128 {
    open spec fn as_int(self) -> int {
        self as int
    }

    open spec fn as_ubits(self) -> nat {
        self as nat
    }

    fn eq_v(self, other: u128) -> (r: bool) {
        self == other
    }

    fn le_v(self, other: u128) -> (r: bool) {
        self <= other
    }

    fn hex(self) -> (s: String) {
        hex_string(self as u128)
    }
}

impl Validator for i8 {
    open spec fn as_int(self) -> int {
        self as int
    }

    open spec fn as_ubits(self) -> nat {
        unsigned_rep(self as int, 1)
    }

    fn eq_v(self, other: i8) -> (r: bool) {
        self == other
    }

    fn le_v(self, other: i8) -> (r: bool) {
        self <= other
    }

    fn hex(self) -> (s: String) {
        hex_string(i8_to_u8(self) as u128)
    }
}

impl Validator for i16 {
    open spec fn as_int(self) -> int {
        self as int
    }

    open spec fn as_ubits(self) -> nat {
        unsigned_rep(self as int, 2)
    }

    fn eq_v(self, other: i16) -> (r: bool) {
        self == other
    }

    fn le_v(self, other: i16) -> (r: bool) {
        self <= other
    }

    fn hex(self) -> (s: String) {
        hex_string(i16_to_u16(self) as u128)
    }
}

impl Validator for i32 {
    open spec fn as_int(self) -> int {
        self as int
    }

    open spec fn as_ubits(self) -> nat {
        unsigned_rep(self as int, 4)
    }

    fn eq_v(self, other: i32) -> (r: bool) {
        self == other
    }

    fn le_v(self, other: i32) -> (r: bool) {
        self <= other
    }

    fn hex(self) -> (s: String) {
        hex_string(i32_to_u32(self) as u128)
    }
}

impl Validator for i64 {
    open spec fn as_int(self) -> int {
        self as int
    }

    open spec fn as_ubits(self) -> nat {
        unsigned_rep(self as int, 8)
    }

    fn eq_v(self, other: i64) -> (r: bool) {
        self == other
    }

    fn le_v(self, other: i64) -> (r: bool) {
        self <= other
    }

    fn hex(self) -> (s: String) {
        hex_string(i64_to_u64(self) as u128)
    }
}

impl Validator for i128 {
    open spec fn as_int(self) -> int {
        self as int
    }

    open spec fn as_ubits(self) -> nat {
        unsigned_rep(self as int, 16)
    }

    fn eq_v(self, other: i128) -> (r: bool) {
        self == other
    }

    fn le_v(self, other: i128) -> (r: bool) {
        self <= other
    }

    fn hex(self) -> (s: String) {
        hex_string(i128_to_u128(self) as u128)
    }
}

/// A hook for types that check their own consistency after decoding; the
/// default check accepts every value.
pub trait Validate: Sized {
    /// Accepts the value.
    fn validate(self) -> (r: Result<Self, IoError>)
        ensures
            r == Ok::<Self, IoError>(self),
    {
        Ok(self)
    }
}

} // verus!
