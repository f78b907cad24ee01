//! Automatic type-driven reads and writes, least significant byte first.
//!
//! Importing this module's traits picks the field width and signedness
//! from the value's type and fixes the byte order.

use vstd::prelude::*;

use crate::error::IoError;
use crate::numcodec::{
    be_bytes_to_nat, le_bytes_to_nat, lemma_be_bytes_to_nat_bound,
    lemma_le_bytes_to_nat_bound, nat_to_be_bytes, nat_to_le_bytes, pow256, signed_of,
    unsigned_rep,
};
use crate::reader::SafeRead;
use crate::writer::{write_at, SafeWrite};

verus! {

/// Reads a `T` whose width and signedness follow from its type, least
/// significant byte first.
pub trait SafeReader<T>: SafeRead {
    /// The field width in bytes.
    spec fn auto_width() -> nat;

    /// The value a field's bytes denote.
    spec fn auto_of(bytes: Seq<u8>) -> T;

    /// Reads one value of `T` at the cursor.
    fn read_auto(&mut self) -> (r: Result<T, IoError>)
        ensures
            final(self).data() == old(self).data(),
            old(self).pos() + Self::auto_width() <= old(self).data().len() ==> {
                &&& final(self).pos() == old(self).pos() + Self::auto_width()
                &&& r matches Ok(v) && v == Self::auto_of(
                    old(self).data().subrange(
                        old(self).pos() as int,
                        old(self).pos() as int + Self::auto_width() as int,
                    ),
                )
            },
            old(self).pos() + Self::auto_width() > old(self).data().len() ==> {
                &&& final(self).pos() == old(self).pos()
                &&& r matches Err(e) && e == IoError::ShortRead
            },
    ;
}

/// Writes a `T` whose width and signedness follow from its type, least
/// significant byte first.
pub trait SafeWriter<T>: SafeWrite {
    /// The bytes a value is laid down as.
    spec fn auto_bytes(val: T) -> Seq<u8>;

    /// Writes one value of `T` at the cursor.
    fn write_auto(&mut self, val: T) -> (r: Result<(), IoError>)
        requires
            old(self).pos() <= old(self).data().len(),
        ensures
            r matches Ok(_) ==> {
                &&& final(self).data() == write_at(
                    old(self).data(),
                    old(self).pos() as int,
                    Self::auto_bytes(val),
                )
                &&& final(self).pos() == old(self).pos() + Self::auto_bytes(val).len()
                &&& final(self).pos() <= final(self).data().len()
            },
            r matches Err(e) ==> e == IoError::ShortWrite,
    ;
}

impl<SR: SafeRead> SafeReader<u8> for SR {
    open spec fn auto_width() -> nat {
        1
    }

    open spec fn auto_of(bytes: Seq<u8>) -> u8 {
        be_bytes_to_nat(bytes) as u8
    }

    fn read_auto(&mut self) -> (r: Result<u8, IoError>) {
        proof {
            if old(self).pos() + 1 <= old(self).data().len() {
                let s = old(self).data().subrange(
                    old(self).pos() as int,
                    old(self).pos() as int + 1,
                );
                lemma_be_bytes_to_nat_bound(s);
                reveal_with_fuel(pow256, 2);
            }
        }
        self.read_u8()
    }
}

impl<SR: SafeRead> SafeReader<u16> for SR {
    open spec fn auto_width() -> nat {
        2
    }

    open spec fn auto_of(bytes: Seq<u8>) -> u16 {
        le_bytes_to_nat(bytes) as u16
    }

    fn read_auto(&mut self) -> (r: Result<u16, IoError>) {
        proof {
            if old(self).pos() + 2 <= old(self).data().len() {
                let s = old(self).data().subrange(
                    old(self).pos() as int,
                    old(self).pos() as int + 2,
                );
                lemma_le_bytes_to_nat_bound(s);
                reveal_with_fuel(pow256, 3);
            }
        }
        self.read_u16le()
    }
}

impl<SR: SafeRead> SafeReader<u32> for SR {
    open spec fn auto_width() -> nat {
        4
    }

    open spec fn auto_of(bytes: Seq<u8>) -> u32 {
        le_bytes_to_nat(bytes) as u32
    }

    fn read_auto(&mut self) -> (r: Result<u32, IoError>) {
        proof {
            if old(self).pos() + 4 <= old(self).data().len() {
                let s = old(self).data().subrange(
                    old(self).pos() as int,
                    old(self).pos() as int + 4,
                );
                lemma_le_bytes_to_nat_bound(s);
                reveal_with_fuel(pow256, 5);
            }
        }
        self.read_u32le()
    }
}

impl<SR: SafeRead> SafeReader<u64> for SR {
    open spec fn auto_width() -> nat {
        8
    }

    open spec fn auto_of(bytes: Seq<u8>) -> u64 {
        le_bytes_to_nat(bytes) as u64
    }

    fn read_auto(&mut self) -> (r: Result<u64, IoError>) {
        proof {
            if old(self).pos() + 8 <= old(self).data().len() {
                let s = old(self).data().subrange(
                    old(self).pos() as int,
                    old(self).pos() as int + 8,
                );
                lemma_le_bytes_to_nat_bound(s);
                reveal_with_fuel(pow256, 9);
            }
        }
        self.read_u64le()
    }
}

impl<SR: SafeRead> SafeReader<u128> for SR {
    open spec fn auto_width() -> nat {
        16
    }

    open spec fn auto_of(bytes: Seq<u8>) -> u128 {
        le_bytes_to_nat(bytes) as u128
    }

    fn read_auto(&mut self) -> (r: Result<u128, IoError>) {
        proof {
            if old(self).pos() + 16 <= old(self).data().len() {
                let s = old(self).data().subrange(
                    old(self).pos() as int,
                    old(self).pos() as int + 16,
                );
                lemma_le_bytes_to_nat_bound(s);
                reveal_with_fuel(pow256, 17);
            }
        }
        self.read_u128le()
    }
}

impl<SR: SafeRead> SafeReader<i8> for SR {
    open spec fn auto_width() -> nat {
        1
    }

    open spec fn auto_of(bytes: Seq<u8>) -> i8 {
        signed_of(be_bytes_to_nat(bytes), 1) as i8
    }

    fn read_auto(&mut self) -> (r: Result<i8, IoError>) {
        proof {
            if old(self).pos() + 1 <= old(self).data().len() {
                let s = old(self).data().subrange(
                    old(self).pos() as int,
                    old(self).pos() as int + 1,
                );
                lemma_be_bytes_to_nat_bound(s);
                reveal_with_fuel(pow256, 2);
            }
        }
        self.read_i8()
    }
}

impl<SR: SafeRead> SafeReader<i16> for SR {
    open spec fn auto_width() -> nat {
        2
    }

    open spec fn auto_of(bytes: Seq<u8>) -> i16 {
        signed_of(le_bytes_to_nat(bytes), 2) as i16
    }

    fn read_auto(&mut self) -> (r: Result<i16, IoError>) {
        proof {
            if old(self).pos() + 2 <= old(self).data().len() {
                let s = old(self).data().subrange(
                    old(self).pos() as int,
                    old(self).pos() as int + 2,
                );
                lemma_le_bytes_to_nat_bound(s);
                reveal_with_fuel(pow256, 3);
            }
        }
        self.read_i16le()
    }
}

impl<SR: SafeRead> SafeReader<i32> for SR {
    open spec fn auto_width() -> nat {
        4
    }

    open spec fn auto_of(bytes: Seq<u8>) -> i32 {
        signed_of(le_bytes_to_nat(bytes), 4) as i32
    }

    fn read_auto(&mut self) -> (r: Result<i32, IoError>) {
        proof {
            if old(self).pos() + 4 <= old(self).data().len() {
                let s = old(self).data().subrange(
                    old(self).pos() as int,
                    old(self).pos() as int + 4,
                );
                lemma_le_bytes_to_nat_bound(s);
                reveal_with_fuel(pow256, 5);
            }
        }
        self.read_i32le()
    }
}

impl<SR: SafeRead> SafeReader<i64> for SR {
    open spec fn auto_width() -> nat {
        8
    }

    open spec fn auto_of(bytes: Seq<u8>) -> i64 {
        signed_of(le_bytes_to_nat(bytes), 8) as i64
    }

    fn read_auto(&mut self) -> (r: Result<i64, IoError>) {
        proof {
            if old(self).pos() + 8 <= old(self).data().len() {
                let s = old(self).data().subrange(
                    old(self).pos() as int,
                    old(self).pos() as int + 8,
                );
                lemma_le_bytes_to_nat_bound(s);
                reveal_with_fuel(pow256, 9);
            }
        }
        self.read_i64le()
    }
}

impl<SR: SafeRead> SafeReader<i128> for SR {
    open spec fn auto_width() -> nat {
        16
    }

    open spec fn auto_of(bytes: Seq<u8>) -> i128 {
        signed_of(le_bytes_to_nat(bytes), 16) as i128
    }

    fn read_auto(&mut self) -> (r: Result<i128, IoError>) {
        proof {
            if old(self).pos() + 16 <= old(self).data().len() {
                let s = old(self).data().subrange(
                    old(self).pos() as int,
                    old(self).pos() as int + 16,
                );
                lemma_le_bytes_to_nat_bound(s);
                reveal_with_fuel(pow256, 17);
            }
        }
        self.read_i128le()
    }
}

impl<SW: SafeWrite> SafeWriter<u8> for SW {
    open spec fn auto_bytes(val: u8) -> Seq<u8> {
        nat_to_be_bytes(val as nat, 1)
    }

    fn write_auto(&mut self, val: u8) -> (r: Result<(), IoError>) {
        proof {
            crate::numcodec::lemma_nat_to_be_bytes_len(val as nat, 1);
        }
        self.write_u8(val)
    }
}

impl<SW: SafeWrite> SafeWriter<u16> for SW {
    open spec fn auto_bytes(val: u16) -> Seq<u8> {
        nat_to_le_bytes(val as nat, 2)
    }

    fn write_auto(&mut self, val: u16) -> (r: Result<(), IoError>) {
        proof {
            crate::numcodec::lemma_nat_to_be_bytes_len(val as nat, 2);
        }
        self.write_u16_le(val)
    }
}

impl<SW: SafeWrite> SafeWriter<u32> for SW {
    open spec fn auto_bytes(val: u32) -> Seq<u8> {
        nat_to_le_bytes(val as nat, 4)
    }

    fn write_auto(&mut self, val: u32) -> (r: Result<(), IoError>) {
        proof {
            crate::numcodec::lemma_nat_to_be_bytes_len(val as nat, 4);
        }
        self.write_u32_le(val)
    }
}

impl<SW: SafeWrite> SafeWriter<u64> for SW {
    open spec fn auto_bytes(val: u64) -> Seq<u8> {
        nat_to_le_bytes(val as nat, 8)
    }

    fn write_auto(&mut self, val: u64) -> (r: Result<(), IoError>) {
        proof {
            crate::numcodec::lemma_nat_to_be_bytes_len(val as nat, 8);
        }
        self.write_u64_le(val)
    }
}

impl<SW: SafeWrite> SafeWriter<u128> for SW {
    open spec fn auto_bytes(val: u128) -> Seq<u8> {
        nat_to_le_bytes(val as nat, 16)
    }

    fn write_auto(&mut self, val: u128) -> (r: Result<(), IoError>) {
        proof {
            crate::numcodec::lemma_nat_to_be_bytes_len(val as nat, 16);
        }
        self.write_u128_le(val)
    }
}

impl<SW: SafeWrite> SafeWriter<i8> for SW {
    open spec fn auto_bytes(val: i8) -> Seq<u8> {
        nat_to_be_bytes(unsigned_rep(val as int, 1), 1)
    }

    fn write_auto(&mut self, val: i8) -> (r: Result<(), IoError>) {
        proof {
            crate::numcodec::lemma_nat_to_be_bytes_len(unsigned_rep(val as int, 1), 1);
        }
        self.write_i8(val)
    }
}

impl<SW: SafeWrite> SafeWriter<i16> for SW {
    open spec fn auto_bytes(val: i16) -> Seq<u8> {
        nat_to_le_bytes(unsigned_rep(val as int, 2), 2)
    }

    fn write_auto(&mut self, val: i16) -> (r: Result<(), IoError>) {
        proof {
            crate::numcodec::lemma_nat_to_be_bytes_len(unsigned_rep(val as int, 2), 2);
        }
        self.write_i16_le(val)
    }
}

impl<SW: SafeWrite> SafeWriter<i32> for SW {
    open spec fn auto_bytes(val: i32) -> Seq<u8> {
        nat_to_le_bytes(unsigned_rep(val as int, 4), 4)
    }

    fn write_auto(&mut self, val: i32) -> (r: Result<(), IoError>) {
        proof {
            crate::numcodec::lemma_nat_to_be_bytes_len(unsigned_rep(val as int, 4), 4);
        }
        self.write_i32_le(val)
    }
}

impl<SW: SafeWrite> SafeWriter<i64> for SW {
    open spec fn auto_bytes(val: i64) -> Seq<u8> {
        nat_to_le_bytes(unsigned_rep(val as int, 8), 8)
    }

    fn write_auto(&mut self, val: i64) -> (r: Result<(), IoError>) {
        proof {
            crate::numcodec::lemma_nat_to_be_bytes_len(unsigned_rep(val as int, 8), 8);
        }
        self.write_i64_le(val)
    }
}

impl<SW: SafeWrite> SafeWriter<i128> for SW {
    open spec fn auto_bytes(val: i128) -> Seq<u8> {
        nat_to_le_bytes(unsigned_rep(val as int, 16), 16)
    }

    fn write_auto(&mut self, val: i128) -> (r: Result<(), IoError>) {
        proof {
            crate::numcodec::lemma_nat_to_be_bytes_len(unsigned_rep(val as int, 16), 16);
        }
        self.write_i128_le(val)
    }
}

} // verus!
