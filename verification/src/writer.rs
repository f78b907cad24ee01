//! Typed, fallible writes over a seekable byte stream.

use vstd::prelude::*;

use crate::error::IoError;
use crate::numcodec::{
    i128_to_u128, i16_to_u16, i32_to_u32, i64_to_u64, i8_to_u8, nat_to_be_bytes,
    nat_to_bytes_be, nat_to_bytes_le, nat_to_le_bytes, unsigned_rep,
};
use crate::varint::{leb_encode, leb_encode_vec, vlq_encode, vlq_encode_vec};

verus! {

/// `d` with `b` laid down at offset `p`: bytes under `b` are overwritten
/// and the stream grows where `b` runs past the old end.
pub open spec fn write_at(d: Seq<u8>, p: int, b: Seq<u8>) -> Seq<u8>
    recommends
        0 <= p <= d.len(),
{
    if p + b.len() <= d.len() {
        d.take(p) + b + d.skip(p + b.len())
    } else {
        d.take(p) + b
    }
}

/// A writable byte stream with a cursor.
///
/// `data` is the whole underlying byte sequence and `pos` the cursor.
/// Writes lay bytes down at the cursor, overwriting what is there and
/// growing the stream past its end; a sink that rejects a write reports
/// [`IoError::ShortWrite`] and leaves the cursor unspecified.
pub trait SafeWrite: Sized {
    /// The bytes the stream holds.
    spec fn data(&self) -> Seq<u8>;

    /// The cursor: where the next byte will be laid down.
    spec fn pos(&self) -> nat;

    /// Reports the cursor without moving it.
    fn tell(&mut self) -> (r: Result<u64, IoError>)
        ensures
            *final(self) == *old(self),
            r matches Ok(p) && p as nat == old(self).pos(),
    ;

    /// Writes every byte of `val` at the cursor.
    fn write_exact(&mut self, val: &[u8]) -> (r: Result<(), IoError>)
        requires
            old(self).pos() <= old(self).data().len(),
        ensures
            r matches Ok(_) ==> {
                &&& final(self).data() == write_at(
                    old(self).data(),
                    old(self).pos() as int,
                    val@,
                )
                &&& final(self).pos() == old(self).pos() + val@.len()
                &&& final(self).pos() <= final(self).data().len()
            },
            r matches Err(e) ==> e == IoError::ShortWrite,
    ;

    /// Writes one unsigned byte.
    fn write_u8(&mut self, val: u8) -> (r: Result<(), IoError>)
        requires
            old(self).pos() <= old(self).data().len(),
        ensures
            r matches Ok(_) ==> {
                &&& final(self).data() == write_at(
                    old(self).data(),
                    old(self).pos() as int,
                    nat_to_be_bytes(val as nat, 1),
                )
                &&& final(self).pos() == old(self).pos() + 1
                &&& final(self).pos() <= final(self).data().len()
            },
            r matches Err(e) ==> e == IoError::ShortWrite,
    {
        let bytes = nat_to_bytes_be(val as u128, 1);
        self.write_exact(bytes.as_slice())
    }

    /// Writes one signed byte in two's complement.
    fn write_i8(&mut self, val: i8) -> (r: Result<(), IoError>)
        requires
            old(self).pos() <= old(self).data().len(),
        ensures
            r matches Ok(_) ==> {
                &&& final(self).data() == write_at(
                    old(self).data(),
                    old(self).pos() as int,
                    nat_to_be_bytes(unsigned_rep(val as int, 1), 1),
                )
                &&& final(self).pos() == old(self).pos() + 1
                &&& final(self).pos() <= final(self).data().len()
            },
            r matches Err(e) ==> e == IoError::ShortWrite,
    {
        let bytes = nat_to_bytes_be(i8_to_u8(val) as u128, 1);
        self.write_exact(bytes.as_slice())
    }

    /// Writes a 2-byte unsigned value, most significant byte first.
    fn write_u16_be(&mut self, val: u16) -> (r: Result<(), IoError>)
        requires
            old(self).pos() <= old(self).data().len(),
        ensures
            r matches Ok(_) ==> {
                &&& final(self).data() == write_at(
                    old(self).data(),
                    old(self).pos() as int,
                    nat_to_be_bytes(val as nat, 2),
                )
                &&& final(self).pos() == old(self).pos() + 2
                &&& final(self).pos() <= final(self).data().len()
            },
            r matches Err(e) ==> e == IoError::ShortWrite,
    {
        let bytes = nat_to_bytes_be(val as u128, 2);
        self.write_exact(bytes.as_slice())
    }

    /// Writes a 2-byte signed value, most significant byte first.
    fn write_i16_be(&mut self, val: i16) -> (r: Result<(), IoError>)
        requires
            old(self).pos() <= old(self).data().len(),
        ensures
            r matches Ok(_) ==> {
                &&& final(self).data() == write_at(
                    old(self).data(),
                    old(self).pos() as int,
                    nat_to_be_bytes(unsigned_rep(val as int, 2), 2),
                )
                &&& final(self).pos() == old(self).pos() + 2
                &&& final(self).pos() <= final(self).data().len()
            },
            r matches Err(e) ==> e == IoError::ShortWrite,
    {
        let bytes = nat_to_bytes_be(i16_to_u16(val) as u128, 2);
        self.write_exact(bytes.as_slice())
    }

    /// Writes a 2-byte unsigned value, least significant byte first.
    fn write_u16_le(&mut self, val: u16) -> (r: Result<(), IoError>)
        requires
            old(self).pos() <= old(self).data().len(),
        ensures
            r matches Ok(_) ==> {
                &&& final(self).data() == write_at(
                    old(self).data(),
                    old(self).pos() as int,
                    nat_to_le_bytes(val as nat, 2),
                )
                &&& final(self).pos() == old(self).pos() + 2
                &&& final(self).pos() <= final(self).data().len()
            },
            r matches Err(e) ==> e == IoError::ShortWrite,
    {
        let bytes = nat_to_bytes_le(val as u128, 2);
        self.write_exact(bytes.as_slice())
    }

    /// Writes a 2-byte signed value, least significant byte first.
    fn write_i16_le(&mut self, val: i16) -> (r: Result<(), IoError>)
        requires
            old(self).pos() <= old(self).data().len(),
        ensures
            r matches Ok(_) ==> {
                &&& final(self).data() == write_at(
                    old(self).data(),
                    old(self).pos() as int,
                    nat_to_le_bytes(unsigned_rep(val as int, 2), 2),
                )
                &&& final(self).pos() == old(self).pos() + 2
                &&& final(self).pos() <= final(self).data().len()
            },
            r matches Err(e) ==> e == IoError::ShortWrite,
    {
        let bytes = nat_to_bytes_le(i16_to_u16(val) as u128, 2);
        self.write_exact(bytes.as_slice())
    }

    /// Writes a 4-byte unsigned value, most significant byte first.
    fn write_u32_be(&mut self, val: u32) -> (r: Result<(), IoError>)
        requires
            old(self).pos() <= old(self).data().len(),
        ensures
            r matches Ok(_) ==> {
                &&& final(self).data() == write_at(
                    old(self).data(),
                    old(self).pos() as int,
                    nat_to_be_bytes(val as nat, 4),
                )
                &&& final(self).pos() == old(self).pos() + 4
                &&& final(self).pos() <= final(self).data().len()
            },
            r matches Err(e) ==> e == IoError::ShortWrite,
    {
        let bytes = nat_to_bytes_be(val as u128, 4);
        self.write_exact(bytes.as_slice())
    }

    /// Writes a 4-byte signed value, most significant byte first.
    fn write_i32_be(&mut self, val: i32) -> (r: Result<(), IoError>)
        requires
            old(self).pos() <= old(self).data().len(),
        ensures
            r matches Ok(_) ==> {
                &&& final(self).data() == write_at(
                    old(self).data(),
                    old(self).pos() as int,
                    nat_to_be_bytes(unsigned_rep(val as int, 4), 4),
                )
                &&& final(self).pos() == old(self).pos() + 4
                &&& final(self).pos() <= final(self).data().len()
            },
            r matches Err(e) ==> e == IoError::ShortWrite,
    {
        let bytes = nat_to_bytes_be(i32_to_u32(val) as u128, 4);
        self.write_exact(bytes.as_slice())
    }

    /// Writes a 4-byte unsigned value, least significant byte first.
    fn write_u32_le(&mut self, val: u32) -> (r: Result<(), IoError>)
        requires
            old(self).pos() <= old(self).data().len(),
        ensures
            r matches Ok(_) ==> {
                &&& final(self).data() == write_at(
                    old(self).data(),
                    old(self).pos() as int,
                    nat_to_le_bytes(val as nat, 4),
                )
                &&& final(self).pos() == old(self).pos() + 4
                &&& final(self).pos() <= final(self).data().len()
            },
            r matches Err(e) ==> e == IoError::ShortWrite,
    {
        let bytes = nat_to_bytes_le(val as u128, 4);
        self.write_exact(bytes.as_slice())
    }

    /// Writes a 4-byte signed value, least significant byte first.
    fn write_i32_le(&mut self, val: i32) -> (r: Result<(), IoError>)
        requires
            old(self).pos() <= old(self).data().len(),
        ensures
            r matches Ok(_) ==> {
                &&& final(self).data() == write_at(
                    old(self).data(),
                    old(self).pos() as int,
                    nat_to_le_bytes(unsigned_rep(val as int, 4), 4),
                )
                &&& final(self).pos() == old(self).pos() + 4
                &&& final(self).pos() <= final(self).data().len()
            },
            r matches Err(e) ==> e == IoError::ShortWrite,
    {
        let bytes = nat_to_bytes_le(i32_to_u32(val) as u128, 4);
        self.write_exact(bytes.as_slice())
    }

    /// Writes a 8-byte unsigned value, most significant byte first.
    fn write_u64_be(&mut self, val: u64) -> (r: Result<(), IoError>)
        requires
            old(self).pos() <= old(self).data().len(),
        ensures
            r matches Ok(_) ==> {
                &&& final(self).data() == write_at(
                    old(self).data(),
                    old(self).pos() as int,
                    nat_to_be_bytes(val as nat, 8),
                )
                &&& final(self).pos() == old(self).pos() + 8
                &&& final(self).pos() <= final(self).data().len()
            },
            r matches Err(e) ==> e == IoError::ShortWrite,
    {
        let bytes = nat_to_bytes_be(val as u128, 8);
        self.write_exact(bytes.as_slice())
    }

    /// Writes a 8-byte signed value, most significant byte first.
    fn write_i64_be(&mut self, val: i64) -> (r: Result<(), IoError>)
        requires
            old(self).pos() <= old(self).data().len(),
        ensures
            r matches Ok(_) ==> {
                &&& final(self).data() == write_at(
                    old(self).data(),
                    old(self).pos() as int,
                    nat_to_be_bytes(unsigned_rep(val as int, 8), 8),
                )
                &&& final(self).pos() == old(self).pos() + 8
                &&& final(self).pos() <= final(self).data().len()
            },
            r matches Err(e) ==> e == IoError::ShortWrite,
    {
        let bytes = nat_to_bytes_be(i64_to_u64(val) as u128, 8);
        self.write_exact(bytes.as_slice())
    }

    /// Writes a 8-byte unsigned value, least significant byte first.
    fn write_u64_le(&mut self, val: u64) -> (r: Result<(), IoError>)
        requires
            old(self).pos() <= old(self).data().len(),
        ensures
            r matches Ok(_) ==> {
                &&& final(self).data() == write_at(
                    old(self).data(),
                    old(self).pos() as int,
                    nat_to_le_bytes(val as nat, 8),
                )
                &&& final(self).pos() == old(self).pos() + 8
                &&& final(self).pos() <= final(self).data().len()
            },
            r matches Err(e) ==> e == IoError::ShortWrite,
    {
        let bytes = nat_to_bytes_le(val as u128, 8);
        self.write_exact(bytes.as_slice())
    }

    /// Writes a 8-byte signed value, least significant byte first.
    fn write_i64_le(&mut self, val: i64) -> (r: Result<(), IoError>)
        requires
            old(self).pos() <= old(self).data().len(),
        ensures
            r matches Ok(_) ==> {
                &&& final(self).data() == write_at(
                    old(self).data(),
                    old(self).pos() as int,
                    nat_to_le_bytes(unsigned_rep(val as int, 8), 8),
                )
                &&& final(self).pos() == old(self).pos() + 8
                &&& final(self).pos() <= final(self).data().len()
            },
            r matches Err(e) ==> e == IoError::ShortWrite,
    {
        let bytes = nat_to_bytes_le(i64_to_u64(val) as u128, 8);
        self.write_exact(bytes.as_slice())
    }

    /// Writes a 16-byte unsigned value, most significant byte first.
    fn write_u128_be(&mut self, val: u128) -> (r: Result<(), IoError>)
        requires
            old(self).pos() <= old(self).data().len(),
        ensures
            r matches Ok(_) ==> {
                &&& final(self).data() == write_at(
                    old(self).data(),
                    old(self).pos() as int,
                    nat_to_be_bytes(val as nat, 16),
                )
                &&& final(self).pos() == old(self).pos() + 16
                &&& final(self).pos() <= final(self).data().len()
            },
            r matches Err(e) ==> e == IoError::ShortWrite,
    {
        let bytes = nat_to_bytes_be(val as u128, 16);
        self.write_exact(bytes.as_slice())
    }

    /// Writes a 16-byte signed value, most significant byte first.
    fn write_i128_be(&mut self, val: i128) -> (r: Result<(), IoError>)
        requires
            old(self).pos() <= old(self).data().len(),
        ensures
            r matches Ok(_) ==> {
                &&& final(self).data() == write_at(
                    old(self).data(),
                    old(self).pos() as int,
                    nat_to_be_bytes(unsigned_rep(val as int, 16), 16),
                )
                &&& final(self).pos() == old(self).pos() + 16
                &&& final(self).pos() <= final(self).data().len()
            },
            r matches Err(e) ==> e == IoError::ShortWrite,
    {
        let bytes = nat_to_bytes_be(i128_to_u128(val) as u128, 16);
        self.write_exact(bytes.as_slice())
    }

    /// Writes a 16-byte unsigned value, least significant byte first.
    fn write_u128_le(&mut self, val: u128) -> (r: Result<(), IoError>)
        requires
            old(self).pos() <= old(self).data().len(),
        ensures
            r matches Ok(_) ==> {
                &&& final(self).data() == write_at(
                    old(self).data(),
                    old(self).pos() as int,
                    nat_to_le_bytes(val as nat, 16),
                )
                &&& final(self).pos() == old(self).pos() + 16
                &&& final(self).pos() <= final(self).data().len()
            },
            r matches Err(e) ==> e == IoError::ShortWrite,
    {
        let bytes = nat_to_bytes_le(val as u128, 16);
        self.write_exact(bytes.as_slice())
    }

    /// Writes a 16-byte signed value, least significant byte first.
    fn write_i128_le(&mut self, val: i128) -> (r: Result<(), IoError>)
        requires
            old(self).pos() <= old(self).data().len(),
        ensures
            r matches Ok(_) ==> {
                &&& final(self).data() == write_at(
                    old(self).data(),
                    old(self).pos() as int,
                    nat_to_le_bytes(unsigned_rep(val as int, 16), 16),
                )
                &&& final(self).pos() == old(self).pos() + 16
                &&& final(self).pos() <= final(self).data().len()
            },
            r matches Err(e) ==> e == IoError::ShortWrite,
    {
        let bytes = nat_to_bytes_le(i128_to_u128(val) as u128, 16);
        self.write_exact(bytes.as_slice())
    }

    /// Writes `val` in the big-group-order base-128 encoding.
    fn write_leb128(&mut self, val: u128) -> (r: Result<(), IoError>)
        requires
            old(self).pos() <= old(self).data().len(),
        ensures
            r matches Ok(_) ==> {
                &&& final(self).data() == write_at(
                    old(self).data(),
                    old(self).pos() as int,
                    leb_encode(val),
                )
                &&& final(self).pos() == old(self).pos() + leb_encode(val).len()
                &&& final(self).pos() <= final(self).data().len()
            },
            r matches Err(e) ==> e == IoError::ShortWrite,
    {
        let bytes = leb_encode_vec(val);
        self.write_exact(bytes.as_slice())
    }

    /// Writes `val` in the little-group-order base-128 encoding.
    fn write_vlq128(&mut self, val: u128) -> (r: Result<(), IoError>)
        requires
            old(self).pos() <= old(self).data().len(),
        ensures
            r matches Ok(_) ==> {
                &&& final(self).data() == write_at(
                    old(self).data(),
                    old(self).pos() as int,
                    vlq_encode(val),
                )
                &&& final(self).pos() == old(self).pos() + vlq_encode(val).len()
                &&& final(self).pos() <= final(self).data().len()
            },
            r matches Err(e) ==> e == IoError::ShortWrite,
    {
        let bytes = vlq_encode_vec(val);
        self.write_exact(bytes.as_slice())
    }
}

} // verus!
