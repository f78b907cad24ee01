//! Typed, fallible reads over a seekable byte stream.

use vstd::prelude::*;

use crate::error::IoError;
use crate::numcodec::{
    be_bytes_to_nat, le_bytes_to_nat, lemma_be_bytes_to_nat_bound, lemma_le_bytes_to_nat_bound,
    nat_from_bytes_be, nat_from_bytes_le, pow256, signed_of, u128_to_i128, u16_to_i16,
    u32_to_i32, u64_to_i64, u8_to_i8,
};
use crate::varint::{
    leb_fold, lemma_varint_end_bounds, lemma_vlq_fold_push, varint_end, vlq_fold,
};

verus! {

/// The index of the first byte at or after `p` equal to `end`; the stream
/// length stands in when no such byte exists.
pub open spec fn sentinel_pos(d: Seq<u8>, p: int, end: u8) -> int
    decreases d.len() - p,
{
    if p < 0 || p >= d.len() {
        d.len() as int
    } else if d[p] == end {
        p
    } else {
        sentinel_pos(d, p + 1, end)
    }
}

pub proof fn lemma_sentinel_pos_bounds(d: Seq<u8>, p: int, end: u8)
    requires
        0 <= p <= d.len(),
    ensures
        p <= sentinel_pos(d, p, end) <= d.len(),
        sentinel_pos(d, p, end) < d.len() ==> d[sentinel_pos(d, p, end)] == end,
        forall|i: int| p <= i < sentinel_pos(d, p, end) ==> d[i] != end,
    decreases d.len() - p,
{
    if p < d.len() && d[p] != end {
        lemma_sentinel_pos_bounds(d, p + 1, end);
    }
}

/// Writing a string's UTF-8 bytes followed by one zero byte and reading
/// back up to that zero gives the string back, for every string whose
/// encoding holds no zero byte: the zero found is exactly the terminator,
/// the bytes before it are the string's own, and they decode to it.
pub proof fn lemma_asciiz_round_trip(d: Seq<u8>, p: int, s: Seq<char>)
    requires
        0 <= p,
        p + vstd::utf8::encode_utf8(s).len() + 1 <= d.len(),
        d.subrange(p, p + vstd::utf8::encode_utf8(s).len() + 1)
            == vstd::utf8::encode_utf8(s).push(0u8),
        forall|i: int|
            0 <= i < vstd::utf8::encode_utf8(s).len() ==> vstd::utf8::encode_utf8(s)[i] != 0,
    ensures
        sentinel_pos(d, p, 0) == p + vstd::utf8::encode_utf8(s).len(),
        vstd::utf8::valid_utf8(d.subrange(p, sentinel_pos(d, p, 0))),
        vstd::utf8::decode_utf8(d.subrange(p, sentinel_pos(d, p, 0))) == s,
{
    let b = vstd::utf8::encode_utf8(s);
    assert forall|i: int| 0 <= i < b.len() implies d[p + i] == b[i] by {
        assert(d.subrange(p, p + b.len() + 1)[i] == d[p + i]);
        assert(b.push(0u8)[i] == b[i]);
    }
    assert(d.subrange(p, p + b.len() + 1)[b.len() as int] == d[p + b.len()]);
    assert(d[p + b.len()] == 0);
    lemma_sentinel_pos_bounds(d, p, 0);
    let q = sentinel_pos(d, p, 0);
    if q > p + b.len() {
        assert(d[p + b.len()] != 0);
    }
    if q < p + b.len() {
        assert(d[q] == 0);
        assert(d[q] == b[q - p]);
    }
    assert(q == p + b.len());
    assert(d.subrange(p, q) =~= b);
    vstd::utf8::encode_utf8_valid_utf8(s);
    vstd::utf8::encode_utf8_decode_utf8(s);
}

/// Relies on `String::from_utf8_lossy`: bytes that are valid UTF-8 convert
/// to exactly the character sequence they encode.
#[verifier::external_body]
fn utf8_lossy(bytes: &Vec<u8>) -> (r: String)
    ensures
        vstd::utf8::valid_utf8(bytes@) ==> r@ == vstd::utf8::decode_utf8(bytes@),
{
    String::from_utf8_lossy(bytes.as_slice()).to_string()
}

/// A readable byte stream with a cursor.
///
/// `data` is the whole underlying byte sequence and `pos` the cursor.  Every
/// read consumes bytes at the cursor and moves it; a read past the end fails
/// with [`IoError::ShortRead`] and never yields made-up bytes.  After a
/// failed read the cursor is unspecified and the stream should be
/// repositioned before further structured reads.
pub trait SafeRead: Sized {
    /// The bytes the stream holds.
    spec fn data(&self) -> Seq<u8>;

    /// The cursor: how many bytes lie before the next one to be read.
    spec fn pos(&self) -> nat;

    /// Reports the cursor without moving it.
    fn tell(&mut self) -> (r: Result<u64, IoError>)
        ensures
            *final(self) == *old(self),
            r matches Ok(p) && p as nat == old(self).pos(),
    ;

    /// Reports the total stream length; the cursor does not move.
    fn len(&mut self) -> (r: Result<usize, IoError>)
        ensures
            *final(self) == *old(self),
            r matches Ok(n) && n as nat == old(self).data().len(),
    ;

    /// Reads exactly one byte.
    fn read_u8(&mut self) -> (r: Result<u8, IoError>)
        ensures
            final(self).data() == old(self).data(),
            old(self).pos() + 1 <= old(self).data().len() ==> {
                &&& final(self).pos() == old(self).pos() + 1
                &&& r == Ok::<u8, IoError>(old(self).data()[old(self).pos() as int])
            },
            old(self).pos() + 1 > old(self).data().len() ==> {
                &&& final(self).pos() == old(self).pos()
                &&& r == Err::<u8, IoError>(IoError::ShortRead)
            },
    ;

    /// Reads exactly `size` bytes into a fresh buffer.
    fn read_as_vec(&mut self, size: usize) -> (r: Result<Vec<u8>, IoError>)
        ensures
            final(self).data() == old(self).data(),
            old(self).pos() + size <= old(self).data().len() ==> {
                &&& final(self).pos() == old(self).pos() + size
                &&& r matches Ok(v) && v@ == old(self).data().subrange(
                    old(self).pos() as int,
                    old(self).pos() + size,
                )
            },
            old(self).pos() + size > old(self).data().len() ==> {
                &&& final(self).pos() == old(self).pos()
                &&& r == Err::<Vec<u8>, IoError>(IoError::ShortRead)
            },
    ;

    /// Reads one byte and reinterprets it as signed.
    fn read_i8(&mut self) -> (r: Result<i8, IoError>)
        ensures
            final(self).data() == old(self).data(),
            old(self).pos() + 1 <= old(self).data().len() ==> {
                &&& final(self).pos() == old(self).pos() + 1
                &&& r matches Ok(v) && v as int == signed_of(
                    old(self).data()[old(self).pos() as int] as nat,
                    1,
                )
            },
            old(self).pos() + 1 > old(self).data().len() ==> {
                &&& final(self).pos() == old(self).pos()
                &&& r == Err::<i8, IoError>(IoError::ShortRead)
            },
    {
        match self.read_u8() {
            Ok(b) => Ok(u8_to_i8(b)),
            Err(e) => Err(e),
        }
    }

    /// Reads a two-byte unsigned value, most significant byte first.
    fn read_u16be(&mut self) -> (r: Result<u16, IoError>)
        ensures
            final(self).data() == old(self).data(),
            old(self).pos() + 2 <= old(self).data().len() ==> {
                &&& final(self).pos() == old(self).pos() + 2
                &&& r matches Ok(v) && v as nat == be_bytes_to_nat(
                    old(self).data().subrange(old(self).pos() as int, old(self).pos() as int + 2),
                )
            },
            old(self).pos() + 2 > old(self).data().len() ==> {
                &&& final(self).pos() == old(self).pos()
                &&& r == Err::<u16, IoError>(IoError::ShortRead)
            },
    {
        match self.read_as_vec(2) {
            Ok(v) => {
                proof {
                    lemma_be_bytes_to_nat_bound(v@);
                    reveal_with_fuel(pow256, 3);
                }
                Ok(nat_from_bytes_be(v.as_slice()) as u16)
            }
            Err(e) => Err(e),
        }
    }

    /// Reads a two-byte unsigned value, least significant byte first.
    fn read_u16le(&mut self) -> (r: Result<u16, IoError>)
        ensures
            final(self).data() == old(self).data(),
            old(self).pos() + 2 <= old(self).data().len() ==> {
                &&& final(self).pos() == old(self).pos() + 2
                &&& r matches Ok(v) && v as nat == le_bytes_to_nat(
                    old(self).data().subrange(old(self).pos() as int, old(self).pos() as int + 2),
                )
            },
            old(self).pos() + 2 > old(self).data().len() ==> {
                &&& final(self).pos() == old(self).pos()
                &&& r == Err::<u16, IoError>(IoError::ShortRead)
            },
    {
        match self.read_as_vec(2) {
            Ok(v) => {
                proof {
                    lemma_le_bytes_to_nat_bound(v@);
                    reveal_with_fuel(pow256, 3);
                }
                Ok(nat_from_bytes_le(v.as_slice()) as u16)
            }
            Err(e) => Err(e),
        }
    }

    /// Reads a two-byte signed value, most significant byte first.
    fn read_i16be(&mut self) -> (r: Result<i16, IoError>)
        ensures
            final(self).data() == old(self).data(),
            old(self).pos() + 2 <= old(self).data().len() ==> {
                &&& final(self).pos() == old(self).pos() + 2
                &&& r matches Ok(v) && v as int == signed_of(
                    be_bytes_to_nat(
                        old(self).data().subrange(old(self).pos() as int, old(self).pos() as int + 2),
                    ),
                    2,
                )
            },
            old(self).pos() + 2 > old(self).data().len() ==> {
                &&& final(self).pos() == old(self).pos()
                &&& r == Err::<i16, IoError>(IoError::ShortRead)
            },
    {
        match self.read_u16be() {
            Ok(u) => Ok(u16_to_i16(u)),
            Err(e) => Err(e),
        }
    }

    /// Reads a two-byte signed value, least significant byte first.
    fn read_i16le(&mut self) -> (r: Result<i16, IoError>)
        ensures
            final(self).data() == old(self).data(),
            old(self).pos() + 2 <= old(self).data().len() ==> {
                &&& final(self).pos() == old(self).pos() + 2
                &&& r matches Ok(v) && v as int == signed_of(
                    le_bytes_to_nat(
                        old(self).data().subrange(old(self).pos() as int, old(self).pos() as int + 2),
                    ),
                    2,
                )
            },
            old(self).pos() + 2 > old(self).data().len() ==> {
                &&& final(self).pos() == old(self).pos()
                &&& r == Err::<i16, IoError>(IoError::ShortRead)
            },
    {
        match self.read_u16le() {
            Ok(u) => Ok(u16_to_i16(u)),
            Err(e) => Err(e),
        }
    }

    /// Reads a four-byte unsigned value, most significant byte first.
    fn read_u32be(&mut self) -> (r: Result<u32, IoError>)
        ensures
            final(self).data() == old(self).data(),
            old(self).pos() + 4 <= old(self).data().len() ==> {
                &&& final(self).pos() == old(self).pos() + 4
                &&& r matches Ok(v) && v as nat == be_bytes_to_nat(
                    old(self).data().subrange(old(self).pos() as int, old(self).pos() as int + 4),
                )
            },
            old(self).pos() + 4 > old(self).data().len() ==> {
                &&& final(self).pos() == old(self).pos()
                &&& r == Err::<u32, IoError>(IoError::ShortRead)
            },
    {
        match self.read_as_vec(4) {
            Ok(v) => {
                proof {
                    lemma_be_bytes_to_nat_bound(v@);
                    reveal_with_fuel(pow256, 5);
                }
                Ok(nat_from_bytes_be(v.as_slice()) as u32)
            }
            Err(e) => Err(e),
        }
    }

    /// Reads a four-byte unsigned value, least significant byte first.
    fn read_u32le(&mut self) -> (r: Result<u32, IoError>)
        ensures
            final(self).data() == old(self).data(),
            old(self).pos() + 4 <= old(self).data().len() ==> {
                &&& final(self).pos() == old(self).pos() + 4
                &&& r matches Ok(v) && v as nat == le_bytes_to_nat(
                    old(self).data().subrange(old(self).pos() as int, old(self).pos() as int + 4),
                )
            },
            old(self).pos() + 4 > old(self).data().len() ==> {
                &&& final(self).pos() == old(self).pos()
                &&& r == Err::<u32, IoError>(IoError::ShortRead)
            },
    {
        match self.read_as_vec(4) {
            Ok(v) => {
                proof {
                    lemma_le_bytes_to_nat_bound(v@);
                    reveal_with_fuel(pow256, 5);
                }
                Ok(nat_from_bytes_le(v.as_slice()) as u32)
            }
            Err(e) => Err(e),
        }
    }

    /// Reads a four-byte signed value, most significant byte first.
    fn read_i32be(&mut self) -> (r: Result<i32, IoError>)
        ensures
            final(self).data() == old(self).data(),
            old(self).pos() + 4 <= old(self).data().len() ==> {
                &&& final(self).pos() == old(self).pos() + 4
                &&& r matches Ok(v) && v as int == signed_of(
                    be_bytes_to_nat(
                        old(self).data().subrange(old(self).pos() as int, old(self).pos() as int + 4),
                    ),
                    4,
                )
            },
            old(self).pos() + 4 > old(self).data().len() ==> {
                &&& final(self).pos() == old(self).pos()
                &&& r == Err::<i32, IoError>(IoError::ShortRead)
            },
    {
        match self.read_u32be() {
            Ok(u) => Ok(u32_to_i32(u)),
            Err(e) => Err(e),
        }
    }

    /// Reads a four-byte signed value, least significant byte first.
    fn read_i32le(&mut self) -> (r: Result<i32, IoError>)
        ensures
            final(self).data() == old(self).data(),
            old(self).pos() + 4 <= old(self).data().len() ==> {
                &&& final(self).pos() == old(self).pos() + 4
                &&& r matches Ok(v) && v as int == signed_of(
                    le_bytes_to_nat(
                        old(self).data().subrange(old(self).pos() as int, old(self).pos() as int + 4),
                    ),
                    4,
                )
            },
            old(self).pos() + 4 > old(self).data().len() ==> {
                &&& final(self).pos() == old(self).pos()
                &&& r == Err::<i32, IoError>(IoError::ShortRead)
            },
    {
        match self.read_u32le() {
            Ok(u) => Ok(u32_to_i32(u)),
            Err(e) => Err(e),
        }
    }

    /// Reads an eight-byte unsigned value, most significant byte first.
    fn read_u64be(&mut self) -> (r: Result<u64, IoError>)
        ensures
            final(self).data() == old(self).data(),
            old(self).pos() + 8 <= old(self).data().len() ==> {
                &&& final(self).pos() == old(self).pos() + 8
                &&& r matches Ok(v) && v as nat == be_bytes_to_nat(
                    old(self).data().subrange(old(self).pos() as int, old(self).pos() as int + 8),
                )
            },
            old(self).pos() + 8 > old(self).data().len() ==> {
                &&& final(self).pos() == old(self).pos()
                &&& r == Err::<u64, IoError>(IoError::ShortRead)
            },
    {
        match self.read_as_vec(8) {
            Ok(v) => {
                proof {
                    lemma_be_bytes_to_nat_bound(v@);
                    reveal_with_fuel(pow256, 9);
                }
                Ok(nat_from_bytes_be(v.as_slice()) as u64)
            }
            Err(e) => Err(e),
        }
    }

    /// Reads an eight-byte unsigned value, least significant byte first.
    fn read_u64le(&mut self) -> (r: Result<u64, IoError>)
        ensures
            final(self).data() == old(self).data(),
            old(self).pos() + 8 <= old(self).data().len() ==> {
                &&& final(self).pos() == old(self).pos() + 8
                &&& r matches Ok(v) && v as nat == le_bytes_to_nat(
                    old(self).data().subrange(old(self).pos() as int, old(self).pos() as int + 8),
                )
            },
            old(self).pos() + 8 > old(self).data().len() ==> {
                &&& final(self).pos() == old(self).pos()
                &&& r == Err::<u64, IoError>(IoError::ShortRead)
            },
    {
        match self.read_as_vec(8) {
            Ok(v) => {
                proof {
                    lemma_le_bytes_to_nat_bound(v@);
                    reveal_with_fuel(pow256, 9);
                }
                Ok(nat_from_bytes_le(v.as_slice()) as u64)
            }
            Err(e) => Err(e),
        }
    }

    /// Reads an eight-byte signed value, most significant byte first.
    fn read_i64be(&mut self) -> (r: Result<i64, IoError>)
        ensures
            final(self).data() == old(self).data(),
            old(self).pos() + 8 <= old(self).data().len() ==> {
                &&& final(self).pos() == old(self).pos() + 8
                &&& r matches Ok(v) && v as int == signed_of(
                    be_bytes_to_nat(
                        old(self).data().subrange(old(self).pos() as int, old(self).pos() as int + 8),
                    ),
                    8,
                )
            },
            old(self).pos() + 8 > old(self).data().len() ==> {
                &&& final(self).pos() == old(self).pos()
                &&& r == Err::<i64, IoError>(IoError::ShortRead)
            },
    {
        match self.read_u64be() {
            Ok(u) => Ok(u64_to_i64(u)),
            Err(e) => Err(e),
        }
    }

    /// Reads an eight-byte signed value, least significant byte first.
    fn read_i64le(&mut self) -> (r: Result<i64, IoError>)
        ensures
            final(self).data() == old(self).data(),
            old(self).pos() + 8 <= old(self).data().len() ==> {
                &&& final(self).pos() == old(self).pos() + 8
                &&& r matches Ok(v) && v as int == signed_of(
                    le_bytes_to_nat(
                        old(self).data().subrange(old(self).pos() as int, old(self).pos() as int + 8),
                    ),
                    8,
                )
            },
            old(self).pos() + 8 > old(self).data().len() ==> {
                &&& final(self).pos() == old(self).pos()
                &&& r == Err::<i64, IoError>(IoError::ShortRead)
            },
    {
        match self.read_u64le() {
            Ok(u) => Ok(u64_to_i64(u)),
            Err(e) => Err(e),
        }
    }

    /// Reads a sixteen-byte unsigned value, most significant byte first.
    fn read_u128be(&mut self) -> (r: Result<u128, IoError>)
        ensures
            final(self).data() == old(self).data(),
            old(self).pos() + 16 <= old(self).data().len() ==> {
                &&& final(self).pos() == old(self).pos() + 16
                &&& r matches Ok(v) && v as nat == be_bytes_to_nat(
                    old(self).data().subrange(old(self).pos() as int, old(self).pos() as int + 16),
                )
            },
            old(self).pos() + 16 > old(self).data().len() ==> {
                &&& final(self).pos() == old(self).pos()
                &&& r == Err::<u128, IoError>(IoError::ShortRead)
            },
    {
        match self.read_as_vec(16) {
            Ok(v) => Ok(nat_from_bytes_be(v.as_slice())),
            Err(e) => Err(e),
        }
    }

    /// Reads a sixteen-byte unsigned value, least significant byte first.
    fn read_u128le(&mut self) -> (r: Result<u128, IoError>)
        ensures
            final(self).data() == old(self).data(),
            old(self).pos() + 16 <= old(self).data().len() ==> {
                &&& final(self).pos() == old(self).pos() + 16
                &&& r matches Ok(v) && v as nat == le_bytes_to_nat(
                    old(self).data().subrange(old(self).pos() as int, old(self).pos() as int + 16),
                )
            },
            old(self).pos() + 16 > old(self).data().len() ==> {
                &&& final(self).pos() == old(self).pos()
                &&& r == Err::<u128, IoError>(IoError::ShortRead)
            },
    {
        match self.read_as_vec(16) {
            Ok(v) => Ok(nat_from_bytes_le(v.as_slice())),
            Err(e) => Err(e),
        }
    }

    /// Reads a sixteen-byte signed value, most significant byte first.
    fn read_i128be(&mut self) -> (r: Result<i128, IoError>)
        ensures
            final(self).data() == old(self).data(),
            old(self).pos() + 16 <= old(self).data().len() ==> {
                &&& final(self).pos() == old(self).pos() + 16
                &&& r matches Ok(v) && v as int == signed_of(
                    be_bytes_to_nat(
                        old(self).data().subrange(old(self).pos() as int, old(self).pos() as int + 16),
                    ),
                    16,
                )
            },
            old(self).pos() + 16 > old(self).data().len() ==> {
                &&& final(self).pos() == old(self).pos()
                &&& r == Err::<i128, IoError>(IoError::ShortRead)
            },
    {
        match self.read_u128be() {
            Ok(u) => Ok(u128_to_i128(u)),
            Err(e) => Err(e),
        }
    }

    /// Reads a sixteen-byte signed value, least significant byte first.
    fn read_i128le(&mut self) -> (r: Result<i128, IoError>)
        ensures
            final(self).data() == old(self).data(),
            old(self).pos() + 16 <= old(self).data().len() ==> {
                &&& final(self).pos() == old(self).pos() + 16
                &&& r matches Ok(v) && v as int == signed_of(
                    le_bytes_to_nat(
                        old(self).data().subrange(old(self).pos() as int, old(self).pos() as int + 16),
                    ),
                    16,
                )
            },
            old(self).pos() + 16 > old(self).data().len() ==> {
                &&& final(self).pos() == old(self).pos()
                &&& r == Err::<i128, IoError>(IoError::ShortRead)
            },
    {
        match self.read_u128le() {
            Ok(u) => Ok(u128_to_i128(u)),
            Err(e) => Err(e),
        }
    }

    /// Fills the whole of `buf` with the next bytes of the stream.
    fn read_into(&mut self, buf: &mut Vec<u8>) -> (r: Result<(), IoError>)
        ensures
            final(self).data() == old(self).data(),
            old(self).pos() + old(buf)@.len() <= old(self).data().len() ==> {
                &&& final(self).pos() == old(self).pos() + old(buf)@.len()
                &&& final(buf)@ == old(self).data().subrange(
                    old(self).pos() as int,
                    old(self).pos() as int + old(buf)@.len(),
                )
                &&& r == Ok::<(), IoError>(())
            },
            old(self).pos() + old(buf)@.len() > old(self).data().len() ==> {
                &&& final(self).pos() == old(self).pos()
                &&& *final(buf) == *old(buf)
                &&& r == Err::<(), IoError>(IoError::ShortRead)
            },
    {
        match self.read_as_vec(buf.len()) {
            Ok(v) => {
                *buf = v;
                Ok(())
            }
            Err(e) => Err(e),
        }
    }

    /// Reads bytes up to and including the first one equal to `end`; the
    /// result excludes that sentinel byte.  Running out of stream before
    /// the sentinel is a [`IoError::ShortRead`], never an empty success.
    fn read_until(&mut self, end: u8) -> (r: Result<Vec<u8>, IoError>)
        ensures
            final(self).data() == old(self).data(),
            sentinel_pos(old(self).data(), old(self).pos() as int, end)
                < old(self).data().len() ==> {
                &&& final(self).pos() == sentinel_pos(
                    old(self).data(),
                    old(self).pos() as int,
                    end,
                ) + 1
                &&& r matches Ok(v) && v@ == old(self).data().subrange(
                    old(self).pos() as int,
                    sentinel_pos(old(self).data(), old(self).pos() as int, end),
                )
            },
            sentinel_pos(old(self).data(), old(self).pos() as int, end)
                == old(self).data().len() ==> r == Err::<Vec<u8>, IoError>(IoError::ShortRead),
    {
        let ghost d = old(self).data();
        let ghost p0 = old(self).pos();
        let mut out: Vec<u8> = Vec::new();
        loop
            invariant
                d == old(self).data(),
                p0 == old(self).pos(),
                self.data() == d,
                p0 <= self.pos(),
                self.pos() > d.len() ==> self.pos() == p0,
                self.pos() <= d.len() ==> {
                    &&& out@ =~= d.subrange(p0 as int, self.pos() as int)
                    &&& forall|i: int| p0 <= i < self.pos() ==> d[i] != end
                },
            decreases d.len() - self.pos(),
        {
            let ghost p = self.pos();
            match self.read_u8() {
                Ok(b) => {
                    proof {
                        lemma_sentinel_pos_bounds(d, p0 as int, end);
                    }
                    if b == end {
                        return Ok(out);
                    }
                    proof {
                        assert(d.subrange(p0 as int, p as int + 1)
                            =~= d.subrange(p0 as int, p as int).push(d[p as int]));
                    }
                    out.push(b);
                }
                Err(e) => {
                    proof {
                        if p0 <= d.len() {
                            lemma_sentinel_pos_bounds(d, p0 as int, end);
                        }
                    }
                    return Err(e);
                }
            }
        }
    }

    /// Reads bytes up to a zero byte and converts them to text; invalid
    /// UTF-8 is replaced rather than reported as an error.
    fn read_asciiz(&mut self) -> (r: Result<String, IoError>)
        ensures
            final(self).data() == old(self).data(),
            sentinel_pos(old(self).data(), old(self).pos() as int, 0)
                < old(self).data().len() ==> {
                &&& final(self).pos() == sentinel_pos(
                    old(self).data(),
                    old(self).pos() as int,
                    0,
                ) + 1
                &&& r matches Ok(s) && {
                    let raw = old(self).data().subrange(
                        old(self).pos() as int,
                        sentinel_pos(old(self).data(), old(self).pos() as int, 0),
                    );
                    vstd::utf8::valid_utf8(raw) ==> s@ == vstd::utf8::decode_utf8(raw)
                }
            },
            sentinel_pos(old(self).data(), old(self).pos() as int, 0)
                == old(self).data().len() ==> r == Err::<String, IoError>(IoError::ShortRead),
    {
        match self.read_until(0) {
            Ok(bytes) => Ok(utf8_lossy(&bytes)),
            Err(e) => Err(e),
        }
    }

    /// Reads a base-128 integer whose first byte carries the most
    /// significant bits.  Nineteen continuation bytes without a terminator
    /// are rejected as [`IoError::VarintOverflow`].
    fn read_leb128(&mut self) -> (r: Result<u128, IoError>)
        ensures
            final(self).data() == old(self).data(),
            ({
                let d = old(self).data();
                let p = old(self).pos() as int;
                let e = varint_end(d, p);
                &&& (e < d.len() && e - p < 19) ==> {
                    &&& final(self).pos() == e + 1
                    &&& r == Ok::<u128, IoError>(leb_fold(d.subrange(p, e + 1)))
                }
                &&& e - p >= 19 ==> r == Err::<u128, IoError>(IoError::VarintOverflow(133))
                &&& (e == d.len() && e - p < 19) ==> r == Err::<u128, IoError>(
                    IoError::ShortRead,
                )
            }),
    {
        let ghost d = old(self).data();
        let ghost p0 = old(self).pos();
        let mut res: u128 = 0;
        let mut cnt: u32 = 0;
        while cnt <= 128
            invariant
                d == old(self).data(),
                p0 == old(self).pos(),
                self.data() == d,
                p0 <= self.pos(),
                self.pos() > d.len() ==> self.pos() == p0,
                cnt == 7 * (self.pos() - p0),
                self.pos() - p0 <= 19,
                self.pos() <= d.len() ==> {
                    &&& forall|i: int| p0 <= i < self.pos() ==> d[i] >= 0x80
                    &&& res == leb_fold(d.subrange(p0 as int, self.pos() as int))
                },
            decreases 140 - cnt,
        {
            let ghost p = self.pos();
            match self.read_u8() {
                Ok(byte) => {
                    proof {
                        lemma_varint_end_bounds(d, p0 as int);
                        assert(d.subrange(p0 as int, p as int + 1).drop_last()
                            =~= d.subrange(p0 as int, p as int));
                        assert(d.subrange(p0 as int, p as int + 1).last() == d[p as int]);
                        assert((byte % 0x80) as u128 == ((byte & 0x7f) as u128)) by (bit_vector);
                    }
                    let last = byte < 0x80;
                    let data = byte % 0x80;
                    res = (res << 7) | (data as u128);
                    if last {
                        return Ok(res);
                    }
                    cnt = cnt + 7;
                }
                Err(e) => {
                    proof {
                        if p0 <= d.len() {
                            lemma_varint_end_bounds(d, p0 as int);
                        }
                    }
                    return Err(e);
                }
            }
        }
        proof {
            lemma_varint_end_bounds(d, p0 as int);
        }
        Err(IoError::VarintOverflow(133))
    }

    /// Reads a base-128 integer whose first byte carries the least
    /// significant bits.  Nineteen continuation bytes without a terminator
    /// are rejected as [`IoError::VarintOverflow`].
    fn read_vlq128(&mut self) -> (r: Result<u128, IoError>)
        ensures
            final(self).data() == old(self).data(),
            ({
                let d = old(self).data();
                let p = old(self).pos() as int;
                let e = varint_end(d, p);
                &&& (e < d.len() && e - p < 19) ==> {
                    &&& final(self).pos() == e + 1
                    &&& r == Ok::<u128, IoError>(vlq_fold(d.subrange(p, e + 1)))
                }
                &&& e - p >= 19 ==> r == Err::<u128, IoError>(IoError::VarintOverflow(133))
                &&& (e == d.len() && e - p < 19) ==> r == Err::<u128, IoError>(
                    IoError::ShortRead,
                )
            }),
    {
        let ghost d = old(self).data();
        let ghost p0 = old(self).pos();
        let mut res: u128 = 0;
        let mut cnt: u32 = 0;
        while cnt <= 128
            invariant
                d == old(self).data(),
                p0 == old(self).pos(),
                self.data() == d,
                p0 <= self.pos(),
                self.pos() > d.len() ==> self.pos() == p0,
                cnt == 7 * (self.pos() - p0),
                self.pos() - p0 <= 19,
                self.pos() <= d.len() ==> {
                    &&& forall|i: int| p0 <= i < self.pos() ==> d[i] >= 0x80
                    &&& res == vlq_fold(d.subrange(p0 as int, self.pos() as int))
                },
            decreases 140 - cnt,
        {
            let ghost p = self.pos();
            match self.read_u8() {
                Ok(byte) => {
                    proof {
                        lemma_varint_end_bounds(d, p0 as int);
                        assert(d.subrange(p0 as int, p as int + 1)
                            =~= d.subrange(p0 as int, p as int).push(d[p as int]));
                        lemma_vlq_fold_push(
                            d.subrange(p0 as int, p as int),
                            d[p as int],
                        );
                        assert((byte % 0x80) as u128 == ((byte & 0x7f) as u128)) by (bit_vector);
                    }
                    let last = byte < 0x80;
                    let data = byte % 0x80;
                    res = res | ((data as u128) << (cnt as u128));
                    if last {
                        return Ok(res);
                    }
                    cnt = cnt + 7;
                }
                Err(e) => {
                    proof {
                        if p0 <= d.len() {
                            lemma_varint_end_bounds(d, p0 as int);
                        }
                    }
                    return Err(e);
                }
            }
        }
        proof {
            lemma_varint_end_bounds(d, p0 as int);
        }
        Err(IoError::VarintOverflow(133))
    }
}

} // verus!
