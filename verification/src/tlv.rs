//! The Tag-Length-Value record codec.
//!
//! A [`TlvType`] describes a record shape: the physical order of its four
//! possible fields, the endianness of the Length and Checksum fields, and
//! which fields the stored length and the checksum cover.  [`read`] decodes
//! one record at the stream cursor and [`Chunk::write`] encodes one;
//! both resolve the shape the same way, and a record decodes back to
//! exactly what was encoded.
//!
//! The checksum function is CRC-32, computed over the covered fields'
//! bytes in their physical stream order.

use vstd::prelude::*;

use crate::crc::{crc32, crc32_spec};
use crate::error::IoError;
use crate::numcodec::{
    be_bytes_to_nat, le_bytes_to_nat, lemma_be_bytes_round_trip, lemma_be_bytes_to_nat_bound,
    lemma_le_bytes_round_trip, lemma_le_bytes_to_nat_bound, nat_to_be_bytes, nat_to_bytes_be,
    nat_to_bytes_le, nat_to_le_bytes, pow256,
};
use crate::reader::SafeRead;
use crate::writer::{write_at, SafeWrite};

verus! {

/// The kind a physical field slot holds.
#[derive(Copy, Clone, Debug, PartialEq, Eq, Structural)]
pub enum Fields {
    /// The record's type tag, four bytes.
    Tag,
    /// The stored length, a four-byte unsigned integer.
    Length,
    /// The stored checksum, a four-byte unsigned integer.
    Checksum,
    /// The payload bytes.
    Value,
    /// An empty slot.
    Absent,
}

/// Byte order of the Length and Checksum fields.
#[derive(Copy, Clone, Debug, PartialEq, Eq, Structural)]
pub enum Endianess {
    Big,
    Little,
}

/// A record-shape descriptor, constructed once per format and shared.
#[derive(Copy, Clone, Debug, PartialEq, Eq)]
pub struct TlvType {
    /// Physical order of fields; unused slots hold [`Fields::Absent`].
    pub fields: [Fields; 4],
    /// Endianness of the Length and Checksum fields.
    pub endianess: Endianess,
    /// Whether the stored length counts the Tag field's bytes.
    pub length_includes_type: bool,
    /// Whether the stored length counts the Checksum field's bytes.
    pub length_includes_csum: bool,
    /// Whether the checksum covers the Tag field's bytes.
    pub csum_includes_type: bool,
    /// Whether the checksum covers the Length field's bytes.
    pub csum_includes_length: bool,
}

impl TlvType {
    /// Whether some slot holds `f`.
    pub open spec fn spec_has(&self, f: Fields) -> bool {
        exists|i: int| 0 <= i < 4 && self.fields@[i] == f
    }

    /// The slot holding `f`, or four when absent.
    pub open spec fn idx_of(&self, f: Fields) -> int {
        if self.fields@[0] == f {
            0
        } else if self.fields@[1] == f {
            1
        } else if self.fields@[2] == f {
            2
        } else if self.fields@[3] == f {
            3
        } else {
            4
        }
    }

    /// How many bytes of other fields the stored length counts beyond the
    /// payload itself.
    pub open spec fn length_covers(&self) -> nat {
        (if self.length_includes_type {
            4nat
        } else {
            0
        }) + (if self.length_includes_csum {
            4nat
        } else {
            0
        })
    }

    /// Whether the checksum covers the bytes of a field of kind `f`.
    pub open spec fn csum_covers(&self, f: Fields) -> bool {
        match f {
            Fields::Tag => self.csum_includes_type,
            Fields::Length => self.csum_includes_length,
            Fields::Value => true,
            _ => false,
        }
    }

    /// A shape is well formed when no field kind appears twice, every
    /// field a coverage flag names is present, a sized payload follows
    /// its Length field, and an unsized payload is physically last.
    pub open spec fn wf(&self) -> bool {
        &&& forall|i: int, j: int|
            0 <= i < j < 4 && self.fields@[i] == self.fields@[j]
                ==> self.fields@[i] == Fields::Absent
        &&& (self.spec_has(Fields::Value) && self.spec_has(Fields::Length)) ==> self.idx_of(
            Fields::Length,
        ) < self.idx_of(Fields::Value)
        &&& (self.spec_has(Fields::Value) && !self.spec_has(Fields::Length)) ==> forall|j: int|
            self.idx_of(Fields::Value) < j < 4 ==> self.fields@[j] == Fields::Absent
        &&& self.length_includes_type ==> self.spec_has(Fields::Tag) && self.spec_has(
            Fields::Length,
        )
        &&& self.length_includes_csum ==> self.spec_has(Fields::Checksum) && self.spec_has(
            Fields::Length,
        )
        &&& self.csum_includes_type ==> self.spec_has(Fields::Tag) && self.spec_has(
            Fields::Checksum,
        )
        &&& self.csum_includes_length ==> self.spec_has(Fields::Length) && self.spec_has(
            Fields::Checksum,
        )
    }

    /// Decides well-formedness of the shape.
    pub fn check(&self) -> (r: bool)
        ensures
            r == self.wf(),
    {
        let f = &self.fields;
        let no_dup = (f[0] != f[1] || matches!(f[0], Fields::Absent)) && (f[0] != f[2]
            || matches!(f[0], Fields::Absent)) && (f[0] != f[3] || matches!(
            f[0],
            Fields::Absent,
        )) && (f[1] != f[2] || matches!(f[1], Fields::Absent)) && (f[1] != f[3] || matches!(
            f[1],
            Fields::Absent,
        )) && (f[2] != f[3] || matches!(f[2], Fields::Absent));
        proof {
            assert(no_dup == (forall|i: int, j: int|
                0 <= i < j < 4 && self.fields@[i] == self.fields@[j] ==> self.fields@[i]
                    == Fields::Absent)) by {
                if no_dup {
                    assert forall|i: int, j: int|
                        0 <= i < j < 4 && self.fields@[i] == self.fields@[j]
                        implies self.fields@[i] == Fields::Absent by {
                        assert(i == 0 || i == 1 || i == 2);
                        assert(j == 1 || j == 2 || j == 3);
                    }
                }
            }
        }
        let has_tag = self.find(Fields::Tag) < 4;
        let has_len = self.find(Fields::Length) < 4;
        let has_csum = self.find(Fields::Checksum) < 4;
        let has_value = self.find(Fields::Value) < 4;
        let order_ok = !(has_value && has_len) || self.find(Fields::Length) < self.find(
            Fields::Value,
        );
        let vi = self.find(Fields::Value);
        let tail_ok = !(has_value && !has_len) || ((vi + 1 >= 4 || matches!(
            f[vi + 1],
            Fields::Absent,
        )) && (vi + 2 >= 4 || matches!(f[vi + 2], Fields::Absent)) && (vi + 3 >= 4 || matches!(
            f[vi + 3],
            Fields::Absent,
        )));
        proof {
            if has_value && !has_len && tail_ok {
                assert forall|j: int| self.idx_of(Fields::Value) < j < 4
                    implies self.fields@[j] == Fields::Absent by {
                    assert(j == vi + 1 || j == vi + 2 || j == vi + 3);
                }
            }
        }
        let flags_ok = (!self.length_includes_type || (has_tag && has_len))
            && (!self.length_includes_csum || (has_csum && has_len)) && (!self.csum_includes_type
            || (has_tag && has_csum)) && (!self.csum_includes_length || (has_len && has_csum));
        no_dup && order_ok && tail_ok && flags_ok
    }

    /// The slot holding `f`, or four when absent.
    pub fn find(&self, f: Fields) -> (r: usize)
        ensures
            r as int == self.idx_of(f),
            (r < 4) == self.spec_has(f),
    {
        if self.fields[0] == f {
            0
        } else if self.fields[1] == f {
            1
        } else if self.fields[2] == f {
            2
        } else if self.fields[3] == f {
            3
        } else {
            4
        }
    }

    /// Builds a shape, rejecting a contradictory one with
    /// [`IoError::InvalidShape`] so that decoding and encoding can never
    /// meet an invalid shape.
    pub fn new(
        fields: [Fields; 4],
        endianess: Endianess,
        length_includes_type: bool,
        length_includes_csum: bool,
        csum_includes_type: bool,
        csum_includes_length: bool,
    ) -> (r: Result<TlvType, IoError>)
        ensures
            ({
                let t = TlvType {
                    fields,
                    endianess,
                    length_includes_type,
                    length_includes_csum,
                    csum_includes_type,
                    csum_includes_length,
                };
                if t.wf() {
                    r == Ok::<TlvType, IoError>(t)
                } else {
                    r == Err::<TlvType, IoError>(IoError::InvalidShape)
                }
            }),
    {
        let t = TlvType {
            fields,
            endianess,
            length_includes_type,
            length_includes_csum,
            csum_includes_type,
            csum_includes_length,
        };
        if t.check() {
            Ok(t)
        } else {
            Err(IoError::InvalidShape)
        }
    }
}

/// The PNG chunk shape: length, tag, payload, checksum, all big-endian,
/// with the length counting the payload alone and the CRC-32 covering the
/// tag and the payload.
pub fn tlv_png() -> (r: TlvType)
    ensures
        r == (TlvType {
            fields: [Fields::Length, Fields::Tag, Fields::Value, Fields::Checksum],
            endianess: Endianess::Big,
            length_includes_type: false,
            length_includes_csum: false,
            csum_includes_type: true,
            csum_includes_length: false,
        }),
        r.wf(),
{
    let r = TlvType {
        fields: [Fields::Length, Fields::Tag, Fields::Value, Fields::Checksum],
        endianess: Endianess::Big,
        length_includes_type: false,
        length_includes_csum: false,
        csum_includes_type: true,
        csum_includes_length: false,
    };
    proof {
        assert(r.fields@[0] == Fields::Length);
        assert(r.fields@[1] == Fields::Tag);
        assert(r.fields@[2] == Fields::Value);
        assert(r.fields@[3] == Fields::Checksum);
    }
    r
}

/// The stored length for a payload of `value_len` bytes: the payload plus
/// whatever other fields the shape's flags make it count.
pub open spec fn stored_length(t: TlvType, value_len: nat) -> nat {
    value_len + t.length_covers()
}

/// A four-byte unsigned field in the shape's byte order.
pub open spec fn u32_field_bytes(t: TlvType, v: u32) -> Seq<u8> {
    match t.endianess {
        Endianess::Big => nat_to_be_bytes(v as nat, 4),
        Endianess::Little => nat_to_le_bytes(v as nat, 4),
    }
}

/// The value of a four-byte unsigned field in the shape's byte order.
pub open spec fn u32_field_of(t: TlvType, s: Seq<u8>) -> u32 {
    match t.endianess {
        Endianess::Big => be_bytes_to_nat(s) as u32,
        Endianess::Little => le_bytes_to_nat(s) as u32,
    }
}

/// The bytes of a checksum-covered field; the checksum field itself is
/// never covered.
pub open spec fn covered_field_bytes(t: TlvType, f: Fields, tag: Seq<u8>, value: Seq<u8>) -> Seq<
    u8,
> {
    match f {
        Fields::Tag => tag,
        Fields::Length => u32_field_bytes(t, stored_length(t, value.len()) as u32),
        Fields::Value => value,
        _ => Seq::empty(),
    }
}

pub open spec fn csum_input_from(t: TlvType, tag: Seq<u8>, value: Seq<u8>, i: int) -> Seq<u8>
    decreases 4 - i,
{
    if i >= 4 {
        Seq::empty()
    } else {
        (if t.csum_covers(t.fields@[i]) {
            covered_field_bytes(t, t.fields@[i], tag, value)
        } else {
            Seq::empty()
        }) + csum_input_from(t, tag, value, i + 1)
    }
}

/// What the checksum is computed over: the covered fields' bytes in their
/// physical stream order.
pub open spec fn csum_input(t: TlvType, tag: Seq<u8>, value: Seq<u8>) -> Seq<u8> {
    csum_input_from(t, tag, value, 0)
}

/// The checksum field's value for a record with this tag and payload.
pub open spec fn csum_value(t: TlvType, tag: Seq<u8>, value: Seq<u8>) -> u32 {
    crc32_spec(csum_input(t, tag, value))
}

/// The bytes one field slot contributes to the encoded record.
pub open spec fn field_bytes(t: TlvType, f: Fields, tag: Seq<u8>, value: Seq<u8>) -> Seq<u8> {
    match f {
        Fields::Tag => tag,
        Fields::Length => u32_field_bytes(t, stored_length(t, value.len()) as u32),
        Fields::Checksum => u32_field_bytes(t, csum_value(t, tag, value)),
        Fields::Value => value,
        Fields::Absent => Seq::empty(),
    }
}

/// The encoded record from slot `i` on.
pub open spec fn record_bytes_from(t: TlvType, tag: Seq<u8>, value: Seq<u8>, i: int) -> Seq<u8>
    decreases 4 - i,
{
    if i >= 4 {
        Seq::empty()
    } else {
        field_bytes(t, t.fields@[i], tag, value) + record_bytes_from(t, tag, value, i + 1)
    }
}

/// The whole encoded record for a shape, a tag and a payload.
pub open spec fn record_bytes(t: TlvType, tag: Seq<u8>, value: Seq<u8>) -> Seq<u8> {
    record_bytes_from(t, tag, value, 0)
}

/// What decoding yields: a record's parts and the cursor after it, or the
/// error the record's bytes force.
pub enum Decoded {
    Rec { tag: Seq<u8>, csum: Option<u32>, value: Seq<u8>, end: int },
    Fail(IoError),
}

/// One decoding step per field slot, walking the shape in physical order.
pub open spec fn decode_from(
    t: TlvType,
    d: Seq<u8>,
    i: int,
    off: int,
    tag: Seq<u8>,
    len_v: Option<u32>,
    csum_v: Option<u32>,
    value: Seq<u8>,
) -> Decoded
    decreases 4 - i,
{
    if i >= 4 {
        match csum_v {
            Some(stored) => {
                let computed = csum_value(t, tag, value);
                if stored != computed {
                    Decoded::Fail(IoError::ChecksumMismatch(stored, computed))
                } else {
                    Decoded::Rec { tag, csum: csum_v, value, end: off }
                }
            }
            None => Decoded::Rec { tag, csum: csum_v, value, end: off },
        }
    } else {
        match t.fields@[i] {
            Fields::Absent => decode_from(t, d, i + 1, off, tag, len_v, csum_v, value),
            Fields::Tag => if off + 4 > d.len() {
                Decoded::Fail(IoError::ShortRead)
            } else {
                decode_from(t, d, i + 1, off + 4, d.subrange(off, off + 4), len_v, csum_v, value)
            },
            Fields::Length => if off + 4 > d.len() {
                Decoded::Fail(IoError::ShortRead)
            } else {
                let lv = u32_field_of(t, d.subrange(off, off + 4));
                if (lv as nat) < t.length_covers() {
                    Decoded::Fail(IoError::LengthUnderflow(lv, t.length_covers() as u32))
                } else {
                    decode_from(t, d, i + 1, off + 4, tag, Some(lv), csum_v, value)
                }
            },
            Fields::Checksum => if off + 4 > d.len() {
                Decoded::Fail(IoError::ShortRead)
            } else {
                decode_from(
                    t,
                    d,
                    i + 1,
                    off + 4,
                    tag,
                    len_v,
                    Some(u32_field_of(t, d.subrange(off, off + 4))),
                    value,
                )
            },
            Fields::Value => {
                let size = match len_v {
                    Some(lv) => lv as int - t.length_covers() as int,
                    None => if off <= d.len() {
                        d.len() - off
                    } else {
                        0
                    },
                };
                if off + size > d.len() {
                    Decoded::Fail(IoError::ShortRead)
                } else {
                    decode_from(
                        t,
                        d,
                        i + 1,
                        off + size,
                        tag,
                        len_v,
                        csum_v,
                        d.subrange(off, off + size),
                    )
                }
            },
        }
    }
}

/// Decoding one record of shape `t` from the bytes of `d` at offset `p`.
pub open spec fn decode_record(t: TlvType, d: Seq<u8>, p: int) -> Decoded {
    decode_from(t, d, 0, p, Seq::new(4, |i: int| 0u8), None, None, Seq::empty())
}

/// One decoded or to-be-encoded record: a four-byte tag, the stored
/// checksum where the shape has one, and the payload bytes.
#[derive(Debug, PartialEq, Eq)]
pub struct Chunk {
    typ: [u8; 4],
    checksum: Option<u32>,
    data: Vec<u8>,
}

impl Chunk {
    /// The tag bytes.
    pub closed spec fn spec_typ(&self) -> Seq<u8> {
        self.typ@
    }

    /// The stored checksum, absent when the shape has no checksum field.
    pub closed spec fn spec_checksum(&self) -> Option<u32> {
        self.checksum
    }

    /// The payload bytes.
    pub closed spec fn spec_data(&self) -> Seq<u8> {
        self.data@
    }

    /// Builds a record for encoding.
    pub fn new(typ: [u8; 4], checksum: Option<u32>, data: Vec<u8>) -> (r: Chunk)
        ensures
            r.spec_typ() == typ@,
            r.spec_checksum() == checksum,
            r.spec_data() == data@,
    {
        Chunk { typ, checksum, data }
    }

    /// The tag bytes.
    pub fn typ(&self) -> (r: &[u8; 4])
        ensures
            r@ == self.spec_typ(),
    {
        &self.typ
    }

    /// The stored checksum.
    pub fn checksum(&self) -> (r: Option<u32>)
        ensures
            r == self.spec_checksum(),
    {
        self.checksum
    }

    /// The payload bytes.
    pub fn data(&self) -> (r: &Vec<u8>)
        ensures
            r@ == self.spec_data(),
    {
        &self.data
    }
}

/// Appends all of `b` to `out`.
fn append_bytes(out: &mut Vec<u8>, b: &[u8])
    ensures
        final(out)@ == old(out)@ + b@,
{
    let n = b.len();
    let mut i: usize = 0;
    while i < n
        invariant
            i <= n == b@.len(),
            out@ =~= old(out)@ + b@.take(i as int),
        decreases n - i,
    {
        proof {
            assert(b@.take(i + 1) =~= b@.take(i as int).push(b@[i as int]));
        }
        out.push(b[i]);
        i = i + 1;
    }
    proof {
        assert(b@.take(n as int) =~= b@);
    }
}

/// The wire bytes of a four-byte unsigned field in the shape's byte order.
fn u32_field_vec(typ: &TlvType, v: u32) -> (r: Vec<u8>)
    ensures
        r@ == u32_field_bytes(*typ, v),
{
    match typ.endianess {
        Endianess::Big => nat_to_bytes_be(v as u128, 4),
        Endianess::Little => nat_to_bytes_le(v as u128, 4),
    }
}

/// The shape's extra length coverage in bytes, as a four-byte value.
fn length_covers_u32(typ: &TlvType) -> (r: u32)
    ensures
        r as nat == typ.length_covers(),
{
    (if typ.length_includes_type {
        4u32
    } else {
        0u32
    }) + (if typ.length_includes_csum {
        4u32
    } else {
        0u32
    })
}

/// Builds the bytes the checksum is computed over, in physical order.
fn build_csum_input(typ: &TlvType, tag: &[u8; 4], value: &Vec<u8>) -> (r: Vec<u8>)
    requires
        typ.csum_includes_length ==> stored_length(*typ, value@.len()) <= u32::MAX,
    ensures
        r@ == csum_input(*typ, tag@, value@),
{
    let mut out: Vec<u8> = Vec::new();
    let mut i: usize = 0;
    while i < 4
        invariant
            i <= 4,
            typ.csum_includes_length ==> stored_length(*typ, value@.len()) <= u32::MAX,
            csum_input(*typ, tag@, value@) =~= out@ + csum_input_from(
                *typ,
                tag@,
                value@,
                i as int,
            ),
        decreases 4 - i,
    {
        let covered = match typ.fields[i] {
            Fields::Tag => typ.csum_includes_type,
            Fields::Length => typ.csum_includes_length,
            Fields::Value => true,
            _ => false,
        };
        if covered {
            match typ.fields[i] {
                Fields::Tag => {
                    append_bytes(&mut out, tag.as_slice());
                }
                Fields::Length => {
                    let covers = length_covers_u32(typ);
                    let stored: u32 = ((value.len() as u64) + (covers as u64)) as u32;
                    let mut lb = u32_field_vec(typ, stored);
                    out.append(&mut lb);
                }
                Fields::Value => {
                    append_bytes(&mut out, value.as_slice());
                }
                _ => {}
            }
        }
        proof {
            assert(csum_input(*typ, tag@, value@) =~= out@ + csum_input_from(
                *typ,
                tag@,
                value@,
                i + 1,
            ));
        }
        i = i + 1;
    }
    out
}

/// Reads a four-byte unsigned field in the shape's byte order.
fn read_u32_field<SR: SafeRead>(src: &mut SR, typ: &TlvType) -> (r: Result<u32, IoError>)
    ensures
        final(src).data() == old(src).data(),
        old(src).pos() + 4 <= old(src).data().len() ==> {
            &&& final(src).pos() == old(src).pos() + 4
            &&& r == Ok::<u32, IoError>(
                u32_field_of(
                    *typ,
                    old(src).data().subrange(old(src).pos() as int, old(src).pos() as int + 4),
                ),
            )
        },
        old(src).pos() + 4 > old(src).data().len() ==> {
            &&& final(src).pos() == old(src).pos()
            &&& r == Err::<u32, IoError>(IoError::ShortRead)
        },
{
    proof {
        if old(src).pos() + 4 <= old(src).data().len() {
            let s = old(src).data().subrange(old(src).pos() as int, old(src).pos() as int + 4);
            lemma_be_bytes_to_nat_bound(s);
            lemma_le_bytes_to_nat_bound(s);
            reveal_with_fuel(pow256, 5);
        }
    }
    match typ.endianess {
        Endianess::Big => src.read_u32be(),
        Endianess::Little => src.read_u32le(),
    }
}

/// Decodes one record of shape `typ` at the stream cursor.
///
/// On success the cursor stands immediately after the record's last
/// physical field and the returned record carries the tag, the stored
/// checksum (verified against the recomputed one) and the payload.  The
/// result, success or error, is exactly what [`decode_record`] states for
/// the stream's bytes at the old cursor.
pub fn read<SR: SafeRead>(src: &mut SR, typ: &TlvType) -> (r: Result<Chunk, IoError>)
    requires
        typ.wf(),
    ensures
        final(src).data() == old(src).data(),
        match r {
            Ok(c) => decode_record(*typ, old(src).data(), old(src).pos() as int)
                == (Decoded::Rec {
                tag: c.spec_typ(),
                csum: c.spec_checksum(),
                value: c.spec_data(),
                end: final(src).pos() as int,
            }),
            Err(e) => decode_record(*typ, old(src).data(), old(src).pos() as int)
                == Decoded::Fail(e),
        },
{
    let ghost d = old(src).data();
    let ghost p0 = old(src).pos();
    let mut tag: [u8; 4] = [0, 0, 0, 0];
    let mut len_v: Option<u32> = None;
    let mut csum_v: Option<u32> = None;
    let mut value: Vec<u8> = Vec::new();
    proof {
        assert(tag@ =~= Seq::new(4, |k: int| 0u8));
        assert(value@ =~= Seq::<u8>::empty());
    }
    let mut i: usize = 0;
    while i < 4
        invariant
            d == old(src).data(),
            p0 == old(src).pos(),
            src.data() == d,
            typ.wf(),
            i <= 4,
            decode_from(*typ, d, i as int, src.pos() as int, tag@, len_v, csum_v, value@)
                == decode_record(*typ, d, p0 as int),
            len_v matches Some(lv) ==> lv as nat >= typ.length_covers(),
            typ.spec_has(Fields::Length) && typ.idx_of(Fields::Length) < i ==> len_v is Some,
            typ.csum_includes_length ==> stored_length(*typ, value@.len()) <= u32::MAX,
        decreases 4 - i,
    {
        let ghost p = src.pos();
        match typ.fields[i] {
            Fields::Absent => {}
            Fields::Tag => {
                match src.read_as_vec(4) {
                    Ok(v4) => {
                        tag = [v4[0], v4[1], v4[2], v4[3]];
                        proof {
                            assert(tag@ =~= d.subrange(p as int, p as int + 4));
                        }
                    }
                    Err(e) => {
                        return Err(e);
                    }
                }
            }
            Fields::Length => {
                match read_u32_field(src, typ) {
                    Ok(lv) => {
                        let covers = length_covers_u32(typ);
                        if lv < covers {
                            return Err(IoError::LengthUnderflow(lv, covers));
                        }
                        len_v = Some(lv);
                    }
                    Err(e) => {
                        return Err(e);
                    }
                }
            }
            Fields::Checksum => {
                match read_u32_field(src, typ) {
                    Ok(cv) => {
                        csum_v = Some(cv);
                    }
                    Err(e) => {
                        return Err(e);
                    }
                }
            }
            Fields::Value => {
                proof {
                    if typ.fields@[i as int] == Fields::Value {
                        assert(typ.idx_of(Fields::Value) <= i as int);
                        assert(typ.idx_of(Fields::Value) == i as int);
                    }
                }
                let size: usize = match len_v {
                    Some(lv) => {
                        let covers = length_covers_u32(typ);
                        (lv - covers) as usize
                    }
                    None => {
                        let ln = match src.len() {
                            Ok(n) => n,
                            Err(e) => {
                                proof {
                                    assert(false);
                                }
                                return Err(e);
                            }
                        };
                        let tl = match src.tell() {
                            Ok(n) => n,
                            Err(e) => {
                                proof {
                                    assert(false);
                                }
                                return Err(e);
                            }
                        };
                        if tl <= ln as u64 {
                            (ln as u64 - tl) as usize
                        } else {
                            0
                        }
                    }
                };
                match src.read_as_vec(size) {
                    Ok(v) => {
                        value = v;
                    }
                    Err(e) => {
                        return Err(e);
                    }
                }
            }
        }
        i = i + 1;
    }
    match csum_v {
        Some(stored) => {
            let input = build_csum_input(typ, &tag, &value);
            let computed = crc32(input.as_slice());
            if stored != computed {
                return Err(IoError::ChecksumMismatch(stored, computed));
            }
        }
        None => {}
    }
    Ok(Chunk { typ: tag, checksum: csum_v, data: value })
}

impl Chunk {
    /// Encodes this record in shape `typ` at the stream cursor.
    ///
    /// The payload, the stored length and the checksum are all computed in
    /// memory first; emission then follows the shape's physical order, so
    /// a length or checksum field may stand before the fields it covers.
    /// The checksum written is the computed one; the record's own
    /// `checksum` field plays no part in encoding.  On success the bytes
    /// laid down are exactly [`record_bytes`] for this record.
    pub fn write<SW: SafeWrite>(&self, dst: &mut SW, typ: &TlvType) -> (r: Result<(), IoError>)
        requires
            typ.wf(),
            old(dst).pos() <= old(dst).data().len(),
            stored_length(*typ, self.spec_data().len()) <= u32::MAX,
        ensures
            r matches Ok(_) ==> {
                &&& final(dst).data() == write_at(
                    old(dst).data(),
                    old(dst).pos() as int,
                    record_bytes(*typ, self.spec_typ(), self.spec_data()),
                )
                &&& final(dst).pos() == old(dst).pos() + record_bytes(
                    *typ,
                    self.spec_typ(),
                    self.spec_data(),
                ).len()
            },
            r matches Err(e) ==> e == IoError::ShortWrite,
    {
        let mut buf: Vec<u8> = Vec::new();
        let mut i: usize = 0;
        while i < 4
            invariant
                i <= 4,
                typ.wf(),
                stored_length(*typ, self.spec_data().len()) <= u32::MAX,
                record_bytes(*typ, self.spec_typ(), self.spec_data()) =~= buf@
                    + record_bytes_from(*typ, self.spec_typ(), self.spec_data(), i as int),
            decreases 4 - i,
        {
            match typ.fields[i] {
                Fields::Absent => {}
                Fields::Tag => {
                    append_bytes(&mut buf, self.typ.as_slice());
                }
                Fields::Length => {
                    let covers = length_covers_u32(typ);
                    let stored: u32 = ((self.data.len() as u64) + (covers as u64)) as u32;
                    let mut lb = u32_field_vec(typ, stored);
                    buf.append(&mut lb);
                }
                Fields::Checksum => {
                    let input = build_csum_input(typ, &self.typ, &self.data);
                    let computed = crc32(input.as_slice());
                    let mut cb = u32_field_vec(typ, computed);
                    buf.append(&mut cb);
                }
                Fields::Value => {
                    append_bytes(&mut buf, self.data.as_slice());
                }
            }
            proof {
                assert(record_bytes(*typ, self.spec_typ(), self.spec_data()) =~= buf@
                    + record_bytes_from(*typ, self.spec_typ(), self.spec_data(), i + 1));
            }
            i = i + 1;
        }
        proof {
            assert(record_bytes(*typ, self.spec_typ(), self.spec_data()) =~= buf@);
        }
        dst.write_exact(buf.as_slice())
    }
}

proof fn lemma_has_idx(t: TlvType, f: Fields)
    ensures
        t.spec_has(f) <==> t.idx_of(f) < 4,
        t.spec_has(f) ==> t.fields@[t.idx_of(f)] == f,
{
    if t.spec_has(f) {
        let k = choose|k: int| 0 <= k < 4 && t.fields@[k] == f;
        assert(k == 0 || k == 1 || k == 2 || k == 3);
    }
}

proof fn lemma_slot_idx(t: TlvType, i: int)
    requires
        t.wf(),
        0 <= i < 4,
        t.fields@[i] != Fields::Absent,
    ensures
        t.idx_of(t.fields@[i]) == i,
        t.spec_has(t.fields@[i]),
{
    let f = t.fields@[i];
    assert(t.spec_has(f));
    lemma_has_idx(t, f);
    let k = t.idx_of(f);
    assert(t.fields@[k] == f);
    if k < i {
        assert(t.fields@[k] == t.fields@[i]);
        assert(f == Fields::Absent);
    }
    if k > i {
        assert(k == 0 || k == 1 || k == 2 || k == 3);
    }
}

proof fn lemma_rbf_absent(t: TlvType, tag: Seq<u8>, value: Seq<u8>, j: int)
    requires
        forall|k: int| j <= k < 4 ==> t.fields@[k] == Fields::Absent,
    ensures
        record_bytes_from(t, tag, value, j) == Seq::<u8>::empty(),
    decreases 4 - j,
{
    if j < 4 {
        lemma_rbf_absent(t, tag, value, j + 1);
        assert(record_bytes_from(t, tag, value, j) =~= Seq::<u8>::empty());
    }
}

proof fn lemma_decode_encode_from(
    t: TlvType,
    tag: Seq<u8>,
    value: Seq<u8>,
    i: int,
    off: int,
    cur_tag: Seq<u8>,
    cur_len: Option<u32>,
    cur_csum: Option<u32>,
    cur_val: Seq<u8>,
)
    requires
        t.wf(),
        t.spec_has(Fields::Tag),
        t.spec_has(Fields::Value),
        tag.len() == 4,
        stored_length(t, value.len()) <= u32::MAX,
        0 <= i <= 4,
        0 <= off,
        off + record_bytes_from(t, tag, value, i).len() == record_bytes(t, tag, value).len(),
        record_bytes(t, tag, value).subrange(off, record_bytes(t, tag, value).len() as int)
            == record_bytes_from(t, tag, value, i),
        cur_tag == if t.idx_of(Fields::Tag) < i {
            tag
        } else {
            Seq::new(4, |k: int| 0u8)
        },
        cur_len == if t.spec_has(Fields::Length) && t.idx_of(Fields::Length) < i {
            Some(stored_length(t, value.len()) as u32)
        } else {
            None::<u32>
        },
        cur_csum == if t.spec_has(Fields::Checksum) && t.idx_of(Fields::Checksum) < i {
            Some(csum_value(t, tag, value))
        } else {
            None::<u32>
        },
        cur_val == if t.idx_of(Fields::Value) < i {
            value
        } else {
            Seq::<u8>::empty()
        },
    ensures
        decode_from(t, record_bytes(t, tag, value), i, off, cur_tag, cur_len, cur_csum, cur_val)
            == (Decoded::Rec {
            tag,
            csum: if t.spec_has(Fields::Checksum) {
                Some(csum_value(t, tag, value))
            } else {
                None::<u32>
            },
            value,
            end: record_bytes(t, tag, value).len() as int,
        }),
    decreases 4 - i,
{
    let d = record_bytes(t, tag, value);
    lemma_has_idx(t, Fields::Tag);
    lemma_has_idx(t, Fields::Value);
    lemma_has_idx(t, Fields::Length);
    lemma_has_idx(t, Fields::Checksum);
    if i == 4 {
        assert(record_bytes_from(t, tag, value, 4) == Seq::<u8>::empty());
        assert(off == d.len());
        assert(cur_tag == tag);
        assert(cur_val == value);
    } else {
        let f = t.fields@[i];
        let fb = field_bytes(t, f, tag, value);
        let rest = record_bytes_from(t, tag, value, i + 1);
        assert(record_bytes_from(t, tag, value, i) == fb + rest);
        assert(off + fb.len() + rest.len() == d.len());
        assert forall|k: int| 0 <= k < rest.len() implies d.subrange(
            off + fb.len(),
            d.len() as int,
        )[k] == rest[k] by {
            assert(d.subrange(off, d.len() as int)[fb.len() + k] == rest[k]);
        }
        assert(d.subrange(off + fb.len(), d.len() as int) =~= rest);
        assert(d.subrange(off, off + fb.len()) =~= fb);
        if f == Fields::Absent {
            assert(fb == Seq::<u8>::empty());
            assert(d.subrange(off, d.len() as int) =~= rest);
            lemma_decode_encode_from(t, tag, value, i + 1, off, cur_tag, cur_len, cur_csum,
                cur_val);
        } else {
            lemma_slot_idx(t, i);
            if f == Fields::Tag {
                assert(fb == tag);
                assert(off + 4 <= d.len());
                lemma_decode_encode_from(t, tag, value, i + 1, off + 4, tag, cur_len, cur_csum,
                    cur_val);
            } else if f == Fields::Length {
                let stored = stored_length(t, value.len()) as u32;
                assert(fb == u32_field_bytes(t, stored));
                lemma_u32_field_round_trip(t, stored);
                assert(u32_field_of(t, d.subrange(off, off + 4)) == stored);
                assert(stored as nat == stored_length(t, value.len()));
                assert(stored as nat >= t.length_covers());
                lemma_decode_encode_from(t, tag, value, i + 1, off + 4, cur_tag, Some(stored),
                    cur_csum, cur_val);
            } else if f == Fields::Checksum {
                let cv = csum_value(t, tag, value);
                assert(fb == u32_field_bytes(t, cv));
                lemma_u32_field_round_trip(t, cv);
                assert(u32_field_of(t, d.subrange(off, off + 4)) == cv);
                lemma_decode_encode_from(t, tag, value, i + 1, off + 4, cur_tag, cur_len,
                    Some(cv), cur_val);
            } else {
                assert(f == Fields::Value);
                assert(fb == value);
                if t.spec_has(Fields::Length) {
                    assert(t.idx_of(Fields::Length) < t.idx_of(Fields::Value));
                    assert(cur_len == Some(stored_length(t, value.len()) as u32));
                    let lv = stored_length(t, value.len()) as u32;
                    assert(lv as int - t.length_covers() as int == value.len());
                } else {
                    assert(cur_len is None);
                    assert(forall|k: int|
                        t.idx_of(Fields::Value) < k < 4 ==> t.fields@[k] == Fields::Absent);
                    lemma_rbf_absent(t, tag, value, i + 1);
                    assert(rest == Seq::<u8>::empty());
                    assert(off + value.len() == d.len());
                }
                lemma_decode_encode_from(t, tag, value, i + 1, off + value.len() as int,
                    cur_tag, cur_len, cur_csum, value);
            }
        }
    }
}

proof fn lemma_u32_field_round_trip(t: TlvType, v: u32)
    ensures
        u32_field_bytes(t, v).len() == 4,
        u32_field_of(t, u32_field_bytes(t, v)) == v,
{
    reveal_with_fuel(pow256, 5);
    match t.endianess {
        Endianess::Big => {
            crate::numcodec::lemma_nat_to_be_bytes_len(v as nat, 4);
            lemma_be_bytes_round_trip(v as nat, 4);
        }
        Endianess::Little => {
            crate::numcodec::lemma_nat_to_be_bytes_len(v as nat, 4);
            assert(nat_to_le_bytes(v as nat, 4).len() == 4);
            lemma_le_bytes_round_trip(v as nat, 4);
        }
    }
}

proof fn lemma_u32_field_reencode(t: TlvType, s: Seq<u8>)
    requires
        s.len() == 4,
    ensures
        u32_field_bytes(t, u32_field_of(t, s)) == s,
{
    reveal_with_fuel(pow256, 5);
    match t.endianess {
        Endianess::Big => {
            lemma_be_bytes_to_nat_bound(s);
            crate::numcodec::lemma_be_bytes_reencode(s);
        }
        Endianess::Little => {
            lemma_le_bytes_to_nat_bound(s);
            crate::numcodec::lemma_le_bytes_reencode(s);
        }
    }
}

proof fn lemma_encode_decode_from(
    t: TlvType,
    d: Seq<u8>,
    i: int,
    off: int,
    cur_tag: Seq<u8>,
    cur_len: Option<u32>,
    cur_csum: Option<u32>,
    cur_val: Seq<u8>,
    tag: Seq<u8>,
    csum: Option<u32>,
    value: Seq<u8>,
    end: int,
)
    requires
        t.wf(),
        t.spec_has(Fields::Value),
        0 <= i <= 4,
        0 <= off <= d.len(),
        cur_len matches Some(lv) ==> lv as nat >= t.length_covers(),
        decode_from(t, d, i, off, cur_tag, cur_len, cur_csum, cur_val) == (Decoded::Rec {
            tag,
            csum,
            value,
            end,
        }),
    ensures
        off <= end <= d.len(),
        d.subrange(off, end) == record_bytes_from(t, tag, value, i),
        !(t.spec_has(Fields::Tag) && t.idx_of(Fields::Tag) >= i) ==> tag == cur_tag,
        !(t.spec_has(Fields::Checksum) && t.idx_of(Fields::Checksum) >= i) ==> csum == cur_csum,
        t.idx_of(Fields::Value) < i ==> value == cur_val,
        csum matches Some(sv) ==> sv == csum_value(t, tag, value),
        cur_len matches Some(lv) ==> ((t.idx_of(Fields::Value) >= i && !(t.spec_has(
            Fields::Length,
        ) && t.idx_of(Fields::Length) >= i)) ==> value.len() == lv as int
            - t.length_covers()),
    decreases 4 - i,
{
    lemma_has_idx(t, Fields::Tag);
    lemma_has_idx(t, Fields::Value);
    lemma_has_idx(t, Fields::Length);
    lemma_has_idx(t, Fields::Checksum);
    if i == 4 {
        assert(record_bytes_from(t, tag, value, 4) == Seq::<u8>::empty());
        assert(end == off);
        assert(d.subrange(off, off) =~= Seq::<u8>::empty());
    } else {
        let f = t.fields@[i];
        if f != Fields::Absent {
            lemma_slot_idx(t, i);
        }
        if f == Fields::Absent {
            lemma_encode_decode_from(t, d, i + 1, off, cur_tag, cur_len, cur_csum, cur_val,
                tag, csum, value, end);
            assert(d.subrange(off, end) =~= field_bytes(t, f, tag, value) + record_bytes_from(
                t, tag, value, i + 1));
        } else if f == Fields::Tag {
            let b4 = d.subrange(off, off + 4);
            lemma_encode_decode_from(t, d, i + 1, off + 4, b4, cur_len, cur_csum, cur_val,
                tag, csum, value, end);
            assert(tag == b4);
            assert(field_bytes(t, f, tag, value) == tag);
            lemma_subrange_concat(d, off, off + 4, end);
        } else if f == Fields::Length {
            let b4 = d.subrange(off, off + 4);
            let lv = u32_field_of(t, b4);
            lemma_encode_decode_from(t, d, i + 1, off + 4, cur_tag, Some(lv), cur_csum,
                cur_val, tag, csum, value, end);
            assert(value.len() == lv as int - t.length_covers());
            assert(stored_length(t, value.len()) == lv as nat);
            assert(stored_length(t, value.len()) as u32 == lv);
            lemma_u32_field_reencode(t, b4);
            assert(field_bytes(t, f, tag, value) == b4);
            lemma_subrange_concat(d, off, off + 4, end);
        } else if f == Fields::Checksum {
            let b4 = d.subrange(off, off + 4);
            let sv = u32_field_of(t, b4);
            lemma_encode_decode_from(t, d, i + 1, off + 4, cur_tag, cur_len, Some(sv),
                cur_val, tag, csum, value, end);
            assert(csum == Some(sv));
            assert(sv == csum_value(t, tag, value));
            lemma_u32_field_reencode(t, b4);
            assert(field_bytes(t, f, tag, value) == b4);
            lemma_subrange_concat(d, off, off + 4, end);
        } else {
            assert(f == Fields::Value);
            let size = match cur_len {
                Some(lv) => lv as int - t.length_covers() as int,
                None => if off <= d.len() {
                    d.len() - off
                } else {
                    0
                },
            };
            let b = d.subrange(off, off + size);
            lemma_encode_decode_from(t, d, i + 1, off + size, cur_tag, cur_len, cur_csum, b,
                tag, csum, value, end);
            assert(t.idx_of(Fields::Value) < i + 1);
            assert(value == b);
            assert(field_bytes(t, f, tag, value) == value);
            lemma_subrange_concat(d, off, off + size, end);
        }
    }
}

proof fn lemma_subrange_concat(d: Seq<u8>, a: int, m: int, b: int)
    requires
        0 <= a <= m <= b <= d.len(),
    ensures
        d.subrange(a, b) == d.subrange(a, m) + d.subrange(m, b),
{
    assert(d.subrange(a, b) =~= d.subrange(a, m) + d.subrange(m, b));
}

/// A record that decodes re-encodes to exactly the bytes it was decoded
/// from: decoding is byte-exact, and the encoder reproduces any record
/// the decoder accepts.  This holds for every well-formed shape with a
/// payload field.
pub proof fn lemma_tlv_reencode(t: TlvType, d: Seq<u8>, p: int)
    requires
        t.wf(),
        t.spec_has(Fields::Value),
        0 <= p <= d.len(),
        decode_record(t, d, p) matches Decoded::Rec { tag, csum, value, end },
    ensures
        decode_record(t, d, p) matches Decoded::Rec { tag, csum, value, end } ==> {
            &&& p <= end <= d.len()
            &&& d.subrange(p, end) == record_bytes(t, tag, value)
            &&& (csum matches Some(sv) ==> sv == csum_value(t, tag, value))
        },
{
    let out = decode_record(t, d, p);
    match out {
        Decoded::Rec { tag, csum, value, end } => {
            lemma_encode_decode_from(
                t,
                d,
                0,
                p,
                Seq::new(4, |k: int| 0u8),
                None,
                None,
                Seq::empty(),
                tag,
                csum,
                value,
                end,
            );
        }
        Decoded::Fail(_) => {}
    }
}

/// Decoding an encoded record gives back exactly the record that was
/// encoded: the tag, the payload, and — where the shape has a checksum
/// field — the stored checksum the encoder computed.  This holds for
/// every well-formed shape that has a Tag and a Value field, whatever the
/// field order, endianness and coverage flags.
pub proof fn lemma_tlv_round_trip(t: TlvType, tag: Seq<u8>, value: Seq<u8>)
    requires
        t.wf(),
        t.spec_has(Fields::Tag),
        t.spec_has(Fields::Value),
        tag.len() == 4,
        stored_length(t, value.len()) <= u32::MAX,
    ensures
        decode_record(t, record_bytes(t, tag, value), 0) == (Decoded::Rec {
            tag,
            csum: if t.spec_has(Fields::Checksum) {
                Some(csum_value(t, tag, value))
            } else {
                None::<u32>
            },
            value,
            end: record_bytes(t, tag, value).len() as int,
        }),
{
    let d = record_bytes(t, tag, value);
    assert(d.subrange(0, d.len() as int) =~= d);
    lemma_has_idx(t, Fields::Tag);
    lemma_has_idx(t, Fields::Value);
    lemma_decode_encode_from(
        t,
        tag,
        value,
        0,
        0,
        Seq::new(4, |k: int| 0u8),
        None,
        None,
        Seq::empty(),
    );
}

} // verus!
