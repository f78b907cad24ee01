//! Two base-128 variable-length integer encodings.
//!
//! Each byte carries seven payload bits; the high bit of a byte says that
//! more bytes follow, and the first byte with the high bit clear ends the
//! encoding.  The two encodings differ only in group order: in the
//! big-group-order form the first byte carries the most significant bits,
//! in the little-group-order form the least significant ones.

use vstd::prelude::*;

verus! {

/// The value denoted by `s` with the first byte's payload most significant.
pub open spec fn leb_fold(s: Seq<u8>) -> u128
    decreases s.len(),
{
    if s.len() == 0 {
        0
    } else {
        (leb_fold(s.drop_last()) << 7) | ((s.last() & 0x7f) as u128)
    }
}

/// The value denoted by `s` with the first byte's payload least significant.
pub open spec fn vlq_fold(s: Seq<u8>) -> u128
    decreases s.len(),
{
    if s.len() == 0 {
        0
    } else {
        ((s.first() & 0x7f) as u128) | (vlq_fold(s.drop_first()) << 7)
    }
}

/// The continuation bytes above the least significant group of a
/// big-group-order encoding.
pub open spec fn leb_high(v: u128) -> Seq<u8>
    decreases v,
        via leb_high_decreases
{
    if v == 0 {
        Seq::empty()
    } else {
        leb_high(v >> 7).push(((v & 0x7f) | 0x80) as u8)
    }
}

#[via_fn]
proof fn leb_high_decreases(v: u128) {
    assert(v == 0 || (v >> 7) < v) by (bit_vector);
}

/// The minimal big-group-order encoding of `v`.
pub open spec fn leb_encode(v: u128) -> Seq<u8> {
    leb_high(v >> 7).push((v & 0x7f) as u8)
}

/// The minimal little-group-order encoding of `v`.
pub open spec fn vlq_encode(v: u128) -> Seq<u8>
    decreases v,
        via vlq_encode_decreases
{
    if v < 0x80 {
        seq![v as u8]
    } else {
        seq![((v & 0x7f) | 0x80) as u8] + vlq_encode(v >> 7)
    }
}

#[via_fn]
proof fn vlq_encode_decreases(v: u128) {
    assert(v < 0x80 || (v >> 7) < v) by (bit_vector);
}

/// The index of the first byte at or after `p` with the high bit clear:
/// where a variable-length integer starting at `p` ends.  The stream
/// length stands in when no such byte exists.
pub open spec fn varint_end(d: Seq<u8>, p: int) -> int
    decreases d.len() - p,
{
    if p < 0 || p >= d.len() {
        d.len() as int
    } else if d[p] < 0x80 {
        p
    } else {
        varint_end(d, p + 1)
    }
}

pub proof fn lemma_varint_end_bounds(d: Seq<u8>, p: int)
    requires
        0 <= p <= d.len(),
    ensures
        p <= varint_end(d, p) <= d.len(),
        varint_end(d, p) < d.len() ==> d[varint_end(d, p)] < 0x80,
        forall|i: int| p <= i < varint_end(d, p) ==> d[i] >= 0x80,
    decreases d.len() - p,
{
    if p < d.len() && d[p] >= 0x80 {
        lemma_varint_end_bounds(d, p + 1);
    }
}

/// Appending a byte to a little-group-order prefix contributes its payload
/// at the next seven-bit offset.
pub proof fn lemma_vlq_fold_push(s: Seq<u8>, b: u8)
    requires
        s.len() <= 18,
    ensures
        vlq_fold(s.push(b)) == vlq_fold(s) | (((b & 0x7f) as u128) << ((7 * s.len()) as u128)),
    decreases s.len(),
{
    if s.len() == 0 {
        reveal_with_fuel(vlq_fold, 2);
        assert(s.push(b).drop_first() =~= Seq::<u8>::empty());
        assert(s.push(b).first() == b);
        assert(vlq_fold(s.push(b)) == ((b & 0x7f) as u128) | (0u128 << 7));
        assert(forall|y: u128| (((y | (0u128 << 7)) == y) && (y == 0u128 | (y << 0))))
            by (bit_vector);
    } else {
        assert(s.push(b).drop_first() =~= s.drop_first().push(b));
        lemma_vlq_fold_push(s.drop_first(), b);
        let a = (s.first() & 0x7f) as u128;
        let x = vlq_fold(s.drop_first());
        let y = (b & 0x7f) as u128;
        let m = (7 * (s.len() - 1)) as u128;
        assert(vlq_fold(s.push(b)) == a | ((x | (y << m)) << 7));
        assert(m <= 119 ==> (a | ((x | (y << m)) << 7)) == ((a | (x << 7)) | (y << ((m + 7)
            as u128)))) by (bit_vector);
        assert((m + 7) as u128 == (7 * s.len()) as u128);
    }
}

proof fn lemma_leb_high_fold(w: u128)
    ensures
        leb_fold(leb_high(w)) == w,
    decreases w,
{
    if w == 0 {
    } else {
        assert((w >> 7) < w) by (bit_vector)
            requires
                w != 0,
        ;
        lemma_leb_high_fold(w >> 7);
        let s = leb_high(w);
        assert(s.drop_last() =~= leb_high(w >> 7));
        assert(((w >> 7) << 7) | ((((w & 0x7f) | 0x80) as u8 & 0x7f) as u128) == w)
            by (bit_vector);
    }
}

/// Decoding the big-group-order encoding of any value gives it back.
pub proof fn lemma_leb_round_trip(v: u128)
    ensures
        leb_fold(leb_encode(v)) == v,
{
    lemma_leb_high_fold(v >> 7);
    let s = leb_encode(v);
    assert(s.drop_last() =~= leb_high(v >> 7));
    assert(((v >> 7) << 7) | (((v & 0x7f) as u8 & 0x7f) as u128) == v) by (bit_vector);
}

/// Decoding the little-group-order encoding of any value gives it back.
pub proof fn lemma_vlq_round_trip(v: u128)
    ensures
        vlq_fold(vlq_encode(v)) == v,
    decreases v,
{
    if v < 0x80 {
        reveal_with_fuel(vlq_fold, 2);
        let s = seq![v as u8];
        assert(s.drop_first() =~= Seq::<u8>::empty());
        assert(s.first() == v as u8);
        assert(vlq_fold(s) == ((v as u8 & 0x7f) as u128) | (0u128 << 7));
        assert((((v as u8 & 0x7f) as u128) | (0u128 << 7)) == v) by (bit_vector)
            requires
                v < 0x80,
        ;
    } else {
        assert((v >> 7) < v) by (bit_vector)
            requires
                v >= 0x80,
        ;
        lemma_vlq_round_trip(v >> 7);
        let s = vlq_encode(v);
        assert(s.drop_first() =~= vlq_encode(v >> 7));
        assert(s.first() == ((v & 0x7f) | 0x80) as u8);
        assert(((((v & 0x7f) | 0x80) as u8 & 0x7f) as u128) | ((v >> 7) << 7) == v)
            by (bit_vector);
    }
}

/// A big-group-order encoding never starts with an all-zero payload group
/// unless it is the single group of the value zero: the encoding is minimal.
pub proof fn lemma_leb_minimal(v: u128)
    ensures
        leb_encode(v).len() >= 2 ==> leb_encode(v)[0] & 0x7f != 0,
{
    if leb_encode(v).len() >= 2 {
        lemma_leb_high_first(v >> 7);
    }
}

proof fn lemma_leb_high_first(w: u128)
    requires
        w != 0,
    ensures
        leb_high(w).len() >= 1,
        leb_high(w)[0] & 0x7f != 0,
    decreases w,
{
    assert((w >> 7) < w) by (bit_vector)
        requires
            w != 0,
    ;
    if w >> 7 == 0 {
        reveal_with_fuel(leb_high, 2);
        assert(leb_high(w) =~= seq![((w & 0x7f) | 0x80) as u8]);
        assert((((w & 0x7f) | 0x80) as u8) & 0x7f != 0) by (bit_vector)
            requires
                w != 0 && w >> 7 == 0,
        ;
    } else {
        lemma_leb_high_first(w >> 7);
        assert(leb_high(w)[0] == leb_high(w >> 7)[0]);
    }
}

/// A little-group-order encoding never ends with an all-zero payload group
/// unless it is the single group of the value zero: the encoding is minimal.
pub proof fn lemma_vlq_minimal(v: u128)
    ensures
        vlq_encode(v).len() >= 2 ==> vlq_encode(v).last() & 0x7f != 0,
    decreases v,
{
    if v >= 0x80 {
        assert((v >> 7) < v && v >> 7 != 0) by (bit_vector)
            requires
                v >= 0x80,
        ;
        lemma_vlq_minimal(v >> 7);
        let w = v >> 7;
        let s = vlq_encode(v);
        lemma_vlq_nonempty(w);
        assert(s.last() == vlq_encode(w).last());
        if vlq_encode(w).len() < 2 {
            if w >= 0x80 {
                lemma_vlq_nonempty(w >> 7);
                assert(vlq_encode(w).len() >= 2);
            }
            assert(w < 0x80);
            assert(vlq_encode(w).last() == w as u8);
            assert(w as u8 & 0x7f != 0) by (bit_vector)
                requires
                    w != 0 && w < 0x80,
            ;
        }
    }
}

proof fn lemma_vlq_nonempty(v: u128)
    ensures
        vlq_encode(v).len() >= 1,
{
    if v < 0x80 {
    } else {
    }
}

/// 128 raised to `n`: the number of values `n` payload groups can carry.
pub open spec fn pow128(n: nat) -> nat
    decreases n,
{
    if n == 0 {
        1
    } else {
        128 * pow128((n - 1) as nat)
    }
}

proof fn lemma_leb_high_len(w: u128, k: nat)
    requires
        (w as nat) < pow128(k),
    ensures
        leb_high(w).len() <= k,
    decreases k,
{
    if w != 0 {
        assert((w >> 7) < w && w >> 7 == w / 128) by (bit_vector)
            requires
                w != 0,
        ;
        assert(k >= 1) by {
            if k == 0 {
            }
        }
        assert((w as nat) / 128 < pow128((k - 1) as nat)) by (nonlinear_arith)
            requires
                (w as nat) < 128 * pow128((k - 1) as nat),
                pow128((k - 1) as nat) > 0,
        ;
        lemma_pow128_positive((k - 1) as nat);
        lemma_leb_high_len(w >> 7, (k - 1) as nat);
    }
}

proof fn lemma_pow128_positive(n: nat)
    ensures
        pow128(n) > 0,
    decreases n,
{
    if n > 0 {
        lemma_pow128_positive((n - 1) as nat);
    }
}

/// No value needs more than nineteen groups in the big-group-order form.
pub proof fn lemma_leb_encode_len(v: u128)
    ensures
        1 <= leb_encode(v).len() <= 19,
{
    assert((v >> 7) <= 0x1ff_ffff_ffff_ffff_ffff_ffff_ffff_ffff) by (bit_vector);
    reveal_with_fuel(pow128, 19);
    lemma_leb_high_len(v >> 7, 18);
}

/// No value needs more than nineteen groups in the little-group-order form.
pub proof fn lemma_vlq_encode_len(v: u128)
    ensures
        1 <= vlq_encode(v).len() <= 19,
{
    reveal_with_fuel(pow128, 20);
    lemma_vlq_len_bound(v, 19);
}

proof fn lemma_vlq_len_bound(v: u128, k: nat)
    requires
        (v as nat) < pow128(k),
        k >= 1,
    ensures
        1 <= vlq_encode(v).len() <= k,
    decreases v,
{
    if v >= 0x80 {
        assert((v >> 7) < v && v >> 7 == v / 128 && v >> 7 != 0) by (bit_vector)
            requires
                v >= 0x80,
        ;
        assert((v as nat) / 128 < pow128((k - 1) as nat)) by (nonlinear_arith)
            requires
                (v as nat) < 128 * pow128((k - 1) as nat),
                pow128((k - 1) as nat) > 0,
        ;
        lemma_pow128_positive((k - 1) as nat);
        lemma_vlq_len_bound(v >> 7, (k - 1) as nat);
    }
}

/// The wire bytes of the big-group-order encoding of `v`.
pub fn leb_encode_vec(v: u128) -> (r: Vec<u8>)
    ensures
        r@ == leb_encode(v),
    decreases v,
{
    proof {
        assert(v == 0 || (v >> 7) < v) by (bit_vector);
    }
    let mut r = leb_high_vec(v >> 7);
    r.push((v % 0x80) as u8);
    proof {
        assert((v % 0x80) as u8 == (v & 0x7f) as u8) by (bit_vector);
    }
    r
}

fn leb_high_vec(w: u128) -> (r: Vec<u8>)
    ensures
        r@ == leb_high(w),
    decreases w,
{
    if w == 0 {
        Vec::new()
    } else {
        proof {
            assert((w >> 7) < w) by (bit_vector)
                requires
                    w != 0,
            ;
        }
        let mut r = leb_high_vec(w >> 7);
        r.push(((w % 0x80) + 0x80) as u8);
        proof {
            assert(((w % 0x80) + 0x80) as u8 == ((w & 0x7f) | 0x80) as u8) by (bit_vector);
        }
        r
    }
}

/// The wire bytes of the little-group-order encoding of `v`.
pub fn vlq_encode_vec(v: u128) -> (r: Vec<u8>)
    ensures
        r@ == vlq_encode(v),
    decreases v,
{
    if v < 0x80 {
        let mut r: Vec<u8> = Vec::new();
        r.push(v as u8);
        proof {
            assert(r@ =~= vlq_encode(v));
        }
        r
    } else {
        proof {
            assert((v >> 7) < v) by (bit_vector)
                requires
                    v >= 0x80,
            ;
        }
        let mut r: Vec<u8> = Vec::new();
        r.push(((v % 0x80) + 0x80) as u8);
        proof {
            assert(((v % 0x80) + 0x80) as u8 == ((v & 0x7f) | 0x80) as u8) by (bit_vector);
        }
        let mut rest = vlq_encode_vec(v >> 7);
        r.append(&mut rest);
        proof {
            assert(r@ =~= vlq_encode(v));
        }
        r
    }
}

} // verus!
