//! Fixed-width integers as byte sequences, in both endiannesses.
//!
//! The spec functions here give the mathematical meaning of a byte sequence
//! read as an unsigned integer, and of an integer rendered as a byte
//! sequence; the executable functions realise them and the lemmas state the
//! round-trip laws the typed stream layer builds on.

use vstd::prelude::*;

verus! {

/// 256 raised to `n`: the number of distinct values of an `n`-byte field.
pub open spec fn pow256(n: nat) -> nat
    decreases n,
{
    if n == 0 {
        1
    } else {
        256 * pow256((n - 1) as nat)
    }
}

/// The unsigned value of `s` read most-significant byte first.
pub open spec fn be_bytes_to_nat(s: Seq<u8>) -> nat
    decreases s.len(),
{
    if s.len() == 0 {
        0
    } else {
        be_bytes_to_nat(s.drop_last()) * 256 + s.last() as nat
    }
}

/// The unsigned value of `s` read least-significant byte first.
pub open spec fn le_bytes_to_nat(s: Seq<u8>) -> nat {
    be_bytes_to_nat(s.reverse())
}

/// `v` rendered as `n` bytes, most significant first; high bits beyond
/// `n` bytes are discarded.
pub open spec fn nat_to_be_bytes(v: nat, n: nat) -> Seq<u8>
    decreases n,
{
    if n == 0 {
        Seq::empty()
    } else {
        nat_to_be_bytes(v / 256, (n - 1) as nat).push((v % 256) as u8)
    }
}

/// `v` rendered as `n` bytes, least significant first.
pub open spec fn nat_to_le_bytes(v: nat, n: nat) -> Seq<u8> {
    nat_to_be_bytes(v, n).reverse()
}

pub proof fn lemma_pow256_increases(a: nat, b: nat)
    requires
        a <= b,
    ensures
        pow256(a) <= pow256(b),
    decreases b,
{
    if a < b {
        lemma_pow256_increases(a, (b - 1) as nat);
        assert(pow256(b) == 256 * pow256((b - 1) as nat));
        assert(pow256((b - 1) as nat) <= 256 * pow256((b - 1) as nat)) by (nonlinear_arith)
            requires
                pow256((b - 1) as nat) >= 0,
        ;
    }
}

pub proof fn lemma_pow256_16()
    ensures
        pow256(16) == 0x1_0000_0000_0000_0000_0000_0000_0000_0000,
{
    reveal_with_fuel(pow256, 17);
}

pub proof fn lemma_be_bytes_to_nat_bound(s: Seq<u8>)
    ensures
        be_bytes_to_nat(s) < pow256(s.len()),
    decreases s.len(),
{
    if s.len() > 0 {
        lemma_be_bytes_to_nat_bound(s.drop_last());
        let hi = be_bytes_to_nat(s.drop_last());
        let p = pow256((s.len() - 1) as nat);
        assert(hi < p && s.last() < 256 ==> hi * 256 + s.last() < 256 * p) by (nonlinear_arith);
    }
}

pub proof fn lemma_le_bytes_to_nat_bound(s: Seq<u8>)
    ensures
        le_bytes_to_nat(s) < pow256(s.len()),
{
    lemma_be_bytes_to_nat_bound(s.reverse());
}

pub proof fn lemma_nat_to_be_bytes_len(v: nat, n: nat)
    ensures
        nat_to_be_bytes(v, n).len() == n,
    decreases n,
{
    if n > 0 {
        lemma_nat_to_be_bytes_len(v / 256, (n - 1) as nat);
    }
}

/// Decoding what was encoded gives the value back, for every value that
/// fits in the field.
pub proof fn lemma_be_bytes_round_trip(v: nat, n: nat)
    requires
        v < pow256(n),
    ensures
        be_bytes_to_nat(nat_to_be_bytes(v, n)) == v,
    decreases n,
{
    if n == 0 {
    } else {
        let s = nat_to_be_bytes(v, n);
        assert(s.drop_last() =~= nat_to_be_bytes(v / 256, (n - 1) as nat));
        assert(v / 256 < pow256((n - 1) as nat)) by (nonlinear_arith)
            requires
                v < 256 * pow256((n - 1) as nat),
                v >= 0,
                pow256((n - 1) as nat) > 0,
        {
        }
        lemma_pow256_positive((n - 1) as nat);
        lemma_be_bytes_round_trip(v / 256, (n - 1) as nat);
        assert((v / 256) * 256 + v % 256 == v) by (nonlinear_arith);
    }
}

pub proof fn lemma_pow256_positive(n: nat)
    ensures
        pow256(n) > 0,
    decreases n,
{
    if n > 0 {
        lemma_pow256_positive((n - 1) as nat);
    }
}

/// Re-encoding what was decoded gives the byte sequence back.
pub proof fn lemma_be_bytes_reencode(s: Seq<u8>)
    ensures
        nat_to_be_bytes(be_bytes_to_nat(s), s.len()) == s,
    decreases s.len(),
{
    if s.len() == 0 {
        assert(nat_to_be_bytes(0, 0) =~= s);
    } else {
        let v = be_bytes_to_nat(s);
        let hi = be_bytes_to_nat(s.drop_last());
        assert(v == hi * 256 + s.last());
        assert(v % 256 == s.last() && v / 256 == hi) by (nonlinear_arith)
            requires
                v == hi * 256 + s.last(),
                0 <= s.last() < 256,
                hi >= 0,
        ;
        lemma_be_bytes_reencode(s.drop_last());
        assert(nat_to_be_bytes(v, s.len()) =~= s);
    }
}

pub proof fn lemma_le_bytes_round_trip(v: nat, n: nat)
    requires
        v < pow256(n),
    ensures
        le_bytes_to_nat(nat_to_le_bytes(v, n)) == v,
{
    lemma_nat_to_be_bytes_len(v, n);
    assert(nat_to_be_bytes(v, n).reverse().reverse() =~= nat_to_be_bytes(v, n));
    lemma_be_bytes_round_trip(v, n);
}

pub proof fn lemma_le_bytes_reencode(s: Seq<u8>)
    ensures
        nat_to_le_bytes(le_bytes_to_nat(s), s.len()) == s,
{
    lemma_be_bytes_reencode(s.reverse());
    assert(nat_to_be_bytes(be_bytes_to_nat(s.reverse()), s.len()).reverse()
        =~= s.reverse().reverse());
    assert(s.reverse().reverse() =~= s);
}

/// Assembles the unsigned value of `b`, most significant byte first.
pub fn nat_from_bytes_be(b: &[u8]) -> (r: u128)
    requires
        b@.len() <= 16,
    ensures
        r == be_bytes_to_nat(b@),
{
    let n = b.len();
    let mut acc: u128 = 0;
    let mut i: usize = 0;
    while i < n
        invariant
            i <= n == b@.len() <= 16,
            acc == be_bytes_to_nat(b@.take(i as int)),
            acc < pow256(i as nat),
        decreases n - i,
    {
        proof {
            assert(b@.take(i + 1).drop_last() =~= b@.take(i as int));
            assert(b@.take(i + 1).last() == b@[i as int]);
            let p = pow256(i as nat);
            assert(acc < p && b@[i as int] < 256 ==> acc * 256 + b@[i as int] < 256 * p)
                by (nonlinear_arith);
            lemma_pow256_increases((i + 1) as nat, 16);
            lemma_pow256_16();
        }
        acc = acc * 256 + (b[i] as u128);
        i = i + 1;
    }
    proof {
        assert(b@.take(n as int) =~= b@);
    }
    acc
}

/// Assembles the unsigned value of `b`, least significant byte first.
pub fn nat_from_bytes_le(b: &[u8]) -> (r: u128)
    requires
        b@.len() <= 16,
    ensures
        r == le_bytes_to_nat(b@),
{
    let n = b.len();
    let mut acc: u128 = 0;
    let mut i: usize = n;
    while i > 0
        invariant
            i <= n == b@.len() <= 16,
            acc == be_bytes_to_nat(b@.skip(i as int).reverse()),
            acc < pow256((n - i) as nat),
        decreases i,
    {
        proof {
            let tail = b@.skip(i as int).reverse();
            let tail2 = b@.skip(i - 1).reverse();
            assert(tail2.drop_last() =~= tail);
            assert(tail2.last() == b@[i - 1]);
            let p = pow256((n - i) as nat);
            assert(acc < p && b@[i - 1] < 256 ==> acc * 256 + b@[i - 1] < 256 * p)
                by (nonlinear_arith);
            lemma_pow256_increases((n - i + 1) as nat, 16);
            lemma_pow256_16();
        }
        acc = acc * 256 + (b[i - 1] as u128);
        i = i - 1;
    }
    proof {
        assert(b@.skip(0).reverse() =~= b@.reverse());
    }
    acc
}

/// Renders the low `n` bytes of `v`, most significant byte first.
pub fn nat_to_bytes_be(v: u128, n: usize) -> (r: Vec<u8>)
    ensures
        r@ == nat_to_be_bytes(v as nat, n as nat),
        r@.len() == n,
    decreases n,
{
    if n == 0 {
        Vec::new()
    } else {
        let mut r = nat_to_bytes_be(v / 256, n - 1);
        r.push((v % 256) as u8);
        r
    }
}

/// Renders the low `n` bytes of `v`, least significant byte first.
pub fn nat_to_bytes_le(v: u128, n: usize) -> (r: Vec<u8>)
    ensures
        r@ == nat_to_le_bytes(v as nat, n as nat),
        r@.len() == n,
{
    let be = nat_to_bytes_be(v, n);
    let mut r: Vec<u8> = Vec::new();
    let mut i: usize = be.len();
    while i > 0
        invariant
            i <= be@.len(),
            be@ == nat_to_be_bytes(v as nat, n as nat),
            be@.len() == n,
            r@ =~= be@.skip(i as int).reverse(),
        decreases i,
    {
        proof {
            assert(be@.skip(i - 1).reverse() =~= be@.skip(i as int).reverse().push(be@[i - 1]));
        }
        r.push(be[i - 1]);
        i = i - 1;
    }
    proof {
        assert(be@.skip(0) =~= be@);
    }
    r
}

/// The two's-complement reading of an `n`-byte unsigned value.
pub open spec fn signed_of(v: nat, n: nat) -> int {
    if v < pow256(n) / 2 {
        v as int
    } else {
        v as int - pow256(n) as int
    }
}

/// The `n`-byte unsigned value whose two's-complement reading is `x`.
pub open spec fn unsigned_rep(x: int, n: nat) -> nat {
    if x >= 0 {
        x as nat
    } else {
        (x + pow256(n)) as nat
    }
}

/// Two's complement is a bijection between the signed and the unsigned
/// range of an `n`-byte field.
pub proof fn lemma_signed_rep(x: int, n: nat)
    requires
        n >= 1,
        -((pow256(n) / 2) as int) <= x < (pow256(n) / 2) as int,
    ensures
        unsigned_rep(x, n) < pow256(n),
        signed_of(unsigned_rep(x, n), n) == x,
{
    lemma_pow256_positive((n - 1) as nat);
    assert(pow256(n) == 256 * pow256((n - 1) as nat));
    assert(pow256(n) / 2 == 128 * pow256((n - 1) as nat)) by (nonlinear_arith)
        requires
            pow256(n) == 256 * pow256((n - 1) as nat),
            pow256((n - 1) as nat) > 0,
    ;
}

/// Reinterprets a byte as a signed value.
pub fn u8_to_i8(u: u8) -> (r: i8)
    ensures
        r as int == signed_of(u as nat, 1),
{
    proof {
        reveal_with_fuel(pow256, 2);
    }
    if u < 0x80 {
        u as i8
    } else {
        ((u - 0x80) as i8) + i8::MIN
    }
}

/// The byte that reinterprets as `v`.
pub fn i8_to_u8(v: i8) -> (r: u8)
    ensures
        signed_of(r as nat, 1) == v as int,
        r as nat == unsigned_rep(v as int, 1),
{
    proof {
        reveal_with_fuel(pow256, 2);
    }
    if v >= 0 {
        v as u8
    } else {
        ((v - i8::MIN) as u8) + 0x80
    }
}

/// Reinterprets two bytes' worth of unsigned value as signed.
pub fn u16_to_i16(u: u16) -> (r: i16)
    ensures
        r as int == signed_of(u as nat, 2),
{
    proof {
        reveal_with_fuel(pow256, 3);
    }
    if u < 0x8000 {
        u as i16
    } else {
        ((u - 0x8000) as i16) + i16::MIN
    }
}

/// The two-byte unsigned value that reinterprets as `v`.
pub fn i16_to_u16(v: i16) -> (r: u16)
    ensures
        signed_of(r as nat, 2) == v as int,
        r as nat == unsigned_rep(v as int, 2),
{
    proof {
        reveal_with_fuel(pow256, 3);
    }
    if v >= 0 {
        v as u16
    } else {
        ((v - i16::MIN) as u16) + 0x8000
    }
}

/// Reinterprets four bytes' worth of unsigned value as signed.
pub fn u32_to_i32(u: u32) -> (r: i32)
    ensures
        r as int == signed_of(u as nat, 4),
{
    proof {
        reveal_with_fuel(pow256, 5);
    }
    if u < 0x8000_0000 {
        u as i32
    } else {
        ((u - 0x8000_0000) as i32) + i32::MIN
    }
}

/// The four-byte unsigned value that reinterprets as `v`.
pub fn i32_to_u32(v: i32) -> (r: u32)
    ensures
        signed_of(r as nat, 4) == v as int,
        r as nat == unsigned_rep(v as int, 4),
{
    proof {
        reveal_with_fuel(pow256, 5);
    }
    if v >= 0 {
        v as u32
    } else {
        ((v - i32::MIN) as u32) + 0x8000_0000
    }
}

/// Reinterprets eight bytes' worth of unsigned value as signed.
pub fn u64_to_i64(u: u64) -> (r: i64)
    ensures
        r as int == signed_of(u as nat, 8),
{
    proof {
        reveal_with_fuel(pow256, 9);
    }
    if u < 0x8000_0000_0000_0000 {
        u as i64
    } else {
        ((u - 0x8000_0000_0000_0000) as i64) + i64::MIN
    }
}

/// The eight-byte unsigned value that reinterprets as `v`.
pub fn i64_to_u64(v: i64) -> (r: u64)
    ensures
        signed_of(r as nat, 8) == v as int,
        r as nat == unsigned_rep(v as int, 8),
{
    proof {
        reveal_with_fuel(pow256, 9);
    }
    if v >= 0 {
        v as u64
    } else {
        ((v - i64::MIN) as u64) + 0x8000_0000_0000_0000
    }
}

/// Reinterprets sixteen bytes' worth of unsigned value as signed.
pub fn u128_to_i128(u: u128) -> (r: i128)
    ensures
        r as int == signed_of(u as nat, 16),
{
    proof {
        reveal_with_fuel(pow256, 17);
    }
    if u < 0x8000_0000_0000_0000_0000_0000_0000_0000 {
        u as i128
    } else {
        ((u - 0x8000_0000_0000_0000_0000_0000_0000_0000) as i128) + i128::MIN
    }
}

/// The sixteen-byte unsigned value that reinterprets as `v`.
pub fn i128_to_u128(v: i128) -> (r: u128)
    ensures
        signed_of(r as nat, 16) == v as int,
        r as nat == unsigned_rep(v as int, 16),
{
    proof {
        reveal_with_fuel(pow256, 17);
    }
    if v >= 0 {
        v as u128
    } else {
        ((v - i128::MIN) as u128) + 0x8000_0000_0000_0000_0000_0000_0000_0000
    }
}

} // verus!
