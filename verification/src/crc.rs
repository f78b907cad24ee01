//! The CRC-32 checksum (the reflected polynomial used by PNG and zlib),
//! as a spec function and a matching executable one.

use vstd::prelude::*;

verus! {

/// One shift-and-conditionally-xor round of the bitwise CRC-32 update.
pub open spec fn crc32_step(c: u32) -> u32 {
    if c & 1 == 1 {
        (c >> 1) ^ 0xEDB8_8320
    } else {
        c >> 1
    }
}

/// `k` rounds of the bitwise update applied to `c`.
pub open spec fn crc32_rounds(c: u32, k: nat) -> u32
    decreases k,
{
    if k == 0 {
        c
    } else {
        crc32_step(crc32_rounds(c, (k - 1) as nat))
    }
}

/// The running CRC-32 register after absorbing every byte of `s`,
/// starting from the all-ones preset.
pub open spec fn crc32_acc(s: Seq<u8>) -> u32
    decreases s.len(),
{
    if s.len() == 0 {
        0xFFFF_FFFF
    } else {
        crc32_rounds(crc32_acc(s.drop_last()) ^ (s.last() as u32), 8)
    }
}

/// The CRC-32 checksum of `s`: the final register, inverted.
pub open spec fn crc32_spec(s: Seq<u8>) -> u32 {
    crc32_acc(s) ^ 0xFFFF_FFFF
}

/// Computes the CRC-32 checksum of `data`.
pub fn crc32(data: &[u8]) -> (r: u32)
    ensures
        r == crc32_spec(data@),
{
    let n = data.len();
    let mut crc: u32 = 0xFFFF_FFFF;
    let mut i: usize = 0;
    while i < n
        invariant
            i <= n == data@.len(),
            crc == crc32_acc(data@.take(i as int)),
        decreases n - i,
    {
        proof {
            assert(data@.take(i + 1).drop_last() =~= data@.take(i as int));
            assert(data@.take(i + 1).last() == data@[i as int]);
        }
        let start = crc ^ (data[i] as u32);
        let mut c = start;
        let mut j: usize = 0;
        while j < 8
            invariant
                j <= 8,
                c == crc32_rounds(start, j as nat),
            decreases 8 - j,
        {
            if c & 1 == 1 {
                c = (c >> 1) ^ 0xEDB8_8320;
            } else {
                c = c >> 1;
            }
            j = j + 1;
        }
        crc = c;
        i = i + 1;
    }
    proof {
        assert(data@.take(n as int) =~= data@);
    }
    crc ^ 0xFFFF_FFFF
}

} // verus!
