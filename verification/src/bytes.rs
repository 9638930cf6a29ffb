//! Big-endian (network byte order) reading of integers from bytes.
use vstd::arithmetic::power2::{lemma2_to64, lemma2_to64_rest, lemma_pow2_adds, pow2};
use vstd::prelude::*;

verus! {

/// Big-endian value of a byte sequence.
pub open spec fn be_value(s: Seq<u8>) -> nat
    decreases s.len(),
{
    if s.len() == 0 {
        0
    } else {
        be_value(s.drop_last()) * 256 + s.last() as nat
    }
}

/// A big-endian value of `n` bytes is below 2^(8n).
pub proof fn lemma_be_value_bound(s: Seq<u8>)
    ensures
        be_value(s) < pow2(8 * s.len()),
    decreases s.len(),
{
    if s.len() == 0 {
        lemma2_to64();
    } else {
        lemma_be_value_bound(s.drop_last());
        let n = s.len();
        lemma_pow2_adds((8 * (n - 1)) as nat, 8);
        lemma2_to64();
        let p = pow2((8 * (n - 1)) as nat) as int;
        let v = be_value(s.drop_last()) as int;
        assert(v * 256 + s.last() < p * 256) by (nonlinear_arith)
            requires v < p, s.last() < 256;
    }
}

/// 2^128 and 2^32 as numbers.
pub proof fn lemma_pow2_values()
    ensures
        pow2(128) == 0x1_0000_0000_0000_0000_0000_0000_0000_0000,
        pow2(120) == 0x100_0000_0000_0000_0000_0000_0000_0000,
        pow2(32) == 0x1_0000_0000,
        pow2(24) == 0x100_0000,
{
    lemma2_to64();
    lemma2_to64_rest();
    lemma_pow2_adds(64, 64);
    lemma_pow2_adds(64, 56);
}

/// The 16 bytes starting at `start`, read as one big-endian 128-bit number.
pub fn be_u128_at(data: &[u8], start: usize) -> (r: u128)
    requires
        start + 16 <= data@.len(),
    ensures
        r == be_value(data@.subrange(start as int, start + 16)),
{
    let ghost s = data@.subrange(start as int, start + 16);
    let n = data.len();
    let mut acc: u128 = 0;
    let mut j: usize = 0;
    while j < 16
        invariant
            j <= 16,
            start + 16 <= data@.len(),
            n == data@.len(),
            s == data@.subrange(start as int, start + 16),
            acc == be_value(s.take(j as int)),
        decreases 16 - j,
    {
        proof {
            assert(s.take(j + 1).drop_last() == s.take(j as int));
            lemma_be_value_bound(s.take(j as int));
            lemma_pow2_values();
            if j < 15 {
                vstd::arithmetic::power2::lemma_pow2_strictly_increases((8 * j) as nat, 120);
            }
            assert(acc < pow2(120));
            let a = acc as int;
            assert(a * 256 + 255 < 0x1_0000_0000_0000_0000_0000_0000_0000_0000) by (nonlinear_arith)
                requires a < 0x100_0000_0000_0000_0000_0000_0000_0000;
        }
        acc = acc * 256 + data[start + j] as u128;
        j = j + 1;
    }
    proof {
        assert(s.take(16) == s);
    }
    acc
}

/// The 4 bytes starting at `start`, read as one big-endian 32-bit number.
pub fn be_u32_at(data: &[u8], start: usize) -> (r: u32)
    requires
        start + 4 <= data@.len(),
    ensures
        r == be_value(data@.subrange(start as int, start + 4)),
{
    let ghost s = data@.subrange(start as int, start + 4);
    proof {
        assert(s.drop_last().drop_last().drop_last().drop_last() == Seq::<u8>::empty());
        reveal_with_fuel(be_value, 5);
    }
    let b0 = data[start] as u32;
    let b1 = data[start + 1] as u32;
    let b2 = data[start + 2] as u32;
    let b3 = data[start + 3] as u32;
    ((b0 * 256 + b1) * 256 + b2) * 256 + b3
}

} // verus!
