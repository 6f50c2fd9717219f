//! Bit masks and integer logarithms.

use vstd::prelude::*;

verus! {

/// Width of a machine word of the target, in bits.
pub const BITS_PER_LONG: usize = 32;

/// Width of a double word, in bits.
pub const BITS_PER_LONG_LONG: usize = 64;

/// The 32-bit word whose bits `l..=h` are set and whose other bits are clear.
pub open spec fn spec_genmask(h: usize, l: usize) -> u32 {
    (0xffff_ffffu32 << (l as u32)) & (0xffff_ffffu32 >> ((31 - h) as u32))
}

/// The 64-bit word whose bits `l..=h` are set and whose other bits are clear.
pub open spec fn spec_genmask_u64(h: usize, l: usize) -> u64 {
    (0xffff_ffff_ffff_ffffu64 << (l as u64)) & (0xffff_ffff_ffff_ffffu64 >> ((63 - h) as u64))
}

/// Bit `i` of a `spec_genmask(h, l)` is set exactly when `l <= i <= h`.
pub proof fn lemma_genmask_bits(h: usize, l: usize, i: usize)
    requires
        h < 32,
        l < 32,
        i < 32,
    ensures
        ((spec_genmask(h, l) >> (i as u32)) & 1u32 == 1u32) <==> (l <= i <= h),
{
    let hh = h as u32;
    let ll = l as u32;
    let ii = i as u32;
    assert((((0xffff_ffffu32 << ll) & (0xffff_ffffu32 >> ((31 - hh) as u32))) >> ii) & 1u32 == 1u32
        <==> (ll <= ii && ii <= hh)) by (bit_vector)
        requires
            hh < 32,
            ll < 32,
            ii < 32,
    ;
}

/// A contiguous mask with bits `l` up to `h` set, in a 32-bit word.
pub fn genmask(h: usize, l: usize) -> (r: usize)
    requires
        h < BITS_PER_LONG,
        l < BITS_PER_LONG,
    ensures
        r == spec_genmask(h, l),
{
    let hi: u32 = h as u32;
    let lo: u32 = l as u32;
    let m: u32 = (0xffff_ffffu32 << lo) & (0xffff_ffffu32 >> (31u32 - hi));
    m as usize
}

/// A contiguous mask with bits `l` up to `h` set, in a 64-bit word.
pub fn genmask_u64(h: usize, l: usize) -> (r: u64)
    requires
        h < BITS_PER_LONG_LONG,
        l < BITS_PER_LONG_LONG,
    ensures
        r == spec_genmask_u64(h, l),
{
    let hi: u64 = h as u64;
    let lo: u64 = l as u64;
    (0xffff_ffff_ffff_ffffu64 << lo) & (0xffff_ffff_ffff_ffffu64 >> (63u64 - hi))
}

/// The integer part of the binary logarithm of `n`; 0 for `n <= 1`.
pub open spec fn spec_floor_log2(n: nat) -> nat
    decreases n,
{
    if n <= 1 {
        0
    } else {
        1 + spec_floor_log2(n / 2)
    }
}

/// The smaller of two naturals.
pub open spec fn spec_min(a: nat, b: nat) -> nat {
    if a <= b {
        a
    } else {
        b
    }
}

/// Halving `k` times lowers the logarithm by `k`, as long as `n` has more than `k` bits.
pub proof fn lemma_floor_log2_shift(n: nat, k: nat, p: nat)
    requires
        p == vstd::arithmetic::power2::pow2(k),
        n >= p,
    ensures
        spec_floor_log2(n) == k + spec_floor_log2(n / p),
    decreases k,
{
    vstd::arithmetic::power2::lemma2_to64();
    if k == 0 {
        assert(p == 1);
    } else {
        let q = vstd::arithmetic::power2::pow2((k - 1) as nat);
        vstd::arithmetic::power2::lemma_pow2_unfold(k);
        assert(p == 2 * q);
        assert(q > 0) by {
            vstd::arithmetic::power2::lemma_pow2_pos((k - 1) as nat);
        }
        assert(n >= 2);
        assert(n / 2 >= q);
        lemma_floor_log2_shift(n / 2, (k - 1) as nat, q);
        assert((n / 2) / q == n / p) by {
            vstd::arithmetic::div_mod::lemma_div_denominator(n as int, 2, q as int);
        }
    }
}

/// A number below `2^k` has a logarithm below `k`.
pub proof fn lemma_floor_log2_bound(n: nat, k: nat)
    requires
        k >= 1,
        n < vstd::arithmetic::power2::pow2(k),
    ensures
        spec_floor_log2(n) < k,
    decreases k,
{
    vstd::arithmetic::power2::lemma2_to64();
    if n <= 1 {
    } else {
        vstd::arithmetic::power2::lemma_pow2_unfold(k);
        if k == 1 {
            assert(vstd::arithmetic::power2::pow2(0) == 1);
        } else {
            lemma_floor_log2_bound(n / 2, (k - 1) as nat);
        }
    }
}

/// The logarithm of `n`, capped at 1.
pub fn log_1(n: usize) -> (r: usize)
    ensures
        r == spec_min(1, spec_floor_log2(n as nat)),
{
    proof {
        vstd::arithmetic::power2::lemma2_to64();
        if n >= 2 {
            lemma_floor_log2_shift(n as nat, 1, 2);
        }
    }
    if n >= 2 {
        1
    } else {
        0
    }
}

/// The logarithm of `n`, capped at 3.
pub fn log_2(n: usize) -> (r: usize)
    ensures
        r == spec_min(3, spec_floor_log2(n as nat)),
{
    proof {
        vstd::arithmetic::power2::lemma2_to64();
        assert(n >> 2 == n / 4) by (bit_vector);
        if n >= 4 {
            lemma_floor_log2_shift(n as nat, 2, 4);
        } else {
            lemma_floor_log2_bound(n as nat, 2);
        }
    }
    if n >= 4 {
        2 + log_1(n >> 2)
    } else {
        log_1(n)
    }
}

/// The logarithm of `n`, capped at 7.
pub fn log_4(n: usize) -> (r: usize)
    ensures
        r == spec_min(7, spec_floor_log2(n as nat)),
{
    proof {
        vstd::arithmetic::power2::lemma2_to64();
        assert(n >> 4 == n / 16) by (bit_vector);
        if n >= 16 {
            lemma_floor_log2_shift(n as nat, 4, 16);
        } else {
            lemma_floor_log2_bound(n as nat, 4);
        }
    }
    if n >= 16 {
        4 + log_2(n >> 4)
    } else {
        log_2(n)
    }
}

/// The logarithm of `n`, capped at 15.
pub fn log_8(n: usize) -> (r: usize)
    ensures
        r == spec_min(15, spec_floor_log2(n as nat)),
{
    proof {
        vstd::arithmetic::power2::lemma2_to64();
        assert(n >> 8 == n / 256) by (bit_vector);
        if n >= 256 {
            lemma_floor_log2_shift(n as nat, 8, 256);
        } else {
            lemma_floor_log2_bound(n as nat, 8);
        }
    }
    if n >= 256 {
        8 + log_4(n >> 8)
    } else {
        log_4(n)
    }
}

/// The integer part of the binary logarithm of `n`, capped at 31; 0 for `n == 0`.
pub fn log2(n: usize) -> (r: usize)
    ensures
        r == spec_min(31, spec_floor_log2(n as nat)),
        n < 0x1_0000_0000 ==> r == spec_floor_log2(n as nat),
{
    proof {
        vstd::arithmetic::power2::lemma2_to64();
        assert(n >> 16 == n / 65536) by (bit_vector);
        if n >= 65536 {
            lemma_floor_log2_shift(n as nat, 16, 65536);
        } else {
            lemma_floor_log2_bound(n as nat, 16);
        }
        if n < 0x1_0000_0000 {
            lemma_floor_log2_bound(n as nat, 32);
        }
    }
    if n >= 65536 {
        16 + log_8(n >> 16)
    } else {
        log_8(n)
    }
}

} // verus!
