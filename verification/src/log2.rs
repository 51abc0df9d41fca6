//! Halving with rounding up, and the base-two logarithm rounded up.

use vstd::prelude::*;
use vstd::arithmetic::power2::{lemma2_to64, lemma2_to64_rest, lemma_pow2_strictly_increases, lemma_pow2_unfold, pow2};

verus! {

/// Half of `x`, rounded up.
pub open spec fn ceil_half(x: int) -> int {
    (x + 1) / 2
}

/// The least `e` with `x <= 2^e`, for every `x`; it is 0 up to `x == 1`.
pub open spec fn ceil_log2(x: int) -> nat
    decreases x,
{
    if x <= 1 {
        0
    } else {
        1 + ceil_log2(ceil_half(x))
    }
}

/// `ceil_log2(x)` is the least exponent whose power of two reaches `x`.
pub proof fn lemma_ceil_log2_bounds(x: int)
    ensures
        x <= pow2(ceil_log2(x)),
        ceil_log2(x) > 0 ==> pow2((ceil_log2(x) - 1) as nat) < x,
    decreases x,
{
    lemma2_to64();
    if x > 1 {
        let h = ceil_half(x);
        let e = ceil_log2(x);
        lemma_ceil_log2_bounds(h);
        lemma_pow2_unfold(e);
        if e > 1 {
            lemma_pow2_unfold((e - 1) as nat);
        }
    }
}

/// The logarithm does not decrease as its argument grows.
pub proof fn lemma_ceil_log2_monotone(x: int, y: int)
    requires
        x <= y,
    ensures
        ceil_log2(x) <= ceil_log2(y),
    decreases y,
{
    if x > 1 {
        lemma_ceil_log2_monotone(ceil_half(x), ceil_half(y));
    }
}

/// A 64-bit value has a logarithm of at most 64.
pub proof fn lemma_ceil_log2_u64(x: int)
    requires
        x <= u64::MAX,
    ensures
        ceil_log2(x) <= 64,
{
    lemma_ceil_log2_bounds(x);
    lemma2_to64();
    lemma2_to64_rest();
    let e = ceil_log2(x);
    if e > 64 {
        lemma_pow2_strictly_increases(64, (e - 1) as nat);
    }
}

/// Half of `x`, rounded up, without overflow at the top of the range.
pub fn ceil_half_u64(x: u64) -> (h: u64)
    ensures
        h == ceil_half(x as int),
{
    x / 2 + x % 2
}

/// The base-two logarithm of `x`, rounded up; 0 for `x <= 1`.
pub fn ceil_log2_u64(x: u64) -> (e: u32)
    ensures
        e == ceil_log2(x as int),
        e <= 64,
{
    let mut e: u32 = 0;
    let mut v: u64 = x;
    proof {
        lemma_ceil_log2_u64(x as int);
    }
    while v > 1
        invariant
            e + ceil_log2(v as int) == ceil_log2(x as int),
            ceil_log2(x as int) <= 64,
        decreases v,
    {
        v = ceil_half_u64(v);
        e = e + 1;
    }
    e
}

} // verus!
