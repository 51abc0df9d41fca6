//! Branch-free selection and comparison over 64-bit unsigned integers.
//!
//! Every comparison yields a mask that is exactly 0 or 1, never a `bool`, and
//! every function here is straight-line code: no branch and no memory access
//! depends on an argument.

use vstd::prelude::*;

verus! {

/// The mask for a truth value: 1 for `true`, 0 for `false`.
pub open spec fn mask_of(b: bool) -> u64 {
    if b {
        1
    } else {
        0
    }
}

/// 1 when `a == b`, else 0.
pub fn ct_eq_u64(a: u64, b: u64) -> (mask: u64)
    ensures
        mask == mask_of(a == b),
{
    let x: u64 = a ^ b;
    let neg: u64 = 0u64.wrapping_sub(x);
    let nonzero: u64 = (x | neg) >> 63;
    assert(nonzero ^ 1 == mask_of(a == b)) by (bit_vector)
        requires
            x == a ^ b,
            neg == 0u64.wrapping_sub(x),
            nonzero == (x | neg) >> 63,
    ;
    nonzero ^ 1
}

/// 1 when `a < b`, else 0.
pub fn ct_lt_u64(a: u64, b: u64) -> (mask: u64)
    ensures
        mask == mask_of(a < b),
{
    let diff: u64 = a.wrapping_sub(b);
    let borrow: u64 = (!a & b) | (!(a ^ b) & diff);
    assert(borrow >> 63 == mask_of(a < b)) by (bit_vector)
        requires
            diff == a.wrapping_sub(b),
            borrow == (!a & b) | (!(a ^ b) & diff),
    ;
    borrow >> 63
}

/// 1 when `a <= b`, else 0.
pub fn ct_le_u64(a: u64, b: u64) -> (mask: u64)
    ensures
        mask == mask_of(a <= b),
{
    let above: u64 = ct_lt_u64(b, a);
    assert(above ^ 1 == mask_of(a <= b)) by (bit_vector)
        requires
            above == mask_of(b < a),
    ;
    above ^ 1
}

/// `a` when `mask` is 1, else `b`.
pub fn ct_select_u64(mask: u64, a: u64, b: u64) -> (chosen: u64)
    ensures
        chosen == (if mask == 1 { a } else { b }),
{
    let take: u64 = ct_eq_u64(mask, 1);
    let spread: u64 = 0u64.wrapping_sub(take);
    assert((a & spread) | (b & !spread) == (if take == 1 { a } else { b })) by (bit_vector)
        requires
            take == 0 || take == 1,
            spread == 0u64.wrapping_sub(take),
    ;
    (a & spread) | (b & !spread)
}

/// The smaller of `a` and `b`.
pub fn ct_min_u64(a: u64, b: u64) -> (least: u64)
    ensures
        least == (if a < b { a } else { b }),
{
    ct_select_u64(ct_lt_u64(a, b), a, b)
}

/// The larger of `a` and `b`.
pub fn ct_max_u64(a: u64, b: u64) -> (most: u64)
    ensures
        most == (if a < b { b } else { a }),
{
    ct_select_u64(ct_lt_u64(a, b), b, a)
}

/// `a - b` when `a >= b`, else 0.
pub fn ct_saturating_sub_u64(a: u64, b: u64) -> (rest: u64)
    ensures
        rest == (if a >= b { a - b } else { 0 }),
{
    let diff: u64 = a.wrapping_sub(b);
    assert(a >= b ==> diff == a - b) by (bit_vector)
        requires
            diff == a.wrapping_sub(b),
    ;
    ct_select_u64(ct_lt_u64(a, b), 0, diff)
}

} // verus!
