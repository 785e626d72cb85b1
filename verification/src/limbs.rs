//! Splitting and joining double-width accumulators.
use vstd::prelude::*;
use crate::value::limb_base;

verus! {

/// Splits a 128-bit accumulator into its low and high 64-bit halves.
pub fn split(t: u128) -> (r: (u64, u64))
    ensures
        t == r.0 + r.1 * limb_base(),
{
    let lo: u64 = t as u64;
    let hi: u64 = (t >> 64) as u64;
    assert(t == (t as u64) + ((t >> 64) as u64) * 0x1_0000_0000_0000_0000) by (bit_vector);
    (lo, hi)
}

/// Joins two 64-bit halves into one 128-bit number.
pub fn join(lo: u64, hi: u64) -> (r: u128)
    ensures
        r == lo + hi * limb_base(),
{
    let r: u128 = ((hi as u128) << 64) | (lo as u128);
    assert((((hi as u128) << 64) | (lo as u128)) == lo + hi * 0x1_0000_0000_0000_0000) by (bit_vector);
    r
}

} // verus!
