//! Lane-wise bitwise operators and zero, bound and equality tests.
use vstd::prelude::*;
use vstd::arithmetic::power2::{
    lemma2_to64, lemma2_to64_rest, lemma_pow2_strictly_increases, pow2,
};
use vstd::bits::lemma_u64_shl_is_mul;
use crate::value::{lemma_value_determines_limbs, U256};

verus! {

/// Whether `p` is a power of two that fits in 64 bits.
pub open spec fn is_small_power_of_two(p: int) -> bool {
    exists|k: nat| k < 64 && p == #[trigger] pow2(k)
}

/// The canonical boolean word: the value 1 for true, 0 for false.
pub open spec fn boolean_word(flag: bool) -> Seq<u64> {
    seq![if flag { 1u64 } else { 0u64 }, 0u64, 0u64, 0u64]
}

/// Whether all 256 bits are zero.
pub fn is_zero_u256(value: U256) -> (r: bool)
    ensures
        r == (value@ == 0),
{
    let l0: u64 = value.0[0];
    let l1: u64 = value.0[1];
    let l2: u64 = value.0[2];
    let l3: u64 = value.0[3];
    let any: u64 = l0 | l1 | l2 | l3;
    assert(((l0 | l1 | l2 | l3) == 0) <==> (l0 == 0 && l1 == 0 && l2 == 0 && l3 == 0))
        by (bit_vector);
    any == 0
}

/// Whether `value` is below `bound`, a power of two: the bits of `value`
/// at and above the bit of `bound` are all zero.
pub fn is_ltpow2_u256(value: U256, bound: usize) -> (r: bool)
    requires
        is_small_power_of_two(bound as int),
    ensures
        r == (value@ < bound),
{
    let p: u64 = bound as u64;
    let l0: u64 = value.0[0];
    proof {
        let k: nat = choose|k: nat| k < 64 && bound as int == #[trigger] pow2(k);
        let e: u64 = k as u64;
        lemma2_to64();
        lemma2_to64_rest();
        if k < 63 {
            lemma_pow2_strictly_increases(k, 63);
        }
        assert(pow2(k) <= 0x8000_0000_0000_0000);
        lemma_u64_shl_is_mul(1, e);
        assert(p == 1u64 << e);
        assert(p >= 1 && (((l0 & !((p - 1) as u64)) == 0) <==> (l0 < p))) by (bit_vector)
            requires
                p == 1u64 << e,
                e < 64,
        ;
    }
    let mask: u64 = p - 1;
    let hipart: U256 = U256([l0 & !mask, value.0[1], value.0[2], value.0[3]]);
    is_zero_u256(hipart)
}

/// Equality as a canonical boolean word.
pub fn eq_u256(a: U256, b: U256) -> (r: U256)
    ensures
        r.limbs() == boolean_word(a@ == b@),
        r@ == (if a@ == b@ { 1nat } else { 0nat }),
{
    let a0: u64 = a.0[0];
    let a1: u64 = a.0[1];
    let a2: u64 = a.0[2];
    let a3: u64 = a.0[3];
    let b0: u64 = b.0[0];
    let b1: u64 = b.0[1];
    let b2: u64 = b.0[2];
    let b3: u64 = b.0[3];
    let differing: u64 = (a0 ^ b0) | (a1 ^ b1) | (a2 ^ b2) | (a3 ^ b3);
    proof {
        assert((((a0 ^ b0) | (a1 ^ b1) | (a2 ^ b2) | (a3 ^ b3)) == 0) <==> (a0 == b0 && a1 == b1
            && a2 == b2 && a3 == b3)) by (bit_vector);
        if a@ == b@ {
            lemma_value_determines_limbs(a, b);
        }
    }
    let bit: u64 = if differing == 0 { 1 } else { 0 };
    let r = U256([bit, 0, 0, 0]);
    assert(r.limbs() =~= boolean_word(a@ == b@));
    r
}

/// The zero test as a canonical boolean word.
pub fn iszero_u256(a: U256) -> (r: U256)
    ensures
        r.limbs() == boolean_word(a@ == 0),
        r@ == (if a@ == 0 { 1nat } else { 0nat }),
{
    let bit: u64 = if is_zero_u256(a) { 1 } else { 0 };
    let r = U256([bit, 0, 0, 0]);
    assert(r.limbs() =~= boolean_word(a@ == 0));
    r
}

/// Bitwise and, limb by limb.
pub fn and_u256(a: U256, b: U256) -> (r: U256)
    ensures
        forall|i: int| 0 <= i < 4 ==> r.limbs()[i] == a.limbs()[i] & b.limbs()[i],
{
    U256([a.0[0] & b.0[0], a.0[1] & b.0[1], a.0[2] & b.0[2], a.0[3] & b.0[3]])
}

/// Bitwise or, limb by limb.
pub fn or_u256(a: U256, b: U256) -> (r: U256)
    ensures
        forall|i: int| 0 <= i < 4 ==> r.limbs()[i] == a.limbs()[i] | b.limbs()[i],
{
    U256([a.0[0] | b.0[0], a.0[1] | b.0[1], a.0[2] | b.0[2], a.0[3] | b.0[3]])
}

/// Bitwise exclusive or, limb by limb.
pub fn xor_u256(a: U256, b: U256) -> (r: U256)
    ensures
        forall|i: int| 0 <= i < 4 ==> r.limbs()[i] == a.limbs()[i] ^ b.limbs()[i],
{
    U256([a.0[0] ^ b.0[0], a.0[1] ^ b.0[1], a.0[2] ^ b.0[2], a.0[3] ^ b.0[3]])
}

/// Bitwise complement, limb by limb.
pub fn not_u256(value: U256) -> (r: U256)
    ensures
        forall|i: int| 0 <= i < 4 ==> r.limbs()[i] == !value.limbs()[i],
{
    U256([!value.0[0], !value.0[1], !value.0[2], !value.0[3]])
}

/// Of two values, exactly one of these holds: the first is greater than
/// the second, the second is greater than the first, or their equality
/// word is the word for true.
pub proof fn lemma_order_is_total(a: U256, b: U256)
    ensures
        (a@ > b@) || (b@ > a@) || boolean_word(a@ == b@) == boolean_word(true),
        !((a@ > b@) && (b@ > a@)),
        !((a@ > b@) && boolean_word(a@ == b@) == boolean_word(true)),
        !((b@ > a@) && boolean_word(a@ == b@) == boolean_word(true)),
        (boolean_word(a@ == b@) == boolean_word(true)) == (a == b),
{
    assert(boolean_word(false)[0] == 0u64);
    assert(boolean_word(true)[0] == 1u64);
    if a@ == b@ {
        lemma_value_determines_limbs(a, b);
    }
}

} // verus!
