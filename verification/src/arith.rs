//! Wrapping addition, subtraction and comparison of 256-bit values.
use vstd::prelude::*;
use vstd::arithmetic::div_mod::{
    lemma_add_mod_noop, lemma_add_mod_noop_right, lemma_fundamental_div_mod_converse,
    lemma_mul_mod_noop_right, lemma_small_mod, lemma_sub_mod_noop,
};
use vstd::arithmetic::mul::lemma_mul_is_distributive_add;
use crate::limbs::{join, split};
use crate::value::{half_base, limb_base, modulus, U256};
use crate::word::Word;

verus! {

/// The sum of two values modulo 2^256.
pub open spec fn wrapped_sum(a: nat, b: nat) -> nat {
    (((a + b) as int) % modulus()) as nat
}

/// The difference of two values modulo 2^256.
pub open spec fn wrapped_difference(a: nat, b: nat) -> nat {
    ((a - b) % modulus()) as nat
}

/// The product of two values modulo 2^256.
pub open spec fn wrapped_product(a: nat, b: nat) -> nat {
    (((a * b) as int) % modulus()) as nat
}

/// Adds two values. Returns the sum modulo 2^256 and whether the true sum
/// reached 2^256.
pub fn overflowing_add_u256(a: U256, b: U256) -> (r: (U256, bool))
    ensures
        r.0@ == wrapped_sum(a@, b@),
        r.1 == (a@ + b@ >= modulus()),
{
    let t0: u128 = (a.0[0] as u128) + (b.0[0] as u128);
    let (s0, c0): (u64, u64) = split(t0);
    let t1: u128 = (a.0[1] as u128) + (b.0[1] as u128) + (c0 as u128);
    let (s1, c1): (u64, u64) = split(t1);
    let t2: u128 = (a.0[2] as u128) + (b.0[2] as u128) + (c1 as u128);
    let (s2, c2): (u64, u64) = split(t2);
    let t3: u128 = (a.0[3] as u128) + (b.0[3] as u128) + (c2 as u128);
    let (s3, c3): (u64, u64) = split(t3);
    let sum = U256([s0, s1, s2, s3]);
    proof {
        assert(a@ + b@ == c3 * modulus() + sum@);
        lemma_fundamental_div_mod_converse((a@ + b@) as int, modulus(), c3 as int, sum@ as int);
    }
    (sum, c3 != 0)
}

/// The sum of two values modulo 2^256.
pub fn add_u256(a: U256, b: U256) -> (r: U256)
    ensures
        r@ == wrapped_sum(a@, b@),
{
    let (value, _) = overflowing_add_u256(a, b);
    value
}

/// Subtracts `b` from `a`. Returns the difference modulo 2^256 and whether
/// `a` is less than `b`.
pub fn overflowing_sub_u256(a: U256, b: U256) -> (r: (U256, bool))
    ensures
        r.0@ == wrapped_difference(a@, b@),
        r.1 == (a@ < b@),
{
    let alo: u128 = join(a.0[0], a.0[1]);
    let blo: u128 = join(b.0[0], b.0[1]);
    let ahi: u128 = join(a.0[2], a.0[3]);
    let bhi: u128 = join(b.0[2], b.0[3]);
    let lo: u128 = alo.wrapping_sub(blo);
    let borrowlo: bool = alo < blo;
    let carry: u128 = if borrowlo { 1 } else { 0 };
    let hi: u128 = ahi.wrapping_sub(bhi).wrapping_sub(carry);
    let borrow: bool = ahi < bhi || (ahi == bhi && borrowlo);
    let (d0, d1): (u64, u64) = split(lo);
    let (d2, d3): (u64, u64) = split(hi);
    let difference = U256([d0, d1, d2, d3]);
    proof {
        let q: int = if borrow { -1 } else { 0 };
        assert(a@ == alo + half_base() * ahi);
        assert(b@ == blo + half_base() * bhi);
        assert(difference@ == lo + half_base() * hi);
        assert(a@ - b@ == q * modulus() + difference@);
        lemma_fundamental_div_mod_converse(a@ - b@, modulus(), q, difference@ as int);
    }
    (difference, borrow)
}

/// The difference of two values modulo 2^256.
pub fn sub_u256(a: U256, b: U256) -> (r: U256)
    ensures
        r@ == wrapped_difference(a@, b@),
{
    let (value, _) = overflowing_sub_u256(a, b);
    value
}

/// Whether `a` is strictly greater than `b`.
pub fn gt_u256(a: U256, b: U256) -> (r: bool)
    ensures
        r == (a@ > b@),
{
    let alo: u128 = join(a.0[0], a.0[1]);
    let blo: u128 = join(b.0[0], b.0[1]);
    let ahi: u128 = join(a.0[2], a.0[3]);
    let bhi: u128 = join(b.0[2], b.0[3]);
    proof {
        assert(a@ == alo + half_base() * ahi);
        assert(b@ == blo + half_base() * bhi);
    }
    ahi > bhi || (ahi == bhi && alo > blo)
}

/// Subtracts a 64-bit amount from a register, lane by lane. Returns the
/// difference modulo 2^256 and whether the register held less than `amount`.
pub fn overflowing_sub_word(value: Word, amount: u64) -> (r: (Word, bool))
    ensures
        r.0@ == wrapped_difference(value@, amount as nat),
        r.1 == (value@ < amount),
{
    let temp0: u64 = value.0[0].wrapping_sub(amount);
    let borrow0: bool = value.0[0] < amount;
    let carry0: u64 = if borrow0 { 1 } else { 0 };
    let temp1: u64 = value.0[1].wrapping_sub(carry0);
    let borrow1: bool = value.0[1] < carry0;
    let carry1: u64 = if borrow1 { 1 } else { 0 };
    let temp2: u64 = value.0[2].wrapping_sub(carry1);
    let borrow2: bool = value.0[2] < carry1;
    let carry2: u64 = if borrow2 { 1 } else { 0 };
    let temp3: u64 = value.0[3].wrapping_sub(carry2);
    let borrow3: bool = value.0[3] < carry2;
    let difference = Word([temp0, temp1, temp2, temp3]);
    proof {
        let q: int = if borrow3 { -1 } else { 0 };
        assert(value@ - amount == q * modulus() + difference@);
        lemma_fundamental_div_mod_converse(value@ - amount, modulus(), q, difference@ as int);
    }
    (difference, borrow3)
}

/// Subtracts a 128-bit amount from a register, half by half. Returns the
/// difference modulo 2^256 and whether the register held less than `amount`.
pub fn overflowing_sub_word_u128(value: Word, amount: u128) -> (r: (Word, bool))
    ensures
        r.0@ == wrapped_difference(value@, amount as nat),
        r.1 == (value@ < amount),
{
    let valuelo: u128 = join(value.0[0], value.0[1]);
    let valuehi: u128 = join(value.0[2], value.0[3]);
    let templo: u128 = valuelo.wrapping_sub(amount);
    let borrowlo: bool = valuelo < amount;
    let carry: u128 = if borrowlo { 1 } else { 0 };
    let temphi: u128 = valuehi.wrapping_sub(carry);
    let borrowhi: bool = valuehi < carry;
    let (temp0, temp1): (u64, u64) = split(templo);
    let (temp2, temp3): (u64, u64) = split(temphi);
    let difference = Word([temp0, temp1, temp2, temp3]);
    proof {
        let q: int = if borrowhi { -1 } else { 0 };
        assert(value@ == valuelo + half_base() * valuehi);
        assert(difference@ == templo + half_base() * temphi);
        assert(value@ - amount == q * modulus() + difference@);
        lemma_fundamental_div_mod_converse(value@ - amount, modulus(), q, difference@ as int);
    }
    (difference, borrowhi)
}

/// Addition modulo 2^256 does not depend on the order of its operands.
pub proof fn lemma_add_commutative(a: U256, b: U256)
    ensures
        wrapped_sum(a@, b@) == wrapped_sum(b@, a@),
{
}

/// Addition modulo 2^256 does not depend on how three operands are grouped.
pub proof fn lemma_add_associative(a: U256, b: U256, c: U256)
    ensures
        wrapped_sum(wrapped_sum(a@, b@), c@) == wrapped_sum(a@, wrapped_sum(b@, c@)),
{
    let m = modulus();
    lemma_add_mod_noop_right(c@ as int, (a@ + b@) as int, m);
    lemma_add_mod_noop_right(a@ as int, (b@ + c@) as int, m);
}

/// Subtracting an operand from a sum gives back the other operand.
pub proof fn lemma_sub_undoes_add(a: U256, b: U256)
    ensures
        wrapped_difference(wrapped_sum(a@, b@), b@) == a@,
{
    let m = modulus();
    lemma_sub_mod_noop((a@ + b@) as int, b@ as int, m);
    lemma_small_mod(a@, m as nat);
    lemma_small_mod(b@, m as nat);
}

/// Multiplication modulo 2^256 distributes over addition modulo 2^256.
pub proof fn lemma_mul_distributes_over_add(a: U256, b: U256, c: U256)
    ensures
        wrapped_product(a@, wrapped_sum(b@, c@)) == wrapped_sum(
            wrapped_product(a@, b@),
            wrapped_product(a@, c@),
        ),
{
    let m = modulus();
    lemma_mul_mod_noop_right(a@ as int, (b@ + c@) as int, m);
    lemma_add_mod_noop((a@ * b@) as int, (a@ * c@) as int, m);
    lemma_mul_is_distributive_add(a@ as int, b@ as int, c@ as int);
}

/// Subtracting a 64-bit amount from a register gives the difference and
/// the borrow of the packed subtraction of the amount held in a low limb.
pub proof fn lemma_sub_word_matches_packed(value: Word, amount: u64, scalar: U256)
    requires
        scalar.limbs() == seq![amount, 0u64, 0u64, 0u64],
    ensures
        wrapped_difference(value@, amount as nat) == wrapped_difference(
            value.packed()@,
            scalar@,
        ),
        (value@ < amount) == (value.packed()@ < scalar@),
{
}

/// Subtracting a 128-bit amount from a register gives the difference and
/// the borrow of the packed subtraction of the amount held in the two low
/// limbs.
pub proof fn lemma_sub_word_u128_matches_packed(
    value: Word,
    amount: u128,
    low: u64,
    high: u64,
    scalar: U256,
)
    requires
        amount == low + limb_base() * high,
        scalar.limbs() == seq![low, high, 0u64, 0u64],
    ensures
        wrapped_difference(value@, amount as nat) == wrapped_difference(
            value.packed()@,
            scalar@,
        ),
        (value@ < amount) == (value.packed()@ < scalar@),
{
}

} // verus!
