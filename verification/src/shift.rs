//! Logical left shift by a 256-bit count.
use vstd::prelude::*;
use vstd::arithmetic::div_mod::{
    lemma_fundamental_div_mod_converse, lemma_mul_mod_noop_left, lemma_small_mod,
};
use vstd::arithmetic::mul::lemma_mul_is_associative;
use vstd::arithmetic::power2::{lemma2_to64, lemma_pow2_adds, lemma_pow2_strictly_increases, pow2};
use vstd::bits::lemma_u64_shl_is_mul;
use crate::bitwise::is_zero_u256;
use crate::value::{limb_base, modulus, U256};

verus! {

/// The value shifted left by `count` bits, keeping the low 256 bits; zero
/// when `count` is 256 or more.
pub open spec fn shifted_left(count: nat, value: nat) -> nat {
    if count >= 256 {
        0
    } else {
        (((value * pow2(count)) as int) % modulus()) as nat
    }
}

/// What a 64-bit lane keeps when shifted left by `s`; nothing when `s` is 64.
pub open spec fn lane_kept(x: u64, s: u64) -> u64 {
    if s >= 64 {
        0u64
    } else {
        x << s
    }
}

/// What a 64-bit lane hands to the next lane when shifted left by `s`,
/// where `back` is `64 - s`.
pub open spec fn lane_carried(x: u64, back: u64) -> u64 {
    if back >= 64 {
        0u64
    } else {
        x >> back
    }
}

fn shift_lane_left(x: u64, s: u64) -> (r: u64)
    ensures
        r == lane_kept(x, s),
{
    if s >= 64 {
        0
    } else {
        x << s
    }
}

fn shift_lane_right(x: u64, back: u64) -> (r: u64)
    ensures
        r == lane_carried(x, back),
{
    if back >= 64 {
        0
    } else {
        x >> back
    }
}

proof fn lemma_lane_parts(x: u64, s: u64, back: u64, m: u64)
    by (bit_vector)
    requires
        0 < s < 64,
        back == 64 - s,
        m == 1u64 << s,
    ensures
        (x as u128) * (m as u128) == ((x >> back) as u128) * 0x1_0000_0000_0000_0000u128 + ((x
            << s) as u128),
{
}

proof fn lemma_lane_merge(x: u64, y: u64, s: u64, back: u64)
    by (bit_vector)
    requires
        s <= 64,
        back == 64 - s,
    ensures
        ((if s >= 64 {
            0u64
        } else {
            x << s
        }) | (if back >= 64 {
            0u64
        } else {
            y >> back
        })) == (if s >= 64 {
            0u64
        } else {
            x << s
        }) + (if back >= 64 {
            0u64
        } else {
            y >> back
        }),
{
}

proof fn lemma_lane_product(x: u64, s: u64, back: u64)
    requires
        s <= 64,
        back == 64 - s,
    ensures
        x * pow2(s as nat) == lane_carried(x, back) * limb_base() + lane_kept(x, s),
{
    lemma2_to64();
    if 0 < s < 64 {
        lemma_pow2_strictly_increases(s as nat, 64);
        lemma_u64_shl_is_mul(1, s);
        lemma_lane_parts(x, s, back, 1u64 << s);
        let m = 1u64 << s;
        assert(x * pow2(s as nat) == (x as u128) * (m as u128)) by (nonlinear_arith)
            requires
                m == pow2(s as nat),
        ;
    } else {
        assert(x << 0 == x && x >> 0 == x) by (bit_vector);
        let p = pow2(s as nat) as int;
        assert(x * p == if s == 0 { x as int } else { x * limb_base() }) by (nonlinear_arith)
            requires
                p == if s == 0 { 1 } else { limb_base() },
        ;
    }
}

/// One pass: every lane moves left by `s` bits, at most 64, and takes in
/// what the lane below it shifted out.
fn shift_pass(temp: U256, s: u64) -> (r: U256)
    requires
        s <= 64,
    ensures
        r@ == (temp@ * pow2(s as nat)) % (modulus() as nat),
{
    let back: u64 = 64 - s;
    let l0: u64 = temp.0[0];
    let l1: u64 = temp.0[1];
    let l2: u64 = temp.0[2];
    let l3: u64 = temp.0[3];
    let k0: u64 = shift_lane_left(l0, s);
    let k1: u64 = shift_lane_left(l1, s);
    let k2: u64 = shift_lane_left(l2, s);
    let k3: u64 = shift_lane_left(l3, s);
    let c0: u64 = shift_lane_right(l0, back);
    let c1: u64 = shift_lane_right(l1, back);
    let c2: u64 = shift_lane_right(l2, back);
    let c3: u64 = shift_lane_right(l3, back);
    let r = U256([k0, k1 | c0, k2 | c1, k3 | c2]);
    proof {
        let p = pow2(s as nat) as int;
        lemma_lane_product(l0, s, back);
        lemma_lane_product(l1, s, back);
        lemma_lane_product(l2, s, back);
        lemma_lane_product(l3, s, back);
        lemma_lane_merge(l1, l0, s, back);
        lemma_lane_merge(l2, l1, s, back);
        lemma_lane_merge(l3, l2, s, back);
        let b = limb_base();
        assert((l0 + b * (l1 + b * (l2 + b * l3))) * p == l0 * p + b * (l1 * p + b * (l2 * p + b
            * (l3 * p)))) by (nonlinear_arith);
        assert(temp@ * p == c3 * modulus() + r@);
        lemma_fundamental_div_mod_converse(temp@ * p, modulus(), c3 as int, r@ as int);
    }
    r
}

/// Shifts `value` left by `count` bits. A count of 256 or more gives zero;
/// otherwise the shift runs in four passes of at most 64 bits each.
pub fn shl_u256(count: U256, value: U256) -> (r: U256)
    ensures
        r@ == shifted_left(count@, value@),
{
    let low: u64 = count.0[0] & 0xff;
    let high: u64 = count.0[0] & !0xffu64;
    let hi248: U256 = U256([high, count.0[1], count.0[2], count.0[3]]);
    let small: bool = is_zero_u256(hi248);
    proof {
        let c0: u64 = count.0[0];
        assert((c0 & 0xff) <= 255 && (c0 & 0xff) + (c0 & !0xffu64) == c0 && ((c0 & !0xffu64) == 0
            <==> c0 < 256)) by (bit_vector);
        assert(small == (count@ < 256));
        lemma2_to64();
        assert((value@ * pow2(0)) % (modulus() as nat) == value@);
    }
    let mut temp: U256 = value;
    let mut current: u64 = low;
    let mut i: usize = 0;
    while i < 4
        invariant
            i <= 4,
            low <= 255,
            current <= low,
            current == 0 || current == low - 64 * i,
            temp@ == (value@ * pow2((low - current) as nat)) % (modulus() as nat),
        decreases 4 - i,
    {
        let slcount: u64 = if current < 64 { current } else { 64 };
        let next: U256 = shift_pass(temp, slcount);
        proof {
            let done = (low - current) as nat;
            let x = (value@ * pow2(done)) as int;
            let p = pow2(slcount as nat) as int;
            lemma_mul_mod_noop_left(x, p, modulus());
            lemma_mul_is_associative(value@ as int, pow2(done) as int, p);
            lemma_pow2_adds(done, slcount as nat);
        }
        temp = next;
        current = current - slcount;
        i += 1;
    }
    let gate: u64 = if small { u64::MAX } else { 0 };
    let t0: u64 = temp.0[0];
    let t1: u64 = temp.0[1];
    let t2: u64 = temp.0[2];
    let t3: u64 = temp.0[3];
    assert((t0 & u64::MAX) == t0 && (t1 & u64::MAX) == t1 && (t2 & u64::MAX) == t2 && (t3
        & u64::MAX) == t3 && (t0 & 0) == 0 && (t1 & 0) == 0 && (t2 & 0) == 0 && (t3 & 0) == 0)
        by (bit_vector);
    let r = U256([t0 & gate, t1 & gate, t2 & gate, t3 & gate]);
    proof {
        if small {
            assert(r.0@ =~= temp.0@);
            assert(count@ == low);
        } else {
            assert(r@ == 0);
        }
    }
    r
}

/// A shift by zero bits changes nothing.
pub proof fn lemma_shift_by_zero(value: U256)
    ensures
        shifted_left(0, value@) == value@,
{
    lemma2_to64();
    lemma_small_mod(value@, modulus() as nat);
}

/// A shift by 256 bits or more gives zero.
pub proof fn lemma_shift_out(count: U256, value: U256)
    requires
        count@ >= 256,
    ensures
        shifted_left(count@, value@) == 0,
{
}

} // verus!
