//! Schoolbook multiplication over limb sequences, and the 256-bit product
//! that keeps its low four limbs.
use vstd::prelude::*;
use vstd::arithmetic::div_mod::lemma_fundamental_div_mod_converse;
use crate::arith::wrapped_product;
use crate::limbs::split;
use crate::value::{limb_base, limbs_to_nat, modulus, U256};

verus! {

/// The weight of limb `k`: 2^(64 k).
pub open spec fn base_pow(k: nat) -> nat
    decreases k,
{
    if k == 0 {
        1
    } else {
        (limb_base() * base_pow((k - 1) as nat)) as nat
    }
}

/// The number that a sequence of limbs stands for, least significant first.
pub open spec fn limbs_value(s: Seq<u64>) -> nat
    decreases s.len(),
{
    if s.len() == 0 {
        0
    } else {
        (limbs_value(s.drop_last()) + s.last() * base_pow((s.len() - 1) as nat)) as nat
    }
}

/// Taking one more limb adds that limb at its weight.
pub proof fn lemma_value_push(s: Seq<u64>, k: int)
    requires
        0 <= k < s.len(),
    ensures
        limbs_value(s.take(k + 1)) == limbs_value(s.take(k)) + s[k] * base_pow(k as nat),
{
    assert(s.take(k + 1).drop_last() =~= s.take(k));
}

/// A sequence of limbs stands for a number below the weight of the limb
/// that would follow it.
pub proof fn lemma_value_bound(s: Seq<u64>)
    ensures
        limbs_value(s) < base_pow(s.len()),
    decreases s.len(),
{
    if s.len() > 0 {
        lemma_value_bound(s.drop_last());
        let p = base_pow((s.len() - 1) as nat) as int;
        let low = limbs_value(s.drop_last()) as int;
        let top = s.last() as int;
        assert(low + top * p < limb_base() * p) by (nonlinear_arith)
            requires
                0 <= low < p,
                0 <= top < limb_base(),
        ;
    }
}

/// The first four limbs of a sequence stand for the same number as the
/// packed value that holds them.
pub proof fn lemma_value_of_four(s: Seq<u64>)
    requires
        s.len() >= 4,
    ensures
        limbs_value(s.take(4)) == limbs_to_nat(s[0], s[1], s[2], s[3]),
        base_pow(4) == modulus(),
{
    lemma_value_push(s, 0);
    lemma_value_push(s, 1);
    lemma_value_push(s, 2);
    lemma_value_push(s, 3);
    assert(limbs_value(s.take(0)) == 0);
    reveal_with_fuel(base_pow, 5);
    let b = limb_base();
    assert(base_pow(0) == 1);
    assert(base_pow(1) == b);
    assert(base_pow(2) == b * b);
    assert(base_pow(3) == b * b * b);
    assert(base_pow(4) == b * b * b * b);
    let w1 = base_pow(1) as int;
    let w2 = base_pow(2) as int;
    let w3 = base_pow(3) as int;
    assert(s[0] * 1 + s[1] * w1 + s[2] * w2 + s[3] * w3 == s[0] + b * (s[1] + b * (s[2] + b
        * s[3]))) by (nonlinear_arith)
        requires
            w1 == b,
            w2 == b * b,
            w3 == b * b * b,
    ;
}

proof fn lemma_column_step(
    before: int,
    carry: int,
    weight: int,
    total: int,
    term: int,
    lo: int,
    hi: int,
)
    requires
        before + carry * weight == total,
        lo + hi * limb_base() == term + carry,
    ensures
        before + lo * weight + hi * (limb_base() * weight) == total + term * weight,
{
    assert((lo + hi * limb_base()) * weight == lo * weight + hi * (limb_base() * weight))
        by (nonlinear_arith);
    assert((term + carry) * weight == term * weight + carry * weight) by (nonlinear_arith);
}

/// The full 128-bit product of two 64-bit numbers.
pub fn mul_u64(a: u64, b: u64) -> (r: u128)
    ensures
        r == a * b,
        r <= 0xffff_ffff_ffff_fffe_0000_0000_0000_0001,
{
    assert(a * b <= 0xffff_ffff_ffff_fffe_0000_0000_0000_0001) by (nonlinear_arith)
        requires
            0 <= a <= 0xffff_ffff_ffff_ffff,
            0 <= b <= 0xffff_ffff_ffff_ffff,
    ;
    (a as u128) * (b as u128)
}

/// One row of the product: multiplies the low `num_limbs` limbs of `a` by
/// the digit `b`, adds the low `num_limbs` limbs of `r`, and writes the
/// lowest limb of the sum to `c[i]` and the limbs above it to `rp`.
fn mul_diagc(
    num_limbs: usize,
    i: usize,
    a: &[u64],
    b: u64,
    r: &[u64],
    rp: &mut [u64],
    c: &mut [u64],
)
    requires
        1 <= num_limbs <= a@.len(),
        num_limbs <= r@.len(),
        num_limbs <= old(rp)@.len(),
        i < old(c)@.len(),
    ensures
        final(rp)@.len() == old(rp)@.len(),
        final(c)@.len() == old(c)@.len(),
        forall|k: int| 0 <= k < old(c)@.len() && k != i ==> final(c)@[k] == old(c)@[k],
        final(c)@[i as int] + limb_base() * limbs_value(final(rp)@.take(num_limbs as int))
            == limbs_value(a@.take(num_limbs as int)) * b + limbs_value(r@.take(num_limbs as int)),
{
    let first: u128 = mul_u64(a[0], b) + (r[0] as u128);
    let (lowest, first_carry): (u64, u64) = split(first);
    c[i] = lowest;
    let mut carry: u64 = first_carry;
    let mut j: usize = 1;
    proof {
        lemma_value_push(a@, 0);
        lemma_value_push(r@, 0);
        assert(limbs_value(a@.take(0)) == 0);
        assert(limbs_value(r@.take(0)) == 0);
        assert(limbs_value(rp@.take(0)) == 0);
        reveal_with_fuel(base_pow, 2);
        let a0 = a@[0] as int;
        assert(a0 * 1 * b == a0 * b) by (nonlinear_arith);
        assert(carry * base_pow(1) == carry * limb_base()) by (nonlinear_arith)
            requires
                base_pow(1) == limb_base(),
        ;
    }
    while j < num_limbs
        invariant
            1 <= j <= num_limbs <= a@.len(),
            num_limbs <= r@.len(),
            num_limbs <= rp@.len(),
            rp@.len() == old(rp)@.len(),
            c@.len() == old(c)@.len(),
            i < c@.len(),
            forall|k: int| 0 <= k < c@.len() && k != i ==> c@[k] == old(c)@[k],
            c@[i as int] + limb_base() * limbs_value(rp@.take(j - 1)) + carry * base_pow(j as nat)
                == limbs_value(a@.take(j as int)) * b + limbs_value(r@.take(j as int)),
        decreases num_limbs - j,
    {
        let ghost before_rp = rp@;
        let product: u128 = mul_u64(a[j], b);
        let column: u128 = product + (r[j] as u128) + (carry as u128);
        let (lo, hi): (u64, u64) = split(column);
        rp[j - 1] = lo;
        proof {
            let weight = base_pow(j as nat) as int;
            let below = base_pow((j - 1) as nat) as int;
            let kept = limbs_value(before_rp.take(j - 1)) as int;
            assert(rp@.take(j - 1) =~= before_rp.take(j - 1));
            lemma_value_push(rp@, j - 1);
            lemma_value_push(a@, j as int);
            lemma_value_push(r@, j as int);
            assert(weight == limb_base() * below);
            assert(base_pow((j + 1) as nat) == limb_base() * weight);
            let before = c@[i as int] + limb_base() * kept;
            let total = limbs_value(a@.take(j as int)) * b + limbs_value(r@.take(j as int));
            lemma_column_step(
                before,
                carry as int,
                weight,
                total,
                product + r@[j as int],
                lo as int,
                hi as int,
            );
            assert(limb_base() * (kept + lo * below) == limb_base() * kept + lo * weight)
                by (nonlinear_arith)
                requires
                    weight == limb_base() * below,
            ;
            let prefix = limbs_value(a@.take(j as int)) as int;
            let digit = a@[j as int] as int;
            assert((prefix + digit * weight) * b + 0 == prefix * b + (digit * b) * weight)
                by (nonlinear_arith);
            assert((product + r@[j as int]) * weight == (digit * b) * weight + r@[j as int]
                * weight) by (nonlinear_arith)
                requires
                    product == digit * b,
            ;
        }
        carry = hi;
        j += 1;
    }
    let ghost before_rp = rp@;
    rp[num_limbs - 1] = carry;
    proof {
        let n = num_limbs as int;
        let below = base_pow((n - 1) as nat) as int;
        let kept = limbs_value(before_rp.take(n - 1)) as int;
        assert(rp@.take(n - 1) =~= before_rp.take(n - 1));
        lemma_value_push(rp@, n - 1);
        assert(base_pow(n as nat) == limb_base() * below);
        assert(limb_base() * (kept + carry * below) == limb_base() * kept + carry * (limb_base()
            * below)) by (nonlinear_arith);
    }
}

/// The first row of the product: multiplies the low `num_limbs` limbs of
/// `a` by the digit `b` and writes the lowest limb of the result to `c[i]`
/// and the limbs above it to `r`.
fn mul_diag(num_limbs: usize, i: usize, a: &[u64], b: u64, r: &mut [u64], c: &mut [u64])
    requires
        1 <= num_limbs <= a@.len(),
        num_limbs <= old(r)@.len(),
        i < old(c)@.len(),
    ensures
        final(r)@.len() == old(r)@.len(),
        final(c)@.len() == old(c)@.len(),
        forall|k: int| 0 <= k < old(c)@.len() && k != i ==> final(c)@[k] == old(c)@[k],
        final(c)@[i as int] + limb_base() * limbs_value(final(r)@.take(num_limbs as int))
            == limbs_value(a@.take(num_limbs as int)) * b,
{
    let first: u128 = mul_u64(a[0], b);
    let (lowest, first_carry): (u64, u64) = split(first);
    c[i] = lowest;
    let mut carry: u64 = first_carry;
    let mut j: usize = 1;
    proof {
        lemma_value_push(a@, 0);
        assert(limbs_value(a@.take(0)) == 0);
        assert(limbs_value(r@.take(0)) == 0);
        reveal_with_fuel(base_pow, 2);
        let a0 = a@[0] as int;
        assert(a0 * 1 * b == a0 * b) by (nonlinear_arith);
        assert(carry * base_pow(1) == carry * limb_base()) by (nonlinear_arith)
            requires
                base_pow(1) == limb_base(),
        ;
    }
    while j < num_limbs
        invariant
            1 <= j <= num_limbs <= a@.len(),
            num_limbs <= r@.len(),
            r@.len() == old(r)@.len(),
            c@.len() == old(c)@.len(),
            i < c@.len(),
            forall|k: int| 0 <= k < c@.len() && k != i ==> c@[k] == old(c)@[k],
            c@[i as int] + limb_base() * limbs_value(r@.take(j - 1)) + carry * base_pow(j as nat)
                == limbs_value(a@.take(j as int)) * b,
        decreases num_limbs - j,
    {
        let ghost before_r = r@;
        let product: u128 = mul_u64(a[j], b);
        let column: u128 = product + (carry as u128);
        let (lo, hi): (u64, u64) = split(column);
        r[j - 1] = lo;
        proof {
            let weight = base_pow(j as nat) as int;
            let below = base_pow((j - 1) as nat) as int;
            let kept = limbs_value(before_r.take(j - 1)) as int;
            assert(r@.take(j - 1) =~= before_r.take(j - 1));
            lemma_value_push(r@, j - 1);
            lemma_value_push(a@, j as int);
            assert(weight == limb_base() * below);
            assert(base_pow((j + 1) as nat) == limb_base() * weight);
            let before = c@[i as int] + limb_base() * kept;
            let total = limbs_value(a@.take(j as int)) * b;
            lemma_column_step(
                before,
                carry as int,
                weight,
                total,
                product as int,
                lo as int,
                hi as int,
            );
            assert(limb_base() * (kept + lo * below) == limb_base() * kept + lo * weight)
                by (nonlinear_arith)
                requires
                    weight == limb_base() * below,
            ;
            let prefix = limbs_value(a@.take(j as int)) as int;
            let digit = a@[j as int] as int;
            assert((prefix + digit * weight) * b + 0 == prefix * b + (digit * b) * weight)
                by (nonlinear_arith);
        }
        carry = hi;
        j += 1;
    }
    let ghost before_r = r@;
    r[num_limbs - 1] = carry;
    proof {
        let n = num_limbs as int;
        let below = base_pow((n - 1) as nat) as int;
        let kept = limbs_value(before_r.take(n - 1)) as int;
        assert(r@.take(n - 1) =~= before_r.take(n - 1));
        lemma_value_push(r@, n - 1);
        assert(base_pow(n as nat) == limb_base() * below);
        assert(limb_base() * (kept + carry * below) == limb_base() * kept + carry * (limb_base()
            * below)) by (nonlinear_arith);
    }
}

/// The full product of two numbers of `num_limbs` limbs each: the low half
/// in `c[0 .. num_limbs]`, the high half in `c[num_limbs .. 2 * num_limbs]`.
fn mul_limbs(num_limbs: usize, a: &[u64], b: &[u64], c: &mut [u64])
    requires
        1 <= num_limbs <= 4,
        num_limbs <= a@.len(),
        num_limbs <= b@.len(),
        2 * num_limbs <= old(c)@.len(),
    ensures
        final(c)@.len() == old(c)@.len(),
        limbs_value(final(c)@.take(num_limbs as int)) + base_pow(num_limbs as nat) * limbs_value(
            final(c)@.subrange(num_limbs as int, 2 * num_limbs),
        ) == limbs_value(a@.take(num_limbs as int)) * limbs_value(b@.take(num_limbs as int)),
{
    let mut r: [u64; 8] = [0u64; 8];
    let mut rp: [u64; 8] = [0u64; 8];
    mul_diag(num_limbs, 0, a, b[0], &mut r, c);
    let mut i: usize = 1;
    proof {
        let n = num_limbs as int;
        lemma_value_push(c@, 0);
        lemma_value_push(b@, 0);
        assert(limbs_value(c@.take(0)) == 0);
        assert(limbs_value(b@.take(0)) == 0);
        reveal_with_fuel(base_pow, 2);
        let high = limbs_value(r@.take(n)) as int;
        let whole = limbs_value(a@.take(n)) as int;
        let digit = b@[0] as int;
        let low = c@[0] as int;
        assert(low * 1 + high * limb_base() == whole * (digit * 1)) by (nonlinear_arith)
            requires
                low + limb_base() * high == whole * digit,
        ;
    }
    while i < num_limbs
        invariant
            1 <= i <= num_limbs <= 4,
            num_limbs <= a@.len(),
            num_limbs <= b@.len(),
            2 * num_limbs <= c@.len(),
            c@.len() == old(c)@.len(),
            limbs_value(c@.take(i as int)) + limbs_value(r@.take(num_limbs as int)) * base_pow(
                i as nat,
            ) == limbs_value(a@.take(num_limbs as int)) * limbs_value(b@.take(i as int)),
        decreases num_limbs - i,
    {
        let ghost before_c = c@;
        mul_diagc(num_limbs, i, a, b[i], &r, &mut rp, c);
        proof {
            let n = num_limbs as int;
            let weight = base_pow(i as nat) as int;
            assert(c@.take(i as int) =~= before_c.take(i as int));
            lemma_value_push(c@, i as int);
            lemma_value_push(b@, i as int);
            assert(base_pow((i + 1) as nat) == limb_base() * weight);
            let low = limbs_value(before_c.take(i as int)) as int;
            let old_high = limbs_value(r@.take(n)) as int;
            let new_high = limbs_value(rp@.take(n)) as int;
            let whole = limbs_value(a@.take(n)) as int;
            let digits = limbs_value(b@.take(i as int)) as int;
            let digit = b@[i as int] as int;
            let lowest = c@[i as int] as int;
            assert(low + lowest * weight + new_high * (limb_base() * weight) == whole * (digits
                + digit * weight)) by (nonlinear_arith)
                requires
                    low + old_high * weight == whole * digits,
                    lowest + limb_base() * new_high == whole * digit + old_high,
            ;
        }
        let mut j: usize = 0;
        while j < num_limbs
            invariant
                j <= num_limbs <= 4,
                forall|k: int| 0 <= k < j ==> r@[k] == rp@[k],
            decreases num_limbs - j,
        {
            r[j] = rp[j];
            j += 1;
        }
        assert(r@.take(num_limbs as int) =~= rp@.take(num_limbs as int));
        i += 1;
    }
    let ghost low_c = c@;
    let mut k: usize = 0;
    while k < num_limbs
        invariant
            k <= num_limbs <= 4,
            2 * num_limbs <= c@.len(),
            c@.len() == old(c)@.len(),
            forall|j: int| 0 <= j < num_limbs ==> c@[j] == low_c[j],
            forall|j: int| 0 <= j < k ==> c@[num_limbs + j] == r@[j],
        decreases num_limbs - k,
    {
        c[num_limbs + k] = r[k];
        k += 1;
    }
    proof {
        let n = num_limbs as int;
        assert(c@.take(n) =~= low_c.take(n));
        assert(c@.subrange(n, 2 * n) =~= r@.take(n));
        let high = limbs_value(r@.take(n)) as int;
        let weight = base_pow(n as nat) as int;
        assert(high * weight == weight * high) by (nonlinear_arith);
    }
}

/// The product of two values modulo 2^256.
pub fn mul_u256(a: U256, b: U256) -> (r: U256)
    ensures
        r@ == wrapped_product(a@, b@),
{
    let mut c: [u64; 8] = [0u64; 8];
    mul_limbs(4, &a.0, &b.0, &mut c);
    let r = U256([c[0], c[1], c[2], c[3]]);
    proof {
        lemma_value_of_four(a.0@);
        lemma_value_of_four(b.0@);
        lemma_value_of_four(c@);
        let high = limbs_value(c@.subrange(4, 8)) as int;
        let weight = base_pow(4) as int;
        assert(weight * high == high * modulus()) by (nonlinear_arith)
            requires
                weight == modulus(),
        ;
        assert(a.0@.take(4) =~= a.0@);
        lemma_fundamental_div_mod_converse((a@ * b@) as int, modulus(), high, r@ as int);
    }
    r
}

} // verus!
