//! The packed form of a 256-bit unsigned integer and its mathematical model.
use vstd::prelude::*;

verus! {

/// The weight of one limb, 2^64.
#[verifier::inline]
pub open spec fn limb_base() -> int {
    0x1_0000_0000_0000_0000
}

/// The number of representable values, 2^256.
#[verifier::inline]
pub open spec fn modulus() -> int {
    0x1_0000_0000_0000_0000_0000_0000_0000_0000_0000_0000_0000_0000_0000_0000_0000_0000int
}

/// The weight of the upper half, 2^128.
#[verifier::inline]
pub open spec fn half_base() -> int {
    0x1_0000_0000_0000_0000_0000_0000_0000_0000int
}

/// The number that four limbs stand for, least significant limb first.
pub open spec fn limbs_to_nat(l0: u64, l1: u64, l2: u64, l3: u64) -> nat {
    (l0 + limb_base() * (l1 + limb_base() * (l2 + limb_base() * l3))) as nat
}

/// A 256-bit unsigned integer in packed form: four 64-bit limbs, least
/// significant first.
#[derive(Copy, Clone, Debug)]
pub struct U256(pub [u64; 4]);

impl View for U256 {
    type V = nat;

    /// The integer in `0 .. 2^256` that the limbs stand for.
    open spec fn view(&self) -> nat {
        limbs_to_nat(self.0[0], self.0[1], self.0[2], self.0[3])
    }
}

impl U256 {
    /// The limbs as a mathematical sequence of length four.
    pub open spec fn limbs(self) -> Seq<u64> {
        self.0@
    }

    /// The value with every limb zero.
    pub fn default() -> (r: U256)
        ensures
            r.limbs() == seq![0u64, 0u64, 0u64, 0u64],
            r@ == 0,
    {
        let r = U256([0, 0, 0, 0]);
        assert(r.limbs() =~= seq![0u64, 0u64, 0u64, 0u64]);
        r
    }

    /// Assembles a value from the first four entries of `value`, least
    /// significant first.
    pub fn from_slice(value: &[u64]) -> (r: U256)
        requires
            value@.len() >= 4,
        ensures
            r.limbs() == value@.subrange(0, 4),
    {
        let r = U256([value[0], value[1], value[2], value[3]]);
        assert(r.limbs() =~= value@.subrange(0, 4));
        r
    }

    /// The value of a 64-bit scalar: the low limb holds it, the others are zero.
    pub fn from_u64(value: u64) -> (r: U256)
        ensures
            r.limbs() == seq![value, 0u64, 0u64, 0u64],
            r@ == value,
    {
        let r = U256([value, 0, 0, 0]);
        assert(r.limbs() =~= seq![value, 0u64, 0u64, 0u64]);
        r
    }

    /// The least significant 64 bits.
    pub fn low_u64(&self) -> (r: u64)
        ensures
            r == self@ % (limb_base() as nat),
            r == self.limbs()[0],
    {
        self.0[0]
    }

    /// The least significant 128 bits.
    pub fn low_u128(&self) -> (r: u128)
        ensures
            r == self@ % (half_base() as nat),
            r == self.limbs()[0] + self.limbs()[1] * limb_base(),
    {
        let lo: u64 = self.0[0];
        let hi: u64 = self.0[1];
        crate::limbs::join(lo, hi)
    }

    /// Whether the value fits in 64 bits: the upper three limbs are zero.
    pub fn le_u64(&self) -> (r: bool)
        ensures
            r == (self@ < limb_base()),
    {
        self.0[1] == 0 && self.0[2] == 0 && self.0[3] == 0
    }
}

/// Two values with the same number have the same limbs.
pub proof fn lemma_value_determines_limbs(a: U256, b: U256)
    requires
        a@ == b@,
    ensures
        a == b,
{
    let v = a@ as int;
    assert(a.0[0] == v % limb_base());
    assert(b.0[0] == v % limb_base());
    let v1 = v / limb_base();
    assert(a.0[1] == v1 % limb_base());
    assert(b.0[1] == v1 % limb_base());
    let v2 = v1 / limb_base();
    assert(a.0[2] == v2 % limb_base());
    assert(b.0[2] == v2 % limb_base());
    assert(a.0@ =~= b.0@);
    assert(a.0 =~= b.0);
}

} // verus!
