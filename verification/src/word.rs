//! The register form of a 256-bit value. On the portable backend a register
//! is four 64-bit lanes laid out exactly as the limbs of the packed form, so
//! passing from one form to the other changes no bit.
use vstd::prelude::*;
use crate::value::{limbs_to_nat, U256};

verus! {

/// A 256-bit value in register form: four 64-bit lanes, least significant
/// first.
#[derive(Copy, Clone, Debug)]
pub struct Word(pub [u64; 4]);

impl View for Word {
    type V = nat;

    /// The integer in `0 .. 2^256` that the lanes stand for.
    open spec fn view(&self) -> nat {
        limbs_to_nat(self.0[0], self.0[1], self.0[2], self.0[3])
    }
}

impl Word {
    /// The lanes as a mathematical sequence of length four.
    pub open spec fn lanes(self) -> Seq<u64> {
        self.0@
    }

    /// The packed value with the same bits.
    pub open spec fn packed(self) -> U256 {
        U256(self.0)
    }

    /// The register value with the same bits as a packed value.
    pub open spec fn of_packed(value: U256) -> Word {
        Word(value.0)
    }

    /// Reinterprets the register as a packed value.
    pub fn as_u256(&self) -> (r: U256)
        ensures
            r == self.packed(),
            r.limbs() == self.lanes(),
            r@ == self@,
    {
        U256(self.0)
    }

    /// Fills a register from the first four entries of `value`, least
    /// significant first.
    pub fn from_slice(value: &[u64]) -> (r: Word)
        requires
            value@.len() >= 4,
        ensures
            r.lanes() == value@.subrange(0, 4),
    {
        let r = Word([value[0], value[1], value[2], value[3]]);
        assert(r.lanes() =~= value@.subrange(0, 4));
        r
    }

    /// The register holding a 64-bit scalar in its low lane.
    pub fn from_u64(value: u64) -> (r: Word)
        ensures
            r.lanes() == seq![value, 0u64, 0u64, 0u64],
            r@ == value,
    {
        let r = Word([value, 0, 0, 0]);
        assert(r.lanes() =~= seq![value, 0u64, 0u64, 0u64]);
        r
    }
}

/// Passing a packed value through register form gives back the same four
/// limbs.
pub proof fn lemma_packed_register_identity(value: U256)
    ensures
        Word::of_packed(value).packed() == value,
        Word::of_packed(value).packed().limbs() == value.limbs(),
        Word::of_packed(value).lanes() == value.limbs(),
{
}

/// Passing a register through packed form gives back the same four lanes.
pub proof fn lemma_register_packed_identity(word: Word)
    ensures
        Word::of_packed(word.packed()) == word,
        word.packed()@ == word@,
{
}

} // verus!
