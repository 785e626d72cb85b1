//! The byte layout of a 256-bit value: 32 bytes, least significant first,
//! eight to a limb.
use vstd::prelude::*;
use crate::value::U256;

verus! {

/// Byte `k` of a limb, counted from its least significant byte.
pub open spec fn limb_byte(x: u64, k: int) -> u8 {
    ((x >> ((8 * k) as u64)) & 0xff) as u8
}

/// The limb whose eight bytes are `s[at] .. s[at + 8]`, least significant
/// first.
pub open spec fn limb_of_bytes(s: Seq<u8>, at: int) -> u64 {
    (s[at] as u64) | ((s[at + 1] as u64) << 8) | ((s[at + 2] as u64) << 16) | ((s[at + 3] as u64)
        << 24) | ((s[at + 4] as u64) << 32) | ((s[at + 5] as u64) << 40) | ((s[at + 6] as u64)
        << 48) | ((s[at + 7] as u64) << 56)
}

/// The value whose 32 bytes are `s[at] .. s[at + 32]`, least significant
/// first.
pub open spec fn loaded(s: Seq<u8>, at: int) -> U256 {
    U256(
        [
            limb_of_bytes(s, at),
            limb_of_bytes(s, at + 8),
            limb_of_bytes(s, at + 16),
            limb_of_bytes(s, at + 24),
        ],
    )
}

/// The memory `mem` after the 32 bytes of `value` were written at `at`.
pub open spec fn stored(mem: Seq<u8>, at: int, value: U256) -> Seq<u8> {
    Seq::new(
        mem.len(),
        |i: int|
            if at <= i < at + 32 {
                value.byte(i - at)
            } else {
                mem[i]
            },
    )
}

impl U256 {
    /// Byte `i` of the value, counted from its least significant byte.
    pub open spec fn byte(self, i: int) -> u8 {
        limb_byte(self.0[i / 8], i % 8)
    }

    /// The 32 bytes of the value, least significant first.
    pub open spec fn bytes(self) -> Seq<u8> {
        Seq::new(32, |i: int| self.byte(i))
    }
}

/// A limb is the limb of its own eight bytes.
pub proof fn lemma_limb_bytes_round_trip(x: u64)
    ensures
        limb_of_bytes(Seq::new(8, |k: int| limb_byte(x, k)), 0) == x,
{
    assert((((x >> 0) & 0xff) as u8 as u64) | ((((x >> 8) & 0xff) as u8 as u64) << 8) | ((((x
        >> 16) & 0xff) as u8 as u64) << 16) | ((((x >> 24) & 0xff) as u8 as u64) << 24) | ((((x
        >> 32) & 0xff) as u8 as u64) << 32) | ((((x >> 40) & 0xff) as u8 as u64) << 40) | ((((x
        >> 48) & 0xff) as u8 as u64) << 48) | ((((x >> 56) & 0xff) as u8 as u64) << 56) == x)
        by (bit_vector);
}

/// Byte `k` of the limb of eight bytes is the `k`-th of them.
pub proof fn lemma_limb_of_bytes(s: Seq<u8>, at: int)
    requires
        0 <= at,
        at + 8 <= s.len(),
    ensures
        forall|k: int| 0 <= k < 8 ==> limb_byte(limb_of_bytes(s, at), k) == s[at + k],
{
    let b0 = s[at];
    let b1 = s[at + 1];
    let b2 = s[at + 2];
    let b3 = s[at + 3];
    let b4 = s[at + 4];
    let b5 = s[at + 5];
    let b6 = s[at + 6];
    let b7 = s[at + 7];
    let x = limb_of_bytes(s, at);
    assert(((x >> 0) & 0xff) as u8 == b0 && ((x >> 8) & 0xff) as u8 == b1 && ((x >> 16) & 0xff) as u8
        == b2 && ((x >> 24) & 0xff) as u8 == b3 && ((x >> 32) & 0xff) as u8 == b4 && ((x >> 40)
        & 0xff) as u8 == b5 && ((x >> 48) & 0xff) as u8 == b6 && ((x >> 56) & 0xff) as u8 == b7)
        by (bit_vector)
        requires
            x == (b0 as u64) | ((b1 as u64) << 8) | ((b2 as u64) << 16) | ((b3 as u64) << 24) | ((
            b4 as u64) << 32) | ((b5 as u64) << 40) | ((b6 as u64) << 48) | ((b7 as u64) << 56),
    ;
}

/// Byte `i` of a value read from memory is the `i`-th byte read.
pub proof fn lemma_loaded_byte(s: Seq<u8>, at: int)
    requires
        0 <= at,
        at + 32 <= s.len(),
    ensures
        forall|i: int| 0 <= i < 32 ==> loaded(s, at).byte(i) == s[at + i],
        loaded(s, at).bytes() == s.subrange(at, at + 32),
{
    lemma_limb_of_bytes(s, at);
    lemma_limb_of_bytes(s, at + 8);
    lemma_limb_of_bytes(s, at + 16);
    lemma_limb_of_bytes(s, at + 24);
    let v = loaded(s, at);
    assert forall|i: int| 0 <= i < 32 implies v.byte(i) == s[at + i] by {
        let j = i / 8;
        let k = i % 8;
        assert(v.byte(i) == limb_byte(v.0[j], k));
        assert(limb_byte(limb_of_bytes(s, at + 8 * j), k) == s[at + 8 * j + k]);
    }
    assert(v.bytes() =~= s.subrange(at, at + 32));
}

/// A value is the value read from its own 32 bytes.
pub proof fn lemma_bytes_round_trip(value: U256)
    ensures
        loaded(value.bytes(), 0) == value,
{
    let s = value.bytes();
    let r = loaded(s, 0);
    lemma_limb_bytes_round_trip(value.0[0]);
    lemma_limb_bytes_round_trip(value.0[1]);
    lemma_limb_bytes_round_trip(value.0[2]);
    lemma_limb_bytes_round_trip(value.0[3]);
    assert(r.0[0] == value.0[0]);
    assert(r.0[1] == value.0[1]);
    assert(r.0[2] == value.0[2]);
    assert(r.0[3] == value.0[3]);
    assert(r.0@ =~= value.0@);
    assert(r.0 =~= value.0);
}

/// Two values with the same 32 bytes are the same value.
pub proof fn lemma_bytes_determine_value(a: U256, b: U256)
    requires
        forall|i: int| 0 <= i < 32 ==> a.byte(i) == b.byte(i),
    ensures
        a == b,
{
    assert(a.bytes() =~= b.bytes());
    lemma_bytes_round_trip(a);
    lemma_bytes_round_trip(b);
}

} // verus!
