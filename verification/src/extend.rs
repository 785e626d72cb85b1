//! Byte-order reversal and sign extension from a chosen byte.
use vstd::prelude::*;
use vstd::arithmetic::power2::lemma2_to64;
use crate::bitwise::is_ltpow2_u256;
use crate::bytes::{
    lemma_bytes_determine_value, lemma_bytes_round_trip, lemma_loaded_byte, limb_byte, loaded,
};
use crate::memory::{lane_mask, load_u256, store_u256};
use crate::value::{modulus, U256};

verus! {

/// The value with its 32 bytes in reverse order.
pub open spec fn byte_swapped(value: U256) -> U256 {
    loaded(Seq::new(32, |i: int| value.byte(31 - i)), 0)
}

/// The byte that fills the positions above a sign byte: all ones when bit 7
/// of the sign byte is set, zero otherwise.
pub open spec fn sign_fill(sign: u8) -> u8 {
    if sign >= 0x80 {
        0xffu8
    } else {
        0u8
    }
}

/// The bytes of `value` up to and including byte `index`, followed by
/// copies of the fill of byte `index`.
pub open spec fn sign_extended_bytes(index: int, value: U256) -> Seq<u8> {
    Seq::new(
        32,
        |i: int|
            if i <= index {
                value.byte(i)
            } else {
                sign_fill(value.byte(index))
            },
    )
}

/// The value sign-extended from byte `index`; the value itself when `index`
/// is 32 or more.
pub open spec fn sign_extended(index: nat, value: U256) -> U256 {
    if index >= 32 {
        value
    } else {
        loaded(sign_extended_bytes(index as int, value), 0)
    }
}

fn to_lanes(value: U256) -> (lanes: [u8; 32])
    ensures
        lanes@ == value.bytes(),
{
    let mut lanes: [u8; 32] = [0u8; 32];
    store_u256(&mut lanes, value, 0);
    assert(lanes@ =~= value.bytes());
    lanes
}

/// Reverses the byte order of the whole value.
pub fn bswap_u256(value: U256) -> (r: U256)
    ensures
        r == byte_swapped(value),
        forall|i: int| 0 <= i < 32 ==> r.byte(i) == value.byte(31 - i),
{
    let lanes: [u8; 32] = to_lanes(value);
    let mut swapped: [u8; 32] = [0u8; 32];
    let mut i: usize = 0;
    while i < 32
        invariant
            i <= 32,
            lanes@ == value.bytes(),
            forall|j: int| 0 <= j < i ==> swapped@[j] == value.byte(31 - j),
        decreases 32 - i,
    {
        swapped[i] = lanes[31 - i];
        i += 1;
    }
    proof {
        assert(swapped@ =~= Seq::new(32, |i: int| value.byte(31 - i)));
        lemma_loaded_byte(swapped@, 0);
    }
    load_u256(&swapped, 0)
}

/// Picks `b` where `mask` is all ones and `a` where it is zero.
fn blend_lane(a: u8, b: u8, mask: u8) -> (r: u8)
    ensures
        mask == 0xff ==> r == b,
        mask == 0 ==> r == a,
{
    assert(((b & 0xffu8) | (!0xffu8 & a)) == b && ((b & 0u8) | (!0u8 & a)) == a) by (bit_vector);
    (b & mask) | (!mask & a)
}

/// Sign-extends `b` from the byte whose index is `a`: the bytes above it
/// take the value of its top bit, the bytes up to it stay. An index of 32
/// or more leaves `b` as it is.
pub fn signextend_u256(a: U256, b: U256) -> (r: U256)
    ensures
        r == sign_extended(a@, b),
{
    proof {
        lemma2_to64();
    }
    let lt32: bool = is_ltpow2_u256(a, 32);
    let gate: u8 = if lt32 { 0xff } else { 0 };
    let position: u8 = (a.0[0] & 31) as u8;
    proof {
        let a0: u64 = a.0[0];
        assert((a0 & 31) < 32 && (a0 < 32 ==> (a0 & 31) == a0)) by (bit_vector);
    }
    let floor: u8 = (255u8 - 31u8) + position;
    let lanes: [u8; 32] = to_lanes(b);
    let sign: u8 = lanes[position as usize];
    let signmask: u8 = if (sign >> 7) == 1 { 0xff } else { 0 };
    assert(((sign >> 7) == 1) == (sign >= 0x80)) by (bit_vector);
    let mut blended: [u8; 32] = [0u8; 32];
    let mut i: usize = 0;
    while i < 32
        invariant
            i <= 32,
            lanes@ == b.bytes(),
            lt32 == (a@ < 32),
            gate == (if lt32 {
                0xffu8
            } else {
                0u8
            }),
            position < 32,
            floor == 224 + position,
            lt32 ==> position == a@,
            signmask == sign_fill(b.byte(position as int)),
            forall|j: int|
                0 <= j < i ==> blended@[j] == (if lt32 {
                    sign_extended_bytes(a@ as int, b)[j]
                } else {
                    b.byte(j)
                }),
        decreases 32 - i,
    {
        let mask: u8 = lane_mask((31 - i) as u8, floor);
        let extended: u8 = blend_lane(signmask, lanes[i], mask);
        blended[i] = blend_lane(lanes[i], extended, gate);
        i += 1;
    }
    proof {
        if lt32 {
            assert(blended@ =~= sign_extended_bytes(a@ as int, b));
        } else {
            assert(blended@ =~= b.bytes());
            lemma_bytes_round_trip(b);
        }
    }
    load_u256(&blended, 0)
}

/// Byte `i` of a sign-extended value: the byte of the value up to the
/// sign byte, the fill of the sign byte above it.
pub proof fn lemma_sign_extended_byte(index: nat, value: U256)
    requires
        index < 32,
    ensures
        forall|i: int|
            0 <= i < 32 ==> sign_extended(index, value).byte(i) == (if i <= index {
                value.byte(i)
            } else {
                sign_fill(value.byte(index as int))
            }),
{
    lemma_loaded_byte(sign_extended_bytes(index as int, value), 0);
}

/// Sign extension from the most significant byte changes nothing.
pub proof fn lemma_sign_extend_from_top(value: U256)
    ensures
        sign_extended(31, value) == value,
{
    lemma_sign_extended_byte(31, value);
    lemma_bytes_determine_value(sign_extended(31, value), value);
}

/// Sign extension from byte 0 of a value whose byte 0 has its top bit set
/// keeps that byte and sets every byte above it to all ones.
pub proof fn lemma_sign_extend_negative_byte(value: U256)
    requires
        value.byte(0) >= 0x80,
    ensures
        sign_extended(0, value).byte(0) == value.byte(0),
        forall|i: int| 1 <= i < 32 ==> sign_extended(0, value).byte(i) == 0xffu8,
{
    lemma_sign_extended_byte(0, value);
}

/// Sign extension from byte 0 of a value whose byte 0 is all ones gives
/// the value with all 256 bits set.
pub proof fn lemma_sign_extend_all_ones(value: U256)
    requires
        value.byte(0) == 0xff,
    ensures
        sign_extended(0, value).limbs() == seq![u64::MAX, u64::MAX, u64::MAX, u64::MAX],
        sign_extended(0, value)@ == modulus() - 1,
{
    lemma_sign_extended_byte(0, value);
    let ones = U256([u64::MAX, u64::MAX, u64::MAX, u64::MAX]);
    let x: u64 = u64::MAX;
    assert(((x >> 0) & 0xff) == 0xff && ((x >> 8) & 0xff) == 0xff && ((x >> 16) & 0xff) == 0xff && ((
    x >> 24) & 0xff) == 0xff && ((x >> 32) & 0xff) == 0xff && ((x >> 40) & 0xff) == 0xff && ((x
        >> 48) & 0xff) == 0xff && ((x >> 56) & 0xff) == 0xff) by (bit_vector)
        requires
            x == 0xffff_ffff_ffff_ffffu64,
    ;
    assert forall|i: int| 0 <= i < 32 implies sign_extended(0, value).byte(i) == ones.byte(
        i,
    ) by {
        let j = i / 8;
        let k = i % 8;
        assert(ones.byte(i) == limb_byte(ones.0[j], k));
    }
    lemma_bytes_determine_value(sign_extended(0, value), ones);
    assert(ones.limbs() =~= seq![u64::MAX, u64::MAX, u64::MAX, u64::MAX]);
}

/// Sign extension from byte 0 of a value below 128 changes nothing.
pub proof fn lemma_sign_extend_small(value: U256)
    requires
        value@ < 128,
    ensures
        sign_extended(0, value) == value,
{
    lemma_sign_extended_byte(0, value);
    let l0: u64 = value.0[0];
    assert(value.0[1] == 0 && value.0[2] == 0 && value.0[3] == 0);
    assert(l0 < 128 ==> ((l0 >> 0) & 0xff) < 0x80 && ((l0 >> 8) & 0xff) == 0 && ((l0 >> 16) & 0xff)
        == 0 && ((l0 >> 24) & 0xff) == 0 && ((l0 >> 32) & 0xff) == 0 && ((l0 >> 40) & 0xff) == 0
        && ((l0 >> 48) & 0xff) == 0 && ((l0 >> 56) & 0xff) == 0) by (bit_vector);
    let z: u64 = 0;
    assert(((z >> 0) & 0xff) == 0 && ((z >> 8) & 0xff) == 0 && ((z >> 16) & 0xff) == 0 && ((z >> 24)
        & 0xff) == 0 && ((z >> 32) & 0xff) == 0 && ((z >> 40) & 0xff) == 0 && ((z >> 48) & 0xff)
        == 0 && ((z >> 56) & 0xff) == 0) by (bit_vector)
        requires
            z == 0,
    ;
    assert forall|i: int| 0 <= i < 32 implies sign_extended(0, value).byte(i) == value.byte(
        i,
    ) by {
        let j = i / 8;
        let k = i % 8;
        assert(value.byte(i) == limb_byte(value.0[j], k));
        assert(value.byte(0) == limb_byte(l0, 0));
    }
    lemma_bytes_determine_value(sign_extended(0, value), value);
}

} // verus!
