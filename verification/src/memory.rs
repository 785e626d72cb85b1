//! Full and partial loads and stores of a 256-bit value in byte memory.
//! A value occupies 32 bytes, least significant first; slot `offset` of a
//! memory starts at byte `32 * offset`.
use vstd::prelude::*;
use crate::bytes::{
    lemma_bytes_determine_value, lemma_loaded_byte, limb_byte, limb_of_bytes, loaded, stored,
};
use crate::value::U256;

verus! {

/// The first `n` bytes of `mem` followed by zeros, 32 bytes in all.
pub open spec fn low_bytes(mem: Seq<u8>, n: int) -> Seq<u8> {
    Seq::new(
        32,
        |i: int|
            if i < n {
                mem[i]
            } else {
                0u8
            },
    )
}

/// The mask of one byte lane: all ones when the lane index and the floor
/// add up to 255 or more, so that the saturated sum reaches the maximum,
/// and zero otherwise.
pub fn lane_mask(lane: u8, floor: u8) -> (r: u8)
    ensures
        r == (if lane + floor >= 255 {
            0xffu8
        } else {
            0u8
        }),
{
    let ssum: u8 = lane.saturating_add(floor);
    if ssum == 255 {
        0xff
    } else {
        0
    }
}

fn read_limb(src: &[u8], at: usize) -> (r: u64)
    requires
        at + 8 <= src@.len(),
    ensures
        r == limb_of_bytes(src@, at as int),
{
    (src[at] as u64) | ((src[at + 1] as u64) << 8) | ((src[at + 2] as u64) << 16) | ((src[at
        + 3] as u64) << 24) | ((src[at + 4] as u64) << 32) | ((src[at + 5] as u64) << 40) | ((
    src[at + 6] as u64) << 48) | ((src[at + 7] as u64) << 56)
}

fn write_limb(dest: &mut [u8], at: usize, x: u64)
    requires
        at + 8 <= old(dest)@.len(),
    ensures
        final(dest)@.len() == old(dest)@.len(),
        forall|i: int|
            0 <= i < old(dest)@.len() ==> final(dest)@[i] == (if at <= i < at + 8 {
                limb_byte(x, i - at)
            } else {
                old(dest)@[i]
            }),
{
    dest[at] = ((x >> 0) & 0xff) as u8;
    dest[at + 1] = ((x >> 8) & 0xff) as u8;
    dest[at + 2] = ((x >> 16) & 0xff) as u8;
    dest[at + 3] = ((x >> 24) & 0xff) as u8;
    dest[at + 4] = ((x >> 32) & 0xff) as u8;
    dest[at + 5] = ((x >> 40) & 0xff) as u8;
    dest[at + 6] = ((x >> 48) & 0xff) as u8;
    dest[at + 7] = ((x >> 56) & 0xff) as u8;
}

/// Reads the value in slot `offset` of `src`.
pub fn load_u256(src: &[u8], offset: usize) -> (r: U256)
    requires
        32 * offset + 32 <= src@.len(),
    ensures
        r == loaded(src@, 32 * offset),
{
    let total: usize = src.len();
    assert(32 * offset + 32 <= total);
    let at: usize = offset * 32;
    U256([read_limb(src, at), read_limb(src, at + 8), read_limb(src, at + 16), read_limb(src, at + 24)])
}

/// Reads the value in slot `offset` of `src`, which need not be aligned.
pub fn loadu_u256(src: &[u8], offset: usize) -> (r: U256)
    requires
        32 * offset + 32 <= src@.len(),
    ensures
        r == loaded(src@, 32 * offset),
{
    load_u256(src, offset)
}

/// Writes `value` to slot `offset` of `dest` and leaves every other byte
/// as it was.
pub fn store_u256(dest: &mut [u8], value: U256, offset: usize)
    requires
        32 * offset + 32 <= old(dest)@.len(),
    ensures
        final(dest)@ == stored(old(dest)@, 32 * offset, value),
{
    let total: usize = dest.len();
    assert(32 * offset + 32 <= total);
    let at: usize = offset * 32;
    write_limb(dest, at, value.0[0]);
    write_limb(dest, at + 8, value.0[1]);
    write_limb(dest, at + 16, value.0[2]);
    write_limb(dest, at + 24, value.0[3]);
    proof {
        let after = dest@;
        let want = stored(old(dest)@, 32 * offset, value);
        assert forall|i: int| 0 <= i < after.len() implies after[i] == want[i] by {
            if at <= i < at + 32 {
                let j = (i - at) / 8;
                let k = (i - at) % 8;
                assert(value.byte(i - at) == limb_byte(value.0[j], k));
            }
        }
        assert(after =~= want);
    }
}

/// Writes `value` to slot `offset` of `dest`, which need not be aligned,
/// and leaves every other byte as it was.
pub fn storeu_u256(dest: &mut [u8], value: U256, offset: usize)
    requires
        32 * offset + 32 <= old(dest)@.len(),
    ensures
        final(dest)@ == stored(old(dest)@, 32 * offset, value),
{
    store_u256(dest, value, offset)
}

/// The partial load over a window of `width` byte lanes: lane `i` holds
/// byte `i` of `src` under the lane mask for `num_bytes`, and the lanes
/// from `width` on are zero. No byte of `src` at or beyond its length is read.
fn load_masked(src: &[u8], num_bytes: i32, width: usize) -> (r: U256)
    requires
        0 <= num_bytes <= width <= 32,
        num_bytes <= src@.len(),
    ensures
        r == loaded(low_bytes(src@, num_bytes as int), 0),
{
    let floor: u8 = ((255 - 32) + num_bytes) as u8;
    let mut lanes: [u8; 32] = [0u8; 32];
    let mut i: usize = 0;
    while i < width
        invariant
            i <= width <= 32,
            0 <= num_bytes <= width,
            num_bytes <= src@.len(),
            floor == 223 + num_bytes,
            forall|j: int| 0 <= j < i ==> lanes@[j] == low_bytes(src@, num_bytes as int)[j],
            forall|j: int| i <= j < 32 ==> lanes@[j] == 0u8,
        decreases width - i,
    {
        let raw: u8 = if i < src.len() { src[i] } else { 0 };
        let mask: u8 = lane_mask((31 - i) as u8, floor);
        assert((raw & 0xffu8) == raw && (raw & 0u8) == 0u8) by (bit_vector);
        lanes[i] = raw & mask;
        i += 1;
    }
    assert(lanes@ =~= low_bytes(src@, num_bytes as int));
    load_u256(&lanes, 0)
}

/// Reads the low `num_bytes` bytes at `src`, at most 16, and fills the rest
/// of the value with zeros.
pub fn load16_u256(src: &[u8], num_bytes: i32) -> (r: U256)
    requires
        0 <= num_bytes <= 16,
        num_bytes <= src@.len(),
    ensures
        r == loaded(low_bytes(src@, num_bytes as int), 0),
{
    load_masked(src, num_bytes, 16)
}

/// Reads the low `num_bytes` bytes at `src`, at most 32, and fills the rest
/// of the value with zeros.
pub fn load32_u256(src: &[u8], num_bytes: i32) -> (r: U256)
    requires
        0 <= num_bytes <= 32,
        num_bytes <= src@.len(),
    ensures
        r == loaded(low_bytes(src@, num_bytes as int), 0),
{
    load_masked(src, num_bytes, 32)
}

/// Reading a slot that was just written gives back the value written.
pub proof fn lemma_store_then_load(mem: Seq<u8>, at: int, value: U256)
    requires
        0 <= at,
        at + 32 <= mem.len(),
    ensures
        loaded(stored(mem, at, value), at) == value,
        stored(mem, at, value).len() == mem.len(),
        forall|i: int| 0 <= i < mem.len() && !(at <= i < at + 32) ==> stored(mem, at, value)[i] == mem[i],
{
    let after = stored(mem, at, value);
    lemma_loaded_byte(after, at);
    lemma_bytes_determine_value(loaded(after, at), value);
}

/// A partial load of `n` bytes is the full load with every byte from `n`
/// on set to zero.
pub proof fn lemma_partial_load(mem: Seq<u8>, n: int)
    requires
        0 <= n <= 32,
        mem.len() >= 32,
    ensures
        forall|i: int|
            0 <= i < 32 ==> loaded(low_bytes(mem, n), 0).byte(i) == (if i < n {
                loaded(mem, 0).byte(i)
            } else {
                0u8
            }),
{
    lemma_loaded_byte(low_bytes(mem, n), 0);
    lemma_loaded_byte(mem, 0);
}

} // verus!
