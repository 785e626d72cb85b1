use u256::extend::{bswap_u256, signextend_u256};
use u256::memory::{
    lane_mask, load16_u256, load32_u256, load_u256, loadu_u256, store_u256, storeu_u256,
};
use u256::value::U256;

const MAX: u64 = u64::MAX;

fn counting_bytes() -> Vec<u8> {
    (1u8..=96).collect()
}

#[test]
fn load_reads_little_endian_limbs() {
    let mem = counting_bytes();
    assert_eq!(
        load_u256(&mem, 0).0,
        [
            0x0807_0605_0403_0201,
            0x100f_0e0d_0c0b_0a09,
            0x1817_1615_1413_1211,
            0x201f_1e1d_1c1b_1a19
        ]
    );
    assert_eq!(load_u256(&mem, 1).0[0], 0x2827_2625_2423_2221);
    assert_eq!(loadu_u256(&mem, 2).0[3], 0x605f_5e5d_5c5b_5a59);
    assert_eq!(loadu_u256(&mem[3..], 0).0[0], 0x0b0a_0908_0706_0504);
}

#[test]
fn store_then_load_round_trips() {
    let values = [
        U256([0, 0, 0, 0]),
        U256([MAX, MAX, MAX, MAX]),
        U256([0x0123_4567_89ab_cdef, 1, 0x8000_0000_0000_0000, 0xfedc_ba98_7654_3210]),
    ];
    for value in values {
        for slot in 0..3 {
            let mut mem = counting_bytes();
            store_u256(&mut mem, value, slot);
            assert_eq!(load_u256(&mem, slot).0, value.0);
            assert_eq!(loadu_u256(&mem, slot).0, value.0);
            let mut mem = counting_bytes();
            storeu_u256(&mut mem, value, slot);
            assert_eq!(loadu_u256(&mem, slot).0, value.0);
            assert_eq!(load_u256(&mem, slot).0, value.0);
        }
    }
}

#[test]
fn store_leaves_other_bytes_alone() {
    let mut mem = counting_bytes();
    store_u256(&mut mem, U256([0x0807_0605_0403_0201 ^ MAX, 0, 0, 0xaa00_0000_0000_0000]), 1);
    let before = counting_bytes();
    assert_eq!(&mem[..32], &before[..32]);
    assert_eq!(&mem[64..], &before[64..]);
    assert_eq!(mem[32], 0xfe);
    assert_eq!(mem[39], 0xf7);
    assert_eq!(mem[40], 0);
    assert_eq!(mem[63], 0xaa);
}

#[test]
fn lane_mask_is_all_ones_once_the_sum_saturates() {
    assert_eq!(lane_mask(31, 224), 0xff);
    assert_eq!(lane_mask(30, 224), 0);
    assert_eq!(lane_mask(0, 255), 0xff);
    assert_eq!(lane_mask(0, 254), 0);
    assert_eq!(lane_mask(200, 200), 0xff);
    assert_eq!(lane_mask(0, 0), 0);
}

fn masked(value: U256, n: usize) -> [u64; 4] {
    let mut out = [0u64; 4];
    for i in 0..n {
        out[i / 8] |= value.0[i / 8] & (0xffu64 << (8 * (i % 8)));
    }
    out
}

#[test]
fn partial_load_of_at_most_16_bytes() {
    let mem = counting_bytes();
    let full = loadu_u256(&mem, 0);
    for n in 0..=16 {
        assert_eq!(load16_u256(&mem, n).0, masked(full, n as usize));
    }
    assert_eq!(load16_u256(&mem, 0).0, [0, 0, 0, 0]);
    assert_eq!(load16_u256(&mem, 3).0, [0x03_0201, 0, 0, 0]);
    assert_eq!(load16_u256(&mem, 9).0, [0x0807_0605_0403_0201, 0x09, 0, 0]);
    assert_eq!(load16_u256(&mem, 16).0, [0x0807_0605_0403_0201, 0x100f_0e0d_0c0b_0a09, 0, 0]);
}

#[test]
fn partial_load_of_at_most_32_bytes() {
    let mem = counting_bytes();
    let full = loadu_u256(&mem, 0);
    for n in 0..=32 {
        assert_eq!(load32_u256(&mem, n).0, masked(full, n as usize));
    }
    assert_eq!(load32_u256(&mem, 17).0, [0x0807_0605_0403_0201, 0x100f_0e0d_0c0b_0a09, 0x11, 0]);
    assert_eq!(load32_u256(&mem, 32).0, full.0);
}

#[test]
fn partial_load_reads_no_byte_beyond_its_count() {
    let mem = [0xaau8, 0xbb, 0xcc];
    assert_eq!(load16_u256(&mem, 3).0, [0xcc_bbaa, 0, 0, 0]);
    assert_eq!(load32_u256(&mem, 2).0, [0xbbaa, 0, 0, 0]);
    assert_eq!(load16_u256(&mem[..0], 0).0, [0, 0, 0, 0]);
}

#[test]
fn byte_swap_reverses_all_32_bytes() {
    let mem = counting_bytes();
    let v = load_u256(&mem, 0);
    let swapped = bswap_u256(v);
    assert_eq!(
        swapped.0,
        [
            0x191a_1b1c_1d1e_1f20,
            0x1112_1314_1516_1718,
            0x090a_0b0c_0d0e_0f10,
            0x0102_0304_0506_0708
        ]
    );
    assert_eq!(bswap_u256(swapped).0, v.0);
    assert_eq!(bswap_u256(U256::from_u64(1)).0, [0, 0, 0, 0x0100_0000_0000_0000]);
}

#[test]
fn sign_extend_from_the_top_byte_changes_nothing() {
    let v = U256([0x80, 1, 2, 0x8000_0000_0000_0000]);
    assert_eq!(signextend_u256(U256::from_u64(31), v).0, v.0);
    let v = U256([0x7f, MAX, 2, 0x7000_0000_0000_0000]);
    assert_eq!(signextend_u256(U256::from_u64(31), v).0, v.0);
}

#[test]
fn sign_extend_from_byte_zero() {
    assert_eq!(signextend_u256(U256::from_u64(0), U256::from_u64(0x80)).0, [
        0xffff_ffff_ffff_ff80,
        MAX,
        MAX,
        MAX
    ]);
    assert_eq!(signextend_u256(U256::from_u64(0), U256::from_u64(0xff)).0, [MAX, MAX, MAX, MAX]);
    assert_eq!(signextend_u256(U256::from_u64(0), U256::from_u64(0x7f)).0, [0x7f, 0, 0, 0]);
    assert_eq!(signextend_u256(U256::from_u64(0), U256([0x17f, 5, 6, 7])).0, [0x7f, 0, 0, 0]);
    assert_eq!(signextend_u256(U256::from_u64(0), U256([0x1234_5680, 0, 0, 0])).0, [
        0xffff_ffff_ffff_ff80,
        MAX,
        MAX,
        MAX
    ]);
}

#[test]
fn sign_extend_from_inner_bytes() {
    assert_eq!(signextend_u256(U256::from_u64(1), U256::from_u64(0x8001)).0, [
        0xffff_ffff_ffff_8001,
        MAX,
        MAX,
        MAX
    ]);
    assert_eq!(signextend_u256(U256::from_u64(1), U256::from_u64(0xff_7f01)).0, [0x7f01, 0, 0, 0]);
    assert_eq!(signextend_u256(U256::from_u64(7), U256([0x8000_0000_0000_0000, 1, 1, 1])).0, [
        0x8000_0000_0000_0000,
        MAX,
        MAX,
        MAX
    ]);
    assert_eq!(signextend_u256(U256::from_u64(8), U256([3, 0x1280, 1, 1])).0, [
        3,
        0xffff_ffff_ffff_ff80,
        MAX,
        MAX
    ]);
    assert_eq!(signextend_u256(U256::from_u64(30), U256([3, 4, 5, 0xff40_0000_0000_0000])).0, [
        3,
        4,
        5,
        0x0040_0000_0000_0000
    ]);
}

#[test]
fn sign_extend_with_an_index_out_of_range() {
    let v = U256([0x80, 0, 0, 0]);
    assert_eq!(signextend_u256(U256::from_u64(32), v).0, v.0);
    assert_eq!(signextend_u256(U256::from_u64(256), v).0, v.0);
    assert_eq!(signextend_u256(U256([0, 1, 0, 0]), v).0, v.0);
    assert_eq!(signextend_u256(U256([0, 0, 0, 1]), v).0, v.0);
    assert_eq!(signextend_u256(U256([MAX, MAX, MAX, MAX]), v).0, v.0);
}
