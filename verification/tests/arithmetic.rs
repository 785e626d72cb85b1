use u256::arith::{
    add_u256, gt_u256, overflowing_add_u256, overflowing_sub_u256, overflowing_sub_word,
    overflowing_sub_word_u128, sub_u256,
};
use u256::bitwise::eq_u256;
use u256::mul::{mul_u256, mul_u64};
use u256::shift::shl_u256;
use u256::value::U256;
use u256::word::Word;

const MAX: u64 = u64::MAX;

fn all_ones() -> U256 {
    U256([MAX, MAX, MAX, MAX])
}

#[test]
fn add_small_scalars() {
    let (sum, overflow) = overflowing_add_u256(U256::from_u64(5), U256::from_u64(3));
    assert_eq!(sum.0, U256::from_u64(8).0);
    assert!(!overflow);
    assert_eq!(add_u256(U256::from_u64(5), U256::from_u64(3)).0, [8, 0, 0, 0]);
}

#[test]
fn add_one_to_all_ones_wraps_to_zero() {
    let (sum, overflow) = overflowing_add_u256(all_ones(), U256::from_u64(1));
    assert_eq!(sum.0, [0, 0, 0, 0]);
    assert!(overflow);
}

#[test]
fn add_carries_across_every_limb() {
    let (sum, overflow) = overflowing_add_u256(U256([MAX, MAX, MAX, 0]), U256::from_u64(1));
    assert_eq!(sum.0, [0, 0, 0, 1]);
    assert!(!overflow);
    let (sum, overflow) = overflowing_add_u256(U256([MAX, 0, MAX, 7]), U256([1, MAX, 0, 1]));
    assert_eq!(sum.0, [0, 0, 0, 9]);
    assert!(!overflow);
}

#[test]
fn add_is_commutative_and_associative() {
    let a = U256([0xdead_beef, MAX, 17, 0x8000_0000_0000_0000]);
    let b = U256([MAX, 1, MAX, 0x7fff_ffff_ffff_ffff]);
    let c = U256([3, 0, MAX - 4, 0xf000_0000_0000_0000]);
    assert_eq!(add_u256(a, b).0, add_u256(b, a).0);
    assert_eq!(add_u256(add_u256(a, b), c).0, add_u256(a, add_u256(b, c)).0);
}

#[test]
fn sub_undoes_add() {
    let a = U256([0xdead_beef, MAX, 17, 0x8000_0000_0000_0000]);
    let b = U256([MAX, 1, MAX, 0xffff_ffff_ffff_0000]);
    assert_eq!(sub_u256(add_u256(a, b), b).0, a.0);
    assert_eq!(sub_u256(add_u256(b, a), a).0, b.0);
}

#[test]
fn sub_with_borrow() {
    let (difference, borrow) = overflowing_sub_u256(U256::default(), U256::from_u64(1));
    assert_eq!(difference.0, [MAX, MAX, MAX, MAX]);
    assert!(borrow);
    let (difference, borrow) = overflowing_sub_u256(U256([0, 0, 1, 0]), U256::from_u64(1));
    assert_eq!(difference.0, [MAX, MAX, 0, 0]);
    assert!(!borrow);
    let (difference, borrow) = overflowing_sub_u256(U256([5, 0, 0, 2]), U256([5, 0, 0, 2]));
    assert_eq!(difference.0, [0, 0, 0, 0]);
    assert!(!borrow);
    let (difference, borrow) = overflowing_sub_u256(U256([0, 0, 0, 1]), U256([0, 0, 1, 1]));
    assert_eq!(difference.0, [0, 0, MAX, MAX]);
    assert!(borrow);
}

#[test]
fn mul_u64_is_the_full_product() {
    assert_eq!(mul_u64(MAX, MAX), 0xffff_ffff_ffff_fffe_0000_0000_0000_0001u128);
    assert_eq!(mul_u64(0, MAX), 0);
    assert_eq!(mul_u64(6, 7), 42);
}

#[test]
fn mul_keeps_the_low_256_bits() {
    assert_eq!(mul_u256(U256::from_u64(6), U256::from_u64(7)).0, [42, 0, 0, 0]);
    assert_eq!(mul_u256(U256::from_u64(MAX), U256::from_u64(MAX)).0, [1, MAX - 1, 0, 0]);
    assert_eq!(mul_u256(all_ones(), all_ones()).0, [1, 0, 0, 0]);
    assert_eq!(mul_u256(all_ones(), U256::from_u64(2)).0, [MAX - 1, MAX, MAX, MAX]);
    assert_eq!(mul_u256(U256([0, 0, 1, 0]), U256([0, 0, 1, 0])).0, [0, 0, 0, 0]);
    assert_eq!(mul_u256(U256([0, 1, 0, 0]), U256([0, 0, 3, 0])).0, [0, 0, 0, 3]);
    assert_eq!(
        mul_u256(U256([1, 2, 3, 4]), U256([5, 6, 7, 8])).0,
        [5, 16, 34, 60]
    );
}

#[test]
fn mul_distributes_over_add() {
    let a = U256([0xdead_beef, MAX, 17, 0x8000_0000_0000_0000]);
    let b = U256([MAX, 1, MAX, 0x7fff_ffff_ffff_ffff]);
    let c = U256([3, 0, MAX - 4, 0xf000_0000_0000_0000]);
    let left = mul_u256(a, add_u256(b, c));
    let right = add_u256(mul_u256(a, b), mul_u256(a, c));
    assert_eq!(left.0, right.0);
}

#[test]
fn greater_than_compares_high_limbs_first() {
    assert!(gt_u256(U256([0, 0, 0, 1]), U256([MAX, MAX, MAX, 0])));
    assert!(!gt_u256(U256([MAX, MAX, MAX, 0]), U256([0, 0, 0, 1])));
    assert!(gt_u256(U256([2, 0, 0, 1]), U256([1, 0, 0, 1])));
    assert!(gt_u256(U256([0, 1, 0, 0]), U256([MAX, 0, 0, 0])));
    assert!(!gt_u256(U256([1, 2, 3, 4]), U256([1, 2, 3, 4])));
}

#[test]
fn exactly_one_of_greater_less_equal() {
    let values = [
        U256([0, 0, 0, 0]),
        U256([1, 0, 0, 0]),
        U256([0, 1, 0, 0]),
        U256([MAX, 0, 0, 1]),
        U256([MAX, MAX, MAX, MAX]),
    ];
    for a in values {
        for b in values {
            let mut holding = 0;
            if gt_u256(a, b) {
                holding += 1;
            }
            if gt_u256(b, a) {
                holding += 1;
            }
            if eq_u256(a, b).0 == [1, 0, 0, 0] {
                holding += 1;
            }
            assert_eq!(holding, 1);
        }
    }
}

#[test]
fn shift_by_zero_and_by_too_much() {
    let v = U256([0xdead_beef, MAX, 17, 0x8000_0000_0000_0001]);
    assert_eq!(shl_u256(U256::from_u64(0), v).0, v.0);
    assert_eq!(shl_u256(U256::from_u64(256), v).0, [0, 0, 0, 0]);
    assert_eq!(shl_u256(U256::from_u64(257), v).0, [0, 0, 0, 0]);
    assert_eq!(shl_u256(U256([1, 1, 0, 0]), v).0, [0, 0, 0, 0]);
    assert_eq!(shl_u256(U256([0, 0, 0, 1]), v).0, [0, 0, 0, 0]);
    assert_eq!(shl_u256(U256([0x100, 0, 0, 0]), v).0, [0, 0, 0, 0]);
}

#[test]
fn shift_carries_across_limbs() {
    let one = U256::from_u64(1);
    assert_eq!(shl_u256(U256::from_u64(1), one).0, [2, 0, 0, 0]);
    assert_eq!(shl_u256(U256::from_u64(63), one).0, [0x8000_0000_0000_0000, 0, 0, 0]);
    assert_eq!(shl_u256(U256::from_u64(64), one).0, [0, 1, 0, 0]);
    assert_eq!(shl_u256(U256::from_u64(65), one).0, [0, 2, 0, 0]);
    assert_eq!(shl_u256(U256::from_u64(128), one).0, [0, 0, 1, 0]);
    assert_eq!(shl_u256(U256::from_u64(200), one).0, [0, 0, 0, 0x100]);
    assert_eq!(shl_u256(U256::from_u64(255), one).0, [0, 0, 0, 0x8000_0000_0000_0000]);
    let v = U256([0x8000_0000_0000_0001, 0xf, 0, 0x4000_0000_0000_0000]);
    assert_eq!(shl_u256(U256::from_u64(1), v).0, [2, 0x1f, 0, 0x8000_0000_0000_0000]);
    assert_eq!(shl_u256(U256::from_u64(4), v).0, [0x10, 0xf8, 0, 0]);
    assert_eq!(shl_u256(U256::from_u64(68), v).0, [0, 0x10, 0xf8, 0]);
}

#[test]
fn sub_scalar_from_register_matches_packed() {
    let cases = [
        (Word([5, 0, 0, 0]), 3u64),
        (Word([0, 0, 0, 0]), 1u64),
        (Word([0, 1, 0, 0]), 1u64),
        (Word([0, 0, 0, 1]), MAX),
        (Word([7, MAX, 0, 9]), 8u64),
    ];
    for (word, amount) in cases {
        let (got, borrow) = overflowing_sub_word(word, amount);
        let (want, want_borrow) = overflowing_sub_u256(word.as_u256(), U256::from_u64(amount));
        assert_eq!(got.0, want.0);
        assert_eq!(borrow, want_borrow);
    }
    let (got, borrow) = overflowing_sub_word(Word([5, 0, 0, 0]), 3);
    assert_eq!(got.0, [2, 0, 0, 0]);
    assert!(!borrow);
    let (got, borrow) = overflowing_sub_word(Word([0, 0, 0, 0]), 1);
    assert_eq!(got.0, [MAX, MAX, MAX, MAX]);
    assert!(borrow);
}

#[test]
fn sub_scalar128_from_register_matches_packed() {
    let cases = [
        (Word([5, 0, 0, 0]), 3u128),
        (Word([0, 0, 0, 0]), 1u128 << 64),
        (Word([0, 0, 1, 0]), u128::MAX),
        (Word([7, MAX, 0, 9]), (8u128 << 64) | 9),
    ];
    for (word, amount) in cases {
        let (got, borrow) = overflowing_sub_word_u128(word, amount);
        let packed = U256([amount as u64, (amount >> 64) as u64, 0, 0]);
        let (want, want_borrow) = overflowing_sub_u256(word.as_u256(), packed);
        assert_eq!(got.0, want.0);
        assert_eq!(borrow, want_borrow);
    }
    let (got, borrow) = overflowing_sub_word_u128(Word([0, 0, 1, 0]), 1);
    assert_eq!(got.0, [MAX, MAX, 0, 0]);
    assert!(!borrow);
    let (got, borrow) = overflowing_sub_word_u128(Word([0, 0, 0, 0]), 1u128 << 64);
    assert_eq!(got.0, [0, MAX, MAX, MAX]);
    assert!(borrow);
}
