use crowdloan_rewards::fraction::{mul_div_floor, Perbill, BILLION};
use crowdloan_rewards::vesting::{claimable_amount, elapsed, vested_amount};

#[test]
fn elapsed_is_held_within_the_window() {
    assert_eq!(elapsed(10, 18, 0), 0);
    assert_eq!(elapsed(10, 18, 10), 0);
    assert_eq!(elapsed(10, 18, 11), 1);
    assert_eq!(elapsed(10, 18, 17), 7);
    assert_eq!(elapsed(10, 18, 18), 8);
    assert_eq!(elapsed(10, 18, u64::MAX), 8);
    assert_eq!(elapsed(0, u64::MAX, u64::MAX), u64::MAX);
}

#[test]
fn vested_amount_is_linear_and_rounded_down() {
    // 500 over eight blocks: 62.5 a block
    let expected: [u128; 10] = [0, 0, 62, 125, 187, 250, 312, 375, 437, 500];
    for now in 0..10u64 {
        assert_eq!(vested_amount(500, 1, 9, now), expected[now as usize]);
    }
    assert_eq!(vested_amount(500, 1, 9, 10), 500);
    assert_eq!(vested_amount(500, 1, 9, 329), 500);
}

#[test]
fn vested_amount_of_125_over_8_blocks() {
    let expected: [u128; 9] = [0, 15, 31, 46, 62, 78, 93, 109, 125];
    for step in 0..9u64 {
        assert_eq!(vested_amount(125, 1, 9, 1 + step), expected[step as usize]);
    }
}

#[test]
fn vested_amount_never_shrinks_and_never_exceeds_the_total() {
    let mut last: u128 = 0;
    for now in 0..40u64 {
        let v = vested_amount(1_000_003, 7, 30, now);
        assert!(v >= last);
        assert!(v <= 1_000_003);
        last = v;
    }
    assert_eq!(last, 1_000_003);
}

#[test]
fn vested_amount_of_the_largest_reward() {
    assert_eq!(vested_amount(u128::MAX, 0, u64::MAX, u64::MAX), u128::MAX);
    assert_eq!(vested_amount(u128::MAX, 0, 2, 1), u128::MAX / 2);
    assert_eq!(vested_amount(u128::MAX, 0, 4, 3), u128::MAX / 4 * 3 + 2);
    assert_eq!(vested_amount(u128::MAX, 0, u64::MAX, 0), 0);
    // (2^128 - 1) * (2^64 - 2) / (2^64 - 1) = 2^128 - 1 - (2^64 + 1)
    assert_eq!(
        vested_amount(u128::MAX, 0, u64::MAX, u64::MAX - 1),
        u128::MAX - (1u128 << 64) - 1
    );
}

#[test]
fn claimable_amount_is_what_vested_beyond_the_receipts() {
    // behind what has vested
    assert_eq!(claimable_amount(500, 100, 1, 9, 5), 150);
    // level with it
    assert_eq!(claimable_amount(500, 250, 1, 9, 5), 0);
    // ahead of it: nothing, not less than nothing
    assert_eq!(claimable_amount(500, 100, 1, 9, 1), 0);
    assert_eq!(claimable_amount(500, 100, 1, 9, 2), 0);
    assert_eq!(claimable_amount(500, 100, 1, 9, 3), 25);
    // from the end on: the rest
    assert_eq!(claimable_amount(500, 100, 1, 9, 9), 400);
    assert_eq!(claimable_amount(500, 499, 1, 9, 100), 1);
    assert_eq!(claimable_amount(500, 500, 1, 9, 100), 0);
    assert_eq!(claimable_amount(0, 0, 1, 9, 100), 0);
}

#[test]
fn claiming_twice_at_one_block_leaves_nothing_for_the_second_claim() {
    for now in 0..12u64 {
        let first = claimable_amount(125, 25, 1, 9, now);
        assert_eq!(claimable_amount(125, 25 + first, 1, 9, now), 0);
    }
}

#[test]
fn mul_div_floor_rounds_down() {
    assert_eq!(mul_div_floor(10, 1, 3), 3);
    assert_eq!(mul_div_floor(10, 2, 3), 6);
    assert_eq!(mul_div_floor(10, 3, 3), 10);
    assert_eq!(mul_div_floor(10, 0, 3), 0);
    assert_eq!(mul_div_floor(0, 2, 3), 0);
    assert_eq!(mul_div_floor(7, 1, 1), 7);
    assert_eq!(mul_div_floor(u128::MAX, u64::MAX, u64::MAX), u128::MAX);
    assert_eq!(mul_div_floor(u128::MAX, 1, u64::MAX), (1u128 << 64) + 1);
}

#[test]
fn perbill_from_percent_and_parts() {
    assert_eq!(BILLION, 1_000_000_000);
    assert_eq!(Perbill::from_percent(20).deconstruct(), 200_000_000);
    assert_eq!(Perbill::from_percent(0).deconstruct(), 0);
    assert_eq!(Perbill::from_percent(100).deconstruct(), 1_000_000_000);
    assert_eq!(Perbill::from_percent(101).deconstruct(), 1_000_000_000);
    assert_eq!(Perbill::from_percent(u32::MAX).deconstruct(), 1_000_000_000);
    assert_eq!(Perbill::from_parts(1).deconstruct(), 1);
    assert_eq!(Perbill::from_parts(1_000_000_001).deconstruct(), 1_000_000_000);
    assert_eq!(Perbill::from_parts(500_000_000), Perbill::from_percent(50));
}

#[test]
fn perbill_mul_floor_rounds_down() {
    let fifth = Perbill::from_percent(20);
    assert_eq!(fifth.mul_floor(500), 100);
    assert_eq!(fifth.mul_floor(125), 25);
    assert_eq!(fifth.mul_floor(1190), 238);
    assert_eq!(fifth.mul_floor(1185), 237);
    assert_eq!(fifth.mul_floor(4), 0);
    assert_eq!(fifth.mul_floor(9), 1);
    assert_eq!(fifth.mul_floor(0), 0);
    assert_eq!(fifth.mul_floor(u128::MAX), u128::MAX / 5);
    assert_eq!(Perbill::from_percent(100).mul_floor(u128::MAX), u128::MAX);
    assert_eq!(Perbill::from_percent(0).mul_floor(u128::MAX), 0);
    assert_eq!(Perbill::from_parts(1).mul_floor(999_999_999), 0);
    assert_eq!(Perbill::from_parts(1).mul_floor(1_000_000_000), 1);
    // a third, as near as parts per billion come to it, stays below the third
    assert_eq!(Perbill::from_parts(333_333_333).mul_floor(3_000_000_000), 999_999_999);
}

#[test]
fn perbill_is_reached_by_compares_exactly() {
    let half = Perbill::from_percent(50);
    assert!(!half.is_reached_by(2, 5));
    assert!(half.is_reached_by(3, 5));
    assert!(half.is_reached_by(2, 4));
    assert!(!half.is_reached_by(1, 4));
    assert!(half.is_reached_by(0, 0));
    assert!(half.is_reached_by(u64::MAX, u64::MAX));
    assert!(!half.is_reached_by(u64::MAX / 2, u64::MAX));
    assert!(half.is_reached_by(u64::MAX / 2 + 1, u64::MAX));
    // one part over the half asks for more than the half
    let majority = Perbill::from_parts(500_000_001);
    assert!(!majority.is_reached_by(2, 4));
    assert!(majority.is_reached_by(3, 4));
    assert!(majority.is_reached_by(3, 5));
    assert!(Perbill::from_percent(0).is_reached_by(0, 7));
    assert!(!Perbill::from_percent(100).is_reached_by(6, 7));
    assert!(Perbill::from_percent(100).is_reached_by(7, 7));
}
