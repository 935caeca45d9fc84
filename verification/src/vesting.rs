//! Linear vesting of a reward over a window of blocks.

use vstd::prelude::*;
use crate::fraction::{
    lemma_mul_div_bounds, lemma_mul_div_monotonic, lemma_mul_div_whole, lemma_mul_div_zero,
    mul_div, mul_div_floor,
};

verus! {

/// Number of blocks of the window from `start` to `end` that have passed at `now`:
/// `now - start`, held between zero and the length of the window.
pub open spec fn elapsed_blocks(start: u64, end: u64, now: u64) -> int {
    if now <= start {
        0
    } else if now >= end {
        end - start
    } else {
        now - start
    }
}

/// The part of `total` that has vested at `now`, rounded down.
pub open spec fn vested(total: nat, start: u64, end: u64, now: u64) -> int {
    mul_div(total as int, elapsed_blocks(start, end, now), end - start)
}

/// What can be paid out at `now` to somebody who has received `claimed` already.
pub open spec fn claimable(total: nat, claimed: nat, start: u64, end: u64, now: u64) -> int {
    let v = vested(total, start, end, now);
    if v > claimed {
        v - claimed
    } else {
        0
    }
}

/// Never more than the whole reward has vested, and never less than nothing.
pub proof fn lemma_vested_bounds(total: nat, start: u64, end: u64, now: u64)
    requires
        start < end,
    ensures
        0 <= vested(total, start, end, now) <= total,
{
    lemma_mul_div_bounds(total as int, elapsed_blocks(start, end, now), end - start);
}

/// Nothing has vested before the window opens or at its first block.
pub proof fn lemma_vested_at_start(total: nat, start: u64, end: u64, now: u64)
    requires
        start < end,
        now <= start,
    ensures
        vested(total, start, end, now) == 0,
{
    lemma_mul_div_zero(total as int, end - start);
}

/// From the last block of the window on, the whole reward has vested, to the unit.
pub proof fn lemma_vested_at_end(total: nat, start: u64, end: u64, now: u64)
    requires
        start < end,
        now >= end,
    ensures
        vested(total, start, end, now) == total,
{
    lemma_mul_div_whole(total as int, end - start);
}

/// What has vested never shrinks as blocks pass.
pub proof fn lemma_vested_monotonic(total: nat, start: u64, end: u64, earlier: u64, later: u64)
    requires
        start < end,
        earlier <= later,
    ensures
        vested(total, start, end, earlier) <= vested(total, start, end, later),
{
    lemma_mul_div_monotonic(
        total as int,
        elapsed_blocks(start, end, earlier),
        elapsed_blocks(start, end, later),
        end - start,
    );
}

/// Paying out what is claimable never takes the receipts over the whole reward, and
/// brings them to what has vested wherever they were behind it.
pub proof fn lemma_claimable_bounds(total: nat, claimed: nat, start: u64, end: u64, now: u64)
    requires
        start < end,
        claimed <= total,
    ensures
        0 <= claimable(total, claimed, start, end, now),
        claimed + claimable(total, claimed, start, end, now) <= total,
        claimed + claimable(total, claimed, start, end, now) >= vested(total, start, end, now),
{
    lemma_vested_bounds(total, start, end, now);
}

/// Once the claimable amount has been paid, nothing more is claimable at the same block.
pub proof fn lemma_claimable_spent(total: nat, claimed: nat, start: u64, end: u64, now: u64)
    requires
        start < end,
        claimed <= total,
    ensures
        claimable(
            total,
            (claimed + claimable(total, claimed, start, end, now)) as nat,
            start,
            end,
            now,
        ) == 0,
{
    lemma_claimable_bounds(total, claimed, start, end, now);
}

/// Paying out what is claimable from the end of the window on completes the reward.
pub proof fn lemma_claimable_completes(total: nat, claimed: nat, start: u64, end: u64, now: u64)
    requires
        start < end,
        claimed <= total,
        now >= end,
    ensures
        claimed + claimable(total, claimed, start, end, now) == total,
{
    lemma_vested_at_end(total, start, end, now);
}

/// Blocks of the window that have passed at `now`, never more than its length.
pub fn elapsed(start: u64, end: u64, now: u64) -> (e: u64)
    requires
        start < end,
    ensures
        e == elapsed_blocks(start, end, now),
        e <= end - start,
{
    if now <= start {
        0
    } else if now >= end {
        end - start
    } else {
        now - start
    }
}

/// The part of `total` that has vested at `now`.
pub fn vested_amount(total: u128, start: u64, end: u64, now: u64) -> (v: u128)
    requires
        start < end,
    ensures
        v == vested(total as nat, start, end, now),
        v <= total,
{
    let passed: u64 = elapsed(start, end, now);
    mul_div_floor(total, passed, end - start)
}

/// What can be paid out at `now` to somebody who has received `claimed` already.
pub fn claimable_amount(total: u128, claimed: u128, start: u64, end: u64, now: u64) -> (c: u128)
    requires
        start < end,
    ensures
        c == claimable(total as nat, claimed as nat, start, end, now),
{
    let v: u128 = vested_amount(total, start, end, now);
    if v > claimed {
        v - claimed
    } else {
        0
    }
}

} // verus!
