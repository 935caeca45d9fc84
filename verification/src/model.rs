//! The state of one crowdloan as a mathematical value, and what each operation makes of it.

use vstd::prelude::*;
use crate::fraction::Perbill;
use crate::reward::{merge, push_missing, RewardInfoView};
use crate::table::{distinct_keys, has_key, infos_valid, key_index, total_rewards};
use crate::types::{AccountId, Balance, BlockNumber, Error, RelayAccountId};
use crate::vesting::claimable;

verus! {

/// The state of one crowdloan.
pub struct CrowdloanView {
    /// The amount that the recorded rewards have to add up to.
    pub allocation: nat,
    /// The first and the last block of the vesting window, once the crowdloan is closed.
    pub period: Option<(BlockNumber, BlockNumber)>,
    /// Whether the crowdloan is closed.
    pub initialized: bool,
    /// How many accounts of this chain have been given a reward of their own.
    pub total_contributors: nat,
    /// The rewards of the accounts of this chain.
    pub payable: Seq<(AccountId, RewardInfoView)>,
    /// The rewards of relay accounts that no account of this chain has taken yet.
    pub unassociated: Seq<(RelayAccountId, RewardInfoView)>,
    /// The relay accounts whose contribution has been taken.
    pub claimed_relay_ids: Seq<RelayAccountId>,
}

/// The sum of all rewards that the crowdloan has recorded.
pub open spec fn recorded(v: CrowdloanView) -> nat {
    total_rewards(v.payable) + total_rewards(v.unassociated)
}

/// Nothing has been paid out of any reward of the table.
pub open spec fn unpaid<K>(table: Seq<(K, RewardInfoView)>) -> bool {
    forall|i: int| 0 <= i < table.len() ==> (#[trigger] table[i]).1.claimed_reward == 0
}

/// Each unassociated reward is unpaid and names the relay account that it is kept under.
pub open spec fn own_relays(unassociated: Seq<(RelayAccountId, RewardInfoView)>) -> bool {
    forall|i: int|
        0 <= i < unassociated.len() ==> {
            &&& (#[trigger] unassociated[i]).1.claimed_reward == 0
            &&& unassociated[i].1.relays == seq![unassociated[i].0]
        }
}

/// The vesting window of a closed crowdloan.
pub open spec fn window_of(v: CrowdloanView) -> (BlockNumber, BlockNumber) {
    match v.period {
        Some(window) => window,
        None => (0, 0),
    }
}

/// What holds of a crowdloan at all times.
pub open spec fn valid(v: CrowdloanView) -> bool {
    &&& distinct_keys(v.payable)
    &&& distinct_keys(v.unassociated)
    &&& infos_valid(v.payable)
    &&& infos_valid(v.unassociated)
    &&& own_relays(v.unassociated)
    &&& v.claimed_relay_ids.no_duplicates()
    &&& v.initialized == (v.period is Some)
    &&& v.initialized ==> recorded(v) == v.allocation && window_of(v).0 < window_of(v).1
    &&& !v.initialized ==> unpaid(v.payable)
}

/// The crowdloan that nothing has happened to.
pub open spec fn empty_crowdloan() -> CrowdloanView {
    CrowdloanView {
        allocation: 0,
        period: None,
        initialized: false,
        total_contributors: 0,
        payable: Seq::empty(),
        unassociated: Seq::empty(),
        claimed_relay_ids: Seq::empty(),
    }
}

/// One more; the counter stops at the largest `u32`.
pub open spec fn count_up(n: nat) -> nat {
    if n < u32::MAX {
        n + 1
    } else {
        n
    }
}

/// The crowdloan with another allocation.
pub open spec fn with_allocation(v: CrowdloanView, amount: nat) -> CrowdloanView {
    CrowdloanView { allocation: amount, ..v }
}

/// What a claim of `who` at block `now` gives: the state after it and the amount paid,
/// or the reason why it is rejected.
pub open spec fn claimed(v: CrowdloanView, who: AccountId, now: BlockNumber) -> Result<
    (CrowdloanView, nat),
    Error,
> {
    if !v.initialized {
        Err(Error::RewardVecNotFullyInitializedYet)
    } else if !has_key(v.payable, who) {
        Err(Error::NoAssociatedClaim)
    } else {
        let i = key_index(v.payable, who);
        let info = v.payable[i].1;
        let (start, end) = window_of(v);
        let amount = claimable(info.total_reward, info.claimed_reward, start, end, now) as nat;
        if amount == 0 && info.claimed_reward == info.total_reward {
            Err(Error::RewardsAlreadyClaimed)
        } else {
            let paid = RewardInfoView { claimed_reward: info.claimed_reward + amount, ..info };
            Ok((CrowdloanView { payable: v.payable.update(i, (who, paid)), ..v }, amount))
        }
    }
}

/// One contribution of a batch: the relay account that made it, the account of this
/// chain that it was made for, if one is known, and the reward that it earned.
pub type Contribution = (RelayAccountId, Option<AccountId>, Balance);

/// The sum of the rewards of a batch.
pub open spec fn batch_total(batch: Seq<Contribution>) -> nat
    decreases batch.len(),
{
    if batch.len() == 0 {
        0
    } else {
        batch_total(batch.drop_last()) + batch.last().2 as nat
    }
}

/// The reward of a single contribution of `relay`.
pub open spec fn single_reward(relay: RelayAccountId, amount: nat) -> RewardInfoView {
    RewardInfoView { total_reward: amount, claimed_reward: 0, relays: seq![relay] }
}

/// The table after `account` was given `info`: merged into the reward that it holds
/// already, or kept as a new entry at the end.
pub open spec fn received(
    payable: Seq<(AccountId, RewardInfoView)>,
    account: AccountId,
    info: RewardInfoView,
) -> Seq<(AccountId, RewardInfoView)> {
    if has_key(payable, account) {
        let j = key_index(payable, account);
        payable.update(j, (account, merge(payable[j].1, info)))
    } else {
        payable.push((account, info))
    }
}

/// The table of unassociated rewards after a contribution of `relay` was recorded.
pub open spec fn left_unassociated(
    unassociated: Seq<(RelayAccountId, RewardInfoView)>,
    relay: RelayAccountId,
    amount: nat,
) -> Seq<(RelayAccountId, RewardInfoView)> {
    if has_key(unassociated, relay) {
        let j = key_index(unassociated, relay);
        let info = unassociated[j].1;
        unassociated.update(
            j,
            (relay, RewardInfoView { total_reward: info.total_reward + amount, ..info }),
        )
    } else {
        unassociated.push((relay, single_reward(relay, amount)))
    }
}

/// The crowdloan after one contribution was recorded.
pub open spec fn with_contribution(v: CrowdloanView, c: Contribution) -> CrowdloanView {
    match c.1 {
        Some(account) => CrowdloanView {
            payable: received(v.payable, account, single_reward(c.0, c.2 as nat)),
            total_contributors: if has_key(v.payable, account) {
                v.total_contributors
            } else {
                count_up(v.total_contributors)
            },
            claimed_relay_ids: push_missing(v.claimed_relay_ids, c.0),
            ..v
        },
        None => CrowdloanView {
            unassociated: left_unassociated(v.unassociated, c.0, c.2 as nat),
            ..v
        },
    }
}

/// The crowdloan after the contributions of a batch were recorded, one after the other.
pub open spec fn with_contributions(v: CrowdloanView, batch: Seq<Contribution>) -> CrowdloanView
    decreases batch.len(),
{
    if batch.len() == 0 {
        v
    } else {
        with_contribution(with_contributions(v, batch.drop_last()), batch.last())
    }
}

/// Whether the batch goes beyond the allocation: with one of its contributions, what
/// was recorded before the batch and what the batch has brought up to there is more
/// than the allocation.
pub open spec fn beyond_fund_pot(v: CrowdloanView, batch: Seq<Contribution>) -> bool {
    exists|k: int|
        0 <= k < batch.len() && recorded(v) + #[trigger] batch_total(batch.take(k + 1))
            > v.allocation
}

/// What recording a batch gives, where at most `max` contributions are accepted at once.
pub open spec fn batch_recorded(v: CrowdloanView, batch: Seq<Contribution>, max: nat) -> Result<
    CrowdloanView,
    Error,
> {
    if v.initialized {
        Err(Error::RewardVecAlreadyInitialized)
    } else if batch.len() > max {
        Err(Error::TooManyContributors)
    } else if beyond_fund_pot(v, batch) {
        Err(Error::BatchBeyondFundPot)
    } else {
        Ok(with_contributions(v, batch))
    }
}

/// What is paid of a reward when the crowdloan closes.
pub open spec fn first_payment(payment: Perbill, info: RewardInfoView) -> nat {
    payment.of(info.total_reward as int) as nat
}

/// The rewards after each was paid its first payment.
pub open spec fn first_paid(payable: Seq<(AccountId, RewardInfoView)>, payment: Perbill) -> Seq<
    (AccountId, RewardInfoView),
> {
    Seq::new(
        payable.len(),
        |i: int|
            (
                payable[i].0,
                RewardInfoView {
                    claimed_reward: first_payment(payment, payable[i].1),
                    ..payable[i].1
                },
            ),
    )
}

/// The first payments: to each account, in the order of the table.
pub open spec fn first_payments(payable: Seq<(AccountId, RewardInfoView)>, payment: Perbill) -> Seq<
    (AccountId, Balance),
> {
    Seq::new(
        payable.len(),
        |i: int| (payable[i].0, first_payment(payment, payable[i].1) as Balance),
    )
}

/// What closing the crowdloan with the window from `start` to `end` gives: the state
/// after it and the payments to make, or the reason why it is rejected.
pub open spec fn completed(
    v: CrowdloanView,
    start: BlockNumber,
    end: BlockNumber,
    payment: Perbill,
) -> Result<(CrowdloanView, Seq<(AccountId, Balance)>), Error> {
    if v.initialized {
        Err(Error::RewardVecAlreadyInitialized)
    } else if start >= end {
        Err(Error::VestingPeriodNonValid)
    } else if recorded(v) != v.allocation {
        Err(Error::RewardsDoNotMatchFund)
    } else {
        Ok(
            (
                CrowdloanView {
                    period: Some((start, end)),
                    initialized: true,
                    payable: first_paid(v.payable, payment),
                    ..v
                },
                first_payments(v.payable, payment),
            ),
        )
    }
}

/// What a successful association reports.
pub struct Association {
    /// The state after it.
    pub state: CrowdloanView,
    /// What is paid to the account at once.
    pub paid: nat,
    /// The reward that the account has taken over.
    pub reward: nat,
}

/// What associating the contribution of `relay` with `target` gives, where
/// `signature_valid` says whether the relay account has signed for it.
pub open spec fn associated(
    v: CrowdloanView,
    target: AccountId,
    relay: RelayAccountId,
    signature_valid: bool,
    payment: Perbill,
) -> Result<Association, Error> {
    if v.claimed_relay_ids.contains(relay) {
        Err(Error::AlreadyAssociated)
    } else if !has_key(v.unassociated, relay) {
        Err(Error::NoAssociatedClaim)
    } else if !signature_valid {
        Err(Error::InvalidClaimSignature)
    } else {
        let i = key_index(v.unassociated, relay);
        let incoming = v.unassociated[i].1;
        let paid = if v.initialized {
            first_payment(payment, incoming)
        } else {
            0
        };
        Ok(
            Association {
                state: CrowdloanView {
                    payable: received(
                        v.payable,
                        target,
                        RewardInfoView { claimed_reward: paid, ..incoming },
                    ),
                    total_contributors: if has_key(v.payable, target) {
                        v.total_contributors
                    } else {
                        count_up(v.total_contributors)
                    },
                    unassociated: v.unassociated.remove(i),
                    claimed_relay_ids: v.claimed_relay_ids.push(relay),
                    ..v
                },
                paid,
                reward: incoming.total_reward,
            },
        )
    }
}

/// What moving the reward of `caller` to `new_account` gives.
pub open spec fn readdressed(v: CrowdloanView, caller: AccountId, new_account: AccountId) -> Result<
    CrowdloanView,
    Error,
> {
    if !has_key(v.payable, caller) {
        Err(Error::NoAssociatedClaim)
    } else if has_key(v.payable, new_account) {
        Err(Error::AlreadyAssociated)
    } else {
        let i = key_index(v.payable, caller);
        Ok(CrowdloanView { payable: v.payable.update(i, (new_account, v.payable[i].1)), ..v })
    }
}

/// What moving the reward of `old_account` to `new_account` gives, where `votes` of
/// its relay accounts have given a valid proof and `threshold` of them are asked for.
pub open spec fn reassociated(
    v: CrowdloanView,
    new_account: AccountId,
    old_account: AccountId,
    votes: nat,
    threshold: Perbill,
) -> Result<CrowdloanView, Error> {
    if !has_key(v.payable, old_account) {
        Err(Error::NoAssociatedClaim)
    } else {
        let i = key_index(v.payable, old_account);
        let info = v.payable[i].1;
        if !threshold.reached_by(votes as int, info.relays.len() as int) {
            Err(Error::InsufficientNumberOfValidProofs)
        } else {
            Ok(CrowdloanView { payable: received(v.payable.remove(i), new_account, info), ..v })
        }
    }
}

} // verus!
