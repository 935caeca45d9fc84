//! What holds of every crowdloan, whatever is done to it.

use vstd::prelude::*;
use crate::fraction::{lemma_mul_div_bounds, Perbill, BILLION};
use crate::model::{
    associated, batch_total, beyond_fund_pot, claimed, completed, first_paid, first_payment,
    left_unassociated, own_relays, readdressed, reassociated, received, recorded, single_reward,
    unpaid, valid, window_of, with_contribution, with_contributions, Contribution, CrowdloanView,
};
use crate::reward::{
    info_valid, lemma_merge_valid, lemma_union_relays, merge, push_missing, RewardInfoView,
};
use crate::table::{
    distinct_keys, has_key, infos_valid, key_index, lemma_key_index, lemma_lookup_push,
    lemma_lookup_remove, lemma_lookup_update_new_key, lemma_lookup_update_same_key,
    lemma_push_new_key, lemma_remove_key, lemma_total_push, lemma_total_remove, lemma_total_update,
    lemma_update_new_key, lemma_update_same_key, lookup, total_rewards,
};
use crate::types::{AccountId, BlockNumber, Error, RelayAccountId};
use crate::vesting::{
    claimable, lemma_claimable_bounds, lemma_claimable_completes, lemma_claimable_spent,
    lemma_vested_at_start,
};

verus! {

/// Giving an account a sound reward keeps the table sound and adds the reward to its sum.
pub proof fn lemma_received(
    payable: Seq<(AccountId, RewardInfoView)>,
    account: AccountId,
    info: RewardInfoView,
)
    requires
        distinct_keys(payable),
        infos_valid(payable),
        info_valid(info),
    ensures
        distinct_keys(received(payable, account, info)),
        infos_valid(received(payable, account, info)),
        total_rewards(received(payable, account, info)) == total_rewards(payable)
            + info.total_reward,
        forall|k: AccountId|
            has_key(received(payable, account, info), k) <==> has_key(payable, k) || k == account,
        unpaid(payable) && info.claimed_reward == 0 ==> unpaid(received(payable, account, info)),
{
    let after = received(payable, account, info);
    if has_key(payable, account) {
        let j = key_index(payable, account);
        let entry = (account, merge(payable[j].1, info));
        lemma_merge_valid(payable[j].1, info);
        lemma_total_update(payable, j, entry);
        lemma_update_same_key(payable, j, entry);
        assert forall|i: int| 0 <= i < after.len() implies info_valid((#[trigger] after[i]).1) by {
            if i != j {
                assert(after[i] == payable[i]);
            }
        }
        if unpaid(payable) && info.claimed_reward == 0 {
            assert forall|i: int| 0 <= i < after.len() implies (#[trigger] after[i]).1.claimed_reward
                == 0 by {
                assert(payable[i].1.claimed_reward == 0);
            }
        }
    } else {
        let entry = (account, info);
        lemma_total_push(payable, entry);
        lemma_push_new_key(payable, entry);
        assert forall|i: int| 0 <= i < after.len() implies info_valid((#[trigger] after[i]).1) by {
            if i < payable.len() {
                assert(after[i] == payable[i]);
            }
        }
        if unpaid(payable) && info.claimed_reward == 0 {
            assert forall|i: int| 0 <= i < after.len() implies (#[trigger] after[i]).1.claimed_reward
                == 0 by {
                if i < payable.len() {
                    assert(after[i] == payable[i]);
                }
            }
        }
    }
}

/// The reward of a single contribution is sound.
pub proof fn lemma_single_reward(relay: RelayAccountId, amount: nat)
    ensures
        info_valid(single_reward(relay, amount)),
{
}

/// Recording an unassociated contribution keeps the table sound and adds the reward to
/// its sum.
pub proof fn lemma_left_unassociated(
    unassociated: Seq<(RelayAccountId, RewardInfoView)>,
    relay: RelayAccountId,
    amount: nat,
)
    requires
        distinct_keys(unassociated),
        infos_valid(unassociated),
        own_relays(unassociated),
    ensures
        distinct_keys(left_unassociated(unassociated, relay, amount)),
        infos_valid(left_unassociated(unassociated, relay, amount)),
        own_relays(left_unassociated(unassociated, relay, amount)),
        total_rewards(left_unassociated(unassociated, relay, amount)) == total_rewards(
            unassociated,
        ) + amount,
{
    let after = left_unassociated(unassociated, relay, amount);
    if has_key(unassociated, relay) {
        let j = key_index(unassociated, relay);
        let info = unassociated[j].1;
        let entry = (relay, RewardInfoView { total_reward: info.total_reward + amount, ..info });
        lemma_total_update(unassociated, j, entry);
        lemma_update_same_key(unassociated, j, entry);
        assert(info_valid(info));
        assert forall|i: int| 0 <= i < after.len() implies info_valid((#[trigger] after[i]).1) by {
            if i != j {
                assert(after[i] == unassociated[i]);
            }
        }
        assert forall|i: int| 0 <= i < after.len() implies {
            &&& (#[trigger] after[i]).1.claimed_reward == 0
            &&& after[i].1.relays == seq![after[i].0]
        } by {
            assert(unassociated[i].1.claimed_reward == 0);
        }
    } else {
        let entry = (relay, single_reward(relay, amount));
        lemma_total_push(unassociated, entry);
        lemma_push_new_key(unassociated, entry);
        assert forall|i: int| 0 <= i < after.len() implies info_valid((#[trigger] after[i]).1) by {
            if i < unassociated.len() {
                assert(after[i] == unassociated[i]);
            }
        }
        assert forall|i: int| 0 <= i < after.len() implies {
            &&& (#[trigger] after[i]).1.claimed_reward == 0
            &&& after[i].1.relays == seq![after[i].0]
        } by {
            if i < unassociated.len() {
                assert(after[i] == unassociated[i]);
            }
        }
    }
}

/// With one more element, or without, a sequence without repetition stays so.
pub proof fn lemma_push_missing_no_duplicates(relays: Seq<RelayAccountId>, relay: RelayAccountId)
    requires
        relays.no_duplicates(),
    ensures
        push_missing(relays, relay).no_duplicates(),
{
}

/// A part of a batch from its start sums to no more than the whole batch.
pub proof fn lemma_batch_total_prefix(batch: Seq<Contribution>, n: int)
    requires
        0 <= n <= batch.len(),
    ensures
        batch_total(batch.take(n)) <= batch_total(batch),
    decreases batch.len() - n,
{
    if n < batch.len() {
        assert(batch.take(n + 1).drop_last() =~= batch.take(n));
        lemma_batch_total_prefix(batch, n + 1);
    } else {
        assert(batch.take(n) =~= batch);
    }
}

/// The rewards grow with every contribution, so a batch goes beyond the allocation at
/// one of its contributions exactly when it is not empty and does so as a whole.
pub proof fn lemma_beyond_fund_pot(v: CrowdloanView, batch: Seq<Contribution>)
    ensures
        beyond_fund_pot(v, batch) <==> batch.len() > 0 && recorded(v) + batch_total(batch)
            > v.allocation,
{
    if beyond_fund_pot(v, batch) {
        let k = choose|k: int|
            0 <= k < batch.len() && recorded(v) + #[trigger] batch_total(batch.take(k + 1))
                > v.allocation;
        lemma_batch_total_prefix(batch, k + 1);
    }
    if batch.len() > 0 && recorded(v) + batch_total(batch) > v.allocation {
        let last = batch.len() - 1;
        assert(batch.take(last + 1) =~= batch);
        assert(recorded(v) + batch_total(batch.take(last + 1)) > v.allocation);
    }
}

/// Recording a contribution keeps an open crowdloan sound and open, and adds the
/// reward to what it has recorded.
pub proof fn lemma_with_contribution(v: CrowdloanView, c: Contribution)
    requires
        valid(v),
        !v.initialized,
    ensures
        valid(with_contribution(v, c)),
        !with_contribution(v, c).initialized,
        with_contribution(v, c).allocation == v.allocation,
        recorded(with_contribution(v, c)) == recorded(v) + c.2,
{
    match c.1 {
        Some(account) => {
            lemma_single_reward(c.0, c.2 as nat);
            lemma_received(v.payable, account, single_reward(c.0, c.2 as nat));
            lemma_push_missing_no_duplicates(v.claimed_relay_ids, c.0);
        },
        None => {
            lemma_left_unassociated(v.unassociated, c.0, c.2 as nat);
        },
    }
}

/// Recording a batch keeps an open crowdloan sound and open, and adds the rewards of
/// the batch to what it has recorded.
pub proof fn lemma_with_contributions(v: CrowdloanView, batch: Seq<Contribution>)
    requires
        valid(v),
        !v.initialized,
    ensures
        valid(with_contributions(v, batch)),
        !with_contributions(v, batch).initialized,
        with_contributions(v, batch).allocation == v.allocation,
        recorded(with_contributions(v, batch)) == recorded(v) + batch_total(batch),
    decreases batch.len(),
{
    if batch.len() > 0 {
        lemma_with_contributions(v, batch.drop_last());
        lemma_with_contribution(with_contributions(v, batch.drop_last()), batch.last());
    }
}

/// The first payment of a reward is no more than the reward.
pub proof fn lemma_first_payment(payment: Perbill, info: RewardInfoView)
    requires
        payment.wf(),
    ensures
        first_payment(payment, info) <= info.total_reward,
        first_payment(payment, info) == payment.of(info.total_reward as int),
{
    lemma_mul_div_bounds(info.total_reward as int, payment.parts(), BILLION as int);
}

/// The sum of a table goes by the whole rewards alone.
pub proof fn lemma_total_same<K>(a: Seq<(K, RewardInfoView)>, b: Seq<(K, RewardInfoView)>)
    requires
        a.len() == b.len(),
        forall|i: int|
            0 <= i < a.len() ==> (#[trigger] a[i]).1.total_reward == (#[trigger] b[i]).1.total_reward,
    ensures
        total_rewards(a) == total_rewards(b),
    decreases a.len(),
{
    if a.len() > 0 {
        assert(a.last().1.total_reward == b.last().1.total_reward);
        assert forall|i: int| 0 <= i < a.drop_last().len() implies (#[trigger] a.drop_last()[i]).1.total_reward
            == (#[trigger] b.drop_last()[i]).1.total_reward by {
            assert(a[i].1.total_reward == b[i].1.total_reward);
        }
        lemma_total_same(a.drop_last(), b.drop_last());
    }
}

/// Closing a sound crowdloan leaves it sound: from then on its rewards add up to its
/// allocation, and none is paid beyond its whole.
pub proof fn lemma_completed(v: CrowdloanView, start: BlockNumber, end: BlockNumber, payment: Perbill)
    requires
        valid(v),
        payment.wf(),
        completed(v, start, end, payment) is Ok,
    ensures
        valid(completed(v, start, end, payment)->Ok_0.0),
        completed(v, start, end, payment)->Ok_0.0.initialized,
        recorded(completed(v, start, end, payment)->Ok_0.0) == v.allocation,
        completed(v, start, end, payment)->Ok_0.0.allocation == v.allocation,
{
    let after = completed(v, start, end, payment)->Ok_0.0;
    let paid = first_paid(v.payable, payment);
    assert forall|i: int| 0 <= i < paid.len() implies info_valid((#[trigger] paid[i]).1) by {
        assert(info_valid(v.payable[i].1));
        lemma_first_payment(payment, v.payable[i].1);
    }
    assert forall|a: int, b: int| 0 <= a < b < paid.len() implies (#[trigger] paid[a]).0 != (
    #[trigger] paid[b]).0 by {
        assert(v.payable[a].0 != v.payable[b].0);
    }
    lemma_total_same(paid, v.payable);
}

/// A claim leaves a sound crowdloan sound, and pays no reward beyond its whole.
pub proof fn lemma_claimed(v: CrowdloanView, who: AccountId, now: BlockNumber)
    requires
        valid(v),
        claimed(v, who, now) is Ok,
    ensures
        valid(claimed(v, who, now)->Ok_0.0),
        recorded(claimed(v, who, now)->Ok_0.0) == recorded(v),
        claimed(v, who, now)->Ok_0.0.allocation == v.allocation,
        claimed(v, who, now)->Ok_0.0.initialized,
{
    let after = claimed(v, who, now)->Ok_0.0;
    let i = key_index(v.payable, who);
    let info = v.payable[i].1;
    let (start, end) = window_of(v);
    assert(info_valid(info));
    lemma_claimable_bounds(info.total_reward, info.claimed_reward, start, end, now);
    let amount = claimable(info.total_reward, info.claimed_reward, start, end, now) as nat;
    let entry = (who, RewardInfoView { claimed_reward: info.claimed_reward + amount, ..info });
    lemma_update_same_key(v.payable, i, entry);
    lemma_total_update(v.payable, i, entry);
    assert forall|j: int| 0 <= j < after.payable.len() implies info_valid(
        (#[trigger] after.payable[j]).1,
    ) by {
        if j != i {
            assert(after.payable[j] == v.payable[j]);
        }
    }
}

/// An association leaves a sound crowdloan sound and moves the reward from one table
/// to the other, so that the sum of all rewards stays what it was.
pub proof fn lemma_associated(
    v: CrowdloanView,
    target: AccountId,
    relay: RelayAccountId,
    signature_valid: bool,
    payment: Perbill,
)
    requires
        valid(v),
        payment.wf(),
        associated(v, target, relay, signature_valid, payment) is Ok,
    ensures
        valid(associated(v, target, relay, signature_valid, payment)->Ok_0.state),
        recorded(associated(v, target, relay, signature_valid, payment)->Ok_0.state) == recorded(v),
        associated(v, target, relay, signature_valid, payment)->Ok_0.state.allocation
            == v.allocation,
        associated(v, target, relay, signature_valid, payment)->Ok_0.state.initialized
            == v.initialized,
        associated(v, target, relay, signature_valid, payment)->Ok_0.paid <= associated(
            v,
            target,
            relay,
            signature_valid,
            payment,
        )->Ok_0.reward,
{
    let outcome = associated(v, target, relay, signature_valid, payment)->Ok_0;
    let after = outcome.state;
    let i = key_index(v.unassociated, relay);
    let incoming = v.unassociated[i].1;
    assert(info_valid(incoming));
    lemma_first_payment(payment, incoming);
    let arriving = RewardInfoView { claimed_reward: outcome.paid, ..incoming };
    lemma_received(v.payable, target, arriving);
    lemma_remove_key(v.unassociated, i);
    lemma_total_remove(v.unassociated, i);
    let rest = v.unassociated.remove(i);
    assert forall|j: int| 0 <= j < rest.len() implies #[trigger] rest[j] == v.unassociated[if j
        < i {
        j
    } else {
        j + 1
    }] by {}
    assert forall|j: int| 0 <= j < rest.len() implies info_valid((#[trigger] rest[j]).1) by {
        let j1 = if j < i { j } else { j + 1 };
        assert(info_valid(v.unassociated[j1].1));
    }
    assert forall|j: int| 0 <= j < rest.len() implies {
        &&& (#[trigger] rest[j]).1.claimed_reward == 0
        &&& rest[j].1.relays == seq![rest[j].0]
    } by {
        let j1 = if j < i { j } else { j + 1 };
        assert(v.unassociated[j1].1.claimed_reward == 0);
    }
}

/// Moving a reward to a new account of its owner's choice leaves a sound crowdloan
/// sound and every reward as it was.
pub proof fn lemma_readdressed(v: CrowdloanView, caller: AccountId, new_account: AccountId)
    requires
        valid(v),
        readdressed(v, caller, new_account) is Ok,
    ensures
        valid(readdressed(v, caller, new_account)->Ok_0),
        recorded(readdressed(v, caller, new_account)->Ok_0) == recorded(v),
        readdressed(v, caller, new_account)->Ok_0.allocation == v.allocation,
        readdressed(v, caller, new_account)->Ok_0.initialized == v.initialized,
{
    let after = readdressed(v, caller, new_account)->Ok_0;
    let i = key_index(v.payable, caller);
    let entry = (new_account, v.payable[i].1);
    lemma_update_new_key(v.payable, i, entry);
    lemma_total_update(v.payable, i, entry);
    assert forall|j: int| 0 <= j < after.payable.len() implies info_valid(
        (#[trigger] after.payable[j]).1,
    ) by {
        assert(info_valid(v.payable[j].1));
    }
    if !v.initialized {
        assert forall|j: int| 0 <= j < after.payable.len() implies (
        #[trigger] after.payable[j]).1.claimed_reward == 0 by {
            assert(v.payable[j].1.claimed_reward == 0);
        }
    }
}

/// Taking an entry out of a sound table leaves a sound table.
pub proof fn lemma_remove_valid(payable: Seq<(AccountId, RewardInfoView)>, i: int)
    requires
        distinct_keys(payable),
        infos_valid(payable),
        0 <= i < payable.len(),
    ensures
        distinct_keys(payable.remove(i)),
        infos_valid(payable.remove(i)),
        unpaid(payable) ==> unpaid(payable.remove(i)),
        total_rewards(payable.remove(i)) + payable[i].1.total_reward == total_rewards(payable),
{
    lemma_remove_key(payable, i);
    lemma_total_remove(payable, i);
    let rest = payable.remove(i);
    assert forall|j: int| 0 <= j < rest.len() implies #[trigger] rest[j] == payable[if j < i {
        j
    } else {
        j + 1
    }] by {}
    assert forall|j: int| 0 <= j < rest.len() implies info_valid((#[trigger] rest[j]).1) by {
        let j1 = if j < i { j } else { j + 1 };
        assert(info_valid(payable[j1].1));
    }
    if unpaid(payable) {
        assert forall|j: int| 0 <= j < rest.len() implies (#[trigger] rest[j]).1.claimed_reward
            == 0 by {
            let j1 = if j < i { j } else { j + 1 };
            assert(payable[j1].1.claimed_reward == 0);
        }
    }
}

/// Moving a reward on the word of its relay accounts leaves a sound crowdloan sound
/// and the sum of all rewards what it was.
pub proof fn lemma_reassociated(
    v: CrowdloanView,
    new_account: AccountId,
    old_account: AccountId,
    votes: nat,
    threshold: Perbill,
)
    requires
        valid(v),
        reassociated(v, new_account, old_account, votes, threshold) is Ok,
    ensures
        valid(reassociated(v, new_account, old_account, votes, threshold)->Ok_0),
        recorded(reassociated(v, new_account, old_account, votes, threshold)->Ok_0) == recorded(v),
        reassociated(v, new_account, old_account, votes, threshold)->Ok_0.allocation
            == v.allocation,
        reassociated(v, new_account, old_account, votes, threshold)->Ok_0.initialized
            == v.initialized,
{
    let i = key_index(v.payable, old_account);
    let info = v.payable[i].1;
    assert(info_valid(info));
    lemma_remove_valid(v.payable, i);
    lemma_received(v.payable.remove(i), new_account, info);
    if !v.initialized {
        assert(info.claimed_reward == 0);
    }
}

/// In a sound crowdloan that is closed, the rewards add up to the allocation.
pub proof fn lemma_conservation(v: CrowdloanView)
    requires
        valid(v),
        v.initialized,
    ensures
        total_rewards(v.payable) + total_rewards(v.unassociated) == v.allocation,
{
}

/// In a sound crowdloan, no reward is paid beyond its whole.
pub proof fn lemma_never_overpaid(v: CrowdloanView)
    requires
        valid(v),
    ensures
        forall|account: AccountId|
            (#[trigger] lookup(v.payable, account)) is Some ==> lookup(
                v.payable,
                account,
            )->0.claimed_reward <= lookup(v.payable, account)->0.total_reward,
        forall|relay: RelayAccountId|
            (#[trigger] lookup(v.unassociated, relay)) is Some ==> lookup(
                v.unassociated,
                relay,
            )->0.claimed_reward <= lookup(v.unassociated, relay)->0.total_reward,
{
    assert forall|account: AccountId| (#[trigger] lookup(v.payable, account)) is Some implies lookup(
        v.payable,
        account,
    )->0.claimed_reward <= lookup(v.payable, account)->0.total_reward by {
        if has_key(v.payable, account) {
            assert(info_valid(v.payable[key_index(v.payable, account)].1));
        }
    }
    assert forall|relay: RelayAccountId| (#[trigger] lookup(v.unassociated, relay)) is Some implies lookup(
        v.unassociated,
        relay,
    )->0.claimed_reward <= lookup(v.unassociated, relay)->0.total_reward by {
        if has_key(v.unassociated, relay) {
            assert(info_valid(v.unassociated[key_index(v.unassociated, relay)].1));
        }
    }
}

/// A second claim at the same block pays nothing and changes nothing: it succeeds with
/// an amount of zero, or it is rejected because the whole reward has been paid.
pub proof fn lemma_claim_twice(v: CrowdloanView, who: AccountId, now: BlockNumber)
    requires
        valid(v),
        claimed(v, who, now) is Ok,
    ensures
        match claimed(claimed(v, who, now)->Ok_0.0, who, now) {
            Ok(second) => second.1 == 0 && second.0 == claimed(v, who, now)->Ok_0.0,
            Err(e) => e == Error::RewardsAlreadyClaimed,
        },
{
    let first = claimed(v, who, now)->Ok_0.0;
    let i = key_index(v.payable, who);
    let info = v.payable[i].1;
    let (start, end) = window_of(v);
    assert(info_valid(info));
    lemma_claimable_bounds(info.total_reward, info.claimed_reward, start, end, now);
    lemma_claimable_spent(info.total_reward, info.claimed_reward, start, end, now);
    let amount = claimable(info.total_reward, info.claimed_reward, start, end, now) as nat;
    let entry = (who, RewardInfoView { claimed_reward: info.claimed_reward + amount, ..info });
    lemma_update_same_key(v.payable, i, entry);
    lemma_key_index(first.payable, who, i);
    match claimed(first, who, now) {
        Ok(second) => {
            assert(second.0.payable =~= first.payable);
        },
        Err(e) => {},
    }
}

/// A claim pays the difference between what the account has received after it and
/// before it, and from the end of the vesting window on it leaves the whole reward paid.
pub proof fn lemma_claim_pays(v: CrowdloanView, who: AccountId, now: BlockNumber)
    requires
        valid(v),
        claimed(v, who, now) is Ok,
    ensures
        lookup(v.payable, who) is Some,
        lookup(claimed(v, who, now)->Ok_0.0.payable, who) is Some,
        lookup(claimed(v, who, now)->Ok_0.0.payable, who)->0.total_reward == lookup(
            v.payable,
            who,
        )->0.total_reward,
        lookup(claimed(v, who, now)->Ok_0.0.payable, who)->0.relays == lookup(
            v.payable,
            who,
        )->0.relays,
        lookup(claimed(v, who, now)->Ok_0.0.payable, who)->0.claimed_reward == lookup(
            v.payable,
            who,
        )->0.claimed_reward + claimed(v, who, now)->Ok_0.1,
        now >= window_of(v).1 ==> lookup(
            claimed(v, who, now)->Ok_0.0.payable,
            who,
        )->0.claimed_reward == lookup(v.payable, who)->0.total_reward,
        forall|other: AccountId|
            other != who ==> lookup(claimed(v, who, now)->Ok_0.0.payable, other) == lookup(
                v.payable,
                other,
            ),
{
    let i = key_index(v.payable, who);
    let info = v.payable[i].1;
    let (start, end) = window_of(v);
    assert(info_valid(info));
    lemma_claimable_bounds(info.total_reward, info.claimed_reward, start, end, now);
    if now >= end {
        lemma_claimable_completes(info.total_reward, info.claimed_reward, start, end, now);
    }
    let amount = claimable(info.total_reward, info.claimed_reward, start, end, now) as nat;
    let entry = (who, RewardInfoView { claimed_reward: info.claimed_reward + amount, ..info });
    lemma_lookup_update_same_key(v.payable, i, entry);
}

/// At the first block of the window, and before it, the first payment is all that an
/// account has: nothing has vested yet, so a claim pays nothing.
pub proof fn lemma_nothing_vested_at_start(v: CrowdloanView, who: AccountId, now: BlockNumber)
    requires
        valid(v),
        v.initialized,
        now <= window_of(v).0,
    ensures
        match claimed(v, who, now) {
            Ok(paid) => paid.1 == 0 && paid.0 == v,
            Err(e) => e == Error::NoAssociatedClaim || e == Error::RewardsAlreadyClaimed,
        },
{
    if has_key(v.payable, who) {
        let i = key_index(v.payable, who);
        let info = v.payable[i].1;
        let (start, end) = window_of(v);
        lemma_vested_at_start(info.total_reward, start, end, now);
        match claimed(v, who, now) {
            Ok(paid) => {
                assert(paid.0.payable =~= v.payable);
            },
            Err(e) => {},
        }
    }
}

/// The whole reward that `account` holds; nothing where it holds none.
pub open spec fn reward_of(payable: Seq<(AccountId, RewardInfoView)>, account: AccountId) -> nat {
    match lookup(payable, account) {
        Some(info) => info.total_reward,
        None => 0,
    }
}

/// The relay accounts that earned the reward of `account`; none where it holds none.
pub open spec fn relay_set_of(
    payable: Seq<(AccountId, RewardInfoView)>,
    account: AccountId,
) -> Set<RelayAccountId> {
    match lookup(payable, account) {
        Some(info) => info.relays.to_set(),
        None => Set::empty(),
    }
}

/// An account that is given a reward then holds it together with what it held before:
/// the sum of the rewards and the relay accounts of both. No other account is touched.
pub proof fn lemma_received_lookup(
    payable: Seq<(AccountId, RewardInfoView)>,
    account: AccountId,
    info: RewardInfoView,
)
    requires
        distinct_keys(payable),
    ensures
        lookup(received(payable, account, info), account) is Some,
        reward_of(received(payable, account, info), account) == reward_of(payable, account)
            + info.total_reward,
        relay_set_of(received(payable, account, info), account) == relay_set_of(
            payable,
            account,
        ).union(info.relays.to_set()),
        forall|other: AccountId|
            other != account ==> lookup(received(payable, account, info), other) == lookup(
                payable,
                other,
            ),
{
    if has_key(payable, account) {
        let j = key_index(payable, account);
        let merged = merge(payable[j].1, info);
        lemma_lookup_update_same_key(payable, j, (account, merged));
        lemma_union_relays(payable[j].1.relays, info.relays);
        assert(merged.relays.to_set() =~= payable[j].1.relays.to_set().union(info.relays.to_set()));
    } else {
        lemma_lookup_push(payable, (account, info));
        assert(info.relays.to_set() =~= Set::<RelayAccountId>::empty().union(
            info.relays.to_set(),
        ));
    }
}

/// After an association the account holds the reward of the relay account together
/// with what it held before, and that relay account among its own.
pub proof fn lemma_associated_lookup(
    v: CrowdloanView,
    target: AccountId,
    relay: RelayAccountId,
    signature_valid: bool,
    payment: Perbill,
)
    requires
        valid(v),
        associated(v, target, relay, signature_valid, payment) is Ok,
    ensures
        lookup(v.unassociated, relay) is Some,
        associated(v, target, relay, signature_valid, payment)->Ok_0.reward == lookup(
            v.unassociated,
            relay,
        )->0.total_reward,
        lookup(
            associated(v, target, relay, signature_valid, payment)->Ok_0.state.unassociated,
            relay,
        ) is None,
        associated(
            v,
            target,
            relay,
            signature_valid,
            payment,
        )->Ok_0.state.claimed_relay_ids.contains(relay),
        reward_of(
            associated(v, target, relay, signature_valid, payment)->Ok_0.state.payable,
            target,
        ) == reward_of(v.payable, target) + associated(
            v,
            target,
            relay,
            signature_valid,
            payment,
        )->Ok_0.reward,
        relay_set_of(
            associated(v, target, relay, signature_valid, payment)->Ok_0.state.payable,
            target,
        ) == relay_set_of(v.payable, target).insert(relay),
        forall|other: AccountId|
            other != target ==> lookup(
                associated(v, target, relay, signature_valid, payment)->Ok_0.state.payable,
                other,
            ) == lookup(v.payable, other),
{
    let outcome = associated(v, target, relay, signature_valid, payment)->Ok_0;
    let i = key_index(v.unassociated, relay);
    let incoming = v.unassociated[i].1;
    let arriving = RewardInfoView { claimed_reward: outcome.paid, ..incoming };
    lemma_received_lookup(v.payable, target, arriving);
    lemma_lookup_remove(v.unassociated, i);
    assert(incoming.relays == seq![relay]);
    assert(seq![relay].to_set() =~= Set::<RelayAccountId>::empty().insert(relay)) by {
        assert(seq![relay][0] == relay);
    }
    assert(relay_set_of(v.payable, target).union(Set::<RelayAccountId>::empty().insert(relay))
        =~= relay_set_of(v.payable, target).insert(relay));
    assert(outcome.state.claimed_relay_ids[v.claimed_relay_ids.len() as int] == relay);
}

/// After its owner moved a reward, the new account holds exactly what the old one
/// held, and the old one holds nothing. No other account is touched.
pub proof fn lemma_readdressed_lookup(v: CrowdloanView, caller: AccountId, new_account: AccountId)
    requires
        valid(v),
        readdressed(v, caller, new_account) is Ok,
    ensures
        caller != new_account,
        lookup(readdressed(v, caller, new_account)->Ok_0.payable, new_account) == lookup(
            v.payable,
            caller,
        ),
        lookup(v.payable, caller) is Some,
        lookup(readdressed(v, caller, new_account)->Ok_0.payable, caller) is None,
        forall|other: AccountId|
            other != caller && other != new_account ==> lookup(
                readdressed(v, caller, new_account)->Ok_0.payable,
                other,
            ) == lookup(v.payable, other),
{
    let i = key_index(v.payable, caller);
    lemma_lookup_update_new_key(v.payable, i, (new_account, v.payable[i].1));
}

/// After its relay accounts moved a reward, the new account holds it together with
/// what it held before, and the old account, where it is another, holds nothing. No
/// other account is touched.
pub proof fn lemma_reassociated_lookup(
    v: CrowdloanView,
    new_account: AccountId,
    old_account: AccountId,
    votes: nat,
    threshold: Perbill,
)
    requires
        valid(v),
        reassociated(v, new_account, old_account, votes, threshold) is Ok,
    ensures
        lookup(v.payable, old_account) is Some,
        threshold.reached_by(votes as int, lookup(v.payable, old_account)->0.relays.len() as int),
        reward_of(
            reassociated(v, new_account, old_account, votes, threshold)->Ok_0.payable,
            new_account,
        ) == reward_of(v.payable, old_account) + if new_account != old_account {
            reward_of(v.payable, new_account)
        } else {
            0
        },
        relay_set_of(
            reassociated(v, new_account, old_account, votes, threshold)->Ok_0.payable,
            new_account,
        ) == relay_set_of(v.payable, old_account).union(
            if new_account != old_account {
                relay_set_of(v.payable, new_account)
            } else {
                Set::empty()
            },
        ),
        new_account != old_account ==> lookup(
            reassociated(v, new_account, old_account, votes, threshold)->Ok_0.payable,
            old_account,
        ) is None,
        forall|other: AccountId|
            other != old_account && other != new_account ==> lookup(
                reassociated(v, new_account, old_account, votes, threshold)->Ok_0.payable,
                other,
            ) == lookup(v.payable, other),
{
    let i = key_index(v.payable, old_account);
    let info = v.payable[i].1;
    let rest = v.payable.remove(i);
    lemma_remove_key(v.payable, i);
    lemma_lookup_remove(v.payable, i);
    lemma_received_lookup(rest, new_account, info);
    let after = received(rest, new_account, info);
    if new_account != old_account {
        assert(relay_set_of(rest, new_account).union(info.relays.to_set()) =~= info.relays.to_set().union(
            relay_set_of(v.payable, new_account),
        ));
    } else {
        assert(relay_set_of(rest, new_account).union(info.relays.to_set()) =~= info.relays.to_set().union(
            Set::empty(),
        ));
    }
}

/// A reward that is associated with `first`, moved by its owner to `second` and moved
/// by its relay accounts to `third` arrives whole: `third` then holds the reward of the
/// relay account, what `first` held before, and what `third` held itself, with the
/// relay accounts of all three; and the crowdloan has recorded as much as before.
pub proof fn lemma_round_trip(
    v: CrowdloanView,
    relay: RelayAccountId,
    signature_valid: bool,
    payment: Perbill,
    first: AccountId,
    second: AccountId,
    third: AccountId,
    votes: nat,
    threshold: Perbill,
)
    requires
        valid(v),
        payment.wf(),
        associated(v, first, relay, signature_valid, payment) is Ok,
        readdressed(
            associated(v, first, relay, signature_valid, payment)->Ok_0.state,
            first,
            second,
        ) is Ok,
        reassociated(
            readdressed(
                associated(v, first, relay, signature_valid, payment)->Ok_0.state,
                first,
                second,
            )->Ok_0,
            third,
            second,
            votes,
            threshold,
        ) is Ok,
    ensures
        ({
            let v1 = associated(v, first, relay, signature_valid, payment)->Ok_0.state;
            let v2 = readdressed(v1, first, second)->Ok_0;
            let v3 = reassociated(v2, third, second, votes, threshold)->Ok_0;
            let kept = third != first && third != second;
            &&& valid(v3)
            &&& recorded(v3) == recorded(v)
            &&& reward_of(v3.payable, third) == lookup(v.unassociated, relay)->0.total_reward
                + reward_of(v.payable, first) + if kept {
                reward_of(v.payable, third)
            } else {
                0
            }
            &&& relay_set_of(v3.payable, third) == relay_set_of(v.payable, first).insert(
                relay,
            ).union(
                if kept {
                    relay_set_of(v.payable, third)
                } else {
                    Set::empty()
                },
            )
        }),
{
    let v1 = associated(v, first, relay, signature_valid, payment)->Ok_0.state;
    let v2 = readdressed(v1, first, second)->Ok_0;
    let v3 = reassociated(v2, third, second, votes, threshold)->Ok_0;
    lemma_associated(v, first, relay, signature_valid, payment);
    lemma_associated_lookup(v, first, relay, signature_valid, payment);
    lemma_readdressed(v1, first, second);
    lemma_readdressed_lookup(v1, first, second);
    lemma_reassociated(v2, third, second, votes, threshold);
    lemma_reassociated_lookup(v2, third, second, votes, threshold);
    if third != first && third != second {
        assert(lookup(v2.payable, third) == lookup(v.payable, third));
    } else if third == first {
        assert(lookup(v2.payable, third) is None);
        assert(relay_set_of(v2.payable, second).union(Set::empty()) =~= relay_set_of(
            v2.payable,
            second,
        ));
    } else {
        assert(relay_set_of(v2.payable, second).union(Set::empty()) =~= relay_set_of(
            v2.payable,
            second,
        ));
    }
}

} // verus!
