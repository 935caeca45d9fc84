//! One crowdloan: its allocation, its vesting window and its rewards.

use vstd::prelude::*;
use crate::fraction::Perbill;
use crate::laws::{
    lemma_associated, lemma_batch_total_prefix, lemma_beyond_fund_pot, lemma_completed,
    lemma_first_payment, lemma_readdressed, lemma_reassociated, lemma_remove_valid,
    lemma_with_contribution, lemma_with_contributions,
};
use crate::model::{
    associated, batch_recorded, batch_total, beyond_fund_pot, claimed, completed, empty_crowdloan,
    first_paid, first_payments, left_unassociated, readdressed, reassociated, received, recorded,
    valid, with_allocation, with_contribution, with_contributions, Association, Contribution,
    CrowdloanView,
};
use crate::reward::{add_relay, contains_relay, info_valid, merge, RewardInfo, RewardInfoView};
use crate::table::{
    distinct_keys, entries_view, find_account, find_relay, has_key, infos_valid, lemma_key_index,
    lemma_total_one, lemma_total_update, lookup, total_rewards, Entry,
};
use crate::types::{AccountId, Balance, BlockNumber, Error, RelayAccountId};
use crate::vesting::{claimable_amount, lemma_claimable_bounds};

verus! {

/// Gives `account` the reward `info`: merged into the reward that it holds already, or
/// kept as a new entry at the end. Tells whether a new entry was made.
pub fn receive(payable: &mut Vec<Entry<AccountId>>, account: AccountId, info: RewardInfo) -> (created:
    bool)
    requires
        distinct_keys(entries_view(old(payable)@)),
        infos_valid(entries_view(old(payable)@)),
        info_valid(info@),
        total_rewards(entries_view(old(payable)@)) + info@.total_reward <= u128::MAX,
    ensures
        entries_view(final(payable)@) == received(entries_view(old(payable)@), account, info@),
        created == !has_key(entries_view(old(payable)@), account),
{
    let ghost before = entries_view(payable@);
    match find_account(payable, account) {
        Some(j) => {
            proof {
                assert(before[j as int].0 == account);
                lemma_key_index(before, account, j as int);
                lemma_total_one(before, j as int);
                assert(info_valid(before[j as int].1));
            }
            payable[j].info.absorb(&info);
            assert(entries_view(payable@) =~= before.update(
                j as int,
                (account, merge(before[j as int].1, info@)),
            ));
            false
        },
        None => {
            let ghost arriving = info@;
            payable.push(Entry { key: account, info });
            assert(entries_view(payable@) =~= before.push((account, arriving)));
            true
        },
    }
}

/// One crowdloan.
pub struct Crowdloan {
    allocation: Balance,
    period: Option<(BlockNumber, BlockNumber)>,
    initialized: bool,
    total_contributors: u32,
    recorded: Balance,
    payable: Vec<Entry<AccountId>>,
    unassociated: Vec<Entry<RelayAccountId>>,
    claimed_relay_ids: Vec<RelayAccountId>,
}

impl View for Crowdloan {
    type V = CrowdloanView;

    closed spec fn view(&self) -> CrowdloanView {
        CrowdloanView {
            allocation: self.allocation as nat,
            period: self.period,
            initialized: self.initialized,
            total_contributors: self.total_contributors as nat,
            payable: entries_view(self.payable@),
            unassociated: entries_view(self.unassociated@),
            claimed_relay_ids: self.claimed_relay_ids@,
        }
    }
}

impl Crowdloan {
    /// The crowdloan is sound, and the sum that it keeps of its rewards is right.
    pub open spec fn wf(&self) -> bool {
        &&& valid(self@)
        &&& self.sum_kept()
    }

    /// The sum that the crowdloan keeps of its rewards is right.
    pub closed spec fn sum_kept(&self) -> bool {
        self.recorded == recorded(self@)
    }

    /// A well-formed crowdloan keeps within the machine's numbers.
    pub proof fn lemma_wf(&self)
        requires
            self.wf(),
        ensures
            self@.allocation <= u128::MAX,
            self@.total_contributors <= u32::MAX,
            recorded(self@) <= u128::MAX,
    {
    }

    /// A crowdloan that nothing has happened to.
    pub fn new() -> (c: Crowdloan)
        ensures
            c.wf(),
            c@ == empty_crowdloan(),
    {
        let c = Crowdloan {
            allocation: 0,
            period: None,
            initialized: false,
            total_contributors: 0,
            recorded: 0,
            payable: Vec::new(),
            unassociated: Vec::new(),
            claimed_relay_ids: Vec::new(),
        };
        assert(c@.payable =~= Seq::empty());
        assert(c@.unassociated =~= Seq::empty());
        c
    }

    /// The amount that the recorded rewards have to add up to.
    pub fn allocation(&self) -> (amount: Balance)
        ensures
            amount == self@.allocation,
    {
        self.allocation
    }

    /// The vesting window, once the crowdloan is closed.
    pub fn period(&self) -> (window: Option<(BlockNumber, BlockNumber)>)
        ensures
            window == self@.period,
    {
        self.period
    }

    /// Whether the crowdloan is closed.
    pub fn initialized(&self) -> (closed: bool)
        ensures
            closed == self@.initialized,
    {
        self.initialized
    }

    /// How many accounts of this chain have been given a reward of their own.
    pub fn total_contributors(&self) -> (count: u32)
        ensures
            count == self@.total_contributors,
    {
        self.total_contributors
    }

    /// The sum of all rewards that have been recorded.
    pub fn recorded_rewards(&self) -> (sum: Balance)
        requires
            self.wf(),
        ensures
            sum == recorded(self@),
    {
        self.recorded
    }

    /// The reward of `who`, if one is recorded.
    pub fn accounts_payable(&self, who: AccountId) -> (info: Option<RewardInfo>)
        requires
            self.wf(),
        ensures
            match info {
                Some(found) => lookup(self@.payable, who) == Some(found@),
                None => lookup(self@.payable, who) is None,
            },
    {
        match find_account(&self.payable, who) {
            Some(i) => {
                proof {
                    assert(self@.payable[i as int].0 == who);
                    lemma_key_index(self@.payable, who, i as int);
                }
                Some(self.payable[i].info.copy())
            },
            None => None,
        }
    }

    /// The reward of the relay account, if no account of this chain has taken it yet.
    pub fn unassociated_contributions(&self, relay: &RelayAccountId) -> (info: Option<RewardInfo>)
        requires
            self.wf(),
        ensures
            match info {
                Some(found) => lookup(self@.unassociated, *relay) == Some(found@),
                None => lookup(self@.unassociated, *relay) is None,
            },
    {
        match find_relay(&self.unassociated, relay) {
            Some(i) => {
                proof {
                    assert(self@.unassociated[i as int].0 == *relay);
                    lemma_key_index(self@.unassociated, *relay, i as int);
                }
                Some(self.unassociated[i].info.copy())
            },
            None => None,
        }
    }

    /// Whether the contribution of the relay account has been taken.
    pub fn claimed_relay_chain_ids(&self, relay: &RelayAccountId) -> (taken: bool)
        ensures
            taken == self@.claimed_relay_ids.contains(*relay),
    {
        contains_relay(&self.claimed_relay_ids, relay)
    }

    /// Sets the allocation of a crowdloan that is not closed yet, and tells whether it
    /// did; a closed crowdloan keeps its allocation.
    pub fn set_allocation(&mut self, amount: Balance) -> (done: bool)
        requires
            old(self).wf(),
        ensures
            final(self).wf(),
            done == !old(self)@.initialized,
            final(self)@ == if done {
                with_allocation(old(self)@, amount as nat)
            } else {
                old(self)@
            },
    {
        if self.initialized {
            false
        } else {
            self.allocation = amount;
            true
        }
    }

    /// Records one contribution.
    fn record(&mut self, c: &Contribution)
        requires
            old(self).wf(),
            !old(self)@.initialized,
            recorded(old(self)@) + c.2 <= u128::MAX,
        ensures
            final(self).wf(),
            final(self)@ == with_contribution(old(self)@, *c),
    {
        let ghost before = self@;
        let relay: RelayAccountId = c.0;
        let amount: Balance = c.2;
        proof {
            lemma_with_contribution(before, *c);
        }
        match c.1 {
            Some(account) => {
                let info = RewardInfo::new(amount, relay);
                let created = receive(&mut self.payable, account, info);
                if created && self.total_contributors < u32::MAX {
                    self.total_contributors = self.total_contributors + 1;
                }
                add_relay(&mut self.claimed_relay_ids, relay);
            },
            None => {
                let ghost table = before.unassociated;
                match find_relay(&self.unassociated, &relay) {
                    Some(j) => {
                        proof {
                            assert(table[j as int].0 == relay);
                            lemma_key_index(table, relay, j as int);
                            lemma_total_one(table, j as int);
                        }
                        let grown: Balance = self.unassociated[j].info.total_reward + amount;
                        self.unassociated[j].info.total_reward = grown;
                        assert(entries_view(self.unassociated@) =~= left_unassociated(
                            table,
                            relay,
                            amount as nat,
                        ));
                    },
                    None => {
                        self.unassociated.push(
                            Entry { key: relay, info: RewardInfo::new(amount, relay) },
                        );
                        assert(entries_view(self.unassociated@) =~= left_unassociated(
                            table,
                            relay,
                            amount as nat,
                        ));
                    },
                }
            },
        }
        self.recorded = self.recorded + amount;
        assert(self@ == with_contribution(before, *c));
    }

    /// Records a batch of contributions, all of them or none: see [`batch_recorded`].
    pub fn initialize_reward_vec(&mut self, batch: &Vec<Contribution>, max: u32) -> (r: Result<
        (),
        Error,
    >)
        requires
            old(self).wf(),
        ensures
            final(self).wf(),
            match r {
                Ok(()) => batch_recorded(old(self)@, batch@, max as nat) == Ok::<
                    CrowdloanView,
                    Error,
                >(final(self)@),
                Err(e) => batch_recorded(old(self)@, batch@, max as nat) == Err::<
                    CrowdloanView,
                    Error,
                >(e) && final(self)@ == old(self)@,
            },
    {
        if self.initialized {
            return Err(Error::RewardVecAlreadyInitialized);
        }
        if batch.len() > max as usize {
            return Err(Error::TooManyContributors);
        }
        proof {
            lemma_beyond_fund_pot(self@, batch@);
        }
        if batch.len() == 0 {
            assert(batch@ =~= Seq::<Contribution>::empty());
            return Ok(());
        }
        if self.recorded > self.allocation {
            return Err(Error::BatchBeyondFundPot);
        }
        let room: Balance = self.allocation - self.recorded;
        let mut sum: Balance = 0;
        let mut i: usize = 0;
        while i < batch.len()
            invariant
                i <= batch.len(),
                0 < batch.len() <= max,
                *self == *old(self),
                self.wf(),
                !self.initialized,
                self.recorded <= self.allocation,
                room == self.allocation - self.recorded,
                sum == batch_total(batch@.take(i as int)),
                sum <= room,
                beyond_fund_pot(self@, batch@) <==> recorded(self@) + batch_total(batch@)
                    > self@.allocation,
            decreases batch.len() - i,
        {
            assert(batch@.take(i + 1).drop_last() =~= batch@.take(i as int));
            let amount: Balance = batch[i].2;
            if amount > room - sum {
                proof {
                    lemma_batch_total_prefix(batch@, i + 1);
                }
                return Err(Error::BatchBeyondFundPot);
            }
            sum = sum + amount;
            i = i + 1;
        }
        assert(batch@.take(batch.len() as int) =~= batch@);
        let ghost before = self@;
        let mut k: usize = 0;
        while k < batch.len()
            invariant
                k <= batch.len(),
                batch.len() <= max,
                self.wf(),
                valid(before),
                !before.initialized,
                before == old(self)@,
                self@ == with_contributions(before, batch@.take(k as int)),
                recorded(before) + batch_total(batch@) <= before.allocation,
                before.allocation <= u128::MAX,
            decreases batch.len() - k,
        {
            proof {
                assert(batch@.take(k + 1).drop_last() =~= batch@.take(k as int));
                lemma_with_contributions(before, batch@.take(k as int));
                lemma_batch_total_prefix(batch@, k + 1);
            }
            self.record(&batch[k]);
            k = k + 1;
        }
        assert(batch@.take(batch.len() as int) =~= batch@);
        Ok(())
    }

    /// Closes the crowdloan with the vesting window from `start` to `end` and returns
    /// the first payments to make: see [`completed`].
    pub fn complete_initialization(
        &mut self,
        start: BlockNumber,
        end: BlockNumber,
        payment: Perbill,
    ) -> (r: Result<Vec<(AccountId, Balance)>, Error>)
        requires
            old(self).wf(),
        ensures
            final(self).wf(),
            match r {
                Ok(payments) => completed(old(self)@, start, end, payment) == Ok::<
                    (CrowdloanView, Seq<(AccountId, Balance)>),
                    Error,
                >((final(self)@, payments@)),
                Err(e) => completed(old(self)@, start, end, payment) == Err::<
                    (CrowdloanView, Seq<(AccountId, Balance)>),
                    Error,
                >(e) && final(self)@ == old(self)@,
            },
    {
        proof {
            use_type_invariant(&payment);
        }
        if self.initialized {
            return Err(Error::RewardVecAlreadyInitialized);
        }
        if start >= end {
            return Err(Error::VestingPeriodNonValid);
        }
        if self.recorded != self.allocation {
            return Err(Error::RewardsDoNotMatchFund);
        }
        let ghost before = self@;
        let mut payments: Vec<(AccountId, Balance)> = Vec::new();
        let mut i: usize = 0;
        while i < self.payable.len()
            invariant
                i <= self.payable.len(),
                payment.wf(),
                before == old(self)@,
                self.payable.len() == before.payable.len(),
                self.allocation == old(self).allocation,
                self.period == old(self).period,
                self.initialized == old(self).initialized,
                self.total_contributors == old(self).total_contributors,
                self.recorded == old(self).recorded,
                self.unassociated == old(self).unassociated,
                self.claimed_relay_ids == old(self).claimed_relay_ids,
                forall|j: int|
                    0 <= j < i ==> (#[trigger] entries_view(self.payable@)[j]) == first_paid(
                        before.payable,
                        payment,
                    )[j],
                forall|j: int|
                    i <= j < self.payable.len() ==> (#[trigger] entries_view(self.payable@)[j])
                        == before.payable[j],
                payments@ == first_payments(before.payable, payment).take(i as int),
            decreases self.payable.len() - i,
        {
            let total: Balance = self.payable[i].info.total_reward;
            let account: AccountId = self.payable[i].key;
            let amount: Balance = payment.mul_floor(total);
            proof {
                assert(entries_view(self.payable@)[i as int] == before.payable[i as int]);
                lemma_first_payment(payment, before.payable[i as int].1);
            }
            let ghost table = entries_view(self.payable@);
            self.payable[i].info.claimed_reward = amount;
            payments.push((account, amount));
            proof {
                assert forall|j: int| 0 <= j < i + 1 implies (#[trigger] entries_view(
                    self.payable@,
                )[j]) == first_paid(before.payable, payment)[j] by {
                    if j < i {
                        assert(table[j] == first_paid(before.payable, payment)[j]);
                    }
                }
                assert forall|j: int| i + 1 <= j < self.payable.len() implies (
                #[trigger] entries_view(self.payable@)[j]) == before.payable[j] by {
                    assert(table[j] == before.payable[j]);
                }
                assert(first_payments(before.payable, payment).take(i + 1) =~= first_payments(
                    before.payable,
                    payment,
                ).take(i as int).push((account, amount)));
            }
            i = i + 1;
        }
        self.period = Some((start, end));
        self.initialized = true;
        proof {
            lemma_completed(before, start, end, payment);
            assert(entries_view(self.payable@) =~= first_paid(before.payable, payment));
            assert(payments@ =~= first_payments(before.payable, payment));
        }
        Ok(payments)
    }

    /// Gives `target` the reward that is kept for `relay`, where `signature_valid` says
    /// whether the relay account has signed for it, and returns what is paid at once and
    /// the reward taken over: see [`associated`].
    pub fn associate_native_identity(
        &mut self,
        target: AccountId,
        relay: RelayAccountId,
        signature_valid: bool,
        payment: Perbill,
    ) -> (r: Result<(Balance, Balance), Error>)
        requires
            old(self).wf(),
        ensures
            final(self).wf(),
            match r {
                Ok((paid, reward)) => associated(
                    old(self)@,
                    target,
                    relay,
                    signature_valid,
                    payment,
                ) == Ok::<Association, Error>(
                    Association { state: final(self)@, paid: paid as nat, reward: reward as nat },
                ),
                Err(e) => associated(old(self)@, target, relay, signature_valid, payment) == Err::<
                    Association,
                    Error,
                >(e) && final(self)@ == old(self)@,
            },
    {
        proof {
            use_type_invariant(&payment);
        }
        if contains_relay(&self.claimed_relay_ids, &relay) {
            return Err(Error::AlreadyAssociated);
        }
        let i: usize = match find_relay(&self.unassociated, &relay) {
            Some(i) => i,
            None => { return Err(Error::NoAssociatedClaim); },
        };
        let ghost before = self@;
        proof {
            assert(before.unassociated[i as int].0 == relay);
            lemma_key_index(before.unassociated, relay, i as int);
        }
        if !signature_valid {
            return Err(Error::InvalidClaimSignature);
        }
        proof {
            lemma_total_one(before.unassociated, i as int);
            lemma_associated(before, target, relay, signature_valid, payment);
            assert(info_valid(before.unassociated[i as int].1));
            lemma_first_payment(payment, before.unassociated[i as int].1);
        }
        let entry = self.unassociated.remove(i);
        assert(entries_view(self.unassociated@) =~= before.unassociated.remove(i as int));
        let mut info = entry.info;
        let reward: Balance = info.total_reward;
        let paid: Balance = if self.initialized {
            payment.mul_floor(reward)
        } else {
            0
        };
        info.claimed_reward = paid;
        let created = receive(&mut self.payable, target, info);
        if created && self.total_contributors < u32::MAX {
            self.total_contributors = self.total_contributors + 1;
        }
        self.claimed_relay_ids.push(relay);
        Ok((paid, reward))
    }

    /// Moves the reward of `caller` to `new_account`, which must hold none: see
    /// [`readdressed`].
    pub fn update_reward_address(&mut self, caller: AccountId, new_account: AccountId) -> (r: Result<
        (),
        Error,
    >)
        requires
            old(self).wf(),
        ensures
            final(self).wf(),
            match r {
                Ok(()) => readdressed(old(self)@, caller, new_account) == Ok::<
                    CrowdloanView,
                    Error,
                >(final(self)@),
                Err(e) => readdressed(old(self)@, caller, new_account) == Err::<
                    CrowdloanView,
                    Error,
                >(e) && final(self)@ == old(self)@,
            },
    {
        let i: usize = match find_account(&self.payable, caller) {
            Some(i) => i,
            None => { return Err(Error::NoAssociatedClaim); },
        };
        let ghost before = self@;
        proof {
            assert(before.payable[i as int].0 == caller);
            lemma_key_index(before.payable, caller, i as int);
        }
        match find_account(&self.payable, new_account) {
            Some(j) => {
                assert(before.payable[j as int].0 == new_account);
                return Err(Error::AlreadyAssociated);
            },
            None => {},
        }
        proof {
            lemma_readdressed(before, caller, new_account);
        }
        self.payable[i].key = new_account;
        assert(entries_view(self.payable@) =~= before.payable.update(
            i as int,
            (new_account, before.payable[i as int].1),
        ));
        Ok(())
    }

    /// Moves the reward of `old_account` to `new_account`, where `votes` of its relay
    /// accounts have given a valid proof and `threshold` of them are asked for: see
    /// [`reassociated`].
    pub fn change_association_with_relay_keys(
        &mut self,
        new_account: AccountId,
        old_account: AccountId,
        votes: usize,
        threshold: Perbill,
    ) -> (r: Result<(), Error>)
        requires
            old(self).wf(),
        ensures
            final(self).wf(),
            match r {
                Ok(()) => reassociated(
                    old(self)@,
                    new_account,
                    old_account,
                    votes as nat,
                    threshold,
                ) == Ok::<CrowdloanView, Error>(final(self)@),
                Err(e) => reassociated(
                    old(self)@,
                    new_account,
                    old_account,
                    votes as nat,
                    threshold,
                ) == Err::<CrowdloanView, Error>(e) && final(self)@ == old(self)@,
            },
    {
        let i: usize = match find_account(&self.payable, old_account) {
            Some(i) => i,
            None => { return Err(Error::NoAssociatedClaim); },
        };
        let ghost before = self@;
        proof {
            assert(before.payable[i as int].0 == old_account);
            lemma_key_index(before.payable, old_account, i as int);
        }
        let relays: usize = self.payable[i].info.contributed_relay_addresses.len();
        if !threshold.is_reached_by(votes as u64, relays as u64) {
            return Err(Error::InsufficientNumberOfValidProofs);
        }
        proof {
            lemma_reassociated(before, new_account, old_account, votes as nat, threshold);
            lemma_remove_valid(before.payable, i as int);
            assert(info_valid(before.payable[i as int].1));
        }
        let entry = self.payable.remove(i);
        assert(entries_view(self.payable@) =~= before.payable.remove(i as int));
        receive(&mut self.payable, new_account, entry.info);
        Ok(())
    }

    /// Pays `who` what has vested at block `now` and was not paid before, and returns
    /// the amount: see [`claimed`].
    pub fn claim(&mut self, who: AccountId, now: BlockNumber) -> (r: Result<Balance, Error>)
        requires
            old(self).wf(),
        ensures
            final(self).wf(),
            match r {
                Ok(paid) => claimed(old(self)@, who, now) == Ok::<(CrowdloanView, nat), Error>(
                    (final(self)@, paid as nat),
                ),
                Err(e) => claimed(old(self)@, who, now) == Err::<(CrowdloanView, nat), Error>(e)
                    && final(self)@ == old(self)@,
            },
    {
        let (start, end) = match self.period {
            Some(window) => window,
            None => { return Err(Error::RewardVecNotFullyInitializedYet); },
        };
        let i: usize = match find_account(&self.payable, who) {
            Some(i) => i,
            None => { return Err(Error::NoAssociatedClaim); },
        };
        let ghost before = self@;
        proof {
            assert(before.payable[i as int].0 == who);
            lemma_key_index(before.payable, who, i as int);
            assert(info_valid(before.payable[i as int].1));
        }
        let total: Balance = self.payable[i].info.total_reward;
        let already: Balance = self.payable[i].info.claimed_reward;
        let amount: Balance = claimable_amount(total, already, start, end, now);
        if amount == 0 && already == total {
            return Err(Error::RewardsAlreadyClaimed);
        }
        proof {
            lemma_claimable_bounds(total as nat, already as nat, start, end, now);
        }
        self.payable[i].info.claimed_reward = already + amount;
        proof {
            let after = self@;
            let paid = RewardInfoView {
                claimed_reward: (already + amount) as nat,
                ..before.payable[i as int].1
            };
            assert(after.payable =~= before.payable.update(i as int, (who, paid)));
            assert(after.unassociated =~= before.unassociated);
            lemma_total_update(before.payable, i as int, (who, paid));
        }
        Ok(amount)
    }
}

} // verus!
