//! The rewards of all crowdloans, the calls that change them and the events they raise.

use vstd::prelude::*;
use crate::clock::BlockProvider;
use crate::crowdloan::Crowdloan;
use crate::laws::{lemma_associated, lemma_claim_twice, lemma_claimed};
use crate::model::{
    associated, batch_recorded, claimed, completed, empty_crowdloan, readdressed, reassociated,
    recorded, valid, with_allocation, Contribution, CrowdloanView,
};
use crate::quorum::{count_votes, voters, RelayProof};
use crate::reward::RewardInfo;
use crate::signature::{
    association_message, association_payload, reassociation_message, reassociation_payload,
    signature_valid, verify, Signature,
};
use crate::table::lookup;
use crate::types::{
    AccountId, Balance, BlockNumber, Config, CrowdloanId, DispatchError, Error, Event, Origin,
    RelayAccountId,
};

verus! {

/// What a [`CrowdloanRewards`] stands for.
pub struct RewardsView {
    /// The crowdloans, each at the place of its number.
    pub crowdloans: Seq<CrowdloanView>,
    /// The events raised so far, the oldest first.
    pub events: Seq<Event>,
}

/// The crowdloan that calls act on: the one that was opened last.
pub open spec fn current(v: RewardsView) -> CrowdloanView {
    v.crowdloans.last()
}

/// The same rewards with another current crowdloan.
pub open spec fn with_current(v: RewardsView, c: CrowdloanView) -> RewardsView {
    RewardsView { crowdloans: v.crowdloans.update(v.crowdloans.len() - 1, c), ..v }
}

/// The same rewards with one more event.
pub open spec fn with_event(v: RewardsView, event: Event) -> RewardsView {
    RewardsView { events: v.events.push(event), ..v }
}

/// What holds of the rewards at all times: there is a current crowdloan, every
/// crowdloan is sound, and all but the current one are closed.
pub open spec fn sound(v: RewardsView) -> bool {
    &&& v.crowdloans.len() >= 1
    &&& forall|i: int| 0 <= i < v.crowdloans.len() ==> valid(#[trigger] v.crowdloans[i])
    &&& forall|i: int| 0 <= i < v.crowdloans.len() - 1 ==> (#[trigger] v.crowdloans[i]).initialized
}

/// The rewards after the allocation was set: for the current crowdloan while it is
/// open, else for a new one, which becomes the current crowdloan.
pub open spec fn allocated(v: RewardsView, amount: nat) -> RewardsView {
    if current(v).initialized {
        RewardsView { crowdloans: v.crowdloans.push(with_allocation(empty_crowdloan(), amount)), ..v }
    } else {
        with_current(v, with_allocation(current(v), amount))
    }
}

/// What a claim of `who` at block `now` gives, on the crowdloan `id` or else on the
/// current one: the rewards after it and the amount paid.
pub open spec fn claim_outcome(
    v: RewardsView,
    who: AccountId,
    id: Option<CrowdloanId>,
    now: BlockNumber,
) -> Result<(RewardsView, Balance), Error> {
    let place = match id {
        Some(i) => i as int,
        None => v.crowdloans.len() - 1,
    };
    if place >= v.crowdloans.len() {
        Err(Error::RewardVecNotFullyInitializedYet)
    } else {
        match claimed(v.crowdloans[place], who, now) {
            Ok((c, paid)) => Ok(
                (
                    RewardsView {
                        crowdloans: v.crowdloans.update(place, c),
                        events: if paid > 0 {
                            v.events.push(Event::RewardsPaid(who, paid as Balance))
                        } else {
                            v.events
                        },
                    },
                    paid as Balance,
                ),
            ),
            Err(e) => Err(e),
        }
    }
}

/// What associating the contribution of `relay` with `target` gives: the rewards after
/// it and the amount paid at once.
pub open spec fn association_outcome(
    v: RewardsView,
    config: Config,
    target: AccountId,
    relay: RelayAccountId,
    signature: Signature,
) -> Result<(RewardsView, Balance), Error> {
    let message = association_message(config.signature_network_identifier@, target);
    match associated(
        current(v),
        target,
        relay,
        signature_valid(signature, message, relay),
        config.initialization_payment,
    ) {
        Ok(a) => Ok(
            (
                with_event(
                    with_current(v, a.state),
                    Event::NativeIdentityAssociated(relay, target, a.reward as Balance),
                ),
                a.paid as Balance,
            ),
        ),
        Err(e) => Err(e),
    }
}

/// What moving the reward of `caller` to `new_account` gives.
pub open spec fn update_outcome(v: RewardsView, caller: AccountId, new_account: AccountId) -> Result<
    RewardsView,
    Error,
> {
    match readdressed(current(v), caller, new_account) {
        Ok(c) => Ok(with_event(with_current(v, c), Event::RewardAddressUpdated(caller, new_account))),
        Err(e) => Err(e),
    }
}

/// The relay accounts of the reward of `account`; none where it holds no reward.
pub open spec fn relays_of(c: CrowdloanView, account: AccountId) -> Seq<RelayAccountId> {
    match lookup(c.payable, account) {
        Some(info) => info.relays,
        None => Seq::empty(),
    }
}

/// How many relay accounts of `old_account` have given a valid proof for moving its
/// reward to `new_account`.
pub open spec fn votes_for(
    v: RewardsView,
    config: Config,
    new_account: AccountId,
    old_account: AccountId,
    proofs: Seq<RelayProof>,
) -> nat {
    voters(
        proofs,
        relays_of(current(v), old_account),
        reassociation_message(config.signature_network_identifier@, new_account, old_account),
    ).len()
}

/// What moving the reward of `old_account` to `new_account` on the word of its relay
/// accounts gives.
pub open spec fn change_outcome(
    v: RewardsView,
    config: Config,
    new_account: AccountId,
    old_account: AccountId,
    proofs: Seq<RelayProof>,
) -> Result<RewardsView, Error> {
    match reassociated(
        current(v),
        new_account,
        old_account,
        votes_for(v, config, new_account, old_account, proofs),
        config.reward_address_relay_vote_threshold,
    ) {
        Ok(c) => Ok(
            with_event(with_current(v, c), Event::ReassociationCompleted(old_account, new_account)),
        ),
        Err(e) => Err(e),
    }
}

/// In sound rewards every crowdloan is sound, and the rewards of each closed one add up
/// to its allocation.
pub proof fn lemma_sound_conserves(v: RewardsView, id: CrowdloanId)
    requires
        sound(v),
        id < v.crowdloans.len(),
    ensures
        valid(v.crowdloans[id as int]),
        v.crowdloans[id as int].initialized ==> recorded(v.crowdloans[id as int])
            == v.crowdloans[id as int].allocation,
{
}

/// Setting the allocation leaves sound rewards sound, and every closed crowdloan as it
/// was.
pub proof fn lemma_allocated(v: RewardsView, amount: nat)
    requires
        sound(v),
    ensures
        sound(allocated(v, amount)),
        forall|id: int|
            0 <= id < v.crowdloans.len() && (#[trigger] v.crowdloans[id]).initialized ==> allocated(
                v,
                amount,
            ).crowdloans[id] == v.crowdloans[id],
{
    let after = allocated(v, amount);
    assert(valid(with_allocation(empty_crowdloan(), amount))) by {
        assert(empty_crowdloan().payable.len() == 0);
        assert(recorded(empty_crowdloan()) == 0);
    }
    assert(valid(current(v)));
    assert forall|i: int| 0 <= i < after.crowdloans.len() implies valid(
        #[trigger] after.crowdloans[i],
    ) by {
        if i < v.crowdloans.len() - 1 {
            assert(valid(v.crowdloans[i]));
        }
    }
    assert forall|i: int| 0 <= i < after.crowdloans.len() - 1 implies (
    #[trigger] after.crowdloans[i]).initialized by {
        if i < v.crowdloans.len() - 1 {
            assert(v.crowdloans[i].initialized);
        }
    }
}

/// A claim leaves sound rewards sound.
pub proof fn lemma_claim_outcome(
    v: RewardsView,
    who: AccountId,
    id: Option<CrowdloanId>,
    now: BlockNumber,
)
    requires
        sound(v),
        claim_outcome(v, who, id, now) is Ok,
    ensures
        sound(claim_outcome(v, who, id, now)->Ok_0.0),
{
    let place = match id {
        Some(i) => i as int,
        None => v.crowdloans.len() - 1,
    };
    let after = claim_outcome(v, who, id, now)->Ok_0.0;
    assert(valid(v.crowdloans[place]));
    lemma_claimed(v.crowdloans[place], who, now);
    assert forall|i: int| 0 <= i < after.crowdloans.len() implies valid(
        #[trigger] after.crowdloans[i],
    ) by {
        if i != place {
            assert(valid(v.crowdloans[i]));
        }
    }
    assert forall|i: int| 0 <= i < after.crowdloans.len() - 1 implies (
    #[trigger] after.crowdloans[i]).initialized by {
        if i != place {
            assert(v.crowdloans[i].initialized);
        }
    }
}

/// A second claim at the same block pays nothing, raises no event and changes nothing:
/// it succeeds with an amount of zero, or it is rejected because the whole reward has
/// been paid.
pub proof fn lemma_claim_outcome_twice(
    v: RewardsView,
    who: AccountId,
    id: Option<CrowdloanId>,
    now: BlockNumber,
)
    requires
        sound(v),
        claim_outcome(v, who, id, now) is Ok,
    ensures
        match claim_outcome(claim_outcome(v, who, id, now)->Ok_0.0, who, id, now) {
            Ok(second) => second.1 == 0 && second.0 == claim_outcome(v, who, id, now)->Ok_0.0,
            Err(e) => e == Error::RewardsAlreadyClaimed,
        },
{
    let place = match id {
        Some(i) => i as int,
        None => v.crowdloans.len() - 1,
    };
    let first = claim_outcome(v, who, id, now)->Ok_0.0;
    assert(valid(v.crowdloans[place]));
    lemma_claim_twice(v.crowdloans[place], who, now);
    match claim_outcome(first, who, id, now) {
        Ok(second) => {
            assert(second.0.crowdloans =~= first.crowdloans);
        },
        Err(e) => {},
    }
}

/// Sound rewards stay sound when a sound crowdloan takes the place of the current one,
/// and when an event is raised.
pub proof fn lemma_with_current(v: RewardsView, c: CrowdloanView)
    requires
        sound(v),
        valid(c),
    ensures
        sound(with_current(v, c)),
        forall|event: Event| sound(with_event(with_current(v, c), event)),
{
    let after = with_current(v, c);
    assert forall|i: int| 0 <= i < after.crowdloans.len() implies valid(
        #[trigger] after.crowdloans[i],
    ) by {
        if i < v.crowdloans.len() - 1 {
            assert(valid(v.crowdloans[i]));
        }
    }
    assert forall|i: int| 0 <= i < after.crowdloans.len() - 1 implies (
    #[trigger] after.crowdloans[i]).initialized by {
        assert(v.crowdloans[i].initialized);
    }
    assert forall|event: Event| sound(with_event(after, event)) by {
        assert(with_event(after, event).crowdloans == after.crowdloans);
    }
}

/// The rewards of all crowdloans.
pub struct CrowdloanRewards {
    config: Config,
    crowdloans: Vec<Crowdloan>,
    events: Vec<Event>,
}

impl View for CrowdloanRewards {
    type V = RewardsView;

    closed spec fn view(&self) -> RewardsView {
        RewardsView {
            crowdloans: Seq::new(self.crowdloans@.len(), |i: int| self.crowdloans@[i]@),
            events: self.events@,
        }
    }
}

impl CrowdloanRewards {
    /// The parameters that the rewards were set up with.
    pub closed spec fn config(&self) -> Config {
        self.config
    }

    /// The rewards are sound, and so is what they are kept in.
    pub open spec fn wf(&self) -> bool {
        &&& sound(self@)
        &&& self.config().wf()
        &&& self.parts_wf()
    }

    /// Every crowdloan is well-formed.
    pub closed spec fn parts_wf(&self) -> bool {
        forall|i: int| 0 <= i < self.crowdloans.len() ==> (#[trigger] self.crowdloans@[i]).wf()
    }

    /// Rewards with one crowdloan, number 0, that nothing has happened to.
    pub fn new(config: Config) -> (rewards: CrowdloanRewards)
        ensures
            rewards.wf(),
            rewards.config() == config,
            rewards@.crowdloans == seq![empty_crowdloan()],
            rewards@.events == Seq::<Event>::empty(),
    {
        proof {
            use_type_invariant(&config.initialization_payment);
            use_type_invariant(&config.reward_address_relay_vote_threshold);
        }
        let mut crowdloans: Vec<Crowdloan> = Vec::new();
        crowdloans.push(Crowdloan::new());
        let rewards = CrowdloanRewards { config, crowdloans, events: Vec::new() };
        assert(rewards@.crowdloans =~= seq![empty_crowdloan()]);
        rewards
    }

    /// Rewards with one crowdloan, number 0, that has the allocation `funded_amount` and
    /// nothing else.
    pub fn genesis(config: Config, funded_amount: Balance) -> (rewards: CrowdloanRewards)
        ensures
            rewards.wf(),
            rewards.config() == config,
            rewards@.crowdloans == seq![with_allocation(empty_crowdloan(), funded_amount as nat)],
            rewards@.events == Seq::<Event>::empty(),
    {
        let mut rewards = CrowdloanRewards::new(config);
        let _ = rewards.set_crowdloan_allocation(Origin::Root, funded_amount);
        assert(rewards@.crowdloans =~= seq![
            with_allocation(empty_crowdloan(), funded_amount as nat),
        ]);
        rewards
    }

    /// The longest batch of contributions that is accepted in one call.
    pub fn max_batch_contributors(&self) -> (max: u32)
        ensures
            max == self.config().max_init_contributors,
    {
        self.config.max_init_contributors
    }

    /// The number of the current crowdloan.
    pub fn get_crowdloan_id(&self) -> (id: CrowdloanId)
        requires
            self.wf(),
        ensures
            id == self@.crowdloans.len() - 1,
    {
        (self.crowdloans.len() - 1) as u64
    }

    /// The place of the crowdloan `id`, if there is one.
    fn place_of(&self, id: CrowdloanId) -> (place: Option<usize>)
        ensures
            match place {
                Some(i) => i == id && i < self.crowdloans.len(),
                None => id >= self.crowdloans.len(),
            },
    {
        if id < self.crowdloans.len() as u64 {
            Some(id as usize)
        } else {
            None
        }
    }

    /// The allocation of the crowdloan `id`; nothing where there is no such crowdloan.
    pub fn get_crowdloan_allocation(&self, id: CrowdloanId) -> (amount: Balance)
        ensures
            amount == if id < self@.crowdloans.len() {
                self@.crowdloans[id as int].allocation
            } else {
                0
            },
    {
        match self.place_of(id) {
            Some(i) => self.crowdloans[i].allocation(),
            None => 0,
        }
    }

    /// The vesting window of the crowdloan `id`, once it is closed.
    pub fn crowdloan_period(&self, id: CrowdloanId) -> (window: Option<(BlockNumber, BlockNumber)>)
        ensures
            window == if id < self@.crowdloans.len() {
                self@.crowdloans[id as int].period
            } else {
                None
            },
    {
        match self.place_of(id) {
            Some(i) => self.crowdloans[i].period(),
            None => None,
        }
    }

    /// Whether the current crowdloan is closed.
    pub fn initialized(&self) -> (closed: bool)
        requires
            self.wf(),
        ensures
            closed == current(self@).initialized,
    {
        self.crowdloans[self.crowdloans.len() - 1].initialized()
    }

    /// How many accounts have been given a reward of their own in the current crowdloan.
    pub fn total_contributors(&self) -> (count: u32)
        requires
            self.wf(),
        ensures
            count == current(self@).total_contributors,
    {
        self.crowdloans[self.crowdloans.len() - 1].total_contributors()
    }

    /// The reward of `who` in the current crowdloan, if one is recorded.
    pub fn accounts_payable(&self, who: AccountId) -> (info: Option<RewardInfo>)
        requires
            self.wf(),
        ensures
            match info {
                Some(found) => lookup(current(self@).payable, who) == Some(found@),
                None => lookup(current(self@).payable, who) is None,
            },
    {
        self.crowdloans[self.crowdloans.len() - 1].accounts_payable(who)
    }

    /// The reward that the current crowdloan keeps for the relay account, if no account
    /// of this chain has taken it yet.
    pub fn unassociated_contributions(&self, relay: &RelayAccountId) -> (info: Option<RewardInfo>)
        requires
            self.wf(),
        ensures
            match info {
                Some(found) => lookup(current(self@).unassociated, *relay) == Some(found@),
                None => lookup(current(self@).unassociated, *relay) is None,
            },
    {
        self.crowdloans[self.crowdloans.len() - 1].unassociated_contributions(relay)
    }

    /// Whether the contribution of the relay account has been taken in the current
    /// crowdloan.
    pub fn claimed_relay_chain_ids(&self, relay: &RelayAccountId) -> (taken: bool)
        requires
            self.wf(),
        ensures
            taken == current(self@).claimed_relay_ids.contains(*relay),
    {
        self.crowdloans[self.crowdloans.len() - 1].claimed_relay_chain_ids(relay)
    }

    /// Sets the allocation, for the administrator: see [`allocated`].
    pub fn set_crowdloan_allocation(&mut self, origin: Origin, amount: Balance) -> (r: Result<
        (),
        DispatchError,
    >)
        requires
            old(self).wf(),
        ensures
            final(self).wf(),
            final(self).config() == old(self).config(),
            match r {
                Ok(()) => origin is Root && final(self)@ == allocated(old(self)@, amount as nat),
                Err(e) => !(origin is Root) && e == DispatchError::BadOrigin && final(self)@
                    == old(self)@,
            },
    {
        match origin {
            Origin::Root => {},
            _ => { return Err(DispatchError::BadOrigin); },
        }
        let last: usize = self.crowdloans.len() - 1;
        let ghost before = self@;
        if self.crowdloans[last].initialized() {
            let mut fresh = Crowdloan::new();
            fresh.set_allocation(amount);
            self.crowdloans.push(fresh);
            assert(self@.crowdloans =~= before.crowdloans.push(
                with_allocation(empty_crowdloan(), amount as nat),
            ));
        } else {
            self.crowdloans[last].set_allocation(amount);
            assert(self@.crowdloans =~= before.crowdloans.update(
                last as int,
                with_allocation(current(before), amount as nat),
            ));
        }
        Ok(())
    }

    /// Records a batch of contributions in the current crowdloan, all of them or none,
    /// for the administrator: see [`batch_recorded`].
    pub fn initialize_reward_vec(&mut self, origin: Origin, batch: Vec<Contribution>) -> (r: Result<
        (),
        DispatchError,
    >)
        requires
            old(self).wf(),
        ensures
            final(self).wf(),
            final(self).config() == old(self).config(),
            match r {
                Ok(()) => {
                    &&& origin is Root
                    &&& batch_recorded(
                        current(old(self)@),
                        batch@,
                        old(self).config().max_init_contributors as nat,
                    ) == Ok::<CrowdloanView, Error>(current(final(self)@))
                    &&& final(self)@ == with_current(old(self)@, current(final(self)@))
                },
                Err(DispatchError::BadOrigin) => !(origin is Root) && final(self)@ == old(self)@,
                Err(DispatchError::Module(e)) => {
                    &&& origin is Root
                    &&& batch_recorded(
                        current(old(self)@),
                        batch@,
                        old(self).config().max_init_contributors as nat,
                    ) == Err::<CrowdloanView, Error>(e)
                    &&& final(self)@ == old(self)@
                },
            },
    {
        match origin {
            Origin::Root => {},
            _ => { return Err(DispatchError::BadOrigin); },
        }
        let last: usize = self.crowdloans.len() - 1;
        let ghost before = self@;
        let r = self.crowdloans[last].initialize_reward_vec(&batch, self.config.max_init_contributors);
        proof {
            assert(self@.crowdloans =~= before.crowdloans.update(last as int, current(self@)));
            if r is Err {
                assert(self@.crowdloans =~= before.crowdloans);
            }
        }
        match r {
            Ok(()) => Ok(()),
            Err(e) => Err(DispatchError::Module(e)),
        }
    }

    /// Closes the current crowdloan with the vesting window from `start` to `end`, for
    /// the administrator, and returns the first payments to make: see [`completed`].
    pub fn complete_initialization(
        &mut self,
        origin: Origin,
        start: BlockNumber,
        end: BlockNumber,
    ) -> (r: Result<Vec<(AccountId, Balance)>, DispatchError>)
        requires
            old(self).wf(),
        ensures
            final(self).wf(),
            final(self).config() == old(self).config(),
            match r {
                Ok(payments) => {
                    &&& origin is Root
                    &&& completed(
                        current(old(self)@),
                        start,
                        end,
                        old(self).config().initialization_payment,
                    ) == Ok::<(CrowdloanView, Seq<(AccountId, Balance)>), Error>(
                        (current(final(self)@), payments@),
                    )
                    &&& final(self)@ == with_current(old(self)@, current(final(self)@))
                },
                Err(DispatchError::BadOrigin) => !(origin is Root) && final(self)@ == old(self)@,
                Err(DispatchError::Module(e)) => {
                    &&& origin is Root
                    &&& completed(
                        current(old(self)@),
                        start,
                        end,
                        old(self).config().initialization_payment,
                    ) == Err::<(CrowdloanView, Seq<(AccountId, Balance)>), Error>(e)
                    &&& final(self)@ == old(self)@
                },
            },
    {
        match origin {
            Origin::Root => {},
            _ => { return Err(DispatchError::BadOrigin); },
        }
        let last: usize = self.crowdloans.len() - 1;
        let ghost before = self@;
        let r = self.crowdloans[last].complete_initialization(
            start,
            end,
            self.config.initialization_payment,
        );
        proof {
            assert(self@.crowdloans =~= before.crowdloans.update(last as int, current(self@)));
            if r is Err {
                assert(self@.crowdloans =~= before.crowdloans);
            }
        }
        match r {
            Ok(payments) => Ok(payments),
            Err(e) => Err(DispatchError::Module(e)),
        }
    }

    /// Pays the account that signed the call what has vested at the block that `clock`
    /// shows and was not paid before, in the crowdloan `id` or else in the current one,
    /// and returns the amount: see [`claim_outcome`].
    pub fn claim<P: BlockProvider>(&mut self, clock: &P, origin: Origin, id: Option<CrowdloanId>) -> (r:
        Result<Balance, DispatchError>)
        requires
            old(self).wf(),
        ensures
            final(self).wf(),
            final(self).config() == old(self).config(),
            match r {
                Ok(paid) => origin matches Origin::Signed(who) && claim_outcome(
                    old(self)@,
                    who,
                    id,
                    clock.block_number(),
                ) == Ok::<(RewardsView, Balance), Error>((final(self)@, paid)),
                Err(DispatchError::BadOrigin) => !(origin is Signed) && final(self)@ == old(self)@,
                Err(DispatchError::Module(e)) => origin matches Origin::Signed(who)
                    && claim_outcome(old(self)@, who, id, clock.block_number()) == Err::<
                    (RewardsView, Balance),
                    Error,
                >(e) && final(self)@ == old(self)@,
            },
    {
        let who: AccountId = match origin {
            Origin::Signed(who) => who,
            _ => { return Err(DispatchError::BadOrigin); },
        };
        let now: BlockNumber = clock.current_block_number();
        let place: usize = match id {
            Some(i) => match self.place_of(i) {
                Some(place) => place,
                None => {
                    return Err(DispatchError::Module(Error::RewardVecNotFullyInitializedYet));
                },
            },
            None => self.crowdloans.len() - 1,
        };
        let ghost before = self@;
        let r = self.crowdloans[place].claim(who, now);
        match r {
            Ok(paid) => {
                if paid > 0 {
                    self.events.push(Event::RewardsPaid(who, paid));
                }
                proof {
                    assert(self@.crowdloans =~= before.crowdloans.update(
                        place as int,
                        self@.crowdloans[place as int],
                    ));
                    assert(self.crowdloans@[place as int]@.initialized) by {
                        old(self).crowdloans@[place as int].lemma_wf();
                        lemma_claimed(before.crowdloans[place as int], who, now);
                    }
                }
                Ok(paid)
            },
            Err(e) => {
                proof {
                    assert(self@.crowdloans =~= before.crowdloans);
                }
                Err(DispatchError::Module(e))
            },
        }
    }

    /// Gives `target` the reward that the current crowdloan keeps for `relay`, which has
    /// to have signed for it, and returns what is paid at once: see
    /// [`association_outcome`]. Any holder of an account may bring the call.
    pub fn associate_native_identity(
        &mut self,
        origin: Origin,
        target: AccountId,
        relay: RelayAccountId,
        signature: Signature,
    ) -> (r: Result<Balance, DispatchError>)
        requires
            old(self).wf(),
        ensures
            final(self).wf(),
            final(self).config() == old(self).config(),
            match r {
                Ok(paid) => origin is Signed && association_outcome(
                    old(self)@,
                    old(self).config(),
                    target,
                    relay,
                    signature,
                ) == Ok::<(RewardsView, Balance), Error>((final(self)@, paid)),
                Err(DispatchError::BadOrigin) => !(origin is Signed) && final(self)@ == old(self)@,
                Err(DispatchError::Module(e)) => origin is Signed && association_outcome(
                    old(self)@,
                    old(self).config(),
                    target,
                    relay,
                    signature,
                ) == Err::<(RewardsView, Balance), Error>(e) && final(self)@ == old(self)@,
            },
    {
        match origin {
            Origin::Signed(_) => {},
            _ => { return Err(DispatchError::BadOrigin); },
        }
        let last: usize = self.crowdloans.len() - 1;
        let ghost before = self@;
        let message = association_payload(&self.config.signature_network_identifier, target);
        let signed = verify(&signature, &message, &relay);
        let r = self.crowdloans[last].associate_native_identity(
            target,
            relay,
            signed,
            self.config.initialization_payment,
        );
        match r {
            Ok((paid, reward)) => {
                self.events.push(Event::NativeIdentityAssociated(relay, target, reward));
                proof {
                    assert(self@.crowdloans =~= before.crowdloans.update(last as int, current(self@)));
                    old(self).crowdloans@[last as int].lemma_wf();
                    lemma_associated(
                        current(before),
                        target,
                        relay,
                        signed,
                        self.config.initialization_payment,
                    );
                }
                Ok(paid)
            },
            Err(e) => {
                proof {
                    assert(self@.crowdloans =~= before.crowdloans);
                }
                Err(DispatchError::Module(e))
            },
        }
    }

    /// Moves the reward of the account that signed the call, in the current crowdloan,
    /// to `new_account`, which must hold none: see [`update_outcome`].
    pub fn update_reward_address(&mut self, origin: Origin, new_account: AccountId) -> (r: Result<
        (),
        DispatchError,
    >)
        requires
            old(self).wf(),
        ensures
            final(self).wf(),
            final(self).config() == old(self).config(),
            match r {
                Ok(()) => origin matches Origin::Signed(caller) && update_outcome(
                    old(self)@,
                    caller,
                    new_account,
                ) == Ok::<RewardsView, Error>(final(self)@),
                Err(DispatchError::BadOrigin) => !(origin is Signed) && final(self)@ == old(self)@,
                Err(DispatchError::Module(e)) => origin matches Origin::Signed(caller)
                    && update_outcome(old(self)@, caller, new_account) == Err::<
                    RewardsView,
                    Error,
                >(e) && final(self)@ == old(self)@,
            },
    {
        let caller: AccountId = match origin {
            Origin::Signed(caller) => caller,
            _ => { return Err(DispatchError::BadOrigin); },
        };
        let last: usize = self.crowdloans.len() - 1;
        let ghost before = self@;
        let r = self.crowdloans[last].update_reward_address(caller, new_account);
        match r {
            Ok(()) => {
                self.events.push(Event::RewardAddressUpdated(caller, new_account));
                proof {
                    assert(self@.crowdloans =~= before.crowdloans.update(last as int, current(self@)));
                }
                Ok(())
            },
            Err(e) => {
                proof {
                    assert(self@.crowdloans =~= before.crowdloans);
                }
                Err(DispatchError::Module(e))
            },
        }
    }

    /// Moves the reward of `old_account` in the current crowdloan to `new_account`, where
    /// enough of its relay accounts have signed for it: see [`change_outcome`]. Anybody
    /// may bring the call: the proofs decide, not the origin.
    pub fn change_association_with_relay_keys(
        &mut self,
        _origin: Origin,
        new_account: AccountId,
        old_account: AccountId,
        proofs: Vec<RelayProof>,
    ) -> (r: Result<(), DispatchError>)
        requires
            old(self).wf(),
        ensures
            final(self).wf(),
            final(self).config() == old(self).config(),
            match r {
                Ok(()) => change_outcome(
                    old(self)@,
                    old(self).config(),
                    new_account,
                    old_account,
                    proofs@,
                ) == Ok::<RewardsView, Error>(final(self)@),
                Err(DispatchError::BadOrigin) => false,
                Err(DispatchError::Module(e)) => change_outcome(
                    old(self)@,
                    old(self).config(),
                    new_account,
                    old_account,
                    proofs@,
                ) == Err::<RewardsView, Error>(e) && final(self)@ == old(self)@,
            },
    {
        let last: usize = self.crowdloans.len() - 1;
        let ghost before = self@;
        let votes: usize = match self.crowdloans[last].accounts_payable(old_account) {
            Some(info) => {
                let message = reassociation_payload(
                    &self.config.signature_network_identifier,
                    new_account,
                    old_account,
                );
                count_votes(&proofs, &info.contributed_relay_addresses, &message)
            },
            None => 0,
        };
        let r = self.crowdloans[last].change_association_with_relay_keys(
            new_account,
            old_account,
            votes,
            self.config.reward_address_relay_vote_threshold,
        );
        match r {
            Ok(()) => {
                self.events.push(Event::ReassociationCompleted(old_account, new_account));
                proof {
                    assert(self@.crowdloans =~= before.crowdloans.update(last as int, current(self@)));
                }
                Ok(())
            },
            Err(e) => {
                proof {
                    assert(self@.crowdloans =~= before.crowdloans);
                }
                Err(DispatchError::Module(e))
            },
        }
    }
}

/// The events that were raised so far, the oldest first.
pub fn events(rewards: &CrowdloanRewards) -> (log: Vec<Event>)
    ensures
        log@ == rewards@.events,
{
    let mut log: Vec<Event> = Vec::new();
    let mut i: usize = 0;
    while i < rewards.events.len()
        invariant
            i <= rewards.events.len(),
            log@ == rewards.events@.take(i as int),
        decreases rewards.events.len() - i,
    {
        log.push(rewards.events[i]);
        assert(rewards.events@.take(i + 1) =~= rewards.events@.take(i as int).push(
            rewards.events@[i as int],
        ));
        i = i + 1;
    }
    assert(rewards.events@.take(rewards.events.len() as int) =~= rewards.events@);
    log
}

} // verus!
