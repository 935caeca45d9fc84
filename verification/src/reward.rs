//! One account's reward and the relay accounts that earned it.

use vstd::prelude::*;
use crate::types::{Balance, RelayAccountId};

verus! {

broadcast use vstd::array::group_array_axioms;

/// What a [`RewardInfo`] stands for.
pub struct RewardInfoView {
    /// The whole reward.
    pub total_reward: nat,
    /// What has been paid out of it.
    pub claimed_reward: nat,
    /// The relay accounts whose contributions earned it, in the order in which they came.
    pub relays: Seq<RelayAccountId>,
}

/// The reward of one account.
#[derive(Clone, Debug, PartialEq, Eq)]
pub struct RewardInfo {
    /// The whole reward.
    pub total_reward: Balance,
    /// What has been paid out of it.
    pub claimed_reward: Balance,
    /// The relay accounts whose contributions earned it, in the order in which they came.
    pub contributed_relay_addresses: Vec<RelayAccountId>,
}

impl View for RewardInfo {
    type V = RewardInfoView;

    open spec fn view(&self) -> RewardInfoView {
        RewardInfoView {
            total_reward: self.total_reward as nat,
            claimed_reward: self.claimed_reward as nat,
            relays: self.contributed_relay_addresses@,
        }
    }
}

/// `relays` with `relay` at its end, unless it holds `relay` already.
pub open spec fn push_missing(relays: Seq<RelayAccountId>, relay: RelayAccountId) -> Seq<
    RelayAccountId,
> {
    if relays.contains(relay) {
        relays
    } else {
        relays.push(relay)
    }
}

/// `first`, followed by those of `second` that it lacks, each once, in their order.
pub open spec fn union_relays(first: Seq<RelayAccountId>, second: Seq<RelayAccountId>) -> Seq<
    RelayAccountId,
>
    decreases second.len(),
{
    if second.len() == 0 {
        first
    } else {
        push_missing(union_relays(first, second.drop_last()), second.last())
    }
}

/// The union holds exactly the relay accounts of its two parts, keeps the first part
/// in front, and repeats nothing that the first part does not repeat.
pub proof fn lemma_union_relays(first: Seq<RelayAccountId>, second: Seq<RelayAccountId>)
    ensures
        forall|r: RelayAccountId|
            #[trigger] union_relays(first, second).contains(r) <==> first.contains(r)
                || second.contains(r),
        first.no_duplicates() ==> union_relays(first, second).no_duplicates(),
        first.len() <= union_relays(first, second).len(),
        first.is_prefix_of(union_relays(first, second)),
    decreases second.len(),
{
    if second.len() == 0 {
    } else {
        let shorter = second.drop_last();
        let before = union_relays(first, shorter);
        let after = union_relays(first, second);
        lemma_union_relays(first, shorter);
        assert forall|r: RelayAccountId| #[trigger]
            after.contains(r) <==> first.contains(r) || second.contains(r) by {
            if second.contains(r) {
                let i = choose|i: int| 0 <= i < second.len() && second[i] == r;
                if i < shorter.len() {
                    assert(shorter[i] == r);
                    assert(shorter.contains(r));
                }
            }
            if shorter.contains(r) {
                let i = choose|i: int| 0 <= i < shorter.len() && shorter[i] == r;
                assert(second[i] == r);
            }
            if before.contains(r) {
                let i = choose|i: int| 0 <= i < before.len() && before[i] == r;
                assert(after[i] == r);
            }
            if !before.contains(second.last()) {
                assert(after[before.len() as int] == second.last());
            }
            assert(second[second.len() - 1] == second.last());
        }
    }
}

/// A reward is sound when no more than the whole has been paid and its relay accounts
/// are at least one, each named once.
pub open spec fn info_valid(info: RewardInfoView) -> bool {
    &&& info.claimed_reward <= info.total_reward
    &&& info.relays.len() > 0
    &&& info.relays.no_duplicates()
}

/// The reward that holds both: the sums of what is owed and of what was paid, and the
/// relay accounts of `dest` followed by those that only `src` has.
pub open spec fn merge(dest: RewardInfoView, src: RewardInfoView) -> RewardInfoView {
    RewardInfoView {
        total_reward: dest.total_reward + src.total_reward,
        claimed_reward: dest.claimed_reward + src.claimed_reward,
        relays: union_relays(dest.relays, src.relays),
    }
}

/// Merging two sound rewards gives a sound reward.
pub proof fn lemma_merge_valid(dest: RewardInfoView, src: RewardInfoView)
    requires
        info_valid(dest),
        info_valid(src),
    ensures
        info_valid(merge(dest, src)),
{
    lemma_union_relays(dest.relays, src.relays);
}

/// Tells whether two relay accounts are the same.
pub fn relay_eq(a: &RelayAccountId, b: &RelayAccountId) -> (same: bool)
    ensures
        same == (*a == *b),
{
    let mut i: usize = 0;
    while i < 32
        invariant
            i <= 32,
            forall|j: int| 0 <= j < i ==> a[j] == b[j],
        decreases 32 - i,
    {
        if a[i] != b[i] {
            return false;
        }
        i = i + 1;
    }
    assert(*a =~= *b);
    true
}

/// Tells whether `relays` holds `relay`.
pub fn contains_relay(relays: &Vec<RelayAccountId>, relay: &RelayAccountId) -> (found: bool)
    ensures
        found == relays@.contains(*relay),
{
    let mut i: usize = 0;
    while i < relays.len()
        invariant
            i <= relays.len(),
            forall|j: int| 0 <= j < i ==> relays@[j] != *relay,
        decreases relays.len() - i,
    {
        if relay_eq(&relays[i], relay) {
            return true;
        }
        i = i + 1;
    }
    false
}

/// A fresh vector with the same relay accounts.
pub fn copy_relays(relays: &Vec<RelayAccountId>) -> (copy: Vec<RelayAccountId>)
    ensures
        copy@ == relays@,
{
    let mut copy: Vec<RelayAccountId> = Vec::new();
    let mut i: usize = 0;
    while i < relays.len()
        invariant
            i <= relays.len(),
            copy@ == relays@.take(i as int),
        decreases relays.len() - i,
    {
        copy.push(relays[i]);
        assert(relays@.take(i + 1) =~= relays@.take(i as int).push(relays@[i as int]));
        i = i + 1;
    }
    assert(relays@.take(relays.len() as int) =~= relays@);
    copy
}

/// Puts `relay` at the end of `relays` unless it is there already.
pub fn add_relay(relays: &mut Vec<RelayAccountId>, relay: RelayAccountId)
    ensures
        final(relays)@ == push_missing(old(relays)@, relay),
{
    if !contains_relay(relays, &relay) {
        relays.push(relay);
    }
}

/// Puts those of `more` that `relays` lacks at its end.
pub fn add_relays(relays: &mut Vec<RelayAccountId>, more: &Vec<RelayAccountId>)
    ensures
        final(relays)@ == union_relays(old(relays)@, more@),
{
    let mut i: usize = 0;
    while i < more.len()
        invariant
            i <= more.len(),
            relays@ == union_relays(old(relays)@, more@.take(i as int)),
        decreases more.len() - i,
    {
        assert(more@.take(i + 1).drop_last() =~= more@.take(i as int));
        add_relay(relays, more[i]);
        i = i + 1;
    }
    assert(more@.take(more.len() as int) =~= more@);
}

impl RewardInfo {
    /// The reward of one contribution: nothing paid yet, one relay account.
    pub fn new(total_reward: Balance, relay: RelayAccountId) -> (info: RewardInfo)
        ensures
            info@ == (RewardInfoView {
                total_reward: total_reward as nat,
                claimed_reward: 0,
                relays: seq![relay],
            }),
            info_valid(info@),
    {
        let mut relays: Vec<RelayAccountId> = Vec::new();
        relays.push(relay);
        assert(relays@ =~= seq![relay]);
        RewardInfo { total_reward, claimed_reward: 0, contributed_relay_addresses: relays }
    }

    /// A reward that stands for the same.
    pub fn copy(&self) -> (info: RewardInfo)
        ensures
            info@ == self@,
    {
        RewardInfo {
            total_reward: self.total_reward,
            claimed_reward: self.claimed_reward,
            contributed_relay_addresses: copy_relays(&self.contributed_relay_addresses),
        }
    }

    /// Takes `other` into this reward: see [`merge`].
    pub fn absorb(&mut self, other: &RewardInfo)
        requires
            old(self).total_reward + other.total_reward <= u128::MAX,
            old(self).claimed_reward + other.claimed_reward <= u128::MAX,
        ensures
            final(self)@ == merge(old(self)@, other@),
    {
        self.total_reward = self.total_reward + other.total_reward;
        self.claimed_reward = self.claimed_reward + other.claimed_reward;
        add_relays(&mut self.contributed_relay_addresses, &other.contributed_relay_addresses);
    }
}

} // verus!
