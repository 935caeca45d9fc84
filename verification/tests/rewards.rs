use crowdloan_rewards::clock::{roll_to, MockedBlockProvider};
use crowdloan_rewards::fraction::Perbill;
use crowdloan_rewards::reward::RewardInfo;
use crowdloan_rewards::rewards::{events, CrowdloanRewards};
use crowdloan_rewards::signature::{association_payload, reassociation_payload, Signature};
use crowdloan_rewards::types::{Config, DispatchError, Error, Event, Origin};
use sp_core::{ecdsa, ed25519, sr25519, Pair};
use sp_runtime::traits::IdentifyAccount;
use sp_runtime::MultiSigner;

fn network() -> Vec<u8> {
    b"test-".to_vec()
}

fn config() -> Config {
    Config {
        initialization_payment: Perbill::from_percent(20),
        max_init_contributors: 8,
        reward_address_relay_vote_threshold: Perbill::from_percent(50),
        signature_network_identifier: network(),
    }
}

fn r(tag: u8) -> [u8; 32] {
    [tag; 32]
}

fn module<T>(e: Error) -> Result<T, DispatchError> {
    Err(DispatchError::Module(e))
}

fn bad_origin<T>() -> Result<T, DispatchError> {
    Err(DispatchError::BadOrigin)
}

fn info(total: u128, claimed: u128, relays: Vec<[u8; 32]>) -> RewardInfo {
    RewardInfo { total_reward: total, claimed_reward: claimed, contributed_relay_addresses: relays }
}

fn ed(tag: u8) -> ed25519::Pair {
    ed25519::Pair::from_seed(&[tag; 32])
}

#[test]
fn new_rewards_hold_one_empty_crowdloan() {
    let rewards = CrowdloanRewards::new(config());
    assert_eq!(rewards.get_crowdloan_id(), 0);
    assert_eq!(rewards.get_crowdloan_allocation(0), 0);
    assert_eq!(rewards.get_crowdloan_allocation(1), 0);
    assert_eq!(rewards.crowdloan_period(0), None);
    assert_eq!(rewards.crowdloan_period(1), None);
    assert!(!rewards.initialized());
    assert_eq!(rewards.total_contributors(), 0);
    assert!(rewards.accounts_payable(1).is_none());
    assert!(rewards.unassociated_contributions(&r(1)).is_none());
    assert!(!rewards.claimed_relay_chain_ids(&r(1)));
    assert!(events(&rewards).is_empty());
}

#[test]
fn only_the_administrator_fills_and_closes() {
    let mut rewards = CrowdloanRewards::new(config());
    for origin in [Origin::Signed(1), Origin::Unsigned] {
        assert_eq!(rewards.set_crowdloan_allocation(origin, 100), bad_origin());
        assert_eq!(rewards.get_crowdloan_allocation(0), 0);
    }
    assert_eq!(rewards.set_crowdloan_allocation(Origin::Root, 100), Ok(()));
    for origin in [Origin::Signed(1), Origin::Unsigned] {
        assert_eq!(
            rewards.initialize_reward_vec(origin, vec![(r(1), Some(1), 100)]),
            bad_origin()
        );
        assert!(rewards.accounts_payable(1).is_none());
    }
    assert_eq!(rewards.initialize_reward_vec(Origin::Root, vec![(r(1), Some(1), 100)]), Ok(()));
    for origin in [Origin::Signed(1), Origin::Unsigned] {
        assert_eq!(rewards.complete_initialization(origin, 1, 9), bad_origin());
        assert!(!rewards.initialized());
    }
    // the origin is looked at before anything else
    assert_eq!(rewards.complete_initialization(Origin::Signed(1), 9, 1), bad_origin());
    assert_eq!(rewards.complete_initialization(Origin::Root, 1, 9), Ok(vec![(1, 20)]));
    assert!(events(&rewards).is_empty());
}

#[test]
fn claims_and_moves_are_signed() {
    let mut rewards = CrowdloanRewards::new(config());
    let clock = MockedBlockProvider::new(5);
    assert_eq!(rewards.set_crowdloan_allocation(Origin::Root, 100), Ok(()));
    assert_eq!(rewards.initialize_reward_vec(Origin::Root, vec![(r(1), Some(1), 100)]), Ok(()));
    assert!(rewards.complete_initialization(Origin::Root, 1, 9).is_ok());
    for origin in [Origin::Root, Origin::Unsigned] {
        assert_eq!(rewards.claim(&clock, origin, None), bad_origin());
        assert_eq!(rewards.update_reward_address(origin, 2), bad_origin());
        assert_eq!(
            rewards.associate_native_identity(origin, 1, r(1), Signature::Ed25519([0; 64])),
            bad_origin()
        );
    }
    assert_eq!(rewards.accounts_payable(1), Some(info(100, 20, vec![r(1)])));
    assert!(events(&rewards).is_empty());
    assert_eq!(rewards.claim(&clock, Origin::Signed(1), None), Ok(30));
    assert_eq!(rewards.update_reward_address(Origin::Signed(1), 2), Ok(()));
    assert_eq!(rewards.claim(&clock, Origin::Signed(1), None), module(Error::NoAssociatedClaim));
    assert_eq!(rewards.claim(&clock, Origin::Signed(2), None), Ok(0));
    assert_eq!(
        events(&rewards),
        vec![Event::RewardsPaid(1, 30), Event::RewardAddressUpdated(1, 2)]
    );
}

#[test]
fn anybody_may_bring_the_proofs_of_the_relay_accounts() {
    let pairs: Vec<ed25519::Pair> = (1..=3u8).map(ed).collect();
    let message = reassociation_payload(&network(), 2, 1);
    let proofs: Vec<([u8; 32], Signature)> = pairs
        .iter()
        .take(2)
        .map(|p| (p.public().0, Signature::Ed25519(p.sign(&message).0)))
        .collect();
    for origin in [Origin::Root, Origin::Signed(77), Origin::Unsigned] {
        let mut rewards = CrowdloanRewards::new(config());
        assert_eq!(rewards.set_crowdloan_allocation(Origin::Root, 300), Ok(()));
        let batch = pairs.iter().map(|p| (p.public().0, Some(1), 100)).collect();
        assert_eq!(rewards.initialize_reward_vec(Origin::Root, batch), Ok(()));
        assert_eq!(rewards.change_association_with_relay_keys(origin, 2, 1, proofs.clone()), Ok(()));
        assert!(rewards.accounts_payable(1).is_none());
        assert_eq!(rewards.accounts_payable(2).unwrap().total_reward, 300);
        assert_eq!(events(&rewards), vec![Event::ReassociationCompleted(1, 2)]);
    }
}

#[test]
fn proofs_count_for_the_accounts_that_they_name() {
    let pairs: Vec<ed25519::Pair> = (1..=5u8).map(ed).collect();
    let mut rewards = CrowdloanRewards::new(config());
    assert_eq!(rewards.set_crowdloan_allocation(Origin::Root, 400), Ok(()));
    let batch = pairs.iter().take(4).map(|p| (p.public().0, Some(1), 100)).collect();
    assert_eq!(rewards.initialize_reward_vec(Origin::Root, batch), Ok(()));
    let message = reassociation_payload(&network(), 2, 1);
    let vote = |i: usize| (pairs[i].public().0, Signature::Ed25519(pairs[i].sign(&message).0));
    let insufficient = module(Error::InsufficientNumberOfValidProofs);
    let who = Origin::Signed(9);

    assert_eq!(rewards.change_association_with_relay_keys(who, 2, 1, vec![]), insufficient);
    assert_eq!(rewards.change_association_with_relay_keys(who, 2, 1, vec![vote(0)]), insufficient);
    // one account three times is one vote
    assert_eq!(
        rewards.change_association_with_relay_keys(who, 2, 1, vec![vote(0), vote(0), vote(0)]),
        insufficient
    );
    // a stranger does not count
    assert_eq!(
        rewards.change_association_with_relay_keys(who, 2, 1, vec![vote(0), vote(4)]),
        insufficient
    );
    // proofs for the move the other way do not count
    let other_way = reassociation_payload(&network(), 1, 2);
    let wrong = |i: usize| (pairs[i].public().0, Signature::Ed25519(pairs[i].sign(&other_way).0));
    assert_eq!(
        rewards.change_association_with_relay_keys(who, 2, 1, vec![wrong(0), wrong(1), wrong(2)]),
        insufficient
    );
    // proofs for another network do not count
    let elsewhere = reassociation_payload(&b"live-".to_vec(), 2, 1);
    let foreign = |i: usize| (pairs[i].public().0, Signature::Ed25519(pairs[i].sign(&elsewhere).0));
    assert_eq!(
        rewards.change_association_with_relay_keys(who, 2, 1, vec![foreign(0), foreign(1)]),
        insufficient
    );
    // an account without a reward has nothing to move
    assert_eq!(
        rewards.change_association_with_relay_keys(who, 2, 3, vec![vote(0), vote(1)]),
        module(Error::NoAssociatedClaim)
    );
    assert_eq!(rewards.accounts_payable(1).unwrap().total_reward, 400);
    assert!(events(&rewards).is_empty());
    // two of four reach the half
    assert_eq!(
        rewards.change_association_with_relay_keys(who, 2, 1, vec![vote(4), wrong(2), vote(3), vote(1)]),
        Ok(())
    );
    assert_eq!(rewards.accounts_payable(2).unwrap().total_reward, 400);
}

#[test]
fn every_scheme_associates() {
    let mut rewards = CrowdloanRewards::new(config());
    let ed_pair = ed(1);
    let sr_pair = sr25519::Pair::from_seed(&[2u8; 32]);
    let ec_pair = ecdsa::Pair::from_seed(&[3u8; 32]);
    let ed_relay: [u8; 32] = ed_pair.public().0;
    let sr_relay: [u8; 32] = sr_pair.public().0;
    let ec_relay: [u8; 32] = MultiSigner::from(ec_pair.public()).into_account().into();
    assert_eq!(rewards.set_crowdloan_allocation(Origin::Root, 600), Ok(()));
    assert_eq!(
        rewards.initialize_reward_vec(
            Origin::Root,
            vec![(ed_relay, None, 100), (sr_relay, None, 200), (ec_relay, None, 300)]
        ),
        Ok(())
    );
    assert_eq!(rewards.complete_initialization(Origin::Root, 1, 9), Ok(vec![]));
    let message = association_payload(&network(), 5);
    let caller = Origin::Signed(40);

    // each scheme refuses the signature of another message
    let stale = association_payload(&network(), 6);
    assert_eq!(
        rewards.associate_native_identity(caller, 5, ed_relay, Signature::Ed25519(ed_pair.sign(&stale).0)),
        module(Error::InvalidClaimSignature)
    );
    assert_eq!(
        rewards.associate_native_identity(caller, 5, sr_relay, Signature::Sr25519(sr_pair.sign(&stale).0)),
        module(Error::InvalidClaimSignature)
    );
    assert_eq!(
        rewards.associate_native_identity(caller, 5, ec_relay, Signature::Ecdsa(ec_pair.sign(&stale).0)),
        module(Error::InvalidClaimSignature)
    );
    // and a signature for another network
    let elsewhere = association_payload(&b"live-".to_vec(), 5);
    assert_eq!(
        rewards.associate_native_identity(caller, 5, ed_relay, Signature::Ed25519(ed_pair.sign(&elsewhere).0)),
        module(Error::InvalidClaimSignature)
    );
    assert!(rewards.accounts_payable(5).is_none());

    assert_eq!(
        rewards.associate_native_identity(caller, 5, ed_relay, Signature::Ed25519(ed_pair.sign(&message).0)),
        Ok(20)
    );
    assert_eq!(
        rewards.associate_native_identity(caller, 5, sr_relay, Signature::Sr25519(sr_pair.sign(&message).0)),
        Ok(40)
    );
    assert_eq!(
        rewards.associate_native_identity(caller, 5, ec_relay, Signature::Ecdsa(ec_pair.sign(&message).0)),
        Ok(60)
    );
    assert_eq!(
        rewards.accounts_payable(5),
        Some(info(600, 120, vec![ed_relay, sr_relay, ec_relay]))
    );
    assert_eq!(rewards.total_contributors(), 1);
    assert_eq!(
        events(&rewards),
        vec![
            Event::NativeIdentityAssociated(ed_relay, 5, 100),
            Event::NativeIdentityAssociated(sr_relay, 5, 200),
            Event::NativeIdentityAssociated(ec_relay, 5, 300),
        ]
    );
}

#[test]
fn a_new_allocation_after_closing_opens_the_next_crowdloan() {
    let mut rewards = CrowdloanRewards::new(config());
    let mut clock = MockedBlockProvider::new(1);
    assert_eq!(rewards.set_crowdloan_allocation(Origin::Root, 100), Ok(()));
    assert_eq!(rewards.set_crowdloan_allocation(Origin::Root, 200), Ok(()));
    assert_eq!(rewards.get_crowdloan_id(), 0);
    assert_eq!(rewards.get_crowdloan_allocation(0), 200);
    assert_eq!(rewards.initialize_reward_vec(Origin::Root, vec![(r(1), Some(1), 200)]), Ok(()));
    assert_eq!(rewards.complete_initialization(Origin::Root, 1, 9), Ok(vec![(1, 40)]));

    assert_eq!(rewards.set_crowdloan_allocation(Origin::Root, 1000), Ok(()));
    assert_eq!(rewards.get_crowdloan_id(), 1);
    assert_eq!(rewards.get_crowdloan_allocation(0), 200);
    assert_eq!(rewards.get_crowdloan_allocation(1), 1000);
    assert_eq!(rewards.crowdloan_period(0), Some((1, 9)));
    assert_eq!(rewards.crowdloan_period(1), None);
    assert!(!rewards.initialized());
    assert_eq!(rewards.total_contributors(), 0);
    assert!(rewards.accounts_payable(1).is_none());

    // the closed crowdloan still pays, by its number
    roll_to(&mut clock, 5);
    assert_eq!(
        rewards.claim(&clock, Origin::Signed(1), None),
        module(Error::RewardVecNotFullyInitializedYet)
    );
    assert_eq!(rewards.claim(&clock, Origin::Signed(1), Some(0)), Ok(60));
    assert_eq!(rewards.claim(&clock, Origin::Signed(1), Some(0)), Ok(0));
    assert_eq!(
        rewards.claim(&clock, Origin::Signed(1), Some(1)),
        module(Error::RewardVecNotFullyInitializedYet)
    );
    assert_eq!(
        rewards.claim(&clock, Origin::Signed(1), Some(2)),
        module(Error::RewardVecNotFullyInitializedYet)
    );
    assert_eq!(
        rewards.claim(&clock, Origin::Signed(1), Some(u64::MAX)),
        module(Error::RewardVecNotFullyInitializedYet)
    );
    assert_eq!(rewards.claim(&clock, Origin::Signed(2), Some(0)), module(Error::NoAssociatedClaim));

    // the new crowdloan is filled and closed on its own
    assert_eq!(rewards.initialize_reward_vec(Origin::Root, vec![(r(1), Some(1), 1000)]), Ok(()));
    assert_eq!(rewards.complete_initialization(Origin::Root, 5, 15), Ok(vec![(1, 200)]));
    assert_eq!(rewards.get_crowdloan_id(), 1);
    roll_to(&mut clock, 10);
    assert_eq!(rewards.claim(&clock, Origin::Signed(1), None), Ok(300));
    assert_eq!(rewards.claim(&clock, Origin::Signed(1), Some(1)), Ok(0));
    assert_eq!(rewards.claim(&clock, Origin::Signed(1), Some(0)), Ok(100));
    assert_eq!(
        rewards.claim(&clock, Origin::Signed(1), Some(0)),
        module(Error::RewardsAlreadyClaimed)
    );
    assert_eq!(
        events(&rewards),
        vec![
            Event::RewardsPaid(1, 60),
            Event::RewardsPaid(1, 300),
            Event::RewardsPaid(1, 100),
        ]
    );
}

#[test]
fn a_rejected_call_leaves_no_trace() {
    let mut rewards = CrowdloanRewards::new(config());
    let clock = MockedBlockProvider::new(3);
    assert_eq!(rewards.set_crowdloan_allocation(Origin::Root, 1000), Ok(()));
    assert_eq!(
        rewards.initialize_reward_vec(Origin::Root, vec![(r(1), Some(1), 600), (r(2), None, 400)]),
        Ok(())
    );
    assert!(rewards.complete_initialization(Origin::Root, 1, 9).is_ok());
    let snapshot = |rewards: &CrowdloanRewards| {
        (
            rewards.accounts_payable(1),
            rewards.accounts_payable(2),
            rewards.unassociated_contributions(&r(2)),
            rewards.claimed_relay_chain_ids(&r(2)),
            rewards.total_contributors(),
            rewards.get_crowdloan_allocation(0),
            rewards.crowdloan_period(0),
            events(rewards),
        )
    };
    let before = snapshot(&rewards);
    assert_eq!(
        rewards.initialize_reward_vec(Origin::Root, vec![(r(3), Some(3), 0)]),
        module(Error::RewardVecAlreadyInitialized)
    );
    assert_eq!(
        rewards.complete_initialization(Origin::Root, 2, 3),
        module(Error::RewardVecAlreadyInitialized)
    );
    assert_eq!(rewards.claim(&clock, Origin::Signed(2), None), module(Error::NoAssociatedClaim));
    assert_eq!(
        rewards.update_reward_address(Origin::Signed(2), 5),
        module(Error::NoAssociatedClaim)
    );
    assert_eq!(
        rewards.update_reward_address(Origin::Signed(1), 1),
        module(Error::AlreadyAssociated)
    );
    assert_eq!(
        rewards.associate_native_identity(Origin::Signed(1), 2, r(2), Signature::Sr25519([7; 64])),
        module(Error::InvalidClaimSignature)
    );
    assert_eq!(
        rewards.associate_native_identity(Origin::Signed(1), 2, r(1), Signature::Sr25519([7; 64])),
        module(Error::AlreadyAssociated)
    );
    assert_eq!(
        rewards.associate_native_identity(Origin::Signed(1), 2, r(9), Signature::Sr25519([7; 64])),
        module(Error::NoAssociatedClaim)
    );
    assert_eq!(
        rewards.change_association_with_relay_keys(Origin::Unsigned, 2, 1, vec![]),
        module(Error::InsufficientNumberOfValidProofs)
    );
    assert_eq!(snapshot(&rewards), before);
}
