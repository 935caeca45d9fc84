use crowdloan_rewards::clock::{roll_to, BlockProvider, MockedBlockProvider};
use crowdloan_rewards::fraction::Perbill;
use crowdloan_rewards::rewards::{events, CrowdloanRewards};
use crowdloan_rewards::signature::{wrapped_bytes_postfix, wrapped_bytes_prefix, Signature};
use crowdloan_rewards::types::{Config, DispatchError, Error, Event, Origin};
use crowdloan_rewards::vesting::claimable_amount;
use parity_scale_codec::Encode;
use sp_core::{ed25519, Pair};

// The vesting period of the tests: most of them close the crowdloan with the window
// from the first block to the first block plus VESTING.
const VESTING: u64 = 8;

fn network_identifier() -> Vec<u8> {
    b"test-".to_vec()
}

fn test_config() -> Config {
    Config {
        initialization_payment: Perbill::from_percent(20),
        max_init_contributors: 8,
        reward_address_relay_vote_threshold: Perbill::from_percent(50),
        signature_network_identifier: network_identifier(),
    }
}

fn genesis(funded_amount: u128) -> (CrowdloanRewards, MockedBlockProvider) {
    (CrowdloanRewards::genesis(test_config(), funded_amount), MockedBlockProvider::new(1))
}

fn empty() -> (CrowdloanRewards, MockedBlockProvider) {
    genesis(2500)
}

fn get_ed25519_pairs(num: u32) -> Vec<ed25519::Pair> {
    let seed: u128 = 12345678901234567890123456789012;
    let mut pairs = Vec::new();
    for i in 0..num {
        let text = (seed + i as u128).to_string();
        let bytes: [u8; 32] = text.as_bytes().try_into().unwrap();
        pairs.push(ed25519::Pair::from_seed(&bytes));
    }
    pairs
}

fn relay(pair: &ed25519::Pair) -> [u8; 32] {
    pair.public().0
}

fn sign(pair: &ed25519::Pair, payload: &[u8]) -> Signature {
    Signature::Ed25519(pair.sign(payload).0)
}

fn association_payload_of(target: u64) -> Vec<u8> {
    let mut payload = wrapped_bytes_prefix();
    payload.append(&mut network_identifier());
    payload.append(&mut target.encode());
    payload.append(&mut wrapped_bytes_postfix());
    payload
}

// What the account has in hand at the block that the clock shows, once it has claimed
// all that it can: what was paid to it and what has vested beyond that.
fn transferable_balance(rewards: &CrowdloanRewards, clock: &MockedBlockProvider, who: u64) -> u128 {
    let info = rewards.accounts_payable(who).unwrap();
    let (start, end) = rewards.crowdloan_period(rewards.get_crowdloan_id()).unwrap();
    info.claimed_reward
        + claimable_amount(
            info.total_reward,
            info.claimed_reward,
            start,
            end,
            clock.current_block_number(),
        )
}

fn five_contributions(pairs: &[ed25519::Pair]) -> Vec<([u8; 32], Option<u64>, u128)> {
    vec![
        ([1u8; 32], Some(1), 500),
        ([2u8; 32], Some(2), 500),
        (relay(&pairs[0]), None, 500),
        (relay(&pairs[1]), None, 500),
        (relay(&pairs[2]), None, 500),
    ]
}

fn two_relays_for_one(pairs: &[ed25519::Pair]) -> Vec<([u8; 32], Option<u64>, u128)> {
    vec![
        ([1u8; 32], Some(1), 500),
        ([2u8; 32], Some(1), 500),
        (relay(&pairs[0]), None, 500),
        (relay(&pairs[1]), None, 500),
        (relay(&pairs[2]), None, 500),
    ]
}

#[test]
fn geneses() {
    let (mut rewards, _clock) = empty();
    assert!(events(&rewards).is_empty());
    // Insert contributors
    let pairs = get_ed25519_pairs(3);
    let init_block = 1u64;
    assert_eq!(rewards.initialize_reward_vec(Origin::Root, five_contributions(&pairs)), Ok(()));

    let payments = rewards.complete_initialization(Origin::Root, init_block, init_block + VESTING);
    assert_eq!(payments, Ok(vec![(1, 100), (2, 100)]));
    // two accounts of this chain have a reward of their own
    assert_eq!(rewards.total_contributors(), 2);

    // accounts_payable
    assert!(rewards.accounts_payable(1).is_some());
    assert!(rewards.accounts_payable(2).is_some());
    assert!(rewards.accounts_payable(3).is_none());
    assert!(rewards.accounts_payable(4).is_none());
    assert!(rewards.accounts_payable(5).is_none());

    // claimed address existence
    assert!(rewards.claimed_relay_chain_ids(&[1u8; 32]));
    assert!(rewards.claimed_relay_chain_ids(&[2u8; 32]));
    assert!(!rewards.claimed_relay_chain_ids(&relay(&pairs[0])));
    assert!(!rewards.claimed_relay_chain_ids(&relay(&pairs[1])));
    assert!(!rewards.claimed_relay_chain_ids(&relay(&pairs[2])));

    // unassociated_contributions
    assert!(rewards.unassociated_contributions(&[1u8; 32]).is_none());
    assert!(rewards.unassociated_contributions(&[2u8; 32]).is_none());
    assert!(rewards.unassociated_contributions(&relay(&pairs[0])).is_some());
    assert!(rewards.unassociated_contributions(&relay(&pairs[1])).is_some());
    assert!(rewards.unassociated_contributions(&relay(&pairs[2])).is_some());
}

#[test]
fn proving_assignation_works() {
    let pairs = get_ed25519_pairs(3);
    let payload = association_payload_of(3);
    let signature = sign(&pairs[0], &payload);
    let alread_associated_signature = sign(&pairs[0], &1u64.encode());
    let (mut rewards, mut clock) = empty();
    // Insert contributors
    let init_block = 1u64;
    assert_eq!(rewards.initialize_reward_vec(Origin::Root, five_contributions(&pairs)), Ok(()));
    assert!(rewards.complete_initialization(Origin::Root, init_block, init_block + VESTING).is_ok());
    // 3 is not payable first
    assert!(rewards.accounts_payable(3).is_none());
    assert_eq!(
        rewards.accounts_payable(1).unwrap().contributed_relay_addresses,
        vec![[1u8; 32]]
    );

    roll_to(&mut clock, 4);
    // Signature is wrong, prove fails
    assert_eq!(
        rewards.associate_native_identity(Origin::Signed(4), 4, relay(&pairs[0]), signature),
        Err(DispatchError::Module(Error::InvalidClaimSignature))
    );
    assert!(rewards.accounts_payable(4).is_none());
    assert!(rewards.unassociated_contributions(&relay(&pairs[0])).is_some());

    // The signature does not cover the framed message for account 1: the account holding
    // a reward already is no obstacle, the signature is
    assert_eq!(
        rewards.associate_native_identity(Origin::Signed(4), 1, relay(&pairs[0]), alread_associated_signature),
        Err(DispatchError::Module(Error::InvalidClaimSignature))
    );
    assert_eq!(rewards.accounts_payable(1).unwrap().total_reward, 500);
    assert!(events(&rewards).is_empty());

    // Signature is right, prove passes
    assert_eq!(rewards.associate_native_identity(Origin::Signed(4), 3, relay(&pairs[0]), signature), Ok(100));

    // Signature is right, but the relay account has been used
    assert_eq!(
        rewards.associate_native_identity(Origin::Signed(4), 3, relay(&pairs[0]), signature),
        Err(DispatchError::Module(Error::AlreadyAssociated))
    );

    // now three is payable
    assert!(rewards.accounts_payable(3).is_some());
    assert_eq!(
        rewards.accounts_payable(3).unwrap().contributed_relay_addresses,
        vec![relay(&pairs[0])]
    );

    assert!(rewards.unassociated_contributions(&relay(&pairs[0])).is_none());
    assert!(rewards.claimed_relay_chain_ids(&relay(&pairs[0])));

    let expected = vec![Event::NativeIdentityAssociated(relay(&pairs[0]), 3, 500)];
    assert_eq!(events(&rewards), expected);
}

#[test]
fn initializing_multi_relay_to_single_native_address_works() {
    let (mut rewards, mut clock) = empty();
    // Insert contributors
    let pairs = get_ed25519_pairs(3);
    // The init relay block gets inserted
    let init_block = 1u64;
    assert_eq!(rewards.initialize_reward_vec(Origin::Root, two_relays_for_one(&pairs)), Ok(()));
    assert_eq!(
        rewards.complete_initialization(Origin::Root, init_block, init_block + VESTING),
        Ok(vec![(1, 200)])
    );
    // 1 is payable
    assert!(rewards.accounts_payable(1).is_some());
    assert_eq!(
        rewards.accounts_payable(1).unwrap().contributed_relay_addresses,
        vec![[1u8; 32], [2u8; 32]]
    );

    roll_to(&mut clock, 3);
    // two of eight blocks have passed: a quarter of 1000 has vested, 200 were paid
    assert_eq!(rewards.claim(&clock, Origin::Signed(1), None), Ok(50));
    assert_eq!(rewards.accounts_payable(1).unwrap().claimed_reward, 250);
    assert_eq!(rewards.accounts_payable(1).unwrap().total_reward, 1000);
    assert_eq!(rewards.claim(&clock, Origin::Signed(3), None), Err(DispatchError::Module(Error::NoAssociatedClaim)));

    let expected = vec![Event::RewardsPaid(1, 50)];
    assert_eq!(events(&rewards), expected);
}

#[test]
fn paying_works_step_by_step() {
    let (mut rewards, mut clock) = empty();
    // Insert contributors
    let pairs = get_ed25519_pairs(3);
    // The init relay block gets inserted
    let init_block = 1u64;
    assert_eq!(rewards.initialize_reward_vec(Origin::Root, five_contributions(&pairs)), Ok(()));
    assert!(rewards.complete_initialization(Origin::Root, init_block, init_block + VESTING).is_ok());
    // 1 is payable
    assert!(rewards.accounts_payable(1).is_some());
    // at the first block nothing has vested beyond the first payment
    assert_eq!(rewards.claim(&clock, Origin::Signed(1), None), Ok(0));
    assert_eq!(rewards.accounts_payable(1).unwrap().claimed_reward, 100);
    assert_eq!(transferable_balance(&rewards, &clock, 1), 100);

    roll_to(&mut clock, 3);

    assert_eq!(transferable_balance(&rewards, &clock, 1), 125);
    assert_eq!(rewards.claim(&clock, Origin::Signed(3), None), Err(DispatchError::Module(Error::NoAssociatedClaim)));
    roll_to(&mut clock, 4);
    assert_eq!(transferable_balance(&rewards, &clock, 1), 187);
    roll_to(&mut clock, 5);
    assert_eq!(transferable_balance(&rewards, &clock, 1), 250);
    roll_to(&mut clock, 6);
    assert_eq!(transferable_balance(&rewards, &clock, 1), 312);
    roll_to(&mut clock, 7);
    assert_eq!(transferable_balance(&rewards, &clock, 1), 375);
    roll_to(&mut clock, 8);
    assert_eq!(transferable_balance(&rewards, &clock, 1), 437);
    roll_to(&mut clock, 9);
    assert_eq!(transferable_balance(&rewards, &clock, 1), 500);
    roll_to(&mut clock, 10);
    assert_eq!(rewards.claim(&clock, Origin::Signed(1), None), Ok(400));
    assert_eq!(rewards.accounts_payable(1).unwrap().claimed_reward, 500);
    assert_eq!(rewards.claim(&clock, Origin::Signed(1), None), Err(DispatchError::Module(Error::RewardsAlreadyClaimed)));

    let expected = vec![Event::RewardsPaid(1, 400)];
    assert_eq!(events(&rewards), expected);
}

#[test]
fn paying_works_after_unclaimed_period() {
    let (mut rewards, mut clock) = empty();
    // Insert contributors
    let pairs = get_ed25519_pairs(3);
    // The init relay block gets inserted
    let init_block = 1u64;
    assert_eq!(rewards.initialize_reward_vec(Origin::Root, five_contributions(&pairs)), Ok(()));
    assert!(rewards.complete_initialization(Origin::Root, init_block, init_block + VESTING).is_ok());

    // 1 is payable
    assert!(rewards.accounts_payable(1).is_some());
    roll_to(&mut clock, 3);
    assert_eq!(rewards.claim(&clock, Origin::Signed(1), None), Ok(25));
    assert_eq!(rewards.accounts_payable(1).unwrap().claimed_reward, 125);
    assert_eq!(rewards.claim(&clock, Origin::Signed(3), None), Err(DispatchError::Module(Error::NoAssociatedClaim)));
    roll_to(&mut clock, 4);
    assert_eq!(transferable_balance(&rewards, &clock, 1), 187);
    roll_to(&mut clock, 5);
    assert_eq!(transferable_balance(&rewards, &clock, 1), 250);
    roll_to(&mut clock, 6);
    assert_eq!(transferable_balance(&rewards, &clock, 1), 312);
    roll_to(&mut clock, 10);
    assert_eq!(transferable_balance(&rewards, &clock, 1), 500);
    roll_to(&mut clock, 329);
    assert_eq!(rewards.claim(&clock, Origin::Signed(1), None), Ok(375));
    assert_eq!(rewards.claim(&clock, Origin::Signed(1), None), Err(DispatchError::Module(Error::RewardsAlreadyClaimed)));

    let expected = vec![Event::RewardsPaid(1, 25), Event::RewardsPaid(1, 375)];
    assert_eq!(events(&rewards), expected);
}

#[test]
fn paying_late_joiner_works() {
    let pairs = get_ed25519_pairs(3);
    let payload = association_payload_of(3);
    let signature = sign(&pairs[0], &payload);
    let (mut rewards, mut clock) = empty();
    // Insert contributors
    let init_block = 1u64;
    assert_eq!(rewards.initialize_reward_vec(Origin::Root, five_contributions(&pairs)), Ok(()));
    assert!(rewards.complete_initialization(Origin::Root, init_block, init_block + VESTING).is_ok());

    roll_to(&mut clock, 12);
    // the first payment comes with the association, the rest with the claim
    assert_eq!(rewards.associate_native_identity(Origin::Signed(4), 3, relay(&pairs[0]), signature), Ok(100));
    assert_eq!(rewards.claim(&clock, Origin::Signed(3), None), Ok(400));
    assert_eq!(rewards.accounts_payable(3).unwrap().claimed_reward, 500);
    let expected = vec![
        Event::NativeIdentityAssociated(relay(&pairs[0]), 3, 500),
        Event::RewardsPaid(3, 400),
    ];
    assert_eq!(events(&rewards), expected);
}

#[test]
fn update_address_works() {
    let (mut rewards, mut clock) = empty();
    // Insert contributors
    let pairs = get_ed25519_pairs(3);
    // The init relay block gets inserted
    let init_block = 1u64;
    assert_eq!(rewards.initialize_reward_vec(Origin::Root, five_contributions(&pairs)), Ok(()));
    assert!(rewards.complete_initialization(Origin::Root, init_block, init_block + VESTING).is_ok());

    roll_to(&mut clock, 3);
    assert_eq!(rewards.claim(&clock, Origin::Signed(1), None), Ok(25));
    assert_eq!(rewards.claim(&clock, Origin::Signed(8), None), Err(DispatchError::Module(Error::NoAssociatedClaim)));
    assert_eq!(rewards.update_reward_address(Origin::Signed(1), 8), Ok(()));
    // the reward has gone over whole, with what was paid of it
    assert!(rewards.accounts_payable(1).is_none());
    assert_eq!(rewards.accounts_payable(8).unwrap().total_reward, 500);
    assert_eq!(rewards.accounts_payable(8).unwrap().claimed_reward, 125);
    assert_eq!(transferable_balance(&rewards, &clock, 8), 125);
    roll_to(&mut clock, 5);

    assert_eq!(transferable_balance(&rewards, &clock, 8), 250);
    assert_eq!(rewards.claim(&clock, Origin::Signed(1), None), Err(DispatchError::Module(Error::NoAssociatedClaim)));
    let expected = vec![Event::RewardsPaid(1, 25), Event::RewardAddressUpdated(1, 8)];
    assert_eq!(events(&rewards), expected);
}

#[test]
fn update_address_with_existing_address_fails() {
    let (mut rewards, mut clock) = empty();
    // Insert contributors
    let pairs = get_ed25519_pairs(3);
    // The init relay block gets inserted
    roll_to(&mut clock, 2);
    let init_block = 1u64;
    assert_eq!(rewards.initialize_reward_vec(Origin::Root, five_contributions(&pairs)), Ok(()));
    assert!(rewards.complete_initialization(Origin::Root, init_block, init_block + VESTING).is_ok());

    roll_to(&mut clock, 4);
    assert!(rewards.claim(&clock, Origin::Signed(1), None).is_ok());
    assert!(rewards.claim(&clock, Origin::Signed(2), None).is_ok());
    let before_1 = rewards.accounts_payable(1);
    let before_2 = rewards.accounts_payable(2);
    let log = events(&rewards);
    assert_eq!(rewards.update_reward_address(Origin::Signed(1), 2), Err(DispatchError::Module(Error::AlreadyAssociated)));
    assert_eq!(rewards.accounts_payable(1), before_1);
    assert_eq!(rewards.accounts_payable(2), before_2);
    assert_eq!(events(&rewards), log);
}

#[test]
fn update_address_with_existing_with_multi_address_works() {
    let (mut rewards, mut clock) = empty();
    // Insert contributors
    let pairs = get_ed25519_pairs(3);
    // The init relay block gets inserted
    let init_block = 1u64;
    assert_eq!(rewards.initialize_reward_vec(Origin::Root, two_relays_for_one(&pairs)), Ok(()));
    assert!(rewards.complete_initialization(Origin::Root, init_block, init_block + VESTING).is_ok());

    roll_to(&mut clock, 3);
    assert_eq!(rewards.claim(&clock, Origin::Signed(1), None), Ok(50));

    // We make sure all rewards go to the new address
    assert_eq!(rewards.update_reward_address(Origin::Signed(1), 2), Ok(()));
    assert_eq!(rewards.accounts_payable(2).unwrap().claimed_reward, 250);
    assert_eq!(rewards.accounts_payable(2).unwrap().total_reward, 1000);

    assert_eq!(rewards.claim(&clock, Origin::Signed(1), None), Err(DispatchError::Module(Error::NoAssociatedClaim)));
}

#[test]
fn initialize_new_addresses() {
    let (mut rewards, mut clock) = empty();
    // The init relay block gets inserted
    roll_to(&mut clock, 2);
    // Insert contributors
    let pairs = get_ed25519_pairs(3);
    let init_block = 1u64;
    assert_eq!(rewards.initialize_reward_vec(Origin::Root, five_contributions(&pairs)), Ok(()));
    assert!(rewards.complete_initialization(Origin::Root, init_block, init_block + VESTING).is_ok());

    assert_eq!(rewards.initialized(), true);

    roll_to(&mut clock, 4);
    assert_eq!(
        rewards.initialize_reward_vec(Origin::Root, vec![([1u8; 32], Some(1), 500)]),
        Err(DispatchError::Module(Error::RewardVecAlreadyInitialized))
    );
    assert_eq!(rewards.accounts_payable(1).unwrap().total_reward, 500);

    assert_eq!(
        rewards.complete_initialization(Origin::Root, init_block, init_block + VESTING * 2),
        Err(DispatchError::Module(Error::RewardVecAlreadyInitialized))
    );
    assert_eq!(rewards.crowdloan_period(0), Some((init_block, init_block + VESTING)));
}

#[test]
fn initialize_new_addresses_not_matching_funds() {
    let (mut rewards, mut clock) = empty();
    // The init relay block gets inserted
    roll_to(&mut clock, 2);
    // Insert contributors
    let pairs = get_ed25519_pairs(2);
    let init_block = 1u64;
    // Total supply is 2500. Lets ensure inserting 2495 is not working.
    assert_eq!(
        rewards.initialize_reward_vec(
            Origin::Root,
            vec![
            ([1u8; 32], Some(1), 500),
            ([2u8; 32], Some(2), 500),
            (relay(&pairs[0]), None, 500),
            (relay(&pairs[1]), None, 995),
        ]),
        Ok(())
    );
    assert_eq!(
        rewards.complete_initialization(Origin::Root, init_block, init_block + VESTING),
        Err(DispatchError::Module(Error::RewardsDoNotMatchFund))
    );
    assert_eq!(rewards.initialized(), false);
    assert_eq!(rewards.crowdloan_period(0), None);
}

#[test]
fn initialize_new_addresses_with_batch() {
    let (mut rewards, mut clock) = empty();
    // This time should succeed trully
    roll_to(&mut clock, 10);
    let init_block = 1u64;
    assert_eq!(rewards.initialize_reward_vec(Origin::Root, vec![([4u8; 32], Some(3), 1250)]), Ok(()));
    assert_eq!(rewards.initialize_reward_vec(Origin::Root, vec![([5u8; 32], Some(1), 1250)]), Ok(()));
    assert_eq!(
        rewards.complete_initialization(Origin::Root, init_block, init_block + VESTING),
        Ok(vec![(3, 250), (1, 250)])
    );
    assert_eq!(rewards.total_contributors(), 2);
    // Verify that the second ending block provider had no effect
    assert_eq!(rewards.crowdloan_period(0), Some((init_block, init_block + VESTING)));

    // A later batch is turned away
    assert_eq!(
        rewards.initialize_reward_vec(Origin::Root, vec![([4u8; 32], Some(3), 500)]),
        Err(DispatchError::Module(Error::RewardVecAlreadyInitialized))
    );
    assert_eq!(rewards.accounts_payable(3).unwrap().total_reward, 1250);
    assert_eq!(rewards.total_contributors(), 2);
}

#[test]
fn floating_point_arithmetic_works() {
    let (mut rewards, mut clock) = empty();
    // The init relay block gets inserted
    let init_block = 1u64;
    assert_eq!(rewards.initialize_reward_vec(Origin::Root, vec![([4u8; 32], Some(1), 1190)]), Ok(()));
    assert_eq!(rewards.initialize_reward_vec(Origin::Root, vec![([5u8; 32], Some(2), 1185)]), Ok(()));
    // We will work with this. This has 125/8=15.625 payable per block
    assert_eq!(rewards.initialize_reward_vec(Origin::Root, vec![([3u8; 32], Some(3), 125)]), Ok(()));
    assert_eq!(
        rewards.complete_initialization(Origin::Root, init_block, init_block + VESTING),
        Ok(vec![(1, 238), (2, 237), (3, 25)])
    );
    assert_eq!(rewards.total_contributors(), 3);

    // the first payment, a fifth of 125
    assert_eq!(rewards.accounts_payable(3).unwrap().claimed_reward, 25);

    assert_eq!(rewards.claim(&clock, Origin::Signed(3), None), Ok(0));
    assert!(events(&rewards).is_empty());

    // block by block to the end of the window: what has vested is rounded down each
    // time, and the last claim makes up for it
    let expected_payments: [u128; 8] = [0, 6, 15, 16, 16, 15, 16, 16];
    let mut received: u128 = 25;
    for step in 0..8u64 {
        roll_to(&mut clock, init_block + 1 + step);
        let paid = rewards.claim(&clock, Origin::Signed(3), None).unwrap();
        assert_eq!(paid, expected_payments[step as usize]);
        received += paid;
        assert_eq!(rewards.accounts_payable(3).unwrap().claimed_reward, received);
    }
    assert_eq!(received, 125);
    assert_eq!(rewards.claim(&clock, Origin::Signed(3), None), Err(DispatchError::Module(Error::RewardsAlreadyClaimed)));

    let expected = vec![
        Event::RewardsPaid(3, 6),
        Event::RewardsPaid(3, 15),
        Event::RewardsPaid(3, 16),
        Event::RewardsPaid(3, 16),
        Event::RewardsPaid(3, 15),
        Event::RewardsPaid(3, 16),
        Event::RewardsPaid(3, 16),
    ];
    assert_eq!(events(&rewards), expected);
}

#[test]
fn test_initialization_errors() {
    let (mut rewards, mut clock) = empty();
    // The init relay block gets inserted
    roll_to(&mut clock, 2);
    let init_block = 1u64;

    let pot = rewards.get_crowdloan_allocation(0);
    assert_eq!(pot, 2500);

    // Too many contributors
    assert_eq!(
        rewards.initialize_reward_vec(
            Origin::Root,
            vec![
            ([1u8; 32], Some(1), 1),
            ([2u8; 32], Some(2), 1),
            ([3u8; 32], Some(3), 1),
            ([4u8; 32], Some(4), 1),
            ([5u8; 32], Some(5), 1),
            ([6u8; 32], Some(6), 1),
            ([7u8; 32], Some(7), 1),
            ([8u8; 32], Some(8), 1),
            ([9u8; 32], Some(9), 1),
        ]),
        Err(DispatchError::Module(Error::TooManyContributors))
    );
    assert!(rewards.accounts_payable(1).is_none());
    assert_eq!(rewards.total_contributors(), 0);

    // Go beyond fund pot
    assert_eq!(
        rewards.initialize_reward_vec(Origin::Root, vec![([1u8; 32], Some(1), pot + 1)]),
        Err(DispatchError::Module(Error::BatchBeyondFundPot))
    );
    assert!(rewards.accounts_payable(1).is_none());

    // Dont fill rewards
    assert_eq!(rewards.initialize_reward_vec(Origin::Root, vec![([1u8; 32], Some(1), pot - 1)]), Ok(()));

    // Fill rewards
    assert_eq!(rewards.initialize_reward_vec(Origin::Root, vec![([2u8; 32], Some(2), 1)]), Ok(()));

    // Insert a non-valid vesting period
    assert_eq!(
        rewards.complete_initialization(Origin::Root, init_block, init_block),
        Err(DispatchError::Module(Error::VestingPeriodNonValid))
    );

    // Cannot claim if we dont complete initialization
    assert_eq!(rewards.claim(&clock, Origin::Signed(1), None), Err(DispatchError::Module(Error::RewardVecNotFullyInitializedYet)));
    // Complete
    assert!(rewards.complete_initialization(Origin::Root, init_block, init_block + VESTING).is_ok());

    // Cannot initialize again
    assert_eq!(
        rewards.complete_initialization(Origin::Root, init_block, init_block),
        Err(DispatchError::Module(Error::RewardVecAlreadyInitialized))
    );
}

#[test]
fn test_relay_signatures_can_change_reward_addresses() {
    let (mut rewards, mut clock) = empty();
    // 5 relay keys
    let pairs = get_ed25519_pairs(5);

    // The init relay block gets inserted
    roll_to(&mut clock, 2);
    let init_block = 1u64;

    // We will have all pointint to the same reward account
    assert_eq!(
        rewards.initialize_reward_vec(
            Origin::Root,
            vec![
            (relay(&pairs[0]), Some(1), 500),
            (relay(&pairs[1]), Some(1), 500),
            (relay(&pairs[2]), Some(1), 500),
            (relay(&pairs[3]), Some(1), 500),
            (relay(&pairs[4]), Some(1), 500),
        ]),
        Ok(())
    );

    // Complete
    assert!(rewards.complete_initialization(Origin::Root, init_block, init_block + VESTING).is_ok());

    let reward_info = rewards.accounts_payable(1).unwrap();

    // We should have all of them as contributors
    for pair in pairs.clone() {
        assert!(reward_info.contributed_relay_addresses.contains(&relay(&pair)))
    }

    // Threshold is set to 50%, so we need at least 3 votes to pass
    // Let's make sure that we dont pass with 2
    let mut payload = wrapped_bytes_prefix();
    payload.append(&mut network_identifier());
    payload.append(&mut 2u64.encode());
    payload.append(&mut 1u64.encode());
    payload.append(&mut wrapped_bytes_postfix());

    let mut insufficient_proofs: Vec<([u8; 32], Signature)> = vec![];
    for i in 0..2 {
        insufficient_proofs.push((relay(&pairs[i]), sign(&pairs[i], &payload)));
    }

    // Not sufficient proofs presented
    assert_eq!(
        rewards.change_association_with_relay_keys(Origin::Signed(1), 2, 1, insufficient_proofs.clone()),
        Err(DispatchError::Module(Error::InsufficientNumberOfValidProofs))
    );
    assert_eq!(rewards.accounts_payable(1), Some(reward_info.clone()));
    assert!(rewards.accounts_payable(2).is_none());
    assert!(events(&rewards).is_empty());

    // With three votes we should passs
    let mut sufficient_proofs = insufficient_proofs.clone();

    // We push one more
    sufficient_proofs.push((relay(&pairs[2]), sign(&pairs[2], &payload)));

    // This time should pass
    assert_eq!(rewards.change_association_with_relay_keys(Origin::Signed(1), 2, 1, sufficient_proofs.clone()), Ok(()));

    // 1 should no longer be payable
    assert!(rewards.accounts_payable(1).is_none());

    // 2 should be now payable
    let reward_info_2 = rewards.accounts_payable(2).unwrap();

    // The reward info should be identical
    assert_eq!(reward_info, reward_info_2);
    assert_eq!(events(&rewards), vec![Event::ReassociationCompleted(1, 2)]);
}
