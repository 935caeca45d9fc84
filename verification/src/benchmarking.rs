//! Contributions and signatures made from seeds, for measuring the calls.

use vstd::prelude::*;
use crate::laws::lemma_batch_total_prefix;
use crate::model::{batch_recorded, batch_total, Contribution};
use crate::rewards::{allocated, current, with_current, CrowdloanRewards, RewardsView};
use crate::signature::Signature;
use crate::types::{Balance, DispatchError, Error, Origin, RelayAccountId};

verus! {

broadcast use vstd::array::group_array_axioms;

/// The 32 bytes that stand for a seed: its four bytes, the highest first, and zeros.
pub open spec fn seed_bytes(seed: u32) -> Seq<u8> {
    Seq::new(
        32,
        |i: int|
            if i == 0 {
                (seed >> 24) as u8
            } else if i == 1 {
                ((seed >> 16) & 0xff) as u8
            } else if i == 2 {
                ((seed >> 8) & 0xff) as u8
            } else if i == 3 {
                (seed & 0xff) as u8
            } else {
                0u8
            },
    )
}

/// Writes a seed out as 32 bytes.
pub fn seed_account(seed: u32) -> (account: RelayAccountId)
    ensures
        account@ == seed_bytes(seed),
{
    let mut account: RelayAccountId = [0u8; 32];
    assert(seed >> 24 < 256 && (seed >> 16) & 0xff < 256 && (seed >> 8) & 0xff < 256 && seed & 0xff
        < 256) by (bit_vector);
    account[0] = (seed >> 24) as u8;
    account[1] = ((seed >> 16) & 0xff) as u8;
    account[2] = ((seed >> 8) & 0xff) as u8;
    account[3] = (seed & 0xff) as u8;
    assert(account@ =~= seed_bytes(seed));
    account
}

/// The Ed25519 public key that belongs to a secret seed.
pub uninterp spec fn ed25519_public_key(seed: Seq<u8>) -> Seq<u8>;

/// The Ed25519 signature of `message` under a secret seed.
pub uninterp spec fn ed25519_signature(seed: Seq<u8>, message: Seq<u8>) -> Seq<u8>;

/// Calls `from_bytes` and `verifying_key` of `ed25519_dalek::SigningKey`. Nothing is
/// proved of the key: the contract gives it a name, which stands for what these
/// functions make of the seed.
#[verifier::external_body]
fn ed25519_public(seed: &[u8; 32]) -> (key: [u8; 32])
    ensures
        key@ == ed25519_public_key(seed@),
{
    ed25519_dalek::SigningKey::from_bytes(seed).verifying_key().to_bytes()
}

/// Calls `sign` of `ed25519_dalek::Signer` on the `ed25519_dalek::SigningKey` of the
/// seed. Nothing is proved of the signature: the contract gives it a name, which
/// stands for what that function makes of the seed and the message.
#[verifier::external_body]
fn ed25519_sign(seed: &[u8; 32], message: &Vec<u8>) -> (signature: [u8; 64])
    ensures
        signature@ == ed25519_signature(seed@, message@),
{
    let key = ed25519_dalek::SigningKey::from_bytes(seed);
    ed25519_dalek::Signer::sign(&key, message.as_slice()).to_bytes()
}

/// A relay account made from the seed, and its signature of the payload.
pub fn create_sig(seed: u32, payload: &Vec<u8>) -> (signed: (RelayAccountId, Signature))
    ensures
        signed.0@ == ed25519_public_key(seed_bytes(seed)),
        signed.1 matches Signature::Ed25519(bytes) && bytes@ == ed25519_signature(
            seed_bytes(seed),
            payload@,
        ),
{
    let secret = seed_account(seed);
    let account = ed25519_public(&secret);
    let signature = ed25519_sign(&secret, payload);
    (account, Signature::Ed25519(signature))
}

/// How many contributions the next batch takes out of `left`: as many as a batch may
/// hold, but one at the least.
pub open spec fn batch_length(left: nat, max: nat) -> nat {
    if left <= max {
        left
    } else if max == 0 {
        1
    } else {
        max
    }
}

/// What recording `contributors` batch by batch gives: the rewards when the batches
/// were through or the first of them was rejected, and how it ended. The batches that
/// were recorded before a rejected one stay.
pub open spec fn recorded_in_batches(
    v: RewardsView,
    contributors: Seq<Contribution>,
    max: nat,
) -> (RewardsView, Result<(), Error>)
    decreases contributors.len(),
{
    if contributors.len() == 0 {
        (v, Ok(()))
    } else {
        let n = batch_length(contributors.len(), max) as int;
        match batch_recorded(current(v), contributors.take(n), max) {
            Ok(c) => recorded_in_batches(with_current(v, c), contributors.skip(n), max),
            Err(e) => (v, Err(e)),
        }
    }
}

/// The sum of the rewards of `contributors`.
pub fn contributions_total(contributors: &Vec<Contribution>) -> (total: Balance)
    requires
        batch_total(contributors@) <= u128::MAX,
    ensures
        total == batch_total(contributors@),
{
    let mut total: Balance = 0;
    let mut i: usize = 0;
    while i < contributors.len()
        invariant
            i <= contributors.len(),
            total == batch_total(contributors@.take(i as int)),
            batch_total(contributors@) <= u128::MAX,
        decreases contributors.len() - i,
    {
        proof {
            assert(contributors@.take(i + 1).drop_last() =~= contributors@.take(i as int));
            lemma_batch_total_prefix(contributors@, i + 1);
        }
        total = total + contributors[i].2;
        i = i + 1;
    }
    assert(contributors@.take(contributors.len() as int) =~= contributors@);
    total
}

/// Sets the allocation to the sum of the rewards of `contributors` and records them,
/// batch by batch, as the administrator: see [`recorded_in_batches`].
pub fn insert_contributors(rewards: &mut CrowdloanRewards, contributors: Vec<Contribution>) -> (r:
    Result<(), DispatchError>)
    requires
        old(rewards).wf(),
        batch_total(contributors@) <= u128::MAX,
    ensures
        final(rewards).wf(),
        final(rewards).config() == old(rewards).config(),
        match r {
            Ok(()) => recorded_in_batches(
                allocated(old(rewards)@, batch_total(contributors@)),
                contributors@,
                old(rewards).config().max_init_contributors as nat,
            ) == (final(rewards)@, Ok::<(), Error>(())),
            Err(DispatchError::BadOrigin) => false,
            Err(DispatchError::Module(e)) => recorded_in_batches(
                allocated(old(rewards)@, batch_total(contributors@)),
                contributors@,
                old(rewards).config().max_init_contributors as nat,
            ) == (final(rewards)@, Err::<(), Error>(e)),
        },
{
    let amount: Balance = contributions_total(&contributors);
    let batch: usize = rewards.max_batch_contributors() as usize;
    match rewards.set_crowdloan_allocation(Origin::Root, amount) {
        Ok(()) => {},
        Err(e) => {
            return Err(e);
        },
    }
    let ghost base = rewards@;
    let ghost max = batch as nat;
    let mut start: usize = 0;
    assert(contributors@.skip(0) =~= contributors@);
    while start < contributors.len()
        invariant
            start <= contributors.len(),
            rewards.wf(),
            rewards.config() == old(rewards).config(),
            max == old(rewards).config().max_init_contributors,
            batch == max,
            base == allocated(old(rewards)@, batch_total(contributors@)),
            recorded_in_batches(base, contributors@, max) == recorded_in_batches(
                rewards@,
                contributors@.skip(start as int),
                max,
            ),
        decreases contributors.len() - start,
    {
        let left: usize = contributors.len() - start;
        let n: usize = if left <= batch {
            left
        } else if batch == 0 {
            1
        } else {
            batch
        };
        let ghost rest = contributors@.skip(start as int);
        let mut chunk: Vec<Contribution> = Vec::new();
        let mut k: usize = 0;
        while k < n
            invariant
                k <= n,
                start + n <= contributors.len(),
                rest == contributors@.skip(start as int),
                chunk@ == rest.take(k as int),
            decreases n - k,
        {
            chunk.push(contributors[start + k]);
            assert(rest.take(k + 1) =~= rest.take(k as int).push(rest[k as int]));
            k = k + 1;
        }
        match rewards.initialize_reward_vec(Origin::Root, chunk) {
            Ok(()) => {
                assert(rest.skip(n as int) =~= contributors@.skip(start + n));
            },
            Err(e) => {
                return Err(e);
            },
        }
        start = start + n;
    }
    assert(contributors@.skip(contributors.len() as int).len() == 0);
    Ok(())
}

} // verus!
