//! The plain values that the ledger speaks of: identifiers, amounts, errors and events.

use vstd::prelude::*;
use crate::fraction::Perbill;

verus! {

/// An account of this chain, which receives rewards.
pub type AccountId = u64;

/// An account of the relay chain, which made a contribution: its 32-byte identifier.
pub type RelayAccountId = [u8; 32];

/// An amount of the reward currency.
pub type Balance = u128;

/// A block number of the clock that vesting goes by.
pub type BlockNumber = u64;

/// The number of a crowdloan.
pub type CrowdloanId = u64;

/// Why a call was rejected. A rejected call changes nothing.
#[derive(Clone, Copy, Debug, PartialEq, Eq, Structural)]
pub enum Error {
    /// The batch is longer than the configured maximum.
    TooManyContributors,
    /// The batch would take the recorded rewards over the allocation.
    BatchBeyondFundPot,
    /// The recorded rewards do not add up to the allocation.
    RewardsDoNotMatchFund,
    /// The vesting window does not end after it starts.
    VestingPeriodNonValid,
    /// The crowdloan has been closed already.
    RewardVecAlreadyInitialized,
    /// The crowdloan has not been closed yet.
    RewardVecNotFullyInitializedYet,
    /// No reward is recorded for the account.
    NoAssociatedClaim,
    /// The account holds a reward already, or the relay account was used before.
    AlreadyAssociated,
    /// The signature does not fit the message and the relay account.
    InvalidClaimSignature,
    /// Too few of the contributing relay accounts gave a valid proof.
    InsufficientNumberOfValidProofs,
    /// The whole reward has been paid out.
    RewardsAlreadyClaimed,
}

/// Who makes a call.
#[derive(Clone, Copy, Debug, PartialEq, Eq, Structural)]
pub enum Origin {
    /// The administrator.
    Root,
    /// The holder of an account of this chain, who has signed the call.
    Signed(AccountId),
    /// Nobody in particular: the call is not signed.
    Unsigned,
}

/// Why a call failed.
#[derive(Clone, Copy, Debug, PartialEq, Eq, Structural)]
pub enum DispatchError {
    /// The call is not open to who made it.
    BadOrigin,
    /// The call was rejected for the given reason.
    Module(Error),
}

/// What a successful call announces.
#[derive(Clone, Copy, Debug, PartialEq, Eq)]
pub enum Event {
    /// A claim paid the amount to the account.
    RewardsPaid(AccountId, Balance),
    /// The contribution of the relay account, of the given size, now belongs to the account.
    NativeIdentityAssociated(RelayAccountId, AccountId, Balance),
    /// The owner moved the reward from the first account to the second.
    RewardAddressUpdated(AccountId, AccountId),
    /// The contributing relay accounts moved the reward from the first account to the second.
    ReassociationCompleted(AccountId, AccountId),
}

/// The parameters that a deployment chooses.
#[derive(Clone, Debug, PartialEq, Eq)]
pub struct Config {
    /// The fraction of a reward that is paid when the crowdloan closes.
    pub initialization_payment: Perbill,
    /// The longest batch of contributions that is accepted in one call.
    pub max_init_contributors: u32,
    /// The fraction of an account's relay accounts whose proofs move its reward.
    pub reward_address_relay_vote_threshold: Perbill,
    /// The bytes that tie a signature to this deployment.
    pub signature_network_identifier: Vec<u8>,
}

impl Config {
    /// Both fractions are at most one. This holds of all parameters that a program holds.
    pub open spec fn wf(&self) -> bool {
        &&& self.initialization_payment.wf()
        &&& self.reward_address_relay_vote_threshold.wf()
    }
}

} // verus!
