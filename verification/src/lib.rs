//! The rewards of crowdloans: what each contributor is owed, how it vests block by block,
//! and how a contribution on the relay chain is tied to an account of this chain.
//!
//! A crowdloan is filled with contributions in batches and then closed with a vesting
//! window. From then on its rewards add up to its allocation, and the holders of
//! accounts claim what has vested. A contribution that came without an account stays
//! with its relay account until that account signs it over; a reward moves to another
//! account on the word of its owner, or on the signatures of enough of the relay
//! accounts that earned it.
//!
//! The library keeps the books and decides; it moves no money. A call that pays
//! returns the amounts, and the caller carries the payments out.
//!
//! - [`rewards`]: the rewards of all crowdloans and the calls on them, by origin.
//! - [`crowdloan`]: one crowdloan and the same calls on plain values.
//! - [`model`]: the state of a crowdloan as a mathematical value, and what each call
//!   makes of it.
//! - [`laws`]: what holds of every crowdloan, whatever is done to it.
//! - [`vesting`], [`fraction`]: the arithmetic of vesting and of fractions.
//! - [`signature`], [`quorum`]: signed messages, their verification, and the count of
//!   valid proofs.
//! - [`reward`], [`table`]: one reward, and rewards kept by key.
//! - [`clock`]: the clock that vesting goes by.
//! - [`weights`], [`migration`], [`benchmarking`]: the costs of the calls, the upgrade of
//!   an older store, and helpers for measuring.
//! - [`types`]: identifiers, amounts, origins, errors and events.

pub mod benchmarking;
pub mod clock;
pub mod crowdloan;
pub mod fraction;
pub mod laws;
pub mod migration;
pub mod model;
pub mod quorum;
pub mod reward;
pub mod rewards;
pub mod signature;
pub mod table;
pub mod types;
pub mod vesting;
pub mod weights;
