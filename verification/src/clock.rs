//! The clock that vesting goes by.

use vstd::prelude::*;
use crate::types::BlockNumber;

verus! {

/// A source of the current block number.
pub trait BlockProvider {
    /// The block that the clock stands at.
    spec fn block_number(&self) -> BlockNumber;

    /// Reads the clock.
    fn current_block_number(&self) -> (now: BlockNumber)
        ensures
            now == self.block_number(),
    ;
}

/// A clock that is set by hand.
#[derive(Clone, Copy, Debug, PartialEq, Eq)]
pub struct MockedBlockProvider {
    block: BlockNumber,
}

impl BlockProvider for MockedBlockProvider {
    closed spec fn block_number(&self) -> BlockNumber {
        self.block
    }

    fn current_block_number(&self) -> (now: BlockNumber) {
        self.block
    }
}

impl MockedBlockProvider {
    /// A clock that stands at `block`.
    pub fn new(block: BlockNumber) -> (clock: MockedBlockProvider)
        ensures
            clock.block_number() == block,
    {
        MockedBlockProvider { block }
    }

    /// Sets the clock to `block`.
    pub fn set_block_number(&mut self, block: BlockNumber)
        ensures
            final(self).block_number() == block,
    {
        self.block = block;
    }
}

/// Moves the clock forward to block `n`; a clock that is there or further stays.
pub fn roll_to(clock: &mut MockedBlockProvider, n: BlockNumber)
    ensures
        final(clock).block_number() == if old(clock).block_number() < n {
            n
        } else {
            old(clock).block_number()
        },
{
    if clock.block < n {
        clock.block = n;
    }
}

} // verus!
