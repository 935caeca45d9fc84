//! The step that marks a store with the version of its layout.

use vstd::prelude::*;
use crate::weights::{capped, RuntimeDbWeight, Weight};

verus! {

/// The version of the layout that a store is written in.
pub type StorageVersion = u16;

/// What an upgrade leaves behind: the version that the store is marked with, and what
/// the upgrade cost.
#[derive(Clone, Copy, Debug, PartialEq, Eq)]
pub struct Upgrade {
    /// The version that the store is marked with after the upgrade.
    pub on_chain: StorageVersion,
    /// The cost of the upgrade.
    pub weight: Weight,
}

/// The step from the layout for a single crowdloan, version 0, to the layout that
/// keeps every entry under the number of its crowdloan, version 1.
pub struct MigrateToV1;

impl MigrateToV1 {
    /// What the step does to a store that is marked with `on_chain`, where the code
    /// is written for `current`: it marks the store with version 1 where the code is
    /// at 1 and the store at 0, at the cost of two reads and one write, and leaves
    /// every other store as it is, at the cost of the two reads.
    pub open spec fn upgraded(
        current: StorageVersion,
        on_chain: StorageVersion,
        db: RuntimeDbWeight,
    ) -> Upgrade {
        if current == 1 && on_chain == 0 {
            Upgrade {
                on_chain: current,
                weight: Weight {
                    ref_time: capped(db.read * 2 + db.write * 1),
                    proof_size: 0,
                },
            }
        } else {
            Upgrade {
                on_chain,
                weight: Weight { ref_time: capped(db.read * 2), proof_size: 0 },
            }
        }
    }

    /// Decides what the step does: see [`MigrateToV1::upgraded`].
    pub fn on_runtime_upgrade(
        current: StorageVersion,
        on_chain: StorageVersion,
        db: &RuntimeDbWeight,
    ) -> (upgrade: Upgrade)
        ensures
            upgrade == Self::upgraded(current, on_chain, *db),
    {
        if current == 1 && on_chain == 0 {
            Upgrade { on_chain: current, weight: db.reads_writes(2u64, 1u64) }
        } else {
            Upgrade { on_chain, weight: db.reads(2u64) }
        }
    }
}

} // verus!
