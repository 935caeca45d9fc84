//! What each call costs: computation time, and reads and writes of the store.

use vstd::prelude::*;

verus! {

/// `n`, held between zero and the largest `u64`.
pub open spec fn capped(n: int) -> u64 {
    if n > u64::MAX {
        u64::MAX
    } else if n < 0 {
        0
    } else {
        n as u64
    }
}

/// A cost: computation time in picoseconds, and bytes of proof.
#[derive(Clone, Copy, Debug, PartialEq, Eq)]
pub struct Weight {
    /// Computation time, in picoseconds.
    pub ref_time: u64,
    /// Bytes of proof.
    pub proof_size: u64,
}

impl Weight {
    /// A cost of computation time alone.
    pub fn from_ref_time(ref_time: u64) -> (w: Weight)
        ensures
            w == (Weight { ref_time, proof_size: 0 }),
    {
        Weight { ref_time, proof_size: 0 }
    }

    /// The sum of two costs, each part held at the largest `u64`.
    pub fn saturating_add(self, other: Weight) -> (w: Weight)
        ensures
            w.ref_time == capped(self.ref_time + other.ref_time),
            w.proof_size == capped(self.proof_size + other.proof_size),
    {
        Weight {
            ref_time: self.ref_time.saturating_add(other.ref_time),
            proof_size: self.proof_size.saturating_add(other.proof_size),
        }
    }
}

/// The product of two numbers, held at the largest `u64`.
pub fn saturating_mul(a: u64, b: u64) -> (p: u64)
    ensures
        p == capped(a * b),
{
    assert(0 <= a * b) by (nonlinear_arith)
        requires
            0 <= a,
            0 <= b,
    ;
    match a.checked_mul(b) {
        Some(p) => p,
        None => u64::MAX,
    }
}

/// What one read and one write of the store cost.
#[derive(Clone, Copy, Debug, PartialEq, Eq)]
pub struct RuntimeDbWeight {
    /// The cost of one read.
    pub read: u64,
    /// The cost of one write.
    pub write: u64,
}

impl RuntimeDbWeight {
    /// The cost of `r` reads.
    pub fn reads(&self, r: u64) -> (w: Weight)
        ensures
            w == (Weight { ref_time: capped(self.read * r), proof_size: 0 }),
    {
        Weight::from_ref_time(saturating_mul(self.read, r))
    }

    /// The cost of `w` writes.
    pub fn writes(&self, w: u64) -> (cost: Weight)
        ensures
            cost == (Weight { ref_time: capped(self.write * w), proof_size: 0 }),
    {
        Weight::from_ref_time(saturating_mul(self.write, w))
    }

    /// The cost of `r` reads and `w` writes.
    pub fn reads_writes(&self, r: u64, w: u64) -> (cost: Weight)
        ensures
            cost == (Weight { ref_time: capped(self.read * r + self.write * w), proof_size: 0 }),
    {
        let read_cost: u64 = saturating_mul(self.read, r);
        let write_cost: u64 = saturating_mul(self.write, w);
        assert(0 <= self.read * r && 0 <= self.write * w) by (nonlinear_arith)
            requires
                0 <= self.read,
                0 <= r,
                0 <= self.write,
                0 <= w,
        ;
        Weight::from_ref_time(read_cost.saturating_add(write_cost))
    }
}

/// The costs of a store on RocksDB.
pub fn rocks_db_weight() -> (db: RuntimeDbWeight)
    ensures
        db == (RuntimeDbWeight { read: 25_000_000, write: 100_000_000 }),
{
    RuntimeDbWeight { read: 25_000_000, write: 100_000_000 }
}

/// A cost of `base` picoseconds, `reads` reads and `writes` writes, held at the largest
/// `u64`.
pub open spec fn cost(base: int, reads: int, writes: int, db: RuntimeDbWeight) -> Weight {
    Weight { ref_time: capped(base + reads * db.read + writes * db.write), proof_size: 0 }
}

/// Adds up a cost of `base` picoseconds, `reads` reads and `writes` writes.
pub fn charge(base: u64, reads: u64, writes: u64, db: &RuntimeDbWeight) -> (w: Weight)
    ensures
        w == cost(base as int, reads as int, writes as int, *db),
{
    assert(0 <= db.read * reads && 0 <= db.write * writes && db.read * reads == reads * db.read
        && db.write * writes == writes * db.write) by (nonlinear_arith)
        requires
            0 <= db.read,
            0 <= reads,
            0 <= db.write,
            0 <= writes,
    ;
    Weight::from_ref_time(base).saturating_add(db.reads(reads)).saturating_add(db.writes(writes))
}

/// The cost of each call.
pub trait WeightInfo {
    /// The cost of recording a batch of `x` contributions.
    fn initialize_reward_vec(&self, x: u32) -> Weight;

    /// The cost of closing a crowdloan.
    fn complete_initialization(&self) -> Weight;

    /// The cost of a claim.
    fn claim(&self) -> Weight;

    /// The cost of moving a reward by its owner.
    fn update_reward_address(&self) -> Weight;

    /// The cost of an association.
    fn associate_native_identity(&self) -> Weight;

    /// The cost of moving a reward on `x` proofs of relay accounts.
    fn change_association_with_relay_keys(&self, x: u32) -> Weight;

    /// The cost of setting the allocation.
    fn set_crowdloan_allocation(&self) -> Weight;
}

/// The costs that were measured on the recommended hardware, over a store of given costs.
#[derive(Clone, Copy, Debug, PartialEq, Eq)]
pub struct SubstrateWeight {
    /// What the store charges.
    pub db_weight: RuntimeDbWeight,
}

impl WeightInfo for SubstrateWeight {
    fn initialize_reward_vec(&self, x: u32) -> (w: Weight)
        ensures
            w == cost(143_109_000 + 72_298_000 * x, 8 + x, 8, self.db_weight),
    {
        let per_item: u64 = saturating_mul(72_298_000u64, x as u64);
        let db = self.db_weight;
        assert(0 <= db.read * 8 && 0 <= db.read * x && 0 <= db.write * 5 && 0 <= db.write * 3 && (8
            + x) * db.read == db.read * 8 + db.read * x && 8 * db.write == db.write * 5 + db.write
            * 3) by (nonlinear_arith)
            requires
                0 <= db.read,
                0 <= db.write,
                0 <= x,
        ;
        Weight::from_ref_time(143_109_000u64).saturating_add(
            Weight::from_ref_time(per_item),
        ).saturating_add(db.reads(8u64)).saturating_add(db.reads(x as u64)).saturating_add(
            db.writes(5u64),
        ).saturating_add(db.writes(3u64))
    }

    fn complete_initialization(&self) -> (w: Weight)
        ensures
            w == cost(51_047_000, 6, 3, self.db_weight),
    {
        charge(51_047_000u64, 6u64, 3u64, &self.db_weight)
    }

    fn claim(&self) -> (w: Weight)
        ensures
            w == cost(101_484_000, 11, 5, self.db_weight),
    {
        charge(101_484_000u64, 11u64, 5u64, &self.db_weight)
    }

    fn update_reward_address(&self) -> (w: Weight)
        ensures
            w == cost(59_051_000, 6, 4, self.db_weight),
    {
        charge(59_051_000u64, 6u64, 4u64, &self.db_weight)
    }

    fn associate_native_identity(&self) -> (w: Weight)
        ensures
            w == cost(152_997_000, 9, 7, self.db_weight),
    {
        charge(152_997_000u64, 9u64, 7u64, &self.db_weight)
    }

    fn change_association_with_relay_keys(&self, x: u32) -> (w: Weight)
        ensures
            w == cost(47_373_000 * x, 6, 4, self.db_weight),
    {
        let per_item: u64 = saturating_mul(47_373_000u64, x as u64);
        charge(per_item, 6u64, 4u64, &self.db_weight)
    }

    fn set_crowdloan_allocation(&self) -> (w: Weight)
        ensures
            w == cost(147_000, 0, 1, self.db_weight),
    {
        charge(147_000u64, 0u64, 1u64, &self.db_weight)
    }
}

impl WeightInfo for () {
    fn initialize_reward_vec(&self, x: u32) -> (w: Weight)
        ensures
            w == cost(
                143_109_000 + 72_298_000 * x,
                8 + x,
                5 + x,
                RuntimeDbWeight { read: 25_000_000, write: 100_000_000 },
            ),
    {
        let per_item: u64 = saturating_mul(72_298_000u64, x as u64);
        let db = rocks_db_weight();
        Weight::from_ref_time(143_109_000u64).saturating_add(
            Weight::from_ref_time(per_item),
        ).saturating_add(db.reads(8u64)).saturating_add(db.reads(x as u64)).saturating_add(
            db.writes(5u64),
        ).saturating_add(db.writes(x as u64))
    }

    fn complete_initialization(&self) -> (w: Weight)
        ensures
            w == cost(51_047_000, 6, 3, RuntimeDbWeight { read: 25_000_000, write: 100_000_000 }),
    {
        charge(51_047_000u64, 6u64, 3u64, &rocks_db_weight())
    }

    fn claim(&self) -> (w: Weight)
        ensures
            w == cost(101_484_000, 11, 5, RuntimeDbWeight { read: 25_000_000, write: 100_000_000 }),
    {
        charge(101_484_000u64, 11u64, 5u64, &rocks_db_weight())
    }

    fn update_reward_address(&self) -> (w: Weight)
        ensures
            w == cost(59_051_000, 6, 4, RuntimeDbWeight { read: 25_000_000, write: 100_000_000 }),
    {
        charge(59_051_000u64, 6u64, 4u64, &rocks_db_weight())
    }

    fn associate_native_identity(&self) -> (w: Weight)
        ensures
            w == cost(152_997_000, 9, 7, RuntimeDbWeight { read: 25_000_000, write: 100_000_000 }),
    {
        charge(152_997_000u64, 9u64, 7u64, &rocks_db_weight())
    }

    fn change_association_with_relay_keys(&self, x: u32) -> (w: Weight)
        ensures
            w == cost(
                47_373_000 * x,
                6,
                4,
                RuntimeDbWeight { read: 25_000_000, write: 100_000_000 },
            ),
    {
        let per_item: u64 = saturating_mul(47_373_000u64, x as u64);
        charge(per_item, 6u64, 4u64, &rocks_db_weight())
    }

    fn set_crowdloan_allocation(&self) -> (w: Weight)
        ensures
            w == cost(147_000, 0, 1, RuntimeDbWeight { read: 25_000_000, write: 100_000_000 }),
    {
        charge(147_000u64, 0u64, 1u64, &rocks_db_weight())
    }
}

} // verus!
