//! Identifiers and small value types shared by the modules of this crate.

use vstd::prelude::*;

verus! {

/// A sequence-level hash of a cached block, as the engine names it.
#[derive(Debug, Clone, Copy, PartialEq, Eq, Structural, Hash)]
pub struct ExternalSequenceBlockHash(pub u64);

/// A content hash of one block of tokens, independent of its position.
#[derive(Debug, Clone, Copy, PartialEq, Eq, Structural, Hash)]
pub struct LocalBlockHash(pub u64);

/// One data-parallel rank of one worker.
#[derive(Debug, Clone, Copy, PartialEq, Eq, Structural, Hash)]
pub struct WorkerWithDpRank {
    pub worker_id: u64,
    pub dp_rank: u32,
}

impl WorkerWithDpRank {
    pub fn new(worker_id: u64, dp_rank: u32) -> (w: Self)
        ensures
            w.worker_id == worker_id,
            w.dp_rank == dp_rank,
    {
        WorkerWithDpRank { worker_id, dp_rank }
    }
}

/// Who holds a cached block: a serving worker, or a cache owner that outlives
/// any single worker.
#[derive(Debug, Clone, Copy, PartialEq, Eq, Structural, Hash)]
pub enum ResidencyOwner {
    Worker(WorkerWithDpRank),
    CacheOwner { id: u64, dp_rank: u32 },
}

impl ResidencyOwner {
    pub fn worker(worker: WorkerWithDpRank) -> (owner: Self)
        ensures
            owner == ResidencyOwner::Worker(worker),
    {
        ResidencyOwner::Worker(worker)
    }
}

/// Where a cached block resides.
#[derive(Debug, Clone, Copy, PartialEq, Eq, Structural, Hash)]
pub enum StorageTier {
    Device,
    HostPinned,
    Disk,
    External,
}

} // verus!
