//! Cache events of a worker, with the place that they are about.

use crate::block_hash::BlockExtraInfo;
use crate::keyed_table::TableKey;
use crate::protocols::{
    ExternalSequenceBlockHash, LocalBlockHash, ResidencyOwner, StorageTier, WorkerWithDpRank,
};
use vstd::prelude::*;

verus! {

/// Who keeps the books on a residency.
#[derive(Debug, Clone, Copy, PartialEq, Eq, Structural, Hash)]
pub enum ResidencyDomain {
    Worker,
    CacheOwner,
}

/// Where a cached block lies and who owns it.
#[derive(Debug, Clone, Copy, PartialEq, Eq, Structural, Hash)]
pub struct Placement {
    pub owner: ResidencyOwner,
    pub tier: StorageTier,
    pub residency_domain: ResidencyDomain,
}

impl Placement {
    /// A place on a worker itself.
    pub fn local_worker(worker_id: u64, dp_rank: u32, tier: StorageTier) -> (placement: Self)
        ensures
            placement.owner == ResidencyOwner::Worker(WorkerWithDpRank { worker_id, dp_rank }),
            placement.tier == tier,
            placement.residency_domain == ResidencyDomain::Worker,
    {
        Placement {
            owner: ResidencyOwner::Worker(WorkerWithDpRank { worker_id, dp_rank }),
            tier,
            residency_domain: ResidencyDomain::Worker,
        }
    }
}

impl TableKey for Placement {
    type Key = Placement;

    open spec fn key(&self) -> Placement {
        *self
    }

    fn same_key(&self, other: &Self) -> (same: bool) {
        *self == *other
    }
}

impl TableKey for ResidencyDomain {
    type Key = ResidencyDomain;

    open spec fn key(&self) -> ResidencyDomain {
        *self
    }

    fn same_key(&self, other: &Self) -> (same: bool) {
        *self == *other
    }
}

/// A block that was stored.
#[derive(Debug)]
pub struct KvCacheStoredBlockData {
    pub block_hash: ExternalSequenceBlockHash,
    pub tokens_hash: LocalBlockHash,
    pub mm_extra_info: Option<BlockExtraInfo>,
}

/// A run of blocks that were stored behind one parent.
#[derive(Debug)]
pub struct KvCacheStoreData {
    pub parent_hash: Option<ExternalSequenceBlockHash>,
    pub start_position: Option<u32>,
    pub blocks: Vec<KvCacheStoredBlockData>,
}

/// Blocks that were removed.
#[derive(Debug)]
pub struct KvCacheRemoveData {
    pub block_hashes: Vec<ExternalSequenceBlockHash>,
}

/// What happened in a cache.
#[derive(Debug)]
pub enum KvCacheEventData {
    Stored(KvCacheStoreData),
    Removed(KvCacheRemoveData),
    Cleared,
    TierCleared(StorageTier),
}

#[derive(Debug)]
pub struct KvCacheEvent {
    pub event_id: u64,
    pub data: KvCacheEventData,
    pub dp_rank: u32,
}

#[derive(Debug)]
pub struct PlacementEvent {
    pub placement: Placement,
    pub event: KvCacheEvent,
}

/// The hashes of stored blocks.
pub open spec fn stored_hashes(blocks: Seq<KvCacheStoredBlockData>) -> Seq<u64> {
    blocks.map_values(|block: KvCacheStoredBlockData| block.block_hash.0)
}

/// The hashes of removed blocks.
pub open spec fn removed_hashes(hashes: Seq<ExternalSequenceBlockHash>) -> Seq<u64> {
    hashes.map_values(|hash: ExternalSequenceBlockHash| hash.0)
}

/// The hashes of blocks stand in the order of the blocks.
pub proof fn law_hashes_stand_for_their_blocks(
    blocks: Seq<KvCacheStoredBlockData>,
    hashes: Seq<ExternalSequenceBlockHash>,
    i: int,
)
    ensures
        stored_hashes(blocks).len() == blocks.len(),
        removed_hashes(hashes).len() == hashes.len(),
        0 <= i < blocks.len() ==> stored_hashes(blocks)[i] == blocks[i].block_hash.0,
        0 <= i < hashes.len() ==> removed_hashes(hashes)[i] == hashes[i].0,
{
}

} // verus!
