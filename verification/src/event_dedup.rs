//! Policy-driven deduplication of cache events.

use crate::id_map::IdMap;
use crate::kv_events::{KvCacheRemoveData, KvCacheStoreData, ResidencyDomain};
use crate::protocols::{ExternalSequenceBlockHash, StorageTier};
use vstd::prelude::*;

verus! {

#[derive(Debug, Clone, Copy, PartialEq, Eq, Structural)]
pub enum EventDedupPolicy {
    RefCounted,
    SetLike,
}

/// Where references are counted: identical hashes on different ranks, tiers or
/// domains are independent blocks.
#[derive(Debug, Clone, Copy, PartialEq, Eq, Structural)]
pub struct DedupSlot {
    pub dp_rank: u32,
    pub tier: StorageTier,
    pub domain: ResidencyDomain,
}

/// The number of a slot.
pub open spec fn slot_number(slot: DedupSlot) -> int {
    let tier = match slot.tier {
        StorageTier::Device => 0int,
        StorageTier::HostPinned => 1,
        StorageTier::Disk => 2,
        StorageTier::External => 3,
    };
    let domain = match slot.domain {
        ResidencyDomain::Worker => 0int,
        ResidencyDomain::CacheOwner => 1,
    };
    slot.dp_rank * 8 + tier * 2 + domain
}

fn number_of(slot: DedupSlot) -> (n: u64)
    ensures
        n == slot_number(slot),
{
    let tier: u64 = match slot.tier {
        StorageTier::Device => 0,
        StorageTier::HostPinned => 1,
        StorageTier::Disk => 2,
        StorageTier::External => 3,
    };
    let domain: u64 = match slot.domain {
        ResidencyDomain::Worker => 0,
        ResidencyDomain::CacheOwner => 1,
    };
    slot.dp_rank as u64 * 8 + tier * 2 + domain
}

proof fn lemma_slot_number(a: DedupSlot, b: DedupSlot)
    ensures
        slot_number(a) == slot_number(b) ==> a == b,
        0 <= slot_number(a) <= u64::MAX,
{
}

/// The references to each block of a slot; blocks without any are absent.
pub type Counts = Map<u64, usize>;

/// One reference more, as far as can be counted.
pub open spec fn raised(count: usize) -> usize {
    if count < usize::MAX {
        (count + 1) as usize
    } else {
        count
    }
}

/// How many references a block has.
pub open spec fn count_in(counts: Counts, hash: u64) -> usize {
    if counts.contains_key(hash) {
        counts[hash]
    } else {
        0
    }
}

/// The counts after blocks were stored.
pub open spec fn after_store(counts: Counts, hashes: Seq<u64>) -> Counts
    decreases hashes.len(),
{
    if hashes.len() == 0 {
        counts
    } else {
        let before = after_store(counts, hashes.drop_last());
        before.insert(hashes.last(), raised(count_in(before, hashes.last())))
    }
}

/// The counts after blocks were removed, and the blocks that are gone: those
/// whose last reference went, and those that had none.
pub open spec fn after_remove(counts: Counts, hashes: Seq<u64>) -> (Counts, Seq<u64>)
    decreases hashes.len(),
{
    if hashes.len() == 0 {
        (counts, Seq::empty())
    } else {
        let (before, gone) = after_remove(counts, hashes.drop_last());
        let hash = hashes.last();
        let count = count_in(before, hash);
        if count > 1 {
            (before.insert(hash, (count - 1) as usize), gone)
        } else {
            (before.remove(hash), gone.push(hash))
        }
    }
}

/// Policy-driven deduplication filter for publisher KV cache events.
///
/// Engines can emit multiple store/remove events for the same block hash.
/// `RefCounted` Stores increment a refcount and Removes pass only when it
/// reaches zero. `SetLike` events bypass bookkeeping when their producer
/// guarantees at most one logical residency per owner, tier, and block hash.
/// Clears reset refcounts for the emitting rank across storage tiers.
pub struct EventDedupFilter {
    per_rank_tier: IdMap<IdMap<usize>>,
}

impl EventDedupFilter {
    /// The references counted in a slot.
    pub closed spec fn counts(&self, slot: DedupSlot) -> Counts {
        let n = slot_number(slot) as u64;
        if self.per_rank_tier@.contains_key(n) {
            self.per_rank_tier@[n]@
        } else {
            Counts::empty()
        }
    }

    /// Every tracked block has at least one reference.
    pub closed spec fn wf(&self) -> bool {
        forall|n: u64, hash: u64|
            self.per_rank_tier@.contains_key(n) && #[trigger] self.per_rank_tier@[n]@.contains_key(
                hash,
            ) ==> self.per_rank_tier@[n]@[hash] > 0
    }

    pub fn new() -> (s: Self)
        ensures
            s.wf(),
            forall|slot: DedupSlot| #[trigger] s.counts(slot) == Counts::empty(),
    {
        EventDedupFilter { per_rank_tier: IdMap::new() }
    }

    /// Track a store event. Increments the refcount for each block hash in the
    /// given slot. Stores always pass through: this only updates bookkeeping.
    pub fn track_store_in_domain(
        &mut self,
        dp_rank: u32,
        storage_tier: StorageTier,
        residency_domain: ResidencyDomain,
        policy: EventDedupPolicy,
        data: &KvCacheStoreData,
    )
        requires
            old(self).wf(),
        ensures
            final(self).wf(),
            ({
                let own = DedupSlot { dp_rank, tier: storage_tier, domain: residency_domain };
                forall|slot: DedupSlot| #[trigger]
                    final(self).counts(slot) == (if slot == own && policy
                        == EventDedupPolicy::RefCounted {
                        after_store(
                            old(self).counts(slot),
                            crate::kv_events::stored_hashes(data.blocks@),
                        )
                    } else {
                        old(self).counts(slot)
                    })
            }),
    {
        if policy == EventDedupPolicy::SetLike {
            return ;
        }
        let slot = DedupSlot { dp_rank, tier: storage_tier, domain: residency_domain };
        let ghost was = self.per_rank_tier@;
        let ghost hashes = crate::kv_events::stored_hashes(data.blocks@);
        let number: u64 = number_of(slot);
        let mut refcounts: IdMap<usize> = match self.per_rank_tier.remove(number) {
            Some(refcounts) => refcounts,
            None => IdMap::new(),
        };
        let ghost start = refcounts@;
        assert(start =~= old(self).counts(slot));
        let mut i: usize = 0;
        assert(hashes.take(0) =~= Seq::<u64>::empty());
        while i < data.blocks.len()
            invariant
                i <= data.blocks@.len(),
                hashes == crate::kv_events::stored_hashes(data.blocks@),
                refcounts@ == after_store(start, hashes.take(i as int)),
                forall|hash: u64| #[trigger] refcounts@.contains_key(hash) ==> refcounts@[hash] > 0,
                self.per_rank_tier@ == was.remove(number),
            decreases data.blocks@.len() - i,
        {
            let hash: u64 = data.blocks[i].block_hash.0;
            assert(hashes.take(i + 1).drop_last() =~= hashes.take(i as int));
            let count: usize = match refcounts.get(hash) {
                Some(count) => *count,
                None => 0,
            };
            refcounts.insert(
                hash,
                if count < usize::MAX {
                    count + 1
                } else {
                    count
                },
            );
            i = i + 1;
        }
        assert(hashes.take(hashes.len() as int) =~= hashes);
        let ghost now = refcounts;
        self.per_rank_tier.insert(number, refcounts);
        proof {
            assert(self.per_rank_tier@ =~= was.insert(number, now));
            assert forall|other: DedupSlot| #[trigger]
                self.counts(other) == (if other == slot {
                    after_store(old(self).counts(other), hashes)
                } else {
                    old(self).counts(other)
                }) by {
                lemma_slot_number(other, slot);
                lemma_slot_number(slot, other);
            }
        }
    }

    /// Filter a remove event. Retains only block hashes whose refcount in the
    /// given slot decrements to 0 (and those that are not tracked). Returns
    /// `None` if no hashes survive filtering.
    pub fn filter_remove_in_domain(
        &mut self,
        dp_rank: u32,
        storage_tier: StorageTier,
        residency_domain: ResidencyDomain,
        policy: EventDedupPolicy,
        data: KvCacheRemoveData,
    ) -> (filtered: Option<KvCacheRemoveData>)
        requires
            old(self).wf(),
        ensures
            final(self).wf(),
            ({
                let own = DedupSlot { dp_rank, tier: storage_tier, domain: residency_domain };
                let hashes = crate::kv_events::removed_hashes(data.block_hashes@);
                let left = if policy == EventDedupPolicy::SetLike {
                    hashes
                } else {
                    after_remove(old(self).counts(own), hashes).1
                };
                &&& forall|slot: DedupSlot| #[trigger]
                    final(self).counts(slot) == (if slot == own && policy
                        == EventDedupPolicy::RefCounted {
                        after_remove(old(self).counts(slot), hashes).0
                    } else {
                        old(self).counts(slot)
                    })
                &&& filtered is Some <==> left.len() > 0
                &&& filtered is Some ==> crate::kv_events::removed_hashes(
                    filtered->Some_0.block_hashes@,
                ) == left
            }),
    {
        if policy == EventDedupPolicy::SetLike {
            if data.block_hashes.len() == 0 {
                return None;
            }
            return Some(data);
        }
        let slot = DedupSlot { dp_rank, tier: storage_tier, domain: residency_domain };
        let ghost was = self.per_rank_tier@;
        let ghost hashes = crate::kv_events::removed_hashes(data.block_hashes@);
        let number: u64 = number_of(slot);
        let mut refcounts: IdMap<usize> = match self.per_rank_tier.remove(number) {
            Some(refcounts) => refcounts,
            None => IdMap::new(),
        };
        let ghost start = refcounts@;
        assert(start =~= old(self).counts(slot));
        let mut kept: Vec<ExternalSequenceBlockHash> = Vec::new();
        let mut i: usize = 0;
        assert(hashes.take(0) =~= Seq::<u64>::empty());
        assert(crate::kv_events::removed_hashes(kept@) =~= Seq::<u64>::empty());
        while i < data.block_hashes.len()
            invariant
                i <= data.block_hashes@.len(),
                hashes == crate::kv_events::removed_hashes(data.block_hashes@),
                refcounts@ == after_remove(start, hashes.take(i as int)).0,
                crate::kv_events::removed_hashes(kept@) == after_remove(
                    start,
                    hashes.take(i as int),
                ).1,
                forall|hash: u64| #[trigger] refcounts@.contains_key(hash) ==> refcounts@[hash] > 0,
                self.per_rank_tier@ == was.remove(number),
            decreases data.block_hashes@.len() - i,
        {
            let hash = data.block_hashes[i];
            let ghost before = kept@;
            assert(hashes.take(i + 1).drop_last() =~= hashes.take(i as int));
            let count: usize = match refcounts.get(hash.0) {
                Some(count) => *count,
                None => 0,
            };
            if count > 1 {
                refcounts.insert(hash.0, count - 1);
            } else {
                refcounts.remove(hash.0);
                kept.push(hash);
                assert(crate::kv_events::removed_hashes(kept@)
                    =~= crate::kv_events::removed_hashes(before).push(hash.0));
            }
            i = i + 1;
        }
        assert(hashes.take(hashes.len() as int) =~= hashes);
        let ghost now = refcounts;
        self.per_rank_tier.insert(number, refcounts);
        proof {
            assert(self.per_rank_tier@ =~= was.insert(number, now));
            assert forall|other: DedupSlot| #[trigger]
                self.counts(other) == (if other == slot {
                    after_remove(old(self).counts(other), hashes).0
                } else {
                    old(self).counts(other)
                }) by {
                lemma_slot_number(other, slot);
                lemma_slot_number(slot, other);
            }
        }
        if kept.len() == 0 {
            None
        } else {
            Some(KvCacheRemoveData { block_hashes: kept })
        }
    }

    /// Clear refcounts for one DP rank and residency domain across storage tiers.
    pub fn clear_rank_domain(&mut self, dp_rank: u32, domain: ResidencyDomain, policy: EventDedupPolicy)
        requires
            old(self).wf(),
        ensures
            final(self).wf(),
            forall|slot: DedupSlot| #[trigger]
                final(self).counts(slot) == (if slot.dp_rank == dp_rank && slot.domain == domain
                    && policy == EventDedupPolicy::RefCounted {
                    Counts::empty()
                } else {
                    old(self).counts(slot)
                }),
    {
        if policy == EventDedupPolicy::SetLike {
            return ;
        }
        self.forget(DedupSlot { dp_rank, tier: StorageTier::Device, domain });
        self.forget(DedupSlot { dp_rank, tier: StorageTier::HostPinned, domain });
        self.forget(DedupSlot { dp_rank, tier: StorageTier::Disk, domain });
        self.forget(DedupSlot { dp_rank, tier: StorageTier::External, domain });
    }

    /// Forget refcounts for one physical tier only. Dropping the whole rank and
    /// domain would make the next store on a surviving tier look new and
    /// republish blocks the frontend already indexes.
    pub fn clear_rank_tier_domain(
        &mut self,
        dp_rank: u32,
        storage_tier: StorageTier,
        domain: ResidencyDomain,
        policy: EventDedupPolicy,
    )
        requires
            old(self).wf(),
        ensures
            final(self).wf(),
            forall|slot: DedupSlot| #[trigger]
                final(self).counts(slot) == (if slot == (DedupSlot {
                    dp_rank,
                    tier: storage_tier,
                    domain,
                }) && policy == EventDedupPolicy::RefCounted {
                    Counts::empty()
                } else {
                    old(self).counts(slot)
                }),
    {
        if policy == EventDedupPolicy::SetLike {
            return ;
        }
        self.forget(DedupSlot { dp_rank, tier: storage_tier, domain });
    }

    fn forget(&mut self, slot: DedupSlot)
        requires
            old(self).wf(),
        ensures
            final(self).wf(),
            forall|other: DedupSlot| #[trigger]
                final(self).counts(other) == (if other == slot {
                    Counts::empty()
                } else {
                    old(self).counts(other)
                }),
    {
        self.per_rank_tier.remove(number_of(slot));
        proof {
            assert forall|other: DedupSlot| #[trigger]
                self.counts(other) == (if other == slot {
                    Counts::empty()
                } else {
                    old(self).counts(other)
                }) by {
                lemma_slot_number(other, slot);
                lemma_slot_number(slot, other);
            }
        }
    }
}

/// A removal undoes a store: the references are as before, and the removal
/// passes exactly if there were none.
pub proof fn law_removal_undoes_a_store(counts: Counts, hash: u64)
    requires
        count_in(counts, hash) < usize::MAX,
        counts.contains_key(hash) ==> counts[hash] > 0,
    ensures
        ({
            let stored = after_store(counts, seq![hash]);
            let (after, gone) = after_remove(stored, seq![hash]);
            &&& after == counts
            &&& gone == (if counts.contains_key(hash) {
                Seq::empty()
            } else {
                seq![hash]
            })
        }),
{
    assert(seq![hash].drop_last() =~= Seq::<u64>::empty());
    assert(after_store(counts, Seq::<u64>::empty()) == counts);
    let stored = after_store(counts, seq![hash]);
    assert(after_remove(stored, Seq::<u64>::empty()) == (stored, Seq::<u64>::empty()));
    let (after, gone) = after_remove(stored, seq![hash]);
    assert(after =~= counts);
    assert(gone =~= (if counts.contains_key(hash) {
        Seq::empty()
    } else {
        seq![hash]
    }));
}

/// Storing adds one reference to a block for each time it is stored, and none to
/// any other block.
pub proof fn law_stores_are_counted(counts: Counts, hashes: Seq<u64>, hash: u64)
    requires
        (if counts.contains_key(hash) {
            counts[hash] as int
        } else {
            0
        }) + hashes.to_multiset().count(hash) <= usize::MAX,
    ensures
        after_store(counts, hashes).contains_key(hash) <==> counts.contains_key(hash)
            || hashes.contains(hash),
        after_store(counts, hashes).contains_key(hash) ==> after_store(counts, hashes)[hash] == (
        if counts.contains_key(hash) {
            counts[hash] as int
        } else {
            0
        }) + hashes.to_multiset().count(hash),
    decreases hashes.len(),
{
    broadcast use vstd::seq_lib::group_to_multiset_ensures;

    if hashes.len() > 0 {
        let front = hashes.drop_last();
        assert(hashes =~= front.push(hashes.last()));
        vstd::seq_lib::to_multiset_build(front, hashes.last());
        law_stores_are_counted(counts, front, hash);
        if front.contains(hash) {
            let i = choose|i: int| 0 <= i < front.len() && front[i] == hash;
            assert(hashes[i] == hash);
        }
        assert(hashes[hashes.len() - 1] == hashes.last());
        if hashes.contains(hash) && hashes.last() != hash {
            let i = choose|i: int| 0 <= i < hashes.len() && hashes[i] == hash;
            assert(front[i] == hash);
        }
    }
}

/// Removing takes one reference from a block for each time it is removed. Each
/// removal that leaves a reference is held back, and every other one passes.
pub proof fn law_removals_are_counted(counts: Counts, hashes: Seq<u64>, hash: u64)
    requires
        counts.contains_key(hash) ==> counts[hash] > 0,
    ensures
        ({
            let (after, gone) = after_remove(counts, hashes);
            let held = if counts.contains_key(hash) {
                counts[hash] as int
            } else {
                0
            };
            let times = hashes.to_multiset().count(hash) as int;
            &&& after.contains_key(hash) <==> held > times
            &&& after.contains_key(hash) ==> after[hash] == held - times
            &&& gone.to_multiset().count(hash) == (if held > times {
                0
            } else if held == 0 {
                times
            } else {
                times - held + 1
            })
        }),
    decreases hashes.len(),
{
    broadcast use vstd::seq_lib::group_to_multiset_ensures;

    if hashes.len() > 0 {
        let front = hashes.drop_last();
        assert(hashes =~= front.push(hashes.last()));
        vstd::seq_lib::to_multiset_build(front, hashes.last());
        law_removals_are_counted(counts, front, hash);
        let (before, left) = after_remove(counts, front);
        vstd::seq_lib::to_multiset_build(left, hashes.last());
        if !(hashes.last() == hash) {
            assert(after_remove(counts, hashes).0.contains_key(hash) == before.contains_key(hash));
        }
    }
}

/// Blocks on different ranks, tiers or domains are counted apart.
pub proof fn law_slots_are_counted_apart(a: DedupSlot, b: DedupSlot)
    requires
        a.dp_rank != b.dp_rank || a.tier != b.tier || a.domain != b.domain,
    ensures
        slot_number(a) != slot_number(b),
{
    lemma_slot_number(a, b);
}

} // verus!
