//! What holds of the events of engines, whatever they hold.

use crate::protocols::{StorageTier, WorkerWithDpRank};
use crate::zmq_wire::{
    KvCacheEventMetadata, KvCacheGroupMetadata, KvCacheSpecKind, KvEventOwnership, KvMedium,
    Locality, NamespaceView, Namespaces, RawKvEvent, Screening, TierSet, ZmqEventFilterReason,
    ZmqEventNormalizer,
};
use vstd::prelude::*;

verus! {

/// Putting a tier in or out changes that tier alone.
pub proof fn law_tiers_are_apart(set: TierSet, tier: StorageTier, other: StorageTier, present: bool)
    ensures
        set.put(tier, present).has(tier) == present,
        other != tier ==> set.put(tier, present).has(other) == set.has(other),
        set.has(StorageTier::Device) == set.device,
        set.has(StorageTier::HostPinned) == set.host_pinned,
        set.has(StorageTier::Disk) == set.disk,
        set.has(StorageTier::External) == set.external,
        !TierSet::none().has(tier),
{
}

/// What storing makes of the namespace of a block. Without one an untracked
/// block stays untracked. The first name that a block gets is its namespace, the
/// same again changes nothing, and another, or none, makes it ambiguous. Blocks
/// that were not stored stay as they are.
pub proof fn law_first_namespace_is_kept(
    before: Namespaces,
    hashes: Seq<u64>,
    namespace: Option<Seq<char>>,
    tier: StorageTier,
    hash: u64,
)
    ensures
        ({
            let after = before.stored(hashes, namespace, tier);
            let known = before.states.contains_key(hash);
            let name = namespace->Some_0;
            &&& !hashes.contains(hash) ==> {
                &&& after.states.contains_key(hash) == known
                &&& known ==> after.states[hash] == before.states[hash]
                &&& after.tiers.contains_key(hash) == before.tiers.contains_key(hash)
                &&& before.tiers.contains_key(hash) ==> after.tiers[hash] == before.tiers[hash]
            }
            &&& hashes.contains(hash) && !known && namespace is None ==> {
                &&& !after.states.contains_key(hash)
                &&& after.tiers.contains_key(hash) == before.tiers.contains_key(hash)
            }
            &&& hashes.contains(hash) && !known && namespace is Some ==> {
                &&& after.states.contains_key(hash)
                &&& after.states[hash] == NamespaceView::Namespaced(name)
            }
            &&& hashes.contains(hash) && known && namespace is Some && before.states[hash]
                == NamespaceView::Namespaced(name) ==> after.states.contains_key(hash)
                && after.states[hash] == before.states[hash]
            &&& hashes.contains(hash) && known && (namespace is None || before.states[hash]
                != NamespaceView::Namespaced(name)) ==> after.states.contains_key(hash)
                && after.states[hash] == NamespaceView::Ambiguous
        }),
{
}

/// A tracked block that is stored resides in the tier from then on, besides
/// where it was.
pub proof fn law_stored_blocks_reside_in_their_tier(
    before: Namespaces,
    hashes: Seq<u64>,
    namespace: Option<Seq<char>>,
    tier: StorageTier,
    hash: u64,
    other: StorageTier,
)
    requires
        hashes.contains(hash),
        before.states.contains_key(hash) || namespace is Some,
        other != tier,
    ensures
        ({
            let after = before.stored(hashes, namespace, tier);
            &&& after.tiers.contains_key(hash)
            &&& after.tiers[hash].has(tier)
            &&& after.tiers[hash].has(other) <==> before.tiers.contains_key(hash)
                && before.tiers[hash].has(other)
        }),
{
}

/// A block that leaves a tier is forgotten if it resides nowhere else, unless
/// its namespace is ambiguous. In another tier it stays, with its namespace.
/// Blocks that did not leave stay as they are.
pub proof fn law_block_is_forgotten_with_its_last_tier(
    before: Namespaces,
    hashes: Seq<u64>,
    tier: StorageTier,
    other: StorageTier,
    hash: u64,
)
    requires
        other != tier,
    ensures
        ({
            let after = before.removed(hashes, tier);
            let known = before.states.contains_key(hash);
            &&& !hashes.contains(hash) ==> {
                &&& after.states.contains_key(hash) == known
                &&& known ==> after.states[hash] == before.states[hash]
                &&& after.tiers.contains_key(hash) == before.tiers.contains_key(hash)
                &&& before.tiers.contains_key(hash) ==> after.tiers[hash] == before.tiers[hash]
            }
            &&& hashes.contains(hash) && before.tiers.contains_key(hash) && before.tiers[hash].has(
                other,
            ) ==> {
                &&& after.tiers.contains_key(hash)
                &&& after.tiers[hash].has(other)
                &&& !after.tiers[hash].has(tier)
                &&& known ==> after.states.contains_key(hash) && after.states[hash]
                    == before.states[hash]
            }
            &&& hashes.contains(hash) && after.tiers.contains_key(hash)
                ==> before.tiers.contains_key(hash) && !after.tiers[hash].has(tier)
            &&& hashes.contains(hash) && !before.tiers.contains_key(hash) && known
                && before.states[hash] != NamespaceView::Ambiguous ==> !after.states.contains_key(
                hash,
            )
            &&& known && before.states[hash] == NamespaceView::Ambiguous
                ==> after.states.contains_key(hash) && after.states[hash]
                == NamespaceView::Ambiguous
            &&& after.states.contains_key(hash) ==> known && after.states[hash]
                == before.states[hash]
        }),
{
    if hashes.contains(hash) && before.tiers.contains_key(hash) && before.tiers[hash].has(other) {
        assert(before.tiers[hash].put(tier, false).has(other));
        assert(before.tiers[hash].put(tier, false) != TierSet::none());
    }
}

/// Clearing a tier takes it from every block; a block that resided in no other
/// tier is forgotten, and one that resides in another keeps its namespace.
pub proof fn law_cleared_tier_holds_nothing(
    before: Namespaces,
    tier: StorageTier,
    other: StorageTier,
    hash: u64,
)
    requires
        other != tier,
    ensures
        ({
            let after = before.tier_cleared(tier);
            &&& after.tiers.contains_key(hash) ==> before.tiers.contains_key(hash)
                && !after.tiers[hash].has(tier) && after.tiers[hash].has(other)
                == before.tiers[hash].has(other)
            &&& before.tiers.contains_key(hash) && before.tiers[hash].has(other) ==> {
                &&& after.tiers.contains_key(hash)
                &&& before.states.contains_key(hash) ==> after.states.contains_key(hash)
            }
            &&& before.tiers.contains_key(hash) && before.tiers[hash] == TierSet::none().put(
                tier,
                true,
            ) ==> !after.tiers.contains_key(hash) && !after.states.contains_key(hash)
            &&& !before.tiers.contains_key(hash) ==> after.states.contains_key(hash)
                == before.states.contains_key(hash)
            &&& after.states.contains_key(hash) ==> before.states.contains_key(hash)
                && after.states[hash] == before.states[hash]
        }),
{
    if before.tiers.contains_key(hash) && before.tiers[hash].has(other) {
        assert(before.tiers[hash].put(tier, false).has(other));
        assert(before.tiers[hash].put(tier, false) != TierSet::none());
    }
    if before.tiers.contains_key(hash) && before.tiers[hash] == TierSet::none().put(tier, true) {
        assert(before.tiers[hash].put(tier, false) == TierSet::none());
    }
}

/// A block's own name counts, unless it is empty; else its parent's does. An
/// untracked parent has none, and from an ambiguous one nothing is inherited.
pub proof fn law_own_namespace_counts_first(
    tables: Namespaces,
    own: Option<Seq<char>>,
    parent: Option<u64>,
)
    ensures
        ({
            let resolved = tables.namespace_of(own, parent);
            let silent = own is None || own->Some_0.len() == 0;
            let state = tables.states[parent->Some_0];
            &&& !silent ==> resolved == Ok::<Option<Seq<char>>, ZmqEventFilterReason>(own)
            &&& silent && (parent is None || !tables.states.contains_key(parent->Some_0))
                ==> resolved == Ok::<Option<Seq<char>>, ZmqEventFilterReason>(None)
            &&& silent && parent is Some && tables.states.contains_key(parent->Some_0) && state
                == NamespaceView::Ambiguous ==> resolved == Err::<
                Option<Seq<char>>,
                ZmqEventFilterReason,
            >(ZmqEventFilterReason::AmbiguousCacheNamespace)
            &&& silent && parent is Some && tables.states.contains_key(parent->Some_0)
                && state is Namespaced ==> resolved == Ok::<
                Option<Seq<char>>,
                ZmqEventFilterReason,
            >(Some(state->Namespaced_0))
        }),
{
}

/// Stored and removed blocks are on the device, unless another tier is named.
pub proof fn law_blocks_are_on_the_device_by_default(medium: Option<KvMedium>, tier: StorageTier)
    ensures
        crate::zmq_wire::tier_or_device(None) == StorageTier::Device,
        crate::zmq_wire::tier_or_device(Some(KvMedium::Tier(tier))) == tier,
        crate::zmq_wire::tier_or_device(Some(KvMedium::Unrecognized)) == StorageTier::Device,
{
}

/// Clearing everything forgets everything; an ignored event and a clear of an
/// unknown medium change nothing.
pub proof fn law_clearing_everything_forgets_everything(
    before: Namespaces,
    raw: RawKvEvent,
    hash: u64,
)
    ensures
        raw is AllBlocksCleared && raw->AllBlocksCleared_medium is None
            ==> crate::zmq_wire::followed(before, raw) is Ok && !crate::zmq_wire::followed(
            before,
            raw,
        )->Ok_0.states.contains_key(hash) && !crate::zmq_wire::followed(
            before,
            raw,
        )->Ok_0.tiers.contains_key(hash),
        raw is Ignored ==> crate::zmq_wire::followed(before, raw) == Ok::<
            Namespaces,
            ZmqEventFilterReason,
        >(before),
        raw is TierBlocksCleared && raw->TierBlocksCleared_medium is Tier
            ==> crate::zmq_wire::followed(before, raw) == Ok::<Namespaces, ZmqEventFilterReason>(
            before.tier_cleared(raw->TierBlocksCleared_medium->Tier_0),
        ),
        raw is BlockRemoved && raw->BlockRemoved_medium is None ==> crate::zmq_wire::followed(
            before,
            raw,
        ) == Ok::<Namespaces, ZmqEventFilterReason>(
            before.removed(raw->BlockRemoved_block_hashes@, StorageTier::Device),
        ),
{
}

/// Groups of different ranks, and different groups of one rank, are told apart.
pub proof fn law_groups_are_told_apart(rank: u32, group: u32, other_rank: u32, other_group: u32)
    requires
        rank != other_rank || group != other_group,
    ensures
        crate::zmq_wire::group_key(rank, group) != crate::zmq_wire::group_key(
            other_rank,
            other_group,
        ),
{
}

/// Only a stored block that names its group and its kind teaches anything, and
/// only of that group.
pub proof fn law_stored_blocks_teach_their_group(
    groups: Map<u64, KvCacheGroupMetadata>,
    raw: RawKvEvent,
    dp_rank: u32,
    key: u64,
)
    ensures
        ({
            let after = crate::zmq_wire::learned(groups, raw, dp_rank);
            let m = raw.spec_metadata();
            let teaches = raw is BlockStored && m.group_idx is Some && m.kv_cache_spec_kind is Some;
            let own = crate::zmq_wire::group_key(dp_rank, m.group_idx->Some_0);
            &&& !teaches ==> after == groups
            &&& teaches ==> after.contains_key(own) && after[own].kind
                == m.kv_cache_spec_kind->Some_0 && after[own].sliding_window
                == m.kv_cache_spec_sliding_window
            &&& teaches && key != own ==> after.contains_key(key) == groups.contains_key(key) && (
            groups.contains_key(key) ==> after[key] == groups[key])
        }),
{
}

/// Only main attention is indexed: an event that names its kind is judged by
/// it, one that names only its group by what was learned of the group, and of a
/// group that nothing was learned of only the first passes.
pub proof fn law_only_main_attention_is_indexed(
    groups: Map<u64, KvCacheGroupMetadata>,
    m: KvCacheEventMetadata,
    dp_rank: u32,
)
    ensures
        ({
            let refusal = crate::zmq_wire::group_refusal(groups, m, dp_rank);
            let key = crate::zmq_wire::group_key(dp_rank, m.group_idx->Some_0);
            &&& m.kv_cache_spec_kind is Some ==> (refusal is None <==> m.kv_cache_spec_kind
                == Some(KvCacheSpecKind::MainAttention))
            &&& m.kv_cache_spec_kind == Some(KvCacheSpecKind::Unknown) ==> refusal == Some(
                ZmqEventFilterReason::UnknownKind,
            )
            &&& m.kv_cache_spec_kind == Some(KvCacheSpecKind::Other) ==> refusal == Some(
                ZmqEventFilterReason::NonMainAttentionKind,
            )
            &&& m.kv_cache_spec_kind is None && m.group_idx is None ==> refusal is None
            &&& m.kv_cache_spec_kind is None && m.group_idx is Some && groups.contains_key(key)
                ==> (refusal is None <==> groups[key].kind == KvCacheSpecKind::MainAttention)
            &&& m.kv_cache_spec_kind is None && m.group_idx is Some && groups.contains_key(key)
                && groups[key].kind == KvCacheSpecKind::Other ==> refusal == Some(
                ZmqEventFilterReason::NonMainAttentionGroup,
            )
            &&& m.kv_cache_spec_kind is None && m.group_idx is Some && !groups.contains_key(key)
                ==> (refusal is None <==> m.group_idx == Some(0u32))
            &&& m.kv_cache_spec_kind is None && m.group_idx is Some && !groups.contains_key(key)
                && refusal is Some ==> refusal == Some(ZmqEventFilterReason::UnlearnedGroupIdx)
        }),
{
}

/// An event is considered exactly if its ownership is known, it is one that is
/// followed, it is local, and its medium is none, the device or pinned memory;
/// clears with a medium are refused, and lower tiers are passed by.
pub proof fn law_only_known_local_events_are_considered(raw: RawKvEvent)
    ensures
        ({
            let m = raw.spec_metadata();
            let medium = raw.spec_medium();
            let sound = m.ownership != KvEventOwnership::Unknown && !(raw is Ignored) && !(
            raw is AllBlocksCleared && medium is Some) && m.locality != Some(Locality::Remote)
                && m.locality != Some(Locality::Unknown);
            &&& crate::zmq_wire::screened(raw) is Considered <==> sound && (medium is None || medium
                == Some(KvMedium::Tier(StorageTier::Device)) || medium == Some(
                KvMedium::Tier(StorageTier::HostPinned),
            ))
            &&& crate::zmq_wire::screened(raw) is Bypassed <==> sound && (medium == Some(
                KvMedium::Tier(StorageTier::Disk),
            ) || medium == Some(KvMedium::Tier(StorageTier::External)))
            &&& m.ownership == KvEventOwnership::Unknown ==> crate::zmq_wire::screened(raw)
                == Screening::Refused(ZmqEventFilterReason::UnknownOwnership)
            &&& sound && medium == Some(KvMedium::Unrecognized) ==> crate::zmq_wire::screened(raw)
                == Screening::Refused(ZmqEventFilterReason::UnknownMedium)
        }),
{
}

/// An event that is refused changes no namespace of any worker, and any event
/// changes those of its own worker alone.
pub proof fn law_refused_events_change_no_namespace(
    before: ZmqEventNormalizer,
    after: ZmqEventNormalizer,
    raw: RawKvEvent,
    worker: WorkerWithDpRank,
    out: Result<RawKvEvent, ZmqEventFilterReason>,
    other: WorkerWithDpRank,
)
    requires
        crate::zmq_wire::framework_outcome(before, after, raw, worker, out),
    ensures
        out is Err ==> after.namespaces(other) == before.namespaces(other),
        other != worker ==> after.namespaces(other) == before.namespaces(other),
        after.settings() == before.settings(),
        raw.spec_metadata().ownership == KvEventOwnership::Kvcr ==> out is Err && out->Err_0
            == ZmqEventFilterReason::UnsupportedOwnership,
{
}

/// What comes out of an event is the event: only the namespace of stored blocks
/// may have been filled in.
pub proof fn law_events_come_out_as_they_went_in(
    before: ZmqEventNormalizer,
    after: ZmqEventNormalizer,
    raw: RawKvEvent,
    worker: WorkerWithDpRank,
    out: RawKvEvent,
)
    requires
        crate::zmq_wire::residency_outcome(
            before,
            after,
            raw,
            worker,
            Ok::<RawKvEvent, ZmqEventFilterReason>(out),
        ),
    ensures
        !(raw is BlockStored) ==> out == raw,
        raw is BlockStored ==> {
            &&& out is BlockStored
            &&& out->BlockStored_block_hashes == raw->BlockStored_block_hashes
            &&& out->parent_block_hash == raw->parent_block_hash
            &&& out->BlockStored_medium == raw->BlockStored_medium
            &&& out->BlockStored_metadata == raw->BlockStored_metadata
            &&& raw->cache_namespace is Some && raw->cache_namespace->Some_0@.len() > 0
                ==> out->cache_namespace is Some && out->cache_namespace->Some_0@
                == raw->cache_namespace->Some_0@
        },
{
}

/// Stored blocks without a namespace come out with that of their parent.
pub proof fn law_parents_namespace_is_filled_in(
    before: ZmqEventNormalizer,
    after: ZmqEventNormalizer,
    raw: RawKvEvent,
    worker: WorkerWithDpRank,
    out: RawKvEvent,
    name: Seq<char>,
)
    requires
        crate::zmq_wire::residency_outcome(
            before,
            after,
            raw,
            worker,
            Ok::<RawKvEvent, ZmqEventFilterReason>(out),
        ),
        crate::zmq_wire::screened(raw) is Considered,
        raw is BlockStored,
        raw->cache_namespace is None,
        raw->parent_block_hash is Some,
        before.namespaces(worker).states.contains_key(raw->parent_block_hash->Some_0),
        before.namespaces(worker).states[raw->parent_block_hash->Some_0]
            == NamespaceView::Namespaced(name),
    ensures
        out->cache_namespace is Some,
        out->cache_namespace->Some_0@ == name,
{
}

} // verus!
