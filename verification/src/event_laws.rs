//! What holds of batched events, whatever comes in.

use crate::event_batching::ReadyEvent;
use crate::event_dedup::EventDedupFilter;
use crate::keyed_table::TableKey;
use crate::kv_events::{KvCacheEventData, PlacementEvent};
use vstd::prelude::*;

verus! {

/// How an event is batched. A clear ends what is pending and passes at once. An
/// event of the same source and rank that is of the same kind, and for stored
/// blocks hangs off the last pending one, joins what is pending; any other ends
/// it. Whatever has come to the limit is ready, and nothing waits at the limit.
pub proof fn law_batches_end_at_the_limit<K: TableKey>(
    before: Option<(K, PlacementEvent)>,
    key: K,
    event: PlacementEvent,
    max_batch_blocks: usize,
    after: Option<(K, PlacementEvent)>,
    first: Option<PlacementEvent>,
    second: Option<PlacementEvent>,
)
    requires
        crate::event_batching::pushed(before, key, event, max_batch_blocks, after, first, second),
    ensures
        event.event.data is Cleared || event.event.data is TierCleared ==> second == Some(event)
            && after is None && (before is Some <==> first is Some) && (before is Some ==> first
            == Some(before->Some_0.1)),
        before is Some && before->Some_0.0.key() != key.key() ==> first == Some(before->Some_0.1),
        before is Some && before->Some_0.1.event.dp_rank != event.event.dp_rank ==> first == Some(
            before->Some_0.1,
        ),
        before is Some && before->Some_0.1.event.data is Stored && event.event.data is Removed
            ==> first == Some(before->Some_0.1),
        before is Some && before->Some_0.1.event.data is Removed && event.event.data is Stored
            ==> first == Some(before->Some_0.1),
        before is Some && before->Some_0.1.event.data is Stored && event.event.data is Stored
            && before->Some_0.1.event.data->Stored_0.blocks@.len() > 0
            && event.event.data->Stored_0.parent_hash != Some(
            before->Some_0.1.event.data->Stored_0.blocks@.last().block_hash,
        ) ==> first == Some(before->Some_0.1),
        before is None && !(event.event.data is Cleared || event.event.data is TierCleared) ==> first
            is None,
        after is Some ==> match after->Some_0.1.event.data {
            KvCacheEventData::Stored(data) => data.blocks@.len() < max_batch_blocks,
            KvCacheEventData::Removed(data) => data.block_hashes@.len() < max_batch_blocks,
            _ => false,
        },
        after is Some ==> after->Some_0.1.event.dp_rank == event.event.dp_rank
            && after->Some_0.0.key() == key.key(),
        second is Some ==> second == Some(event),
{
    if !crate::event_batching::is_barrier(event) && crate::event_batching::merges(before, key, event) {
        let whole = choose|whole: PlacementEvent| #[trigger]
            crate::event_batching::joined(before->Some_0.1, event, whole) && if crate::event_batching::block_count(whole) >= max_batch_blocks {
                first == Some(whole) && after is None
            } else {
                &&& first is None
                &&& after is Some
                &&& after->Some_0.0 == before->Some_0.0
                &&& after->Some_0.1 == whole
            };
        assert(crate::event_batching::joined(before->Some_0.1, event, whole));
    }
}

/// Neighbours are joined: what continues a pending event is never ready on its
/// own, and the whole is one event with the identity, the placement and the
/// parent of the pending one, ready exactly if it has come to the limit.
pub proof fn law_neighbours_are_joined<K: TableKey>(
    before: Option<(K, PlacementEvent)>,
    key: K,
    event: PlacementEvent,
    max_batch_blocks: usize,
    after: Option<(K, PlacementEvent)>,
    first: Option<PlacementEvent>,
    second: Option<PlacementEvent>,
)
    requires
        crate::event_batching::pushed(before, key, event, max_batch_blocks, after, first, second),
        before is Some,
        before->Some_0.0.key() == key.key(),
        before->Some_0.1.event.dp_rank == event.event.dp_rank,
        ({
            ||| before->Some_0.1.event.data is Removed && event.event.data is Removed
            ||| {
                &&& before->Some_0.1.event.data is Stored
                &&& event.event.data is Stored
                &&& before->Some_0.1.event.data->Stored_0.blocks@.len() > 0
                &&& event.event.data->Stored_0.parent_hash == Some(
                    before->Some_0.1.event.data->Stored_0.blocks@.last().block_hash,
                )
            }
        }),
    ensures
        second is None,
        first is Some <==> after is None,
        ({
            let pending = before->Some_0.1;
            let whole = if first is Some {
                first->Some_0
            } else {
                after->Some_0.1
            };
            &&& whole.placement == pending.placement
            &&& whole.event.event_id == pending.event.event_id
            &&& whole.event.dp_rank == pending.event.dp_rank
            &&& pending.event.data is Removed ==> {
                let hashes = pending.event.data->Removed_0.block_hashes@
                    + event.event.data->Removed_0.block_hashes@;
                &&& whole.event.data is Removed
                &&& whole.event.data->Removed_0.block_hashes@ == hashes
                &&& first is Some <==> hashes.len() >= max_batch_blocks
            }
            &&& pending.event.data is Stored ==> {
                let blocks = pending.event.data->Stored_0.blocks@
                    + event.event.data->Stored_0.blocks@;
                &&& whole.event.data is Stored
                &&& whole.event.data->Stored_0.parent_hash
                    == pending.event.data->Stored_0.parent_hash
                &&& whole.event.data->Stored_0.start_position
                    == pending.event.data->Stored_0.start_position
                &&& whole.event.data->Stored_0.blocks@ == blocks
                &&& first is Some <==> blocks.len() >= max_batch_blocks
            }
        }),
{
    let whole = choose|whole: PlacementEvent| #[trigger]
        crate::event_batching::joined(before->Some_0.1, event, whole) && if crate::event_batching::block_count(whole) >= max_batch_blocks {
            first == Some(whole) && after is None
        } else {
            &&& first is None
            &&& after is Some
            &&& after->Some_0.0 == before->Some_0.0
            &&& after->Some_0.1 == whole
        };
    assert(crate::event_batching::joined(before->Some_0.1, event, whole));
}

/// What is published of an event keeps its place and its rank and gets the next
/// number. Stored blocks are published as they are; of a removal only blocks
/// that lose their last reference are, each of which is one of the event's own.
pub proof fn law_publication_keeps_the_event(
    dedup: EventDedupFilter,
    event: PlacementEvent,
    id: u64,
    ready: Option<ReadyEvent>,
    hash: u64,
)
    requires
        crate::event_batching::published(dedup, event, id, ready),
        event.event.data is Removed ==> {
            let slot = crate::event_dedup::DedupSlot {
                dp_rank: event.event.dp_rank,
                tier: event.placement.tier,
                domain: event.placement.residency_domain,
            };
            dedup.counts(slot).contains_key(hash) ==> dedup.counts(slot)[hash] > 0
        },
    ensures
        ready is Some ==> {
            &&& ready->Some_0.tier == event.placement.tier
            &&& ready->Some_0.domain == event.placement.residency_domain
            &&& ready->Some_0.event.dp_rank == event.event.dp_rank
            &&& ready->Some_0.event.event_id == id
        },
        !(event.event.data is Removed) ==> ready is Some && ready->Some_0.event.data
            == event.event.data,
        event.event.data is Removed ==> {
            let slot = crate::event_dedup::DedupSlot {
                dp_rank: event.event.dp_rank,
                tier: event.placement.tier,
                domain: event.placement.residency_domain,
            };
            let held = if dedup.counts(slot).contains_key(hash) {
                dedup.counts(slot)[hash] as int
            } else {
                0
            };
            let times = crate::kv_events::removed_hashes(
                event.event.data->Removed_0.block_hashes@,
            ).to_multiset().count(hash);
            &&& times > 0 && held <= times ==> ready is Some
            &&& ready is Some ==> {
                &&& ready->Some_0.event.data is Removed
                &&& ready->Some_0.event.data->Removed_0.block_hashes@.len() > 0
                &&& crate::kv_events::removed_hashes(
                    ready->Some_0.event.data->Removed_0.block_hashes@,
                ).to_multiset().count(hash) == (if held > times {
                    0
                } else if held == 0 {
                    times as int
                } else {
                    times - held + 1
                })
            }
        },
{
    if event.event.data is Removed {
        broadcast use vstd::seq_lib::group_to_multiset_ensures;

        let hashes = crate::kv_events::removed_hashes(event.event.data->Removed_0.block_hashes@);
        crate::event_dedup::law_removals_are_counted(dedup.counts(crate::event_batching::slot_of(event)), hashes, hash);
        let left = crate::event_batching::passing(dedup, event);
        if left.len() == 0 {
            assert(left =~= Seq::<u64>::empty());
            assert(left.to_multiset().count(hash) == 0);
        }
    }
}

/// An event changes the references of its own rank, tier and domain alone, and
/// those only if it stores or removes.
pub proof fn law_events_are_accounted_in_their_slot(
    before: EventDedupFilter,
    event: PlacementEvent,
    after: EventDedupFilter,
    slot: crate::event_dedup::DedupSlot,
)
    requires
        crate::event_batching::accounted(before, event, after),
    ensures
        slot.dp_rank != event.event.dp_rank || slot.tier != event.placement.tier || slot.domain
            != event.placement.residency_domain ==> after.counts(slot) == before.counts(slot),
        !(event.event.data is Stored || event.event.data is Removed) ==> after.counts(slot)
            == before.counts(slot),
        slot.dp_rank == event.event.dp_rank && slot.tier == event.placement.tier && slot.domain
            == event.placement.residency_domain && event.event.data is Stored ==> after.counts(slot)
            == crate::event_dedup::after_store(
            before.counts(slot),
            crate::kv_events::stored_hashes(event.event.data->Stored_0.blocks@),
        ),
        slot.dp_rank == event.event.dp_rank && slot.tier == event.placement.tier && slot.domain
            == event.placement.residency_domain && event.event.data is Removed ==> after.counts(slot)
            == crate::event_dedup::after_remove(
            before.counts(slot),
            crate::kv_events::removed_hashes(event.event.data->Removed_0.block_hashes@),
        ).0,
{
    assert(after.counts(slot) == after.counts(slot));
}

} // verus!
