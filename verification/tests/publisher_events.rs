use kv_router::event_batching::{BatchingState, PlacementEventCoalescer};
use kv_router::event_dedup::{EventDedupFilter, EventDedupPolicy};
use kv_router::kv_events::{
    KvCacheEvent, KvCacheEventData, KvCacheRemoveData, KvCacheStoreData, KvCacheStoredBlockData,
    Placement, PlacementEvent, ResidencyDomain,
};
use kv_router::protocols::{ExternalSequenceBlockHash, LocalBlockHash, StorageTier};

fn event(data: KvCacheEventData) -> PlacementEvent {
    PlacementEvent {
        placement: Placement::local_worker(7, 0, StorageTier::HostPinned),
        event: KvCacheEvent { event_id: 0, data, dp_rank: 0 },
    }
}

fn stored(parent: Option<u64>, block: u64) -> PlacementEvent {
    event(KvCacheEventData::Stored(KvCacheStoreData {
        parent_hash: parent.map(ExternalSequenceBlockHash),
        start_position: None,
        blocks: vec![KvCacheStoredBlockData {
            block_hash: ExternalSequenceBlockHash(block),
            tokens_hash: LocalBlockHash(block),
            mm_extra_info: None,
        }],
    }))
}

fn removed(block: u64) -> PlacementEvent {
    event(KvCacheEventData::Removed(KvCacheRemoveData {
        block_hashes: vec![ExternalSequenceBlockHash(block)],
    }))
}

#[test]
fn coalesces_legacy_mutations_and_keeps_clear_as_a_boundary() {
    let mut coalescer = PlacementEventCoalescer::new(128);
    let mut output = Vec::new();
    for input in [
        stored(None, 1),
        stored(Some(1), 2),
        removed(1),
        removed(2),
        event(KvCacheEventData::Cleared),
    ] {
        let key = input.placement;
        let (first, second) = coalescer.push(key, input);
        output.extend(first);
        output.extend(second);
    }
    output.extend(coalescer.flush());

    assert_eq!(output.len(), 3);
    assert!(matches!(
        &output[0].event.data,
        KvCacheEventData::Stored(data) if data.blocks.len() == 2
    ));
    assert!(matches!(
        &output[1].event.data,
        KvCacheEventData::Removed(data) if data.block_hashes.len() == 2
    ));
    assert!(matches!(output[2].event.data, KvCacheEventData::Cleared));
}

#[test]
fn exact_source_key_prevents_cross_owner_coalescing() {
    let mut coalescer = PlacementEventCoalescer::new(128);
    let first = stored(None, 1);
    assert!(matches!(coalescer.push(ResidencyDomain::Worker, first), (None, None)));
    let second = stored(Some(1), 2);
    let (output, nothing) = coalescer.push(ResidencyDomain::CacheOwner, second);
    assert!(nothing.is_none());
    assert!(matches!(
        &output.unwrap().event.data,
        KvCacheEventData::Stored(data) if data.blocks.len() == 1
    ));
}

#[test]
fn a_store_that_does_not_continue_its_parent_starts_a_new_event() {
    let mut coalescer = PlacementEventCoalescer::new(128);
    let key = ResidencyDomain::Worker;
    assert!(matches!(coalescer.push(key, stored(None, 1)), (None, None)));
    assert!(matches!(coalescer.push(key, stored(Some(9), 2)), (Some(_), None)));
    assert!(coalescer.has_pending());
    assert!(coalescer.flush().is_some());
    assert!(!coalescer.has_pending());
    assert!(coalescer.flush().is_none());
}

#[test]
fn published_events_are_numbered_and_removals_counted() {
    let mut dedup = EventDedupFilter::new();
    let mut batching = BatchingState::new(128, 1_000);
    let mut ids = Vec::new();
    // The second reference to a block swallows its first removal.
    for (input, now) in [
        (stored(None, 1), 1_001),
        (removed(5), 1_002),
        (stored(None, 1), 1_003),
        (removed(1), 1_004),
        (stored(None, 3), 1_005),
    ] {
        let (first, second) = batching.push(input, &mut dedup, now);
        ids.extend(first.map(|ready| ready.event.event_id));
        ids.extend(second.map(|ready| ready.event.event_id));
    }
    assert!(batching.has_pending());
    let last = batching.flush(&mut dedup, 1_006).unwrap();
    assert_eq!(last.tier, StorageTier::HostPinned);
    assert_eq!(last.domain, ResidencyDomain::Worker);
    ids.push(last.event.event_id);
    // Store, unknown removal, store, swallowed removal, store.
    assert_eq!(ids, vec![1, 2, 3, 4]);
    assert_eq!(batching.next_publish_id(), 5);
    // The last reference lets the removal through.
    assert!(matches!(batching.push(removed(1), &mut dedup, 1_007), (None, None)));
    assert!(batching.flush(&mut dedup, 1_008).is_some());
}

#[test]
fn the_flush_timer_counts_from_the_last_flush() {
    let mut batching = BatchingState::new(128, 1_000);
    assert_eq!(batching.remaining_timeout(50, 1_020), 30);
    assert!(!batching.is_timeout_elapsed(50, 1_020));
    assert!(batching.is_timeout_elapsed(50, 1_050));
    assert!(batching.is_timeout_elapsed(0, 1_000));
    batching.record_flush_time(1_040);
    assert_eq!(batching.remaining_timeout(50, 1_050), 40);
}

fn store(hashes: &[u64]) -> KvCacheStoreData {
    KvCacheStoreData {
        parent_hash: None,
        start_position: None,
        blocks: hashes
            .iter()
            .map(|&hash| KvCacheStoredBlockData {
                block_hash: ExternalSequenceBlockHash(hash),
                tokens_hash: LocalBlockHash(hash),
                mm_extra_info: None,
            })
            .collect(),
    }
}

fn remove(hashes: &[u64]) -> KvCacheRemoveData {
    KvCacheRemoveData {
        block_hashes: hashes
            .iter()
            .map(|&hash| ExternalSequenceBlockHash(hash))
            .collect(),
    }
}

/// A refcount of 2 swallows the first remove; a forgotten key passes it
/// through defensively. That asymmetry is what makes a surviving refcount
/// observable, so each tier is stored twice and probed with one remove.
fn seeded_filter() -> EventDedupFilter {
    let mut dedup = EventDedupFilter::new();
    for tier in [StorageTier::Device, StorageTier::HostPinned] {
        for _ in 0..2 {
            dedup.track_store_in_domain(
                0,
                tier,
                ResidencyDomain::Worker,
                EventDedupPolicy::RefCounted,
                &store(&[1]),
            );
        }
    }
    dedup
}

fn remove_is_swallowed(
    dedup: &mut EventDedupFilter,
    tier: StorageTier,
    domain: ResidencyDomain,
) -> bool {
    dedup
        .filter_remove_in_domain(0, tier, domain, EventDedupPolicy::RefCounted, remove(&[1]))
        .is_none()
}

#[test]
fn a_tier_scoped_clear_forgets_only_the_named_tier() {
    let mut dedup = seeded_filter();
    dedup.clear_rank_tier_domain(
        0,
        StorageTier::Device,
        ResidencyDomain::Worker,
        EventDedupPolicy::RefCounted,
    );

    assert!(
        !remove_is_swallowed(&mut dedup, StorageTier::Device, ResidencyDomain::Worker),
        "the cleared tier must have forgotten its refcounts"
    );
    assert!(
        remove_is_swallowed(&mut dedup, StorageTier::HostPinned, ResidencyDomain::Worker),
        "the untouched tier must keep its refcounts; dropping them would make \
         the next store on that tier look new and republish indexed blocks"
    );
}

#[test]
fn an_all_tier_clear_still_forgets_every_tier_of_the_rank() {
    let mut dedup = seeded_filter();
    dedup.clear_rank_domain(0, ResidencyDomain::Worker, EventDedupPolicy::RefCounted);

    for tier in [StorageTier::Device, StorageTier::HostPinned] {
        assert!(!remove_is_swallowed(
            &mut dedup,
            tier,
            ResidencyDomain::Worker
        ));
    }
}

#[test]
fn a_tier_scoped_clear_spares_other_ranks_and_other_domains() {
    let mut dedup = seeded_filter();
    for _ in 0..2 {
        dedup.track_store_in_domain(
            1,
            StorageTier::Device,
            ResidencyDomain::Worker,
            EventDedupPolicy::RefCounted,
            &store(&[1]),
        );
        dedup.track_store_in_domain(
            0,
            StorageTier::Device,
            ResidencyDomain::CacheOwner,
            EventDedupPolicy::RefCounted,
            &store(&[1]),
        );
    }

    dedup.clear_rank_tier_domain(
        0,
        StorageTier::Device,
        ResidencyDomain::Worker,
        EventDedupPolicy::RefCounted,
    );

    assert!(
        dedup
            .filter_remove_in_domain(
                1,
                StorageTier::Device,
                ResidencyDomain::Worker,
                EventDedupPolicy::RefCounted,
                remove(&[1]),
            )
            .is_none(),
        "another rank keeps its refcounts"
    );
    assert!(
        remove_is_swallowed(&mut dedup, StorageTier::Device, ResidencyDomain::CacheOwner),
        "another ownership domain on the same tier keeps its refcounts"
    );
}

#[test]
fn a_set_like_producer_keeps_bypassing_the_bookkeeping() {
    let mut dedup = seeded_filter();
    dedup.clear_rank_tier_domain(
        0,
        StorageTier::Device,
        ResidencyDomain::Worker,
        EventDedupPolicy::SetLike,
    );
    assert!(
        remove_is_swallowed(&mut dedup, StorageTier::Device, ResidencyDomain::Worker),
        "a SetLike clear must not touch RefCounted state"
    );
}

#[test]
fn a_removal_passes_when_the_last_reference_goes() {
    let mut dedup = seeded_filter();
    assert!(remove_is_swallowed(&mut dedup, StorageTier::Device, ResidencyDomain::Worker));
    assert!(!remove_is_swallowed(&mut dedup, StorageTier::Device, ResidencyDomain::Worker));
    // Only the hashes that still have references are held back.
    let partly = dedup.filter_remove_in_domain(
        0,
        StorageTier::HostPinned,
        ResidencyDomain::Worker,
        EventDedupPolicy::RefCounted,
        remove(&[1, 2]),
    );
    assert_eq!(partly.unwrap().block_hashes, vec![ExternalSequenceBlockHash(2)]);
    let bypassed = dedup.filter_remove_in_domain(
        0,
        StorageTier::HostPinned,
        ResidencyDomain::Worker,
        EventDedupPolicy::SetLike,
        remove(&[1]),
    );
    assert_eq!(bypassed.unwrap().block_hashes, vec![ExternalSequenceBlockHash(1)]);
}
