use kv_router::protocols::{StorageTier, WorkerWithDpRank};
use kv_router::zmq_wire::{
    KvCacheEventMetadata, KvCacheSpecKind, KvEventOwnership, KvMedium, Locality, NamespaceTable,
    RawKvEvent, ZmqEventFilterReason, ZmqEventNormalizer,
};

const PLAIN: KvCacheEventMetadata = KvCacheEventMetadata {
    ownership: KvEventOwnership::Framework,
    locality: None,
    group_idx: None,
    kv_cache_spec_kind: None,
    kv_cache_spec_sliding_window: None,
};

fn worker() -> WorkerWithDpRank {
    WorkerWithDpRank::new(7, 0)
}

fn stored_with(
    hash: u64,
    parent: Option<u64>,
    namespace: Option<&str>,
    medium: Option<KvMedium>,
    metadata: KvCacheEventMetadata,
) -> RawKvEvent {
    RawKvEvent::BlockStored {
        block_hashes: vec![hash],
        parent_block_hash: parent,
        cache_namespace: namespace.map(str::to_string),
        medium,
        metadata,
    }
}

fn stored(hash: u64, parent: Option<u64>, namespace: Option<&str>) -> RawKvEvent {
    stored_with(hash, parent, namespace, None, PLAIN)
}

fn removed(hash: u64) -> RawKvEvent {
    RawKvEvent::BlockRemoved { block_hashes: vec![hash], medium: None, metadata: PLAIN }
}

fn refusal(event: RawKvEvent) -> ZmqEventFilterReason {
    ZmqEventNormalizer::new(16).preprocess_with_reason(event, worker()).unwrap_err()
}

fn namespace_in(event: RawKvEvent) -> Option<String> {
    match event {
        RawKvEvent::BlockStored { cache_namespace, .. } => cache_namespace,
        other => panic!("expected a stored block, got {other:?}"),
    }
}

#[test]
fn a_child_block_inherits_the_namespace_of_its_parent() {
    let mut table = NamespaceTable::new();
    table.propagate_cache_namespace(stored(1, None, Some("tenant"))).unwrap();
    let child = table.propagate_cache_namespace(stored(2, Some(1), None)).unwrap();
    assert_eq!(namespace_in(child).as_deref(), Some("tenant"));
    let grandchild = table.propagate_cache_namespace(stored(3, Some(2), None)).unwrap();
    assert_eq!(namespace_in(grandchild).as_deref(), Some("tenant"));
    // A block without a tracked parent has no namespace.
    let orphan = table.propagate_cache_namespace(stored(4, Some(9), None)).unwrap();
    assert_eq!(namespace_in(orphan), None);
    // A removed block has nothing left to hand on.
    table.propagate_cache_namespace(removed(2)).unwrap();
    let late = table.propagate_cache_namespace(stored(5, Some(2), None)).unwrap();
    assert_eq!(namespace_in(late), None);
}

#[test]
fn a_hash_in_two_namespaces_is_ambiguous() {
    let mut table = NamespaceTable::new();
    table.propagate_cache_namespace(stored(1, None, Some("one"))).unwrap();
    table.propagate_cache_namespace(stored(1, None, Some("two"))).unwrap();
    assert_eq!(
        table.propagate_cache_namespace(stored(2, Some(1), None)).unwrap_err(),
        ZmqEventFilterReason::AmbiguousCacheNamespace
    );
    // Agreement cannot be regained while the block is held.
    table.propagate_cache_namespace(stored(1, None, Some("one"))).unwrap();
    assert!(table.propagate_cache_namespace(stored(2, Some(1), None)).is_err());
}

#[test]
fn every_refusal_has_its_reason() {
    assert_eq!(refusal(RawKvEvent::Ignored), ZmqEventFilterReason::IgnoredEvent);
    let remote = KvCacheEventMetadata { locality: Some(Locality::Remote), ..PLAIN };
    assert_eq!(
        refusal(stored_with(1, None, None, None, remote)),
        ZmqEventFilterReason::NonLocalLocality
    );
    assert_eq!(
        refusal(stored_with(1, None, None, Some(KvMedium::Unrecognized), PLAIN)),
        ZmqEventFilterReason::UnknownMedium
    );
    assert_eq!(
        refusal(RawKvEvent::AllBlocksCleared {
            medium: Some(KvMedium::Tier(StorageTier::Device)),
            metadata: PLAIN
        }),
        ZmqEventFilterReason::AmbiguousScopedClear
    );
    let kvcr = KvCacheEventMetadata { ownership: KvEventOwnership::Kvcr, ..PLAIN };
    assert_eq!(
        refusal(stored_with(1, None, None, None, kvcr)),
        ZmqEventFilterReason::UnsupportedOwnership
    );
    let unknown = KvCacheEventMetadata { ownership: KvEventOwnership::Unknown, ..PLAIN };
    assert_eq!(
        refusal(stored_with(1, None, None, None, unknown)),
        ZmqEventFilterReason::UnknownOwnership
    );
    let group = |kind: Option<KvCacheSpecKind>| KvCacheEventMetadata {
        group_idx: Some(0),
        kv_cache_spec_kind: kind,
        ..PLAIN
    };
    assert_eq!(
        refusal(stored_with(1, None, None, None, group(Some(KvCacheSpecKind::Other)))),
        ZmqEventFilterReason::NonMainAttentionKind
    );
    assert_eq!(
        refusal(stored_with(1, None, None, None, group(Some(KvCacheSpecKind::Unknown)))),
        ZmqEventFilterReason::UnknownKind
    );
    assert_eq!(ZmqEventFilterReason::UnlearnedGroupIdx.as_label(), "unlearned_group_idx");
    assert_eq!(ZmqEventFilterReason::UnknownMedium.as_label(), "unknown_medium");
}

#[test]
fn a_group_is_judged_by_what_it_announced() {
    let group = |index: u32, kind: Option<KvCacheSpecKind>| KvCacheEventMetadata {
        group_idx: Some(index),
        kv_cache_spec_kind: kind,
        ..PLAIN
    };
    let mut normalizer = ZmqEventNormalizer::new(16);
    let main = Some(KvCacheSpecKind::MainAttention);
    assert!(normalizer
        .preprocess(stored_with(1, None, None, None, group(3, main)), worker())
        .is_some());
    // A later event of the group need not repeat what it is.
    let removal = RawKvEvent::BlockRemoved {
        block_hashes: vec![1],
        medium: None,
        metadata: group(3, None),
    };
    assert!(normalizer.preprocess(removal, worker()).is_some());
    let other = Some(KvCacheSpecKind::Other);
    assert!(normalizer
        .preprocess(stored_with(2, None, None, None, group(4, other)), worker())
        .is_none());
    let removal = RawKvEvent::BlockRemoved {
        block_hashes: vec![2],
        medium: None,
        metadata: group(4, None),
    };
    assert_eq!(
        normalizer.preprocess_with_reason(removal, worker()).unwrap_err(),
        ZmqEventFilterReason::NonMainAttentionGroup
    );
}

#[test]
fn residency_streams_may_carry_other_owners() {
    let kvcr = KvCacheEventMetadata { ownership: KvEventOwnership::Kvcr, ..PLAIN };
    let mut normalizer = ZmqEventNormalizer::new(16);
    assert!(normalizer
        .preprocess_residency_with_reason(stored_with(1, None, None, None, kvcr), worker())
        .is_ok());
    assert!(normalizer
        .preprocess_with_reason(stored_with(1, None, None, None, kvcr), worker())
        .is_err());
}

#[test]
fn workers_have_namespaces_of_their_own() {
    let mut normalizer = ZmqEventNormalizer::new(16);
    normalizer.preprocess(stored(1, None, Some("tenant")), worker()).unwrap();
    let other = WorkerWithDpRank::new(8, 0);
    let child = normalizer.preprocess(stored(2, Some(1), None), other).unwrap();
    assert_eq!(namespace_in(child), None);
    let child = normalizer.preprocess(stored(2, Some(1), None), worker()).unwrap();
    assert_eq!(namespace_in(child).as_deref(), Some("tenant"));
}

#[test]
fn conversion_goes_by_the_placeholder_tokens() {
    let normalizer =
        ZmqEventNormalizer::new(16).with_image_token_id(Some(5)).with_video_token_id(Some(6));
    assert_eq!(normalizer.conversion_settings(), (16, Some(5), Some(6)));
}
