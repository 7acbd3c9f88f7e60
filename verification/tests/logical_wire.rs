use kv_router::logical::{Confidence, Limits};
use kv_router::logical_normalizer::{decode_snapshot, query_tokens};
use kv_router::logical_stream::LogicalStream;
use kv_router::logical_view::{LogicalView, Query};
use kv_router::logical_wire::{
    DecodeLimits, LogicalDecodeError, NativeHash, WireCut, WireEnvelope, WirePayload, WirePlan,
    WireSegment,
};
use kv_router::protocols::{ResidencyOwner, WorkerWithDpRank};

fn cut(event_type: &str, cursor: u64) -> WireCut {
    WireCut {
        event_type: event_type.into(),
        profile: "native-cpu-root".into(),
        version: 1,
        namespace: "test".into(),
        epoch: "00000000000000000000000000000001".into(),
        cursor,
        confidence: "known".into(),
        reason: String::new(),
        block_size: 32,
        hash_unit: 4,
        max_rows: 16,
        max_plans: 144,
        segments: None,
        plans: None,
        added_segments: None,
        removed_segments: None,
        added_plans: None,
        removed_plans: None,
    }
}

fn segment() -> WireSegment {
    WireSegment {
        id: "full".into(),
        kind: "complete".into(),
        start: 0,
        end: 32,
        parent_hash: None,
        end_hash: NativeHash(vec![32]),
        token_ids: (0..32).collect(),
        hash_unit: 32,
        hashes: vec![NativeHash(vec![32])],
    }
}

fn plan() -> WirePlan {
    WirePlan {
        id: "checkpoint".into(),
        kind: "complete".into(),
        end: 28,
        anchor: 32,
        anchor_hash: Some(NativeHash(vec![32])),
        terminal_hash: NativeHash(vec![28]),
        minimum_prompt_tokens: 33,
        binding: "full".into(),
    }
}

fn wire() -> WireCut {
    WireCut {
        segments: Some(vec![segment()]),
        plans: Some(vec![plan()]),
        ..cut("LogicalSnapshot", 0)
    }
}

fn update(cursor: u64) -> WireCut {
    WireCut {
        added_segments: Some(vec![]),
        removed_segments: Some(vec![]),
        added_plans: Some(vec![]),
        removed_plans: Some(vec![]),
        ..cut("LogicalUpdate", cursor)
    }
}

fn bytes(wire: WireCut) -> WirePayload {
    WirePayload {
        bytes: 1024,
        envelope: Ok(WireEnvelope { finite_timestamp: true, cuts: vec![wire], dp_rank: 0 }),
    }
}
fn owner() -> ResidencyOwner {
    ResidencyOwner::worker(WorkerWithDpRank::new(1, 0))
}
fn tokens() -> Vec<u32> {
    (0..33).collect()
}

fn eligible(stream: &LogicalStream) -> Option<u32> {
    query_tokens(stream.view().unwrap(), &tokens()).eligible_cpu_root_tokens
}

#[test]
fn isolated_map_codec_normalizes_tokens_not_native_prefix_bytes() {
    let normalized =
        decode_snapshot(bytes(wire()), owner(), "test", DecodeLimits::default()).unwrap();
    let view = LogicalView::from_snapshot(normalized.snapshot, Limits::default());
    assert_eq!(
        query_tokens(&view, &tokens()).eligible_cpu_root_tokens,
        Some(28)
    );
}

#[test]
fn hash_only_or_mismatched_namespace_is_unsupported_not_raw_credit() {
    let normalized =
        decode_snapshot(bytes(wire()), owner(), "test", DecodeLimits::default()).unwrap();
    let view = LogicalView::from_snapshot(normalized.snapshot, Limits::default());
    assert_eq!(
        view.query(&Query {
            scope: view.scope(),
            prompt_tokens: 33,
            full: &[],
            fine: &[]
        })
        .status,
        Confidence::UnsupportedQuery
    );
    assert!(
        decode_snapshot(bytes(wire()), owner(), "other", DecodeLimits::default()).is_err()
    );
}

#[test]
fn malformed_geometry_binding_and_budget_are_rejected() {
    let mut malformed = wire();
    malformed.segments.as_mut().unwrap()[0].token_ids.pop();
    assert!(
        decode_snapshot(bytes(malformed), owner(), "test", DecodeLimits::default()).is_err()
    );
    let mut missing = wire();
    missing.plans.as_mut().unwrap()[0].binding = "absent".into();
    assert!(
        decode_snapshot(bytes(missing), owner(), "test", DecodeLimits::default()).is_err()
    );
    assert!(
        decode_snapshot(
            bytes(wire()),
            owner(),
            "test",
            DecodeLimits {
                bytes: 32,
                ..Default::default()
            }
        )
        .is_err()
    );
}

#[test]
fn cache_owner_scope_is_out_of_profile_rather_than_unchecked() {
    // A cache owner carries no DP rank to check against the payload, so v1
    // declines the scope instead of accepting an unchecked binding.
    let owner = ResidencyOwner::CacheOwner { id: 1, dp_rank: 0 };
    assert!(decode_snapshot(bytes(wire()), owner, "test", DecodeLimits::default()).is_err());
}

#[test]
fn contiguous_update_extends_the_accepted_snapshot() {
    let mut stream = LogicalStream::new(owner(), "test".into(), DecodeLimits::default());
    assert!(stream.ingest(10, bytes(wire())).unwrap());
    assert_eq!(eligible(&stream), Some(28));

    // Withdraw only the declaration: the coverage row stays resident.
    let mut retire = update(1);
    retire.removed_plans = Some(vec!["checkpoint".into()]);
    assert!(stream.ingest(11, bytes(retire)).unwrap());
    assert_eq!(eligible(&stream), Some(0));
    assert_eq!(stream.view().unwrap().confidence(), Confidence::Known);

    // Re-declare it on the same still-live binding.
    let mut restore = update(2);
    restore.added_plans = Some(vec![plan()]);
    assert!(stream.ingest(12, bytes(restore)).unwrap());
    assert_eq!(eligible(&stream), Some(28));
}

#[test]
fn a_missed_update_leaves_the_view_unknown_until_the_next_snapshot() {
    let mut stream = LogicalStream::new(owner(), "test".into(), DecodeLimits::default());
    assert!(stream.ingest(10, bytes(wire())).unwrap());
    // Cursor 2 arrives without cursor 1: applying it would invent a view.
    let mut skipped = update(2);
    skipped.removed_plans = Some(vec!["checkpoint".into()]);
    assert!(!stream.ingest(11, bytes(skipped)).unwrap());
    assert!(stream.view().is_none());
    // Cursor 1 is now stale; only an authoritative cut restores the view.
    assert!(!stream.ingest(12, bytes(update(1))).unwrap());
    assert!(stream.view().is_none());
    let mut repaired = wire();
    repaired.cursor = 3;
    repaired.plans = Some(vec![]);
    assert!(stream.ingest(13, bytes(repaired)).unwrap());
    assert_eq!(eligible(&stream), Some(0));
}

#[test]
fn an_update_never_bootstraps_a_view_without_its_baseline() {
    let mut stream = LogicalStream::new(owner(), "test".into(), DecodeLimits::default());
    let mut orphan = update(1);
    orphan.added_segments = Some(vec![segment()]);
    orphan.added_plans = Some(vec![plan()]);
    assert!(!stream.ingest(10, bytes(orphan)).unwrap());
    assert!(stream.view().is_none());
}

#[test]
fn update_across_an_epoch_boundary_is_not_continuity() {
    let mut stream = LogicalStream::new(owner(), "test".into(), DecodeLimits::default());
    assert!(stream.ingest(10, bytes(wire())).unwrap());
    let mut foreign = update(1);
    foreign.epoch = "00000000000000000000000000000002".into();
    foreign.removed_plans = Some(vec!["checkpoint".into()]);
    assert!(!stream.ingest(11, bytes(foreign)).unwrap());
    assert!(stream.view().is_none());
}

#[test]
fn an_update_may_not_downgrade_confidence_or_change_geometry() {
    let mut stream = LogicalStream::new(owner(), "test".into(), DecodeLimits::default());
    assert!(stream.ingest(10, bytes(wire())).unwrap());
    let mut lossy = update(1);
    lossy.confidence = "unknown".into();
    lossy.reason = "loss".into();
    assert!(stream.ingest(11, bytes(lossy)).is_err());
    assert!(stream.view().is_none());
}

#[test]
fn stream_snapshot_replacement_repairs_loss_and_fences_old_epochs() {
    let mut stream = LogicalStream::new(owner(), "test".into(), DecodeLimits::default());
    assert!(stream.view().is_none());
    assert!(stream.ingest(10, bytes(wire())).unwrap());
    assert!(!stream.ingest(10, bytes(wire())).unwrap());
    let mut next = wire();
    next.cursor = 2;
    next.plans = Some(vec![]);
    assert!(stream.ingest(12, bytes(next)).unwrap());
    assert_eq!(eligible(&stream), Some(0));
    let mut reset = wire();
    reset.epoch = "00000000000000000000000000000002".into();
    reset.segments = Some(vec![]);
    reset.plans = Some(vec![]);
    assert!(stream.ingest(13, bytes(reset)).unwrap());
    assert!(stream.ingest(14, bytes(wire())).is_err());
    assert!(stream.view().is_none());
}

#[test]
fn unknown_snapshot_never_restores_positive_credit() {
    let mut stream = LogicalStream::new(owner(), "test".into(), DecodeLimits::default());
    stream.ingest(0, bytes(wire())).unwrap();
    let mut unknown = wire();
    unknown.cursor = 1;
    unknown.confidence = "unknown".into();
    unknown.reason = "loss".into();
    unknown.segments = Some(vec![]);
    unknown.plans = Some(vec![]);
    stream.ingest(1, bytes(unknown)).unwrap();
    assert_eq!(eligible(&stream), None);
}

#[test]
fn a_lost_frame_retires_the_view_instead_of_keeping_stale_positive_credit() {
    // The dangerous loss is a dropped SNAPSHOT, and worst of all the one
    // announcing that the engine's view went unknown: the producer is
    // sticky-unknown afterwards and publishes nothing more, so without a
    // wire-level gap check this consumer would answer with positive credit
    // forever. Protocol-cursor contiguity cannot see it - a snapshot is
    // accepted unconditionally.
    let mut stream = LogicalStream::new(owner(), "test".into(), DecodeLimits::default());
    assert!(stream.ingest(7, bytes(wire())).unwrap());
    assert_eq!(eligible(&stream), Some(28));
    assert!(!stream.needs_replay());

    // Transport sequence 8 never arrives. 9 does.
    let mut later = wire();
    later.cursor = 2;
    later.plans = Some(vec![]);
    // The cut itself is a valid snapshot, so it re-bases - but the gap is
    // still reported, because a dropped UPDATE would have left the view
    // retired with nothing to repair it.
    assert!(stream.ingest(9, bytes(later)).unwrap());
    assert!(
        !stream.needs_replay(),
        "an authoritative cut answers the gap"
    );
    assert_eq!(eligible(&stream), Some(0));

    // Now lose a frame and have the next one be an update: no baseline, so
    // the view stays retired and the socket owner is told to replay.
    let mut update_after_gap = update(3);
    update_after_gap.removed_plans = Some(vec!["checkpoint".into()]);
    assert!(!stream.ingest(20, bytes(update_after_gap)).unwrap());
    assert!(
        stream.view().is_none(),
        "stale credit survived a lost frame"
    );
    assert!(
        stream.needs_replay(),
        "the socket owner was not told to replay"
    );
}

/// Pins the ceiling the defaults actually impose at the K3 geometry, so a
/// silent capacity cliff cannot drift back in unnoticed. If this number
/// changes, the go-live sizing note has to change with it.
#[test]
fn the_default_ceilings_cap_a_k3_pool_at_675_rows() {
    const B: u32 = 12_288;
    const H: u32 = 128;
    let defaults = DecodeLimits::default();
    let per_row = u64::from(B / H) + 1;
    let cap_from_plans = defaults.state.plans as u64 / per_row;
    assert_eq!(per_row, 97);
    assert_eq!(cap_from_plans, 675);
    assert!(
        cap_from_plans < defaults.state.bindings as u64,
        "the plan ceiling is the one that binds; the sizing note says so",
    );
    // Sizing for the real pool lifts it, consistently across all three.
    let sized = DecodeLimits::for_pool(100_000, B, H).expect("valid geometry");
    assert_eq!(sized.state.bindings, 100_000);
    assert_eq!(sized.state.plans as u64, 100_000 * per_row);
    let mut big = wire();
    big.block_size = B;
    big.hash_unit = H;
    big.max_rows = 100_000;
    big.max_plans = big.max_rows * per_row;
    big.segments = Some(vec![]);
    big.plans = Some(vec![]);
    // Header now passes; only the payload budget remains to be measured.
    assert!(decode_snapshot(bytes(big), owner(), "test", sized).is_ok());
}

#[test]
fn a_pool_larger_than_the_consumer_ceiling_names_both_numbers() {
    // `max_rows` is the engine's whole CPU pool capacity. A production pool
    // can exceed a conservative consumer default, and the refusal is
    // permanent for that worker, so the error has to be actionable rather
    // than a bare "budget exceeded".
    let mut big = wire();
    big.max_rows = 100_000;
    big.max_plans = big.max_rows * (u64::from(big.block_size / big.hash_unit) + 1);
    let message = match decode_snapshot(bytes(big), owner(), "test", DecodeLimits::default()) {
        Ok(_) => panic!("an oversized pool must be refused"),
        Err(error) => error.message(),
    };
    assert!(message.contains("100000"), "{message}");
    assert!(message.contains("bindings"), "{message}");
}

#[test]
fn a_full_epoch_history_evicts_rather_than_refusing_every_future_reset() {
    // A CPU reset mints a new epoch, and a reset is the protocol's own
    // recovery path. A bounded history must therefore forget its oldest
    // entry, not start refusing every future recovery: a long-lived router
    // would otherwise wedge at "no view" for that worker until it restarts.
    let limits = DecodeLimits {
        epochs: 4,
        ..DecodeLimits::default()
    };
    let mut stream = LogicalStream::new(owner(), "test".into(), limits);
    for generation in 1..=12u128 {
        let mut reset = wire();
        reset.epoch = format!("{generation:032x}");
        assert!(
            stream.ingest(generation as u64, bytes(reset)).unwrap(),
            "epoch {generation} was refused",
        );
        assert_eq!(eligible(&stream), Some(28), "epoch {generation}");
    }
    // The history stays bounded while doing it.
    assert!(stream.retired_epochs() <= 4, "{}", stream.retired_epochs());
}

#[test]
fn reattaching_to_an_unchanged_producer_accepts_its_next_snapshot() {
    // A producer's epoch changes only on a CPU reset or a restart, so a
    // socket re-attachment on this side usually finds the SAME epoch still
    // running. Fencing it here would reject that producer's very next
    // snapshot and strand the worker with no view at all.
    let mut stream = LogicalStream::new(owner(), "test".into(), DecodeLimits::default());
    assert!(stream.ingest(40, bytes(wire())).unwrap());
    assert_eq!(eligible(&stream), Some(28));

    stream.reattach();
    assert!(stream.view().is_none());

    // A stale cut from the replaced socket must NOT rebuild the view: the
    // epoch survived re-attachment precisely so its high-water mark still
    // means something.
    assert!(!stream.ingest(0, bytes(wire())).unwrap());
    assert!(
        stream.view().is_none(),
        "a replayed old cut resurrected a stale view"
    );

    // The producer's next real cut is above the mark and is accepted.
    let mut next = wire();
    next.cursor = 1;
    assert!(
        stream.ingest(1, bytes(next)).unwrap(),
        "a still-live producer's own epoch was fenced by our socket churn",
    );
    assert_eq!(eligible(&stream), Some(28));
    assert_eq!(stream.retired_epochs(), 0, "nothing was superseded");
}

#[test]
fn reattachment_churn_does_not_grow_the_epoch_history_without_bound() {
    let limits = DecodeLimits {
        epochs: 4,
        ..DecodeLimits::default()
    };
    let mut stream = LogicalStream::new(owner(), "test".into(), limits);
    for generation in 1..=12u128 {
        let mut fresh = wire();
        fresh.epoch = format!("{generation:032x}");
        assert!(stream.ingest(0, bytes(fresh)).unwrap());
        stream.reattach();
    }
    assert!(stream.retired_epochs() <= 4, "{}", stream.retired_epochs());
}

#[test]
fn reattachment_fences_the_old_producer_and_restarts_transport_sequences() {
    let mut stream = LogicalStream::new(owner(), "test".into(), DecodeLimits::default());
    assert!(stream.ingest(40, bytes(wire())).unwrap());
    stream.reattach();
    assert!(stream.view().is_none());
    // A restarted producer's sequence 0 is accepted, and its old epoch is
    // fenced so a replayed stale cut cannot resurrect the view.
    let mut fresh = wire();
    fresh.epoch = "0000000000000000000000000000000a".into();
    assert!(stream.ingest(0, bytes(fresh)).unwrap());
    assert!(stream.ingest(1, bytes(wire())).is_err());
    assert!(stream.view().is_none());
}

fn refusal(wire: WireCut) -> LogicalDecodeError {
    match decode_snapshot(bytes(wire), owner(), "test", DecodeLimits::default()) {
        Ok(_) => panic!("the cut must be refused"),
        Err(error) => error,
    }
}

fn with_segment(edit: impl FnOnce(&mut WireSegment)) -> WireCut {
    let mut one = segment();
    edit(&mut one);
    WireCut { segments: Some(vec![one]), ..wire() }
}

fn with_plan(edit: impl FnOnce(&mut WirePlan)) -> WireCut {
    let mut one = plan();
    edit(&mut one);
    WireCut { plans: Some(vec![one]), ..wire() }
}

#[test]
fn every_envelope_and_header_fault_has_its_error() {
    let unreadable =
        WirePayload { bytes: 8, envelope: Err("unknown field `gpu_assisted_plans`".into()) };
    match decode_snapshot(unreadable, owner(), "test", DecodeLimits::default()) {
        Err(error) => assert_eq!(
            error.message(),
            "unsupported or invalid logical CPU cut: unknown field `gpu_assisted_plans`"
        ),
        Ok(_) => panic!("an unreadable payload must be refused"),
    }
    let envelope = |finite_timestamp: bool, cuts: Vec<WireCut>, dp_rank: i32| WirePayload {
        bytes: 8,
        envelope: Ok(WireEnvelope { finite_timestamp, cuts, dp_rank }),
    };
    for payload in [
        envelope(false, vec![wire()], 0),
        envelope(true, vec![], 0),
        envelope(true, vec![wire(), wire()], 0),
        envelope(true, vec![wire()], -1),
    ] {
        assert!(matches!(
            decode_snapshot(payload, owner(), "test", DecodeLimits::default()),
            Err(LogicalDecodeError::Envelope)
        ));
    }
    assert!(matches!(
        decode_snapshot(envelope(true, vec![wire()], 1), owner(), "test", DecodeLimits::default()),
        Err(LogicalDecodeError::RankMismatch)
    ));
    let profile = WireCut { version: 2, ..wire() };
    assert!(matches!(refusal(profile), LogicalDecodeError::ProfileVersion));
    let namespace = WireCut { namespace: "elsewhere".into(), ..wire() };
    assert!(matches!(refusal(namespace), LogicalDecodeError::NamespaceMismatch));
    let geometry = WireCut { hash_unit: 5, ..wire() };
    assert!(matches!(refusal(geometry), LogicalDecodeError::Geometry));
    let overflow = WireCut { max_rows: u64::MAX, ..wire() };
    assert!(matches!(refusal(overflow), LogicalDecodeError::CapacityOverflow));
    let ceiling = WireCut { max_plans: 145, ..wire() };
    assert!(matches!(refusal(ceiling), LogicalDecodeError::PlanCeiling));
    let tight = DecodeLimits {
        state: Limits { plans: 143, ..Limits::default() },
        ..DecodeLimits::default()
    };
    assert!(matches!(
        decode_snapshot(bytes(wire()), owner(), "test", tight),
        Err(LogicalDecodeError::TooManyPlans { max_plans: 144, plans: 143 })
    ));
    let epoch = WireCut { epoch: "0000000000000000000000000000000g".into(), ..wire() };
    assert!(matches!(refusal(epoch), LogicalDecodeError::Epoch));
    let crowded = WireCut { max_rows: 0, max_plans: 0, ..wire() };
    assert!(matches!(refusal(crowded), LogicalDecodeError::StateBudget));
    let shape = WireCut { added_plans: Some(vec![]), ..wire() };
    assert!(matches!(refusal(shape), LogicalDecodeError::SnapshotShape));
    let shape = WireCut { removed_plans: None, ..update(1) };
    assert!(matches!(refusal(shape), LogicalDecodeError::UpdateShape));
    assert!(matches!(refusal(cut("LogicalOther", 0)), LogicalDecodeError::EventType));
    assert!(matches!(refusal(update(1)), LogicalDecodeError::NotASnapshot));
}

#[test]
fn every_row_and_state_fault_has_its_error() {
    let position = with_segment(|s| s.end = 1 << 32);
    assert!(matches!(refusal(position), LogicalDecodeError::Position));
    let kind = with_segment(|s| s.kind = "partial".into());
    assert!(matches!(refusal(kind), LogicalDecodeError::Kind));
    let identity = with_segment(|s| s.id = String::new());
    assert!(matches!(refusal(identity), LogicalDecodeError::Identity));
    let material = with_segment(|s| s.hash_unit = 4);
    assert!(matches!(refusal(material), LogicalDecodeError::SegmentMaterial));
    let twice = WireCut { segments: Some(vec![segment(), segment()]), ..wire() };
    assert!(matches!(refusal(twice), LogicalDecodeError::DuplicateSegment));
    let unbound = with_plan(|p| p.binding = "absent".into());
    assert!(matches!(refusal(unbound), LogicalDecodeError::MissingBinding));
    let mismatch = with_plan(|p| p.kind = "tail".into());
    assert!(matches!(refusal(mismatch), LogicalDecodeError::PlanMismatch));
    let twice = WireCut { plans: Some(vec![plan(), plan()]), ..wire() };
    assert!(matches!(refusal(twice), LogicalDecodeError::DuplicatePlan));
    let confidence = WireCut { confidence: "maybe".into(), ..wire() };
    assert!(matches!(refusal(confidence), LogicalDecodeError::ConfidenceState));
    let reasoned = WireCut { reason: "loss".into(), ..wire() };
    assert!(matches!(refusal(reasoned), LogicalDecodeError::KnownWithReason));
    let crowded = WireCut {
        max_rows: 0,
        max_plans: 0,
        plans: Some(vec![]),
        ..wire()
    };
    let outcome = decode_snapshot(bytes(crowded), owner(), "test", DecodeLimits::default());
    assert!(outcome.is_err());

    let mut stream = LogicalStream::new(owner(), "test".into(), DecodeLimits::default());
    assert!(stream.ingest(0, bytes(wire())).unwrap());
    let reshaped = WireCut { block_size: 64, max_plans: 16 * 17, ..update(1) };
    assert!(matches!(
        stream.ingest(1, bytes(reshaped)),
        Err(LogicalDecodeError::GeometryChanged)
    ));
    assert!(stream.view().is_none());
}

#[test]
fn native_hashes_hold_between_one_and_128_bytes() {
    assert_eq!(NativeHash::new(vec![]), None);
    assert_eq!(NativeHash::new(vec![7; 128]), Some(NativeHash(vec![7; 128])));
    assert_eq!(NativeHash::new(vec![7; 129]), None);
}

#[test]
fn retired_rows_take_their_plan_names_with_them() {
    let mut stream = LogicalStream::new(owner(), "test".into(), DecodeLimits::default());
    assert!(stream.ingest(0, bytes(wire())).unwrap());
    let plan = query_tokens(stream.view().unwrap(), &tokens()).selected_plan.unwrap();
    assert_eq!(plan, xxhash_rust::xxh3::xxh3_64(b"checkpoint"));
    assert_eq!(stream.plan_name(plan).map(String::as_str), Some("checkpoint"));
    assert_eq!(stream.plan_names().unwrap().ids(), vec![plan]);
    assert_eq!(stream.cursor(), Some(0));
    let mut retire = update(1);
    retire.removed_segments = Some(vec!["full".into()]);
    assert!(stream.ingest(1, bytes(retire)).unwrap());
    assert_eq!(stream.cursor(), Some(1));
    assert_eq!(stream.plan_name(plan), None);
    assert_eq!(eligible(&stream), Some(0));
    stream.invalidate();
    assert!(stream.view().is_none());
    assert_eq!(stream.cursor(), None);
}

#[test]
fn pool_limits_need_a_geometry() {
    assert!(DecodeLimits::for_pool(1, 32, 0).is_none());
    assert!(DecodeLimits::for_pool(1, 32, 5).is_none());
    let sized = DecodeLimits::for_pool(16, 32, 4).unwrap();
    assert_eq!(sized.state.plans, 144);
}
