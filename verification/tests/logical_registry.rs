use kv_router::logical_registry::{
    LogicalMode, LogicalRegistry, RegistryError, RegistryLimits, SelectionReason,
};
use kv_router::logical_wire::{
    NativeHash, WireCut, WireEnvelope, WirePayload, WirePlan, WireSegment,
};
use kv_router::protocols::WorkerWithDpRank;

const TOKEN: u32 = 7;

fn cut(event_type: &str, cursor: u64) -> WireCut {
    WireCut {
        event_type: event_type.into(),
        profile: "native-cpu-root".into(),
        version: 1,
        namespace: "fixture".into(),
        epoch: "00000000000000000000000000000001".into(),
        cursor,
        confidence: "known".into(),
        reason: String::new(),
        block_size: 12_288,
        hash_unit: 128,
        max_rows: 16,
        max_plans: 16 * 97,
        segments: None,
        plans: None,
        added_segments: None,
        removed_segments: None,
        added_plans: None,
        removed_plans: None,
    }
}

fn native(end: u32) -> NativeHash {
    NativeHash(end.to_be_bytes().to_vec())
}

fn complete() -> WireSegment {
    WireSegment {
        id: "complete".into(),
        kind: "complete".into(),
        start: 0,
        end: 12_288,
        parent_hash: None,
        end_hash: native(12_288),
        token_ids: vec![TOKEN; 12_288],
        hash_unit: 12_288,
        hashes: vec![native(12_288)],
    }
}

fn tail() -> WireSegment {
    WireSegment {
        id: "tail".into(),
        kind: "tail".into(),
        start: 12_288,
        end: 23_296,
        parent_hash: Some(native(12_288)),
        end_hash: native(23_296),
        token_ids: vec![TOKEN; 23_296 - 12_288],
        hash_unit: 128,
        hashes: (1..=86).map(|unit| native(12_288 + 128 * unit)).collect(),
    }
}

fn tail_plan() -> WirePlan {
    WirePlan {
        id: "tail-plan".into(),
        kind: "tail".into(),
        end: 23_296,
        anchor: 12_288,
        anchor_hash: Some(native(12_288)),
        terminal_hash: native(23_296),
        minimum_prompt_tokens: 23_297,
        binding: "tail".into(),
    }
}

fn payload(wire: WireCut) -> WirePayload {
    WirePayload {
        bytes: 65_536,
        envelope: Ok(WireEnvelope { finite_timestamp: true, cuts: vec![wire], dp_rank: 0 }),
    }
}

/// An empty view, the complete block, the anchored tail, and a CPU reset.
fn cuts() -> (String, u32, Vec<WireCut>) {
    let empty = WireCut {
        segments: Some(vec![]),
        plans: Some(vec![]),
        ..cut("LogicalSnapshot", 0)
    };
    let update = |cursor: u64, segments: Vec<WireSegment>, plans: Vec<WirePlan>| WireCut {
        added_segments: Some(segments),
        removed_segments: Some(vec![]),
        added_plans: Some(plans),
        removed_plans: Some(vec![]),
        ..cut("LogicalUpdate", cursor)
    };
    let block = update(1, vec![complete()], vec![]);
    let anchored = update(2, vec![tail()], vec![tail_plan()]);
    let reset = WireCut { epoch: "00000000000000000000000000000002".into(), ..empty.clone() };
    ("fixture".into(), TOKEN, vec![empty, block, anchored, reset])
}

fn worker(id: u64) -> WorkerWithDpRank {
    WorkerWithDpRank::new(id, 0)
}

/// Load every cut into one owner, which ends in the anchored-tail
/// state (eligible 23296 for a 23400-token prompt).
fn loaded(mode: LogicalMode) -> (LogicalRegistry, Vec<u32>) {
    let (namespace, token, payloads) = cuts();
    let mut registry = LogicalRegistry::new(mode, namespace, RegistryLimits::default());
    registry.attach(worker(1)).expect("attach");
    // Stop before the CPU reset so the loaded state carries live plans.
    for (index, wire) in payloads.iter().take(payloads.len() - 1).enumerate() {
        registry
            .ingest(worker(1), index as u64, payload(wire.clone()))
            .expect("ingest");
    }
    (registry, vec![token; 23400])
}

#[test]
fn off_mode_holds_nothing_and_answers_nothing() {
    let (namespace, token, payloads) = cuts();
    let mut registry =
        LogicalRegistry::new(LogicalMode::Off, namespace, RegistryLimits::default());
    assert!(matches!(
        registry.attach(worker(1)),
        Err(RegistryError::Disabled)
    ));
    assert!(matches!(
        registry.ingest(worker(1), 0, payload(payloads[0].clone())),
        Err(RegistryError::Disabled)
    ));
    let selection = registry.counterfactual(&[worker(1)], &[token; 16]);
    assert_eq!(selection.reason, SelectionReason::ModeDisabled);
    assert_eq!(registry.attached(), 0);
}

#[test]
fn observe_mode_records_a_choice_but_refuses_to_route() {
    let (registry, tokens) = loaded(LogicalMode::Observe);
    let selection = registry.counterfactual(&[worker(1)], &tokens);
    assert_eq!(selection.proposed, Some(worker(1)));
    assert_eq!(selection.reason, SelectionReason::MaximumEligibleEndpoint);
    assert_eq!(
        selection.candidates[0].eligible_cpu_root_tokens,
        Some(23296)
    );
    assert!(selection.candidates[0].selected_plan.is_some());
    // The routing question gets no answer at all, not a zero.
    assert_eq!(registry.routing_overlap(worker(1), &tokens), None);
}

#[test]
fn use_mode_supplies_the_certified_endpoint_only() {
    let (registry, tokens) = loaded(LogicalMode::Use);
    assert_eq!(registry.routing_overlap(worker(1), &tokens), Some(23296));
    // An unattached worker is unknown, which is not an empty cache.
    assert_eq!(registry.routing_overlap(worker(2), &tokens), None);
}

#[test]
fn a_retired_view_is_unknown_rather_than_zero() {
    let (namespace, token, payloads) = cuts();
    let mut registry =
        LogicalRegistry::new(LogicalMode::Use, namespace, RegistryLimits::default());
    registry.attach(worker(1)).expect("attach");
    for (index, wire) in payloads.iter().take(payloads.len() - 1).enumerate() {
        registry
            .ingest(worker(1), index as u64, payload(wire.clone()))
            .expect("ingest");
    }
    let tokens = vec![token; 23400];
    assert_eq!(registry.routing_overlap(worker(1), &tokens), Some(23296));
    registry.reattach(worker(1));
    assert_eq!(registry.routing_overlap(worker(1), &tokens), None);
    let selection = registry.counterfactual(&[worker(1)], &tokens);
    assert_eq!(selection.reason, SelectionReason::NoCandidates);
}

#[test]
fn detaching_a_producer_drops_its_credit() {
    let (mut registry, tokens) = loaded(LogicalMode::Use);
    assert!(registry.routing_overlap(worker(1), &tokens).is_some());
    registry.detach(worker(1));
    assert_eq!(registry.attached(), 0);
    assert_eq!(registry.routing_overlap(worker(1), &tokens), None);
}

#[test]
fn the_plan_ceiling_is_shared_across_owners_not_per_owner() {
    let (namespace, token, payloads) = cuts();
    // Exactly one owner's worth of headroom: the second owner to publish is
    // the one retired, and the first keeps its trustworthy view.
    let (single_owner, _) = loaded(LogicalMode::Use);
    let headroom = single_owner.live_plans();
    assert!(headroom > 0, "the loaded owner must hold live plans");
    let limits = RegistryLimits {
        aggregate_plans: headroom,
        ..RegistryLimits::default()
    };
    let mut registry = LogicalRegistry::new(LogicalMode::Use, namespace, limits);
    registry.attach(worker(1)).expect("attach");
    registry.attach(worker(2)).expect("attach");
    let through = payloads.len() - 1;
    for (index, wire) in payloads.iter().take(through).enumerate() {
        registry
            .ingest(worker(1), index as u64, payload(wire.clone()))
            .expect("first owner");
    }
    let mut hit_ceiling = false;
    for (index, wire) in payloads.iter().take(through).enumerate() {
        if let Err(RegistryError::AggregateCeiling) =
            registry.ingest(worker(2), index as u64, payload(wire.clone()))
        {
            hit_ceiling = true;
            break;
        }
    }
    let tokens = vec![token; 23400];
    assert!(
        hit_ceiling,
        "a second owner never reached the shared ceiling"
    );
    assert_eq!(registry.routing_overlap(worker(2), &tokens), None);
    assert_eq!(registry.routing_overlap(worker(1), &tokens), Some(23296));
}

#[test]
fn the_owner_ceiling_bounds_attachment_churn() {
    let (namespace, _, _) = cuts();
    let limits = RegistryLimits {
        owners: 1,
        ..RegistryLimits::default()
    };
    let mut registry = LogicalRegistry::new(LogicalMode::Use, namespace, limits);
    registry.attach(worker(1)).expect("attach");
    registry
        .attach(worker(1))
        .expect("re-attaching a known owner is free");
    assert!(matches!(
        registry.attach(worker(2)),
        Err(RegistryError::OwnerCeiling)
    ));
}

#[test]
fn a_counterfactual_never_mutates_a_view() {
    let (registry, tokens) = loaded(LogicalMode::Use);
    let first = registry.counterfactual(&[worker(1), worker(2)], &tokens);
    let second = registry.counterfactual(&[worker(1), worker(2)], &tokens);
    assert_eq!(first, second);
    assert_eq!(
        first.candidates.len(),
        1,
        "an unattached candidate is not reported as zero"
    );
}

#[test]
fn candidates_without_credit_propose_nobody() {
    let (namespace, token, wires) = cuts();
    let mut registry =
        LogicalRegistry::new(LogicalMode::Observe, namespace, RegistryLimits::default());
    match registry.ingest(worker(1), 0, payload(wires[0].clone())) {
        Err(error) => assert_eq!(
            error.message(),
            "owner WorkerWithDpRank { worker_id: 1, dp_rank: 0 } is not attached"
        ),
        Ok(_) => panic!("an owner must attach first"),
    }
    registry.attach(worker(1)).expect("attach");
    registry.ingest(worker(1), 0, payload(wires[0].clone())).expect("ingest");
    let selection = registry.counterfactual(&[worker(1)], &[token; 16]);
    assert_eq!(selection.proposed, None);
    assert_eq!(selection.reason, SelectionReason::NoLogicalCredit);
    let mut foreign = wires[0].clone();
    foreign.namespace = "elsewhere".into();
    match registry.ingest(worker(1), 1, payload(foreign)) {
        Err(error) => assert_eq!(
            error.message(),
            "unsupported or invalid logical CPU cut: namespace mismatch"
        ),
        Ok(_) => panic!("a foreign namespace must be refused"),
    }
}

#[test]
fn one_owner_does_not_disturb_another() {
    let (mut registry, tokens) = loaded(LogicalMode::Use);
    registry.attach(worker(2)).expect("attach");
    let (_, _, wires) = cuts();
    registry.ingest(worker(2), 0, payload(wires[0].clone())).expect("ingest");
    assert_eq!(registry.routing_overlap(worker(1), &tokens), Some(23296));
    assert_eq!(registry.routing_overlap(worker(2), &tokens), Some(0));
    registry.detach(worker(2));
    assert_eq!(registry.routing_overlap(worker(1), &tokens), Some(23296));
    assert_eq!(LogicalMode::default(), LogicalMode::Off);
    assert_eq!(registry.mode(), LogicalMode::Use);
}
