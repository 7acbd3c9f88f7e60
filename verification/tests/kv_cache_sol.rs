use std::collections::BTreeMap;

use kv_router::block_hash::{
    compute_block_hash_for_seq, compute_seq_hash_for_block, BlockExtraInfo, BlockHashOptions,
    BlockMmObjectInfo,
};
use kv_router::hash_continuation::HashContinuation;
use kv_router::kv_cache_sol::{KvCacheSolDomain, KvCacheSolEvent, KvCacheSolEventKind};
use kv_router::kv_cache_sol_estimator::{
    check_estimator_arguments, DomainCache, EstimatorArgumentError, EstimatorLoss, KvCacheSolCore,
    SolCounts, SolEstimator, SolObservation,
};
use kv_router::kv_cache_sol_producer::{
    after_send, plan_tap, reserve_publisher_sequence, KvCacheSolProducer, ProducerConfigError,
    ProducerDrop, PromptHashInput, PublisherWorker, RawEnd, RawStart, ResponseEndGuard,
    SendOutcome, SkipReason, SolRequest, TapPlan,
};

fn domain(eagle: bool) -> KvCacheSolDomain {
    KvCacheSolDomain {
        model: "model".to_string(),
        model_config: "config".to_string(),
        block_size: 4,
        is_eagle: eagle,
    }
}

fn start_event(id: &str, time: u64, hashes: Vec<u64>, tokens: u64) -> KvCacheSolEvent {
    KvCacheSolEvent {
        producer_sequence: 0,
        occurred_at_ms: time,
        request_id: id.to_string(),
        domain: domain(false),
        kind: KvCacheSolEventKind::RequestStart {
            prompt_sequence_hashes: hashes,
            prompt_tokens: tokens,
        },
    }
}

fn start_event_in_domain(
    id: &str,
    time: u64,
    hashes: Vec<u64>,
    tokens: u64,
    model_config: &str,
) -> KvCacheSolEvent {
    let mut event = start_event(id, time, hashes, tokens);
    event.domain.model_config = model_config.to_string();
    event
}

fn end_event(id: &str, time: u64, sequence: u64) -> KvCacheSolEvent {
    KvCacheSolEvent {
        producer_sequence: sequence,
        occurred_at_ms: time,
        request_id: id.to_string(),
        domain: domain(false),
        kind: KvCacheSolEventKind::RequestEnd {
            continuation_sequence_hashes: BTreeMap::new(),
            observed_cached_tokens: Some(0),
        },
    }
}

fn raw_start(id: &str, eagle: bool, tokens: &[u32]) -> RawStart {
    RawStart {
        occurred_at_ms: 0,
        request_id: id.to_string(),
        domain: domain(eagle),
        prompt: PromptHashInput::Tokens { token_ids: tokens.to_vec(), block_mm_infos: None },
        next_block_mm_info: None,
        lora_name: None,
        cache_namespace: None,
    }
}

fn plain_hashes(tokens: &[u32]) -> Vec<u64> {
    compute_seq_hash_for_block(&compute_block_hash_for_seq(tokens, 4, BlockHashOptions::plain()))
}

fn continuation(eagle: bool, hashes: &[u64], tail: &[u32]) -> HashContinuation {
    HashContinuation::new(4, eagle, hashes.last().copied(), tail.to_vec(), None, None, None)
}

#[test]
fn longest_prefix_hits_and_horizon_expiry() {
    let mut core = KvCacheSolCore::new(100, 100, 100);
    let first = core.apply(1, start_event("a", 10, vec![11, 12], 8));
    assert!(matches!(first, SolObservation::Start { hit_tokens: 0, .. }));
    let second = core.apply(1, start_event("b", 20, vec![11, 12, 13], 12));
    assert!(matches!(second, SolObservation::Start { hit_tokens: 8, .. }));
    let expired = core.apply(1, start_event("c", 121, vec![11, 12], 8));
    assert!(matches!(expired, SolObservation::Start { hit_tokens: 0, .. }));
}

#[test]
fn hot_prefix_refresh_keeps_expiry_index_bounded() {
    let mut cache = DomainCache::new();
    assert!(cache.insert(11, 100));
    for expires_at in 101..=100_000 {
        assert!(!cache.insert(11, expires_at));
    }

    assert_eq!(cache.len(), 1);
    assert_eq!(cache.queued(), 1);
    cache.prune(100_000);
    assert_eq!(cache.len(), 0);
    assert_eq!(cache.queued(), 0);
}

#[test]
fn refresh_with_an_older_timestamp_never_shortens_expiry() {
    let mut cache = DomainCache::new();
    assert!(cache.insert(11, 200));
    assert!(!cache.insert(11, 100));
    cache.prune(150);

    assert_eq!(cache.expiry(11), Some(200));
    assert_eq!(cache.queued(), 1);
}

#[test]
fn expired_inactive_domain_releases_global_capacity() {
    let mut core = KvCacheSolCore::new(100, 1, 100);
    core.apply(1, start_event_in_domain("a", 10, vec![11], 4, "config-a"));
    assert_eq!(core.cache_blocks(), 1);

    let observation = core.apply(1, start_event_in_domain("b", 111, vec![22], 4, "config-b"));
    assert!(matches!(observation, SolObservation::Start { hit_tokens: 0, .. }));
    assert_eq!(core.cache_blocks(), 1);
    assert!(!core.degraded());
    let mut inactive = domain(false);
    inactive.model_config = "config-a".to_string();
    assert!(!core.holds_domain(&inactive));
    let mut active = domain(false);
    active.model_config = "config-b".to_string();
    assert!(core.holds_domain(&active));
    assert_eq!(core.domain_count(), 1);
}

#[test]
fn cache_block_capacity_is_a_hard_bound_under_domain_churn() {
    let mut core = KvCacheSolCore::new(10, 8, 10_000);
    for index in 0..10_000_u64 {
        core.apply(
            1,
            start_event_in_domain(
                &format!("request-{index}"),
                index,
                vec![index],
                4,
                &format!("config-{}", index % 16),
            ),
        );
        assert!(core.cache_blocks() <= 8);
    }
    assert!(core.domain_count() <= 16);
}

#[test]
fn identical_request_ids_from_different_publishers_do_not_collide() {
    let mut core = KvCacheSolCore::new(1_000, 100, 100);
    core.apply(1, start_event("shared-id", 10, vec![11], 4));
    core.apply(2, start_event("shared-id", 11, vec![22], 4));
    assert_eq!(core.pending_requests(), 2);

    core.apply(1, end_event("shared-id", 20, 1));
    core.apply(2, end_event("shared-id", 21, 1));
    assert_eq!(core.pending_requests(), 0);
    assert!(!core.degraded());
}

#[test]
fn pending_request_capacity_is_a_hard_bound() {
    let mut core = KvCacheSolCore::new(1_000, 100, 2);
    core.apply(1, start_event("a", 10, vec![11], 4));
    core.apply(1, start_event("b", 11, vec![12], 4));
    core.apply(1, start_event("c", 12, vec![13], 4));

    assert_eq!(core.pending_requests(), 2);
    assert!(core.degraded());
}

#[test]
fn degraded_and_pending_state_expire_after_the_horizon() {
    let mut core = KvCacheSolCore::new(100, 0, 100);
    core.apply(1, start_event("a", 10, vec![11], 4));

    assert!(core.degraded());
    assert_eq!(core.pending_requests(), 1);

    core.advance_to(110);
    assert!(!core.degraded());
    assert_eq!(core.pending_requests(), 0);
}

#[test]
fn queue_overflow_and_worker_close_are_sticky_producer_failures() {
    let sent = after_send(SendOutcome::Sent, 1, 0);
    let overflow = after_send(SendOutcome::Full, 1, 0);
    assert_eq!(sent.queue_depth, Some(1));
    assert_eq!(sent.dropped, None);
    assert_eq!(overflow.queue_depth, None);
    assert_eq!(overflow.dropped, Some(ProducerDrop::QueueFull));
    assert_eq!(ProducerDrop::QueueFull.as_label(), "queue_full");
    assert_eq!(sent.missing + overflow.missing, 1);

    let closed = after_send(SendOutcome::Closed, 1, 0);
    assert_eq!(closed.queue_depth, Some(0));
    assert_eq!(closed.dropped, Some(ProducerDrop::WorkerClosed));
    assert_eq!(ProducerDrop::WorkerClosed.as_label(), "worker_closed");
    assert_eq!(sent.missing + overflow.missing + closed.missing, 2);
}

#[test]
fn dropping_an_unpolled_stream_publishes_request_end() {
    let mut guard = ResponseEndGuard::new("unpolled".to_string(), None);
    let end = guard.finish(3).unwrap();
    assert_eq!(end.request_id, "unpolled");
    assert_eq!(end.occurred_at_ms, 3);
    assert!(end.output_tokens.is_empty());
    assert!(guard.finish(4).is_none());
}

#[test]
fn process_local_event_plane_round_trip_drains_cleanly() {
    let mut estimator = SolEstimator::new(KvCacheSolCore::new(60_000, 100, 100));
    let started = estimator.receive(7, start_event("wire", 1_000, vec![11], 4));
    assert_eq!(started.event_type, Some("request_start"));
    assert_eq!(started.loss, None);
    match started.counts {
        SolCounts::Evaluated { domain, prompt_tokens, hit_tokens } => {
            assert_eq!(domain.model, "model");
            assert_eq!(domain.model_config, "config");
            assert_eq!(prompt_tokens, 4);
            assert_eq!(hit_tokens, 0);
        }
        _ => panic!("a start is evaluated"),
    }
    let ended = estimator.receive(7, end_event("wire", 1_001, 1));
    assert_eq!(ended.event_type, Some("request_end"));
    assert_eq!(ended.loss, None);
    assert_eq!(ended.gauges.pending_requests, 0);
    assert!(!ended.gauges.degraded);
}

#[test]
fn continuation_completes_partial_standard_block() {
    let tokens = vec![1, 2, 3, 4, 5, 6];
    let seq = plain_hashes(&tokens);
    let mut continuation = continuation(false, &seq, &tokens[4..]);
    let next = continuation.append(&[7, 8, 9, 10, 11, 12]);
    let all = plain_hashes(&[1, 2, 3, 4, 5, 6, 7, 8, 9, 10, 11, 12]);
    assert_eq!(next, all[1..]);
}

#[test]
fn continuation_matches_eagle_hashing() {
    let tokens = vec![1, 2, 3, 4, 5, 6];
    let options = BlockHashOptions { is_eagle: Some(true), ..BlockHashOptions::plain() };
    let seq = compute_seq_hash_for_block(&compute_block_hash_for_seq(&tokens, 4, options));
    let mut continuation = continuation(true, &seq, &tokens[4..]);
    let next = continuation.append(&[7, 8, 9, 10, 11, 12]);
    let all = compute_block_hash_for_seq(&[1, 2, 3, 4, 5, 6, 7, 8, 9, 10, 11, 12], 4, options);
    assert_eq!(next, compute_seq_hash_for_block(&all)[1..]);
}

#[test]
fn long_continuation_matches_single_pass_hashing() {
    let prompt: Vec<u32> = vec![1, 2, 3, 4, 5, 6];
    let generated: Vec<u32> = (0..16_384).collect();
    let prompt_hashes = plain_hashes(&prompt);
    let mut continuation = continuation(false, &prompt_hashes, &prompt[4..]);
    let actual = continuation.append(&generated);

    let mut all = prompt;
    all.extend_from_slice(&generated);
    let expected = plain_hashes(&all);
    assert_eq!(actual, expected[1..]);
}

#[test]
fn continuation_preserves_lora_namespace_and_multimodal_hashing() {
    let mm = BlockExtraInfo {
        mm_objects: vec![BlockMmObjectInfo { mm_hash: 42, offsets: vec![(0, 2)] }],
    };
    let tokens = vec![1, 2, 3, 4, 5, 6];
    let prompt_mm_infos = vec![None, Some(mm.clone())];
    let options = BlockHashOptions {
        block_mm_infos: Some(&prompt_mm_infos),
        lora_name: Some("adapter"),
        cache_namespace: Some("tenant"),
        is_eagle: Some(false),
    };
    let initial_seq = compute_seq_hash_for_block(&compute_block_hash_for_seq(&tokens, 4, options));
    let mut continuation = HashContinuation::new(
        4,
        false,
        initial_seq.last().copied(),
        tokens[4..].to_vec(),
        Some(mm.clone()),
        Some("adapter".to_string()),
        Some("tenant".to_string()),
    );
    let next = continuation.append(&[7, 8]);
    let full_tokens = [1, 2, 3, 4, 5, 6, 7, 8];
    let full_mm = [None, Some(mm)];
    let expected = compute_seq_hash_for_block(&compute_block_hash_for_seq(
        &full_tokens,
        4,
        BlockHashOptions {
            block_mm_infos: Some(&full_mm),
            lora_name: Some("adapter"),
            cache_namespace: Some("tenant"),
            is_eagle: Some(false),
        },
    ));
    assert_eq!(next, expected[1..]);
}

#[test]
fn response_continuation_becomes_a_future_prompt_hit() {
    let tokens = vec![1, 2, 3, 4, 5, 6];
    let prompt_hashes = plain_hashes(&tokens);
    let mut continuation = continuation(false, &prompt_hashes, &tokens[4..]);
    let response_hashes = continuation.append(&[7, 8]);

    let mut core = KvCacheSolCore::new(1_000, 100, 100);
    core.apply(1, start_event("a", 10, prompt_hashes.clone(), 6));
    core.apply(
        1,
        KvCacheSolEvent {
            producer_sequence: 1,
            occurred_at_ms: 20,
            request_id: "a".to_string(),
            domain: domain(false),
            kind: KvCacheSolEventKind::RequestEnd {
                continuation_sequence_hashes: BTreeMap::from([(0, response_hashes.clone())]),
                observed_cached_tokens: Some(0),
            },
        },
    );
    let next = core.apply(1, start_event("b", 30, vec![prompt_hashes[0], response_hashes[0]], 8));
    assert!(matches!(next, SolObservation::Start { hit_tokens: 8, .. }));
}

#[test]
fn publisher_sequence_follows_worker_order_and_preserves_real_gaps() {
    let mut next = 0;
    assert_eq!(reserve_publisher_sequence(&mut next, 0), 0);
    assert_eq!(reserve_publisher_sequence(&mut next, 0), 1);

    assert_eq!(reserve_publisher_sequence(&mut next, 3), 5);
    assert_eq!(reserve_publisher_sequence(&mut next, 0), 6);
}

#[test]
fn chunked_continuation_gives_the_hashes_of_one_append() {
    let mut whole = continuation(false, &[], &[1, 2]);
    let once = whole.append(&[3, 4, 5, 6, 7, 8, 9]);
    let mut pieces = continuation(false, &[], &[1, 2]);
    let mut twice = pieces.append(&[3, 4, 5]);
    twice.extend(pieces.append(&[6, 7, 8, 9]));
    assert_eq!(once.len(), 2);
    assert_eq!(once, twice);
}

#[test]
fn worker_hashes_prompts_and_continues_every_choice_on_its_own() {
    let mut worker = PublisherWorker::new();
    let started = worker.start(raw_start("r", false, &[1, 2, 3, 4, 5, 6]), None, 0).unwrap();
    assert_eq!(started.producer_sequence, 0);
    match started.kind {
        KvCacheSolEventKind::RequestStart { prompt_sequence_hashes, prompt_tokens } => {
            assert_eq!(prompt_sequence_hashes, plain_hashes(&[1, 2, 3, 4]));
            assert_eq!(prompt_tokens, 6);
        }
        _ => panic!("a start is told as a start"),
    }
    let ended = worker
        .end(
            RawEnd {
                occurred_at_ms: 9,
                request_id: "r".to_string(),
                output_tokens: BTreeMap::from([(0, vec![7, 8]), (1, vec![9])]),
                observed_cached_tokens: Some(4),
            },
            0,
        )
        .unwrap();
    assert_eq!(ended.producer_sequence, 1);
    match ended.kind {
        KvCacheSolEventKind::RequestEnd { continuation_sequence_hashes, observed_cached_tokens } => {
            assert_eq!(observed_cached_tokens, Some(4));
            assert_eq!(continuation_sequence_hashes.len(), 2);
            assert!(continuation_sequence_hashes.contains_key(&0));
            assert_eq!(
                continuation_sequence_hashes[&0],
                plain_hashes(&[1, 2, 3, 4, 5, 6, 7, 8])[1..]
            );
            assert!(continuation_sequence_hashes[&1].is_empty());
        }
        _ => panic!("an end is told as an end"),
    }
}

#[test]
fn worker_drops_what_it_cannot_tell() {
    let mut worker = PublisherWorker::new();
    worker.start(raw_start("r", false, &[1, 2, 3, 4]), None, 0).unwrap();
    let duplicate = worker.start(raw_start("r", false, &[1]), None, 0);
    assert_eq!(duplicate.unwrap_err(), ProducerDrop::DuplicateRequestId);
    let orphan = worker.end(
        RawEnd {
            occurred_at_ms: 1,
            request_id: "other".to_string(),
            output_tokens: BTreeMap::new(),
            observed_cached_tokens: None,
        },
        0,
    );
    assert_eq!(orphan.unwrap_err(), ProducerDrop::OrphanEnd);

    let routed = |id: &str, tokens: usize, tail: Vec<u32>| RawStart {
        prompt: PromptHashInput::Router { prompt_tokens: tokens, tail_token_ids: tail },
        ..raw_start(id, false, &[])
    };
    let missing = worker.start(routed("a", 4, vec![1, 2, 3, 4]), None, 0);
    assert_eq!(missing.unwrap_err(), ProducerDrop::MissingRouterHashes);
    let too_many = worker.start(routed("b", 4, vec![1, 2, 3, 4]), Some(vec![1, 2]), 0);
    assert_eq!(too_many.unwrap_err(), ProducerDrop::InvalidRouterHashes);
    let too_few = worker.start(routed("c", 40, vec![1, 2, 3, 4]), Some(vec![1]), 0);
    assert_eq!(too_few.unwrap_err(), ProducerDrop::InvalidRouterHashes);
    let fitting = worker.start(routed("d", 6, vec![3, 4, 5, 6]), Some(vec![77]), 2).unwrap();
    assert_eq!(fitting.producer_sequence, 8);
    let ended = worker
        .end(
            RawEnd {
                occurred_at_ms: 1,
                request_id: "d".to_string(),
                output_tokens: BTreeMap::from([(0, vec![7, 8])]),
                observed_cached_tokens: None,
            },
            0,
        )
        .unwrap();
    match ended.kind {
        KvCacheSolEventKind::RequestEnd { continuation_sequence_hashes, .. } => {
            let mut expected = continuation(false, &[77], &[5, 6]);
            assert_eq!(continuation_sequence_hashes[&0], expected.append(&[7, 8]));
        }
        _ => panic!("an end is told as an end"),
    }
}

fn request(tokens: Vec<u32>) -> SolRequest {
    SolRequest {
        is_probe: false,
        has_prompt_embeds: false,
        model: "model".to_string(),
        mdc_sum: Some("config".to_string()),
        tokens,
        block_mm_infos: None,
        lora_name: Some("adapter".to_string()),
        cache_namespace: None,
    }
}

#[test]
fn starts_are_prepared_from_requests_or_skipped() {
    let producer = KvCacheSolProducer::configure(Some("on"), None, 4, true, true).unwrap().unwrap();
    assert_eq!(producer.queue_capacity, 256);
    let mut probe = request(vec![1]);
    probe.is_probe = true;
    probe.has_prompt_embeds = true;
    let skipped = producer.prepare_start("r".to_string(), &probe, 1).unwrap_err();
    assert_eq!(skipped, SkipReason::HealthProbe);
    assert_eq!(skipped.as_label(), "health_probe");
    let mut embeds = request(vec![1]);
    embeds.has_prompt_embeds = true;
    let skipped = producer.prepare_start("r".to_string(), &embeds, 1).unwrap_err();
    assert_eq!(skipped, SkipReason::PromptEmbeds);
    assert_eq!(skipped.as_label(), "prompt_embeds");
    let mut unknown = request(vec![1]);
    unknown.mdc_sum = None;
    let skipped = producer.prepare_start("r".to_string(), &unknown, 1).unwrap_err();
    assert_eq!(skipped, SkipReason::MissingModelConfig);
    assert_eq!(skipped.as_label(), "missing_model_config");

    let start =
        producer.prepare_start("r".to_string(), &request(vec![1, 2, 3, 4, 5, 6, 7, 8]), 5).unwrap();
    assert_eq!(start.occurred_at_ms, 5);
    assert_eq!(start.lora_name.as_deref(), Some("adapter"));
    assert_eq!(start.domain.block_size, 4);
    match start.prompt {
        PromptHashInput::Router { prompt_tokens, tail_token_ids } => {
            assert_eq!(prompt_tokens, 8);
            assert_eq!(tail_token_ids, vec![4, 5, 6, 7, 8]);
        }
        _ => panic!("the router computes the hashes"),
    }
}

#[test]
fn producers_are_configured_by_their_settings() {
    assert_eq!(KvCacheSolProducer::configure(None, None, 0, false, false), Ok(None));
    assert_eq!(KvCacheSolProducer::configure(Some("0"), None, 0, false, false), Ok(None));
    assert_eq!(
        KvCacheSolProducer::configure(Some("TRUE"), None, 0, false, false),
        Err(ProducerConfigError::ZeroBlockSize)
    );
    assert_eq!(
        KvCacheSolProducer::configure(Some("yes"), Some("many"), 4, false, false),
        Err(ProducerConfigError::InvalidQueueCapacity)
    );
    assert_eq!(
        KvCacheSolProducer::configure(Some("1"), Some("0"), 4, false, false),
        Err(ProducerConfigError::ZeroQueueCapacity)
    );
    let producer = KvCacheSolProducer::configure(Some("1"), Some("12"), 4, false, false);
    assert_eq!(producer.unwrap().unwrap().queue_capacity, 12);
}

#[test]
fn a_guard_collects_outputs_by_choice_and_the_first_observation() {
    let mut guard = ResponseEndGuard::new("r".to_string(), None);
    assert_eq!(guard.observe(1, &[9], None), None);
    assert_eq!(guard.observe(0, &[1, 2], Some(8)), Some(8));
    assert_eq!(guard.observe(1, &[10], Some(16)), None);
    let end = guard.finish(7).unwrap();
    assert_eq!(end.output_tokens, BTreeMap::from([(0, vec![1, 2]), (1, vec![9, 10])]));
    assert_eq!(end.observed_cached_tokens, Some(8));
}

#[test]
fn failed_requests_are_told_at_once() {
    match plan_tap(None, "r".to_string(), true, None, 1) {
        TapPlan::PassThrough => {}
        _ => panic!("a skipped request is handed through"),
    }
    match plan_tap(Some(raw_start("r", false, &[1])), "r".to_string(), false, Some(2), 3) {
        TapPlan::Failed { start, end } => {
            assert_eq!(start.request_id, "r");
            assert_eq!(end.request_id, "r");
            assert!(end.output_tokens.is_empty());
            assert_eq!(end.observed_cached_tokens, Some(2));
        }
        _ => panic!("a failed request is told at once"),
    }
    match plan_tap(Some(raw_start("r", false, &[1])), "r".to_string(), true, Some(2), 3) {
        TapPlan::Watch { mut guard, .. } => {
            assert_eq!(guard.observe(0, &[1], Some(5)), None);
            assert_eq!(guard.finish(4).unwrap().observed_cached_tokens, Some(2));
        }
        _ => panic!("a response is watched"),
    }
}

#[test]
fn the_estimator_reports_losses() {
    let mut estimator = SolEstimator::new(KvCacheSolCore::new(100, 100, 100));
    let mut event = start_event("a", 10, vec![11], 4);
    event.domain.block_size = 0;
    let invalid = estimator.receive(1, event);
    assert_eq!(invalid.loss, Some(EstimatorLoss::InvalidDomain));
    assert_eq!(EstimatorLoss::InvalidDomain.as_label(), "invalid_domain");
    assert_eq!(invalid.event_type, None);
    assert!(invalid.gauges.degraded);

    let mut gap = start_event("b", 20, vec![11], 4);
    gap.producer_sequence = 3;
    let report = estimator.receive(1, gap);
    assert_eq!(report.loss, Some(EstimatorLoss::SequenceGap));
    assert_eq!(EstimatorLoss::SequenceGap.as_label(), "sequence_gap");
    assert_eq!(report.gauges.cache_blocks, 1);

    let gauges = estimator.tick(200);
    assert_eq!(gauges.cache_blocks, 0);
    assert!(!gauges.degraded);
    let undecodable = estimator.undecodable(200);
    assert_eq!(undecodable.loss, Some(EstimatorLoss::DecodeError));
    assert_eq!(EstimatorLoss::DecodeError.as_label(), "decode_error");
    assert!(undecodable.gauges.degraded);
    // The producer was silent for a horizon: it may start again from zero.
    let fresh = estimator.receive(1, start_event("c", 210, vec![11], 4));
    assert_eq!(fresh.loss, None);
}

#[test]
fn finished_requests_are_compared_with_observations() {
    let mut estimator = SolEstimator::new(KvCacheSolCore::new(1_000, 100, 100));
    estimator.receive(1, start_event("a", 10, vec![11, 12], 7));
    let mut again = start_event("b", 11, vec![11, 12], 7);
    again.producer_sequence = 1;
    estimator.receive(1, again);
    let mut end = end_event("b", 12, 2);
    end.kind = KvCacheSolEventKind::RequestEnd {
        continuation_sequence_hashes: BTreeMap::new(),
        observed_cached_tokens: Some(100),
    };
    match estimator.receive(1, end).counts {
        SolCounts::Compared { prompt_tokens, hit_tokens, cached_tokens, .. } => {
            assert_eq!(prompt_tokens, 7);
            assert_eq!(hit_tokens, 7);
            assert_eq!(cached_tokens, 7);
        }
        _ => panic!("an observed end is compared"),
    }
}

#[test]
fn estimator_arguments_are_checked() {
    assert_eq!(check_estimator_arguments(1, 1, 1), Ok(()));
    let horizon = check_estimator_arguments(0, 0, 1).unwrap_err();
    assert_eq!(horizon, EstimatorArgumentError::ZeroHorizon);
    assert_eq!(horizon.message(), "horizon_secs must be greater than zero");
    let capacity = check_estimator_arguments(1, 1, 0).unwrap_err();
    assert_eq!(capacity, EstimatorArgumentError::ZeroCapacity);
    assert_eq!(
        capacity.message(),
        "max_cache_blocks and max_pending_requests must be greater than zero"
    );
    assert!(check_estimator_arguments(1, 0, 1).is_err());
}

#[test]
fn a_start_carries_the_multimodal_objects_with_their_offsets() {
    let first = BlockExtraInfo {
        mm_objects: vec![BlockMmObjectInfo { mm_hash: 42, offsets: vec![(0, 2), (3, 4)] }],
    };
    let next = BlockExtraInfo {
        mm_objects: vec![BlockMmObjectInfo { mm_hash: 43, offsets: vec![(1, 2)] }],
    };
    let infos = vec![Some(first), Some(next.clone())];
    let mut asked = request(vec![1, 2, 3, 4, 5, 6]);
    asked.block_mm_infos = Some(infos.clone());
    let producer =
        KvCacheSolProducer::configure(Some("on"), None, 4, false, false).unwrap().unwrap();
    let start = producer.prepare_start("r".to_string(), &asked, 5).unwrap();
    assert_eq!(start.next_block_mm_info, Some(next));
    match start.prompt {
        PromptHashInput::Tokens { block_mm_infos, .. } => assert_eq!(block_mm_infos, Some(infos)),
        PromptHashInput::Router { .. } => panic!("the tokens must be kept"),
    }
}
