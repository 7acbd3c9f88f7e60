use kv_router::cache_coverage::{RawCacheCandidate, RawCacheCoverage, RawCacheObservation};
use kv_router::request_replay::{
    input_sequence_hashes, replay_metrics, OutputSequenceHashCapture, RequestReplayMetrics,
};
use kv_router::request_trace::{
    agent_request_end_record, request_end_record, request_payload_record, tool_record_fate,
    validate_tool_record, Float64, RequestTraceEventSource, RequestTraceEventType,
    RequestTraceMetrics, RequestTraceRecord, RequestTraceSchema, RequestTraceToolEvent,
    ToolRecordError, ToolRecordFate, TrackedRequest,
};

type Record = RequestTraceRecord<String, String, String>;

fn float(value: f64) -> Float64 {
    Float64(value.to_bits())
}

#[test]
fn shared_prefix_has_same_leading_sequence_hashes() {
    let prefix = vec![1_u32, 2, 3, 4];
    let extended = vec![1_u32, 2, 3, 4, 5, 6];

    let prefix_hashes = input_sequence_hashes(&prefix, 2);
    let extended_hashes = input_sequence_hashes(&extended, 2);

    assert_eq!(prefix_hashes.len(), 2);
    assert_eq!(extended_hashes.len(), 3);
    assert_eq!(extended_hashes[..2], prefix_hashes[..]);
}

#[test]
fn same_tokens_at_different_positions_have_different_sequence_hashes() {
    let hashes = input_sequence_hashes(&[1_u32, 2, 1, 2], 2);

    assert_eq!(hashes.len(), 2);
    assert_ne!(hashes[0], hashes[1]);
}

#[test]
fn empty_input_has_empty_sequence_hashes() {
    assert!(input_sequence_hashes(&[], 64).is_empty());
}

#[test]
fn long_input_hashes_cover_every_token() {
    let tokens = (0..131_072_u32).collect::<Vec<_>>();
    let hashes = input_sequence_hashes(&tokens, 64);

    assert_eq!(hashes.len(), tokens.len() / 64);
}

#[test]
fn output_hashes_extend_the_input_chain_across_a_partial_block() {
    let input = vec![1_u32, 2, 3];
    let replay = replay_metrics(&input, 2).unwrap();
    let mut capture = OutputSequenceHashCapture::new(&input, &replay);
    capture.record(&[4, 5, 6]);

    let mut expected = input;
    expected.extend([4, 5, 6]);
    let expected = input_sequence_hashes(&expected, 2);
    assert_eq!(capture.sequence_hashes(), expected[1..]);
}

#[test]
fn output_hashes_keep_no_raw_tokens_after_a_full_block() {
    let input = vec![1_u32, 2];
    let replay = replay_metrics(&input, 2).unwrap();
    let mut capture = OutputSequenceHashCapture::new(&input, &replay);
    capture.record(&[3, 4]);

    assert_eq!(capture.pending_tokens(), 0);
    assert_eq!(capture.sequence_hashes().len(), 1);
}

#[test]
fn output_hashes_do_not_depend_on_backend_chunk_boundaries() {
    let input = vec![1_u32, 2, 3];
    let replay = replay_metrics(&input, 2).unwrap();
    let mut one_chunk = OutputSequenceHashCapture::new(&input, &replay);
    one_chunk.record(&[4, 5, 6, 7]);

    let mut many_chunks = OutputSequenceHashCapture::new(&input, &replay);
    many_chunks.record(&[4]);
    many_chunks.record(&[5, 6]);
    many_chunks.record(&[7]);

    assert_eq!(one_chunk.sequence_hashes(), many_chunks.sequence_hashes());
}

#[test]
fn replay_metrics_need_a_block_size() {
    assert!(replay_metrics(&[1, 2, 3], 0).is_none());
    let metrics = replay_metrics(&[1, 2, 3], 2).unwrap();
    assert_eq!(metrics.trace_block_size, 2);
    assert_eq!(metrics.input_length, 3);
    assert_eq!(metrics.input_sequence_hashes.len(), 2);
    assert!(metrics.output_sequence_hashes.is_empty());
    // An output that has not begun has no hashes, whatever the input left open.
    let capture = OutputSequenceHashCapture::new(&[1, 2, 3], &metrics);
    assert_eq!(capture.pending_tokens(), 1);
    assert!(capture.sequence_hashes().is_empty());
}

fn replay(block: usize, length: usize, hashes: Vec<u64>) -> RequestReplayMetrics {
    RequestReplayMetrics {
        trace_block_size: block,
        input_length: length,
        input_sequence_hashes: hashes,
        output_sequence_hashes: vec![],
    }
}

fn followed_request(isl: usize, cached: usize, backend: Option<usize>) -> TrackedRequest<String> {
    TrackedRequest {
        request_received_ms: 1_000,
        total_time_ms: None,
        prefill_wait_time_ms: None,
        prefill_time_ms: None,
        ttft_ms: None,
        avg_itl_ms: None,
        kv_hit_rate: None,
        kv_transfer_estimated_latency_ms: None,
        router_queue_depth: None,
        isl_tokens: Some(isl),
        osl_tokens: 0,
        cached_tokens: Some(cached),
        backend_cached_tokens: backend,
        worker: None,
        routing_decision: None,
    }
}

#[test]
fn emits_tracker_timing_lengths_and_hashes() {
    let tracker = TrackedRequest {
        osl_tokens: 7,
        kv_hit_rate: Some(float(0.5)),
        total_time_ms: Some(float(12.5)),
        ..followed_request(8, 4, Some(4))
    };
    let record: Record =
        request_end_record("req-1".to_string(), tracker, replay(2, 3, vec![11, 22]), 5_000);
    let request = record.request.as_ref().expect("request payload");
    assert_eq!(request.request_id, "req-1");
    assert_eq!(request.input_tokens, Some(8));
    assert_eq!(request.output_tokens, Some(7));
    assert_eq!(request.cached_tokens, Some(4));
    assert_eq!(request.backend_actual_cached_tokens, Some(4));
    assert_eq!(request.kv_hit_rate, Some(float(0.5)));
    assert_eq!(request.request_received_ms, Some(1_000));
    assert!(
        record.event_time_unix_ms
            >= request.request_received_ms.expect("request received timestamp")
    );
    assert_eq!(record.event_time_unix_ms, 1_013);
    assert_eq!(request.replay.as_ref().expect("replay metrics").input_length, 3);
}

fn emitted_cached_tokens(
    request_id: &str,
    predicted_cached_tokens: usize,
    backend_cached_tokens: Option<usize>,
) -> Option<u64> {
    let tracker = followed_request(24_576, predicted_cached_tokens, backend_cached_tokens);
    let record: Record = request_end_record(
        request_id.to_string(),
        tracker,
        replay(12_288, 24_576, vec![11, 22]),
        5_000,
    );
    assert_eq!(record.event_time_unix_ms, 5_000);
    let request = record.request.unwrap();
    assert_eq!(request.cached_tokens, Some(predicted_cached_tokens as u64));
    request.backend_actual_cached_tokens
}

#[test]
fn request_end_uses_backend_actual_instead_of_router_prediction() {
    assert_eq!(emitted_cached_tokens("actual-partial", 24_576, Some(12_288)), Some(12_288));
}

#[test]
fn request_end_preserves_backend_actual_zero() {
    assert_eq!(emitted_cached_tokens("actual-zero", 24_576, Some(0)), Some(0));
}

#[test]
fn request_end_keeps_missing_backend_actual_unknown() {
    assert_eq!(emitted_cached_tokens("actual-missing", 24_576, None), None);
}

fn traced(
    request_id: &str,
    cached: usize,
    backend: Option<usize>,
    raw: RawCacheCoverage,
) -> RequestTraceMetrics<RawCacheCoverage> {
    let plain = followed_request(24_704, cached, backend);
    let tracker = TrackedRequest {
        request_received_ms: plain.request_received_ms,
        total_time_ms: plain.total_time_ms,
        prefill_wait_time_ms: plain.prefill_wait_time_ms,
        prefill_time_ms: plain.prefill_time_ms,
        ttft_ms: plain.ttft_ms,
        avg_itl_ms: plain.avg_itl_ms,
        kv_hit_rate: plain.kv_hit_rate,
        kv_transfer_estimated_latency_ms: plain.kv_transfer_estimated_latency_ms,
        router_queue_depth: plain.router_queue_depth,
        isl_tokens: plain.isl_tokens,
        osl_tokens: plain.osl_tokens,
        cached_tokens: plain.cached_tokens,
        backend_cached_tokens: plain.backend_cached_tokens,
        worker: plain.worker,
        routing_decision: Some(raw),
    };
    let record: RequestTraceRecord<String, String, RawCacheCoverage> = request_end_record(
        request_id.to_string(),
        tracker,
        replay(12_288, 24_704, vec![11, 22, 33]),
        5_000,
    );
    record.request.unwrap()
}

#[test]
fn request_end_preserves_complete_raw_coverage_and_backend_actual_separately() {
    let selected = RawCacheCandidate {
        worker_id: u64::MAX,
        dp_rank: u32::MAX,
        hbm_prefix_tokens: 12_288,
        cpu_extension_tokens: 12_288,
        total_tokens: 24_576,
    };
    let complete = RawCacheCoverage {
        schema: "dynamo.router.raw_cache_coverage.v1".into(),
        basis: "router_index".into(),
        observation: RawCacheObservation::Complete,
        input_tokens: 24_704,
        resident: Some(RawCacheCandidate {
            total_tokens: 24_704,
            hbm_prefix_tokens: 24_704,
            cpu_extension_tokens: 0,
            ..selected
        }),
        eligible: Some(selected),
        selected: Some(selected),
        overload_gap_tokens: Some(128),
        selection_gap_tokens: Some(0),
        candidate_diagnostics: None,
    };
    let request = traced("raw-complete", 24_576, Some(24_704), complete);
    assert_eq!(request.backend_actual_cached_tokens, Some(24_704));
    let raw = request.routing_decision.unwrap();
    assert_eq!(raw.schema, "dynamo.router.raw_cache_coverage.v1");
    assert_eq!(raw.input_tokens, 24_704);
    assert_eq!(raw.selected.unwrap().worker_id, u64::MAX);
    assert_eq!(raw.selected.unwrap().cpu_extension_tokens, 12_288);
    assert_eq!(raw.overload_gap_tokens, Some(128));

    let missing = RawCacheCoverage {
        schema: "dynamo.router.raw_cache_coverage.v1".into(),
        basis: "router_index".into(),
        observation: RawCacheObservation::MissingIndex,
        input_tokens: 24_704,
        resident: None,
        eligible: None,
        selected: None,
        overload_gap_tokens: None,
        selection_gap_tokens: None,
        candidate_diagnostics: None,
    };
    let request = traced("raw-missing", 0, None, missing);
    let missing_raw = request.routing_decision.unwrap();
    assert_eq!(missing_raw.observation.as_str(), "missing_index");
    assert!(missing_raw.resident.is_none());
    assert!(missing_raw.overload_gap_tokens.is_none());
}

fn tool_record() -> Record {
    RequestTraceRecord {
        schema: RequestTraceSchema::V1,
        event_type: RequestTraceEventType::ToolEnd,
        event_time_unix_ms: 2_000,
        event_source: Some(RequestTraceEventSource::Harness),
        agent_context: Some("root".to_string()),
        request: None,
        tool: Some(RequestTraceToolEvent {
            tool_call_id: "tool-1".to_string(),
            tool_class: "web_search".to_string(),
            started_at_unix_ms: None,
            ended_at_unix_ms: None,
            duration_ms: Some(float(f64::NAN)),
            status: None,
            output_bytes: None,
            output_tokens: None,
            tool_name_hash: None,
            error_type: None,
        }),
        payload: None,
    }
}

#[test]
fn rejects_non_finite_tool_duration() {
    let mut record = tool_record();

    let err = validate_tool_record(&record).expect_err("NaN duration should fail validation");
    assert!(err.message().contains("tool duration_ms must be finite"));

    record.tool.as_mut().expect("tool payload").duration_ms = Some(float(f64::INFINITY));
    let err = validate_tool_record(&record).expect_err("infinite duration should fail validation");
    assert!(err.message().contains("tool duration_ms must be finite"));
}

fn good_tool_record() -> Record {
    let mut record = tool_record();
    record.tool.as_mut().unwrap().duration_ms = Some(float(3.0));
    record
}

#[test]
fn every_tool_record_fault_has_its_error() {
    assert_eq!(validate_tool_record(&good_tool_record()), Ok(()));
    let schema = Record { schema: RequestTraceSchema::Unsupported, ..good_tool_record() };
    assert_eq!(
        validate_tool_record(&schema),
        Err(ToolRecordError::Schema(RequestTraceSchema::Unsupported))
    );
    let source = Record { event_source: None, ..good_tool_record() };
    let error = validate_tool_record(&source).unwrap_err();
    assert_eq!(error, ToolRecordError::Source(None));
    assert_eq!(
        error.message(),
        "request trace tool records must be harness-originated, got None"
    );
    let kind = Record { event_type: RequestTraceEventType::RequestEnd, ..good_tool_record() };
    assert_eq!(
        validate_tool_record(&kind),
        Err(ToolRecordError::EventType(RequestTraceEventType::RequestEnd))
    );
    let context = Record { agent_context: None, ..good_tool_record() };
    assert_eq!(validate_tool_record(&context), Err(ToolRecordError::MissingAgentContext));
    let tool = Record { tool: None, ..good_tool_record() };
    assert_eq!(validate_tool_record(&tool), Err(ToolRecordError::MissingTool));
    let with_request: Record = request_end_record(
        "r".to_string(),
        followed_request(1, 0, None),
        replay(2, 1, vec![]),
        0,
    );
    let request = Record { request: with_request.request, ..good_tool_record() };
    assert_eq!(validate_tool_record(&request), Err(ToolRecordError::HasRequest));
    let payload = Record { payload: Some("{}".to_string()), ..good_tool_record() };
    assert_eq!(validate_tool_record(&payload), Err(ToolRecordError::HasPayload));
}

#[test]
fn tool_records_are_published_only_when_captured_and_valid() {
    assert_eq!(tool_record_fate(false, true, &good_tool_record()), ToolRecordFate::Ignored);
    assert_eq!(tool_record_fate(true, false, &good_tool_record()), ToolRecordFate::Ignored);
    assert_eq!(tool_record_fate(true, true, &good_tool_record()), ToolRecordFate::Published);
    assert_eq!(
        tool_record_fate(true, true, &tool_record()),
        ToolRecordFate::Dropped(ToolRecordError::Duration)
    );
}

#[test]
fn recorded_measurements_are_finite() {
    let tracker = TrackedRequest {
        ttft_ms: Some(float(f64::NAN)),
        avg_itl_ms: Some(float(1.5)),
        kv_hit_rate: Some(float(f64::NEG_INFINITY)),
        ..followed_request(8, 4, None)
    };
    let record: Record =
        request_end_record("req".to_string(), tracker, replay(2, 3, vec![]), 5_000);
    let request = record.request.unwrap();
    assert_eq!(request.ttft_ms, None);
    assert_eq!(request.avg_itl_ms, Some(float(1.5)));
    assert_eq!(request.kv_hit_rate, None);
}

#[test]
fn agent_and_payload_records_name_their_source() {
    let base: Record = request_end_record(
        "req".to_string(),
        followed_request(8, 4, None),
        replay(2, 3, vec![]),
        5_000,
    );
    let record: Record =
        agent_request_end_record("context".to_string(), base.request.unwrap(), 6_000);
    assert_eq!(record.event_source, Some(RequestTraceEventSource::Dynamo));
    assert_eq!(record.agent_context.as_deref(), Some("context"));
    let record: Record = request_payload_record("{}".to_string(), 7_000);
    assert_eq!(record.event_type, RequestTraceEventType::RequestPayload);
    assert_eq!(record.event_time_unix_ms, 7_000);
    assert_eq!(record.payload.as_deref(), Some("{}"));
}

#[test]
fn rounding_agrees_with_the_machine() {
    for value in [
        0.0, 0.25, 0.5, 0.75, 1.0, 1.5, 2.5, 12.499999, 1e3, 4503599627370497.5, 1e18, 1e19, 1e20,
        1e300, -1.0, -0.4, 1e-320, f64::INFINITY, f64::NEG_INFINITY, f64::NAN,
    ] {
        assert_eq!(float(value).round_to_u64(), value.round() as u64, "{value}");
        assert_eq!(float(value).is_finite(), value.is_finite());
    }
}
