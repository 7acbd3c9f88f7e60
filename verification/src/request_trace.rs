//! Records of the request trace: what they carry, and which of them are
//! published.

use crate::request_replay::RequestReplayMetrics;
use vstd::arithmetic::power2::*;
use vstd::prelude::*;
use vstd::string::*;

verus! {

/// A double-precision number, by its bits.
#[derive(Debug, Clone, Copy, PartialEq, Eq, Structural)]
pub struct Float64(pub u64);

impl Float64 {
    pub open spec fn negative(self) -> bool {
        self.0 >= 0x8000_0000_0000_0000
    }

    /// The biased exponent.
    pub open spec fn exponent(self) -> int {
        (self.0 as int / 0x10_0000_0000_0000) % 0x800
    }

    /// The fraction, without the implicit leading bit.
    pub open spec fn fraction(self) -> int {
        self.0 as int % 0x10_0000_0000_0000
    }

    pub open spec fn finite(self) -> bool {
        self.exponent() != 0x7ff
    }

    /// The number rounded to the nearest whole one, halves away from zero,
    /// within the range of `u64`. What is no number counts as zero.
    pub open spec fn rounded(self) -> int {
        let significand = 0x10_0000_0000_0000 + self.fraction();
        let shift = self.exponent() - 1075;
        if self.negative() {
            0
        } else if !self.finite() {
            if self.fraction() == 0 {
                u64::MAX as int
            } else {
                0
            }
        } else if self.exponent() == 0 {
            0
        } else if shift >= 12 {
            u64::MAX as int
        } else if shift >= 0 {
            significand * pow2(shift as nat)
        } else if shift <= -54 {
            0
        } else {
            (significand + pow2((-shift - 1) as nat)) / pow2((-shift) as nat) as int
        }
    }

    /// Not a number.
    pub open spec fn nan(self) -> bool {
        !self.finite() && self.fraction() != 0
    }

    /// Where the number stands in the total order of all of them.
    pub open spec fn rank(self) -> int {
        if self.negative() {
            0x7fff_ffff_ffff_ffff - self.0
        } else {
            self.0 as int
        }
    }

    /// Either of the two zeros.
    pub open spec fn zero(self) -> bool {
        self.0 == 0 || self.0 == 0x8000_0000_0000_0000
    }

    /// Equal as numbers: the two zeros are, and what is no number equals nothing.
    pub open spec fn equals(self, other: Float64) -> bool {
        !self.nan() && (self.0 == other.0 || (self.zero() && other.zero()))
    }

    /// Greater as a number.
    pub open spec fn exceeds(self, other: Float64) -> bool {
        !self.nan() && !other.nan() && !self.equals(other) && self.rank() > other.rank()
    }

    pub fn is_nan(self) -> (yes: bool)
        ensures
            yes == self.nan(),
    {
        (self.0 / 0x10_0000_0000_0000) % 0x800 == 0x7ff && self.0 % 0x10_0000_0000_0000 != 0
    }

    pub fn is_equal(self, other: Float64) -> (yes: bool)
        ensures
            yes == self.equals(other),
    {
        !self.is_nan() && (self.0 == other.0 || ((self.0 == 0 || self.0 == 0x8000_0000_0000_0000)
            && (other.0 == 0 || other.0 == 0x8000_0000_0000_0000)))
    }

    /// Whether the number comes later in the total order.
    pub fn ranks_above(self, other: Float64) -> (yes: bool)
        ensures
            yes == (self.rank() > other.rank()),
    {
        let negative: bool = self.0 >= 0x8000_0000_0000_0000;
        let other_negative: bool = other.0 >= 0x8000_0000_0000_0000;
        if negative && other_negative {
            self.0 < other.0
        } else if negative || other_negative {
            other_negative
        } else {
            self.0 > other.0
        }
    }

    pub fn is_above(self, other: Float64) -> (yes: bool)
        ensures
            yes == self.exceeds(other),
    {
        !self.is_nan() && !other.is_nan() && !self.is_equal(other) && self.ranks_above(other)
    }

    pub fn is_finite(self) -> (yes: bool)
        ensures
            yes == self.finite(),
    {
        (self.0 / 0x10_0000_0000_0000) % 0x800 != 0x7ff
    }

    /// The number as whole milliseconds.
    pub fn round_to_u64(self) -> (n: u64)
        ensures
            n == self.rounded(),
    {
        if self.0 >= 0x8000_0000_0000_0000 {
            return 0;
        }
        let exponent: u64 = (self.0 / 0x10_0000_0000_0000) % 0x800;
        let fraction: u64 = self.0 % 0x10_0000_0000_0000;
        if exponent == 0x7ff {
            return if fraction == 0 {
                u64::MAX
            } else {
                0
            };
        }
        if exponent == 0 || exponent <= 1021 {
            return 0;
        }
        if exponent >= 1087 {
            return u64::MAX;
        }
        let significand: u64 = 0x10_0000_0000_0000 + fraction;
        if exponent >= 1075 {
            let shift: u64 = exponent - 1075;
            let factor: u64 = power_of_two(shift);
            proof {
                lemma_pow2_strictly_increases_or_equal(shift as nat, 11);
                assert(pow2(11) == 2048) by {
                    lemma2_to64();
                }
                assert(significand * factor <= 0x1f_ffff_ffff_ffff * 2048) by (nonlinear_arith)
                    requires
                        0 <= significand <= 0x1f_ffff_ffff_ffff,
                        0 <= factor <= 2048,
                ;
            }
            significand * factor
        } else {
            let shift: u64 = 1075 - exponent;
            let half: u64 = power_of_two(shift - 1);
            let whole: u64 = power_of_two(shift);
            proof {
                lemma_pow2_pos(shift as nat);
                lemma_pow2_strictly_increases_or_equal((shift - 1) as nat, 52);
                assert(pow2(52) == 0x10_0000_0000_0000) by {
                    lemma2_to64_rest();
                }
            }
            (significand + half) / whole
        }
    }
}

proof fn lemma_pow2_strictly_increases_or_equal(a: nat, b: nat)
    requires
        a <= b,
    ensures
        pow2(a) <= pow2(b),
{
    if a < b {
        lemma_pow2_strictly_increases(a, b);
    }
}

fn power_of_two(n: u64) -> (p: u64)
    requires
        n <= 63,
    ensures
        p == pow2(n as nat),
{
    let mut p: u64 = 1;
    let mut i: u64 = 0;
    proof {
        lemma2_to64();
    }
    while i < n
        invariant
            i <= n <= 63,
            p == pow2(i as nat),
        decreases n - i,
    {
        proof {
            lemma_pow2_unfold((i + 1) as nat);
            lemma_pow2_strictly_increases_or_equal((i + 1) as nat, 63);
            assert(pow2(63) == 0x8000_0000_0000_0000) by {
                lemma2_to64_rest();
            }
        }
        p = p * 2;
        i = i + 1;
    }
    p
}

/// The version of a record's layout.
#[derive(Debug, Clone, Copy, PartialEq, Eq, Structural)]
pub enum RequestTraceSchema {
    V1,
    Unsupported,
}

/// What a record is about.
#[derive(Debug, Clone, Copy, PartialEq, Eq, Structural)]
pub enum RequestTraceEventType {
    RequestEnd,
    RequestPayload,
    ToolStart,
    ToolEnd,
    ToolError,
}

impl RequestTraceEventType {
    pub open spec fn tool_event(self) -> bool {
        self is ToolStart || self is ToolEnd || self is ToolError
    }

    pub fn is_tool_event(self) -> (yes: bool)
        ensures
            yes == self.tool_event(),
    {
        match self {
            RequestTraceEventType::ToolStart | RequestTraceEventType::ToolEnd
            | RequestTraceEventType::ToolError => true,
            _ => false,
        }
    }
}

/// Who made a record.
#[derive(Debug, Clone, Copy, PartialEq, Eq, Structural)]
pub enum RequestTraceEventSource {
    Dynamo,
    Harness,
}

/// Which workers served a request.
#[derive(Debug, Clone, Copy, PartialEq, Eq, Structural)]
pub struct RequestTraceWorkerInfo {
    pub prefill_worker_id: Option<u64>,
    pub prefill_dp_rank: Option<u32>,
    pub decode_worker_id: Option<u64>,
    pub decode_dp_rank: Option<u32>,
}

/// The measurements of a request, with the routing decision `D`.
#[derive(Debug)]
pub struct RequestTraceMetrics<D> {
    pub request_id: String,
    pub x_request_id: Option<String>,
    pub model: Option<String>,
    pub input_tokens: Option<u64>,
    pub output_tokens: Option<u64>,
    pub cached_tokens: Option<u64>,
    pub backend_actual_cached_tokens: Option<u64>,
    pub request_received_ms: Option<u64>,
    pub prefill_wait_time_ms: Option<Float64>,
    pub prefill_time_ms: Option<Float64>,
    pub ttft_ms: Option<Float64>,
    pub total_time_ms: Option<Float64>,
    pub avg_itl_ms: Option<Float64>,
    pub kv_hit_rate: Option<Float64>,
    pub kv_transfer_estimated_latency_ms: Option<Float64>,
    pub queue_depth: Option<u64>,
    pub worker: Option<RequestTraceWorkerInfo>,
    pub replay: Option<RequestReplayMetrics>,
    pub finish_reason_metadata: Option<String>,
    pub routing_decision: Option<D>,
}

/// A tool call of an agent.
#[derive(Debug)]
pub struct RequestTraceToolEvent {
    pub tool_call_id: String,
    pub tool_class: String,
    pub started_at_unix_ms: Option<u64>,
    pub ended_at_unix_ms: Option<u64>,
    pub duration_ms: Option<Float64>,
    pub status: Option<String>,
    pub output_bytes: Option<u64>,
    pub output_tokens: Option<u64>,
    pub tool_name_hash: Option<String>,
    pub error_type: Option<String>,
}

/// A record of the trace, with the agent context `A`, the payload `P` and the
/// routing decision `D`.
#[derive(Debug)]
pub struct RequestTraceRecord<A, P, D> {
    pub schema: RequestTraceSchema,
    pub event_type: RequestTraceEventType,
    pub event_time_unix_ms: u64,
    pub event_source: Option<RequestTraceEventSource>,
    pub agent_context: Option<A>,
    pub request: Option<RequestTraceMetrics<D>>,
    pub tool: Option<RequestTraceToolEvent>,
    pub payload: Option<P>,
}

/// A measurement, if it is a finite number.
pub open spec fn sane(value: Option<Float64>) -> Option<Float64> {
    if value is Some && value->Some_0.finite() {
        value
    } else {
        None
    }
}

fn sanitize_finite(value: Option<Float64>) -> (kept: Option<Float64>)
    ensures
        kept == sane(value),
{
    match value {
        Some(number) => if number.is_finite() {
            value
        } else {
            None
        },
        None => None,
    }
}

/// The measurements without those that are no finite numbers.
pub open spec fn sanitized<D>(request: RequestTraceMetrics<D>) -> RequestTraceMetrics<D> {
    RequestTraceMetrics {
        prefill_wait_time_ms: sane(request.prefill_wait_time_ms),
        prefill_time_ms: sane(request.prefill_time_ms),
        ttft_ms: sane(request.ttft_ms),
        total_time_ms: sane(request.total_time_ms),
        avg_itl_ms: sane(request.avg_itl_ms),
        kv_hit_rate: sane(request.kv_hit_rate),
        kv_transfer_estimated_latency_ms: sane(request.kv_transfer_estimated_latency_ms),
        ..request
    }
}

fn sanitize_request<D>(request: RequestTraceMetrics<D>) -> (kept: RequestTraceMetrics<D>)
    ensures
        kept == sanitized(request),
{
    let mut kept = request;
    kept.prefill_wait_time_ms = sanitize_finite(kept.prefill_wait_time_ms);
    kept.prefill_time_ms = sanitize_finite(kept.prefill_time_ms);
    kept.ttft_ms = sanitize_finite(kept.ttft_ms);
    kept.total_time_ms = sanitize_finite(kept.total_time_ms);
    kept.avg_itl_ms = sanitize_finite(kept.avg_itl_ms);
    kept.kv_hit_rate = sanitize_finite(kept.kv_hit_rate);
    kept.kv_transfer_estimated_latency_ms = sanitize_finite(
        kept.kv_transfer_estimated_latency_ms,
    );
    kept
}

/// The time at which a request that took `elapsed` ended.
pub open spec fn end_time(received_ms: u64, elapsed: Float64) -> u64 {
    if received_ms + elapsed.rounded() <= u64::MAX {
        (received_ms + elapsed.rounded()) as u64
    } else {
        u64::MAX
    }
}

fn end_time_of(received_ms: u64, elapsed: Float64) -> (at: u64)
    ensures
        at == end_time(received_ms, elapsed),
{
    let ms: u64 = elapsed.round_to_u64();
    if ms <= u64::MAX - received_ms {
        received_ms + ms
    } else {
        u64::MAX
    }
}

/// What a tracker has measured of a request.
#[derive(Debug)]
pub struct TrackedRequest<D> {
    pub request_received_ms: u64,
    pub total_time_ms: Option<Float64>,
    pub prefill_wait_time_ms: Option<Float64>,
    pub prefill_time_ms: Option<Float64>,
    pub ttft_ms: Option<Float64>,
    pub avg_itl_ms: Option<Float64>,
    pub kv_hit_rate: Option<Float64>,
    pub kv_transfer_estimated_latency_ms: Option<Float64>,
    pub router_queue_depth: Option<usize>,
    pub isl_tokens: Option<usize>,
    pub osl_tokens: u64,
    pub cached_tokens: Option<usize>,
    pub backend_cached_tokens: Option<usize>,
    pub worker: Option<RequestTraceWorkerInfo>,
    pub routing_decision: Option<D>,
}

/// A count as it is recorded.
pub open spec fn recorded(count: Option<usize>) -> Option<u64> {
    match count {
        Some(n) => Some(n as u64),
        None => None,
    }
}

fn record_count(count: Option<usize>) -> (n: Option<u64>)
    ensures
        n == recorded(count),
{
    match count {
        Some(n) => Some(n as u64),
        None => None,
    }
}

/// The record of the end of a request. What the router predicted and what the
/// backend reported as cached stay apart, and what the backend did not report
/// stays unknown.
pub fn request_end_record<A, P, D>(
    request_id: String,
    tracker: TrackedRequest<D>,
    replay: RequestReplayMetrics,
    now_ms: u64,
) -> (record: RequestTraceRecord<A, P, D>)
    ensures
        record.schema == RequestTraceSchema::V1,
        record.event_type == RequestTraceEventType::RequestEnd,
        record.event_time_unix_ms == (match tracker.total_time_ms {
            Some(elapsed) => end_time(tracker.request_received_ms, elapsed),
            None => now_ms,
        }),
        record.event_source is None,
        record.agent_context is None,
        record.tool is None,
        record.payload is None,
        record.request == Some(
            sanitized(
                RequestTraceMetrics {
                    request_id,
                    x_request_id: None,
                    model: None,
                    input_tokens: recorded(tracker.isl_tokens),
                    output_tokens: Some(tracker.osl_tokens),
                    cached_tokens: recorded(tracker.cached_tokens),
                    backend_actual_cached_tokens: recorded(tracker.backend_cached_tokens),
                    request_received_ms: Some(tracker.request_received_ms),
                    prefill_wait_time_ms: tracker.prefill_wait_time_ms,
                    prefill_time_ms: tracker.prefill_time_ms,
                    ttft_ms: tracker.ttft_ms,
                    total_time_ms: tracker.total_time_ms,
                    avg_itl_ms: tracker.avg_itl_ms,
                    kv_hit_rate: tracker.kv_hit_rate,
                    kv_transfer_estimated_latency_ms: tracker.kv_transfer_estimated_latency_ms,
                    queue_depth: recorded(tracker.router_queue_depth),
                    worker: tracker.worker,
                    replay: Some(replay),
                    finish_reason_metadata: None,
                    routing_decision: tracker.routing_decision,
                },
            ),
        ),
{
    let event_time_unix_ms: u64 = match tracker.total_time_ms {
        Some(elapsed) => end_time_of(tracker.request_received_ms, elapsed),
        None => now_ms,
    };
    let request = RequestTraceMetrics {
        request_id,
        x_request_id: None,
        model: None,
        input_tokens: record_count(tracker.isl_tokens),
        output_tokens: Some(tracker.osl_tokens),
        cached_tokens: record_count(tracker.cached_tokens),
        backend_actual_cached_tokens: record_count(tracker.backend_cached_tokens),
        request_received_ms: Some(tracker.request_received_ms),
        prefill_wait_time_ms: tracker.prefill_wait_time_ms,
        prefill_time_ms: tracker.prefill_time_ms,
        ttft_ms: tracker.ttft_ms,
        total_time_ms: tracker.total_time_ms,
        avg_itl_ms: tracker.avg_itl_ms,
        kv_hit_rate: tracker.kv_hit_rate,
        kv_transfer_estimated_latency_ms: tracker.kv_transfer_estimated_latency_ms,
        queue_depth: record_count(tracker.router_queue_depth),
        worker: tracker.worker,
        replay: Some(replay),
        finish_reason_metadata: None,
        routing_decision: tracker.routing_decision,
    };
    RequestTraceRecord {
        schema: RequestTraceSchema::V1,
        event_type: RequestTraceEventType::RequestEnd,
        event_time_unix_ms,
        event_source: None,
        agent_context: None,
        request: Some(sanitize_request(request)),
        tool: None,
        payload: None,
    }
}

/// When a request ended, by its own measurements; `now_ms` where it has none.
pub open spec fn event_time<D>(request: RequestTraceMetrics<D>, now_ms: u64) -> u64 {
    match request.request_received_ms {
        Some(received) => match request.total_time_ms {
            Some(elapsed) => end_time(received, elapsed),
            None => received,
        },
        None => now_ms,
    }
}

/// The record of the end of an agent's request.
pub fn agent_request_end_record<A, P, D>(
    agent_context: A,
    request: RequestTraceMetrics<D>,
    now_ms: u64,
) -> (record: RequestTraceRecord<A, P, D>)
    ensures
        record.schema == RequestTraceSchema::V1,
        record.event_type == RequestTraceEventType::RequestEnd,
        record.event_time_unix_ms == event_time(sanitized(request), now_ms),
        record.event_source == Some(RequestTraceEventSource::Dynamo),
        record.agent_context == Some(agent_context),
        record.request == Some(sanitized(request)),
        record.tool is None,
        record.payload is None,
{
    let request = sanitize_request(request);
    let event_time_unix_ms: u64 = match request.request_received_ms {
        Some(received) => match request.total_time_ms {
            Some(elapsed) => end_time_of(received, elapsed),
            None => received,
        },
        None => now_ms,
    };
    RequestTraceRecord {
        schema: RequestTraceSchema::V1,
        event_type: RequestTraceEventType::RequestEnd,
        event_time_unix_ms,
        event_source: Some(RequestTraceEventSource::Dynamo),
        agent_context: Some(agent_context),
        request: Some(request),
        tool: None,
        payload: None,
    }
}

/// The record of a request's payload.
pub fn request_payload_record<A, P, D>(payload: P, event_time_unix_ms: u64) -> (record:
    RequestTraceRecord<A, P, D>)
    ensures
        record.schema == RequestTraceSchema::V1,
        record.event_type == RequestTraceEventType::RequestPayload,
        record.event_time_unix_ms == event_time_unix_ms,
        record.event_source == Some(RequestTraceEventSource::Dynamo),
        record.agent_context is None,
        record.request is None,
        record.tool is None,
        record.payload == Some(payload),
{
    RequestTraceRecord {
        schema: RequestTraceSchema::V1,
        event_type: RequestTraceEventType::RequestPayload,
        event_time_unix_ms,
        event_source: Some(RequestTraceEventSource::Dynamo),
        agent_context: None,
        request: None,
        tool: None,
        payload: Some(payload),
    }
}

/// What is wrong with a tool record.
#[derive(Debug, Clone, Copy, PartialEq, Eq, Structural)]
pub enum ToolRecordError {
    Schema(RequestTraceSchema),
    Source(Option<RequestTraceEventSource>),
    EventType(RequestTraceEventType),
    MissingAgentContext,
    MissingTool,
    Duration,
    HasRequest,
    HasPayload,
}

impl ToolRecordError {
    pub open spec fn text(self) -> Seq<char> {
        match self {
            ToolRecordError::Schema(_) => "unsupported request trace schema: Unsupported"@,
            ToolRecordError::Source(source) => {
                "request trace tool records must be harness-originated, got "@ + match source {
                    None => "None"@,
                    Some(RequestTraceEventSource::Dynamo) => "Some(Dynamo)"@,
                    Some(RequestTraceEventSource::Harness) => "Some(Harness)"@,
                }
            },
            ToolRecordError::EventType(event_type) => {
                "expected tool event, got "@ + match event_type {
                    RequestTraceEventType::RequestEnd => "RequestEnd"@,
                    RequestTraceEventType::RequestPayload => "RequestPayload"@,
                    RequestTraceEventType::ToolStart => "ToolStart"@,
                    RequestTraceEventType::ToolEnd => "ToolEnd"@,
                    RequestTraceEventType::ToolError => "ToolError"@,
                }
            },
            ToolRecordError::MissingAgentContext => "missing agent_context"@,
            ToolRecordError::MissingTool => "missing tool payload"@,
            ToolRecordError::Duration => "tool duration_ms must be finite"@,
            ToolRecordError::HasRequest => "tool event must not include request metrics"@,
            ToolRecordError::HasPayload => "tool event must not include request payload"@,
        }
    }

    pub fn message(self) -> (text: String)
        ensures
            text@ == self.text(),
    {
        match self {
            ToolRecordError::Schema(_) => {
                "unsupported request trace schema: Unsupported".to_owned()
            },
            ToolRecordError::Source(source) => {
                let mut text =
                    "request trace tool records must be harness-originated, got ".to_owned();
                text.append(
                    match source {
                        None => "None",
                        Some(RequestTraceEventSource::Dynamo) => "Some(Dynamo)",
                        Some(RequestTraceEventSource::Harness) => "Some(Harness)",
                    },
                );
                text
            },
            ToolRecordError::EventType(event_type) => {
                let mut text = "expected tool event, got ".to_owned();
                text.append(
                    match event_type {
                        RequestTraceEventType::RequestEnd => "RequestEnd",
                        RequestTraceEventType::RequestPayload => "RequestPayload",
                        RequestTraceEventType::ToolStart => "ToolStart",
                        RequestTraceEventType::ToolEnd => "ToolEnd",
                        RequestTraceEventType::ToolError => "ToolError",
                    },
                );
                text
            },
            ToolRecordError::MissingAgentContext => "missing agent_context".to_owned(),
            ToolRecordError::MissingTool => "missing tool payload".to_owned(),
            ToolRecordError::Duration => "tool duration_ms must be finite".to_owned(),
            ToolRecordError::HasRequest => "tool event must not include request metrics".to_owned(),
            ToolRecordError::HasPayload => "tool event must not include request payload".to_owned(),
        }
    }
}

/// What is wrong with a tool record, if anything.
pub open spec fn tool_error<A, P, D>(record: RequestTraceRecord<A, P, D>) -> Option<
    ToolRecordError,
> {
    if record.schema != RequestTraceSchema::V1 {
        Some(ToolRecordError::Schema(record.schema))
    } else if record.event_source != Some(RequestTraceEventSource::Harness) {
        Some(ToolRecordError::Source(record.event_source))
    } else if !record.event_type.tool_event() {
        Some(ToolRecordError::EventType(record.event_type))
    } else if record.agent_context is None {
        Some(ToolRecordError::MissingAgentContext)
    } else if record.tool is None {
        Some(ToolRecordError::MissingTool)
    } else if record.tool->Some_0.duration_ms is Some
        && !record.tool->Some_0.duration_ms->Some_0.finite() {
        Some(ToolRecordError::Duration)
    } else if record.request is Some {
        Some(ToolRecordError::HasRequest)
    } else if record.payload is Some {
        Some(ToolRecordError::HasPayload)
    } else {
        None
    }
}

pub fn validate_tool_record<A, P, D>(record: &RequestTraceRecord<A, P, D>) -> (outcome: Result<
    (),
    ToolRecordError,
>)
    ensures
        match tool_error(*record) {
            Some(error) => outcome == Err::<(), ToolRecordError>(error),
            None => outcome == Ok::<(), ToolRecordError>(()),
        },
{
    if record.schema != RequestTraceSchema::V1 {
        return Err(ToolRecordError::Schema(record.schema));
    }
    if record.event_source != Some(RequestTraceEventSource::Harness) {
        return Err(ToolRecordError::Source(record.event_source));
    }
    if !record.event_type.is_tool_event() {
        return Err(ToolRecordError::EventType(record.event_type));
    }
    if record.agent_context.is_none() {
        return Err(ToolRecordError::MissingAgentContext);
    }
    match &record.tool {
        None => {
            return Err(ToolRecordError::MissingTool);
        },
        Some(tool) => {
            if let Some(duration) = tool.duration_ms {
                if !duration.is_finite() {
                    return Err(ToolRecordError::Duration);
                }
            }
        },
    }
    if record.request.is_some() {
        return Err(ToolRecordError::HasRequest);
    }
    if record.payload.is_some() {
        return Err(ToolRecordError::HasPayload);
    }
    Ok(())
}

/// What becomes of a tool record.
#[derive(Debug, Clone, Copy, PartialEq, Eq, Structural)]
pub enum ToolRecordFate {
    /// Tool records are not captured.
    Ignored,
    Dropped(ToolRecordError),
    Published,
}

/// Decides what becomes of a tool record.
pub fn tool_record_fate<A, P, D>(
    capture_enabled: bool,
    emit_tool_records: bool,
    record: &RequestTraceRecord<A, P, D>,
) -> (fate: ToolRecordFate)
    ensures
        fate == (if !capture_enabled || !emit_tool_records {
            ToolRecordFate::Ignored
        } else {
            match tool_error(*record) {
                Some(error) => ToolRecordFate::Dropped(error),
                None => ToolRecordFate::Published,
            }
        }),
{
    if !capture_enabled || !emit_tool_records {
        return ToolRecordFate::Ignored;
    }
    match validate_tool_record(record) {
        Ok(()) => ToolRecordFate::Published,
        Err(error) => ToolRecordFate::Dropped(error),
    }
}

/// No record of a request carries a measurement that is not a finite number.
pub proof fn law_recorded_measurements_are_finite<D>(request: RequestTraceMetrics<D>)
    ensures
        ({
            let kept = sanitized(request);
            &&& kept.prefill_wait_time_ms is Some ==> kept.prefill_wait_time_ms->Some_0.finite()
            &&& kept.prefill_time_ms is Some ==> kept.prefill_time_ms->Some_0.finite()
            &&& kept.ttft_ms is Some ==> kept.ttft_ms->Some_0.finite()
            &&& kept.total_time_ms is Some ==> kept.total_time_ms->Some_0.finite()
            &&& kept.avg_itl_ms is Some ==> kept.avg_itl_ms->Some_0.finite()
            &&& kept.kv_hit_rate is Some ==> kept.kv_hit_rate->Some_0.finite()
            &&& kept.kv_transfer_estimated_latency_ms is Some
                ==> kept.kv_transfer_estimated_latency_ms->Some_0.finite()
        }),
        sanitized(sanitized(request)) == sanitized(request),
{
}

/// Every measurement that is a finite number is recorded unchanged.
pub proof fn law_finite_measurements_are_recorded<D>(request: RequestTraceMetrics<D>)
    ensures
        ({
            let kept = sanitized(request);
            let gone = None::<Float64>;
            &&& kept.prefill_wait_time_ms == (match request.prefill_wait_time_ms {
                Some(ms) if ms.finite() => request.prefill_wait_time_ms,
                _ => gone,
            })
            &&& kept.prefill_time_ms == (match request.prefill_time_ms {
                Some(ms) if ms.finite() => request.prefill_time_ms,
                _ => gone,
            })
            &&& kept.ttft_ms == (match request.ttft_ms {
                Some(ms) if ms.finite() => request.ttft_ms,
                _ => gone,
            })
            &&& kept.total_time_ms == (match request.total_time_ms {
                Some(ms) if ms.finite() => request.total_time_ms,
                _ => gone,
            })
            &&& kept.avg_itl_ms == (match request.avg_itl_ms {
                Some(ms) if ms.finite() => request.avg_itl_ms,
                _ => gone,
            })
            &&& kept.kv_hit_rate == (match request.kv_hit_rate {
                Some(rate) if rate.finite() => request.kv_hit_rate,
                _ => gone,
            })
            &&& kept.kv_transfer_estimated_latency_ms == (
            match request.kv_transfer_estimated_latency_ms {
                Some(ms) if ms.finite() => request.kv_transfer_estimated_latency_ms,
                _ => gone,
            })
        }),
{
}

/// What is no measurement is recorded as it is.
pub proof fn law_everything_else_is_recorded<D>(request: RequestTraceMetrics<D>)
    ensures
        ({
            let kept = sanitized(request);
            &&& kept.request_id == request.request_id
            &&& kept.x_request_id == request.x_request_id
            &&& kept.model == request.model
            &&& kept.input_tokens == request.input_tokens
            &&& kept.output_tokens == request.output_tokens
            &&& kept.cached_tokens == request.cached_tokens
            &&& kept.backend_actual_cached_tokens == request.backend_actual_cached_tokens
            &&& kept.request_received_ms == request.request_received_ms
            &&& kept.queue_depth == request.queue_depth
            &&& kept.worker == request.worker
            &&& kept.replay == request.replay
            &&& kept.finish_reason_metadata == request.finish_reason_metadata
            &&& kept.routing_decision == request.routing_decision
        }),
{
}

/// A number is finite exactly if, its sign left out, it comes before the bits of
/// infinity; it is no number at all exactly if it comes after them.
pub proof fn law_finite_numbers_precede_infinity(number: Float64)
    ensures
        ({
            let magnitude = number.0 as int % 0x8000_0000_0000_0000;
            &&& number.finite() <==> magnitude < 0x7ff0_0000_0000_0000
            &&& number.nan() <==> magnitude > 0x7ff0_0000_0000_0000
        }),
{
}

/// Rounding goes to the nearest whole number, and a half goes up. A finite
/// number is its significand times a power of two: with a negative exponent
/// `-k`, the result is at most half a unit away; otherwise the number is whole
/// and is kept, as far as it fits.
pub proof fn law_rounding_is_to_the_nearest(number: Float64)
    requires
        number.finite(),
        !number.negative(),
        number.exponent() > 0,
    ensures
        ({
            let significand = 0x10_0000_0000_0000 + number.fraction();
            let n = number.rounded();
            &&& number.exponent() < 1075 ==> {
                let unit = pow2((1075 - number.exponent()) as nat) as int;
                (2 * n - 1) * unit <= 2 * significand && 2 * significand < (2 * n + 1) * unit
            }
            &&& number.exponent() >= 1075 ==> {
                let whole = significand * pow2((number.exponent() - 1075) as nat);
                n == (if whole <= u64::MAX {
                    whole
                } else {
                    u64::MAX as int
                })
            }
        }),
{
    let significand: int = 0x10_0000_0000_0000 + number.fraction();
    let shift = number.exponent() - 1075;
    let n = number.rounded();
    lemma2_to64();
    lemma2_to64_rest();
    if shift >= 12 {
        lemma_pow2_strictly_increases_or_equal(12, shift as nat);
        assert(pow2(12) == 4096);
        assert(significand * pow2(shift as nat) > u64::MAX) by (nonlinear_arith)
            requires
                significand >= 0x10_0000_0000_0000,
                pow2(shift as nat) >= 4096,
        ;
    } else if shift >= 0 {
        lemma_pow2_strictly_increases_or_equal(shift as nat, 11);
        assert(pow2(11) == 2048);
        assert(significand * pow2(shift as nat) <= u64::MAX) by (nonlinear_arith)
            requires
                0 <= significand <= 0x1f_ffff_ffff_ffff,
                0 <= pow2(shift as nat) <= 2048,
        ;
    } else {
        let k = (-shift) as nat;
        let unit = pow2(k) as int;
        let half = pow2((k - 1) as nat) as int;
        lemma_pow2_unfold(k);
        lemma_pow2_pos(k);
        assert(unit == 2 * half);
        if k >= 54 {
            lemma_pow2_strictly_increases_or_equal(54, k);
            assert(pow2(54) == 0x40_0000_0000_0000);
            assert(n == 0);
            assert((2 * n - 1) * unit <= 2 * significand && 2 * significand < (2 * n + 1) * unit)
                by (nonlinear_arith)
                requires
                    n == 0,
                    unit >= 0x40_0000_0000_0000,
                    0 <= significand <= 0x1f_ffff_ffff_ffff,
            ;
        } else {
            assert(n == (significand + half) / unit);
            assert((2 * n - 1) * unit <= 2 * significand && 2 * significand < (2 * n + 1) * unit)
                by (nonlinear_arith)
                requires
                    n == (significand + half) / unit,
                    unit == 2 * half,
                    unit > 0,
            ;
        }
    }
}

/// What is negative, tiny or no number counts as no time, and infinity as all of
/// it.
pub proof fn law_rounding_saturates(number: Float64)
    ensures
        0 <= number.rounded() <= u64::MAX,
        number.0 >= 0x8000_0000_0000_0000 ==> number.rounded() == 0,
        number.nan() ==> number.rounded() == 0,
        number.0 < 0x10_0000_0000_0000 ==> number.rounded() == 0,
        number.0 == 0x7ff0_0000_0000_0000 ==> number.rounded() == u64::MAX,
{
    if number.finite() && !number.negative() && number.exponent() > 0 {
        law_rounding_is_to_the_nearest(number);
        let shift = number.exponent() - 1075;
        let significand: int = 0x10_0000_0000_0000 + number.fraction();
        if shift < 0 {
            let unit = pow2((-shift) as nat) as int;
            let n = number.rounded();
            lemma_pow2_pos((-shift) as nat);
            assert(n >= 0 && n <= significand + 1) by (nonlinear_arith)
                requires
                    (2 * n - 1) * unit <= 2 * significand,
                    2 * significand < (2 * n + 1) * unit,
                    unit >= 1,
                    significand >= 0,
            ;
        } else {
            lemma_pow2_pos(shift as nat);
            assert(significand * pow2(shift as nat) >= 0) by (nonlinear_arith)
                requires
                    significand >= 0,
                    pow2(shift as nat) > 0,
            ;
        }
    }
}

/// As numbers, positive ones grow with their bits and negative ones fall with
/// them; every positive one exceeds every negative one, the two zeros exceed
/// neither each other nor themselves, and what is no number exceeds nothing.
pub proof fn law_numbers_are_ordered_by_size(a: Float64, b: Float64)
    ensures
        a.nan() || b.nan() ==> !a.exceeds(b) && !a.equals(b),
        !a.nan() && !b.nan() ==> a.exceeds(b) || b.exceeds(a) || a.equals(b),
        a.exceeds(b) ==> !b.exceeds(a) && !a.equals(b),
        !a.nan() && !b.nan() && a.0 < 0x8000_0000_0000_0000 && b.0 < 0x8000_0000_0000_0000 ==> (
        a.exceeds(b) <==> a.0 > b.0),
        !a.nan() && !b.nan() && a.0 >= 0x8000_0000_0000_0000 && b.0 >= 0x8000_0000_0000_0000 ==> (
        a.exceeds(b) <==> a.0 < b.0),
        !a.nan() && !b.nan() && a.0 < 0x8000_0000_0000_0000 && b.0 >= 0x8000_0000_0000_0000 ==> (
        a.exceeds(b) <==> !(a.0 == 0 && b.0 == 0x8000_0000_0000_0000)),
{
}

/// A request ends the rounded time after it was received, and never before.
pub proof fn law_requests_end_after_they_were_received<D>(
    request: RequestTraceMetrics<D>,
    now_ms: u64,
)
    ensures
        ({
            let at = event_time(request, now_ms);
            &&& request.request_received_ms is None ==> at == now_ms
            &&& request.request_received_ms is Some ==> at >= request.request_received_ms->Some_0
            &&& request.request_received_ms is Some && request.total_time_ms is None ==> at
                == request.request_received_ms->Some_0
            &&& request.request_received_ms is Some && request.total_time_ms is Some ==> {
                let sum = request.request_received_ms->Some_0
                    + request.total_time_ms->Some_0.rounded();
                at == (if sum <= u64::MAX {
                    sum
                } else {
                    u64::MAX as int
                })
            }
        }),
{
    if request.total_time_ms is Some {
        law_rounding_saturates(request.total_time_ms->Some_0);
    }
}

/// A count is recorded as the number it is.
pub proof fn law_counts_are_recorded(n: usize)
    ensures
        recorded(Some(n)) is Some,
        recorded(Some(n))->Some_0 == n,
        recorded(None) is None,
{
}

/// A tool record passes exactly if it is a tool event of a harness in the
/// current layout, with its agent and its tool, whose duration is finite where
/// it has one, and without anything that belongs to a request.
pub proof fn law_tool_records_are_complete<A, P, D>(record: RequestTraceRecord<A, P, D>)
    ensures
        tool_error(record) is None <==> {
            &&& record.schema == RequestTraceSchema::V1
            &&& record.event_source == Some(RequestTraceEventSource::Harness)
            &&& record.event_type == RequestTraceEventType::ToolStart || record.event_type
                == RequestTraceEventType::ToolEnd || record.event_type
                == RequestTraceEventType::ToolError
            &&& record.agent_context is Some
            &&& record.tool is Some
            &&& record.tool->Some_0.duration_ms is Some
                ==> record.tool->Some_0.duration_ms->Some_0.finite()
            &&& record.request is None
            &&& record.payload is None
        },
        tool_error(record) is Some ==> match tool_error(record)->Some_0 {
            ToolRecordError::Schema(schema) => schema == record.schema && schema
                != RequestTraceSchema::V1,
            ToolRecordError::Source(source) => source == record.event_source && source != Some(
                RequestTraceEventSource::Harness,
            ),
            ToolRecordError::EventType(kind) => kind == record.event_type && (kind
                == RequestTraceEventType::RequestEnd || kind
                == RequestTraceEventType::RequestPayload),
            ToolRecordError::MissingAgentContext => record.agent_context is None,
            ToolRecordError::MissingTool => record.tool is None,
            ToolRecordError::Duration => record.tool is Some
                && record.tool->Some_0.duration_ms is Some
                && !record.tool->Some_0.duration_ms->Some_0.finite(),
            ToolRecordError::HasRequest => record.request is Some,
            ToolRecordError::HasPayload => record.payload is Some && record.request is None,
        },
{
}

} // verus!
