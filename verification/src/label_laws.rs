//! The labels and sentences that others read.

use crate::kv_cache_sol::KvCacheSolEventKind;
use crate::kv_cache_sol_estimator::{EstimatorArgumentError, EstimatorLoss};
use crate::kv_cache_sol_producer::{ProducerDrop, SkipReason};
use crate::logical_wire::LogicalDecodeError;
use crate::prompt::FormatterError;
use crate::request_trace::{RequestTraceEventSource, RequestTraceEventType, ToolRecordError};
use crate::two_tier_cost_fn::{ParameterError, PickError, TwoTierRule};
use vstd::prelude::*;

verus! {

/// The labels of the estimator's counters.
pub proof fn law_estimator_labels(loss: EstimatorLoss, kind: KvCacheSolEventKind)
    ensures
        loss.label() == (match loss {
            EstimatorLoss::DecodeError => "decode_error"@,
            EstimatorLoss::InvalidDomain => "invalid_domain"@,
            EstimatorLoss::SequenceGap => "sequence_gap"@,
        }),
        kind is RequestStart ==> kind.label() == "request_start"@,
        kind is RequestEnd ==> kind.label() == "request_end"@,
{
}

/// The labels of the producers' counters.
pub proof fn law_producer_labels(dropped: ProducerDrop, skipped: SkipReason)
    ensures
        dropped.label() == (match dropped {
            ProducerDrop::QueueFull => "queue_full"@,
            ProducerDrop::WorkerClosed => "worker_closed"@,
            ProducerDrop::PublisherInit => "publisher_init"@,
            ProducerDrop::InflightCapacity => "inflight_capacity"@,
            ProducerDrop::DuplicateRequestId => "duplicate_request_id"@,
            ProducerDrop::MissingRouterHashes => "missing_router_hashes"@,
            ProducerDrop::InvalidRouterHashes => "invalid_router_hashes"@,
            ProducerDrop::OrphanEnd => "orphan_end"@,
            ProducerDrop::PublishError => "publish_error"@,
        }),
        skipped.label() == (match skipped {
            SkipReason::HealthProbe => "health_probe"@,
            SkipReason::PromptEmbeds => "prompt_embeds"@,
            SkipReason::MissingModelConfig => "missing_model_config"@,
        }),
{
}

/// What is said of arguments that an estimator or a policy refuses.
pub proof fn law_argument_errors(
    argument: EstimatorArgumentError,
    parameter: ParameterError,
    pick: PickError,
)
    ensures
        argument.text() == (match argument {
            EstimatorArgumentError::ZeroHorizon => "horizon_secs must be greater than zero"@,
            EstimatorArgumentError::ZeroCapacity => {
                "max_cache_blocks and max_pending_requests must be greater than zero"@
            },
        }),
        parameter.text() == (match parameter {
            ParameterError::CacheThreshold => {
                "cache_threshold must be a finite number between 0.0 and 1.0"@
            },
            ParameterError::BalanceRelThreshold => {
                "balance_rel_threshold must be a finite number greater than or equal to 1.0"@
            },
        }),
        pick.text() == (match pick {
            PickError::NoCacheInput => "cache input unavailable"@,
            PickError::NoLoadInput => "load input unavailable"@,
            PickError::NoEligibleWorker => "no eligible worker"@,
        }),
{
}

/// The labels of the two-tier rule.
pub proof fn law_rule_labels(rule: TwoTierRule)
    ensures
        rule.label() == (match rule {
            TwoTierRule::LoadImbalance => "load_imbalance"@,
            TwoTierRule::DeviceCacheAffinity => "device_cache_affinity"@,
            TwoTierRule::LeastLoadedFallback => "least_loaded_fallback"@,
        }),
{
}

/// What is said of tool records that are dropped.
pub proof fn law_tool_record_errors(error: ToolRecordError)
    ensures
        error is Schema ==> error.text() == "unsupported request trace schema: Unsupported"@,
        error == ToolRecordError::Source(None) ==> error.text()
            == "request trace tool records must be harness-originated, got "@ + "None"@,
        error == ToolRecordError::Source(Some(RequestTraceEventSource::Dynamo)) ==> error.text()
            == "request trace tool records must be harness-originated, got "@ + "Some(Dynamo)"@,
        error == ToolRecordError::EventType(RequestTraceEventType::RequestEnd) ==> error.text()
            == "expected tool event, got "@ + "RequestEnd"@,
        error == ToolRecordError::EventType(RequestTraceEventType::RequestPayload) ==> error.text()
            == "expected tool event, got "@ + "RequestPayload"@,
        error is MissingAgentContext ==> error.text() == "missing agent_context"@,
        error is MissingTool ==> error.text() == "missing tool payload"@,
        error is Duration ==> error.text() == "tool duration_ms must be finite"@,
        error is HasRequest ==> error.text() == "tool event must not include request metrics"@,
        error is HasPayload ==> error.text() == "tool event must not include request payload"@,
{
}

/// What is said of templates that cannot be found.
pub proof fn law_formatter_errors(error: FormatterError)
    ensures
        error is Missing ==> error.text() == "MDC does not contain a prompt formatter"@,
        error is ConfigIsUrl ==> error.text() == "HfTokenizerConfigJson for "@
            + error->ConfigIsUrl_display_name@ + " is a URL, cannot load"@,
        error is JinjaIsUrl ==> error.text() == "HfChatTemplateJinja for "@
            + error->JinjaIsUrl_display_name@ + " is a URL, cannot load"@,
        error is JsonIsUrl ==> error.text() == "HfChatTemplateJson for "@
            + error->JsonIsUrl_display_name@ + " is a URL, cannot load"@,
        error is WrongArtifact ==> error.text()
            == "prompt_formatter should not have type HfChatTemplate*"@,
        error is TemplateNotJson ==> error.text() == "Failed to parse '"@
            + error->TemplateNotJson_path@ + "' as JSON"@,
        error is NoChatTemplate ==> error.text() == "'"@ + error->NoChatTemplate_path@
            + "' does not contain a 'chat_template' field"@,
{
}

/// What is said of cuts that do not fit: the text of a message that could not be
/// read is passed on, and ceilings are told with both numbers.
pub proof fn law_ceiling_errors_tell_both_numbers(error: LogicalDecodeError)
    ensures
        error is Unreadable ==> error.detail() == error->Unreadable_0@,
        error is TooManyRows ==> error.detail() == "engine advertises max_rows="@
            + crate::text::decimal(error->max_rows as nat) + " but this consumer admits at most "@
            + crate::text::decimal(error->bindings as nat)
            + " bindings; raise Limits::bindings to at least the engine's CPU pool capacity"@,
        error is TooManyPlans ==> error.detail() == "engine advertises max_plans="@
            + crate::text::decimal(error->max_plans as nat) + " but this consumer admits at most "@
            + crate::text::decimal(error->plans as nat)
            + "; raise Limits::plans alongside Limits::bindings"@,
{
}

/// What is said of messages that are refused before their content is looked at.
pub proof fn law_message_errors(error: LogicalDecodeError)
    ensures
        error is PayloadBudget ==> error.detail() == "payload budget exceeded"@,
        error is Envelope ==> error.detail() == "invalid logical envelope"@,
        error is CacheOwner ==> error.detail() == "cpu-root profile supports worker owners only"@,
        error is RankMismatch ==> error.detail() == "endpoint DP rank mismatch"@,
        error is ProfileVersion ==> error.detail() == "unsupported profile/version"@,
        error is NamespaceMismatch ==> error.detail() == "namespace mismatch"@,
        error is Geometry ==> error.detail() == "invalid geometry"@,
        error is CapacityOverflow ==> error.detail() == "capacity overflow"@,
        error is PlanCeiling ==> error.detail()
            == "max_plans is not the declared capacity-derived ceiling"@,
        error is Epoch ==> error.detail() == "epoch must be UUID hex"@,
        error is StateBudget ==> error.detail() == "state budget exceeded"@,
        error is SnapshotShape ==> error.detail() == "snapshot must carry exactly its own fields"@,
        error is UpdateShape ==> error.detail() == "update must carry exactly its own fields"@,
        error is EventType ==> error.detail() == "unsupported logical event type"@,
        error is NotASnapshot ==> error.detail() == "expected an authoritative snapshot"@,
{
}

/// What is said of cuts that are refused for their content.
pub proof fn law_content_errors(error: LogicalDecodeError)
    ensures
        error is Position ==> error.detail() == "token position exceeds u32"@,
        error is Kind ==> error.detail() == "unknown segment/plan kind"@,
        error is Identity ==> error.detail() == "empty/oversize identity"@,
        error is Collision ==> error.detail() == "identity collision"@,
        error is SegmentMaterial ==> error.detail() == "malformed segment geometry/material"@,
        error is DuplicateSegment ==> error.detail() == "duplicate segment ID"@,
        error is MissingBinding ==> error.detail() == "plan has missing binding"@,
        error is PlanMismatch ==> error.detail() == "plan/binding mismatch"@,
        error is DuplicatePlan ==> error.detail() == "duplicate plan ID"@,
        error is RetainedBudget ==> error.detail() == "retained normalizer state budget exceeded"@,
        error is Inconsistent ==> error.detail() == "inconsistent contribution/plan state"@,
        error is ConfidenceState ==> error.detail() == "invalid confidence state"@,
        error is KnownWithReason ==> error.detail() == "known cut carries a failure reason"@,
        error is UpdateNotKnown ==> error.detail() == "update must carry a known view"@,
        error is GeometryChanged ==> error.detail() == "geometry changed without a snapshot"@,
        error is RetiredEpoch ==> error.detail() == "retired epoch"@,
{
}

} // verus!
