//! What holds of a stream of cuts, whatever arrives on it.

use crate::logical::{Confidence, Mutation};
use crate::logical_normalizer::Catalog;
use crate::logical_stream::StreamState;
use crate::logical_view::QueryResult;
use crate::logical_wire::{
    DecodeLimits, LogicalDecodeError, WireCut, WireHeader, WirePayload, WirePlan, WireSegment,
};
use crate::protocols::ResidencyOwner;
use vstd::prelude::*;

verus! {

/// A frame that is new to the stream and holds a cut that passed its checks.
pub open spec fn readable(
    before: StreamState,
    transport: u64,
    payload: WirePayload,
    owner: ResidencyOwner,
    namespace: Seq<char>,
    limits: DecodeLimits,
) -> bool {
    &&& before.transport is Some ==> transport > before.transport->Some_0
    &&& crate::logical_wire::cut_error(payload, owner, namespace, limits) is None
}

/// The cut of a readable frame.
pub open spec fn cut_in(payload: WirePayload) -> WireCut {
    payload.envelope->Ok_0.cuts@[0]
}

/// An update never creates a view: without an accepted baseline it is passed
/// over.
pub proof fn law_update_never_bootstraps(
    before: StreamState,
    transport: u64,
    payload: WirePayload,
    owner: ResidencyOwner,
    namespace: Seq<char>,
    limits: DecodeLimits,
    after: StreamState,
    answer: Result<bool, LogicalDecodeError>,
)
    requires
        readable(before, transport, payload, owner, namespace, limits),
        cut_in(payload).event_type@ != "LogicalSnapshot"@,
        before.normal is None,
        crate::logical_stream::ingests(
            before,
            transport,
            payload,
            owner,
            namespace,
            limits,
            after,
            answer,
        ),
    ensures
        after.normal is None,
        answer == Ok::<bool, LogicalDecodeError>(false),
{
}

/// A lost frame retires the view: only a snapshot that is accepted in the same
/// breath brings one back, and else the subscriber is told to replay.
pub proof fn law_lost_frame_retires_the_view(
    before: StreamState,
    transport: u64,
    payload: WirePayload,
    owner: ResidencyOwner,
    namespace: Seq<char>,
    limits: DecodeLimits,
    after: StreamState,
    answer: Result<bool, LogicalDecodeError>,
)
    requires
        before.transport is Some,
        transport > before.transport->Some_0 + 1,
        crate::logical_stream::ingests(
            before,
            transport,
            payload,
            owner,
            namespace,
            limits,
            after,
            answer,
        ),
    ensures
        after.normal is Some ==> answer == Ok::<bool, LogicalDecodeError>(true) && cut_in(
            payload,
        ).event_type@ == "LogicalSnapshot"@,
        after.normal is None ==> after.needs_replay,
{
}

/// A frame that is refused leaves no view behind.
pub proof fn law_refusal_leaves_no_view(
    before: StreamState,
    transport: u64,
    payload: WirePayload,
    owner: ResidencyOwner,
    namespace: Seq<char>,
    limits: DecodeLimits,
    after: StreamState,
    answer: Result<bool, LogicalDecodeError>,
)
    requires
        crate::logical_stream::ingests(
            before,
            transport,
            payload,
            owner,
            namespace,
            limits,
            after,
            answer,
        ),
        answer is Err,
    ensures
        after.normal is None,
{
}

/// What a frame does, whatever the stream has come to and whatever the frame
/// holds:
///
/// * a refusal leaves no view;
/// * an accepted cut leaves a view at the cut's own cursor;
/// * nothing but a snapshot creates a view;
/// * a frame that was seen before changes nothing;
/// * the history of epochs stays within its bound.
pub proof fn law_every_frame_is_fenced(
    before: StreamState,
    transport: u64,
    payload: WirePayload,
    owner: ResidencyOwner,
    namespace: Seq<char>,
    limits: DecodeLimits,
    after: StreamState,
    answer: Result<bool, LogicalDecodeError>,
)
    requires
        before.retired.len() <= limits.epochs,
        crate::logical_stream::ingests(
            before,
            transport,
            payload,
            owner,
            namespace,
            limits,
            after,
            answer,
        ),
    ensures
        answer is Err ==> after.normal is None,
        answer == Ok::<bool, LogicalDecodeError>(true) ==> after.normal is Some && after.cursor
            == cut_in(payload).cursor,
        before.normal is None && after.normal is Some ==> readable(
            before,
            transport,
            payload,
            owner,
            namespace,
            limits,
        ) && cut_in(payload).event_type@ == "LogicalSnapshot"@,
        before.transport is Some && transport <= before.transport->Some_0 ==> answer == Ok::<
            bool,
            LogicalDecodeError,
        >(false) && after == before,
        after.retired.len() <= limits.epochs,
{
    if before.epoch is Some {
        law_epoch_history_is_bounded(
            before.retired,
            before.epoch->Some_0,
            limits.epochs as int,
        );
    }
}

/// Within an epoch the cursor only grows, and strictly with every accepted
/// cut: a replayed old cut never rebuilds a view.
pub proof fn law_cursor_is_a_high_water_mark(
    before: StreamState,
    transport: u64,
    payload: WirePayload,
    owner: ResidencyOwner,
    namespace: Seq<char>,
    limits: DecodeLimits,
    after: StreamState,
    answer: Result<bool, LogicalDecodeError>,
)
    requires
        crate::logical_stream::ingests(
            before,
            transport,
            payload,
            owner,
            namespace,
            limits,
            after,
            answer,
        ),
        after.epoch == before.epoch,
    ensures
        after.cursor >= before.cursor,
        answer == Ok::<bool, LogicalDecodeError>(true) && before.epoch is Some ==> after.cursor
            > before.cursor,
        answer != Ok::<bool, LogicalDecodeError>(true) ==> after.cursor == before.cursor && (
        after.normal is None || after.normal == before.normal),
{
}

/// A snapshot of a superseded epoch is refused.
pub proof fn law_retired_epochs_stay_retired(
    before: StreamState,
    transport: u64,
    payload: WirePayload,
    owner: ResidencyOwner,
    namespace: Seq<char>,
    limits: DecodeLimits,
    after: StreamState,
    answer: Result<bool, LogicalDecodeError>,
)
    requires
        readable(before, transport, payload, owner, namespace, limits),
        cut_in(payload).event_type@ == "LogicalSnapshot"@,
        before.retired.contains(crate::logical_wire::epoch_of(cut_in(payload).epoch@)),
        before.epoch != Some(crate::logical_wire::epoch_of(cut_in(payload).epoch@)),
        crate::logical_stream::ingests(
            before,
            transport,
            payload,
            owner,
            namespace,
            limits,
            after,
            answer,
        ),
    ensures
        answer is Err,
        answer->Err_0 == LogicalDecodeError::RetiredEpoch,
        after.normal is None,
{
}

/// The history of superseded epochs stays bounded, and always holds the epoch
/// that was superseded last.
pub proof fn law_epoch_history_is_bounded(history: Seq<Seq<u8>>, epoch: Seq<u8>, limit: int)
    requires
        history.len() <= limit,
    ensures
        crate::logical_stream::fenced(history, epoch, limit).len() <= limit,
        limit > 0 ==> crate::logical_stream::fenced(history, epoch, limit).contains(epoch),
{
    let after = crate::logical_stream::fenced(history, epoch, limit);
    if limit > 0 && !history.contains(epoch) {
        assert(after.last() == epoch);
    }
}

/// A snapshot that admits a loss never gives credit: the view that it builds
/// answers every prompt with its doubt, not with a number of tokens.
pub proof fn law_unknown_snapshot_gives_no_credit(
    header: WireHeader,
    segments: Seq<WireSegment>,
    plans: Seq<WirePlan>,
    owner: ResidencyOwner,
    namespace: Seq<char>,
    limits: DecodeLimits,
    mutations: Seq<Mutation>,
    tokens: Seq<u32>,
    result: QueryResult,
)
    requires
        header.confidence@ != "known"@,
        crate::logical_normalizer::built(
            header,
            segments,
            plans,
            owner,
            namespace,
            limits,
            mutations,
        ) is Ok,
        crate::logical_normalizer::answers_tokens(
            crate::logical_normalizer::built(
                header,
                segments,
                plans,
                owner,
                namespace,
                limits,
                mutations,
            )->Ok_0.view,
            tokens,
            result,
        ),
    ensures
        result.status == Confidence::Gap,
        result.eligible_cpu_root_tokens is None,
        result.raw_cpu_tokens == 0,
{
}

/// Retiring a row frees the names of its plans, and no others: a later cut may
/// use them again.
pub proof fn law_retired_rows_free_their_plan_names(
    catalog: Catalog,
    segment: Seq<char>,
    plan: Seq<char>,
)
    requires
        catalog.ok(),
        catalog.has_segment(segment),
        catalog.has_plan(plan),
    ensures
        crate::logical_normalizer::without_segment(catalog, segment).has_plan(plan)
            <==> catalog.plans[crate::logical_normalizer::name_id(plan)]
            != crate::logical_normalizer::name_id(segment),
        crate::logical_normalizer::without_segment(catalog, segment).ok(),
{
    let id = crate::logical_normalizer::name_id(segment);
    let after = crate::logical_normalizer::without_segment(catalog, segment);
    assert(after.plans.dom() =~= after.plan_names.dom());
    assert forall|p: u64| #[trigger] after.plans.contains_key(p) implies after.segments.contains_key(
        after.plans[p],
    ) by {
        assert(catalog.plans.contains_key(p));
    }
}

} // verus!
