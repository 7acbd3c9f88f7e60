//! What holds of the estimator over any sequence of events.

use crate::kv_cache_sol::{Domain, KvCacheSolEvent, KvCacheSolEventKind};
use crate::kv_cache_sol_estimator::{
    LastSequences, SolCounts, SolGauges, SolLimits, SolObservation, SolState,
};
use vstd::prelude::*;

verus! {

/// The state is within its bounds.
pub open spec fn within_limits(limits: SolLimits, state: SolState) -> bool {
    &&& state.retained.dom().finite()
    &&& state.retained.dom().len() <= limits.max_cache_blocks
    &&& state.pending.dom().finite()
    &&& state.pending.dom().len() <= limits.max_pending_requests
}

proof fn lemma_remembered_fits(
    retained: Map<(Domain, u64), u64>,
    domain: Domain,
    hashes: Seq<u64>,
    expires_at: u64,
    room: nat,
)
    requires
        retained.dom().finite(),
        retained.dom().len() <= room,
    ensures
        ({
            let after = crate::kv_cache_sol_estimator::remembered(
                retained,
                domain,
                hashes,
                expires_at,
                room,
            ).retained;
            &&& after.dom().finite()
            &&& after.dom().len() <= room
        }),
    decreases hashes.len(),
{
    if hashes.len() > 0 {
        lemma_remembered_fits(retained, domain, hashes.drop_last(), expires_at, room);
        let before = crate::kv_cache_sol_estimator::remembered(
            retained,
            domain,
            hashes.drop_last(),
            expires_at,
            room,
        ).retained;
        let at = (domain, hashes.last());
        assert(before.insert(at, expires_at).dom() =~= before.dom().insert(at));
    }
}

proof fn lemma_advanced_fits(limits: SolLimits, state: SolState, now: u64)
    requires
        within_limits(limits, state),
    ensures
        within_limits(limits, crate::kv_cache_sol_estimator::advanced(state, now)),
{
    let after = crate::kv_cache_sol_estimator::advanced(state, now);
    vstd::set_lib::lemma_len_subset(after.retained.dom(), state.retained.dom());
    vstd::set_lib::lemma_len_subset(after.pending.dom(), state.pending.dom());
}

/// Capacities are hard bounds: no event makes the estimator hold more hashes
/// or more pending requests than it may.
pub proof fn law_capacity_is_a_hard_bound(
    limits: SolLimits,
    state: SolState,
    publisher_id: u64,
    event: KvCacheSolEvent,
)
    requires
        within_limits(limits, state),
    ensures
        within_limits(
            limits,
            crate::kv_cache_sol_estimator::applied(limits, state, publisher_id, event),
        ),
{
    let current = crate::kv_cache_sol_estimator::advanced(state, event.occurred_at_ms);
    lemma_advanced_fits(limits, state, event.occurred_at_ms);
    let expires_at = crate::kv_cache_sol_estimator::capped_sum(
        event.occurred_at_ms,
        limits.horizon_ms,
    );
    let key = (publisher_id, event.request_id@);
    match event.kind {
        KvCacheSolEventKind::RequestStart { prompt_sequence_hashes, .. } => {
            lemma_remembered_fits(
                current.retained,
                crate::keyed_table::TableKey::key(&event.domain),
                prompt_sequence_hashes@,
                expires_at,
                limits.max_cache_blocks,
            );
            let after = crate::kv_cache_sol_estimator::applied(limits, state, publisher_id, event);
            if current.pending.dom().len() < limits.max_pending_requests && expires_at
                > current.watermark {
                assert(after.pending.dom() =~= current.pending.dom().insert(key));
            }
        },
        KvCacheSolEventKind::RequestEnd { continuation_sequence_hashes, .. } => {
            lemma_remembered_fits(
                current.retained,
                crate::keyed_table::TableKey::key(&event.domain),
                crate::choice_map::joined(continuation_sequence_hashes@),
                expires_at,
                limits.max_cache_blocks,
            );
            assert(current.pending.remove(key).dom() =~= current.pending.dom().remove(key));
        },
    }
}

proof fn lemma_remembered_keeps(
    retained: Map<(Domain, u64), u64>,
    domain: Domain,
    hashes: Seq<u64>,
    expires_at: u64,
    room: nat,
    at: (Domain, u64),
)
    requires
        retained.contains_key(at),
    ensures
        ({
            let after = crate::kv_cache_sol_estimator::remembered(
                retained,
                domain,
                hashes,
                expires_at,
                room,
            ).retained;
            after.contains_key(at) && after[at] >= retained[at]
        }),
    decreases hashes.len(),
{
    if hashes.len() > 0 {
        lemma_remembered_keeps(retained, domain, hashes.drop_last(), expires_at, room, at);
    }
}

/// A retained hash stays until it expires: no event shortens its retention,
/// and only time removes it.
pub proof fn law_retention_is_never_shortened(
    limits: SolLimits,
    state: SolState,
    publisher_id: u64,
    event: KvCacheSolEvent,
    at: (Domain, u64),
)
    requires
        state.retained.contains_key(at),
        state.retained[at] > crate::kv_cache_sol_estimator::later(
            state.watermark,
            event.occurred_at_ms,
        ),
    ensures
        ({
            let after = crate::kv_cache_sol_estimator::applied(limits, state, publisher_id, event);
            after.retained.contains_key(at) && after.retained[at] >= state.retained[at]
        }),
{
    let current = crate::kv_cache_sol_estimator::advanced(state, event.occurred_at_ms);
    assert(current.retained.contains_key(at));
    let expires_at = crate::kv_cache_sol_estimator::capped_sum(
        event.occurred_at_ms,
        limits.horizon_ms,
    );
    let hashes = match event.kind {
        KvCacheSolEventKind::RequestStart { prompt_sequence_hashes, .. } => prompt_sequence_hashes@,
        KvCacheSolEventKind::RequestEnd { continuation_sequence_hashes, .. } => {
            crate::choice_map::joined(continuation_sequence_hashes@)
        },
    };
    lemma_remembered_keeps(
        current.retained,
        crate::keyed_table::TableKey::key(&event.domain),
        hashes,
        expires_at,
        limits.max_cache_blocks,
        at,
    );
}

proof fn lemma_remembered_holds_all(
    retained: Map<(Domain, u64), u64>,
    domain: Domain,
    hashes: Seq<u64>,
    expires_at: u64,
    room: nat,
    i: int,
)
    requires
        0 <= i < hashes.len(),
        !crate::kv_cache_sol_estimator::remembered(retained, domain, hashes, expires_at, room).full,
    ensures
        ({
            let after = crate::kv_cache_sol_estimator::remembered(
                retained,
                domain,
                hashes,
                expires_at,
                room,
            ).retained;
            after.contains_key((domain, hashes[i])) && after[(domain, hashes[i])] >= expires_at
        }),
    decreases hashes.len(),
{
    if i < hashes.len() - 1 {
        lemma_remembered_holds_all(
            retained,
            domain,
            hashes.drop_last(),
            expires_at,
            room,
            i,
        );
        assert(hashes.drop_last()[i] == hashes[i]);
    }
}

proof fn lemma_all_hits(retained: Map<(Domain, u64), u64>, domain: Domain, hashes: Seq<u64>)
    requires
        forall|i: int| 0 <= i < hashes.len() ==> retained.contains_key((domain, #[trigger] hashes[i])),
    ensures
        crate::kv_cache_sol_estimator::leading_hits(retained, domain, hashes) == hashes.len(),
    decreases hashes.len(),
{
    if hashes.len() > 0 {
        assert(retained.contains_key((domain, hashes[0])));
        assert forall|i: int| 0 <= i < hashes.skip(1).len() implies retained.contains_key(
            (domain, #[trigger] hashes.skip(1)[i]),
        ) by {
            assert(hashes.skip(1)[i] == hashes[i + 1]);
        }
        lemma_all_hits(retained, domain, hashes.skip(1));
    }
}

/// What was taken in is hit again: hashes that all found room are a complete
/// hit for any prompt that comes before they expire.
pub proof fn law_remembered_hashes_hit_again(
    limits: SolLimits,
    state: SolState,
    domain: Domain,
    hashes: Seq<u64>,
    expires_at: u64,
    now: u64,
)
    requires
        state.watermark < expires_at,
        !crate::kv_cache_sol_estimator::remembered(
            state.retained,
            domain,
            hashes,
            expires_at,
            limits.max_cache_blocks,
        ).full,
        now < expires_at,
    ensures
        ({
            let after = crate::kv_cache_sol_estimator::with_hashes(
                limits,
                state,
                domain,
                hashes,
                expires_at,
            );
            crate::kv_cache_sol_estimator::leading_hits(
                crate::kv_cache_sol_estimator::advanced(after, now).retained,
                domain,
                hashes,
            ) == hashes.len()
        }),
{
    let after = crate::kv_cache_sol_estimator::with_hashes(
        limits,
        state,
        domain,
        hashes,
        expires_at,
    );
    let later = crate::kv_cache_sol_estimator::advanced(after, now);
    assert forall|i: int| 0 <= i < hashes.len() implies later.retained.contains_key(
        (domain, #[trigger] hashes[i]),
    ) by {
        lemma_remembered_holds_all(
            state.retained,
            domain,
            hashes,
            expires_at,
            limits.max_cache_blocks,
            i,
        );
    }
    lemma_all_hits(later.retained, domain, hashes);
}

/// Requests of different producers never meet, even under one identifier: an
/// event leaves every other request pending, unless it has expired.
pub proof fn law_producers_do_not_collide(
    limits: SolLimits,
    state: SolState,
    publisher_id: u64,
    event: KvCacheSolEvent,
    other: (u64, Seq<char>),
)
    requires
        other != (publisher_id, event.request_id@),
        state.pending.contains_key(other),
        state.pending[other].expires_at > crate::kv_cache_sol_estimator::later(
            state.watermark,
            event.occurred_at_ms,
        ),
    ensures
        ({
            let after = crate::kv_cache_sol_estimator::applied(limits, state, publisher_id, event);
            after.pending.contains_key(other) && after.pending[other] == state.pending[other]
        }),
{
}

/// A loss is forgotten: one horizon after the last one the estimate is
/// reliable again.
pub proof fn law_degradation_expires(state: SolState, now: u64)
    requires
        now >= state.degraded_until,
    ensures
        ({
            let after = crate::kv_cache_sol_estimator::advanced(state, now);
            after.watermark >= after.degraded_until
        }),
{
}

/// An estimator that heard a producer's last event sees a gap in its next one
/// exactly when the producer lost events in between, as long as the sequence
/// numbers last.
pub proof fn law_lost_events_leave_a_gap(
    last: LastSequences,
    publisher_id: u64,
    next_sequence: u64,
    missing: u64,
)
    requires
        last.contains_key(publisher_id),
        next_sequence == crate::kv_cache_sol_estimator::capped_sum(last[publisher_id].0, 1),
        next_sequence + missing <= u64::MAX,
    ensures
        crate::kv_cache_sol_estimator::is_gap(
            last,
            publisher_id,
            crate::kv_cache_sol_estimator::capped_sum(next_sequence, missing),
        ) <==> missing > 0,
{
}

/// The leading hits end at the first hash that is not retained.
proof fn lemma_leading_hits(
    retained: Map<(Domain, u64), u64>,
    domain: Domain,
    hashes: Seq<u64>,
    n: int,
)
    requires
        0 <= n <= hashes.len(),
        forall|i: int| 0 <= i < n ==> retained.contains_key((domain, #[trigger] hashes[i])),
        n < hashes.len() ==> !retained.contains_key((domain, hashes[n])),
    ensures
        crate::kv_cache_sol_estimator::leading_hits(retained, domain, hashes) == n,
    decreases n,
{
    if n > 0 {
        let rest = hashes.skip(1);
        assert(retained.contains_key((domain, hashes[0])));
        assert forall|i: int| 0 <= i < n - 1 implies retained.contains_key(
            (domain, #[trigger] rest[i]),
        ) by {
            assert(rest[i] == hashes[i + 1]);
        }
        if n < hashes.len() {
            assert(rest[n - 1] == hashes[n]);
        }
        lemma_leading_hits(retained, domain, rest, n - 1);
    }
}

/// A request that ends while it is pending is compared with its own start: the
/// report holds the prompt and the hits of the start, and the tokens that the
/// backend observed in its cache, of which no more count than the prompt had.
/// Nothing is compared if the backend observed nothing, or if the request is
/// not pending any more.
pub proof fn law_end_is_compared_with_its_start(
    state: SolState,
    publisher_id: u64,
    event: KvCacheSolEvent,
    observation: SolObservation,
    counts: SolCounts,
)
    requires
        event.kind is RequestEnd,
        crate::kv_cache_sol_estimator::observes(state, publisher_id, event, observation),
        crate::kv_cache_sol_estimator::counts_of(observation, counts),
    ensures
        ({
            let key = (publisher_id, event.request_id@);
            let observed = event.kind->observed_cached_tokens;
            let start = state.pending[key];
            let is_pending = state.pending.contains_key(key) && start.expires_at > state.watermark
                && start.expires_at > event.occurred_at_ms;
            if is_pending && observed is Some {
                &&& counts is Compared
                &&& crate::keyed_table::TableKey::key(&counts->Compared_domain) == start.domain
                &&& counts->Compared_prompt_tokens == start.prompt_tokens
                &&& counts->Compared_hit_tokens == start.hit_tokens
                &&& counts->cached_tokens <= observed->Some_0
                &&& counts->cached_tokens <= start.prompt_tokens
                &&& counts->cached_tokens == observed->Some_0 || counts->cached_tokens
                    == start.prompt_tokens
            } else {
                counts is Nothing
            }
        }),
{
}

/// A request that starts is evaluated at once: with its own prompt, and with
/// the tokens of the whole leading blocks that are retained past this moment,
/// but never with more than the prompt has. `n` is how many they are.
pub proof fn law_start_is_evaluated_by_its_leading_blocks(
    state: SolState,
    publisher_id: u64,
    event: KvCacheSolEvent,
    observation: SolObservation,
    counts: SolCounts,
    n: int,
)
    requires
        event.kind is RequestStart,
        crate::kv_cache_sol_estimator::observes(state, publisher_id, event, observation),
        crate::kv_cache_sol_estimator::counts_of(observation, counts),
        0 <= n <= event.kind->prompt_sequence_hashes@.len(),
        forall|i: int|
            0 <= i < n ==> {
                let at = (
                    crate::keyed_table::TableKey::key(&event.domain),
                    #[trigger] event.kind->prompt_sequence_hashes@[i],
                );
                state.retained.contains_key(at) && state.retained[at] > state.watermark
                    && state.retained[at] > event.occurred_at_ms
            },
        n < event.kind->prompt_sequence_hashes@.len() ==> {
            let at = (
                crate::keyed_table::TableKey::key(&event.domain),
                event.kind->prompt_sequence_hashes@[n],
            );
            !state.retained.contains_key(at) || state.retained[at] <= state.watermark
                || state.retained[at] <= event.occurred_at_ms
        },
    ensures
        counts is Evaluated,
        counts->Evaluated_domain.model@ == event.domain.model@,
        counts->Evaluated_domain.model_config@ == event.domain.model_config@,
        counts->Evaluated_domain.block_size == event.domain.block_size,
        counts->Evaluated_domain.is_eagle == event.domain.is_eagle,
        counts->Evaluated_prompt_tokens == event.kind->prompt_tokens,
        counts->Evaluated_hit_tokens <= event.kind->prompt_tokens,
        n * event.domain.block_size <= event.kind->prompt_tokens ==> counts->Evaluated_hit_tokens
            == n * event.domain.block_size,
        n * event.domain.block_size > event.kind->prompt_tokens ==> counts->Evaluated_hit_tokens
            == event.kind->prompt_tokens,
{
    let hashes = event.kind->prompt_sequence_hashes@;
    let current = crate::kv_cache_sol_estimator::advanced(state, event.occurred_at_ms);
    let domain = crate::keyed_table::TableKey::key(&event.domain);
    assert forall|i: int| 0 <= i < n implies current.retained.contains_key(
        (domain, #[trigger] hashes[i]),
    ) by {}
    lemma_leading_hits(current.retained, domain, hashes, n);
}

/// A start leaves its request pending for one horizon, with the prompt and the
/// hits that were reported of it, unless there is no room for it or it comes
/// later than a horizon. For want of room the estimate is unreliable until the
/// request would have expired.
pub proof fn law_start_is_kept_for_its_end(
    limits: SolLimits,
    state: SolState,
    publisher_id: u64,
    event: KvCacheSolEvent,
    observation: SolObservation,
)
    requires
        event.kind is RequestStart,
        within_limits(limits, state),
        crate::kv_cache_sol_estimator::observes(state, publisher_id, event, observation),
        event.occurred_at_ms + limits.horizon_ms <= u64::MAX,
    ensures
        ({
            let key = (publisher_id, event.request_id@);
            let after = crate::kv_cache_sol_estimator::applied(limits, state, publisher_id, event);
            let expires_at = event.occurred_at_ms + limits.horizon_ms;
            let in_time = expires_at > state.watermark && expires_at > event.occurred_at_ms;
            &&& in_time && state.pending.dom().len() < limits.max_pending_requests ==> {
                &&& after.pending.contains_key(key)
                &&& after.pending[key].prompt_tokens == event.kind->prompt_tokens
                &&& after.pending[key].hit_tokens == observation->hit_tokens
                &&& after.pending[key].domain == crate::keyed_table::TableKey::key(&event.domain)
                &&& after.pending[key].expires_at == expires_at
            }
            &&& in_time && !after.pending.contains_key(key) ==> after.degraded_until >= expires_at
            &&& !in_time && !state.pending.contains_key(key) ==> !after.pending.contains_key(key)
            &&& !in_time ==> after.retained.dom().subset_of(state.retained.dom())
            &&& after.degraded_until == state.degraded_until || after.degraded_until == expires_at
        }),
{
    lemma_advanced_fits(limits, state, event.occurred_at_ms);
    let current = crate::kv_cache_sol_estimator::advanced(state, event.occurred_at_ms);
    vstd::set_lib::lemma_len_subset(current.pending.dom(), state.pending.dom());
}

/// An end takes its request off the pending ones. An end that nothing was
/// pending for makes the estimate unreliable for one horizon, and never with a
/// request that was pending, as long as all its hashes find room.
pub proof fn law_end_takes_its_request_off(
    limits: SolLimits,
    state: SolState,
    publisher_id: u64,
    event: KvCacheSolEvent,
)
    requires
        event.kind is RequestEnd,
        event.occurred_at_ms + limits.horizon_ms <= u64::MAX,
        event.occurred_at_ms + limits.horizon_ms > state.watermark,
        limits.horizon_ms > 0,
    ensures
        ({
            let key = (publisher_id, event.request_id@);
            let after = crate::kv_cache_sol_estimator::applied(limits, state, publisher_id, event);
            let expires_at = event.occurred_at_ms + limits.horizon_ms;
            let is_pending = state.pending.contains_key(key) && state.pending[key].expires_at
                > state.watermark && state.pending[key].expires_at > event.occurred_at_ms;
            &&& !after.pending.contains_key(key)
            &&& !is_pending ==> after.degraded_until >= expires_at
            &&& after.degraded_until != state.degraded_until ==> after.degraded_until == expires_at
            &&& is_pending && after.degraded_until != state.degraded_until
                ==> after.retained.dom().len() >= limits.max_cache_blocks
        }),
{
    let current = crate::kv_cache_sol_estimator::advanced(state, event.occurred_at_ms);
    lemma_full_means_no_room(
        current.retained,
        crate::keyed_table::TableKey::key(&event.domain),
        crate::choice_map::joined(event.kind->continuation_sequence_hashes@),
        (event.occurred_at_ms + limits.horizon_ms) as u64,
        limits.max_cache_blocks,
    );
}

proof fn lemma_full_means_no_room(
    retained: Map<(Domain, u64), u64>,
    domain: Domain,
    hashes: Seq<u64>,
    expires_at: u64,
    room: nat,
)
    ensures
        ({
            let memory = crate::kv_cache_sol_estimator::remembered(
                retained,
                domain,
                hashes,
                expires_at,
                room,
            );
            memory.full ==> memory.retained.dom().len() >= room
        }),
    decreases hashes.len(),
{
    if hashes.len() > 0 {
        lemma_full_means_no_room(retained, domain, hashes.drop_last(), expires_at, room);
    }
}

/// What an event adds: no hash is retained after it that was not retained
/// before or is not one of its own, under its own domain, for one horizon from
/// the event's time. A hash that was retained stays for the longer of the two
/// times.
pub proof fn law_event_adds_only_its_own_hashes(
    limits: SolLimits,
    state: SolState,
    publisher_id: u64,
    event: KvCacheSolEvent,
    at: (Domain, u64),
)
    requires
        event.occurred_at_ms + limits.horizon_ms <= u64::MAX,
    ensures
        ({
            let after = crate::kv_cache_sol_estimator::applied(limits, state, publisher_id, event);
            let expires_at = event.occurred_at_ms + limits.horizon_ms;
            let hashes = match event.kind {
                KvCacheSolEventKind::RequestStart { prompt_sequence_hashes, .. } => {
                    prompt_sequence_hashes@
                },
                KvCacheSolEventKind::RequestEnd { continuation_sequence_hashes, .. } => {
                    crate::choice_map::joined(continuation_sequence_hashes@)
                },
            };
            &&& after.retained.contains_key(at) ==> after.retained[at] > state.watermark
                && after.retained[at] > event.occurred_at_ms
            &&& after.retained.contains_key(at) ==> (state.retained.contains_key(at)
                && after.retained[at] == state.retained[at]) || (after.retained[at] == expires_at
                && at.0 == crate::keyed_table::TableKey::key(&event.domain)
                && hashes.contains(at.1) && (state.retained.contains_key(at)
                ==> state.retained[at] <= expires_at))
        }),
{
    let current = crate::kv_cache_sol_estimator::advanced(state, event.occurred_at_ms);
    let hashes = match event.kind {
        KvCacheSolEventKind::RequestStart { prompt_sequence_hashes, .. } => prompt_sequence_hashes@,
        KvCacheSolEventKind::RequestEnd { continuation_sequence_hashes, .. } => {
            crate::choice_map::joined(continuation_sequence_hashes@)
        },
    };
    lemma_remembered_adds_only(
        current.retained,
        crate::keyed_table::TableKey::key(&event.domain),
        hashes,
        (event.occurred_at_ms + limits.horizon_ms) as u64,
        limits.max_cache_blocks,
        at,
    );
}

proof fn lemma_remembered_adds_only(
    retained: Map<(Domain, u64), u64>,
    domain: Domain,
    hashes: Seq<u64>,
    expires_at: u64,
    room: nat,
    at: (Domain, u64),
)
    ensures
        ({
            let after = crate::kv_cache_sol_estimator::remembered(
                retained,
                domain,
                hashes,
                expires_at,
                room,
            ).retained;
            after.contains_key(at) ==> (retained.contains_key(at) && after[at] == retained[at]) || (
            after[at] == expires_at && at.0 == domain && hashes.contains(at.1) && (
            retained.contains_key(at) ==> retained[at] <= expires_at))
        }),
    decreases hashes.len(),
{
    if hashes.len() > 0 {
        let front = hashes.drop_last();
        lemma_remembered_adds_only(retained, domain, front, expires_at, room, at);
        assert(front.contains(at.1) ==> hashes.contains(at.1)) by {
            if front.contains(at.1) {
                let i = choose|i: int| 0 <= i < front.len() && front[i] == at.1;
                assert(hashes[i] == at.1);
            }
        }
        assert(hashes.contains(hashes.last())) by {
            assert(hashes[hashes.len() - 1] == hashes.last());
        }
        if retained.contains_key(at) {
            lemma_remembered_keeps(retained, domain, front, expires_at, room, at);
        }
    }
}

/// An event that comes in time and finds room leaves each of its hashes
/// retained for at least one horizon; a hash that found none makes the estimate
/// unreliable for as long.
pub proof fn law_event_retains_its_hashes(
    limits: SolLimits,
    state: SolState,
    publisher_id: u64,
    event: KvCacheSolEvent,
    i: int,
)
    requires
        event.kind is RequestStart,
        0 <= i < event.kind->prompt_sequence_hashes@.len(),
        event.occurred_at_ms + limits.horizon_ms <= u64::MAX,
        event.occurred_at_ms + limits.horizon_ms > state.watermark,
        limits.horizon_ms > 0,
    ensures
        ({
            let after = crate::kv_cache_sol_estimator::applied(limits, state, publisher_id, event);
            let expires_at = event.occurred_at_ms + limits.horizon_ms;
            let at = (
                crate::keyed_table::TableKey::key(&event.domain),
                event.kind->prompt_sequence_hashes@[i],
            );
            (after.retained.contains_key(at) && after.retained[at] >= expires_at)
                || after.degraded_until >= expires_at
        }),
{
    let current = crate::kv_cache_sol_estimator::advanced(state, event.occurred_at_ms);
    let expires_at = (event.occurred_at_ms + limits.horizon_ms) as u64;
    let domain = crate::keyed_table::TableKey::key(&event.domain);
    let hashes = event.kind->prompt_sequence_hashes@;
    let memory = crate::kv_cache_sol_estimator::remembered(
        current.retained,
        domain,
        hashes,
        expires_at,
        limits.max_cache_blocks,
    );
    if !memory.full {
        lemma_remembered_holds_all(
            current.retained,
            domain,
            hashes,
            expires_at,
            limits.max_cache_blocks,
            i,
        );
    }
}

/// The same for the continuations of a request that ends, of every choice.
pub proof fn law_end_retains_its_continuations(
    limits: SolLimits,
    state: SolState,
    publisher_id: u64,
    event: KvCacheSolEvent,
    i: int,
)
    requires
        event.kind is RequestEnd,
        0 <= i < crate::choice_map::joined(event.kind->continuation_sequence_hashes@).len(),
        event.occurred_at_ms + limits.horizon_ms <= u64::MAX,
        event.occurred_at_ms + limits.horizon_ms > state.watermark,
        limits.horizon_ms > 0,
    ensures
        ({
            let after = crate::kv_cache_sol_estimator::applied(limits, state, publisher_id, event);
            let expires_at = event.occurred_at_ms + limits.horizon_ms;
            let at = (
                crate::keyed_table::TableKey::key(&event.domain),
                crate::choice_map::joined(event.kind->continuation_sequence_hashes@)[i],
            );
            (after.retained.contains_key(at) && after.retained[at] >= expires_at)
                || after.degraded_until >= expires_at
        }),
{
    let current = crate::kv_cache_sol_estimator::advanced(state, event.occurred_at_ms);
    let expires_at = (event.occurred_at_ms + limits.horizon_ms) as u64;
    let domain = crate::keyed_table::TableKey::key(&event.domain);
    let hashes = crate::choice_map::joined(event.kind->continuation_sequence_hashes@);
    let memory = crate::kv_cache_sol_estimator::remembered(
        current.retained,
        domain,
        hashes,
        expires_at,
        limits.max_cache_blocks,
    );
    if !memory.full {
        lemma_remembered_holds_all(
            current.retained,
            domain,
            hashes,
            expires_at,
            limits.max_cache_blocks,
            i,
        );
    }
}

/// Time never runs back, and takes exactly what has expired: a hash or a
/// pending request is there afterwards if and only if it was there and expires
/// later than both times.
pub proof fn law_time_takes_what_has_expired(
    state: SolState,
    now: u64,
    at: (Domain, u64),
    key: (u64, Seq<char>),
)
    ensures
        ({
            let after = crate::kv_cache_sol_estimator::advanced(state, now);
            &&& after.watermark >= now && after.watermark >= state.watermark
            &&& after.watermark == now || after.watermark == state.watermark
            &&& after.degraded_until == state.degraded_until
            &&& after.retained.contains_key(at) <==> state.retained.contains_key(at)
                && state.retained[at] > now && state.retained[at] > state.watermark
            &&& after.retained.contains_key(at) ==> after.retained[at] == state.retained[at]
            &&& after.pending.contains_key(key) <==> state.pending.contains_key(key)
                && state.pending[key].expires_at > now && state.pending[key].expires_at
                > state.watermark
            &&& after.pending.contains_key(key) ==> after.pending[key] == state.pending[key]
            &&& after.domains.contains(at.0) ==> state.domains.contains(at.0)
            &&& state.domains.contains(at.0) && after.retained.contains_key(at)
                ==> after.domains.contains(at.0)
        }),
{
    let after = crate::kv_cache_sol_estimator::advanced(state, now);
    if after.retained.contains_key(at) {
        assert(after.retained.contains_key((at.0, at.1)));
    }
}

/// A loss takes nothing away: it only makes the estimate unreliable for one
/// horizon from when it happened, and never for less than before.
pub proof fn law_loss_degrades_for_one_horizon(limits: SolLimits, state: SolState, at_ms: u64)
    ensures
        ({
            let after = crate::kv_cache_sol_estimator::marked(limits, state, at_ms);
            &&& after.retained == state.retained
            &&& after.pending == state.pending
            &&& after.domains == state.domains
            &&& after.watermark >= at_ms && after.watermark >= state.watermark
            &&& after.watermark == at_ms || after.watermark == state.watermark
            &&& after.degraded_until >= state.degraded_until
            &&& at_ms + limits.horizon_ms <= u64::MAX ==> after.degraded_until >= at_ms
                + limits.horizon_ms && (after.degraded_until == state.degraded_until
                || after.degraded_until == at_ms + limits.horizon_ms)
            &&& at_ms + limits.horizon_ms > u64::MAX ==> after.degraded_until == u64::MAX
        }),
{
}

/// A producer is remembered for one horizon after it was last heard of, and
/// what is remembered of it does not change.
pub proof fn law_silent_producers_are_forgotten(
    last: LastSequences,
    horizon_ms: u64,
    now: u64,
    id: u64,
)
    ensures
        ({
            let after = crate::kv_cache_sol_estimator::recently_heard(last, horizon_ms, now);
            &&& last.contains_key(id) && last[id].1 + horizon_ms > now && now < u64::MAX
                ==> after.contains_key(id)
            &&& after.contains_key(id) ==> last.contains_key(id) && last[id].1 + horizon_ms > now
                && after[id] == last[id]
        }),
{
}

/// The first event of a producer has the number zero, and each later one the
/// number after the one before it; any other number is a gap.
pub proof fn law_sequence_numbers_are_consecutive(
    last: LastSequences,
    publisher_id: u64,
    sequence: u64,
)
    ensures
        !last.contains_key(publisher_id) ==> (crate::kv_cache_sol_estimator::is_gap(
            last,
            publisher_id,
            sequence,
        ) <==> sequence != 0),
        last.contains_key(publisher_id) && last[publisher_id].0 < u64::MAX ==> (
        crate::kv_cache_sol_estimator::is_gap(last, publisher_id, sequence) <==> sequence
            != last[publisher_id].0 + 1),
        last.contains_key(publisher_id) && last[publisher_id].0 == u64::MAX ==> (
        crate::kv_cache_sol_estimator::is_gap(last, publisher_id, sequence) <==> sequence
            != u64::MAX),
{
}

/// A gap alone changes what the estimator holds before it takes the event in,
/// and then only how long the estimate is unreliable.
pub proof fn law_gap_counts_as_a_loss(
    limits: SolLimits,
    state: SolState,
    heard: LastSequences,
    publisher_id: u64,
    event: KvCacheSolEvent,
)
    requires
        event.occurred_at_ms + limits.horizon_ms <= u64::MAX,
    ensures
        ({
            let after = crate::kv_cache_sol_estimator::before_event(
                limits,
                state,
                heard,
                publisher_id,
                event,
            );
            let expected = if heard.contains_key(publisher_id) {
                heard[publisher_id].0 + 1
            } else {
                0
            };
            &&& event.producer_sequence == expected ==> after == state
            &&& after.retained == state.retained && after.pending == state.pending
            &&& event.producer_sequence != expected && expected <= u64::MAX ==> after.degraded_until
                >= event.occurred_at_ms + limits.horizon_ms
        }),
{
}

/// The gauges count the retained hashes and the pending requests, and show the
/// estimate as unreliable as long as time has not come to the end of the last
/// loss.
pub proof fn law_gauges_show_the_state(state: SolState, gauges: SolGauges)
    requires
        crate::kv_cache_sol_estimator::gauges_of(state, gauges),
    ensures
        gauges.cache_blocks == state.retained.dom().len(),
        gauges.pending_requests == state.pending.dom().len(),
        gauges.degraded <==> state.watermark < state.degraded_until,
{
}

/// Times are compared and added as numbers, as far as they can be counted.
pub proof fn law_times_add_up(a: u64, b: u64)
    ensures
        crate::kv_cache_sol_estimator::later(a, b) >= a,
        crate::kv_cache_sol_estimator::later(a, b) >= b,
        crate::kv_cache_sol_estimator::later(a, b) == a || crate::kv_cache_sol_estimator::later(
            a,
            b,
        ) == b,
        a + b <= u64::MAX ==> crate::kv_cache_sol_estimator::capped_sum(a, b) == a + b,
        a + b > u64::MAX ==> crate::kv_cache_sol_estimator::capped_sum(a, b) == u64::MAX,
{
}

/// The tokens of whole blocks, but no more than the prompt has.
pub proof fn law_hits_are_whole_blocks(hits: nat, block_size: u32, prompt_tokens: u64)
    ensures
        crate::kv_cache_sol_estimator::hit_tokens(hits, block_size, prompt_tokens) <= prompt_tokens,
        hits * block_size <= prompt_tokens ==> crate::kv_cache_sol_estimator::hit_tokens(
            hits,
            block_size,
            prompt_tokens,
        ) == hits * block_size,
        hits * block_size >= prompt_tokens ==> crate::kv_cache_sol_estimator::hit_tokens(
            hits,
            block_size,
            prompt_tokens,
        ) == prompt_tokens,
{
}

/// A request that starts and ends within one horizon is compared with what was
/// reported of it when it started, whatever the backend observed.
pub proof fn law_start_and_end_are_one_comparison(
    limits: SolLimits,
    state: SolState,
    publisher_id: u64,
    start: KvCacheSolEvent,
    end: KvCacheSolEvent,
    first: SolCounts,
    second: SolCounts,
    evaluated: SolObservation,
    compared: SolObservation,
)
    requires
        within_limits(limits, state),
        start.kind is RequestStart,
        end.kind is RequestEnd,
        end.request_id@ == start.request_id@,
        state.pending.dom().len() < limits.max_pending_requests,
        state.watermark <= start.occurred_at_ms <= end.occurred_at_ms,
        start.occurred_at_ms + limits.horizon_ms <= u64::MAX,
        end.occurred_at_ms < start.occurred_at_ms + limits.horizon_ms,
        end.kind->observed_cached_tokens is Some,
        crate::kv_cache_sol_estimator::observes(state, publisher_id, start, evaluated),
        crate::kv_cache_sol_estimator::counts_of(evaluated, first),
        crate::kv_cache_sol_estimator::observes(
            crate::kv_cache_sol_estimator::applied(limits, state, publisher_id, start),
            publisher_id,
            end,
            compared,
        ),
        crate::kv_cache_sol_estimator::counts_of(compared, second),
    ensures
        first is Evaluated,
        second is Compared,
        second->Compared_prompt_tokens == start.kind->prompt_tokens,
        second->Compared_prompt_tokens == first->Evaluated_prompt_tokens,
        second->Compared_hit_tokens == first->Evaluated_hit_tokens,
        second->cached_tokens == (if end.kind->observed_cached_tokens->Some_0
            <= start.kind->prompt_tokens {
            end.kind->observed_cached_tokens->Some_0
        } else {
            start.kind->prompt_tokens
        }),
        crate::keyed_table::TableKey::key(&second->Compared_domain)
            == crate::keyed_table::TableKey::key(&start.domain),
{
    law_start_is_kept_for_its_end(limits, state, publisher_id, start, evaluated);
    let after = crate::kv_cache_sol_estimator::applied(limits, state, publisher_id, start);
    law_end_is_compared_with_its_start(after, publisher_id, end, compared, second);
}

} // verus!
