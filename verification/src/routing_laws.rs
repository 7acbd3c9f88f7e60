//! What holds of every choice between workers.

use crate::protocols::WorkerWithDpRank;
use crate::request_trace::Float64;
use crate::router_hint::RouterHintRootCandidates;
use crate::two_tier_cost_fn::{Parameters, TwoTierEvidence, TwoTierRule};
use vstd::prelude::*;

verus! {

/// The best source is an admitted owner, at place `i`, with more blocks than
/// there are to beat. No admitted owner has more, and one with as many is the
/// same or a higher worker. There is none only if no admitted owner has more
/// blocks than there are to beat.
pub proof fn law_best_source_is_the_longest(
    owners: Seq<(WorkerWithDpRank, usize)>,
    admitted: Seq<bool>,
    to_beat: usize,
    best: Option<(WorkerWithDpRank, usize)>,
) -> (i: int)
    requires
        crate::router_hint::is_best(owners, admitted, to_beat, best),
    ensures
        best is Some ==> {
            let (worker, blocks) = best->Some_0;
            &&& 0 <= i < owners.len()
            &&& owners[i].0 == worker
            &&& owners[i].1 == blocks
            &&& admitted[i]
            &&& blocks > to_beat
            &&& forall|j: int|
                #![trigger owners[j]]
                0 <= j < owners.len() && admitted[j] && owners[j].1 > to_beat ==> {
                    let other = owners[j].0;
                    &&& owners[j].1 <= blocks
                    &&& owners[j].1 == blocks ==> worker.worker_id < other.worker_id || (
                    worker.worker_id == other.worker_id && worker.dp_rank <= other.dp_rank)
                }
        },
        best is None ==> forall|j: int|
            #![trigger owners[j]]
            0 <= j < owners.len() && admitted[j] ==> owners[j].1 <= to_beat,
{
    let i = choose|i: int| #[trigger]
        crate::router_hint::is_candidate(owners, admitted, to_beat, i) && owners[i]
            == best->Some_0;
    assert forall|j: int|
        #![trigger owners[j]]
        best is None && 0 <= j < owners.len() && admitted[j] implies owners[j].1 <= to_beat by {
        assert(!crate::router_hint::is_candidate(owners, admitted, to_beat, j));
    }
    if best is Some {
        let (worker, blocks) = best->Some_0;
        assert(crate::router_hint::is_candidate(owners, admitted, to_beat, i));
        assert forall|j: int|
            #![trigger owners[j]]
            0 <= j < owners.len() && admitted[j] && owners[j].1 > to_beat implies {
            let other = owners[j].0;
            &&& owners[j].1 <= blocks
            &&& owners[j].1 == blocks ==> worker.worker_id < other.worker_id || (worker.worker_id
                == other.worker_id && worker.dp_rank <= other.dp_rank)
        } by {
            assert(crate::router_hint::is_candidate(owners, admitted, to_beat, j));
            assert(!crate::router_hint::beats(owners[j], best->Some_0));
        }
    }
    i
}

/// A best source that claims more blocks than the chain has is no source at
/// all: no other takes its place.
pub proof fn law_corrupt_best_source_fails_closed(
    candidates: RouterHintRootCandidates,
    best: Option<(WorkerWithDpRank, usize)>,
)
    ensures
        best is None ==> candidates.usable(best) is None,
        best is Some && best->Some_0.1 > candidates.block_hashes@.len() ==> candidates.usable(
            best,
        ) is None,
        best is Some && best->Some_0.1 <= candidates.block_hashes@.len() ==> candidates.usable(best)
            == best,
{
}

/// A source that is picked was worth asking about, was admitted, and its blocks
/// are a prefix of the chain.
pub proof fn law_picked_source_was_admitted<F: FnMut(WorkerWithDpRank) -> bool>(
    candidates: RouterHintRootCandidates,
    to_beat: usize,
    is_eligible_source: F,
    entry: (WorkerWithDpRank, usize),
) -> (i: int)
    requires
        candidates.picks(to_beat, is_eligible_source, Some(entry)),
    ensures
        0 <= i < candidates.owner_prefix_blocks@.len(),
        candidates.owner_prefix_blocks@[i].0 == entry.0,
        candidates.owner_prefix_blocks@[i].1 == entry.1,
        to_beat < entry.1 <= candidates.block_hashes@.len(),
        call_ensures(is_eligible_source, (entry.0,), true),
{
    let owners = candidates.owner_prefix_blocks@;
    let (admitted, best) = choose|
        admitted: Seq<bool>,
        best: Option<(WorkerWithDpRank, usize)>,
    |
        #![trigger crate::router_hint::is_best(owners, admitted, to_beat, best)]
        {
            &&& crate::router_hint::asked(is_eligible_source, owners, to_beat, admitted)
            &&& crate::router_hint::is_best(owners, admitted, to_beat, best)
            &&& Some(entry) == candidates.usable(best)
        };
    let i = law_best_source_is_the_longest(owners, admitted, to_beat, best);
    assert(owners[i].1 > to_beat);
    i
}

/// The evidence measures the rows: the extremes of the load are those of some
/// row and bound every row, and the absolute gate opens exactly if they are
/// further apart than the threshold.
pub proof fn law_gates_measure_the_rows<
    R: Fn(Float64, usize, usize) -> bool,
    C: Fn(Float64, u64) -> Float64,
>(
    parameters: Parameters,
    cache: Seq<Float64>,
    load: Seq<usize>,
    request_blocks: u64,
    exceeds_ratio: R,
    quotient: C,
    evidence: TwoTierEvidence,
    i: int,
)
    requires
        crate::two_tier_cost_fn::explains(
            parameters,
            cache,
            load,
            request_blocks,
            exceeds_ratio,
            quotient,
            evidence,
        ),
        0 <= i < load.len(),
        load.len() == cache.len(),
    ensures
        evidence.min_active_requests <= load[i] <= evidence.max_active_requests,
        load.contains(evidence.min_active_requests),
        load.contains(evidence.max_active_requests),
        evidence.absolute_load_gate <==> evidence.max_active_requests
            > evidence.min_active_requests + parameters.balance_abs_threshold,
        call_ensures(
            exceeds_ratio,
            (
                parameters.balance_rel_threshold,
                evidence.max_active_requests,
                evidence.min_active_requests,
            ),
            evidence.relative_load_gate,
        ),
        cache.contains(evidence.max_device_overlap_blocks),
        !cache[i].exceeds(evidence.max_device_overlap_blocks),
        request_blocks == 0 ==> evidence.cache_ratio.0 == 0,
        request_blocks > 0 ==> call_ensures(
            quotient,
            (evidence.max_device_overlap_blocks, request_blocks),
            evidence.cache_ratio,
        ),
        evidence.cache_gate <==> evidence.cache_ratio.exceeds(parameters.cache_threshold),
        evidence.candidate_count == load.len(),
        evidence.request_blocks == request_blocks,
        evidence.cache_threshold == parameters.cache_threshold,
        evidence.balance_abs_threshold == parameters.balance_abs_threshold,
        evidence.balance_rel_threshold == parameters.balance_rel_threshold,
{
    assert(cache[i].rank() <= evidence.max_device_overlap_blocks.rank());
}

/// Load decides exactly if both load gates are open; else the cache decides if
/// its gate is open; and else load decides again.
pub proof fn law_rule_follows_the_gates<
    R: Fn(Float64, usize, usize) -> bool,
    C: Fn(Float64, u64) -> Float64,
>(
    parameters: Parameters,
    cache: Seq<Float64>,
    load: Seq<usize>,
    request_blocks: u64,
    exceeds_ratio: R,
    quotient: C,
    evidence: TwoTierEvidence,
)
    requires
        crate::two_tier_cost_fn::explains(
            parameters,
            cache,
            load,
            request_blocks,
            exceeds_ratio,
            quotient,
            evidence,
        ),
    ensures
        evidence.selected_rule == TwoTierRule::LoadImbalance <==> evidence.absolute_load_gate
            && evidence.relative_load_gate,
        evidence.selected_rule == TwoTierRule::DeviceCacheAffinity <==> evidence.cache_gate && !(
        evidence.absolute_load_gate && evidence.relative_load_gate),
        evidence.selected_rule == TwoTierRule::LeastLoadedFallback <==> !evidence.cache_gate && !(
        evidence.absolute_load_gate && evidence.relative_load_gate),
{
}

/// The selected row is the first of the least loaded: among all rows, or, where
/// the cache decides, among those with the largest overlap.
pub proof fn law_first_least_loaded_row_is_selected<
    R: Fn(Float64, usize, usize) -> bool,
    C: Fn(Float64, u64) -> Float64,
>(
    parameters: Parameters,
    cache: Seq<Float64>,
    load: Seq<usize>,
    request_blocks: u64,
    exceeds_ratio: R,
    quotient: C,
    evidence: TwoTierEvidence,
    other: int,
)
    requires
        crate::two_tier_cost_fn::explains(
            parameters,
            cache,
            load,
            request_blocks,
            exceeds_ratio,
            quotient,
            evidence,
        ),
        cache.len() == load.len(),
        0 <= other < load.len(),
        evidence.selected_rule == TwoTierRule::DeviceCacheAffinity ==> cache[other].equals(
            evidence.max_device_overlap_blocks,
        ),
    ensures
        evidence.selected_row < load.len(),
        load[evidence.selected_row as int] <= load[other],
        load[evidence.selected_row as int] == load[other] ==> evidence.selected_row <= other,
        evidence.selected_active_requests == load[evidence.selected_row as int],
        evidence.selected_device_overlap_blocks == cache[evidence.selected_row as int],
        evidence.selected_rule == TwoTierRule::DeviceCacheAffinity
            ==> evidence.selected_device_overlap_blocks.equals(evidence.max_device_overlap_blocks),
        evidence.tie_count >= 1,
{
    let rule = evidence.selected_rule;
    let most = evidence.max_device_overlap_blocks;
    let row = evidence.selected_row as int;
    assert(crate::two_tier_cost_fn::candidate(cache, rule, most, other));
    lemma_ties(cache, load, rule, most, load[row], load.len());
    let tied = tied_rows(cache, load, rule, most, load[row], load.len());
    assert(tied.contains(row));
    if tied.len() == 0 {
        assert(tied =~= Set::<int>::empty());
    }
}

/// The rows below `n` that are as little loaded as `least` and may be taken.
spec fn tied_rows(
    cache: Seq<Float64>,
    load: Seq<usize>,
    rule: TwoTierRule,
    most: Float64,
    least: usize,
    n: nat,
) -> Set<int> {
    Set::new(
        |i: int|
            0 <= i < n && i < cache.len() && load[i] == least && (rule
                == TwoTierRule::DeviceCacheAffinity ==> cache[i].equals(most)),
    )
}

proof fn lemma_ties(
    cache: Seq<Float64>,
    load: Seq<usize>,
    rule: TwoTierRule,
    most: Float64,
    least: usize,
    n: nat,
)
    ensures
        tied_rows(cache, load, rule, most, least, n).finite(),
        tied_rows(cache, load, rule, most, least, n).len() == crate::two_tier_cost_fn::ties(
            cache,
            load,
            rule,
            most,
            least,
            n,
        ),
    decreases n,
{
    let now = tied_rows(cache, load, rule, most, least, n);
    if n == 0 {
        assert(now =~= Set::<int>::empty());
    } else {
        let k = n - 1;
        let before = tied_rows(cache, load, rule, most, least, k as nat);
        lemma_ties(cache, load, rule, most, least, k as nat);
        assert(!before.contains(k));
        if now.contains(k) {
            assert(now =~= before.insert(k));
        } else {
            assert(now =~= before);
        }
    }
}

/// The tie count is the number of rows that might as well have been selected.
pub proof fn law_ties_are_counted<
    R: Fn(Float64, usize, usize) -> bool,
    C: Fn(Float64, u64) -> Float64,
>(
    parameters: Parameters,
    cache: Seq<Float64>,
    load: Seq<usize>,
    request_blocks: u64,
    exceeds_ratio: R,
    quotient: C,
    evidence: TwoTierEvidence,
)
    requires
        crate::two_tier_cost_fn::explains(
            parameters,
            cache,
            load,
            request_blocks,
            exceeds_ratio,
            quotient,
            evidence,
        ),
        cache.len() == load.len(),
    ensures
        evidence.tie_count == Set::new(
            |i: int|
                0 <= i < load.len() && load[i] == evidence.selected_active_requests && (
                evidence.selected_rule == TwoTierRule::DeviceCacheAffinity ==> cache[i].equals(
                    evidence.max_device_overlap_blocks,
                )),
        ).len(),
{
    let rule = evidence.selected_rule;
    let most = evidence.max_device_overlap_blocks;
    let least = evidence.selected_active_requests;
    lemma_ties(cache, load, rule, most, least, load.len());
    assert(tied_rows(cache, load, rule, most, least, load.len()) =~= Set::new(
        |i: int|
            0 <= i < load.len() && load[i] == evidence.selected_active_requests && (
            evidence.selected_rule == TwoTierRule::DeviceCacheAffinity ==> cache[i].equals(
                evidence.max_device_overlap_blocks,
            )),
    ));
}

/// A fraction is a number that neither zero exceeds nor exceeds one.
pub proof fn law_fractions_lie_between_zero_and_one(number: Float64)
    ensures
        crate::two_tier_cost_fn::is_fraction(number) <==> {
            &&& !number.nan()
            &&& !Float64(0).exceeds(number)
            &&& !number.exceeds(Float64(0x3ff0_0000_0000_0000))
        },
        crate::two_tier_cost_fn::at_least_one(number) <==> {
            &&& number.finite()
            &&& !Float64(0x3ff0_0000_0000_0000).exceeds(number)
        },
{
}

/// A pick is explained by its own evidence: the row and the worker are those
/// that the evidence selects. Without evidence no worker is eligible.
pub proof fn law_picks_are_explained(
    candidates: Seq<WorkerWithDpRank>,
    evidence: Option<TwoTierEvidence>,
    picked: Result<
        (usize, crate::two_tier_cost_fn::TwoTierExplanation),
        crate::two_tier_cost_fn::PickError,
    >,
)
    requires
        crate::two_tier_cost_fn::explained(candidates, evidence, picked),
    ensures
        evidence is None <==> picked is Err,
        picked is Err ==> picked->Err_0 == crate::two_tier_cost_fn::PickError::NoEligibleWorker,
        picked is Ok ==> {
            let row = evidence->Some_0.selected_row;
            &&& picked->Ok_0.0 == row
            &&& picked->Ok_0.1.selected_worker == candidates[row as int]
            &&& picked->Ok_0.1.two_tier_rule == evidence->Some_0
            &&& picked->Ok_0.1.policy_type@ == "dynamo-two-tier-cost-fn"@
            &&& picked->Ok_0.1.kind@ == "two_tier_rule"@
        },
        crate::two_tier_cost_fn::row_of(evidence) is Some <==> evidence is Some,
        evidence is Some ==> crate::two_tier_cost_fn::row_of(evidence) == Some(
            evidence->Some_0.selected_row,
        ),
{
}

/// Without rows, or with loads that do not match the rows, nothing is selected.
pub proof fn law_unmatched_rows_select_nothing<
    R: Fn(Float64, usize, usize) -> bool,
    C: Fn(Float64, u64) -> Float64,
>(
    parameters: Parameters,
    cache: Seq<Float64>,
    load: Seq<usize>,
    request_blocks: u64,
    exceeds_ratio: R,
    quotient: C,
    evidence: Option<TwoTierEvidence>,
)
    requires
        crate::two_tier_cost_fn::selects(
            parameters,
            cache,
            load,
            request_blocks,
            exceeds_ratio,
            quotient,
            evidence,
        ),
    ensures
        cache.len() == 0 || cache.len() != load.len() ==> evidence is None,
        evidence is Some ==> evidence->Some_0.selected_row < cache.len()
            && evidence->Some_0.candidate_count == cache.len(),
{
}

} // verus!
