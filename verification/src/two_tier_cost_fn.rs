//! Two-tier worker-selection cost function.
//!
//! Ranks on two tiers, taking the first that applies. For each eligible worker
//! it reads device-KV overlap and active-request count, then:
//!
//! 1. Load tier: if active-request spread exceeds `balance_abs_threshold` and the
//!    largest count exceeds `balance_rel_threshold` times the smallest, select the
//!    least-loaded worker.
//! 2. Cache tier: otherwise, if the largest device-KV overlap is strictly greater
//!    than `cache_threshold` of the request's block count, select the least-loaded
//!    worker holding that maximum overlap.
//! 3. Otherwise, select the least-loaded worker.
//!
//! Both load gates must hold to take step 1, so load displaces cache affinity
//! only when the imbalance is both large in absolute terms and disproportionate.
//! Ties between equally ranked workers resolve on candidate row order.

use crate::protocols::WorkerWithDpRank;
use crate::request_trace::Float64;
use vstd::prelude::*;

verus! {

/// Policy type selected by `worker_selection.instances[].type`.
pub const POLICY_TYPE: &'static str = "dynamo-two-tier-cost-fn";

/// The kind of the explanations of this policy.
pub const EXPLANATION_KIND: &'static str = "two_tier_rule";

pub const DEFAULT_BALANCE_ABS_THRESHOLD: usize = 32;

/// One, as a double-precision number.
pub const ONE: u64 = 0x3ff0_0000_0000_0000;

/// One half.
pub const DEFAULT_CACHE_THRESHOLD: u64 = 0x3fe0_0000_0000_0000;

/// The double-precision number next to 1.1.
pub const DEFAULT_BALANCE_REL_THRESHOLD: u64 = 0x3ff1_9999_9999_999a;

/// Zero with a negative sign.
pub const NEGATIVE_ZERO: u64 = 0x8000_0000_0000_0000;

/// Tunables for [`POLICY_TYPE`]. Every field keeps its default when omitted.
#[derive(Debug, Clone, Copy, PartialEq, Eq, Structural)]
pub struct Parameters {
    /// Fraction of the request's blocks that must be device-resident on the best
    /// worker before the cache tier applies. Compared strictly.
    pub cache_threshold: Float64,
    /// Minimum active-request spread before the load tier applies.
    pub balance_abs_threshold: usize,
    /// Minimum ratio of largest to smallest active-request count before the load
    /// tier applies.
    pub balance_rel_threshold: Float64,
}

impl Default for Parameters {
    fn default() -> (parameters: Self)
        ensures
            parameters.cache_threshold == Float64(DEFAULT_CACHE_THRESHOLD),
            parameters.balance_abs_threshold == 32,
            parameters.balance_rel_threshold == Float64(DEFAULT_BALANCE_REL_THRESHOLD),
    {
        Parameters {
            cache_threshold: Float64(DEFAULT_CACHE_THRESHOLD),
            balance_abs_threshold: DEFAULT_BALANCE_ABS_THRESHOLD,
            balance_rel_threshold: Float64(DEFAULT_BALANCE_REL_THRESHOLD),
        }
    }
}

/// Why parameters are refused.
#[derive(Debug, Clone, Copy, PartialEq, Eq, Structural)]
pub enum ParameterError {
    CacheThreshold,
    BalanceRelThreshold,
}

impl ParameterError {
    pub open spec fn text(self) -> Seq<char> {
        match self {
            ParameterError::CacheThreshold => {
                "cache_threshold must be a finite number between 0.0 and 1.0"@
            },
            ParameterError::BalanceRelThreshold => {
                "balance_rel_threshold must be a finite number greater than or equal to 1.0"@
            },
        }
    }

    pub fn message(self) -> (text: &'static str)
        ensures
            text@ == self.text(),
    {
        match self {
            ParameterError::CacheThreshold => {
                "cache_threshold must be a finite number between 0.0 and 1.0"
            },
            ParameterError::BalanceRelThreshold => {
                "balance_rel_threshold must be a finite number greater than or equal to 1.0"
            },
        }
    }
}

/// A number between zero and one. The bits of non-negative numbers are ordered
/// as the numbers are.
pub open spec fn is_fraction(number: Float64) -> bool {
    number.finite() && (number.0 == NEGATIVE_ZERO || number.0 <= ONE)
}

/// A finite number that is at least one.
pub open spec fn at_least_one(number: Float64) -> bool {
    number.finite() && !number.negative() && number.0 >= ONE
}

impl Parameters {
    pub fn validate(&self) -> (outcome: Result<(), ParameterError>)
        ensures
            outcome == (if !is_fraction(self.cache_threshold) {
                Err::<(), ParameterError>(ParameterError::CacheThreshold)
            } else if !at_least_one(self.balance_rel_threshold) {
                Err(ParameterError::BalanceRelThreshold)
            } else {
                Ok(())
            }),
    {
        let cache = self.cache_threshold;
        if !cache.is_finite() || !(cache.0 == NEGATIVE_ZERO || cache.0 <= ONE) {
            return Err(ParameterError::CacheThreshold);
        }
        let ratio = self.balance_rel_threshold;
        if !ratio.is_finite() || ratio.0 >= NEGATIVE_ZERO || ratio.0 < ONE {
            return Err(ParameterError::BalanceRelThreshold);
        }
        Ok(())
    }
}

/// Which tier decided.
#[derive(Debug, Clone, Copy, PartialEq, Eq, Structural)]
pub enum TwoTierRule {
    LoadImbalance,
    DeviceCacheAffinity,
    LeastLoadedFallback,
}

impl TwoTierRule {
    pub open spec fn label(self) -> Seq<char> {
        match self {
            TwoTierRule::LoadImbalance => "load_imbalance"@,
            TwoTierRule::DeviceCacheAffinity => "device_cache_affinity"@,
            TwoTierRule::LeastLoadedFallback => "least_loaded_fallback"@,
        }
    }

    pub fn as_label(self) -> (label: &'static str)
        ensures
            label@ == self.label(),
    {
        match self {
            TwoTierRule::LoadImbalance => "load_imbalance",
            TwoTierRule::DeviceCacheAffinity => "device_cache_affinity",
            TwoTierRule::LeastLoadedFallback => "least_loaded_fallback",
        }
    }
}

/// How ties between equally ranked workers are resolved.
#[derive(Debug, Clone, Copy, PartialEq, Eq, Structural)]
pub enum TieStrategy {
    FirstCandidateRow,
}

impl TieStrategy {
    pub fn as_label(self) -> (label: &'static str)
        ensures
            label@ == "first_candidate_row"@,
    {
        "first_candidate_row"
    }
}

/// How a selection came about.
#[derive(Debug, Clone, Copy, PartialEq, Eq, Structural)]
pub struct TwoTierEvidence {
    pub cache_threshold: Float64,
    pub balance_abs_threshold: usize,
    pub balance_rel_threshold: Float64,
    pub request_blocks: u64,
    pub min_active_requests: usize,
    pub max_active_requests: usize,
    pub max_device_overlap_blocks: Float64,
    pub cache_ratio: Float64,
    pub absolute_load_gate: bool,
    pub relative_load_gate: bool,
    pub cache_gate: bool,
    pub selected_rule: TwoTierRule,
    pub selected_row: usize,
    pub selected_device_overlap_blocks: Float64,
    pub selected_active_requests: usize,
    pub tie_strategy: TieStrategy,
    pub tie_count: usize,
    pub candidate_count: usize,
}

/// The smallest number in a list.
pub open spec fn is_smallest(load: Seq<usize>, least: usize) -> bool {
    load.contains(least) && forall|i: int| 0 <= i < load.len() ==> least <= #[trigger] load[i]
}

/// The largest number in a list.
pub open spec fn is_largest(load: Seq<usize>, most: usize) -> bool {
    load.contains(most) && forall|i: int| 0 <= i < load.len() ==> #[trigger] load[i] <= most
}

/// The largest overlap in the total order of numbers.
pub open spec fn is_largest_overlap(cache: Seq<Float64>, most: Float64) -> bool {
    cache.contains(most) && forall|i: int|
        0 <= i < cache.len() ==> (#[trigger] cache[i]).rank() <= most.rank()
}

/// The row may be taken: in the cache tier only rows with the largest overlap
/// may.
pub open spec fn candidate(
    cache: Seq<Float64>,
    rule: TwoTierRule,
    max_overlap: Float64,
    row: int,
) -> bool {
    0 <= row < cache.len() && (rule == TwoTierRule::DeviceCacheAffinity ==> cache[row].equals(
        max_overlap,
    ))
}

/// `row` is the least loaded candidate, and the first of these.
pub open spec fn is_first_least_loaded(
    cache: Seq<Float64>,
    load: Seq<usize>,
    rule: TwoTierRule,
    max_overlap: Float64,
    row: int,
) -> bool {
    &&& candidate(cache, rule, max_overlap, row)
    &&& forall|other: int| #[trigger]
        candidate(cache, rule, max_overlap, other) ==> load[row] < load[other] || (load[row]
            == load[other] && row <= other)
}

/// How many candidates up to `n` are as little loaded as the selected one.
pub open spec fn ties(
    cache: Seq<Float64>,
    load: Seq<usize>,
    rule: TwoTierRule,
    max_overlap: Float64,
    least: usize,
    n: nat,
) -> nat
    decreases n,
{
    if n == 0 {
        0
    } else {
        ties(cache, load, rule, max_overlap, least, (n - 1) as nat) + if candidate(
            cache,
            rule,
            max_overlap,
            n - 1,
        ) && load[n - 1] == least {
            1nat
        } else {
            0nat
        }
    }
}

/// Which tier decides, by the gates.
pub open spec fn rule_of(absolute: bool, relative: bool, cache: bool) -> TwoTierRule {
    if absolute && relative {
        TwoTierRule::LoadImbalance
    } else if cache {
        TwoTierRule::DeviceCacheAffinity
    } else {
        TwoTierRule::LeastLoadedFallback
    }
}

/// What decides on the tier.
pub ghost struct Gates {
    pub min_load: usize,
    pub max_load: usize,
    pub max_overlap: Float64,
    pub cache_ratio: Float64,
    pub absolute: bool,
    pub relative: bool,
    pub cache: bool,
}

impl TwoTierEvidence {
    pub open spec fn gates(self) -> Gates {
        Gates {
            min_load: self.min_active_requests,
            max_load: self.max_active_requests,
            max_overlap: self.max_device_overlap_blocks,
            cache_ratio: self.cache_ratio,
            absolute: self.absolute_load_gate,
            relative: self.relative_load_gate,
            cache: self.cache_gate,
        }
    }
}

/// `gates` are those of the rows: the extremes of load and overlap, and how they
/// stand to the thresholds.
pub open spec fn gates_of<
    R: Fn(Float64, usize, usize) -> bool,
    C: Fn(Float64, u64) -> Float64,
>(
    parameters: Parameters,
    cache: Seq<Float64>,
    load: Seq<usize>,
    request_blocks: u64,
    exceeds_ratio: R,
    quotient: C,
    gates: Gates,
) -> bool {
    &&& is_smallest(load, gates.min_load)
    &&& is_largest(load, gates.max_load)
    &&& is_largest_overlap(cache, gates.max_overlap)
    &&& gates.absolute == (gates.max_load - gates.min_load > parameters.balance_abs_threshold)
    &&& call_ensures(
        exceeds_ratio,
        (parameters.balance_rel_threshold, gates.max_load, gates.min_load),
        gates.relative,
    )
    &&& if request_blocks == 0 {
        gates.cache_ratio == Float64(0)
    } else {
        call_ensures(quotient, (gates.max_overlap, request_blocks), gates.cache_ratio)
    }
    &&& gates.cache == gates.cache_ratio.exceeds(parameters.cache_threshold)
}

/// `evidence` explains a selection: the gates decide on the tier, and the tier
/// takes the first least loaded of its candidates.
pub open spec fn explains<
    R: Fn(Float64, usize, usize) -> bool,
    C: Fn(Float64, u64) -> Float64,
>(
    parameters: Parameters,
    cache: Seq<Float64>,
    load: Seq<usize>,
    request_blocks: u64,
    exceeds_ratio: R,
    quotient: C,
    evidence: TwoTierEvidence,
) -> bool {
    let row = evidence.selected_row as int;
    &&& evidence.cache_threshold == parameters.cache_threshold
    &&& evidence.balance_abs_threshold == parameters.balance_abs_threshold
    &&& evidence.balance_rel_threshold == parameters.balance_rel_threshold
    &&& evidence.request_blocks == request_blocks
    &&& evidence.candidate_count == load.len()
    &&& evidence.tie_strategy == TieStrategy::FirstCandidateRow
    &&& gates_of(
        parameters,
        cache,
        load,
        request_blocks,
        exceeds_ratio,
        quotient,
        evidence.gates(),
    )
    &&& evidence.selected_rule == rule_of(
        evidence.absolute_load_gate,
        evidence.relative_load_gate,
        evidence.cache_gate,
    )
    &&& is_first_least_loaded(
        cache,
        load,
        evidence.selected_rule,
        evidence.max_device_overlap_blocks,
        row,
    )
    &&& evidence.selected_device_overlap_blocks == cache[row]
    &&& evidence.selected_active_requests == load[row]
    &&& evidence.tie_count == ties(
        cache,
        load,
        evidence.selected_rule,
        evidence.max_device_overlap_blocks,
        load[row],
        load.len(),
    )
}

/// The cache tier decides, but the largest overlap is no number, so that no row
/// has it.
pub open spec fn unmatched<
    R: Fn(Float64, usize, usize) -> bool,
    C: Fn(Float64, u64) -> Float64,
>(
    parameters: Parameters,
    cache: Seq<Float64>,
    load: Seq<usize>,
    request_blocks: u64,
    exceeds_ratio: R,
    quotient: C,
) -> bool {
    exists|gates: Gates|
        gates.max_overlap.nan() && rule_of(gates.absolute, gates.relative, gates.cache)
            == TwoTierRule::DeviceCacheAffinity && #[trigger] gates_of(
            parameters,
            cache,
            load,
            request_blocks,
            exceeds_ratio,
            quotient,
            gates,
        )
}

fn extent(load: &[usize]) -> (bounds: (usize, usize))
    requires
        load@.len() > 0,
    ensures
        is_smallest(load@, bounds.0),
        is_largest(load@, bounds.1),
{
    let mut least: usize = load[0];
    let mut most: usize = load[0];
    let mut i: usize = 1;
    assert(load@[0] == least);
    while i < load.len()
        invariant
            1 <= i <= load@.len(),
            load@.contains(least),
            load@.contains(most),
            forall|j: int| 0 <= j < i ==> least <= #[trigger] load@[j] <= most,
        decreases load@.len() - i,
    {
        if load[i] < least {
            least = load[i];
        }
        if load[i] > most {
            most = load[i];
        }
        i = i + 1;
    }
    (least, most)
}

fn largest_overlap(cache: &[Float64]) -> (most: Float64)
    requires
        cache@.len() > 0,
    ensures
        is_largest_overlap(cache@, most),
{
    let mut most: Float64 = cache[0];
    let mut i: usize = 1;
    assert(cache@[0] == most);
    while i < cache.len()
        invariant
            1 <= i <= cache@.len(),
            cache@.contains(most),
            forall|j: int| 0 <= j < i ==> (#[trigger] cache@[j]).rank() <= most.rank(),
        decreases cache@.len() - i,
    {
        if cache[i].ranks_above(most) {
            most = cache[i];
        }
        i = i + 1;
    }
    most
}

/// The first least loaded candidate of a tier, and how many are as good.
fn least_loaded(cache: &[Float64], load: &[usize], rule: TwoTierRule, max_overlap: Float64) -> (found: (
    usize,
    usize,
))
    requires
        cache@.len() == load@.len(),
        exists|row: int| candidate(cache@, rule, max_overlap, row),
    ensures
        is_first_least_loaded(cache@, load@, rule, max_overlap, found.0 as int),
        found.1 == ties(
            cache@,
            load@,
            rule,
            max_overlap,
            load@[found.0 as int],
            load@.len(),
        ),
{
    let affine: bool = rule == TwoTierRule::DeviceCacheAffinity;
    let mut best: Option<usize> = None;
    let mut i: usize = 0;
    while i < load.len()
        invariant
            i <= load@.len(),
            cache@.len() == load@.len(),
            affine == (rule == TwoTierRule::DeviceCacheAffinity),
            match best {
                Some(b) => {
                    &&& b < i
                    &&& candidate(cache@, rule, max_overlap, b as int)
                    &&& forall|other: int| #[trigger]
                        candidate(cache@, rule, max_overlap, other) && other < i ==> load@[b as int]
                            < load@[other] || (load@[b as int] == load@[other] && b <= other)
                },
                None => forall|other: int| #[trigger]
                    candidate(cache@, rule, max_overlap, other) ==> other >= i,
            },
        decreases load@.len() - i,
    {
        if !affine || cache[i].is_equal(max_overlap) {
            assert(candidate(cache@, rule, max_overlap, i as int));
            let better: bool = match best {
                Some(b) => load[i] < load[b],
                None => true,
            };
            if better {
                best = Some(i);
            }
        }
        i = i + 1;
    }
    let row: usize = match best {
        Some(row) => row,
        None => {
            proof {
                let row = choose|row: int| candidate(cache@, rule, max_overlap, row);
                assert(row < load@.len());
            }
            0
        },
    };
    let mut count: usize = 0;
    let mut k: usize = 0;
    while k < load.len()
        invariant
            k <= load@.len(),
            row < load@.len(),
            cache@.len() == load@.len(),
            affine == (rule == TwoTierRule::DeviceCacheAffinity),
            count <= k,
            count == ties(cache@, load@, rule, max_overlap, load@[row as int], k as nat),
        decreases load@.len() - k,
    {
        if load[k] == load[row] && (!affine || cache[k].is_equal(max_overlap)) {
            count = count + 1;
        }
        k = k + 1;
    }
    (row, count)
}

/// Selects a worker and says how. `exceeds_ratio` is asked whether the largest
/// load exceeds the relative threshold times the smallest; `quotient` divides
/// the largest overlap by the number of the request's blocks.
pub fn select_row_with_evidence<
    R: Fn(Float64, usize, usize) -> bool,
    C: Fn(Float64, u64) -> Float64,
>(
    parameters: &Parameters,
    cache: &[Float64],
    load: &[usize],
    request_blocks: u64,
    exceeds_ratio: R,
    quotient: C,
) -> (evidence: Option<TwoTierEvidence>)
    requires
        forall|ratio: Float64, most: usize, least: usize|
            call_requires(exceeds_ratio, (ratio, most, least)),
        forall|most: Float64, blocks: u64| call_requires(quotient, (most, blocks)),
    ensures
        selects(
            *parameters,
            cache@,
            load@,
            request_blocks,
            exceeds_ratio,
            quotient,
            evidence,
        ),
{
    if cache.len() == 0 || cache.len() != load.len() {
        return None;
    }
    let (min_load, max_load) = extent(load);
    assert(min_load <= max_load) by {
        let i = choose|i: int| 0 <= i < load@.len() && load@[i] == min_load;
        assert(load@[i] <= max_load);
    }
    let absolute_load_gate: bool = max_load - min_load > parameters.balance_abs_threshold;
    let relative_load_gate: bool = exceeds_ratio(
        parameters.balance_rel_threshold,
        max_load,
        min_load,
    );
    let max_overlap: Float64 = largest_overlap(cache);
    let cache_ratio: Float64 = if request_blocks == 0 {
        Float64(0)
    } else {
        quotient(max_overlap, request_blocks)
    };
    let cache_gate: bool = cache_ratio.is_above(parameters.cache_threshold);
    let rule = if absolute_load_gate && relative_load_gate {
        TwoTierRule::LoadImbalance
    } else if cache_gate {
        TwoTierRule::DeviceCacheAffinity
    } else {
        TwoTierRule::LeastLoadedFallback
    };
    let ghost gates = Gates {
        min_load,
        max_load,
        max_overlap,
        cache_ratio,
        absolute: absolute_load_gate,
        relative: relative_load_gate,
        cache: cache_gate,
    };
    assert(gates_of(
        *parameters,
        cache@,
        load@,
        request_blocks,
        exceeds_ratio,
        quotient,
        gates,
    ));
    if rule == TwoTierRule::DeviceCacheAffinity && max_overlap.is_nan() {
        return None;
    }
    proof {
        let i = choose|i: int| 0 <= i < cache@.len() && cache@[i] == max_overlap;
        assert(candidate(cache@, rule, max_overlap, i));
    }
    let (row, tie_count) = least_loaded(cache, load, rule, max_overlap);
    let evidence = TwoTierEvidence {
        cache_threshold: parameters.cache_threshold,
        balance_abs_threshold: parameters.balance_abs_threshold,
        balance_rel_threshold: parameters.balance_rel_threshold,
        request_blocks,
        min_active_requests: min_load,
        max_active_requests: max_load,
        max_device_overlap_blocks: max_overlap,
        cache_ratio,
        absolute_load_gate,
        relative_load_gate,
        cache_gate,
        selected_rule: rule,
        selected_row: row,
        selected_device_overlap_blocks: cache[row],
        selected_active_requests: load[row],
        tie_strategy: TieStrategy::FirstCandidateRow,
        tie_count,
        candidate_count: load.len(),
    };
    assert(evidence.gates() == gates);
    Some(evidence)
}

/// What is selected: nothing without rows or with a row too few, and else what
/// the evidence explains. No row is left where the cache tier decides on an
/// overlap that is no number.
pub open spec fn selects<
    R: Fn(Float64, usize, usize) -> bool,
    C: Fn(Float64, u64) -> Float64,
>(
    parameters: Parameters,
    cache: Seq<Float64>,
    load: Seq<usize>,
    request_blocks: u64,
    exceeds_ratio: R,
    quotient: C,
    evidence: Option<TwoTierEvidence>,
) -> bool {
    if cache.len() == 0 || cache.len() != load.len() {
        evidence is None
    } else {
        match evidence {
            Some(evidence) => explains(
                parameters,
                cache,
                load,
                request_blocks,
                exceeds_ratio,
                quotient,
                evidence,
            ),
            None => unmatched(
                parameters,
                cache,
                load,
                request_blocks,
                exceeds_ratio,
                quotient,
            ),
        }
    }
}

/// The row of a selection.
pub open spec fn row_of(evidence: Option<TwoTierEvidence>) -> Option<usize> {
    match evidence {
        Some(evidence) => Some(evidence.selected_row),
        None => None,
    }
}

/// Selects a worker.
pub fn select_row<R: Fn(Float64, usize, usize) -> bool, C: Fn(Float64, u64) -> Float64>(
    parameters: &Parameters,
    cache: &[Float64],
    load: &[usize],
    request_blocks: u64,
    exceeds_ratio: R,
    quotient: C,
) -> (row: Option<usize>)
    requires
        forall|ratio: Float64, most: usize, least: usize|
            call_requires(exceeds_ratio, (ratio, most, least)),
        forall|most: Float64, blocks: u64| call_requires(quotient, (most, blocks)),
    ensures
        exists|evidence: Option<TwoTierEvidence>|
            row == row_of(evidence) && #[trigger] selects(
                *parameters,
                cache@,
                load@,
                request_blocks,
                exceeds_ratio,
                quotient,
                evidence,
            ),
{
    let evidence = select_row_with_evidence(
        parameters,
        cache,
        load,
        request_blocks,
        exceeds_ratio,
        quotient,
    );
    match evidence {
        Some(evidence) => Some(evidence.selected_row),
        None => None,
    }
}

/// Why no worker was picked.
#[derive(Debug, Clone, Copy, PartialEq, Eq, Structural)]
pub enum PickError {
    NoCacheInput,
    NoLoadInput,
    NoEligibleWorker,
}

impl PickError {
    pub open spec fn text(self) -> Seq<char> {
        match self {
            PickError::NoCacheInput => "cache input unavailable"@,
            PickError::NoLoadInput => "load input unavailable"@,
            PickError::NoEligibleWorker => "no eligible worker"@,
        }
    }

    pub fn message(self) -> (text: &'static str)
        ensures
            text@ == self.text(),
    {
        match self {
            PickError::NoCacheInput => "cache input unavailable",
            PickError::NoLoadInput => "load input unavailable",
            PickError::NoEligibleWorker => "no eligible worker",
        }
    }
}

/// Picks a worker from the inputs of a host, where it supplies them.
pub fn pick<R: Fn(Float64, usize, usize) -> bool, C: Fn(Float64, u64) -> Float64>(
    parameters: &Parameters,
    cache: Option<&[Float64]>,
    load: Option<&[usize]>,
    request_blocks: u64,
    exceeds_ratio: R,
    quotient: C,
) -> (picked: Result<TwoTierEvidence, PickError>)
    requires
        forall|ratio: Float64, most: usize, least: usize|
            call_requires(exceeds_ratio, (ratio, most, least)),
        forall|most: Float64, blocks: u64| call_requires(quotient, (most, blocks)),
    ensures
        if cache is None {
            picked == Err::<TwoTierEvidence, PickError>(PickError::NoCacheInput)
        } else if load is None {
            picked == Err::<TwoTierEvidence, PickError>(PickError::NoLoadInput)
        } else {
            exists|evidence: Option<TwoTierEvidence>|
                picked == (match evidence {
                    Some(evidence) => Ok::<TwoTierEvidence, PickError>(evidence),
                    None => Err(PickError::NoEligibleWorker),
                }) && #[trigger] selects(
                    *parameters,
                    cache->Some_0@,
                    load->Some_0@,
                    request_blocks,
                    exceeds_ratio,
                    quotient,
                    evidence,
                )
        },
{
    let cache = match cache {
        Some(cache) => cache,
        None => {
            return Err(PickError::NoCacheInput);
        },
    };
    let load = match load {
        Some(load) => load,
        None => {
            return Err(PickError::NoLoadInput);
        },
    };
    let evidence = select_row_with_evidence(
        parameters,
        cache,
        load,
        request_blocks,
        exceeds_ratio,
        quotient,
    );
    match evidence {
        Some(evidence) => Ok(evidence),
        None => Err(PickError::NoEligibleWorker),
    }
}

/// Why a worker was picked.
#[derive(Debug)]
pub struct TwoTierExplanation {
    pub policy_type: &'static str,
    pub kind: &'static str,
    /// Why there is no explanation: there always is one.
    pub reason: Option<String>,
    pub selected_worker: WorkerWithDpRank,
    pub two_tier_rule: TwoTierEvidence,
}

/// Picks the row of a candidate, and explains the pick.
pub fn pick_with_explanation<
    R: Fn(Float64, usize, usize) -> bool,
    C: Fn(Float64, u64) -> Float64,
>(
    parameters: &Parameters,
    candidates: &[WorkerWithDpRank],
    cache: Option<&[Float64]>,
    load: Option<&[usize]>,
    request_blocks: u64,
    exceeds_ratio: R,
    quotient: C,
) -> (picked: Result<(usize, TwoTierExplanation), PickError>)
    requires
        forall|ratio: Float64, most: usize, least: usize|
            call_requires(exceeds_ratio, (ratio, most, least)),
        forall|most: Float64, blocks: u64| call_requires(quotient, (most, blocks)),
        cache is Some ==> cache->Some_0@.len() <= candidates@.len(),
    ensures
        if cache is None {
            picked is Err && picked->Err_0 == PickError::NoCacheInput
        } else if load is None {
            picked is Err && picked->Err_0 == PickError::NoLoadInput
        } else {
            exists|evidence: Option<TwoTierEvidence>|
                explained(candidates@, evidence, picked) && #[trigger] selects(
                    *parameters,
                    cache->Some_0@,
                    load->Some_0@,
                    request_blocks,
                    exceeds_ratio,
                    quotient,
                    evidence,
                )
        },
{
    let picked = pick(parameters, cache, load, request_blocks, exceeds_ratio, quotient);
    match picked {
        Ok(evidence) => {
            let row: usize = evidence.selected_row;
            assert(selects(
                *parameters,
                cache->Some_0@,
                load->Some_0@,
                request_blocks,
                exceeds_ratio,
                quotient,
                Some(evidence),
            ));
            let explanation = TwoTierExplanation {
                policy_type: POLICY_TYPE,
                kind: EXPLANATION_KIND,
                reason: None,
                selected_worker: candidates[row],
                two_tier_rule: evidence,
            };
            Ok((row, explanation))
        },
        Err(error) => Err(error),
    }
}

/// `picked` is the selected row with its explanation, or says that there is no
/// worker to pick.
pub open spec fn explained(
    candidates: Seq<WorkerWithDpRank>,
    evidence: Option<TwoTierEvidence>,
    picked: Result<(usize, TwoTierExplanation), PickError>,
) -> bool {
    match evidence {
        Some(evidence) => {
            &&& picked is Ok
            &&& picked->Ok_0.0 == evidence.selected_row
            &&& picked->Ok_0.1.policy_type@ == "dynamo-two-tier-cost-fn"@
            &&& picked->Ok_0.1.kind@ == "two_tier_rule"@
            &&& picked->Ok_0.1.reason is None
            &&& picked->Ok_0.1.selected_worker == candidates[evidence.selected_row as int]
            &&& picked->Ok_0.1.two_tier_rule == evidence
        },
        None => picked is Err && picked->Err_0 == PickError::NoEligibleWorker,
    }
}

/// Load displaces cache affinity only when both load gates hold: otherwise a
/// cache winner holds the largest overlap of all.
pub proof fn law_cache_tier_yields_only_to_both_gates<
    R: Fn(Float64, usize, usize) -> bool,
    C: Fn(Float64, u64) -> Float64,
>(
    parameters: Parameters,
    cache: Seq<Float64>,
    load: Seq<usize>,
    request_blocks: u64,
    exceeds_ratio: R,
    quotient: C,
    evidence: TwoTierEvidence,
)
    requires
        explains(
            parameters,
            cache,
            load,
            request_blocks,
            exceeds_ratio,
            quotient,
            evidence,
        ),
        evidence.cache_gate,
        !(evidence.absolute_load_gate && evidence.relative_load_gate),
    ensures
        forall|i: int|
            0 <= i < cache.len() ==> !(#[trigger] cache[i]).exceeds(
                evidence.selected_device_overlap_blocks,
            ),
{
    let most = evidence.max_device_overlap_blocks;
    assert forall|i: int| 0 <= i < cache.len() implies !(#[trigger] cache[i]).exceeds(
        evidence.selected_device_overlap_blocks,
    ) by {
        assert(cache[i].rank() <= most.rank());
        assert(evidence.selected_device_overlap_blocks.rank() <= most.rank());
    }
}

/// Outside the cache tier nobody is less loaded than the selected worker.
pub proof fn law_other_tiers_take_the_least_loaded<
    R: Fn(Float64, usize, usize) -> bool,
    C: Fn(Float64, u64) -> Float64,
>(
    parameters: Parameters,
    cache: Seq<Float64>,
    load: Seq<usize>,
    request_blocks: u64,
    exceeds_ratio: R,
    quotient: C,
    evidence: TwoTierEvidence,
)
    requires
        cache.len() == load.len(),
        explains(
            parameters,
            cache,
            load,
            request_blocks,
            exceeds_ratio,
            quotient,
            evidence,
        ),
        evidence.selected_rule != TwoTierRule::DeviceCacheAffinity,
    ensures
        evidence.selected_active_requests == evidence.min_active_requests,
{
    let i = choose|i: int| 0 <= i < load.len() && load[i] == evidence.min_active_requests;
    assert(candidate(cache, evidence.selected_rule, evidence.max_device_overlap_blocks, i));
}

/// Where every overlap is a number and there is a row for every load, a worker
/// is selected.
pub proof fn law_numbers_always_select<
    R: Fn(Float64, usize, usize) -> bool,
    C: Fn(Float64, u64) -> Float64,
>(
    parameters: Parameters,
    cache: Seq<Float64>,
    load: Seq<usize>,
    request_blocks: u64,
    exceeds_ratio: R,
    quotient: C,
    evidence: Option<TwoTierEvidence>,
)
    requires
        cache.len() > 0,
        cache.len() == load.len(),
        forall|i: int| 0 <= i < cache.len() ==> !(#[trigger] cache[i]).nan(),
        selects(
            parameters,
            cache,
            load,
            request_blocks,
            exceeds_ratio,
            quotient,
            evidence,
        ),
    ensures
        evidence is Some,
{
    if evidence is None {
        let gates = choose|gates: Gates|
            gates.max_overlap.nan() && rule_of(gates.absolute, gates.relative, gates.cache)
                == TwoTierRule::DeviceCacheAffinity && #[trigger] gates_of(
                parameters,
                cache,
                load,
                request_blocks,
                exceeds_ratio,
                quotient,
                gates,
            );
        assert(cache.contains(gates.max_overlap));
    }
}

} // verus!
