//! How much of a prompt the router index holds: on the best resident worker, on
//! the best eligible worker and on the selected one.

use crate::id_map::IdMap;
use crate::protocols::WorkerWithDpRank;
use vstd::prelude::*;

verus! {

pub const RAW_CACHE_COVERAGE_SCHEMA: &'static str = "dynamo.router.raw_cache_coverage.v1";

/// Where raw coverage comes from.
pub const RAW_CACHE_COVERAGE_BASIS: &'static str = "router_index";

#[derive(Debug, Clone, Copy, PartialEq, Eq, Structural)]
pub enum RawCacheObservation {
    Complete,
    MissingIndex,
    StaleIndex,
    InvalidCandidate,
    InvariantFailure,
}

impl RawCacheObservation {
    pub fn as_str(self) -> (name: &'static str)
        ensures
            name@ == (match self {
                RawCacheObservation::Complete => "complete"@,
                RawCacheObservation::MissingIndex => "missing_index"@,
                RawCacheObservation::StaleIndex => "stale_index"@,
                RawCacheObservation::InvalidCandidate => "invalid_candidate"@,
                RawCacheObservation::InvariantFailure => "invariant_failure"@,
            }),
    {
        match self {
            RawCacheObservation::Complete => "complete",
            RawCacheObservation::MissingIndex => "missing_index",
            RawCacheObservation::StaleIndex => "stale_index",
            RawCacheObservation::InvalidCandidate => "invalid_candidate",
            RawCacheObservation::InvariantFailure => "invariant_failure",
        }
    }
}

/// Whether the raw index was consulted for a request, and whether it was fresh.
#[derive(Debug, Clone, Copy, PartialEq, Eq, Structural)]
pub enum RawIndexState {
    Missing,
    Observed,
    Stale,
}

/// The data-parallel ranks of one worker.
#[derive(Debug, Clone, Copy, PartialEq, Eq, Structural)]
pub struct WorkerRanks {
    pub data_parallel_start_rank: u32,
    pub data_parallel_size: u32,
}

/// What coverage reads of a scheduling request: the prompt length, the state of
/// the raw index, and the overlap of each worker in each tier.
#[derive(Debug, Clone)]
pub struct CoverageRequest {
    pub isl_tokens: usize,
    pub raw_index_state: RawIndexState,
    pub device: Vec<(WorkerWithDpRank, usize)>,
    pub host_pinned: Vec<(WorkerWithDpRank, usize)>,
}

/// Which workers a request may be routed to. An absent set excludes nobody.
#[derive(Debug, Clone)]
pub struct RoutingEligibility {
    pub pinned_worker: Option<WorkerWithDpRank>,
    pub allowed_worker_ids: Option<Vec<u64>>,
    pub available_worker_ids: Option<Vec<u64>>,
    pub overloaded_worker_ids: Option<Vec<u64>>,
}

#[derive(Debug, Clone, Copy, PartialEq, Eq, Structural)]
pub struct RawCacheCandidate {
    pub worker_id: u64,
    pub dp_rank: u32,
    pub hbm_prefix_tokens: u64,
    pub cpu_extension_tokens: u64,
    pub total_tokens: u64,
}

/// Diagnostic maxima over valid entries only, not full-domain R/E/S. Retained
/// when malformed index entries or funnel inconsistencies prevent complete coverage.
/// Bounded to three candidates regardless of worker count; no hash inventory.
#[derive(Debug, Clone, Copy, PartialEq, Eq, Structural)]
pub struct RawCacheCandidateDiagnostics {
    pub rejected_candidates: u64,
    pub best_valid_resident: Option<RawCacheCandidate>,
    pub best_valid_eligible: Option<RawCacheCandidate>,
    pub valid_selected: Option<RawCacheCandidate>,
}

#[derive(Debug, Clone, PartialEq, Eq)]
pub struct RawCacheCoverage {
    pub schema: String,
    pub basis: String,
    pub observation: RawCacheObservation,
    pub input_tokens: u64,
    pub resident: Option<RawCacheCandidate>,
    pub eligible: Option<RawCacheCandidate>,
    pub selected: Option<RawCacheCandidate>,
    pub overload_gap_tokens: Option<u64>,
    pub selection_gap_tokens: Option<u64>,
    /// Additive diagnostics never authorize complete-token metric accounting.
    pub candidate_diagnostics: Option<RawCacheCandidateDiagnostics>,
}

/// The rank is one that its worker serves.
pub open spec fn serves(workers: Map<u64, WorkerRanks>, worker: WorkerWithDpRank) -> bool {
    &&& workers.contains_key(worker.worker_id)
    &&& workers[worker.worker_id].data_parallel_start_rank <= worker.dp_rank
    &&& worker.dp_rank < workers[worker.worker_id].data_parallel_start_rank
        + workers[worker.worker_id].data_parallel_size
    &&& worker.dp_rank < u32::MAX
}

impl RoutingEligibility {
    /// Whether the worker is known, serves the rank, and is in every set that
    /// it has to be in and in none that it must not be in.
    pub open spec fn valid_rank(
        &self,
        workers: Map<u64, WorkerRanks>,
        worker: WorkerWithDpRank,
    ) -> bool {
        &&& serves(workers, worker)
        &&& self.allowed_worker_ids matches Some(ids) ==> ids@.contains(worker.worker_id)
        &&& self.available_worker_ids matches Some(ids) ==> ids@.contains(worker.worker_id)
        &&& self.overloaded_worker_ids matches Some(ids) ==> !ids@.contains(worker.worker_id)
    }

    /// A valid rank that a pin, if there is one, names.
    pub open spec fn admits(
        &self,
        workers: Map<u64, WorkerRanks>,
        worker: WorkerWithDpRank,
    ) -> bool {
        &&& self.pinned_worker matches Some(pin) ==> pin == worker
        &&& self.valid_rank(workers, worker)
    }

    pub fn validate_worker_rank(
        &self,
        workers: &IdMap<WorkerRanks>,
        worker: WorkerWithDpRank,
    ) -> (ok: bool)
        ensures
            ok == self.valid_rank(workers@, worker),
            ok ==> workers@.contains_key(worker.worker_id),
            workers@.contains_key(worker.worker_id) ==> {
                let ranks = workers@[worker.worker_id];
                ok <==> {
                    &&& worker.dp_rank >= ranks.data_parallel_start_rank
                    &&& worker.dp_rank - ranks.data_parallel_start_rank < ranks.data_parallel_size
                    &&& worker.dp_rank != u32::MAX
                    &&& self.allowed_worker_ids is None
                        || self.allowed_worker_ids->Some_0@.contains(worker.worker_id)
                    &&& self.available_worker_ids is None
                        || self.available_worker_ids->Some_0@.contains(worker.worker_id)
                    &&& self.overloaded_worker_ids is None
                        || !self.overloaded_worker_ids->Some_0@.contains(worker.worker_id)
                }
            },
    {
        let served: bool = match workers.get(worker.worker_id) {
            Some(ranks) => ranks.data_parallel_start_rank <= worker.dp_rank && worker.dp_rank
                - ranks.data_parallel_start_rank < ranks.data_parallel_size && worker.dp_rank
                < u32::MAX,
            None => false,
        };
        if !served {
            return false;
        }
        if let Some(ids) = &self.allowed_worker_ids {
            if !contains_id(ids, worker.worker_id) {
                return false;
            }
        }
        if let Some(ids) = &self.available_worker_ids {
            if !contains_id(ids, worker.worker_id) {
                return false;
            }
        }
        if let Some(ids) = &self.overloaded_worker_ids {
            if contains_id(ids, worker.worker_id) {
                return false;
            }
        }
        true
    }

    fn allows(&self, workers: &IdMap<WorkerRanks>, worker: WorkerWithDpRank) -> (ok: bool)
        ensures
            ok == self.admits(workers@, worker),
    {
        let pinned: bool = match self.pinned_worker {
            Some(pin) => pin == worker,
            None => true,
        };
        pinned && self.validate_worker_rank(workers, worker)
    }
}

fn contains_id(ids: &Vec<u64>, id: u64) -> (b: bool)
    ensures
        b == ids@.contains(id),
{
    let mut i: usize = 0;
    while i < ids.len()
        invariant
            i <= ids@.len(),
            forall|j: int| 0 <= j < i ==> ids@[j] != id,
        decreases ids@.len() - i,
    {
        if ids[i] == id {
            return true;
        }
        i = i + 1;
    }
    false
}

/// The overlap that a table records for a worker, zero when it records none.
pub open spec fn overlap_in(table: Seq<(WorkerWithDpRank, usize)>, worker: WorkerWithDpRank) -> usize
    decreases table.len(),
{
    if table.len() == 0 {
        0
    } else if table[0].0 == worker {
        table[0].1
    } else {
        overlap_in(table.drop_first(), worker)
    }
}

fn overlap_of(table: &Vec<(WorkerWithDpRank, usize)>, worker: WorkerWithDpRank) -> (blocks: usize)
    ensures
        blocks == overlap_in(table@, worker),
{
    let mut i: usize = 0;
    proof {
        assert(table@.skip(0) =~= table@);
    }
    while i < table.len()
        invariant
            i <= table@.len(),
            overlap_in(table@, worker) == overlap_in(table@.skip(i as int), worker),
        decreases table@.len() - i,
    {
        proof {
            assert(table@.skip(i as int).drop_first() =~= table@.skip(i + 1));
        }
        if table[i].0 == worker {
            return table[i].1;
        }
        i = i + 1;
    }
    0
}

/// What the index holds for a worker, or nothing when the record claims more
/// than the complete blocks of the prompt. Host memory extends the device
/// prefix, so the two add up.
pub open spec fn candidate_of(
    request: CoverageRequest,
    worker: WorkerWithDpRank,
    block_size: u32,
) -> Option<RawCacheCandidate> {
    let hbm = overlap_in(request.device@, worker) as int;
    let cpu = overlap_in(request.host_pinned@, worker) as int;
    if block_size == 0 || hbm + cpu > request.isl_tokens as int / block_size as int {
        None
    } else {
        Some(
            RawCacheCandidate {
                worker_id: worker.worker_id,
                dp_rank: worker.dp_rank,
                hbm_prefix_tokens: (hbm * block_size) as u64,
                cpu_extension_tokens: (cpu * block_size) as u64,
                total_tokens: ((hbm + cpu) * block_size) as u64,
            },
        )
    }
}

/// Reads what the index holds for one worker.
pub fn candidate(request: &CoverageRequest, worker: WorkerWithDpRank, block_size: u32) -> (found:
    Result<RawCacheCandidate, ()>)
    ensures
        match candidate_of(*request, worker, block_size) {
            Some(c) => found == Ok::<RawCacheCandidate, ()>(c),
            None => found is Err,
        },
        found matches Ok(c) ==> c.total_tokens == c.hbm_prefix_tokens + c.cpu_extension_tokens
            && c.total_tokens <= request.isl_tokens,
{
    if block_size == 0 {
        return Err(());
    }
    // Router hashes represent complete blocks only. Reject a partial-tail
    // block instead of masking an invalid hashes-only request with a clamp.

    let complete_blocks: u64 = (request.isl_tokens / block_size as usize) as u64;
    let size: u64 = block_size as u64;
    let hbm: u64 = overlap_of(&request.device, worker) as u64;
    // HostPinned is a marginal extension beyond the device prefix.
    let cpu: u64 = overlap_of(&request.host_pinned, worker) as u64;
    let available_blocks: u64 = match hbm.checked_add(cpu) {
        Some(blocks) => blocks,
        None => {
            return Err(());
        },
    };
    if available_blocks > complete_blocks {
        return Err(());
    }
    // The complete-block bound guarantees these products fit in the prompt.

    proof {
        assert(complete_blocks * size <= request.isl_tokens) by (nonlinear_arith)
            requires
                complete_blocks == request.isl_tokens as int / block_size as int,
                size == block_size,
                block_size > 0,
        ;
        assert(available_blocks * size <= complete_blocks * size) by (nonlinear_arith)
            requires
                available_blocks <= complete_blocks,
        ;
        assert(hbm * size + cpu * size == available_blocks * size) by (nonlinear_arith)
            requires
                hbm + cpu == available_blocks,
        ;
        assert(hbm * size >= 0 && cpu * size >= 0) by (nonlinear_arith);
    }
    Ok(
        RawCacheCandidate {
            worker_id: worker.worker_id,
            dp_rank: worker.dp_rank,
            hbm_prefix_tokens: hbm * size,
            cpu_extension_tokens: cpu * size,
            total_tokens: available_blocks * size,
        },
    )
}

/// Candidates are ranked by tokens, then by identity: a tie goes to the larger.
pub open spec fn outranks(a: RawCacheCandidate, b: RawCacheCandidate) -> bool {
    ||| a.total_tokens > b.total_tokens
    ||| a.total_tokens == b.total_tokens && a.worker_id > b.worker_id
    ||| a.total_tokens == b.total_tokens && a.worker_id == b.worker_id && a.dp_rank > b.dp_rank
}

/// Keeps the better of the best so far and the current candidate.
pub fn candidate_maximum(best: &mut Option<RawCacheCandidate>, current: RawCacheCandidate)
    ensures
        *final(best) == (match *old(best) {
            Some(prior) => if outranks(current, prior) {
                Some(current)
            } else {
                Some(prior)
            },
            None => Some(current),
        }),
        *final(best) is Some,
        *final(best) == Some(current) || *final(best) == *old(best),
        (*final(best))->Some_0.total_tokens >= current.total_tokens,
        *old(best) is Some ==> (*final(best))->Some_0.total_tokens
            >= (*old(best))->Some_0.total_tokens,
{
    let better: bool = match *best {
        Some(prior) => current.total_tokens > prior.total_tokens || (current.total_tokens
            == prior.total_tokens && (current.worker_id > prior.worker_id || (current.worker_id
            == prior.worker_id && current.dp_rank > prior.dp_rank))),
        None => true,
    };
    if better {
        *best = Some(current);
    }
}

/// The two domains of a scan, and the rank that was selected.
pub struct Domains {
    pub workers: Map<u64, WorkerRanks>,
    pub request: CoverageRequest,
    pub resident: RoutingEligibility,
    pub eligible: RoutingEligibility,
    pub selected: WorkerWithDpRank,
    pub block_size: u32,
}

impl Domains {
    /// The ranks that a scan looks at: all of them, unless both domains are
    /// pinned to the selected one.
    pub open spec fn visits(self, worker: WorkerWithDpRank) -> bool {
        if self.resident.pinned_worker == Some(self.selected) && self.eligible.pinned_worker
            == Some(self.selected) {
            worker == self.selected
        } else {
            serves(self.workers, worker)
        }
    }

    pub open spec fn is_resident(self, worker: WorkerWithDpRank) -> bool {
        self.visits(worker) && self.resident.admits(self.workers, worker)
    }

    pub open spec fn is_eligible(self, worker: WorkerWithDpRank) -> bool {
        self.visits(worker) && self.eligible.admits(self.workers, worker)
    }

    pub open spec fn candidate(self, worker: WorkerWithDpRank) -> Option<RawCacheCandidate> {
        candidate_of(self.request, worker, self.block_size)
    }

    /// The ranks of either domain whose record is malformed.
    pub open spec fn rejected(self) -> Set<WorkerWithDpRank> {
        Set::new(
            |w: WorkerWithDpRank|
                (self.is_resident(w) || self.is_eligible(w)) && self.candidate(w) is None,
        )
    }

    /// `best` is the candidate of a domain that no other of it outranks.
    pub open spec fn is_best(
        self,
        domain: spec_fn(WorkerWithDpRank) -> bool,
        best: Option<RawCacheCandidate>,
    ) -> bool {
        match best {
            Some(c) => {
                &&& exists|w: WorkerWithDpRank| #[trigger]
                    domain(w) && self.candidate(w) == Some(c)
                &&& forall|w: WorkerWithDpRank| #[trigger]
                    domain(w) && self.candidate(w) is Some ==> !outranks(
                        self.candidate(w)->Some_0,
                        c,
                    )
            },
            None => forall|w: WorkerWithDpRank| #[trigger] domain(w) ==> self.candidate(w) is None,
        }
    }

    /// What a scan of the domains finds.
    pub open spec fn scanned(self, scan: RawCacheCandidateDiagnostics) -> bool {
        &&& self.rejected().finite()
        &&& scan.rejected_candidates == (if self.rejected().len() <= u64::MAX {
            self.rejected().len() as int
        } else {
            u64::MAX as int
        })
        &&& self.is_best(|w: WorkerWithDpRank| self.is_resident(w), scan.best_valid_resident)
        &&& self.is_best(|w: WorkerWithDpRank| self.is_eligible(w), scan.best_valid_eligible)
        &&& scan.valid_selected == (if self.is_resident(self.selected) || self.is_eligible(
            self.selected,
        ) {
            self.candidate(self.selected)
        } else {
            None
        })
    }
}

/// What a scan has found after looking at the ranks in `seen`.
spec fn scanned_upto(
    d: Domains,
    seen: Set<WorkerWithDpRank>,
    scan: RawCacheCandidateDiagnostics,
) -> bool {
    let bad = seen.filter(
        |w: WorkerWithDpRank|
            (d.resident.admits(d.workers, w) || d.eligible.admits(d.workers, w)) && d.candidate(
                w,
            ) is None,
    );
    &&& seen.finite()
    &&& scan.rejected_candidates == (if bad.len() <= u64::MAX {
        bad.len() as int
    } else {
        u64::MAX as int
    })
    &&& d.is_best(
        |w: WorkerWithDpRank| seen.contains(w) && d.resident.admits(d.workers, w),
        scan.best_valid_resident,
    )
    &&& d.is_best(
        |w: WorkerWithDpRank| seen.contains(w) && d.eligible.admits(d.workers, w),
        scan.best_valid_eligible,
    )
    &&& scan.valid_selected == (if seen.contains(d.selected) && (d.resident.admits(
        d.workers,
        d.selected,
    ) || d.eligible.admits(d.workers, d.selected)) {
        d.candidate(d.selected)
    } else {
        None
    })
}

/// One more candidate of a domain.
proof fn lemma_best_grows(
    d: Domains,
    before: spec_fn(WorkerWithDpRank) -> bool,
    after: spec_fn(WorkerWithDpRank) -> bool,
    worker: WorkerWithDpRank,
    prior: Option<RawCacheCandidate>,
    best: Option<RawCacheCandidate>,
)
    requires
        d.is_best(before, prior),
        forall|w: WorkerWithDpRank| w != worker ==> #[trigger] after(w) == before(w),
        !before(worker),
        best == (if after(worker) && d.candidate(worker) is Some {
            match prior {
                Some(p) => if outranks(d.candidate(worker)->Some_0, p) {
                    d.candidate(worker)
                } else {
                    prior
                },
                None => d.candidate(worker),
            }
        } else {
            prior
        }),
    ensures
        d.is_best(after, best),
{
    match best {
        Some(c) => {
            if prior is Some && prior == best && !(after(worker) && d.candidate(worker) == best) {
                let w = choose|w: WorkerWithDpRank| #[trigger] before(w) && d.candidate(w) == best;
                assert(after(w));
            }
            if after(worker) && d.candidate(worker) == best {
                assert(after(worker));
            }
            if prior is Some {
                let w = choose|w: WorkerWithDpRank| #[trigger] before(w) && d.candidate(w) == prior;
                assert(after(w));
            }
            assert forall|w: WorkerWithDpRank| #[trigger]
                after(w) && d.candidate(w) is Some implies !outranks(
                d.candidate(w)->Some_0,
                c,
            ) by {
                if w != worker {
                    assert(before(w));
                    assert(!outranks(d.candidate(w)->Some_0, prior->Some_0));
                }
            }
        },
        None => {
            assert forall|w: WorkerWithDpRank| #[trigger] after(w) implies d.candidate(
                w,
            ) is None by {
                if w != worker {
                    assert(before(w));
                }
            }
        },
    }
}

/// Looks at one more rank.
fn visit(
    workers: &IdMap<WorkerRanks>,
    request: &CoverageRequest,
    resident_eligibility: &RoutingEligibility,
    eligible_eligibility: &RoutingEligibility,
    selected_worker: WorkerWithDpRank,
    block_size: u32,
    worker: WorkerWithDpRank,
    seen: Ghost<Set<WorkerWithDpRank>>,
    scan: RawCacheCandidateDiagnostics,
) -> (next: RawCacheCandidateDiagnostics)
    requires
        scanned_upto(
            (Domains {
                workers: workers@,
                request: *request,
                resident: *resident_eligibility,
                eligible: *eligible_eligibility,
                selected: selected_worker,
                block_size,
            }),
            seen@,
            scan,
        ),
        !seen@.contains(worker),
    ensures
        scanned_upto(
            (Domains {
                workers: workers@,
                request: *request,
                resident: *resident_eligibility,
                eligible: *eligible_eligibility,
                selected: selected_worker,
                block_size,
            }),
            seen@.insert(worker),
            next,
        ),
{
    let ghost d = Domains {
        workers: workers@,
        request: *request,
        resident: *resident_eligibility,
        eligible: *eligible_eligibility,
        selected: selected_worker,
        block_size,
    };
    let resident = resident_eligibility.allows(workers, worker);
    let eligible = eligible_eligibility.allows(workers, worker);
    let mut next = scan;
    let ghost grown = seen@.insert(worker);
    let ghost is_bad = |w: WorkerWithDpRank|
        (d.resident.admits(d.workers, w) || d.eligible.admits(d.workers, w)) && d.candidate(
            w,
        ) is None;
    proof {
        if is_bad(worker) {
            assert(grown.filter(is_bad) =~= seen@.filter(is_bad).insert(worker));
        } else {
            assert(grown.filter(is_bad) =~= seen@.filter(is_bad));
        }
    }
    if resident || eligible {
        // Convert once for the union of both domains, including the selected
        // rank. A malformed entry is counted once even when it is in both.
        match candidate(request, worker, block_size) {
            Ok(current) => {
                if resident {
                    candidate_maximum(&mut next.best_valid_resident, current);
                }
                if eligible {
                    candidate_maximum(&mut next.best_valid_eligible, current);
                }
                if worker == selected_worker {
                    next.valid_selected = Some(current);
                }
            },
            Err(_) => {
                next.rejected_candidates = next.rejected_candidates.saturating_add(1);
            },
        }
    }
    proof {
        lemma_best_grows(
            d,
            |w: WorkerWithDpRank| seen@.contains(w) && d.resident.admits(d.workers, w),
            |w: WorkerWithDpRank| grown.contains(w) && d.resident.admits(d.workers, w),
            worker,
            scan.best_valid_resident,
            next.best_valid_resident,
        );
        lemma_best_grows(
            d,
            |w: WorkerWithDpRank| seen@.contains(w) && d.eligible.admits(d.workers, w),
            |w: WorkerWithDpRank| grown.contains(w) && d.eligible.admits(d.workers, w),
            worker,
            scan.best_valid_eligible,
            next.best_valid_eligible,
        );
    }
    next
}

/// Domains that agree on every rank have the same best.
proof fn lemma_same_domain(
    d: Domains,
    a: spec_fn(WorkerWithDpRank) -> bool,
    b: spec_fn(WorkerWithDpRank) -> bool,
    best: Option<RawCacheCandidate>,
)
    requires
        d.is_best(a, best),
        forall|w: WorkerWithDpRank| #[trigger] a(w) == b(w),
    ensures
        d.is_best(b, best),
{
    match best {
        Some(c) => {
            let w = choose|w: WorkerWithDpRank| #[trigger] a(w) && d.candidate(w) == Some(c);
            assert(b(w));
            assert forall|w: WorkerWithDpRank| #[trigger]
                b(w) && d.candidate(w) is Some implies !outranks(d.candidate(w)->Some_0, c) by {
                assert(a(w));
            }
        },
        None => {
            assert forall|w: WorkerWithDpRank| #[trigger] b(w) implies d.candidate(w) is None by {
                assert(a(w));
            }
        },
    }
}

/// A scan that has looked at every rank is the whole scan.
proof fn lemma_scan_done(
    d: Domains,
    seen: Set<WorkerWithDpRank>,
    scan: RawCacheCandidateDiagnostics,
)
    requires
        scanned_upto(d, seen, scan),
        forall|w: WorkerWithDpRank| #[trigger] seen.contains(w) <==> d.visits(w),
    ensures
        d.scanned(scan),
{
    let is_bad = |w: WorkerWithDpRank|
        (d.resident.admits(d.workers, w) || d.eligible.admits(d.workers, w)) && d.candidate(
            w,
        ) is None;
    assert forall|w: WorkerWithDpRank| d.rejected().contains(w) <==> seen.filter(is_bad).contains(
        w,
    ) by {
        assert(seen.contains(w) <==> d.visits(w));
    }
    assert(d.rejected() =~= seen.filter(is_bad));
    let resident = |w: WorkerWithDpRank| seen.contains(w) && d.resident.admits(d.workers, w);
    let eligible = |w: WorkerWithDpRank| seen.contains(w) && d.eligible.admits(d.workers, w);
    lemma_same_domain(
        d,
        resident,
        |w: WorkerWithDpRank| d.is_resident(w),
        scan.best_valid_resident,
    );
    lemma_same_domain(
        d,
        eligible,
        |w: WorkerWithDpRank| d.is_eligible(w),
        scan.best_valid_eligible,
    );
    assert(seen.contains(d.selected) <==> d.visits(d.selected));
}

/// Finds the best resident, the best eligible and the selected candidate.
pub fn scan_candidates(
    workers: &IdMap<WorkerRanks>,
    request: &CoverageRequest,
    resident_eligibility: &RoutingEligibility,
    eligible_eligibility: &RoutingEligibility,
    selected_worker: WorkerWithDpRank,
    block_size: u32,
) -> (scan: RawCacheCandidateDiagnostics)
    ensures
        (Domains {
            workers: workers@,
            request: *request,
            resident: *resident_eligibility,
            eligible: *eligible_eligibility,
            selected: selected_worker,
            block_size,
        }).scanned(scan),
{
    let ghost d = Domains {
        workers: workers@,
        request: *request,
        resident: *resident_eligibility,
        eligible: *eligible_eligibility,
        selected: selected_worker,
        block_size,
    };
    let mut scan = RawCacheCandidateDiagnostics {
        rejected_candidates: 0,
        best_valid_resident: None,
        best_valid_eligible: None,
        valid_selected: None,
    };
    let ghost mut seen: Set<WorkerWithDpRank> = Set::empty();
    proof {
        let is_bad = |w: WorkerWithDpRank|
            (d.resident.admits(d.workers, w) || d.eligible.admits(d.workers, w)) && d.candidate(
                w,
            ) is None;
        assert(seen.filter(is_bad) =~= Set::empty());
    }
    // Preserve the constant-work explicit-pin path rather than scanning a fleet
    // to find a candidate whose identity is already fixed in both domains.
    let pinned: bool = match (resident_eligibility.pinned_worker, eligible_eligibility.pinned_worker) {
        (Some(a), Some(b)) => a == selected_worker && b == selected_worker,
        _ => false,
    };
    if pinned {
        let scan = visit(
            workers,
            request,
            resident_eligibility,
            eligible_eligibility,
            selected_worker,
            block_size,
            selected_worker,
            Ghost(seen),
            scan,
        );
        proof {
            lemma_scan_done(d, seen.insert(selected_worker), scan);
        }
        return scan;
    }
    let ids = workers.ids();
    let mut i: usize = 0;
    while i < ids.len()
        invariant
            i <= ids@.len(),
            ids@.no_duplicates(),
            ids@.to_set() == workers@.dom(),
            d == (Domains {
                workers: workers@,
                request: *request,
                resident: *resident_eligibility,
                eligible: *eligible_eligibility,
                selected: selected_worker,
                block_size,
            }),
            scanned_upto(d, seen, scan),
            forall|w: WorkerWithDpRank| #[trigger]
                seen.contains(w) <==> serves(workers@, w) && ids@.take(i as int).contains(
                    w.worker_id,
                ),
        decreases ids@.len() - i,
    {
        let worker_id = ids[i];
        let ghost done = seen;
        assert(ids@.to_set().contains(worker_id));
        if let Some(ranks) = workers.get(worker_id) {
            let start = ranks.data_parallel_start_rank;
            let end = start.saturating_add(ranks.data_parallel_size);
            let mut dp_rank = start;
            while dp_rank < end
                invariant
                    start <= dp_rank,
                    dp_rank <= end || end < start,
                    i < ids@.len(),
                    worker_id == ids@[i as int],
                    ids@.no_duplicates(),
                    workers@.contains_key(worker_id),
                    workers@[worker_id] == *ranks,
                    start == ranks.data_parallel_start_rank,
                    end == (if start + ranks.data_parallel_size > u32::MAX {
                        u32::MAX as int
                    } else {
                        start + ranks.data_parallel_size
                    }),
                    d == (Domains {
                        workers: workers@,
                        request: *request,
                        resident: *resident_eligibility,
                        eligible: *eligible_eligibility,
                        selected: selected_worker,
                        block_size,
                    }),
                    scanned_upto(d, seen, scan),
                    forall|w: WorkerWithDpRank| #[trigger]
                        done.contains(w) <==> serves(workers@, w) && ids@.take(i as int).contains(
                            w.worker_id,
                        ),
                    forall|w: WorkerWithDpRank| #[trigger]
                        seen.contains(w) <==> done.contains(w) || (w.worker_id == worker_id && start
                            <= w.dp_rank < dp_rank),
                decreases end - dp_rank,
            {
                let worker = WorkerWithDpRank::new(worker_id, dp_rank);
                proof {
                    assert(!ids@.take(i as int).contains(worker_id)) by {
                        if ids@.take(i as int).contains(worker_id) {
                            let j = choose|j: int|
                                0 <= j < i && ids@.take(i as int)[j] == worker_id;
                            assert(ids@[j] == ids@[i as int]);
                        }
                    }
                    assert(!done.contains(worker));
                    assert(!seen.contains(worker));
                }
                scan =
                visit(
                    workers,
                    request,
                    resident_eligibility,
                    eligible_eligibility,
                    selected_worker,
                    block_size,
                    worker,
                    Ghost(seen),
                    scan,
                );
                proof {
                    seen = seen.insert(worker);
                }
                dp_rank = dp_rank + 1;
            }
        }
        proof {
            let upto = ids@.take(i as int);
            let next = ids@.take(i + 1);
            assert(next =~= upto.push(worker_id));
            assert forall|w: WorkerWithDpRank| #[trigger] seen.contains(w) <==> serves(workers@, w)
                && next.contains(w.worker_id) by {
                if next.contains(w.worker_id) && w.worker_id != worker_id {
                    let j = choose|j: int| 0 <= j < next.len() && next[j] == w.worker_id;
                    assert(upto[j] == w.worker_id);
                }
                if upto.contains(w.worker_id) {
                    let j = choose|j: int| 0 <= j < upto.len() && upto[j] == w.worker_id;
                    assert(next[j] == w.worker_id);
                }
                assert(next[i as int] == worker_id);
                assert(done.contains(w) <==> serves(workers@, w) && upto.contains(w.worker_id));
            }
        }
        i = i + 1;
    }
    proof {
        assert(ids@.take(i as int) =~= ids@);
        assert forall|w: WorkerWithDpRank| #[trigger] seen.contains(w) <==> d.visits(w) by {
            if serves(workers@, w) {
                assert(ids@.to_set().contains(w.worker_id));
            }
        }
        lemma_scan_done(d, seen, scan);
    }
    scan
}

impl RawCacheCoverage {
    /// A coverage that says why there is none.
    pub open spec fn is_incomplete(
        &self,
        observation: RawCacheObservation,
        input_tokens: usize,
        diagnostics: Option<RawCacheCandidateDiagnostics>,
    ) -> bool {
        &&& self.labelled()
        &&& self.observation == observation
        &&& self.input_tokens == input_tokens
        &&& self.resident is None
        &&& self.eligible is None
        &&& self.selected is None
        &&& self.overload_gap_tokens is None
        &&& self.selection_gap_tokens is None
        &&& self.candidate_diagnostics == diagnostics
    }

    pub open spec fn labelled(&self) -> bool {
        &&& self.schema@ == RAW_CACHE_COVERAGE_SCHEMA@
        &&& self.basis@ == RAW_CACHE_COVERAGE_BASIS@
    }

    pub fn incomplete(observation: RawCacheObservation, input_tokens: usize) -> (coverage: Self)
        ensures
            coverage.is_incomplete(observation, input_tokens, None),
    {
        RawCacheCoverage {
            schema: RAW_CACHE_COVERAGE_SCHEMA.to_owned(),
            basis: RAW_CACHE_COVERAGE_BASIS.to_owned(),
            observation,
            input_tokens: input_tokens as u64,
            resident: None,
            eligible: None,
            selected: None,
            overload_gap_tokens: None,
            selection_gap_tokens: None,
            candidate_diagnostics: None,
        }
    }
}

/// What a finished scan says of a request whose index was observed.
pub open spec fn concludes(
    request: CoverageRequest,
    scan: RawCacheCandidateDiagnostics,
    coverage: RawCacheCoverage,
) -> bool {
    if scan.rejected_candidates > 0 {
        coverage.is_incomplete(
            RawCacheObservation::InvariantFailure,
            request.isl_tokens,
            Some(scan),
        )
    } else {
        match (scan.best_valid_resident, scan.best_valid_eligible, scan.valid_selected) {
            (Some(resident), Some(eligible), Some(selected)) => {
                if selected.total_tokens > eligible.total_tokens || eligible.total_tokens
                    > resident.total_tokens || resident.total_tokens > request.isl_tokens {
                    coverage.is_incomplete(
                        RawCacheObservation::InvariantFailure,
                        request.isl_tokens,
                        Some(scan),
                    )
                } else {
                    &&& coverage.labelled()
                    &&& coverage.observation == RawCacheObservation::Complete
                    &&& coverage.input_tokens == request.isl_tokens
                    &&& coverage.resident == Some(resident)
                    &&& coverage.eligible == Some(eligible)
                    &&& coverage.selected == Some(selected)
                    &&& coverage.overload_gap_tokens == Some(
                        (resident.total_tokens - eligible.total_tokens) as u64,
                    )
                    &&& coverage.selection_gap_tokens == Some(
                        (eligible.total_tokens - selected.total_tokens) as u64,
                    )
                    &&& coverage.candidate_diagnostics is None
                }
            },
            _ => coverage.is_incomplete(
                RawCacheObservation::InvalidCandidate,
                request.isl_tokens,
                None,
            ),
        }
    }
}

/// Computes the resident, eligible and selected coverage of a request, and the
/// gaps between them.
pub fn compute_raw_cache_coverage(
    workers: &IdMap<WorkerRanks>,
    request: &CoverageRequest,
    resident_eligibility: &RoutingEligibility,
    eligible_eligibility: &RoutingEligibility,
    selected_worker: WorkerWithDpRank,
    block_size: u32,
) -> (coverage: RawCacheCoverage)
    ensures
        if request.raw_index_state == RawIndexState::Stale {
            coverage.is_incomplete(RawCacheObservation::StaleIndex, request.isl_tokens, None)
        } else if request.raw_index_state != RawIndexState::Observed || request.isl_tokens == 0 {
            coverage.is_incomplete(RawCacheObservation::MissingIndex, request.isl_tokens, None)
        } else if !eligible_eligibility.admits(workers@, selected_worker) {
            coverage.is_incomplete(RawCacheObservation::InvalidCandidate, request.isl_tokens, None)
        } else {
            exists|scan: RawCacheCandidateDiagnostics|
                #![trigger concludes(*request, scan, coverage)]
                (Domains {
                    workers: workers@,
                    request: *request,
                    resident: *resident_eligibility,
                    eligible: *eligible_eligibility,
                    selected: selected_worker,
                    block_size,
                }).scanned(scan) && concludes(*request, scan, coverage)
        },
        ({
            let id = selected_worker.worker_id;
            let rank = selected_worker.dp_rank;
            &&& workers@.contains_key(id)
            &&& workers@[id].data_parallel_start_rank <= rank
            &&& rank < workers@[id].data_parallel_start_rank + workers@[id].data_parallel_size
            &&& rank < u32::MAX
            &&& resident_eligibility.pinned_worker is None || resident_eligibility.pinned_worker
                == Some(selected_worker)
            &&& eligible_eligibility.pinned_worker is None || eligible_eligibility.pinned_worker
                == Some(selected_worker)
            &&& resident_eligibility.allowed_worker_ids is None
                || resident_eligibility.allowed_worker_ids->Some_0@.contains(id)
            &&& eligible_eligibility.allowed_worker_ids is None
                || eligible_eligibility.allowed_worker_ids->Some_0@.contains(id)
            &&& resident_eligibility.available_worker_ids is None
                || resident_eligibility.available_worker_ids->Some_0@.contains(id)
            &&& eligible_eligibility.available_worker_ids is None
                || eligible_eligibility.available_worker_ids->Some_0@.contains(id)
            &&& resident_eligibility.overloaded_worker_ids is None
                || !resident_eligibility.overloaded_worker_ids->Some_0@.contains(id)
            &&& eligible_eligibility.overloaded_worker_ids is None
                || !eligible_eligibility.overloaded_worker_ids->Some_0@.contains(id)
        }) ==> coverage.observation != RawCacheObservation::InvalidCandidate,
{
    if request.raw_index_state == RawIndexState::Stale {
        return RawCacheCoverage::incomplete(RawCacheObservation::StaleIndex, request.isl_tokens);
    }
    if request.raw_index_state != RawIndexState::Observed || request.isl_tokens == 0 {
        return RawCacheCoverage::incomplete(RawCacheObservation::MissingIndex, request.isl_tokens);
    }
    if !eligible_eligibility.allows(workers, selected_worker) {
        return RawCacheCoverage::incomplete(
            RawCacheObservation::InvalidCandidate,
            request.isl_tokens,
        );
    }
    let scan = scan_candidates(
        workers,
        request,
        resident_eligibility,
        eligible_eligibility,
        selected_worker,
        block_size,
    );
    let coverage = conclude(request, scan);
    proof {
        assert(concludes(*request, scan, coverage));
        let d = Domains {
            workers: workers@,
            request: *request,
            resident: *resident_eligibility,
            eligible: *eligible_eligibility,
            selected: selected_worker,
            block_size,
        };
        if resident_eligibility.admits(workers@, selected_worker) {
            law_valid_selection_is_no_invalid_candidate(d, scan, coverage);
        }
    }
    coverage
}

/// Turns a finished scan into the coverage of a request.
pub fn conclude(request: &CoverageRequest, scan: RawCacheCandidateDiagnostics) -> (coverage:
    RawCacheCoverage)
    ensures
        concludes(*request, scan, coverage),
{
    if scan.rejected_candidates > 0 {
        let mut coverage = RawCacheCoverage::incomplete(
            RawCacheObservation::InvariantFailure,
            request.isl_tokens,
        );
        coverage.candidate_diagnostics = Some(scan);
        return coverage;
    }
    let (resident, eligible, selected) = match (
        scan.best_valid_resident,
        scan.best_valid_eligible,
        scan.valid_selected,
    ) {
        (Some(resident), Some(eligible), Some(selected)) => (resident, eligible, selected),
        _ => {
            return RawCacheCoverage::incomplete(
                RawCacheObservation::InvalidCandidate,
                request.isl_tokens,
            );
        },
    };
    if selected.total_tokens > eligible.total_tokens || eligible.total_tokens
        > resident.total_tokens || resident.total_tokens > request.isl_tokens as u64 {
        let mut coverage = RawCacheCoverage::incomplete(
            RawCacheObservation::InvariantFailure,
            request.isl_tokens,
        );
        coverage.candidate_diagnostics = Some(scan);
        return coverage;
    }
    RawCacheCoverage {
        schema: RAW_CACHE_COVERAGE_SCHEMA.to_owned(),
        basis: RAW_CACHE_COVERAGE_BASIS.to_owned(),
        observation: RawCacheObservation::Complete,
        input_tokens: request.isl_tokens as u64,
        resident: Some(resident),
        eligible: Some(eligible),
        selected: Some(selected),
        overload_gap_tokens: Some(resident.total_tokens - eligible.total_tokens),
        selection_gap_tokens: Some(eligible.total_tokens - selected.total_tokens),
        candidate_diagnostics: None,
    }
}

/// In a complete coverage the two gaps are what separates the best resident
/// coverage from the selected one, and none of it exceeds the prompt.
pub proof fn law_gaps_add_up(
    request: CoverageRequest,
    scan: RawCacheCandidateDiagnostics,
    coverage: RawCacheCoverage,
)
    requires
        concludes(request, scan, coverage),
        coverage.observation == RawCacheObservation::Complete,
    ensures
        coverage.resident is Some && coverage.selected is Some,
        coverage.overload_gap_tokens is Some && coverage.selection_gap_tokens is Some,
        coverage.selected->Some_0.total_tokens + coverage.selection_gap_tokens->Some_0
            + coverage.overload_gap_tokens->Some_0 == coverage.resident->Some_0.total_tokens,
        coverage.resident->Some_0.total_tokens <= coverage.input_tokens,
{
}

/// Maxima are published only when every record of both domains is well formed.
pub proof fn law_malformed_record_forbids_maxima(
    d: Domains,
    scan: RawCacheCandidateDiagnostics,
    coverage: RawCacheCoverage,
    worker: WorkerWithDpRank,
)
    requires
        d.scanned(scan),
        concludes(d.request, scan, coverage),
        d.is_resident(worker) || d.is_eligible(worker),
        d.candidate(worker) is None,
    ensures
        coverage.observation == RawCacheObservation::InvariantFailure,
        coverage.resident is None && coverage.eligible is None && coverage.selected is None,
{
    assert(d.rejected().contains(worker));
    if d.rejected().len() == 0 {
        assert(d.rejected() =~= Set::empty());
    }
}

/// A worker serves consecutive ranks: from its first one, as many as its size
/// says, and no others.
pub proof fn law_ranks_are_consecutive(
    workers: Map<u64, WorkerRanks>,
    worker_id: u64,
    start: u32,
    size: u32,
    rank: u32,
)
    requires
        workers.contains_key(worker_id),
        workers[worker_id].data_parallel_start_rank == start,
        workers[worker_id].data_parallel_size == size,
        start + size <= u32::MAX,
    ensures
        serves(workers, WorkerWithDpRank { worker_id, dp_rank: rank }) <==> start <= rank && rank
            < start + size,
        forall|k: int|
            0 <= k < size ==> serves(
                workers,
                (WorkerWithDpRank { worker_id, dp_rank: #[trigger] ((start + k) as u32) }),
            ),
{
}

/// No rank of an unknown worker is served.
pub proof fn law_unknown_workers_serve_nothing(
    workers: Map<u64, WorkerRanks>,
    worker: WorkerWithDpRank,
)
    requires
        !workers.contains_key(worker.worker_id),
    ensures
        !serves(workers, worker),
{
}

/// A rank is admitted exactly if its worker serves it, a pin names it where
/// there is one, and each set that is given lets its worker pass.
pub proof fn law_admission_asks_every_set(
    eligibility: RoutingEligibility,
    workers: Map<u64, WorkerRanks>,
    worker: WorkerWithDpRank,
)
    ensures
        eligibility.admits(workers, worker) <==> {
            let id = worker.worker_id;
            &&& workers.contains_key(id)
            &&& workers[id].data_parallel_start_rank <= worker.dp_rank
            &&& worker.dp_rank - workers[id].data_parallel_start_rank
                < workers[id].data_parallel_size
            &&& worker.dp_rank != u32::MAX
            &&& eligibility.pinned_worker is Some ==> eligibility.pinned_worker->Some_0 == worker
            &&& eligibility.allowed_worker_ids is Some
                ==> eligibility.allowed_worker_ids->Some_0@.contains(id)
            &&& eligibility.available_worker_ids is Some
                ==> eligibility.available_worker_ids->Some_0@.contains(id)
            &&& eligibility.overloaded_worker_ids is Some
                ==> !eligibility.overloaded_worker_ids->Some_0@.contains(id)
        },
{
}

/// A selected rank that its worker serves and that no pin and no set excludes
/// is never reported as an invalid candidate.
pub proof fn law_valid_selection_is_no_invalid_candidate(
    d: Domains,
    scan: RawCacheCandidateDiagnostics,
    coverage: RawCacheCoverage,
)
    requires
        d.scanned(scan),
        concludes(d.request, scan, coverage),
        ({
            let id = d.selected.worker_id;
            let rank = d.selected.dp_rank;
            &&& d.workers.contains_key(id)
            &&& d.workers[id].data_parallel_start_rank <= rank
            &&& rank < d.workers[id].data_parallel_start_rank + d.workers[id].data_parallel_size
            &&& rank < u32::MAX
            &&& d.resident.pinned_worker is None || d.resident.pinned_worker == Some(d.selected)
            &&& d.eligible.pinned_worker is None || d.eligible.pinned_worker == Some(d.selected)
            &&& d.resident.allowed_worker_ids is None
                || d.resident.allowed_worker_ids->Some_0@.contains(id)
            &&& d.eligible.allowed_worker_ids is None
                || d.eligible.allowed_worker_ids->Some_0@.contains(id)
            &&& d.resident.available_worker_ids is None
                || d.resident.available_worker_ids->Some_0@.contains(id)
            &&& d.eligible.available_worker_ids is None
                || d.eligible.available_worker_ids->Some_0@.contains(id)
            &&& d.resident.overloaded_worker_ids is None
                || !d.resident.overloaded_worker_ids->Some_0@.contains(id)
            &&& d.eligible.overloaded_worker_ids is None
                || !d.eligible.overloaded_worker_ids->Some_0@.contains(id)
        }),
    ensures
        coverage.observation != RawCacheObservation::InvalidCandidate,
{
    let resident = |w: WorkerWithDpRank| d.is_resident(w);
    let eligible = |w: WorkerWithDpRank| d.is_eligible(w);
    assert(resident(d.selected));
    assert(eligible(d.selected));
    assert(d.is_best(resident, scan.best_valid_resident));
    assert(d.is_best(eligible, scan.best_valid_eligible));
    if d.candidate(d.selected) is None {
        law_malformed_record_forbids_maxima(d, scan, coverage, d.selected);
    }
}

/// The overlap of a worker is that of its first record in the table, and zero
/// if it has none.
pub proof fn law_overlap_is_the_first_record(
    table: Seq<(WorkerWithDpRank, usize)>,
    worker: WorkerWithDpRank,
    at: int,
)
    requires
        0 <= at <= table.len(),
        forall|i: int| 0 <= i < at ==> (#[trigger] table[i]).0 != worker,
        at < table.len() ==> table[at].0 == worker,
    ensures
        overlap_in(table, worker) == (if at < table.len() {
            table[at].1
        } else {
            0
        }),
    decreases at,
{
    if at > 0 {
        let rest = table.drop_first();
        assert(table[0].0 != worker);
        assert forall|i: int| 0 <= i < at - 1 implies (#[trigger] rest[i]).0 != worker by {
            assert(rest[i] == table[i + 1]);
        }
        law_overlap_is_the_first_record(rest, worker, at - 1);
    }
}

/// A candidate holds whole blocks: its device prefix and its host extension,
/// each in tokens, and their sum. The record is malformed exactly if the two
/// claim more blocks than the prompt has complete ones, or if blocks have no
/// size.
pub proof fn law_candidates_hold_whole_blocks(
    request: CoverageRequest,
    worker: WorkerWithDpRank,
    block_size: u32,
    device: usize,
    host: usize,
)
    requires
        overlap_in(request.device@, worker) == device,
        overlap_in(request.host_pinned@, worker) == host,
    ensures
        candidate_of(request, worker, block_size) is None <==> block_size == 0 || (device + host)
            * block_size > request.isl_tokens,
        candidate_of(request, worker, block_size) is Some ==> {
            let c = candidate_of(request, worker, block_size)->Some_0;
            &&& c.worker_id == worker.worker_id
            &&& c.dp_rank == worker.dp_rank
            &&& c.hbm_prefix_tokens == device * block_size
            &&& c.cpu_extension_tokens == host * block_size
            &&& c.total_tokens == (device + host) * block_size
        },
{
    if block_size > 0 {
        let isl = request.isl_tokens as int;
        let size = block_size as int;
        let blocks = device as int + host as int;
        let complete = isl / size;
        assert(isl == size * complete + isl % size && 0 <= isl % size < size)
            by (nonlinear_arith)
            requires
                size > 0,
                complete == isl / size,
        ;
        assert(blocks <= complete ==> blocks * size <= isl) by (nonlinear_arith)
            requires
                isl == size * complete + isl % size,
                0 <= isl % size,
                size > 0,
        ;
        assert(blocks > complete ==> blocks * size > isl) by (nonlinear_arith)
            requires
                isl == size * complete + isl % size,
                isl % size < size,
                size > 0,
        ;
        assert(device * size <= blocks * size && host * size <= blocks * size && device * size >= 0
            && host * size >= 0) by (nonlinear_arith)
            requires
                blocks == device + host,
                device >= 0,
                host >= 0,
                size > 0,
        ;
    }
}

/// More tokens outrank fewer; among equals the higher worker, and of one worker
/// the higher rank.
pub proof fn law_more_tokens_outrank_fewer(a: RawCacheCandidate, b: RawCacheCandidate)
    ensures
        a.total_tokens > b.total_tokens ==> outranks(a, b),
        outranks(a, b) ==> a.total_tokens >= b.total_tokens && !outranks(b, a),
        a.total_tokens == b.total_tokens && a.worker_id > b.worker_id ==> outranks(a, b),
        a.total_tokens == b.total_tokens && a.worker_id == b.worker_id ==> (outranks(a, b)
            <==> a.dp_rank > b.dp_rank),
{
}

/// What a scan finds is a maximum: no rank of a domain that was looked at holds
/// more tokens than the domain's best, and the best is one of them.
pub proof fn law_best_holds_the_most_tokens(
    d: Domains,
    scan: RawCacheCandidateDiagnostics,
    worker: WorkerWithDpRank,
)
    requires
        d.scanned(scan),
        d.candidate(worker) is Some,
        d.resident.pinned_worker is None || d.eligible.pinned_worker is None,
    ensures
        d.resident.admits(d.workers, worker) ==> scan.best_valid_resident is Some
            && scan.best_valid_resident->Some_0.total_tokens
            >= d.candidate(worker)->Some_0.total_tokens,
        d.eligible.admits(d.workers, worker) ==> scan.best_valid_eligible is Some
            && scan.best_valid_eligible->Some_0.total_tokens
            >= d.candidate(worker)->Some_0.total_tokens,
        worker == d.selected && (d.resident.admits(d.workers, worker) || d.eligible.admits(
            d.workers,
            worker,
        )) ==> scan.valid_selected == d.candidate(worker),
{
    let resident = |w: WorkerWithDpRank| d.is_resident(w);
    let eligible = |w: WorkerWithDpRank| d.is_eligible(w);
    assert(d.is_best(resident, scan.best_valid_resident));
    assert(d.is_best(eligible, scan.best_valid_eligible));
    if d.resident.admits(d.workers, worker) {
        assert(d.visits(worker));
        assert(resident(worker));
    }
    if d.eligible.admits(d.workers, worker) {
        assert(d.visits(worker));
        assert(eligible(worker));
    }
}

/// A scan without malformed records that found all three, none with more tokens
/// than the one before it, is published as it stands; everything else is
/// published without maxima.
pub proof fn law_consistent_scan_is_complete(
    request: CoverageRequest,
    scan: RawCacheCandidateDiagnostics,
    coverage: RawCacheCoverage,
)
    requires
        concludes(request, scan, coverage),
    ensures
        coverage.schema@ == "dynamo.router.raw_cache_coverage.v1"@,
        coverage.basis@ == "router_index"@,
        coverage.input_tokens == request.isl_tokens,
        coverage.observation == RawCacheObservation::Complete <==> {
            &&& scan.rejected_candidates == 0
            &&& scan.best_valid_resident is Some
            &&& scan.best_valid_eligible is Some
            &&& scan.valid_selected is Some
            &&& scan.valid_selected->Some_0.total_tokens
                <= scan.best_valid_eligible->Some_0.total_tokens
            &&& scan.best_valid_eligible->Some_0.total_tokens
                <= scan.best_valid_resident->Some_0.total_tokens
            &&& scan.best_valid_resident->Some_0.total_tokens <= request.isl_tokens
        },
        coverage.observation == RawCacheObservation::Complete ==> coverage.resident
            == scan.best_valid_resident && coverage.eligible == scan.best_valid_eligible
            && coverage.selected == scan.valid_selected && coverage.candidate_diagnostics is None
            && coverage.eligible->Some_0.total_tokens + coverage.overload_gap_tokens->Some_0
            == coverage.resident->Some_0.total_tokens,
        coverage.observation != RawCacheObservation::Complete ==> coverage.resident is None
            && coverage.eligible is None && coverage.selected is None
            && coverage.overload_gap_tokens is None && coverage.selection_gap_tokens is None,
        coverage.observation == RawCacheObservation::InvariantFailure
            ==> coverage.candidate_diagnostics == Some(scan),
        scan.rejected_candidates > 0 ==> coverage.observation
            == RawCacheObservation::InvariantFailure,
        scan.rejected_candidates == 0 && (scan.best_valid_resident is None
            || scan.best_valid_eligible is None || scan.valid_selected is None)
            ==> coverage.observation == RawCacheObservation::InvalidCandidate,
{
}

/// A scan looks at every rank that is served, but for one thing: where both
/// domains are pinned to the selected rank, it looks at that rank alone.
pub proof fn law_scans_look_at_every_served_rank(d: Domains, worker: WorkerWithDpRank)
    ensures
        d.resident.pinned_worker is None || d.eligible.pinned_worker is None ==> (d.visits(worker)
            <==> {
            &&& d.workers.contains_key(worker.worker_id)
            &&& d.workers[worker.worker_id].data_parallel_start_rank <= worker.dp_rank
            &&& worker.dp_rank - d.workers[worker.worker_id].data_parallel_start_rank
                < d.workers[worker.worker_id].data_parallel_size
            &&& worker.dp_rank != u32::MAX
        }),
        d.resident.pinned_worker == Some(d.selected) && d.eligible.pinned_worker == Some(d.selected)
            ==> (d.visits(worker) <==> worker == d.selected),
{
}

/// A malformed record counts once, whether its rank is in one domain or in both.
pub proof fn law_malformed_records_count_once(
    d: Domains,
    scan: RawCacheCandidateDiagnostics,
    worker: WorkerWithDpRank,
)
    requires
        d.scanned(scan),
    ensures
        d.rejected().contains(worker) <==> (d.is_resident(worker) || d.is_eligible(worker))
            && d.candidate(worker) is None,
        d.rejected().len() <= u64::MAX ==> scan.rejected_candidates == d.rejected().len(),
        (d.resident.admits(d.workers, worker) || d.eligible.admits(d.workers, worker))
            && d.visits(worker) && d.candidate(worker) is None ==> scan.rejected_candidates > 0,
{
    if d.rejected().contains(worker) && d.rejected().len() == 0 {
        assert(d.rejected() =~= Set::empty());
    }
}

/// A coverage that says why there is none holds the reason and the length of the
/// prompt, and nothing that could be counted.
pub proof fn law_incomplete_coverage_counts_nothing(
    coverage: RawCacheCoverage,
    observation: RawCacheObservation,
    input_tokens: usize,
    diagnostics: Option<RawCacheCandidateDiagnostics>,
)
    requires
        coverage.is_incomplete(observation, input_tokens, diagnostics),
    ensures
        coverage.observation == observation,
        coverage.input_tokens == input_tokens,
        coverage.resident is None && coverage.eligible is None && coverage.selected is None,
        coverage.overload_gap_tokens is None && coverage.selection_gap_tokens is None,
        coverage.candidate_diagnostics == diagnostics,
        coverage.schema@ == "dynamo.router.raw_cache_coverage.v1"@,
        coverage.basis@ == "router_index"@,
{
}

} // verus!
