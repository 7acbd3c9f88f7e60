use kv_router::cache_coverage::{
    compute_raw_cache_coverage, CoverageRequest, RawCacheCoverage, RawCacheObservation,
    RawIndexState, RoutingEligibility, WorkerRanks,
};
use kv_router::id_map::IdMap;
use kv_router::protocols::WorkerWithDpRank;

fn request(input_tokens: usize, observed: bool) -> CoverageRequest {
    CoverageRequest {
        isl_tokens: input_tokens,
        raw_index_state: if observed { RawIndexState::Observed } else { RawIndexState::Missing },
        device: Vec::new(),
        host_pinned: Vec::new(),
    }
}

fn anyone() -> RoutingEligibility {
    RoutingEligibility {
        pinned_worker: None,
        allowed_worker_ids: None,
        available_worker_ids: None,
        overloaded_worker_ids: None,
    }
}

fn workers() -> IdMap<WorkerRanks> {
    let mut workers = IdMap::new();
    for id in [1, 2, 3] {
        workers.insert(id, WorkerRanks { data_parallel_start_rank: 0, data_parallel_size: 1 });
    }
    workers
}

fn coverage(
    workers: &IdMap<WorkerRanks>,
    request: &CoverageRequest,
    selected: WorkerWithDpRank,
    block_size: u32,
) -> RawCacheCoverage {
    compute_raw_cache_coverage(workers, request, &anyone(), &anyone(), selected, block_size)
}

#[test]
fn raw_funnel_invariant_failure_retains_candidate_diagnostics() {
    let workers = workers();
    let a = WorkerWithDpRank::new(1, 0);
    let b = WorkerWithDpRank::new(2, 0);
    let resident = RoutingEligibility { allowed_worker_ids: Some(vec![1]), ..anyone() };
    let mut request = request(16, true);
    request.device.extend([(a, 1), (b, 2)]);
    // Deliberately inconsistent domains: R=8 < E=S=16. No individual
    // candidate is malformed, but the canonical funnel is still invalid.
    let coverage = compute_raw_cache_coverage(&workers, &request, &resident, &anyone(), b, 8);
    assert_eq!(coverage.observation, RawCacheObservation::InvariantFailure);
    assert!(coverage.resident.is_none());
    assert!(coverage.eligible.is_none());
    assert!(coverage.selected.is_none());
    assert!(coverage.overload_gap_tokens.is_none());
    assert!(coverage.selection_gap_tokens.is_none());
    let diagnostics = coverage.candidate_diagnostics.as_ref().expect("funnel diagnostics");
    assert_eq!(diagnostics.rejected_candidates, 0);
    assert_eq!(diagnostics.best_valid_resident.unwrap().total_tokens, 8);
    assert_eq!(diagnostics.best_valid_eligible.unwrap().total_tokens, 16);
    assert_eq!(diagnostics.valid_selected.unwrap().worker_id, b.worker_id);
}

#[test]
fn malformed_candidate_preserves_bounded_valid_diagnostics_without_complete_maxima() {
    let workers = workers();
    let a = WorkerWithDpRank::new(1, 0);
    let b = WorkerWithDpRank::new(2, 0);
    let bad = WorkerWithDpRank::new(3, 0);
    let mut request = request(16, true);
    request.device.extend([(a, 2), (b, 1), (bad, 3)]);
    let first = coverage(&workers, &request, b, 8);
    assert_eq!(first.observation, RawCacheObservation::InvariantFailure);
    // The full-domain maximum is unknown. Existing readers must not mistake
    // a maximum over valid entries for complete R/E/S evidence.
    assert!(first.resident.is_none());
    assert!(first.eligible.is_none());
    assert!(first.selected.is_none());
    assert!(first.overload_gap_tokens.is_none());
    assert!(first.selection_gap_tokens.is_none());
    let diagnostics = first.candidate_diagnostics.unwrap();
    assert_eq!(diagnostics.rejected_candidates, 1);
    assert_eq!(diagnostics.best_valid_resident.unwrap().worker_id, 1);
    assert_eq!(diagnostics.best_valid_eligible.unwrap().total_tokens, 16);
    assert_eq!(diagnostics.valid_selected.unwrap().worker_id, 2);
    assert_eq!(diagnostics.valid_selected.unwrap().total_tokens, 8);
    // The malformed entry is counted once despite belonging to W and V.
    let malformed_selected = coverage(&workers, &request, bad, 8);
    let diagnostics = malformed_selected.candidate_diagnostics.unwrap();
    assert_eq!(diagnostics.rejected_candidates, 1);
    assert!(diagnostics.valid_selected.is_none());
}

#[test]
fn malformed_candidate_outside_both_domains_does_not_poison_coverage() {
    let workers = workers();
    let a = WorkerWithDpRank::new(1, 0);
    let bad = WorkerWithDpRank::new(3, 0);
    let mut request = request(16, true);
    let allowed = RoutingEligibility { allowed_worker_ids: Some(vec![1]), ..anyone() };
    request.device.extend([(a, 2), (bad, 3)]);
    let coverage = compute_raw_cache_coverage(&workers, &request, &allowed, &allowed, a, 8);
    assert_eq!(coverage.observation, RawCacheObservation::Complete);
    assert_eq!(coverage.resident.unwrap().total_tokens, 16);
    assert!(coverage.candidate_diagnostics.is_none());
}

#[test]
fn raw_coverage_uses_unweighted_rank_specific_same_candidate_tiers() {
    let workers = workers();
    let a = WorkerWithDpRank::new(1, 0);
    let b = WorkerWithDpRank::new(2, 0);
    let c = WorkerWithDpRank::new(3, 0);
    let mut request = request(24_576, true);
    request.device.extend([(a, 2), (b, 1), (c, 1)]);
    request.host_pinned.extend([(a, 0), (b, 1), (c, 0)]);
    let eligible = RoutingEligibility { overloaded_worker_ids: Some(vec![1]), ..anyone() };
    let coverage =
        compute_raw_cache_coverage(&workers, &request, &anyone(), &eligible, c, 12_288);

    assert_eq!(coverage.observation, RawCacheObservation::Complete);
    assert_eq!(coverage.resident.unwrap().worker_id, 2); // stable tie chooses larger identity
    assert_eq!(coverage.resident.unwrap().hbm_prefix_tokens, 12_288);
    assert_eq!(coverage.resident.unwrap().cpu_extension_tokens, 12_288);
    assert_eq!(coverage.eligible.unwrap().worker_id, 2);
    assert_eq!(coverage.selected.unwrap().total_tokens, 12_288);
    assert_eq!(coverage.overload_gap_tokens, Some(0));
    assert_eq!(coverage.selection_gap_tokens, Some(12_288));
}

#[test]
fn raw_coverage_separates_resident_overload_and_selection_boundaries() {
    let workers = workers();
    let a = WorkerWithDpRank::new(1, 0);
    let b = WorkerWithDpRank::new(2, 0);
    let c = WorkerWithDpRank::new(3, 0);
    let mut request = request(24, true);
    request.device.extend([(a, 3), (b, 2), (c, 1)]);
    let eligible = RoutingEligibility { overloaded_worker_ids: Some(vec![1]), ..anyone() };
    let coverage = compute_raw_cache_coverage(&workers, &request, &anyone(), &eligible, c, 8);

    assert_eq!(coverage.resident.unwrap().worker_id, 1);
    assert_eq!(coverage.eligible.unwrap().worker_id, 2);
    assert_eq!(coverage.selected.unwrap().worker_id, 3);
    assert_eq!(coverage.overload_gap_tokens, Some(8));
    assert_eq!(coverage.selection_gap_tokens, Some(8));
}

#[test]
fn raw_coverage_distinguishes_missing_index_from_observed_zero_and_rejects_partial_block() {
    let workers = workers();
    let selected = WorkerWithDpRank::new(1, 0);
    let missing = request(24_704, false);
    assert_eq!(
        coverage(&workers, &missing, selected, 12_288).observation,
        RawCacheObservation::MissingIndex
    );

    let mut zero = request(24_704, true);
    let observed = coverage(&workers, &zero, selected, 12_288);
    assert_eq!(observed.observation, RawCacheObservation::Complete);
    assert_eq!(observed.selected.unwrap().total_tokens, 0);
    zero.device = vec![(selected, 2)];
    let complete = coverage(&workers, &zero, selected, 12_288);
    assert_eq!(complete.selected.unwrap().total_tokens, 24_576);

    zero.device = vec![(selected, 3)];
    assert_eq!(
        coverage(&workers, &zero, selected, 12_288).observation,
        RawCacheObservation::InvariantFailure
    );
}

#[test]
fn raw_coverage_rejects_partial_blocks_in_both_tiers() {
    let workers = workers();
    let selected = WorkerWithDpRank::new(1, 0);
    for prompt in [1, 12_287, 12_289, 24_704] {
        let complete_blocks = prompt / 12_288;
        for (gpu, cpu) in
            [(complete_blocks + 1, 0), (complete_blocks, 1), (0, complete_blocks + 1)]
        {
            let mut request = request(prompt, true);
            request.device = vec![(selected, gpu)];
            request.host_pinned = vec![(selected, cpu)];
            let coverage = coverage(&workers, &request, selected, 12_288);
            assert_eq!(coverage.observation, RawCacheObservation::InvariantFailure);
            assert!(coverage.resident.is_none());
            assert!(coverage.selected.is_none());
            assert!(coverage.candidate_diagnostics.unwrap().rejected_candidates > 0);
        }
    }
}

#[test]
fn raw_coverage_respects_pin_and_rejects_invalid_selected_rank() {
    let mut workers = workers();
    workers.insert(1, WorkerRanks { data_parallel_start_rank: 0, data_parallel_size: 2 });
    let rank0 = WorkerWithDpRank::new(1, 0);
    let rank1 = WorkerWithDpRank::new(1, 1);
    let invalid = WorkerWithDpRank::new(1, 2);
    let mut request = request(16, true);
    let pinned = RoutingEligibility { pinned_worker: Some(rank0), ..anyone() };
    request.device.extend([(rank0, 1), (rank1, 0)]);
    request.host_pinned.push((rank1, 8));
    let coverage = compute_raw_cache_coverage(&workers, &request, &pinned, &pinned, rank0, 4);
    assert_eq!(coverage.selected.unwrap().total_tokens, 4);
    assert_eq!(coverage.resident.unwrap().dp_rank, 0);
    assert_eq!(coverage.eligible.unwrap().dp_rank, 0);

    assert_eq!(
        compute_raw_cache_coverage(&workers, &request, &pinned, &pinned, rank1, 4).observation,
        RawCacheObservation::InvalidCandidate
    );
    assert_eq!(
        compute_raw_cache_coverage(&workers, &request, &pinned, &pinned, invalid, 4).observation,
        RawCacheObservation::InvalidCandidate
    );
}

#[test]
fn raw_coverage_respects_allowed_and_available_sets_and_stale_state() {
    let workers = workers();
    let a = WorkerWithDpRank::new(1, 0);
    let b = WorkerWithDpRank::new(2, 0);
    let mut request = request(16, true);
    request.device.extend([(a, 2), (b, 1)]);
    let eligibility = RoutingEligibility {
        allowed_worker_ids: Some(vec![1, 2]),
        available_worker_ids: Some(vec![2]),
        ..anyone()
    };
    let coverage =
        compute_raw_cache_coverage(&workers, &request, &eligibility, &eligibility, b, 8);
    assert_eq!(coverage.observation, RawCacheObservation::Complete);
    assert_eq!(coverage.resident.unwrap().worker_id, 2);

    request.raw_index_state = RawIndexState::Stale;
    let stale = compute_raw_cache_coverage(&workers, &request, &eligibility, &eligibility, b, 8);
    assert_eq!(stale.observation, RawCacheObservation::StaleIndex);
    assert!(stale.resident.is_none());
}

#[test]
fn observations_have_stable_names() {
    assert_eq!(RawCacheObservation::Complete.as_str(), "complete");
    assert_eq!(RawCacheObservation::MissingIndex.as_str(), "missing_index");
    assert_eq!(RawCacheObservation::StaleIndex.as_str(), "stale_index");
    assert_eq!(RawCacheObservation::InvalidCandidate.as_str(), "invalid_candidate");
    assert_eq!(RawCacheObservation::InvariantFailure.as_str(), "invariant_failure");
}
