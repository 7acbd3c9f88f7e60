use kv_router::protocols::WorkerWithDpRank;
use kv_router::request_trace::Float64;
use kv_router::two_tier_cost_fn::{
    pick, pick_with_explanation, select_row, select_row_with_evidence, ParameterError, Parameters, PickError,
    TieStrategy, TwoTierEvidence, TwoTierRule, POLICY_TYPE,
};

const TEN_BLOCKS: u64 = 10;

fn value(number: Float64) -> f64 {
    f64::from_bits(number.0)
}

fn float(number: f64) -> Float64 {
    Float64(number.to_bits())
}

fn exceeds_ratio(ratio: Float64, most: usize, least: usize) -> bool {
    (most as f64) > value(ratio) * (least as f64)
}

fn quotient(most: Float64, blocks: u64) -> Float64 {
    float(value(most) / blocks as f64)
}

fn evidence_with(
    parameters: Parameters,
    rows: &[(f64, usize)],
    request_blocks: u64,
) -> Option<TwoTierEvidence> {
    let cache: Vec<Float64> = rows.iter().map(|row| float(row.0)).collect();
    let load: Vec<usize> = rows.iter().map(|row| row.1).collect();
    select_row_with_evidence(&parameters, &cache, &load, request_blocks, exceeds_ratio, quotient)
}

/// Select among workers given as `(device_overlap_blocks, active_requests)`.
fn select(rows: [(f64, usize); 2]) -> usize {
    evidence_with(Parameters::default(), &rows, TEN_BLOCKS).unwrap().selected_row
}

#[test]
fn decision_explanation_records_strict_gates_and_first_row_ties() {
    for (rows, rule) in [
        ([(0.0, 0), (10.0, 32)], "device_cache_affinity"),
        ([(0.0, 0), (10.0, 33)], "load_imbalance"),
        ([(0.0, 640), (10.0, 704)], "device_cache_affinity"),
        ([(0.0, 640), (10.0, 705)], "load_imbalance"),
        ([(0.0, 0), (5.0, 4)], "least_loaded_fallback"),
    ] {
        let evidence = evidence_with(Parameters::default(), &rows, TEN_BLOCKS).unwrap();
        assert_eq!(evidence.selected_rule.as_label(), rule);
        assert_eq!(evidence.request_blocks, 10);
        assert_eq!(value(evidence.cache_threshold), 0.5);
        assert_eq!(evidence.balance_abs_threshold, 32);
        assert_eq!(value(evidence.balance_rel_threshold), 1.1);
        assert_eq!(evidence.tie_strategy.as_label(), "first_candidate_row");
        assert_eq!(evidence.candidate_count, 2);
        assert_eq!(evidence.tie_count, 1);
    }
    let evidence = evidence_with(Parameters::default(), &[(6.0, 3), (6.0, 3)], TEN_BLOCKS).unwrap();
    assert_eq!(evidence.tie_count, 2);
    assert_eq!(evidence.selected_row, 0);
}

#[test]
fn decision_explanation_cpu_overlap_does_not_change_policy_and_pin_is_real_input() {
    let selected = evidence_with(Parameters::default(), &[(0.0, 0), (6.0, 4)], TEN_BLOCKS).unwrap();
    assert_eq!(selected.selected_row, 1);
    assert_eq!(selected.selected_rule, TwoTierRule::DeviceCacheAffinity);
    assert_eq!(value(selected.max_device_overlap_blocks), 6.0);
    assert_eq!(value(selected.cache_ratio), 0.6);
    assert_eq!(value(selected.selected_device_overlap_blocks), 6.0);
    assert_eq!(selected.selected_active_requests, 4);
    // A pin leaves one row.
    let pinned = evidence_with(Parameters::default(), &[(0.0, 0)], TEN_BLOCKS).unwrap();
    assert_eq!(pinned.selected_row, 0);
    assert_eq!(pinned.selected_rule, TwoTierRule::LeastLoadedFallback);
    assert_eq!(pinned.min_active_requests, 0);
    assert_eq!(pinned.max_active_requests, 0);
}

#[test]
fn zero_request_blocks_and_empty_inputs_have_explicit_policy_behavior() {
    let parameters = Parameters::default();
    let none = [float(0.0)];
    assert_eq!(select_row(&parameters, &[], &[], 0, exceeds_ratio, quotient), None);
    assert_eq!(select_row(&parameters, &none, &[], 1, exceeds_ratio, quotient), None);
    assert_eq!(select_row(&parameters, &none, &[0], 0, exceeds_ratio, quotient), Some(0));
    let idle = evidence_with(Parameters::default(), &[(6.0, 3), (0.0, 1)], 0).unwrap();
    assert!(!idle.cache_gate);
    assert_eq!(idle.selected_row, 1);
}

#[test]
fn cache_tier_outranks_a_less_loaded_worker() {
    // Six of ten blocks is 0.6, above the 0.5 threshold, so the second wins despite its load.
    assert_eq!(select([(0.0, 0), (6.0, 4)]), 1);
}

#[test]
fn cache_tier_threshold_is_strict() {
    // Five of ten blocks is exactly 0.5, so the comparison fails and load decides.
    assert_eq!(select([(0.0, 0), (5.0, 4)]), 0);
}

#[test]
fn parameters_override_the_upstream_defaults() {
    // Three of ten blocks is 0.3: below the 0.5 default, above a tuned 0.2 threshold.
    let rows = [(0.0, 0), (3.0, 4)];
    assert_eq!(select(rows), 0);

    let tuned = Parameters { cache_threshold: float(0.2), ..Parameters::default() };
    assert_eq!(evidence_with(tuned, &rows, TEN_BLOCKS).unwrap().selected_row, 1);
}

#[test]
fn rejects_out_of_range_parameters() {
    let cache = |v: f64| {
        Parameters { cache_threshold: float(v), ..Default::default() }.validate()
    };
    let ratio = |v: f64| {
        Parameters { balance_rel_threshold: float(v), ..Default::default() }.validate()
    };

    assert!(cache(-0.1).is_err() && cache(1.1).is_err() && cache(f64::NAN).is_err());
    assert!(ratio(0.9).is_err() && ratio(f64::NAN).is_err());
    assert!(Parameters::default().validate().is_ok());
    assert!(cache(0.0).is_ok() && cache(-0.0).is_ok() && cache(1.0).is_ok());
    assert!(ratio(1.0).is_ok() && ratio(f64::INFINITY).is_err() && ratio(-2.0).is_err());
    assert_eq!(cache(2.0), Err(ParameterError::CacheThreshold));
    assert_eq!(
        ratio(0.5).unwrap_err().message(),
        "balance_rel_threshold must be a finite number greater than or equal to 1.0"
    );
}

#[test]
fn the_default_parameters_are_these_numbers() {
    let parameters = Parameters::default();
    assert_eq!(value(parameters.cache_threshold), 0.5);
    assert_eq!(parameters.balance_abs_threshold, 32);
    assert_eq!(value(parameters.balance_rel_threshold), 1.1);
    assert_eq!(POLICY_TYPE, "dynamo-two-tier-cost-fn");
}

#[test]
fn load_tier_needs_both_gates() {
    // Spread 40 > 32 and 40 > 1.1 * 0: the load tier fires and ignores the full overlap.
    assert_eq!(select([(0.0, 0), (10.0, 40)]), 0);
    // Spread 64 > 32, but 704 is not > 1.1 * 640, so the cache tier still decides. This pair
    // straddles the ratio boundary: 705 would clear it and take the load tier.
    assert_eq!(select([(0.0, 640), (10.0, 704)]), 1);
    assert_eq!(select([(0.0, 640), (10.0, 705)]), 0);
}

#[test]
fn a_pick_names_the_missing_input() {
    let p = Parameters::default();
    let one = [float(1.0)];
    assert_eq!(
        pick(&p, None, Some(&[1][..]), 1, exceeds_ratio, quotient),
        Err(PickError::NoCacheInput)
    );
    assert_eq!(
        pick(&p, Some(&one[..]), None, 1, exceeds_ratio, quotient),
        Err(PickError::NoLoadInput)
    );
    assert_eq!(
        pick(&p, Some(&[][..]), Some(&[][..]), 1, exceeds_ratio, quotient),
        Err(PickError::NoEligibleWorker)
    );
    assert_eq!(PickError::NoEligibleWorker.message(), "no eligible worker");
    let two = [float(0.0), float(0.0)];
    let picked =
        pick(&p, Some(&two[..]), Some(&[4, 2][..]), 1, exceeds_ratio, quotient).unwrap();
    assert_eq!(picked.selected_row, 1);
}

#[test]
fn fractional_overlaps_are_compared_as_numbers() {
    let rows = [(5.25, 9), (5.5, 4), (5.5, 4), (-0.0, 0)];
    let evidence = evidence_with(Parameters::default(), &rows, TEN_BLOCKS).unwrap();
    assert_eq!(evidence.selected_rule, TwoTierRule::DeviceCacheAffinity);
    assert_eq!(evidence.selected_row, 1);
    assert_eq!(evidence.tie_count, 2);
    assert_eq!(evidence.tie_strategy, TieStrategy::FirstCandidateRow);
    assert_eq!(value(evidence.cache_ratio), 0.55);
    // What is no number passes no threshold.
    let rows = [(f64::NAN, 3), (9.0, 2)];
    let evidence = evidence_with(Parameters::default(), &rows, TEN_BLOCKS).unwrap();
    assert!(!evidence.cache_gate);
    assert_eq!(evidence.selected_row, 1);
}

#[test]
fn numbers_compare_as_those_of_the_machine() {
    let numbers = [
        0.0, -0.0, 1.0, -1.0, 1.5, 1e-320, -1e-320, 1e300, -1e300, f64::INFINITY,
        f64::NEG_INFINITY, f64::NAN, -f64::NAN,
    ];
    for a in numbers {
        for b in numbers {
            assert_eq!(float(a).is_equal(float(b)), a == b, "{a} == {b}");
            assert_eq!(float(a).is_above(float(b)), a > b, "{a} > {b}");
            assert_eq!(
                float(a).ranks_above(float(b)),
                a.total_cmp(&b).is_gt(),
                "{a} above {b}"
            );
        }
        assert_eq!(float(a).is_nan(), a.is_nan());
    }
}

#[test]
fn a_pick_is_explained() {
    let p = Parameters::default();
    let workers = [WorkerWithDpRank::new(29, 0), WorkerWithDpRank::new(41, 0)];
    let cache = [float(0.0), float(6.0)];
    let (row, explanation) = pick_with_explanation(
        &p,
        &workers,
        Some(&cache[..]),
        Some(&[0, 4][..]),
        TEN_BLOCKS,
        exceeds_ratio,
        quotient,
    )
    .unwrap();
    assert_eq!(row, 1);
    assert_eq!(explanation.kind, "two_tier_rule");
    assert_eq!(explanation.policy_type, POLICY_TYPE);
    assert_eq!(explanation.reason, None);
    assert_eq!(explanation.selected_worker, workers[1]);
    assert_eq!(explanation.two_tier_rule.selected_rule.as_label(), "device_cache_affinity");
    let missing =
        pick_with_explanation(&p, &workers, None, None, TEN_BLOCKS, exceeds_ratio, quotient);
    assert_eq!(missing.unwrap_err(), PickError::NoCacheInput);
}
