use kv_router::logical::{
    Binding, Confidence, Contribution, CoverageRole, Edge, Limits, MaterializedBatch, Mutation,
    Plan, Profile, Scope,
};
use kv_router::logical_view::{LogicalView, Query, QueryResult};
use kv_router::protocols::{
    ExternalSequenceBlockHash, LocalBlockHash, ResidencyOwner, WorkerWithDpRank,
};
use kv_router::publisher::Publisher;

const B: u32 = 12_288;
const H: u32 = 128;

fn profile() -> Profile {
    Profile { version: 1, block_size: B, hash_unit: H }
}

fn scope() -> Scope {
    Scope {
        owner: ResidencyOwner::worker(WorkerWithDpRank::new(7, 0)),
        namespace: "test".into(),
        incarnation: [1; 16],
        generation: 1,
    }
}

fn edge(role: CoverageRole, start: u32, end: u32) -> Edge {
    Edge {
        role,
        parent: (start > 0).then_some(ExternalSequenceBlockHash(start as u64)),
        local: LocalBlockHash(end as u64),
        child: ExternalSequenceBlockHash(end as u64),
    }
}

fn coverage(id: u64, role: CoverageRole, start: u32, end: u32) -> Contribution {
    let step = if role == CoverageRole::Prefix { B } else { H };
    Contribution {
        binding: Binding {
            id,
            role,
            start,
            end,
            parent: (start > 0).then_some(ExternalSequenceBlockHash(start as u64)),
            child: ExternalSequenceBlockHash(end as u64),
        },
        edges: (start..end).step_by(step as usize).map(|p| edge(role, p, p + step)).collect(),
    }
}

fn plan(id: u64, binding: u64, end: u32, anchor: u32, min_n: u32) -> Plan {
    Plan {
        id,
        binding,
        end,
        anchor_end: anchor,
        anchor: (anchor > 0).then_some(ExternalSequenceBlockHash(anchor as u64)),
        minimum_prompt_tokens: min_n,
    }
}

struct Harness {
    publisher: Publisher,
    view: LogicalView,
    cursor: u64,
}

impl Harness {
    fn new() -> Self {
        let publisher = Publisher::new(profile(), scope(), Limits::default());
        let view = LogicalView::from_snapshot(publisher.snapshot(), Limits::default());
        Self { publisher, view, cursor: 0 }
    }
    fn apply(&mut self, changes: Vec<Mutation>) -> MaterializedBatch {
        self.cursor += 1;
        let batch = self.publisher.apply(self.cursor, changes);
        self.view.apply(batch.clone());
        batch
    }
    fn query(&self, n: u32, diverge: Option<u32>) -> QueryResult {
        let mut full: Vec<_> =
            (B..=n).step_by(B as usize).map(|e| LocalBlockHash(e as u64)).collect();
        let mut fine: Vec<_> =
            (H..=n).step_by(H as usize).map(|e| LocalBlockHash(e as u64)).collect();
        if let Some(at) = diverge {
            for (i, hash) in full.iter_mut().enumerate() {
                if (i as u32 + 1) * B > at {
                    hash.0 += 1;
                }
            }
            for (i, hash) in fine.iter_mut().enumerate() {
                if (i as u32 + 1) * H > at {
                    hash.0 += 1;
                }
            }
        }
        self.view.query(&Query { scope: &scope(), prompt_tokens: n, full: &full, fine: &fine })
    }
    fn base_tail(&mut self) {
        self.apply(vec![
            Mutation::Coverage(coverage(1, CoverageRole::Prefix, 0, B)),
            Mutation::Coverage(coverage(2, CoverageRole::Tail, B, 15_104)),
            Mutation::Plan(plan(2, 2, 15_104, B, 15_105)),
        ]);
    }
}

#[test]
fn primary_p1_divergence_is_zero_despite_raw_coverage() {
    let mut h = Harness::new();
    h.base_tail();
    let result = h.query(23_400, Some(14_080));
    assert_eq!(result.raw_cpu_tokens, 14_080);
    assert_eq!(result.eligible_cpu_root_tokens, Some(0));
}

#[test]
fn primary_p1_terminal_retirement_is_zero_despite_raw_coverage() {
    let mut h = Harness::new();
    h.base_tail();
    h.apply(vec![Mutation::RemovePlan(2)]);
    let result = h.query(23_400, None);
    assert_eq!(result.raw_cpu_tokens, 15_104);
    assert_eq!(result.eligible_cpu_root_tokens, Some(0));
}

#[test]
fn planted_b_controls_preserve_original_12288_expectations() {
    let mut h = Harness::new();
    h.base_tail();
    h.apply(vec![Mutation::Plan(plan(1, 1, B, B, B + 1))]);
    assert_eq!(h.query(23_400, Some(14_080)).eligible_cpu_root_tokens, Some(B));
    h.apply(vec![Mutation::RemovePlan(2)]);
    assert_eq!(h.query(23_400, None).eligible_cpu_root_tokens, Some(B));
}

#[test]
fn whole_anchor_minimum_prompt_and_two_plans_at_10752() {
    let mut h = Harness::new();
    h.apply(vec![
        Mutation::Coverage(coverage(1, CoverageRole::Prefix, 0, B)),
        Mutation::Plan(plan(1, 1, 10_752, B, B + 1)),
    ]);
    for n in [11_000, B] {
        assert_eq!(h.query(n, None).eligible_cpu_root_tokens, Some(0));
    }
    assert_eq!(h.query(B + 1, None).eligible_cpu_root_tokens, Some(10_752));
    assert_eq!(h.query(23_400, Some(10_752)).eligible_cpu_root_tokens, Some(0));
    h.apply(vec![
        Mutation::Coverage(coverage(2, CoverageRole::Tail, 0, 10_752)),
        Mutation::Plan(plan(2, 2, 10_752, 0, 10_753)),
    ]);
    assert_eq!(h.query(11_000, None).eligible_cpu_root_tokens, Some(10_752));
    assert_eq!(h.query(23_400, Some(10_752)).selected_plan, Some(2));
    h.apply(vec![Mutation::RemoveCoverage(1)]);
    assert_eq!(h.query(23_400, None).selected_plan, Some(2));
    assert_eq!(h.view.plan_count(), 1);
}

#[test]
fn earlier_anchor_survives_deeper_complete_match_and_prefix_reinsert() {
    let mut h = Harness::new();
    h.base_tail();
    h.apply(vec![Mutation::Coverage(coverage(3, CoverageRole::Prefix, B, 2 * B))]);
    assert_eq!(h.query(30_000, None).eligible_cpu_root_tokens, Some(15_104));
    h.apply(vec![Mutation::RemoveCoverage(1)]);
    assert_eq!(h.query(30_000, None).eligible_cpu_root_tokens, Some(0));
    assert_eq!(h.view.plan_count(), 1);
    h.apply(vec![Mutation::Coverage(coverage(4, CoverageRole::Prefix, 0, B))]);
    assert_eq!(h.query(30_000, None).eligible_cpu_root_tokens, Some(15_104));
}

#[test]
fn semantic_removal_survives_empty_hash_delta_and_duplicate_upsert() {
    let mut h = Harness::new();
    h.base_tail();
    h.apply(vec![
        Mutation::Coverage(coverage(2, CoverageRole::Tail, B, 15_104)),
        Mutation::Coverage(coverage(3, CoverageRole::Tail, B, 15_104)),
    ]);
    let batch = h.apply(vec![Mutation::RemoveCoverage(2)]);
    assert!(batch.removed_edges.is_empty());
    assert_eq!(h.query(23_400, None).eligible_cpu_root_tokens, Some(0));
    assert_eq!(h.query(23_400, None).raw_cpu_tokens, 15_104);
    h.apply(vec![Mutation::RemoveCoverage(3), Mutation::RemoveCoverage(3)]);
    assert_eq!(h.query(23_400, None).raw_cpu_tokens, B);
}

#[test]
fn snapshot_gap_duplicate_and_profile_mismatch_are_not_cache_misses() {
    let mut h = Harness::new();
    h.base_tail();
    let batch = h.apply(vec![Mutation::Plan(plan(1, 1, B, B, B + 1))]);
    h.view.apply(batch.clone());
    assert_eq!(h.query(23_400, None).eligible_cpu_root_tokens, Some(15_104));
    let mut gap = batch;
    gap.cursor += 2;
    h.view.apply(gap);
    assert_eq!(h.query(23_400, None).eligible_cpu_root_tokens, None);
    h.view = LogicalView::from_snapshot(h.publisher.snapshot(), Limits::default());
    assert_eq!(h.query(23_400, None).eligible_cpu_root_tokens, Some(15_104));
    let mut bad = h.publisher.snapshot();
    bad.profile.version = 99;
    h.view = LogicalView::from_snapshot(bad, Limits::default());
    assert_eq!(h.query(23_400, None).status, Confidence::UnsupportedProfile);
}

#[test]
fn no_cross_scope_or_generation_credit() {
    let mut h = Harness::new();
    h.base_tail();
    let hashes = [LocalBlockHash(B as u64)];
    for other in [
        Scope { generation: 2, ..scope() },
        Scope { namespace: "other".into(), ..scope() },
        Scope { owner: ResidencyOwner::worker(WorkerWithDpRank::new(7, 1)), ..scope() },
    ] {
        assert_eq!(
            h.view
                .query(&Query { scope: &other, prompt_tokens: 23_400, full: &hashes, fine: &[] })
                .eligible_cpu_root_tokens,
            None
        );
    }
}

#[test]
fn materialized_snapshot_roundtrip_and_partial_dump() {
    let mut h = Harness::new();
    h.base_tail();
    let snapshot = h.view.snapshot();
    h.view = LogicalView::from_snapshot(snapshot, Limits::default());
    assert_eq!(h.query(23_400, None).eligible_cpu_root_tokens, Some(15_104));
    let mut partial = h.publisher.snapshot();
    partial.edges.clear();
    h.view = LogicalView::from_snapshot(partial, Limits::default());
    assert_eq!(h.query(23_400, None).status, Confidence::Invalid);
}

#[test]
fn overflow_conflict_and_old_generation_do_not_retain_stale_credit() {
    let mut h = Harness::new();
    h.base_tail();
    let mut conflict = coverage(2, CoverageRole::Tail, B, 15_104);
    conflict.edges[0].local = LocalBlockHash(999);
    h.apply(vec![Mutation::Coverage(conflict)]);
    assert_eq!(h.query(23_400, None).status, Confidence::Invalid);
    assert_eq!(h.publisher.live_counts(), (0, 0, 0));
    let mut h = Harness::new();
    h.base_tail();
    let mut old = h.apply(vec![]);
    old.scope.generation = 0;
    old.cursor += 1;
    old.plans.clear();
    h.view.apply(old);
    assert_eq!(h.query(23_400, None).eligible_cpu_root_tokens, Some(15_104));
    h.view = LogicalView::from_snapshot(
        h.publisher.snapshot(),
        Limits { plans: 0, ..Limits::default() },
    );
    assert_eq!(h.query(23_400, None).status, Confidence::Overflow);
}

#[test]
fn subblock_and_tail_union_never_manufacture_a_prefix_or_endpoint() {
    let mut h = Harness::new();
    h.apply(vec![
        Mutation::Coverage(coverage(1, CoverageRole::Tail, 0, B - H)),
        Mutation::Plan(plan(1, 1, B - H, 0, B - H + 1)),
        Mutation::Coverage(coverage(2, CoverageRole::Tail, B, B + H)),
        Mutation::Plan(plan(2, 2, B + H, B, B + H + 1)),
    ]);
    assert_eq!(h.query(30_000, None).eligible_cpu_root_tokens, Some(B - H));
    h.apply(vec![Mutation::RemovePlan(1)]);
    assert_eq!(h.query(30_000, None).eligible_cpu_root_tokens, Some(0));
}

#[test]
fn cpu_clear_and_bounded_churn_leave_no_row_history() {
    let mut h = Harness::new();
    for id in 1..=1000 {
        h.apply(vec![
            Mutation::Coverage(coverage(id, CoverageRole::Tail, 0, 10_752)),
            Mutation::Plan(plan(id, id, 10_752, 0, 10_753)),
        ]);
        h.apply(vec![Mutation::RemoveCoverage(id)]);
        assert_eq!(h.publisher.live_counts(), (0, 0, 0));
        assert_eq!(h.view.plan_count(), 0);
    }
    h.base_tail();
    h.apply(vec![Mutation::ClearCpu]);
    assert_eq!(h.query(23_400, None).eligible_cpu_root_tokens, Some(0));
    assert_eq!(h.publisher.live_counts(), (0, 0, 0));
}

#[test]
fn refused_mutations_lose_the_tables_with_their_reason() {
    let mut orphan = Harness::new();
    orphan.apply(vec![Mutation::Plan(plan(1, 9, B, B, B + 1))]);
    assert_eq!(orphan.query(23_400, None).status, Confidence::Invalid);

    let publisher_limits = Limits { bindings: 1, ..Limits::default() };
    let mut publisher = Publisher::new(profile(), scope(), publisher_limits);
    let batch = publisher.apply(
        1,
        vec![
            Mutation::Coverage(coverage(1, CoverageRole::Prefix, 0, B)),
            Mutation::Coverage(coverage(2, CoverageRole::Prefix, B, 2 * B)),
        ],
    );
    assert_eq!(batch.confidence, Confidence::Overflow);
    // A publisher that lost its standing never regains it.
    let later = publisher.apply(2, vec![Mutation::ClearCpu]);
    assert_eq!(later.confidence, Confidence::Overflow);
    // A skipped cut is a gap.
    let mut skipping = Publisher::new(profile(), scope(), Limits::default());
    assert_eq!(skipping.apply(2, Vec::new()).confidence, Confidence::Gap);
}

#[test]
fn a_certified_endpoint_lies_within_what_is_resident() {
    let mut h = Harness::new();
    h.base_tail();
    for (n, diverge) in [(23_400, None), (23_400, Some(14_080)), (15_104, None), (100, None)] {
        let result = h.query(n, diverge);
        assert!(result.eligible_cpu_root_tokens.unwrap() <= result.raw_cpu_tokens);
    }
}

#[test]
fn live_identifiers_are_fixed_and_absent_ones_are_removed_idly() {
    let mut h = Harness::new();
    h.base_tail();
    let before = h.publisher.live_counts();
    let batch = h.apply(vec![Mutation::RemoveCoverage(99), Mutation::RemovePlan(99)]);
    assert_eq!(batch.confidence, Confidence::Known);
    assert_eq!(h.publisher.live_counts(), before);
    let batch = h.apply(vec![Mutation::Plan(plan(2, 2, 15_104, B, 15_105))]);
    assert_eq!(batch.confidence, Confidence::Known);
    assert_eq!(h.publisher.live_counts(), before);
    let batch = h.apply(vec![Mutation::Plan(plan(2, 2, 15_104, B, 15_106))]);
    assert_eq!(batch.confidence, Confidence::Invalid);
    assert_eq!(h.publisher.live_counts(), (0, 0, 0));
}

#[test]
fn one_mutation_is_applied_or_refused_whole() {
    let mut publisher = Publisher::new(profile(), scope(), Limits::default());
    assert_eq!(
        publisher.mutation(Mutation::Coverage(coverage(1, CoverageRole::Prefix, 0, B))),
        Ok(())
    );
    let before = publisher.live_counts();
    assert_eq!(publisher.mutation(Mutation::RemoveCoverage(9)), Ok(()));
    assert_eq!(
        publisher.mutation(Mutation::Plan(plan(1, 9, B, B, B + 1))),
        Err(Confidence::Invalid)
    );
    assert_eq!(publisher.live_counts(), before);
}
