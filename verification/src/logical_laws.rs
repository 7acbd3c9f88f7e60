//! What holds of publishers, views and queries taken together.

use crate::logical::{
    Binding, Confidence, Contribution, CoverageRole, Edge, Limits, MaterializedBatch, Mutation, Plan,
    Profile, Snapshot,
};
use crate::logical_view::{QueryResult, ViewState};
use crate::protocols::{ExternalSequenceBlockHash, LocalBlockHash};
use crate::publisher::{PublisherState, Tables};
use vstd::prelude::*;

verus! {

/// The bindings of a contribution table, by identifier.
pub open spec fn binding_table(c: Map<u64, Contribution>) -> Map<u64, Binding> {
    c.map_values(|x: Contribution| x.binding)
}

/// The view that holds exactly what a publisher publishes.
pub open spec fn mirror(s: PublisherState, limits: Limits) -> ViewState {
    ViewState {
        profile: s.profile,
        scope: s.scope,
        cursor: s.cursor,
        confidence: s.confidence,
        limits,
        edges: crate::publisher::live_edges(s.tables.contributions),
        bindings: binding_table(s.tables.contributions),
        plans: s.tables.plans,
    }
}

/// Walking a chain of held edges back from its end leads to its parent and
/// passes exactly its edges.
proof fn lemma_walk_chain(
    edges: Set<Edge>,
    role: CoverageRole,
    parent: Option<ExternalSequenceBlockHash>,
    chain: Seq<Edge>,
)
    requires
        crate::logical_view::index_ok(edges),
        crate::publisher::is_chain(role, parent, chain),
        forall|i: int| 0 <= i < chain.len() ==> edges.contains(#[trigger] chain[i]),
    ensures
        crate::logical_view::walk_back(edges, role, crate::publisher::chain_end(parent, chain),
            chain.len()) == Some(parent),
        crate::logical_view::walked(edges, role, crate::publisher::chain_end(parent, chain),
            chain.len()) == chain.to_set(),
    decreases chain.len(),
{
    if chain.len() == 0 {
        assert(chain.to_set() =~= Set::empty());
    } else {
        let last = chain.last();
        let head = chain.drop_last();
        assert(edges.contains(chain[chain.len() - 1]));
        let found = choose|e: Edge| #[trigger]
            edges.contains(e) && e.role == role && e.child == last.child;
        assert(edges.contains(found) && edges.contains(last));
        assert(crate::logical_view::edge_into(edges, role, last.child) == Some(last));
        assert(chain.take(chain.len() - 1) =~= head);
        assert(chain[chain.len() - 1].parent == crate::publisher::chain_end(parent, head));
        assert(crate::publisher::is_chain(role, parent, head)) by {
            assert forall|i: int| 0 <= i < head.len() implies (#[trigger] head[i]).role == role
                && head[i].parent == crate::publisher::chain_end(parent, head.take(i)) by {
                assert(head[i] == chain[i]);
                assert(head.take(i) =~= chain.take(i));
            }
            assert forall|i: int, j: int| 0 <= i < j < head.len() implies (#[trigger] head[i]).child
                != (#[trigger] head[j]).child by {
                assert(chain[i].child != chain[j].child);
            }
        }
        assert forall|i: int| 0 <= i < head.len() implies edges.contains(#[trigger] head[i]) by {
            assert(edges.contains(chain[i]));
        }
        lemma_walk_chain(edges, role, parent, head);
        assert(chain.to_set() =~= head.to_set().insert(last)) by {
            assert forall|e: Edge| chain.to_set().contains(e) <==> head.to_set().insert(
                last,
            ).contains(e) by {
                if chain.contains(e) {
                    let i = choose|i: int| 0 <= i < chain.len() && chain[i] == e;
                    if i < head.len() {
                        assert(head[i] == e);
                    }
                }
                if head.contains(e) {
                    let i = choose|i: int| 0 <= i < head.len() && head[i] == e;
                    assert(chain[i] == e);
                }
                assert(chain[chain.len() - 1] == last);
            }
        }
    }
}

/// What a publisher publishes fits a view with the same ceilings, as long as
/// its edges do not contradict one another.
proof fn lemma_published_tables_fit(profile: Profile, limits: Limits, t: Tables)
    requires
        profile.is_supported(),
        crate::publisher::tables_ok(profile, limits, t),
        crate::logical_view::index_ok(crate::publisher::live_edges(t.contributions)),
    ensures
        crate::table_fit::tables_fit(
            profile,
            limits,
            crate::publisher::live_edges(t.contributions),
            binding_table(t.contributions),
            t.plans,
        ),
{
    let c = t.contributions;
    let m = binding_table(c);
    let edges = crate::publisher::live_edges(c);
    assert(m.dom() =~= c.dom());
    assert forall|id: u64| #[trigger] c.contains_key(id)
        implies crate::table_fit::backing(profile, edges, m[id])
        == c[id].edges@.to_set() && crate::logical_view::walk_back(
        edges,
        m[id].role,
        Some(m[id].child),
        m[id].edge_count(profile) as nat,
    ) == Some(m[id].parent) by {
        let x = c[id];
        assert forall|i: int| 0 <= i < x.edges@.len() implies edges.contains(
            #[trigger] x.edges@[i],
        ) by {
            assert(x.edges@.contains(x.edges@[i]));
            assert(crate::publisher::holds(c, id, x.edges@[i]));
        }
        lemma_walk_chain(edges, x.binding.role, x.binding.parent, x.edges@);
    }
    assert(crate::table_fit::spans(profile, m) =~= crate::publisher::charges(c));
    assert forall|e: Edge| #[trigger] edges.contains(e) <==> exists|id: u64|
        crate::table_fit::backs(profile, edges, m, id, e) by {
        if edges.contains(e) {
            let id = choose|id: u64| crate::publisher::holds(c, id, e);
            assert(crate::publisher::holds(c, id, e));
            assert(c[id].edges@.to_set().contains(e));
            assert(crate::table_fit::backs(profile, edges, m, id, e));
        }
        if exists|id: u64| crate::table_fit::backs(profile, edges, m, id, e) {
            let id = choose|id: u64| crate::table_fit::backs(profile, edges, m, id, e);
            assert(c.contains_key(id));
            assert(c[id].edges@.to_set().contains(e));
            assert(crate::publisher::holds(c, id, e));
        }
    }
}

/// The bindings of the contributions are those of the binding table.
proof fn lemma_same_bindings(c: Map<u64, Contribution>)
    ensures
        crate::publisher::binding_set(c) == crate::table_fit::bindings_in(binding_table(c)),
{
    assert(crate::publisher::binding_set(c) =~= crate::table_fit::bindings_in(binding_table(c)));
}

/// A consumer that seeds a view from a publisher's snapshot, with the
/// publisher's own ceilings, holds exactly what the publisher holds, unless
/// the published edges contradict one another.
pub proof fn law_snapshot_mirrors_publisher(s: PublisherState, snapshot: Snapshot)
    requires
        s.confidence == Confidence::Known,
        s.profile.is_supported(),
        crate::publisher::tables_ok(s.profile, s.limits, s.tables),
        crate::logical_view::index_ok(crate::publisher::live_edges(s.tables.contributions)),
        crate::publisher::snapshot_of(s, snapshot),
    ensures
        ViewState::seeded(snapshot, s.limits) == mirror(s, s.limits),
{
    let edges = crate::publisher::live_edges(s.tables.contributions);
    lemma_published_tables_fit(s.profile, s.limits, s.tables);
    lemma_same_bindings(s.tables.contributions);
    crate::table_fit::lemma_fitting_tables_accepted(
        s.profile,
        s.limits,
        edges,
        binding_table(s.tables.contributions),
        s.tables.plans,
        snapshot.bindings@,
        snapshot.plans@,
    );
    snapshot.edges@.unique_seq_to_set();
    lemma_live_within(s.profile, s.limits, s.tables);
}

/// The live edges are within the edge ceiling.
proof fn lemma_live_within(profile: Profile, limits: Limits, t: Tables)
    requires
        crate::publisher::tables_ok(profile, limits, t),
    ensures
        crate::publisher::live_edges(t.contributions).finite(),
        crate::publisher::live_edges(t.contributions).len() <= limits.edges,
{
    crate::publisher::lemma_live_bounded(t.contributions);
}

/// Adding edges that contradict nothing, within the ceiling, adds them all.
proof fn lemma_added(edges: Set<Edge>, limits: Limits, added: Seq<Edge>)
    requires
        edges.finite(),
        added.no_duplicates(),
        forall|i: int| 0 <= i < added.len() ==> !edges.contains(#[trigger] added[i]),
        crate::logical_view::index_ok(edges.union(added.to_set())),
        edges.len() + added.len() <= limits.edges,
    ensures
        crate::logical_view::with_added(edges, limits, added) == Ok::<Set<Edge>, Confidence>(
            edges.union(added.to_set()),
        ),
        edges.union(added.to_set()).finite(),
        edges.union(added.to_set()).len() == edges.len() + added.len(),
    decreases added.len(),
{
    if added.len() == 0 {
        assert(edges.union(added.to_set()) =~= edges);
    } else {
        let head = added.drop_last();
        let last = added.last();
        let whole = edges.union(added.to_set());
        let part = edges.union(head.to_set());
        assert forall|e: Edge| whole.contains(e) <==> part.insert(last).contains(e) by {
            if added.contains(e) {
                let i = choose|i: int| 0 <= i < added.len() && added[i] == e;
                if i < head.len() {
                    assert(head[i] == e);
                }
            }
            if head.contains(e) {
                let i = choose|i: int| 0 <= i < head.len() && head[i] == e;
                assert(added[i] == e);
            }
            assert(added[added.len() - 1] == last);
        }
        assert(whole =~= part.insert(last));
        assert(crate::logical_view::index_ok(part)) by {
            assert forall|e: Edge, f: Edge|
                #![trigger part.contains(e), part.contains(f)]
                part.contains(e) && part.contains(f) && e.role == f.role && ((e.parent == f.parent
                    && e.local == f.local) || e.child == f.child) implies e == f by {
                assert(whole.contains(e) && whole.contains(f));
            }
        }
        assert forall|i: int| 0 <= i < head.len() implies !edges.contains(#[trigger] head[i]) by {
            assert(!edges.contains(added[i]));
        }
        lemma_added(edges, limits, head);
        assert(!part.contains(last)) by {
            assert(!edges.contains(added[added.len() - 1]));
            if head.contains(last) {
                let i = choose|i: int| 0 <= i < head.len() && head[i] == last;
                assert(added[i] == added[added.len() - 1]);
            }
        }
        assert(!crate::logical_view::conflicts(part, last)) by {
            if crate::logical_view::conflicts(part, last) {
                let f = choose|f: Edge| #[trigger]
                    part.contains(f) && f.role == last.role && f != last && ((f.parent
                        == last.parent && f.local == last.local) || f.child == last.child);
                assert(whole.contains(f) && whole.contains(last));
            }
        }
    }
}

/// A view that mirrors a publisher and follows its next cut mirrors it again.
/// The published edges must not contradict one another, before the cut or
/// after it: a view refuses contradictory material, a publisher does not.
pub proof fn law_view_follows_publisher(
    before: PublisherState,
    mutations: Seq<Mutation>,
    batch: MaterializedBatch,
)
    requires
        before.confidence == Confidence::Known,
        before.profile.is_supported(),
        before.cursor < u64::MAX,
        crate::publisher::tables_ok(before.profile, before.limits, before.tables),
        crate::logical_view::index_ok(crate::publisher::live_edges(before.tables.contributions)),
        ({
            let after = before.applied((before.cursor + 1) as u64, mutations);
            &&& crate::publisher::tables_ok(after.profile, after.limits, after.tables)
            &&& crate::logical_view::index_ok(crate::publisher::live_edges(after.tables.contributions))
            &&& crate::publisher::batch_between(before, after, batch)
        }),
    ensures
        ({
            let after = before.applied((before.cursor + 1) as u64, mutations);
            mirror(before, before.limits).applied(batch) == mirror(after, before.limits)
        }),
{
    let cursor = (before.cursor + 1) as u64;
    let after = before.applied(cursor, mutations);
    let was = crate::publisher::live_edges(before.tables.contributions);
    let now = crate::publisher::live_edges(after.tables.contributions);
    let v = mirror(before, before.limits);
    let w = mirror(after, before.limits);
    match crate::publisher::mutated_by(before.profile, before.limits, before.tables, mutations) {
        Err(reason) => {
            lemma_refusal_is_a_reason(before.profile, before.limits, before.tables, mutations);
            assert(after.tables == Tables::none());
            assert(now =~= Set::empty()) by {
                assert forall|e: Edge| !now.contains(e) by {
                    assert forall|id: u64| !crate::publisher::holds(Map::empty(), id, e) by {}
                }
            }
            assert(w.bindings =~= Map::empty());
            assert(v.applied(batch) == w);
        },
        Ok(tables) => {
            lemma_live_within(before.profile, before.limits, before.tables);
            lemma_live_within(after.profile, after.limits, after.tables);
            let removed = batch.removed_edges@.to_set();
            let kept = was.difference(removed);
            let added = batch.added_edges@;
            assert(kept =~= was.intersect(now));
            assert(kept.union(added.to_set()) =~= now);
            assert forall|i: int| 0 <= i < added.len() implies !kept.contains(
                #[trigger] added[i],
            ) by {
                assert(added.to_set().contains(added[i]));
            }
            added.unique_seq_to_set();
            assert(kept.disjoint(added.to_set()));
            vstd::set_lib::lemma_set_disjoint_lens(kept, added.to_set());
            lemma_added(kept, before.limits, added);
            lemma_published_tables_fit(after.profile, after.limits, after.tables);
            lemma_same_bindings(after.tables.contributions);
            crate::table_fit::lemma_fitting_tables_accepted(
                after.profile,
                after.limits,
                now,
                binding_table(after.tables.contributions),
                after.tables.plans,
                batch.bindings@,
                batch.plans@,
            );
            assert(v.applied(batch) == w);
        },
    }
}

/// A mutation is never refused because everything is known.
proof fn lemma_refusal_is_a_reason(
    profile: Profile,
    limits: Limits,
    t: Tables,
    mutations: Seq<Mutation>,
)
    ensures
        crate::publisher::mutated_by(profile, limits, t, mutations) != Err::<Tables,
            Confidence>(Confidence::Known),
    decreases mutations.len(),
{
    if mutations.len() > 0 {
        lemma_refusal_is_a_reason(profile, limits, t, mutations.drop_last());
    }
}

/// An edge outlives a contribution exactly when another contribution holds it.
pub proof fn law_shared_edges_survive(
    profile: Profile,
    limits: Limits,
    t: Tables,
    id: u64,
    e: Edge,
)
    requires
        t.contributions.contains_key(id),
    ensures
        ({
            let after = crate::publisher::mutated(profile, limits, t, Mutation::RemoveCoverage(id));
            &&& after is Ok
            &&& crate::publisher::live_edges(after->Ok_0.contributions).contains(e) <==> exists|other: u64|
                other != id && #[trigger] crate::publisher::holds(t.contributions, other, e)
        }),
{
    let c = t.contributions;
    let left = c.remove(id);
    if crate::publisher::live_edges(left).contains(e) {
        let other = choose|other: u64| crate::publisher::holds(left, other, e);
        assert(other != id && crate::publisher::holds(c, other, e));
    }
    if exists|other: u64| other != id && #[trigger] crate::publisher::holds(c, other, e) {
        let other = choose|other: u64| other != id && #[trigger] crate::publisher::holds(c, other, e);
        assert(crate::publisher::holds(left, other, e));
    }
}

/// Dropping a contribution retires every plan that it backed, and no other,
/// whether or not its edges stay live.
pub proof fn law_coverage_takes_its_plans(
    profile: Profile,
    limits: Limits,
    t: Tables,
    id: u64,
    plan: u64,
)
    requires
        t.contributions.contains_key(id),
    ensures
        ({
            let after = crate::publisher::mutated(profile, limits, t, Mutation::RemoveCoverage(id));
            &&& after is Ok
            &&& after->Ok_0.plans.contains_key(plan) <==> t.plans.contains_key(plan)
                && t.plans[plan].binding != id
        }),
{
    assert(crate::publisher::plans_of(t.plans, id).contains(plan) <==> t.plans.contains_key(plan)
        && t.plans[plan].binding == id);
}

/// Repeating a coverage or plan mutation that was accepted changes nothing.
pub proof fn law_duplicate_upsert_is_idle(
    profile: Profile,
    limits: Limits,
    t: Tables,
    mutation: Mutation,
)
    requires
        mutation is Coverage || mutation is Plan,
        crate::publisher::mutated(profile, limits, t, mutation) is Ok,
    ensures
        ({
            let once = crate::publisher::mutated(profile, limits, t, mutation)->Ok_0;
            crate::publisher::mutated(profile, limits, once, mutation) == Ok::<Tables, Confidence>(once)
        }),
{
}

/// What is live under an identifier is fixed: the same again changes nothing,
/// and anything else under it is refused.
pub proof fn law_live_identifiers_are_fixed(
    profile: Profile,
    limits: Limits,
    t: Tables,
    c: Contribution,
    plan: Plan,
)
    ensures
        t.contributions.contains_key(c.binding.id) ==> crate::publisher::mutated(
            profile,
            limits,
            t,
            Mutation::Coverage(c),
        ) == (if crate::publisher::same_contribution(t.contributions[c.binding.id], c) {
            Ok::<Tables, Confidence>(t)
        } else {
            Err(Confidence::Invalid)
        }),
        t.plans.contains_key(plan.id) ==> crate::publisher::mutated(
            profile,
            limits,
            t,
            Mutation::Plan(plan),
        ) == (if t.plans[plan.id] == plan {
            Ok::<Tables, Confidence>(t)
        } else {
            Err(Confidence::Invalid)
        }),
{
}

/// Removing what is not live changes nothing and is not refused.
pub proof fn law_removing_the_absent_is_idle(profile: Profile, limits: Limits, t: Tables, id: u64)
    ensures
        !t.contributions.contains_key(id) ==> crate::publisher::mutated(
            profile,
            limits,
            t,
            Mutation::RemoveCoverage(id),
        ) == Ok::<Tables, Confidence>(t),
        !t.plans.contains_key(id) ==> crate::publisher::mutated(
            profile,
            limits,
            t,
            Mutation::RemovePlan(id),
        ) == Ok::<Tables, Confidence>(t),
{
    if !t.plans.contains_key(id) {
        assert(t.plans.remove(id) =~= t.plans);
    }
}

/// A publisher that lost its standing holds nothing and never regains it.
pub proof fn law_failure_is_final(s: PublisherState, cursor: u64, mutations: Seq<Mutation>)
    requires
        s.confidence != Confidence::Known,
        s.tables == Tables::none(),
    ensures
        s.applied(cursor, mutations).confidence != Confidence::Known,
        s.applied(cursor, mutations).tables == Tables::none(),
{
}

/// Nothing that a query certifies goes beyond what is resident, and a certified
/// endpoint always leaves part of the prompt to compute.
pub proof fn law_certified_within_resident(
    v: ViewState,
    prompt_tokens: u32,
    full: Seq<LocalBlockHash>,
    fine: Seq<LocalBlockHash>,
    result: QueryResult,
)
    requires
        crate::logical_view::view_ok(v),
        crate::logical_view::matched(v, prompt_tokens, full, fine, result),
    ensures
        result.eligible_cpu_root_tokens is Some,
        result.eligible_cpu_root_tokens->Some_0 <= result.raw_cpu_tokens,
        result.selected_plan is Some ==> result.eligible_cpu_root_tokens->Some_0 < prompt_tokens,
{
    if let Some(best) = result.selected_plan {
        let p = v.plans[best];
        let b = v.bindings[p.binding];
        let block = v.profile.block_size as int;
        let unit = v.profile.hash_unit as int;
        assert(v.plans.contains_key(best));
        assert(v.bindings.contains_key(p.binding));
        match b.role {
            CoverageRole::Prefix => {
                let n = p.anchor_end as int / block;
                assert(crate::logical_view::prefix_resident(v, full, n));
                assert(n * block == p.anchor_end) by (nonlinear_arith)
                    requires
                        block > 0,
                        p.anchor_end as int % block == 0,
                        n == p.anchor_end as int / block,
                ;
                assert(crate::logical_view::resident(v, prompt_tokens, full, fine, n * block));
            },
            CoverageRole::Tail => {
                let u = p.end as int / unit;
                assert(u * unit == p.end) by (nonlinear_arith)
                    requires
                        unit > 0,
                        p.end as int % unit == 0,
                        u == p.end as int / unit,
                ;
                assert(p.anchor_end as int / unit < u) by (nonlinear_arith)
                    requires
                        unit > 0,
                        p.anchor_end < p.end,
                        p.end as int % unit == 0,
                        u == p.end as int / unit,
                ;
                assert(crate::logical_view::tail_resident(v, prompt_tokens, full, fine, p.binding, u));
                assert(crate::logical_view::resident(v, prompt_tokens, full, fine, u * unit));
            },
        }
    }
}

} // verus!
