//! What holds of every view and of every answer that it gives.

use crate::logical::{
    Binding, Confidence, CoverageRole, Edge, Limits, MaterializedBatch, Plan, Profile, Snapshot,
};
use crate::logical_view::{Query, QueryResult, ViewState};
use crate::protocols::{ExternalSequenceBlockHash, LocalBlockHash};
use vstd::prelude::*;

verus! {

/// A path is followed edge by edge: it goes on over an edge of its role from
/// where it has come to, by the next block, and ends where there is none.
pub proof fn law_paths_follow_edges(
    edges: Set<Edge>,
    role: CoverageRole,
    locals: Seq<LocalBlockHash>,
    parent: Option<ExternalSequenceBlockHash>,
    from: int,
    to: int,
    e: Edge,
)
    requires
        from <= to,
        crate::logical_view::index_ok(edges),
    ensures
        crate::logical_view::reached(edges, role, locals, parent, from, from) == Some(parent),
        ({
            let here = crate::logical_view::reached(edges, role, locals, parent, from, to);
            let next = crate::logical_view::reached(edges, role, locals, parent, from, to + 1);
            &&& here is None ==> next is None
            &&& here is Some && edges.contains(e) && e.role == role && e.parent == here->Some_0
                && e.local == locals[to] ==> next == Some(Some(e.child))
            &&& next is Some ==> here is Some && next->Some_0 is Some && exists|f: Edge| #[trigger]
                edges.contains(f) && f.role == role && f.parent == here->Some_0 && f.local
                    == locals[to] && f.child == next->Some_0->Some_0
        }),
{
    let here = crate::logical_view::reached(edges, role, locals, parent, from, to);
    if here is Some {
        let found = crate::logical_view::edge_after(edges, role, here->Some_0, locals[to]);
        if edges.contains(e) && e.role == role && e.parent == here->Some_0 && e.local
            == locals[to] {
            assert(found is Some);
            assert(edges.contains(found->Some_0));
        }
        if found is Some {
            assert(edges.contains(found->Some_0));
        }
    }
}

/// No resident prefix of the prompt is longer than what an answer calls
/// resident.
pub proof fn law_raw_tokens_are_the_longest_prefix(
    v: ViewState,
    prompt_tokens: u32,
    full: Seq<LocalBlockHash>,
    fine: Seq<LocalBlockHash>,
    result: QueryResult,
    n: int,
)
    requires
        crate::logical_view::matched(v, prompt_tokens, full, fine, result),
        0 <= n <= full.len(),
        crate::logical_view::reached(v.edges, CoverageRole::Prefix, full, None, 0, n) is Some,
    ensures
        n * v.profile.block_size <= result.raw_cpu_tokens,
        result.status == Confidence::Known,
{
    assert(crate::logical_view::prefix_resident(v, full, n));
    assert(crate::logical_view::resident(v, prompt_tokens, full, fine, n * v.profile.block_size));
}

/// What an answer certifies is the end of a plan that the prompt is long enough
/// for, and whose anchor the prompt's own blocks lead to; no other such plan
/// ends later, and of those that end there it is the first. Without a plan
/// nothing is certified.
pub proof fn law_certified_tokens_end_a_plan(
    v: ViewState,
    prompt_tokens: u32,
    full: Seq<LocalBlockHash>,
    fine: Seq<LocalBlockHash>,
    result: QueryResult,
    other: u64,
)
    requires
        crate::logical_view::matched(v, prompt_tokens, full, fine, result),
    ensures
        result.eligible_cpu_root_tokens is Some,
        result.selected_plan is None ==> result.eligible_cpu_root_tokens == Some(0u32),
        result.selected_plan is Some ==> {
            let id = result.selected_plan->Some_0;
            let plan = v.plans[id];
            let blocks = plan.anchor_end as int / v.profile.block_size as int;
            &&& v.plans.contains_key(id)
            &&& result.eligible_cpu_root_tokens == Some(plan.end)
            &&& plan.minimum_prompt_tokens <= prompt_tokens
            &&& 0 <= blocks <= full.len()
            &&& crate::logical_view::reached(
                v.edges,
                CoverageRole::Prefix,
                full,
                None,
                0,
                blocks,
            ) == Some(plan.anchor)
        },
        crate::logical_view::eligible(v, prompt_tokens, full, fine, other)
            ==> result.selected_plan is Some && v.plans[other].end
            <= result.eligible_cpu_root_tokens->Some_0 && (v.plans[other].end
            == result.eligible_cpu_root_tokens->Some_0 ==> result.selected_plan->Some_0 <= other),
{
}

/// A plan may be resumed from exactly if the prompt is long enough, its own
/// blocks lead to the plan's anchor, and, where the plan ends in a tail, lead on
/// to the tail's own end.
pub proof fn law_plans_are_eligible_by_their_path(
    v: ViewState,
    prompt_tokens: u32,
    full: Seq<LocalBlockHash>,
    fine: Seq<LocalBlockHash>,
    id: u64,
)
    requires
        v.plans.contains_key(id),
    ensures
        ({
            let plan = v.plans[id];
            let binding = v.bindings[plan.binding];
            let blocks = plan.anchor_end as int / v.profile.block_size as int;
            let unit = v.profile.hash_unit as int;
            crate::logical_view::eligible(v, prompt_tokens, full, fine, id) <==> {
                &&& plan.minimum_prompt_tokens <= prompt_tokens
                &&& 0 <= blocks <= full.len()
                &&& crate::logical_view::reached(
                    v.edges,
                    CoverageRole::Prefix,
                    full,
                    None,
                    0,
                    blocks,
                ) == Some(plan.anchor)
                &&& binding.role == CoverageRole::Tail ==> crate::logical_view::reached(
                    v.edges,
                    CoverageRole::Tail,
                    fine,
                    plan.anchor,
                    plan.anchor_end as int / unit,
                    plan.end as int / unit,
                ) == Some(Some(binding.child))
            }
        }),
{
}

/// A view answers for its own scope only, only in good standing, and only if the
/// hashes fit the prompt; else it says which of these fails and no number.
pub proof fn law_views_answer_for_their_scope(v: ViewState, query: Query, result: QueryResult)
    requires
        crate::logical_view::answers(v, query, result),
        v.profile.block_size > 0,
        v.profile.hash_unit > 0,
    ensures
        result.cursor == v.cursor,
        query.scope@ != v.scope ==> result.status == Confidence::ScopeMismatch,
        query.scope@ == v.scope && v.confidence != Confidence::Known ==> result.status
            == v.confidence,
        query.scope@ == v.scope && v.confidence == Confidence::Known && (query.full@.len()
            != query.prompt_tokens as int / v.profile.block_size as int || query.fine@.len()
            != query.prompt_tokens as int / v.profile.hash_unit as int) ==> result.status
            == Confidence::UnsupportedQuery,
        result.status != Confidence::Known ==> result.eligible_cpu_root_tokens is None
            && result.raw_cpu_tokens == 0 && result.selected_plan is None,
        result.status == Confidence::Known <==> query.scope@ == v.scope && v.confidence
            == Confidence::Known && query.full@.len() == query.prompt_tokens as int
            / v.profile.block_size as int && query.fine@.len() == query.prompt_tokens as int
            / v.profile.hash_unit as int,
{
}

/// A view that lost its standing holds nothing and keeps its identity.
pub proof fn law_failed_views_hold_nothing(v: ViewState, reason: Confidence)
    ensures
        v.failed(reason).confidence == reason,
        v.failed(reason).edges == Set::<Edge>::empty(),
        v.failed(reason).bindings.dom() == Set::<u64>::empty(),
        v.failed(reason).plans.dom() == Set::<u64>::empty(),
        v.failed(reason).cursor == v.cursor,
        v.failed(reason).scope == v.scope,
        v.failed(reason).profile == v.profile,
        v.failed(reason).limits == v.limits,
{
}

/// How a view follows cuts: those of another scope and old ones change nothing,
/// the next one moves the cursor by one, and one that comes too early loses the
/// view for a gap. A view never regains its standing by a cut, and a cut that
/// admits a doubt passes it on.
pub proof fn law_views_follow_cuts_one_by_one(v: ViewState, batch: MaterializedBatch)
    ensures
        ({
            let after = v.applied(batch);
            let ours = batch.scope@ == v.scope && batch.profile == v.profile;
            &&& batch.scope@ != v.scope ==> after == v
            &&& batch.scope@ == v.scope && batch.profile != v.profile ==> after.confidence
                == Confidence::UnsupportedProfile && after.cursor == v.cursor
            &&& ours && batch.cursor <= v.cursor ==> after == v
            &&& ours && batch.cursor > v.cursor ==> after.cursor == batch.cursor
            &&& ours && batch.cursor > v.cursor + 1 ==> after.confidence == Confidence::Gap
                && after.edges == Set::<Edge>::empty()
            &&& ours && batch.cursor == v.cursor + 1 && batch.confidence != Confidence::Known
                ==> after.confidence == batch.confidence && after.edges == Set::<Edge>::empty()
            &&& v.confidence != Confidence::Known ==> after.confidence != Confidence::Known
            &&& after.scope == v.scope && after.profile == v.profile && after.limits == v.limits
        }),
{
}

/// An edge that a cut takes away and does not bring again is gone, and no edge
/// is there afterwards that was not there and is not one of the cut's.
pub proof fn law_cuts_change_their_own_edges(v: ViewState, batch: MaterializedBatch, e: Edge)
    requires
        batch.scope@ == v.scope,
        batch.profile == v.profile,
        batch.cursor == v.cursor + 1,
        v.applied(batch).confidence == Confidence::Known,
    ensures
        v.applied(batch).edges.contains(e) <==> (v.edges.contains(e)
            && !batch.removed_edges@.contains(e)) || batch.added_edges@.contains(e),
{
    let kept = v.edges.difference(batch.removed_edges@.to_set());
    lemma_added(kept, v.limits, batch.added_edges@, e);
    lemma_addition_has_a_reason(kept, v.limits, batch.added_edges@);
    let edges = crate::logical_view::with_added(kept, v.limits, batch.added_edges@);
    lemma_tables_have_a_reason(v.profile, v.limits, edges->Ok_0, batch.bindings@, batch.plans@);
    assert(batch.removed_edges@.to_set().contains(e) == batch.removed_edges@.contains(e));
}

proof fn lemma_addition_has_a_reason(edges: Set<Edge>, limits: Limits, added: Seq<Edge>)
    ensures
        crate::logical_view::with_added(edges, limits, added) != Err::<Set<Edge>, Confidence>(
            Confidence::Known,
        ),
    decreases added.len(),
{
    if added.len() > 0 {
        lemma_addition_has_a_reason(edges, limits, added.drop_last());
    }
}

/// Tables are never refused because everything is known.
proof fn lemma_tables_have_a_reason(
    profile: Profile,
    limits: Limits,
    edges: Set<Edge>,
    bindings: Seq<Binding>,
    plans: Seq<Plan>,
)
    ensures
        crate::logical_view::tables_error(profile, limits, edges, bindings, plans) != Some(
            Confidence::Known,
        ),
{
    lemma_coverage_has_a_reason(profile, limits, edges, bindings, bindings.len());
    lemma_plans_have_a_reason(profile, crate::logical_view::bindings_by_id(bindings), plans);
}

proof fn lemma_coverage_has_a_reason(
    profile: Profile,
    limits: Limits,
    edges: Set<Edge>,
    bindings: Seq<Binding>,
    n: nat,
)
    ensures
        crate::logical_view::coverage_error(profile, limits, edges, bindings, n) != Some(
            Confidence::Known,
        ),
    decreases n,
{
    if n > 0 {
        lemma_coverage_has_a_reason(profile, limits, edges, bindings, (n - 1) as nat);
    }
}

proof fn lemma_plans_have_a_reason(
    profile: Profile,
    bindings: Map<u64, Binding>,
    plans: Seq<Plan>,
)
    ensures
        crate::logical_view::plans_error(profile, bindings, plans) != Some(Confidence::Known),
    decreases plans.len(),
{
    if plans.len() > 0 {
        lemma_plans_have_a_reason(profile, bindings, plans.drop_last());
    }
}

proof fn lemma_added(edges: Set<Edge>, limits: Limits, added: Seq<Edge>, e: Edge)
    ensures
        crate::logical_view::with_added(edges, limits, added) is Ok
            ==> (crate::logical_view::with_added(edges, limits, added)->Ok_0.contains(e)
            <==> edges.contains(e) || added.contains(e)),
    decreases added.len(),
{
    if added.len() > 0 {
        let front = added.drop_last();
        lemma_added(edges, limits, front, e);
        assert(added[added.len() - 1] == added.last());
        if front.contains(e) {
            let i = choose|i: int| 0 <= i < front.len() && front[i] == e;
            assert(added[i] == e);
        }
        if added.contains(e) && added.last() != e {
            let i = choose|i: int| 0 <= i < added.len() && added[i] == e;
            assert(front[i] == e);
        }
    }
}

/// A snapshot seeds a view with its own scope, profile and cursor, which holds
/// its edges if it is in good standing and nothing else; one that admits a doubt
/// or does not fit seeds a view without tables.
pub proof fn law_snapshots_seed_their_own_tables(snapshot: Snapshot, limits: Limits)
    ensures
        ({
            let v = ViewState::seeded(snapshot, limits);
            &&& v.cursor == snapshot.cursor
            &&& v.scope == snapshot.scope@
            &&& v.profile == snapshot.profile
            &&& v.limits == limits
            &&& v.confidence == Confidence::Known ==> v.edges == snapshot.edges@.to_set()
                && snapshot.confidence == Confidence::Known && snapshot.edges@.len()
                <= limits.edges
            &&& v.confidence != Confidence::Known ==> v.edges == Set::<Edge>::empty()
                && v.plans.dom() == Set::<u64>::empty()
            &&& snapshot.profile.is_supported() && snapshot.confidence != Confidence::Known
                ==> v.confidence == snapshot.confidence
            &&& !snapshot.profile.is_supported() ==> v.confidence == Confidence::UnsupportedProfile
            &&& snapshot.profile.is_supported() && snapshot.confidence == Confidence::Known
                && snapshot.edges@.len() > limits.edges ==> v.confidence == Confidence::Overflow
        }),
{
    lemma_tables_have_a_reason(
        snapshot.profile,
        limits,
        snapshot.edges@.to_set(),
        snapshot.bindings@,
        snapshot.plans@,
    );
}

proof fn lemma_plans_by_id(
    profile: Profile,
    bindings: Map<u64, Binding>,
    plans: Seq<Plan>,
    i: int,
)
    requires
        crate::logical_view::plans_error(profile, bindings, plans) is None,
        0 <= i < plans.len(),
    ensures
        crate::logical_view::plans_by_id(plans).contains_key(plans[i].id),
        crate::logical_view::plans_by_id(plans)[plans[i].id] == plans[i],
        bindings.contains_key(plans[i].binding),
        plans[i].is_valid(bindings[plans[i].binding], profile),
    decreases plans.len(),
{
    if i < plans.len() - 1 {
        lemma_plans_by_id(profile, bindings, plans.drop_last(), i);
        assert(plans.drop_last()[i] == plans[i]);
    }
}

proof fn lemma_bindings_by_id(bindings: Seq<Binding>, i: int)
    requires
        0 <= i < bindings.len(),
        forall|a: int, b: int|
            0 <= a < b < bindings.len() ==> (#[trigger] bindings[a]).id != (
            #[trigger] bindings[b]).id,
    ensures
        crate::logical_view::bindings_by_id(bindings).contains_key(bindings[i].id),
        crate::logical_view::bindings_by_id(bindings)[bindings[i].id] == bindings[i],
    decreases bindings.len(),
{
    let front = bindings.drop_last();
    if i < bindings.len() - 1 {
        assert forall|a: int, b: int| 0 <= a < b < front.len() implies (#[trigger] front[a]).id != (
        #[trigger] front[b]).id by {
            assert(front[a] == bindings[a] && front[b] == bindings[b]);
        }
        lemma_bindings_by_id(front, i);
        assert(front[i] == bindings[i]);
        assert(bindings[i].id != bindings[bindings.len() - 1].id);
    }
}

/// A view that a snapshot seeds in good standing holds every binding and every
/// plan of the snapshot, each valid, each plan with its binding, and no more
/// than the limits allow.
pub proof fn law_seeded_views_hold_valid_tables(snapshot: Snapshot, limits: Limits, i: int, j: int)
    requires
        ViewState::seeded(snapshot, limits).confidence == Confidence::Known,
        0 <= i < snapshot.bindings@.len(),
        0 <= j < snapshot.plans@.len(),
    ensures
        ({
            let v = ViewState::seeded(snapshot, limits);
            let b = snapshot.bindings@[i];
            let p = snapshot.plans@[j];
            &&& b.is_valid(snapshot.profile)
            &&& v.bindings.contains_key(b.id) && v.bindings[b.id] == b
            &&& v.plans.contains_key(p.id) && v.plans[p.id] == p
            &&& v.bindings.contains_key(p.binding)
            &&& p.is_valid(v.bindings[p.binding], snapshot.profile)
            &&& snapshot.bindings@.len() <= limits.bindings
            &&& snapshot.plans@.len() <= limits.plans
        }),
{
    lemma_tables_have_a_reason(
        snapshot.profile,
        limits,
        snapshot.edges@.to_set(),
        snapshot.bindings@,
        snapshot.plans@,
    );
    lemma_bindings_by_id(snapshot.bindings@, i);
    lemma_plans_by_id(
        snapshot.profile,
        crate::logical_view::bindings_by_id(snapshot.bindings@),
        snapshot.plans@,
        j,
    );
}

/// Edges that contradict one another are never held together: a view in good
/// standing does not lead by one block of one role from one place to two, nor to
/// one place from two.
pub proof fn law_seeded_edges_do_not_contradict(
    snapshot: Snapshot,
    limits: Limits,
    e: Edge,
    f: Edge,
)
    requires
        ViewState::seeded(snapshot, limits).confidence == Confidence::Known,
        ViewState::seeded(snapshot, limits).edges.contains(e),
        ViewState::seeded(snapshot, limits).edges.contains(f),
        e.role == f.role,
        (e.parent == f.parent && e.local == f.local) || e.child == f.child,
    ensures
        e == f,
{
    lemma_tables_have_a_reason(
        snapshot.profile,
        limits,
        snapshot.edges@.to_set(),
        snapshot.bindings@,
        snapshot.plans@,
    );
}

/// Of two plans that may both be resumed from, the one that resumes deeper is
/// taken, and of two that resume equally deep the one with the smaller
/// identifier.
pub proof fn law_deeper_plans_are_better(v: ViewState, a: u64, b: u64)
    ensures
        v.plans[a].end < v.plans[b].end ==> crate::logical_view::no_better(v, a, b)
            && !crate::logical_view::no_better(v, b, a),
        v.plans[a].end == v.plans[b].end && b < a ==> crate::logical_view::no_better(v, a, b)
            && !crate::logical_view::no_better(v, b, a),
{
}

/// What is resident by way of a tail counts as well: whole units behind a
/// resident anchor, within the tail and the prompt.
pub proof fn law_raw_tokens_reach_into_tails(
    v: ViewState,
    prompt_tokens: u32,
    full: Seq<LocalBlockHash>,
    fine: Seq<LocalBlockHash>,
    result: QueryResult,
    id: u64,
    u: int,
)
    requires
        crate::logical_view::matched(v, prompt_tokens, full, fine, result),
        v.bindings.contains_key(id),
        v.bindings[id].role == CoverageRole::Tail,
        ({
            let b = v.bindings[id];
            let blocks = b.start as int / v.profile.block_size as int;
            let unit = v.profile.hash_unit as int;
            &&& 0 <= blocks <= full.len()
            &&& crate::logical_view::reached(
                v.edges,
                CoverageRole::Prefix,
                full,
                None,
                0,
                blocks,
            ) == Some(b.parent)
            &&& b.start as int / unit < u
            &&& u * unit <= b.end
            &&& u * unit <= prompt_tokens
            &&& crate::logical_view::reached(
                v.edges,
                CoverageRole::Tail,
                fine,
                b.parent,
                b.start as int / unit,
                u,
            ) is Some
        }),
    ensures
        u * v.profile.hash_unit <= result.raw_cpu_tokens,
{
    assert(crate::logical_view::tail_resident(v, prompt_tokens, full, fine, id, u));
    assert(crate::logical_view::resident(
        v,
        prompt_tokens,
        full,
        fine,
        u * v.profile.hash_unit,
    ));
}

} // verus!
