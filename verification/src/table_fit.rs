//! When semantic tables fit the edges of a view, whatever order they are
//! listed in.

use crate::logical::{Binding, Edge, Limits, Plan, Profile};
use vstd::prelude::*;

verus! {

/// The bindings of a binding table.
pub open spec fn bindings_in(m: Map<u64, Binding>) -> Set<Binding> {
    Set::new(|b: Binding| m.contains_key(b.id) && m[b.id] == b)
}

/// How many edges each binding is made of.
pub open spec fn spans(profile: Profile, m: Map<u64, Binding>) -> Map<u64, nat> {
    m.map_values(|b: Binding| b.edge_count(profile) as nat)
}

/// The edges that back `b`.
pub open spec fn backing(profile: Profile, edges: Set<Edge>, b: Binding) -> Set<Edge> {
    crate::logical_view::walked(edges, b.role, Some(b.child), b.edge_count(profile) as nat)
}

/// Whether the binding stored under `id` is backed by `e`.
pub open spec fn backs(
    profile: Profile,
    edges: Set<Edge>,
    m: Map<u64, Binding>,
    id: u64,
    e: Edge,
) -> bool {
    m.contains_key(id) && backing(profile, edges, m[id]).contains(e)
}

/// The tables keep every ceiling, every binding is backed edge by edge, every
/// edge backs a binding, and every plan agrees with its binding.
pub open spec fn tables_fit(
    profile: Profile,
    limits: Limits,
    edges: Set<Edge>,
    m: Map<u64, Binding>,
    p: Map<u64, Plan>,
) -> bool {
    &&& m.dom().finite()
    &&& p.dom().finite()
    &&& m.len() <= limits.bindings
    &&& p.len() <= limits.plans
    &&& crate::sums::sum_of(spans(profile, m)) <= limits.edges
    &&& forall|id: u64| #[trigger]
        m.contains_key(id) ==> {
            let b = m[id];
            &&& b.id == id
            &&& b.is_valid(profile)
            &&& crate::logical_view::walk_back(edges, b.role, Some(b.child),
                b.edge_count(profile) as nat) == Some(
                b.parent,
            )
            &&& crate::publisher::plans_of(p, id).len() <= profile.plan_cap(b.role)
        }
    &&& forall|e: Edge| #[trigger]
        edges.contains(e) <==> exists|id: u64| backs(profile, edges, m, id, e)
    &&& forall|id: u64| #[trigger]
        p.contains_key(id) ==> {
            &&& p[id].id == id
            &&& m.contains_key(p[id].binding)
            &&& p[id].is_valid(m[p[id].binding], profile)
        }
}

/// What a list of bindings with distinct identifiers makes of a table.
proof fn lemma_by_id(profile: Profile, bs: Seq<Binding>)
    requires
        forall|i: int, j: int|
            0 <= i < j < bs.len() ==> (#[trigger] bs[i]).id != (#[trigger] bs[j]).id,
        forall|i: int| 0 <= i < bs.len() ==> 0 <= (#[trigger] bs[i]).edge_count(profile),
    ensures
        crate::logical_view::bindings_by_id(bs).dom().finite(),
        crate::logical_view::bindings_by_id(bs).len() == bs.len(),
        forall|i: int|
            0 <= i < bs.len() ==> crate::logical_view::bindings_by_id(bs).contains_key((#[trigger] bs[i]).id)
                && crate::logical_view::bindings_by_id(bs)[bs[i].id] == bs[i],
        forall|id: u64| #[trigger]
            crate::logical_view::bindings_by_id(bs).contains_key(id) ==> exists|i: int|
                0 <= i < bs.len() && (#[trigger] bs[i]).id == id,
        crate::sums::sum_of(spans(profile, crate::logical_view::bindings_by_id(bs)))
            == crate::logical_view::charged(profile, bs, bs.len()),
    decreases bs.len(),
{
    if bs.len() == 0 {
        crate::sums::lemma_sum_empty::<u64>();
        assert(spans(profile, Map::empty()) =~= Map::<u64, nat>::empty());
        assert(crate::logical_view::bindings_by_id(bs).dom() =~= Set::empty());
    } else {
        let head = bs.drop_last();
        let last = bs.last();
        assert forall|i: int, j: int| 0 <= i < j < head.len() implies (#[trigger] head[i]).id != (
        #[trigger] head[j]).id by {
            assert(bs[i].id != bs[j].id);
        }
        assert forall|i: int| 0 <= i < head.len() implies 0 <= (#[trigger] head[i]).edge_count(
            profile,
        ) by {
            assert(0 <= bs[i].edge_count(profile));
        }
        lemma_by_id(profile, head);
        let m = crate::logical_view::bindings_by_id(head);
        assert(!m.contains_key(last.id)) by {
            if m.contains_key(last.id) {
                let i = choose|i: int| 0 <= i < head.len() && (#[trigger] head[i]).id == last.id;
                assert(bs[i].id != bs[bs.len() - 1].id);
            }
        }
        assert(spans(profile, m).dom() =~= m.dom());
        crate::sums::lemma_sum_insert(spans(profile, m), last.id, last.edge_count(profile) as nat);
        assert(spans(profile, m.insert(last.id, last)) =~= spans(profile, m).insert(
            last.id,
            last.edge_count(profile) as nat,
        ));
        lemma_charged_prefix(profile, bs, (bs.len() - 1) as nat);
        assert forall|i: int| 0 <= i < bs.len() implies crate::logical_view::bindings_by_id(bs).contains_key(
            (#[trigger] bs[i]).id,
        ) && crate::logical_view::bindings_by_id(bs)[bs[i].id] == bs[i] by {
            if i < head.len() {
                assert(head[i] == bs[i]);
                assert(m.contains_key(head[i].id));
            }
        }
        assert forall|id: u64| #[trigger]
            crate::logical_view::bindings_by_id(bs).contains_key(id) implies exists|i: int|
            0 <= i < bs.len() && (#[trigger] bs[i]).id == id by {
            if id == last.id {
                assert(bs[bs.len() - 1].id == id);
            } else {
                assert(m.contains_key(id));
                let i = choose|i: int| 0 <= i < head.len() && (#[trigger] head[i]).id == id;
                assert(bs[i].id == id);
            }
        }
    }
}

/// Charges of a prefix do not depend on what follows it.
proof fn lemma_charged_prefix(profile: Profile, bs: Seq<Binding>, n: nat)
    requires
        bs.len() > 0,
        n < bs.len(),
    ensures
        crate::logical_view::charged(profile, bs, n) == crate::logical_view::charged(profile,
            bs.drop_last(), n),
    decreases n,
{
    if n > 0 {
        lemma_charged_prefix(profile, bs, (n - 1) as nat);
    }
}

/// Charges only grow.
proof fn lemma_charged_grows(profile: Profile, bs: Seq<Binding>, n: nat, m: nat)
    requires
        n <= m <= bs.len(),
    ensures
        crate::logical_view::charged(profile, bs, n) <= crate::logical_view::charged(profile, bs, m),
    decreases m,
{
    if n < m {
        lemma_charged_grows(profile, bs, n, (m - 1) as nat);
    }
}

/// An edge is covered exactly when one of the bindings is backed by it.
proof fn lemma_covered(
    profile: Profile,
    edges: Set<Edge>,
    bs: Seq<Binding>,
    n: nat,
    e: Edge,
)
    requires
        n <= bs.len(),
    ensures
        crate::logical_view::covered(profile, edges, bs, n).contains(e) <==> exists|i: int|
            0 <= i < n && #[trigger] backing(profile, edges, bs[i]).contains(e),
    decreases n,
{
    if n > 0 {
        lemma_covered(profile, edges, bs, (n - 1) as nat, e);
        if crate::logical_view::covered(profile, edges, bs, n).contains(e) {
            if backing(profile, edges, bs[n - 1]).contains(e) {
            } else {
                let i = choose|i: int|
                    0 <= i < n - 1 && #[trigger] backing(profile, edges, bs[i]).contains(e);
                assert(backing(profile, edges, bs[i]).contains(e));
            }
        }
    }
}

/// A walk passes no more edges than it has steps.
proof fn lemma_walked_bounded(
    edges: Set<Edge>,
    role: crate::logical::CoverageRole,
    from: Option<crate::protocols::ExternalSequenceBlockHash>,
    n: nat,
)
    ensures
        crate::logical_view::walked(edges, role, from, n).finite(),
        crate::logical_view::walked(edges, role, from, n).len() <= n,
    decreases n,
{
    if n > 0 {
        if let Some(h) = from {
            if let Some(e) = crate::logical_view::edge_into(edges, role, h) {
                lemma_walked_bounded(edges, role, e.parent, (n - 1) as nat);
            }
        }
    }
}

/// No more edges are covered than charged.
pub proof fn lemma_covered_bounded(
    profile: Profile,
    edges: Set<Edge>,
    bs: Seq<Binding>,
    n: nat,
)
    requires
        n <= bs.len(),
    ensures
        crate::logical_view::covered(profile, edges, bs, n).finite(),
        crate::logical_view::covered(profile, edges, bs, n).len()
            <= crate::logical_view::charged(profile, bs, n),
    decreases n,
{
    if n > 0 {
        let b = bs[n - 1];
        lemma_covered_bounded(profile, edges, bs, (n - 1) as nat);
        lemma_walked_bounded(edges, b.role, Some(b.child), b.edge_count(profile) as nat);
        vstd::set_lib::lemma_len_union(
            crate::logical_view::covered(profile, edges, bs, (n - 1) as nat),
            backing(profile, edges, b),
        );
    }
}

/// Every binding of a backed list ends its walk at its parent.
proof fn lemma_coverage_none(
    profile: Profile,
    limits: Limits,
    edges: Set<Edge>,
    bs: Seq<Binding>,
    n: nat,
)
    requires
        n <= bs.len(),
    ensures
        crate::logical_view::coverage_error(profile, limits, edges, bs, n) is None <==> {
            &&& crate::logical_view::charged(profile, bs, n) <= limits.edges
            &&& forall|i: int|
                0 <= i < n ==> crate::logical_view::walk_back(
                    edges,
                    (#[trigger] bs[i]).role,
                    Some(bs[i].child),
                    bs[i].edge_count(profile) as nat,
                ) == Some(bs[i].parent)
        },
    decreases n,
{
    if n > 0 {
        lemma_coverage_none(profile, limits, edges, bs, (n - 1) as nat);
        lemma_charged_grows(profile, bs, (n - 1) as nat, n);
        if crate::logical_view::coverage_error(profile, limits, edges, bs, n) is None {
            assert forall|i: int| 0 <= i < n implies crate::logical_view::walk_back(
                edges,
                (#[trigger] bs[i]).role,
                Some(bs[i].child),
                bs[i].edge_count(profile) as nat,
            ) == Some(bs[i].parent) by {}
        }
    }
}

/// What a list of plans with distinct identifiers makes of a table.
proof fn lemma_plans_by_id(ps: Seq<Plan>)
    requires
        forall|i: int, j: int|
            0 <= i < j < ps.len() ==> (#[trigger] ps[i]).id != (#[trigger] ps[j]).id,
    ensures
        crate::logical_view::plans_by_id(ps).dom().finite(),
        crate::logical_view::plans_by_id(ps).len() == ps.len(),
        forall|i: int|
            0 <= i < ps.len() ==> crate::logical_view::plans_by_id(ps).contains_key((#[trigger] ps[i]).id)
                && crate::logical_view::plans_by_id(ps)[ps[i].id] == ps[i],
        forall|id: u64| #[trigger]
            crate::logical_view::plans_by_id(ps).contains_key(id) ==> exists|i: int|
                0 <= i < ps.len() && (#[trigger] ps[i]).id == id,
        forall|b: u64| #[trigger] crate::publisher::plans_of(crate::logical_view::plans_by_id(ps),
            b).len() == crate::logical_view::plan_count_of(ps, b),
    decreases ps.len(),
{
    if ps.len() == 0 {
        assert(crate::logical_view::plans_by_id(ps).dom() =~= Set::empty());
        assert forall|b: u64| #[trigger]
            crate::publisher::plans_of(crate::logical_view::plans_by_id(ps), b).len()
                == crate::logical_view::plan_count_of(ps, b) by {
            assert(crate::publisher::plans_of(crate::logical_view::plans_by_id(ps), b) =~= Set::empty());
        }
    } else {
        let head = ps.drop_last();
        let last = ps.last();
        assert forall|i: int, j: int| 0 <= i < j < head.len() implies (#[trigger] head[i]).id != (
        #[trigger] head[j]).id by {
            assert(ps[i].id != ps[j].id);
        }
        lemma_plans_by_id(head);
        let p = crate::logical_view::plans_by_id(head);
        assert(!p.contains_key(last.id)) by {
            if p.contains_key(last.id) {
                let i = choose|i: int| 0 <= i < head.len() && (#[trigger] head[i]).id == last.id;
                assert(ps[i].id != ps[ps.len() - 1].id);
            }
        }
        assert forall|i: int| 0 <= i < ps.len() implies crate::logical_view::plans_by_id(ps).contains_key(
            (#[trigger] ps[i]).id,
        ) && crate::logical_view::plans_by_id(ps)[ps[i].id] == ps[i] by {
            if i < head.len() {
                assert(head[i] == ps[i]);
                assert(p.contains_key(head[i].id));
            }
        }
        assert forall|id: u64| #[trigger]
            crate::logical_view::plans_by_id(ps).contains_key(id) implies exists|i: int|
            0 <= i < ps.len() && (#[trigger] ps[i]).id == id by {
            if id == last.id {
                assert(ps[ps.len() - 1].id == id);
            } else {
                assert(p.contains_key(id));
                let i = choose|i: int| 0 <= i < head.len() && (#[trigger] head[i]).id == id;
                assert(ps[i].id == id);
            }
        }
        assert forall|b: u64| #[trigger]
            crate::publisher::plans_of(crate::logical_view::plans_by_id(ps), b).len()
                == crate::logical_view::plan_count_of(ps, b) by {
            assert(crate::publisher::plans_of(p, b).len() == crate::logical_view::plan_count_of(head, b));
            assert(crate::publisher::plans_of(p, b).finite());
            if last.binding == b {
                assert(crate::publisher::plans_of(crate::logical_view::plans_by_id(ps), b)
                    =~= crate::publisher::plans_of(p, b).insert(last.id));
            } else {
                assert(crate::publisher::plans_of(crate::logical_view::plans_by_id(ps), b)
                    =~= crate::publisher::plans_of(p, b));
            }
        }
    }
}

/// What it means that a list of plans fits a binding table.
proof fn lemma_plans_none(profile: Profile, m: Map<u64, Binding>, ps: Seq<Plan>)
    requires
        profile.is_supported(),
    ensures
        crate::logical_view::plans_error(profile, m, ps) is None <==> {
            &&& forall|i: int|
                0 <= i < ps.len() ==> m.contains_key((#[trigger] ps[i]).binding) && ps[i].is_valid(
                    m[ps[i].binding],
                    profile,
                )
            &&& forall|i: int, j: int|
                0 <= i < j < ps.len() ==> (#[trigger] ps[i]).id != (#[trigger] ps[j]).id
            &&& forall|b: u64| #[trigger]
                m.contains_key(b) ==> crate::logical_view::plan_count_of(ps, b) <= profile.plan_cap(m[b].role)
        },
    decreases ps.len(),
{
    assert(profile.block_size as int / profile.hash_unit as int >= 1) by (nonlinear_arith)
        requires
            profile.hash_unit > 0,
            profile.block_size > profile.hash_unit,
    ;
    if ps.len() > 0 {
        let head = ps.drop_last();
        let last = ps.last();
        lemma_plans_none(profile, m, head);
        if crate::logical_view::plans_error(profile, m, ps) is None {
            lemma_plans_by_id(head);
            assert forall|i: int, j: int| 0 <= i < j < ps.len() implies (#[trigger] ps[i]).id != (
            #[trigger] ps[j]).id by {
                assert(head[i] == ps[i]);
                if j < head.len() {
                    assert(head[j] == ps[j]);
                } else {
                    assert(crate::logical_view::plans_by_id(head).contains_key(head[i].id));
                }
            }
            assert forall|i: int| 0 <= i < ps.len() implies m.contains_key(
                (#[trigger] ps[i]).binding,
            ) && ps[i].is_valid(m[ps[i].binding], profile) by {
                if i < head.len() {
                    assert(head[i] == ps[i]);
                }
            }
            assert forall|b: u64| #[trigger] m.contains_key(b)
                implies crate::logical_view::plan_count_of(ps, b)
                <= profile.plan_cap(m[b].role) by {
                assert(crate::logical_view::plan_count_of(head, b) <= profile.plan_cap(m[b].role));
            }
        } else if (forall|i: int|
            0 <= i < ps.len() ==> m.contains_key((#[trigger] ps[i]).binding) && ps[i].is_valid(
                m[ps[i].binding],
                profile,
            )) && (forall|i: int, j: int|
            0 <= i < j < ps.len() ==> (#[trigger] ps[i]).id != (#[trigger] ps[j]).id) && (forall|
            b: u64,
        | #[trigger]
            m.contains_key(b) ==> crate::logical_view::plan_count_of(ps, b) <= profile.plan_cap(m[b].role)) {
            assert forall|i: int, j: int| 0 <= i < j < head.len() implies (#[trigger] head[i]).id
                != (#[trigger] head[j]).id by {
                assert(ps[i].id != ps[j].id);
            }
            assert forall|i: int| 0 <= i < head.len() implies m.contains_key(
                (#[trigger] head[i]).binding,
            ) && head[i].is_valid(m[head[i].binding], profile) by {
                assert(head[i] == ps[i]);
                assert(m.contains_key(ps[i].binding));
            }
            assert forall|b: u64| #[trigger] m.contains_key(b)
                implies crate::logical_view::plan_count_of(head, b)
                <= profile.plan_cap(m[b].role) by {
                assert(crate::logical_view::plan_count_of(head, b)
                    <= crate::logical_view::plan_count_of(ps, b));
            }
            lemma_plans_by_id(head);
            assert(ps[ps.len() - 1] == last);
            assert(m.contains_key(ps[ps.len() - 1].binding));
            if crate::logical_view::plans_by_id(head).contains_key(last.id) {
                let i = choose|i: int| 0 <= i < head.len() && (#[trigger] head[i]).id == last.id;
                assert(ps[i].id != ps[ps.len() - 1].id);
            }
            assert(false);
        }
    }
}

/// A valid binding is made of a whole, non-negative number of edges.
proof fn lemma_edge_count(profile: Profile, b: Binding)
    requires
        profile.is_supported(),
        b.is_valid(profile),
    ensures
        0 <= b.edge_count(profile),
{
    let unit = profile.unit_of(b.role) as int;
    assert(0 <= (b.end - b.start) / unit) by (nonlinear_arith)
        requires
            unit > 0,
            b.start < b.end,
    ;
}

/// Tables that were accepted fit.
pub proof fn lemma_accepted_tables_fit(
    profile: Profile,
    limits: Limits,
    edges: Set<Edge>,
    bs: Seq<Binding>,
    ps: Seq<Plan>,
)
    requires
        profile.is_supported(),
        crate::logical_view::tables_error(profile, limits, edges, bs, ps) is None,
    ensures
        tables_fit(profile, limits, edges, crate::logical_view::bindings_by_id(bs),
            crate::logical_view::plans_by_id(ps)),
        edges.finite(),
        edges.len() <= limits.edges,
{
    let m = crate::logical_view::bindings_by_id(bs);
    let p = crate::logical_view::plans_by_id(ps);
    assert forall|i: int| 0 <= i < bs.len() implies 0 <= (#[trigger] bs[i]).edge_count(profile) by {
        lemma_edge_count(profile, bs[i]);
    }
    lemma_by_id(profile, bs);
    lemma_coverage_none(profile, limits, edges, bs, bs.len());
    lemma_covered_bounded(profile, edges, bs, bs.len());
    lemma_plans_none(profile, m, ps);
    lemma_plans_by_id(ps);
    assert forall|id: u64| #[trigger] m.contains_key(id) implies {
        let b = m[id];
        &&& b.id == id
        &&& b.is_valid(profile)
        &&& crate::logical_view::walk_back(edges, b.role, Some(b.child),
            b.edge_count(profile) as nat) == Some(b.parent)
        &&& crate::publisher::plans_of(p, id).len() <= profile.plan_cap(b.role)
    } by {
        let i = choose|i: int| 0 <= i < bs.len() && (#[trigger] bs[i]).id == id;
        assert(m[bs[i].id] == bs[i]);
        assert(crate::publisher::plans_of(p, id).len() == crate::logical_view::plan_count_of(ps, id));
    }
    assert forall|e: Edge| #[trigger] edges.contains(e) <==> exists|id: u64|
        backs(profile, edges, m, id, e) by {
        lemma_covered(profile, edges, bs, bs.len(), e);
        if edges.contains(e) {
            assert(crate::logical_view::covered(profile, edges, bs, bs.len()).contains(e));
            let i = choose|i: int|
                0 <= i < bs.len() && #[trigger] backing(profile, edges, bs[i]).contains(e);
            assert(m.contains_key(bs[i].id));
            assert(backs(profile, edges, m, bs[i].id, e));
        }
        if exists|id: u64| backs(profile, edges, m, id, e) {
            let id = choose|id: u64| backs(profile, edges, m, id, e);
            let i = choose|i: int| 0 <= i < bs.len() && (#[trigger] bs[i]).id == id;
            assert(m[bs[i].id] == bs[i]);
            assert(backing(profile, edges, bs[i]).contains(e));
        }
    }
    assert forall|id: u64| #[trigger] p.contains_key(id) implies p[id].id == id && m.contains_key(
        p[id].binding,
    ) && p[id].is_valid(m[p[id].binding], profile) by {
        let i = choose|i: int| 0 <= i < ps.len() && (#[trigger] ps[i]).id == id;
        assert(p[ps[i].id] == ps[i]);
        assert(m.contains_key(ps[i].binding));
    }
}

/// Tables that fit are accepted in whatever order they are listed, and the
/// lists make the same tables again.
pub proof fn lemma_fitting_tables_accepted(
    profile: Profile,
    limits: Limits,
    edges: Set<Edge>,
    m: Map<u64, Binding>,
    p: Map<u64, Plan>,
    bs: Seq<Binding>,
    ps: Seq<Plan>,
)
    requires
        profile.is_supported(),
        tables_fit(profile, limits, edges, m, p),
        crate::publisher::lists(bs, bindings_in(m)),
        crate::publisher::lists(ps, crate::publisher::plan_set(p)),
    ensures
        crate::logical_view::tables_error(profile, limits, edges, bs, ps) is None,
        crate::logical_view::bindings_by_id(bs) == m,
        crate::logical_view::plans_by_id(ps) == p,
{
    assert forall|i: int| 0 <= i < bs.len() implies m.contains_key((#[trigger] bs[i]).id)
        && m[bs[i].id] == bs[i] by {
        assert(bs.to_set().contains(bs[i]));
    }
    assert forall|i: int, j: int| 0 <= i < j < bs.len() implies (#[trigger] bs[i]).id != (
    #[trigger] bs[j]).id by {
        if bs[i].id == bs[j].id {
            assert(m[bs[i].id] == m[bs[j].id]);
            assert(bs[i] == bs[j]);
        }
    }
    assert forall|i: int| 0 <= i < bs.len() implies 0 <= (#[trigger] bs[i]).edge_count(
        profile,
    ) && bs[i].is_valid(profile) by {
        assert(m.contains_key(bs[i].id));
        lemma_edge_count(profile, bs[i]);
    }
    lemma_by_id(profile, bs);
    assert(crate::logical_view::bindings_by_id(bs) =~= m) by {
        assert forall|id: u64| #[trigger]
            crate::logical_view::bindings_by_id(bs).contains_key(id) <==> m.contains_key(
            id,
        ) by {
            if crate::logical_view::bindings_by_id(bs).contains_key(id) {
                let i = choose|i: int| 0 <= i < bs.len() && (#[trigger] bs[i]).id == id;
                assert(m.contains_key(bs[i].id));
            }
            if m.contains_key(id) {
                assert(bindings_in(m).contains(m[id]));
                assert(bs.to_set().contains(m[id]));
                let i = choose|i: int| 0 <= i < bs.len() && bs[i] == m[id];
                assert(crate::logical_view::bindings_by_id(bs).contains_key(bs[i].id));
            }
        }
        assert forall|id: u64| #[trigger]
            crate::logical_view::bindings_by_id(bs).contains_key(id)
                implies crate::logical_view::bindings_by_id(bs)[id] == m[id] by {
            let i = choose|i: int| 0 <= i < bs.len() && (#[trigger] bs[i]).id == id;
            assert(m[bs[i].id] == bs[i]);
        }
    }
    assert forall|i: int| 0 <= i < ps.len() implies p.contains_key((#[trigger] ps[i]).id)
        && p[ps[i].id] == ps[i] by {
        assert(ps.to_set().contains(ps[i]));
    }
    assert forall|i: int, j: int| 0 <= i < j < ps.len() implies (#[trigger] ps[i]).id != (
    #[trigger] ps[j]).id by {
        if ps[i].id == ps[j].id {
            assert(p[ps[i].id] == p[ps[j].id]);
            assert(ps[i] == ps[j]);
        }
    }
    lemma_plans_by_id(ps);
    assert(crate::logical_view::plans_by_id(ps) =~= p) by {
        assert forall|id: u64| #[trigger]
            crate::logical_view::plans_by_id(ps).contains_key(id) <==> p.contains_key(
            id,
        ) by {
            if crate::logical_view::plans_by_id(ps).contains_key(id) {
                let i = choose|i: int| 0 <= i < ps.len() && (#[trigger] ps[i]).id == id;
                assert(p.contains_key(ps[i].id));
            }
            if p.contains_key(id) {
                assert(crate::publisher::plan_set(p).contains(p[id]));
                assert(ps.to_set().contains(p[id]));
                let i = choose|i: int| 0 <= i < ps.len() && ps[i] == p[id];
                assert(crate::logical_view::plans_by_id(ps).contains_key(ps[i].id));
            }
        }
        assert forall|id: u64| #[trigger]
            crate::logical_view::plans_by_id(ps).contains_key(id) implies crate::logical_view::plans_by_id(
            ps,
        )[id] == p[id] by {
            let i = choose|i: int| 0 <= i < ps.len() && (#[trigger] ps[i]).id == id;
            assert(p[ps[i].id] == ps[i]);
        }
    }
    lemma_coverage_none(profile, limits, edges, bs, bs.len());
    assert(crate::logical_view::coverage_error(profile, limits, edges, bs, bs.len()) is None) by {
        assert forall|i: int| 0 <= i < bs.len() implies crate::logical_view::walk_back(
            edges,
            (#[trigger] bs[i]).role,
            Some(bs[i].child),
            bs[i].edge_count(profile) as nat,
        ) == Some(bs[i].parent) by {
            assert(m.contains_key(bs[i].id));
        }
    }
    assert(crate::logical_view::covered(profile, edges, bs, bs.len()) =~= edges) by {
        assert forall|e: Edge| crate::logical_view::covered(profile, edges, bs, bs.len()).contains(e)
            <==> edges.contains(e) by {
            lemma_covered(profile, edges, bs, bs.len(), e);
            if crate::logical_view::covered(profile, edges, bs, bs.len()).contains(e) {
                let i = choose|i: int|
                    0 <= i < bs.len() && #[trigger] backing(profile, edges, bs[i]).contains(e);
                assert(m.contains_key(bs[i].id));
                assert(backs(profile, edges, m, bs[i].id, e));
            }
            if edges.contains(e) {
                let id = choose|id: u64| backs(profile, edges, m, id, e);
                let i = choose|i: int| 0 <= i < bs.len() && (#[trigger] bs[i]).id == id;
                assert(crate::logical_view::bindings_by_id(bs).contains_key(id));
                assert(m[bs[i].id] == bs[i]);
                assert(backing(profile, edges, bs[i]).contains(e));
            }
        }
    }
    lemma_plans_none(profile, m, ps);
    assert(crate::logical_view::plans_error(profile, m, ps) is None) by {
        assert forall|i: int| 0 <= i < ps.len() implies m.contains_key(
            (#[trigger] ps[i]).binding,
        ) && ps[i].is_valid(m[ps[i].binding], profile) by {
            assert(p.contains_key(ps[i].id));
        }
        assert forall|b: u64| #[trigger] m.contains_key(b) implies crate::logical_view::plan_count_of(ps, b)
            <= profile.plan_cap(m[b].role) by {
            assert(crate::publisher::plans_of(p, b).len() == crate::logical_view::plan_count_of(ps, b));
        }
    }
}

} // verus!
