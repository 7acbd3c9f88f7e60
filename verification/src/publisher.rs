//! The contribution-reference owner: it turns coverage and plan mutations into
//! materialized cuts.

use crate::edge_table::EdgeTable;
use crate::id_map::IdMap;
use crate::logical::{
    Binding, Confidence, Contribution, CoverageRole, Edge, Limits, MaterializedBatch, Mutation,
    Plan, Profile, Scope, ScopeView, Snapshot,
};
use crate::protocols::ExternalSequenceBlockHash;
use vstd::prelude::*;

verus! {

/// The hash that a chain of edges reaches from `parent`.
pub open spec fn chain_end(parent: Option<ExternalSequenceBlockHash>, edges: Seq<Edge>) -> Option<
    ExternalSequenceBlockHash,
> {
    if edges.len() == 0 {
        parent
    } else {
        Some(edges.last().child)
    }
}

/// The edges have one role, each hangs off the one before it (the first off
/// `parent`), and no child occurs twice.
pub open spec fn is_chain(
    role: CoverageRole,
    parent: Option<ExternalSequenceBlockHash>,
    edges: Seq<Edge>,
) -> bool {
    &&& forall|i: int|
        0 <= i < edges.len() ==> (#[trigger] edges[i]).role == role && edges[i].parent == chain_end(
            parent,
            edges.take(i),
        )
    &&& forall|i: int, j: int|
        0 <= i < j < edges.len() ==> (#[trigger] edges[i]).child != (#[trigger] edges[j]).child
}

/// A contribution spells out its binding: a valid span, and exactly the chain
/// of edges that leads from the binding's parent to its child.
pub open spec fn well_formed(contribution: Contribution, profile: Profile) -> bool {
    let b = contribution.binding;
    &&& b.is_valid(profile)
    &&& contribution.edges@.len() == b.edge_count(profile)
    &&& is_chain(b.role, b.parent, contribution.edges@)
    &&& chain_end(b.parent, contribution.edges@) == Some(b.child)
}

/// Whether the contribution stored under `id` holds `edge`.
pub open spec fn holds(c: Map<u64, Contribution>, id: u64, edge: Edge) -> bool {
    c.contains_key(id) && c[id].edges@.contains(edge)
}

/// The contributions that hold `edge`.
pub open spec fn holders(c: Map<u64, Contribution>, edge: Edge) -> Set<u64> {
    c.dom().filter(|id: u64| c[id].edges@.contains(edge))
}

/// The edges that at least one contribution holds.
pub open spec fn live_edges(c: Map<u64, Contribution>) -> Set<Edge> {
    Set::new(|e: Edge| exists|id: u64| holds(c, id, e))
}

/// How many edges each contribution is charged for, before any sharing.
pub open spec fn charges(c: Map<u64, Contribution>) -> Map<u64, nat> {
    c.map_values(|x: Contribution| x.edges@.len())
}

/// The plans that the binding `binding` backs.
pub open spec fn plans_of(p: Map<u64, Plan>, binding: u64) -> Set<u64> {
    p.dom().filter(|id: u64| p[id].binding == binding)
}

/// The tables of a publisher: coverage by binding, and plans.
pub struct Tables {
    pub contributions: Map<u64, Contribution>,
    pub plans: Map<u64, Plan>,
}

impl Tables {
    /// The tables that hold nothing.
    pub open spec fn none() -> Tables {
        Tables { contributions: Map::empty(), plans: Map::empty() }
    }
}

/// The same binding and the same edges.
pub open spec fn same_contribution(a: Contribution, b: Contribution) -> bool {
    a.binding == b.binding && a.edges@ == b.edges@
}

/// What one mutation makes of the tables, or why it is refused.
pub open spec fn mutated(
    profile: Profile,
    limits: Limits,
    t: Tables,
    mutation: Mutation,
) -> Result<Tables, Confidence> {
    match mutation {
        Mutation::Coverage(c) => {
            let id = c.binding.id;
            if t.contributions.contains_key(id) {
                if same_contribution(t.contributions[id], c) {
                    Ok(t)
                } else {
                    Err(Confidence::Invalid)
                }
            } else if !well_formed(c, profile) {
                Err(Confidence::Invalid)
            } else if t.contributions.len() >= limits.bindings
                || crate::sums::sum_of(charges(t.contributions))
                + c.edges@.len() > limits.edges {
                Err(Confidence::Overflow)
            } else {
                Ok(Tables { contributions: t.contributions.insert(id, c), ..t })
            }
        },
        Mutation::RemoveCoverage(id) => {
            if t.contributions.contains_key(id) {
                Ok(
                    Tables {
                        contributions: t.contributions.remove(id),
                        plans: t.plans.remove_keys(plans_of(t.plans, id)),
                    },
                )
            } else {
                Ok(t)
            }
        },
        Mutation::Plan(plan) => {
            if t.plans.contains_key(plan.id) {
                if t.plans[plan.id] == plan {
                    Ok(t)
                } else {
                    Err(Confidence::Invalid)
                }
            } else if !t.contributions.contains_key(plan.binding) || !plan.is_valid(
                t.contributions[plan.binding].binding,
                profile,
            ) {
                Err(Confidence::Invalid)
            } else if t.plans.len() >= limits.plans || plans_of(t.plans, plan.binding).len()
                >= profile.plan_cap(t.contributions[plan.binding].binding.role) {
                Err(Confidence::Overflow)
            } else {
                Ok(Tables { plans: t.plans.insert(plan.id, plan), ..t })
            }
        },
        Mutation::RemovePlan(id) => Ok(Tables { plans: t.plans.remove(id), ..t }),
        Mutation::ClearCpu => Ok(Tables::none()),
    }
}

/// What a list of mutations makes of the tables: each is applied to the result
/// of the one before it, and the first refusal ends the list.
pub open spec fn mutated_by(
    profile: Profile,
    limits: Limits,
    t: Tables,
    mutations: Seq<Mutation>,
) -> Result<Tables, Confidence>
    decreases mutations.len(),
{
    if mutations.len() == 0 {
        Ok(t)
    } else {
        match mutated_by(profile, limits, t, mutations.drop_last()) {
            Ok(t) => mutated(profile, limits, t, mutations.last()),
            Err(reason) => Err(reason),
        }
    }
}

/// The abstract state of a [`Publisher`].
pub struct PublisherState {
    pub profile: Profile,
    pub scope: ScopeView,
    pub limits: Limits,
    pub cursor: u64,
    pub confidence: Confidence,
    pub tables: Tables,
}

impl PublisherState {
    /// The state after the cut `cursor`: a stale cut changes nothing, a cut
    /// that skips one loses the tables, and a refused mutation loses them too.
    pub open spec fn applied(self, cursor: u64, mutations: Seq<Mutation>) -> PublisherState {
        if cursor <= self.cursor {
            self
        } else if self.cursor + 1 != cursor {
            PublisherState { cursor, confidence: Confidence::Gap, tables: Tables::none(), ..self }
        } else if self.confidence != Confidence::Known {
            PublisherState { cursor, ..self }
        } else {
            match mutated_by(self.profile, self.limits, self.tables, mutations) {
                Ok(tables) => PublisherState { cursor, tables, ..self },
                Err(reason) => PublisherState {
                    cursor,
                    confidence: reason,
                    tables: Tables::none(),
                    ..self
                },
            }
        }
    }
}

/// The bindings of the contributions.
pub open spec fn binding_set(c: Map<u64, Contribution>) -> Set<Binding> {
    Set::new(|b: Binding| c.contains_key(b.id) && c[b.id].binding == b)
}

/// The plans of a plan table.
pub open spec fn plan_set(p: Map<u64, Plan>) -> Set<Plan> {
    Set::new(|x: Plan| p.contains_key(x.id) && p[x.id] == x)
}

/// `list` spells out `set`: every member once, in no promised order.
pub open spec fn lists<T>(list: Seq<T>, set: Set<T>) -> bool {
    list.no_duplicates() && list.to_set() == set
}

/// What an edge is counted as while `extra` is being added to, or taken from,
/// the contributions `c`.
spec fn expected_count(c: Map<u64, Contribution>, extra: Seq<Edge>, e: Edge) -> nat {
    holders(c, e).len() + if extra.contains(e) {
        1nat
    } else {
        0nat
    }
}

/// The reference counts are those of the contributions and the `extra` edges.
spec fn counts_match(refs: Map<Edge, usize>, c: Map<u64, Contribution>, extra: Seq<Edge>) -> bool {
    forall|e: Edge|
        #![trigger refs.contains_key(e)]
        #![trigger refs[e]]
        {
            &&& refs.contains_key(e) <==> expected_count(c, extra, e) > 0
            &&& refs.contains_key(e) ==> refs[e] == expected_count(c, extra, e)
        }
}

/// The plan lists are the plans, grouped by binding.
spec fn groups_match(groups: Map<u64, Vec<u64>>, p: Map<u64, Plan>) -> bool {
    &&& forall|b: u64| #[trigger]
        groups.contains_key(b) ==> groups[b]@.no_duplicates() && groups[b]@.to_set() == plans_of(
            p,
            b,
        ) && groups[b]@.len() > 0
    &&& forall|id: u64| #[trigger] p.contains_key(id) ==> groups.contains_key(p[id].binding)
}

/// What holds of the tables of a publisher between cuts.
pub open spec fn tables_ok(profile: Profile, limits: Limits, t: Tables) -> bool {
    &&& t.contributions.dom().finite()
    &&& t.plans.dom().finite()
    &&& t.contributions.len() <= limits.bindings
    &&& crate::sums::sum_of(charges(t.contributions)) <= limits.edges
    &&& t.plans.len() <= limits.plans
    &&& forall|id: u64| #[trigger]
        t.contributions.contains_key(id) ==> t.contributions[id].binding.id == id && well_formed(
            t.contributions[id],
            profile,
        )
    &&& forall|id: u64| #[trigger]
        t.plans.contains_key(id) ==> {
            let p = t.plans[id];
            &&& p.id == id
            &&& t.contributions.contains_key(p.binding)
            &&& p.is_valid(t.contributions[p.binding].binding, profile)
        }
    &&& forall|b: u64| #[trigger]
        t.contributions.contains_key(b) ==> plans_of(t.plans, b).len() <= profile.plan_cap(
            t.contributions[b].binding.role,
        )
}

/// Every live edge is charged to some contribution, so there are no more live
/// edges than charges.
pub proof fn lemma_live_bounded(c: Map<u64, Contribution>)
    requires
        c.dom().finite(),
    ensures
        live_edges(c).finite(),
        live_edges(c).len() <= crate::sums::sum_of(charges(c)),
    decreases c.dom().len(),
{
    assert(charges(c).dom() =~= c.dom());
    if c.dom().len() == 0 {
        assert(c.dom() =~= Set::empty());
        assert(live_edges(c) =~= Set::empty()) by {
            assert forall|e: Edge| !live_edges(c).contains(e) by {
                assert forall|id: u64| !holds(c, id, e) by {
                    assert(!c.dom().contains(id));
                }
            }
        }
    } else {
        let k = c.dom().choose();
        let rest = c.remove(k);
        assert(rest.dom() =~= c.dom().remove(k));
        lemma_live_bounded(rest);
        let mine = c[k].edges@;
        assert(live_edges(c) =~= live_edges(rest).union(mine.to_set())) by {
            assert forall|e: Edge| live_edges(c).contains(e) <==> live_edges(rest).union(
                mine.to_set(),
            ).contains(e) by {
                if live_edges(c).contains(e) {
                    let id = choose|id: u64| holds(c, id, e);
                    if id != k {
                        assert(holds(rest, id, e));
                    }
                }
                if live_edges(rest).contains(e) {
                    let id = choose|id: u64| holds(rest, id, e);
                    assert(holds(c, id, e));
                }
                if mine.contains(e) {
                    assert(holds(c, k, e));
                }
            }
        }
        vstd::seq_lib::seq_to_set_is_finite(mine);
        mine.lemma_cardinality_of_set();
        vstd::set_lib::lemma_len_union(live_edges(rest), mine.to_set());
        crate::sums::lemma_sum_split(charges(c), k);
        assert(charges(c).remove(k) =~= charges(rest));
    }
}

/// Edges are counted exactly while a contribution holds them.
proof fn lemma_counted_is_live(refs: Map<Edge, usize>, c: Map<u64, Contribution>)
    requires
        c.dom().finite(),
        counts_match(refs, c, Seq::empty()),
    ensures
        refs.dom() == live_edges(c),
{
    assert forall|e: Edge| refs.dom().contains(e) <==> live_edges(c).contains(e) by {
        let empty = Seq::<Edge>::empty();
        assert(!empty.contains(e));
        assert(refs.contains_key(e) <==> holders(c, e).len() > 0);
        assert(holders(c, e).finite());
        if holders(c, e).len() > 0 {
            let id = holders(c, e).choose();
            assert(holders(c, e).contains(id));
            assert(holds(c, id, e));
        }
        if live_edges(c).contains(e) {
            let id = choose|id: u64| holds(c, id, e);
            assert(holders(c, e).contains(id));
        }
    }
    assert(refs.dom() =~= live_edges(c));
}

/// A new contribution adds itself to the holders of each of its edges.
proof fn lemma_holders_insert(c: Map<u64, Contribution>, id: u64, x: Contribution, e: Edge)
    requires
        c.dom().finite(),
        !c.contains_key(id),
    ensures
        holders(c.insert(id, x), e).len() == expected_count(c, x.edges@, e),
{
    let after = c.insert(id, x);
    if x.edges@.contains(e) {
        assert(holders(after, e) =~= holders(c, e).insert(id));
    } else {
        assert(holders(after, e) =~= holders(c, e));
    }
}

/// The single contribution-reference owner. This runs before publication, never
/// in a receiving index. IDs are interned by the transport boundary; recurrent
/// hash-only events have no representation in this typed input.
pub struct Publisher {
    profile: Profile,
    scope: Scope,
    limits: Limits,
    cursor: u64,
    confidence: Confidence,
    contributions: IdMap<Contribution>,
    contribution_edges: usize,
    references: EdgeTable,
    plans: IdMap<Plan>,
    by_binding: IdMap<Vec<u64>>,
}

impl View for Publisher {
    type V = PublisherState;

    closed spec fn view(&self) -> PublisherState {
        PublisherState {
            profile: self.profile,
            scope: self.scope@,
            limits: self.limits,
            cursor: self.cursor,
            confidence: self.confidence,
            tables: Tables { contributions: self.contributions@, plans: self.plans@ },
        }
    }
}

impl Publisher {
    /// The counts agree with the contributions, the groups with the plans, and
    /// only a supported publisher in good standing holds anything.
    pub closed spec fn wf(&self) -> bool {
        &&& tables_ok(self.profile, self.limits, self@.tables)
        &&& self.references.wf()
        &&& self.references.keyed_by_child()
        &&& counts_match(self.references@, self.contributions@, Seq::empty())
        &&& self.contribution_edges == crate::sums::sum_of(charges(self.contributions@))
        &&& groups_match(self.by_binding@, self.plans@)
        &&& self.confidence == Confidence::Known ==> self.profile.is_supported()
        &&& self.confidence != Confidence::Known ==> self@.tables == Tables::none()
    }

    /// A publisher keeps every ceiling and only well-formed rows, and is in good
    /// standing only with a supported profile.
    pub proof fn lemma_tables_ok(&self)
        requires
            self.wf(),
        ensures
            tables_ok(self@.profile, self@.limits, self@.tables),
            self@.confidence == Confidence::Known ==> self@.profile.is_supported(),
            self@.confidence != Confidence::Known ==> self@.tables == Tables::none(),
    {
    }

    pub fn new(profile: Profile, scope: Scope, limits: Limits) -> (s: Self)
        ensures
            s.wf(),
            s@ == (PublisherState {
                profile,
                scope: scope@,
                limits,
                cursor: 0,
                confidence: if profile.is_supported() {
                    Confidence::Known
                } else {
                    Confidence::UnsupportedProfile
                },
                tables: Tables::none(),
            }),
    {
        let s = Publisher {
            profile,
            scope,
            limits,
            cursor: 0,
            confidence: if profile.supported() {
                Confidence::Known
            } else {
                Confidence::UnsupportedProfile
            },
            contributions: IdMap::new(),
            contribution_edges: 0,
            references: EdgeTable::new(true),
            plans: IdMap::new(),
            by_binding: IdMap::new(),
        };
        proof {
            lemma_empty_tables(profile, limits);
        }
        s
    }

    fn clear(&mut self)
        requires
            old(self).wf(),
        ensures
            final(self).wf(),
            final(self)@ == (PublisherState { tables: Tables::none(), ..old(self)@ }),
    {
        self.contributions.clear();
        self.contribution_edges = 0;
        self.references = EdgeTable::new(true);
        self.plans.clear();
        self.by_binding.clear();
        proof {
            lemma_empty_tables(self.profile, self.limits);
        }
    }

    fn fail(&mut self, reason: Confidence)
        requires
            old(self).wf(),
            reason != Confidence::Known,
        ensures
            final(self).wf(),
            final(self)@ == (PublisherState {
                confidence: reason,
                tables: Tables::none(),
                ..old(self)@
            }),
    {
        self.clear();
        self.confidence = reason;
    }
}

/// Nothing satisfies every bound, is counted nowhere and grouped nowhere.
proof fn lemma_empty_tables(profile: Profile, limits: Limits)
    ensures
        tables_ok(profile, limits, Tables::none()),
        counts_match(Map::empty(), Map::empty(), Seq::empty()),
        crate::sums::sum_of(charges(Map::empty())) == 0,
        groups_match(Map::empty(), Map::empty()),
{
    crate::sums::lemma_sum_empty::<u64>();
    assert(charges(Map::empty()) =~= Map::<u64, nat>::empty());
    assert forall|e: Edge| expected_count(Map::empty(), Seq::empty(), e) == 0 by {
        assert(holders(Map::empty(), e) =~= Set::empty());
    }
}

/// Whether two lists of edges are equal.
pub fn same_edges(a: &Vec<Edge>, b: &Vec<Edge>) -> (same: bool)
    ensures
        same == (a@ == b@),
{
    if a.len() != b.len() {
        return false;
    }
    let mut i: usize = 0;
    while i < a.len()
        invariant
            i <= a.len(),
            a.len() == b.len(),
            forall|j: int| 0 <= j < i ==> a@[j] == b@[j],
        decreases a.len() - i,
    {
        if a[i] != b[i] {
            return false;
        }
        i = i + 1;
    }
    assert(a@ =~= b@);
    true
}

/// Decides [`well_formed`].
fn check_contribution(contribution: &Contribution, profile: Profile) -> (ok: bool)
    requires
        profile.is_supported(),
    ensures
        ok == well_formed(*contribution, profile),
{
    let binding = &contribution.binding;
    if !binding.valid(profile) {
        return false;
    }
    let unit = profile.unit(binding.role);
    if contribution.edges.len() != ((binding.end - binding.start) / unit) as usize {
        return false;
    }
    let edges = &contribution.edges;
    let mut parent = binding.parent;
    let mut seen: IdMap<bool> = IdMap::new();
    let mut i: usize = 0;
    while i < edges.len()
        invariant
            i <= edges.len(),
            edges@ == contribution.edges@,
            *binding == contribution.binding,
            parent == chain_end(binding.parent, edges@.take(i as int)),
            is_chain(binding.role, binding.parent, edges@.take(i as int)),
            forall|h: u64| #[trigger]
                seen@.contains_key(h) <==> exists|j: int|
                    0 <= j < i && (#[trigger] edges@[j]).child.0 == h,
        decreases edges.len() - i,
    {
        let edge = edges[i];
        let ghost upto = edges@.take(i as int);
        let ghost next = edges@.take(i + 1);
        proof {
            assert forall|j: int| 0 <= j <= i implies #[trigger] edges@.take(j) =~= next.take(
                j,
            ) by {}
            assert forall|j: int| 0 <= j < i implies #[trigger] upto.take(j) =~= next.take(j) by {}
            assert(next.take(i as int) =~= upto);
            assert(next[i as int] == edge);
            assert forall|j: int| 0 <= j < edges@.len() implies #[trigger] edges@[j]
                == contribution.edges@[j] by {}
        }
        if edge.role != binding.role || edge.parent != parent {
            proof {
                assert(edges@[i as int].parent == edge.parent);
            }
            return false;
        }
        if seen.contains(edge.child.0) {
            proof {
                let j = choose|j: int| 0 <= j < i && (#[trigger] edges@[j]).child.0 == edge.child.0;
                assert(edges@[j].child == edges@[i as int].child);
            }
            return false;
        }
        seen.insert(edge.child.0, true);
        parent = Some(edge.child);
        proof {
            assert(next.last() == edge);
            assert forall|j: int| 0 <= j < next.len() implies (#[trigger] next[j]).role
                == binding.role && next[j].parent == chain_end(binding.parent, next.take(j)) by {
                if j < i {
                    assert(next[j] == upto[j]);
                    assert(upto.take(j) =~= next.take(j));
                }
            }
            assert forall|j: int, k: int| 0 <= j < k < next.len() implies (#[trigger] next[j]).child
                != (#[trigger] next[k]).child by {
                if k < i {
                    assert(next[j] == upto[j] && next[k] == upto[k]);
                } else {
                    assert(next[j] == edges@[j]);
                    assert(edges@[j].child.0 != edge.child.0);
                }
            }
            assert forall|h: u64| #[trigger] seen@.contains_key(h) <==> exists|j: int|
                0 <= j < i + 1 && (#[trigger] edges@[j]).child.0 == h by {
                if h == edge.child.0 {
                    assert(edges@[i as int].child.0 == h);
                }
            }
        }
        i = i + 1;
    }
    proof {
        assert(edges@.take(i as int) =~= edges@);
    }
    parent == Some(binding.child)
}

impl Publisher {
    /// Charges a new contribution and counts its edges.
    fn add_coverage(&mut self, contribution: Contribution) -> (outcome: Result<(), Confidence>)
        requires
            old(self).wf(),
            old(self)@.confidence == Confidence::Known,
        ensures
            final(self).wf(),
            outcome_of(
                old(self)@,
                final(self)@,
                mutated(
                    old(self)@.profile,
                    old(self)@.limits,
                    old(self)@.tables,
                    Mutation::Coverage(contribution),
                ),
                outcome,
            ),
    {
        let id = contribution.binding.id;
        if let Some(old) = self.contributions.get(id) {
            return if old.binding == contribution.binding && same_edges(
                &old.edges,
                &contribution.edges,
            ) {
                Ok(())
            } else {
                Err(Confidence::Invalid)
            };
        }
        if !check_contribution(&contribution, self.profile) {
            return Err(Confidence::Invalid);
        }
        // Charge contributions before coalescing: sharing cannot evade the memory ceiling.

        if self.contributions.len() >= self.limits.bindings {
            return Err(Confidence::Overflow);
        }
        let charged: usize = match self.contribution_edges.checked_add(contribution.edges.len()) {
            Some(charged) => charged,
            None => {
                return Err(Confidence::Overflow);
            },
        };
        if charged > self.limits.edges {
            return Err(Confidence::Overflow);
        }
        let ghost before = self.contributions@;
        let ghost added = contribution.edges@;
        proof {
            lemma_live_bounded(before);
            lemma_counted_is_live(self.references@, before);
            assert(added.take(0) =~= Seq::empty());
        }
        let mut i: usize = 0;
        while i < contribution.edges.len()
            invariant
                i <= contribution.edges.len(),
                contribution.edges@ == added,
                added.no_duplicates(),
                before.dom().finite(),
                before.len() < usize::MAX,
                self.references.wf(),
                self.references.keyed_by_child(),
                self.references@.len() <= crate::sums::sum_of(charges(before)) + i,
                crate::sums::sum_of(charges(before)) + added.len() <= usize::MAX,
                counts_match(self.references@, before, added.take(i as int)),
                *self == (Publisher { references: self.references, ..*old(self) }),
            decreases contribution.edges.len() - i,
        {
            let edge = contribution.edges[i];
            let ghost upto = added.take(i as int);
            let ghost next = added.take(i + 1);
            let ghost counted = self.references@;
            proof {
                assert(next =~= upto.push(edge));
                assert(!upto.contains(edge)) by {
                    if upto.contains(edge) {
                        let j = choose|j: int| 0 <= j < upto.len() && upto[j] == edge;
                        assert(added[j] == added[i as int]);
                    }
                }
                vstd::set_lib::lemma_len_subset(holders(before, edge), before.dom());
                self.references.lemma_finite();
            }
            let count: usize = match self.references.get(&edge) {
                Some(count) => count,
                None => 0,
            };
            proof {
                assert(count == holders(before, edge).len());
            }
            self.references.set(edge, count + 1);
            proof {
                assert(next.contains(edge)) by {
                    assert(next[i as int] == edge);
                }
                assert forall|e: Edge|
                    #![trigger self.references@.contains_key(e)]
                    #![trigger self.references@[e]]
                    {
                        &&& self.references@.contains_key(e) <==> expected_count(before, next, e)
                            > 0
                        &&& self.references@.contains_key(e) ==> self.references@[e]
                            == expected_count(before, next, e)
                    } by {
                    assert(counted.contains_key(e) <==> expected_count(before, upto, e) > 0);
                    if e != edge {
                        if next.contains(e) {
                            let j = choose|j: int| 0 <= j < next.len() && next[j] == e;
                            assert(upto[j] == e);
                        }
                        if upto.contains(e) {
                            let j = choose|j: int| 0 <= j < upto.len() && upto[j] == e;
                            assert(next[j] == e);
                        }
                    }
                }
            }
            i = i + 1;
        }
        proof {
            assert(added.take(i as int) =~= added);
        }
        self.contribution_edges = charged;
        self.contributions.insert(id, contribution);
        proof {
            let after = self.contributions@;
            assert(charges(before).dom() =~= before.dom());
            crate::sums::lemma_sum_insert(charges(before), id, added.len());
            assert(charges(after) =~= charges(before).insert(id, added.len()));
            assert forall|e: Edge|
                #![trigger self.references@.contains_key(e)]
                #![trigger self.references@[e]]
                {
                    &&& self.references@.contains_key(e) <==> expected_count(
                        after,
                        Seq::empty(),
                        e,
                    ) > 0
                    &&& self.references@.contains_key(e) ==> self.references@[e] == expected_count(
                        after,
                        Seq::empty(),
                        e,
                    )
                } by {
                lemma_holders_insert(before, id, contribution, e);
            }
            let p = self.plans@;
            assert(plans_of(p, id) =~= Set::empty());
        }
        Ok(())
    }

    /// Drops a contribution, the last references to its edges, and its plans.
    fn remove_coverage(&mut self, id: u64)
        requires
            old(self).wf(),
            old(self)@.confidence == Confidence::Known,
        ensures
            final(self).wf(),
            outcome_of(
                old(self)@,
                final(self)@,
                mutated(
                    old(self)@.profile,
                    old(self)@.limits,
                    old(self)@.tables,
                    Mutation::RemoveCoverage(id),
                ),
                Ok(()),
            ),
    {
        let ghost before = self.contributions@;
        let ghost planned = self.plans@;
        let ghost grouped = self.by_binding@;
        let contribution = match self.contributions.remove(id) {
            Some(contribution) => contribution,
            None => {
                proof {
                    assert(before.remove(id) =~= before);
                }
                return ;
            },
        };
        let ghost kept = before.remove(id);
        let ghost dropped = contribution.edges@;
        proof {
            assert(charges(before).dom() =~= before.dom());
            crate::sums::lemma_sum_split(charges(before), id);
            assert(charges(before).remove(id) =~= charges(kept));
            assert(dropped.skip(0) =~= dropped);
            assert(kept.insert(id, contribution) =~= before);
            assert forall|e: Edge|
                #![trigger self.references@.contains_key(e)]
                #![trigger self.references@[e]]
                {
                    &&& self.references@.contains_key(e) <==> expected_count(kept, dropped, e) > 0
                    &&& self.references@.contains_key(e) ==> self.references@[e] == expected_count(
                        kept,
                        dropped,
                        e,
                    )
                } by {
                lemma_holders_insert(kept, id, contribution, e);
                assert(!Seq::<Edge>::empty().contains(e));
            }
        }
        self.contribution_edges = self.contribution_edges - contribution.edges.len();
        let mut i: usize = 0;
        while i < contribution.edges.len()
            invariant
                i <= contribution.edges.len(),
                contribution.edges@ == dropped,
                dropped.no_duplicates(),
                self.references.wf(),
                self.references.keyed_by_child(),
                counts_match(self.references@, kept, dropped.skip(i as int)),
                *self == (Publisher {
                    references: self.references,
                    contributions: self.contributions,
                    contribution_edges: self.contribution_edges,
                    ..*old(self)
                }),
                self.contributions@ == kept,
                self.contribution_edges == crate::sums::sum_of(charges(kept)),
            decreases contribution.edges.len() - i,
        {
            let edge = contribution.edges[i];
            let ghost rest = dropped.skip(i as int);
            let ghost next = dropped.skip(i + 1);
            let ghost counted = self.references@;
            proof {
                assert(rest[0] == edge);
                assert(rest.contains(edge));
                assert(!next.contains(edge)) by {
                    if next.contains(edge) {
                        let j = choose|j: int| 0 <= j < next.len() && next[j] == edge;
                        assert(dropped[i + 1 + j] == dropped[i as int]);
                    }
                }
            }
            if let Some(count) = self.references.get(&edge) {
                if count == 1 {
                    self.references.remove(&edge);
                } else {
                    self.references.set(edge, count - 1);
                }
            }
            proof {
                assert forall|e: Edge|
                    #![trigger self.references@.contains_key(e)]
                    #![trigger self.references@[e]]
                    {
                        &&& self.references@.contains_key(e) <==> expected_count(kept, next, e) > 0
                        &&& self.references@.contains_key(e) ==> self.references@[e]
                            == expected_count(kept, next, e)
                    } by {
                    assert(counted.contains_key(e) <==> expected_count(kept, rest, e) > 0);
                    if e != edge {
                        if rest.contains(e) {
                            let j = choose|j: int| 0 <= j < rest.len() && rest[j] == e;
                            assert(next[j - 1] == e);
                        }
                        if next.contains(e) {
                            let j = choose|j: int| 0 <= j < next.len() && next[j] == e;
                            assert(rest[j + 1] == e);
                        }
                    }
                }
            }
            i = i + 1;
        }
        proof {
            assert(dropped.skip(i as int) =~= Seq::empty());
        }
        let ghost mine = plans_of(planned, id);
        match self.by_binding.remove(id) {
            Some(ids) => {
                proof {
                    assert(ids@.to_set() == mine);
                }
                let mut k: usize = 0;
                while k < ids.len()
                    invariant
                        k <= ids.len(),
                        ids@.to_set() == mine,
                        self.plans@ == planned.remove_keys(ids@.take(k as int).to_set()),
                        *self == (Publisher { plans: self.plans, ..*self }),
                        self.contributions@ == kept,
                        self.contribution_edges == crate::sums::sum_of(charges(kept)),
                        self.references.wf(),
                        self.references.keyed_by_child(),
                        counts_match(self.references@, kept, Seq::empty()),
                        self.by_binding@ == grouped.remove(id),
                        self.profile == old(self).profile,
                        self.limits == old(self).limits,
                        self.scope == old(self).scope,
                        self.cursor == old(self).cursor,
                        self.confidence == old(self).confidence,
                    decreases ids.len() - k,
                {
                    self.plans.remove(ids[k]);
                    proof {
                        let a = ids@.take(k as int);
                        let b = ids@.take(k + 1);
                        assert(b =~= a.push(ids@[k as int]));
                        assert forall|x: u64| b.to_set().contains(x) <==> a.to_set().contains(x)
                            || x == ids@[k as int] by {
                            if b.contains(x) {
                                let j = choose|j: int| 0 <= j < b.len() && b[j] == x;
                                if j < a.len() {
                                    assert(a[j] == x);
                                }
                            }
                            if a.contains(x) {
                                let j = choose|j: int| 0 <= j < a.len() && a[j] == x;
                                assert(b[j] == x);
                            }
                            assert(b[k as int] == ids@[k as int]);
                        }
                        assert(self.plans@ =~= planned.remove_keys(b.to_set()));
                    }
                    k = k + 1;
                }
                proof {
                    assert(ids@.take(k as int) =~= ids@);
                }
            },
            None => {
                proof {
                    assert(grouped.remove(id) =~= grouped);
                    assert(mine =~= Set::empty()) by {
                        assert forall|x: u64| !mine.contains(x) by {
                            if mine.contains(x) {
                                assert(planned.contains_key(x));
                            }
                        }
                    }
                    assert(planned.remove_keys(mine) =~= planned);
                }
            },
        }
        proof {
            let left = self.plans@;
            assert(left == planned.remove_keys(mine));
            assert(left.dom() =~= planned.dom().difference(mine));
            vstd::set_lib::lemma_len_subset(left.dom(), planned.dom());
            assert(kept.dom() =~= before.dom().remove(id));
            assert forall|b: u64| b != id implies #[trigger] plans_of(left, b) == plans_of(
                planned,
                b,
            ) by {
                assert(plans_of(left, b) =~= plans_of(planned, b));
            }
            assert forall|x: u64| #[trigger] left.contains_key(x) implies left[x].binding != id by {
                if planned[x].binding == id {
                    assert(mine.contains(x));
                }
            }
            assert(groups_match(self.by_binding@, left));
            assert(tables_ok(self.profile, self.limits, self@.tables));
        }
    }

    /// Adds a plan that a present binding backs.
    fn add_plan(&mut self, plan: Plan) -> (outcome: Result<(), Confidence>)
        requires
            old(self).wf(),
            old(self)@.confidence == Confidence::Known,
        ensures
            final(self).wf(),
            outcome_of(
                old(self)@,
                final(self)@,
                mutated(
                    old(self)@.profile,
                    old(self)@.limits,
                    old(self)@.tables,
                    Mutation::Plan(plan),
                ),
                outcome,
            ),
    {
        if let Some(old) = self.plans.get(plan.id) {
            return if *old == plan {
                Ok(())
            } else {
                Err(Confidence::Invalid)
            };
        }
        let role = match self.contributions.get(plan.binding) {
            Some(contribution) => {
                if !plan.valid(&contribution.binding, self.profile) {
                    return Err(Confidence::Invalid);
                }
                contribution.binding.role
            },
            None => {
                return Err(Confidence::Invalid);
            },
        };
        let cap = self.profile.cap(role);
        let ghost planned = self.plans@;
        let ghost grouped = self.by_binding@;
        let ghost mine = plans_of(planned, plan.binding);
        let grouped_count: usize = match self.by_binding.get(plan.binding) {
            Some(ids) => {
                proof {
                    ids@.unique_seq_to_set();
                }
                ids.len()
            },
            None => {
                proof {
                    assert(mine =~= Set::empty()) by {
                        assert forall|x: u64| !mine.contains(x) by {
                            if mine.contains(x) {
                                assert(planned.contains_key(x));
                            }
                        }
                    }
                }
                0
            },
        };
        if self.plans.len() >= self.limits.plans || grouped_count >= cap {
            return Err(Confidence::Overflow);
        }
        let mut ids: Vec<u64> = match self.by_binding.remove(plan.binding) {
            Some(ids) => ids,
            None => Vec::new(),
        };
        let ghost listed = ids@;
        proof {
            assert(listed.no_duplicates() && listed.to_set() =~= mine);
            assert(!listed.contains(plan.id)) by {
                if listed.contains(plan.id) {
                    assert(listed.to_set().contains(plan.id));
                }
            }
        }
        ids.push(plan.id);
        self.by_binding.insert(plan.binding, ids);
        self.plans.insert(plan.id, plan);
        proof {
            let after = self.plans@;
            let now = listed.push(plan.id);
            assert(plans_of(after, plan.binding) =~= mine.insert(plan.id));
            assert(now.no_duplicates());
            assert(now.to_set() =~= mine.insert(plan.id)) by {
                assert forall|x: u64| now.to_set().contains(x) <==> mine.insert(plan.id).contains(
                    x,
                ) by {
                    if now.contains(x) {
                        let j = choose|j: int| 0 <= j < now.len() && now[j] == x;
                        if j < listed.len() {
                            assert(listed[j] == x);
                            assert(listed.to_set().contains(x));
                        }
                    }
                    if mine.contains(x) {
                        assert(listed.to_set().contains(x));
                        let j = choose|j: int| 0 <= j < listed.len() && listed[j] == x;
                        assert(now[j] == x);
                    }
                    assert(now[listed.len() as int] == plan.id);
                }
            }
            assert forall|b: u64| b != plan.binding implies #[trigger] plans_of(after, b)
                == plans_of(planned, b) by {
                assert(plans_of(after, b) =~= plans_of(planned, b));
            }
            assert(groups_match(self.by_binding@, after));
            assert(tables_ok(self.profile, self.limits, self@.tables));
        }
        Ok(())
    }

    fn remove_plan(&mut self, id: u64)
        requires
            old(self).wf(),
            old(self)@.confidence == Confidence::Known,
        ensures
            final(self).wf(),
            outcome_of(
                old(self)@,
                final(self)@,
                mutated(
                    old(self)@.profile,
                    old(self)@.limits,
                    old(self)@.tables,
                    Mutation::RemovePlan(id),
                ),
                Ok(()),
            ),
    {
        let ghost planned = self.plans@;
        let ghost grouped = self.by_binding@;
        let plan = match self.plans.remove(id) {
            Some(plan) => plan,
            None => {
                proof {
                    assert(planned.remove(id) =~= planned);
                }
                return ;
            },
        };
        let ghost left = self.plans@;
        let ghost mine = plans_of(planned, plan.binding);
        proof {
            assert(plans_of(left, plan.binding) =~= mine.remove(id));
            assert forall|b: u64| b != plan.binding implies #[trigger] plans_of(left, b)
                == plans_of(planned, b) by {
                assert(plans_of(left, b) =~= plans_of(planned, b));
            }
            assert(left.dom() =~= planned.dom().remove(id));
            vstd::set_lib::lemma_len_subset(mine.remove(id), mine);
        }
        if let Some(mut ids) = self.by_binding.remove(plan.binding) {
            let ghost listed = ids@;
            proof {
                assert(listed.to_set() == mine);
                assert(mine.contains(id));
                assert(listed.contains(id));
            }
            let mut k: usize = 0;
            while k < ids.len() && ids[k] != id
                invariant
                    k <= ids.len(),
                    ids@ == listed,
                    forall|j: int| 0 <= j < k ==> listed[j] != id,
                decreases ids.len() - k,
            {
                k = k + 1;
            }
            proof {
                let j = choose|j: int| 0 <= j < listed.len() && listed[j] == id;
                assert(k <= j);
            }
            ids.swap_remove(k);
            let ghost now = ids@;
            proof {
                assert(now.no_duplicates());
                assert(now.to_set() =~= mine.remove(id)) by {
                    assert forall|x: u64| now.to_set().contains(x) <==> mine.remove(id).contains(
                        x,
                    ) by {
                        if now.contains(x) {
                            let j = choose|j: int| 0 <= j < now.len() && now[j] == x;
                            let m = if j == k {
                                listed.len() - 1
                            } else {
                                j
                            };
                            assert(listed[m] == x);
                            assert(listed.to_set().contains(x));
                        }
                        if mine.contains(x) && x != id {
                            assert(listed.to_set().contains(x));
                            let m = choose|m: int| 0 <= m < listed.len() && listed[m] == x;
                            let j = if m == listed.len() - 1 {
                                k as int
                            } else {
                                m
                            };
                            assert(now[j] == x);
                        }
                    }
                }
            }
            if ids.len() > 0 {
                self.by_binding.insert(plan.binding, ids);
            } else {
                proof {
                    assert forall|x: u64| #[trigger] left.contains_key(x) implies left[x].binding
                        != plan.binding by {
                        if left[x].binding == plan.binding {
                            assert(mine.remove(id).contains(x));
                            assert(now.to_set().contains(x));
                        }
                    }
                }
            }
        }
        proof {
            assert(groups_match(self.by_binding@, left));
            assert(tables_ok(self.profile, self.limits, self@.tables));
        }
    }

    /// Applies one mutation, or refuses it and changes nothing.
    pub fn mutation(&mut self, mutation: Mutation) -> (outcome: Result<(), Confidence>)
        requires
            old(self).wf(),
            old(self)@.confidence == Confidence::Known,
        ensures
            final(self).wf(),
            outcome_of(
                old(self)@,
                final(self)@,
                mutated(
                    old(self)@.profile,
                    old(self)@.limits,
                    old(self)@.tables,
                    mutation,
                ),
                outcome,
            ),
    {
        match mutation {
            Mutation::Coverage(contribution) => self.add_coverage(contribution),
            Mutation::RemoveCoverage(id) => {
                self.remove_coverage(id);
                Ok(())
            },
            Mutation::Plan(plan) => self.add_plan(plan),
            Mutation::RemovePlan(id) => {
                self.remove_plan(id);
                Ok(())
            },
            Mutation::ClearCpu => {
                self.clear();
                Ok(())
            },
        }
    }
}

/// How a mutation that should make `expected` of the tables came out: on
/// success they are that, on refusal they are untouched.
pub open spec fn outcome_of(
    before: PublisherState,
    after: PublisherState,
    expected: Result<Tables, Confidence>,
    outcome: Result<(), Confidence>,
) -> bool {
    match expected {
        Ok(tables) => outcome is Ok && after == (PublisherState { tables, ..before }),
        Err(reason) => outcome == Err::<(), Confidence>(reason) && after == before && reason
            != Confidence::Known,
    }
}

/// The bindings of a contribution table, in no promised order.
fn list_bindings(contributions: &IdMap<Contribution>) -> (list: Vec<Binding>)
    requires
        forall|id: u64| #[trigger]
            contributions@.contains_key(id) ==> contributions@[id].binding.id == id,
    ensures
        lists(list@, binding_set(contributions@)),
{
    let ids = contributions.ids();
    let ghost c = contributions@;
    let mut list: Vec<Binding> = Vec::new();
    let mut i: usize = 0;
    while i < ids.len()
        invariant
            i <= ids.len(),
            c == contributions@,
            ids@.no_duplicates(),
            ids@.to_set() == c.dom(),
            forall|id: u64| #[trigger] c.contains_key(id) ==> c[id].binding.id == id,
            list@.len() == i,
            forall|j: int| 0 <= j < i ==> #[trigger] list@[j] == c[ids@[j]].binding,
        decreases ids.len() - i,
    {
        assert(ids@.to_set().contains(ids@[i as int]));
        if let Some(contribution) = contributions.get(ids[i]) {
            list.push(contribution.binding);
        }
        i = i + 1;
    }
    proof {
        assert forall|j: int| 0 <= j < ids@.len() implies c.contains_key(#[trigger] ids@[j]) by {
            assert(ids@.to_set().contains(ids@[j]));
        }
        assert(list@.no_duplicates()) by {
            assert forall|j: int, k: int| 0 <= j < list@.len() && 0 <= k < list@.len() && j
                != k implies list@[j] != list@[k] by {
                assert(c.contains_key(ids@[j]) && c.contains_key(ids@[k]));
            }
        }
        assert forall|b: Binding| list@.to_set().contains(b) <==> binding_set(c).contains(b) by {
            if list@.contains(b) {
                let j = choose|j: int| 0 <= j < list@.len() && list@[j] == b;
                assert(c.contains_key(ids@[j]));
            }
            if binding_set(c).contains(b) {
                assert(ids@.to_set().contains(b.id));
                let j = choose|j: int| 0 <= j < ids@.len() && ids@[j] == b.id;
                assert(list@[j] == b);
            }
        }
        assert(list@.to_set() =~= binding_set(c));
    }
    list
}

/// The plans of a plan table, in no promised order.
pub fn list_plans(plans: &IdMap<Plan>) -> (list: Vec<Plan>)
    requires
        forall|id: u64| #[trigger] plans@.contains_key(id) ==> plans@[id].id == id,
    ensures
        lists(list@, plan_set(plans@)),
{
    let ids = plans.ids();
    let ghost p = plans@;
    let mut list: Vec<Plan> = Vec::new();
    let mut i: usize = 0;
    while i < ids.len()
        invariant
            i <= ids.len(),
            p == plans@,
            ids@.no_duplicates(),
            ids@.to_set() == p.dom(),
            forall|id: u64| #[trigger] p.contains_key(id) ==> p[id].id == id,
            list@.len() == i,
            forall|j: int| 0 <= j < i ==> #[trigger] list@[j] == p[ids@[j]],
        decreases ids.len() - i,
    {
        assert(ids@.to_set().contains(ids@[i as int]));
        if let Some(plan) = plans.get(ids[i]) {
            list.push(*plan);
        }
        i = i + 1;
    }
    proof {
        assert forall|j: int| 0 <= j < ids@.len() implies p.contains_key(#[trigger] ids@[j]) by {
            assert(ids@.to_set().contains(ids@[j]));
        }
        assert(list@.no_duplicates()) by {
            assert forall|j: int, k: int| 0 <= j < list@.len() && 0 <= k < list@.len() && j
                != k implies list@[j] != list@[k] by {
                assert(p.contains_key(ids@[j]) && p.contains_key(ids@[k]));
            }
        }
        assert forall|x: Plan| list@.to_set().contains(x) <==> plan_set(p).contains(x) by {
            if list@.contains(x) {
                let j = choose|j: int| 0 <= j < list@.len() && list@[j] == x;
                assert(p.contains_key(ids@[j]));
            }
            if plan_set(p).contains(x) {
                assert(ids@.to_set().contains(x.id));
                let j = choose|j: int| 0 <= j < ids@.len() && ids@[j] == x.id;
                assert(list@[j] == x);
            }
        }
        assert(list@.to_set() =~= plan_set(p));
    }
    list
}

/// The members of `edges` that `table` does not hold.
fn missing_from(edges: &Vec<Edge>, table: &EdgeTable) -> (out: Vec<Edge>)
    requires
        table.wf(),
        edges@.no_duplicates(),
    ensures
        lists(out@, edges@.to_set().difference(table@.dom())),
{
    let mut out: Vec<Edge> = Vec::new();
    let mut i: usize = 0;
    while i < edges.len()
        invariant
            i <= edges.len(),
            table.wf(),
            edges@.no_duplicates(),
            out@.no_duplicates(),
            forall|e: Edge| #[trigger]
                out@.contains(e) <==> edges@.take(i as int).contains(e) && !table@.contains_key(e),
        decreases edges.len() - i,
    {
        let edge = edges[i];
        let ghost upto = edges@.take(i as int);
        let ghost next = edges@.take(i + 1);
        let ghost kept = out@;
        proof {
            assert(next =~= upto.push(edge));
            assert(!upto.contains(edge)) by {
                if upto.contains(edge) {
                    let j = choose|j: int| 0 <= j < upto.len() && upto[j] == edge;
                    assert(edges@[j] == edges@[i as int]);
                }
            }
            assert forall|e: Edge| next.contains(e) <==> upto.contains(e) || e == edge by {
                if next.contains(e) {
                    let j = choose|j: int| 0 <= j < next.len() && next[j] == e;
                    if j < upto.len() {
                        assert(upto[j] == e);
                    }
                }
                if upto.contains(e) {
                    let j = choose|j: int| 0 <= j < upto.len() && upto[j] == e;
                    assert(next[j] == e);
                }
                assert(next[i as int] == edge);
            }
        }
        if !table.contains(&edge) {
            out.push(edge);
            proof {
                assert(!kept.contains(edge));
                assert forall|e: Edge| #[trigger] out@.contains(e) <==> kept.contains(e) || e
                    == edge by {
                    if out@.contains(e) {
                        let j = choose|j: int| 0 <= j < out@.len() && out@[j] == e;
                        if j < kept.len() {
                            assert(kept[j] == e);
                        }
                    }
                    if kept.contains(e) {
                        let j = choose|j: int| 0 <= j < kept.len() && kept[j] == e;
                        assert(out@[j] == e);
                    }
                    assert(out@[kept.len() as int] == edge);
                }
            }
        }
        i = i + 1;
    }
    proof {
        assert(edges@.take(i as int) =~= edges@);
        assert(out@.to_set() =~= edges@.to_set().difference(table@.dom()));
    }
    out
}

impl Publisher {
    /// Applies the cut `cursor`. The batch carries the whole semantic tables and
    /// the edges that became live or ceased to be.
    pub fn apply(&mut self, cursor: u64, mutations: Vec<Mutation>) -> (batch: MaterializedBatch)
        requires
            old(self).wf(),
        ensures
            final(self).wf(),
            final(self)@ == old(self)@.applied(cursor, mutations@),
            batch_between(old(self)@, final(self)@, batch),
    {
        let before_edges = self.references.edges();
        let before = EdgeTable::new(true);
        let before = fill(before, &before_edges);
        let ghost start = self@;
        proof {
            lemma_counted_is_live(self.references@, self.contributions@);
        }
        if cursor > self.cursor {
            let contiguous: bool = cursor - self.cursor == 1;
            if !contiguous {
                self.fail(Confidence::Gap);
            }
            self.cursor = cursor;
            if self.confidence == Confidence::Known {
                let ghost base = self@;
                let ghost all = mutations@;
                let mut refusal: Option<Confidence> = None;
                proof {
                    assert(all.take(0).len() == 0);
                }
                for mutation in it: mutations
                    invariant
                        it.seq() == all,
                        self.wf(),
                        base.confidence == Confidence::Known,
                        match mutated_by(
                            base.profile,
                            base.limits,
                            base.tables,
                            all.take(it.index() as int),
                        ) {
                            Ok(tables) => refusal is None && self@ == (PublisherState {
                                tables,
                                ..base
                            }),
                            Err(reason) => refusal == Some(reason) && reason != Confidence::Known
                                && self@.profile == base.profile && self@.limits == base.limits
                                && self@.scope == base.scope && self@.cursor == base.cursor,
                        },
                {
                    proof {
                        let n = it.index() as int;
                        assert(all.take(n + 1).drop_last() =~= all.take(n));
                        assert(all.take(n + 1).last() == mutation);
                    }
                    if refusal.is_none() {
                        if let Err(reason) = self.mutation(mutation) {
                            refusal = Some(reason);
                        }
                    }
                }
                proof {
                    assert(all.take(all.len() as int) =~= all);
                }
                if let Some(reason) = refusal {
                    self.fail(reason);
                }
            }
        }
        proof {
            assert(self@ == start.applied(cursor, mutations@));
            lemma_counted_is_live(self.references@, self.contributions@);
        }
        let after_edges = self.references.edges();
        MaterializedBatch {
            profile: self.profile,
            scope: self.scope.copied(),
            cursor: self.cursor,
            confidence: self.confidence,
            added_edges: missing_from(&after_edges, &before),
            removed_edges: missing_from(&before_edges, &self.references),
            bindings: list_bindings(&self.contributions),
            plans: list_plans(&self.plans),
        }
    }

    /// The whole state as one cut.
    pub fn snapshot(&self) -> (snapshot: Snapshot)
        requires
            self.wf(),
        ensures
            snapshot_of(self@, snapshot),
    {
        proof {
            lemma_counted_is_live(self.references@, self.contributions@);
        }
        Snapshot {
            profile: self.profile,
            scope: self.scope.copied(),
            cursor: self.cursor,
            confidence: self.confidence,
            edges: self.references.edges(),
            bindings: list_bindings(&self.contributions),
            plans: list_plans(&self.plans),
        }
    }

    /// How many contributions, distinct edges and plans are held.
    pub fn live_counts(&self) -> (counts: (usize, usize, usize))
        requires
            self.wf(),
        ensures
            counts.0 == self@.tables.contributions.len(),
            counts.1 == live_edges(self@.tables.contributions).len(),
            counts.2 == self@.tables.plans.len(),
    {
        proof {
            lemma_counted_is_live(self.references@, self.contributions@);
        }
        (self.contributions.len(), self.references.len(), self.plans.len())
    }
}

/// Puts `edges` into an empty table.
fn fill(table: EdgeTable, edges: &Vec<Edge>) -> (out: EdgeTable)
    requires
        table.wf(),
        table@ == Map::<Edge, usize>::empty(),
        edges@.no_duplicates(),
    ensures
        out.wf(),
        out@.dom() == edges@.to_set(),
        out.keyed_by_child() == table.keyed_by_child(),
{
    let ghost by_child = table.keyed_by_child();
    let mut table = table;
    let mut i: usize = 0;
    proof {
        assert(table@.dom() =~= edges@.take(0).to_set());
    }
    while i < edges.len()
        invariant
            i <= edges.len(),
            table.wf(),
            edges@.no_duplicates(),
            table@.dom() == edges@.take(i as int).to_set(),
            table.keyed_by_child() == by_child,
        decreases edges.len() - i,
    {
        proof {
            let upto = edges@.take(i as int);
            let next = edges@.take(i + 1);
            assert(next =~= upto.push(edges@[i as int]));
            upto.lemma_cardinality_of_set();
            assert forall|e: Edge| next.to_set().contains(e) <==> upto.to_set().insert(
                edges@[i as int],
            ).contains(e) by {
                if next.contains(e) {
                    let j = choose|j: int| 0 <= j < next.len() && next[j] == e;
                    if j < upto.len() {
                        assert(upto[j] == e);
                    }
                }
                if upto.contains(e) {
                    let j = choose|j: int| 0 <= j < upto.len() && upto[j] == e;
                    assert(next[j] == e);
                }
                assert(next[i as int] == edges@[i as int]);
            }
            assert(next.to_set() =~= upto.to_set().insert(edges@[i as int]));
        }
        table.set(edges[i], 1);
        i = i + 1;
    }
    proof {
        assert(edges@.take(i as int) =~= edges@);
    }
    table
}

/// `batch` carries `after` whole, and the edges that changed since `before`.
pub open spec fn batch_between(
    before: PublisherState,
    after: PublisherState,
    batch: MaterializedBatch,
) -> bool {
    let was = live_edges(before.tables.contributions);
    let now = live_edges(after.tables.contributions);
    &&& batch.profile == after.profile
    &&& batch.scope@ == after.scope
    &&& batch.cursor == after.cursor
    &&& batch.confidence == after.confidence
    &&& lists(batch.added_edges@, now.difference(was))
    &&& lists(batch.removed_edges@, was.difference(now))
    &&& lists(batch.bindings@, binding_set(after.tables.contributions))
    &&& lists(batch.plans@, plan_set(after.tables.plans))
}

/// `snapshot` spells out `state`.
pub open spec fn snapshot_of(state: PublisherState, snapshot: Snapshot) -> bool {
    &&& snapshot.profile == state.profile
    &&& snapshot.scope@ == state.scope
    &&& snapshot.cursor == state.cursor
    &&& snapshot.confidence == state.confidence
    &&& lists(snapshot.edges@, live_edges(state.tables.contributions))
    &&& lists(snapshot.bindings@, binding_set(state.tables.contributions))
    &&& lists(snapshot.plans@, plan_set(state.tables.plans))
}

} // verus!
