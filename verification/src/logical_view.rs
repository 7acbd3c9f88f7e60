//! The materialized view that local, frontend and remote consumers share.

use crate::edge_table::EdgeTable;
use crate::id_map::IdMap;
use crate::logical::{
    Binding, Confidence, CoverageRole, Edge, Limits, MaterializedBatch, Plan, Profile, Scope,
    ScopeView, Snapshot,
};
use crate::protocols::{ExternalSequenceBlockHash, LocalBlockHash};
use crate::publisher::list_plans;
use vstd::prelude::*;

verus! {

/// Edges of one role form a lookup index: a parent and a block determine the
/// edge, and so does a child.
pub open spec fn index_ok(edges: Set<Edge>) -> bool {
    forall|e: Edge, f: Edge|
        #![trigger edges.contains(e), edges.contains(f)]
        edges.contains(e) && edges.contains(f) && e.role == f.role && ((e.parent == f.parent
            && e.local == f.local) || e.child == f.child) ==> e == f
}

/// Whether `edge` contradicts an edge that is already held.
pub open spec fn conflicts(edges: Set<Edge>, edge: Edge) -> bool {
    exists|f: Edge| #[trigger]
        edges.contains(f) && f.role == edge.role && f != edge && ((f.parent == edge.parent
            && f.local == edge.local) || f.child == edge.child)
}

/// The edge of the given role that leads to `child`.
pub open spec fn edge_into(
    edges: Set<Edge>,
    role: CoverageRole,
    child: ExternalSequenceBlockHash,
) -> Option<Edge> {
    if exists|e: Edge| #[trigger] edges.contains(e) && e.role == role && e.child == child {
        Some(choose|e: Edge| #[trigger] edges.contains(e) && e.role == role && e.child == child)
    } else {
        None
    }
}

/// Where `n` steps back from `from` lead, if every step has an edge.
pub open spec fn walk_back(
    edges: Set<Edge>,
    role: CoverageRole,
    from: Option<ExternalSequenceBlockHash>,
    n: nat,
) -> Option<Option<ExternalSequenceBlockHash>>
    decreases n,
{
    if n == 0 {
        Some(from)
    } else {
        match from {
            None => None,
            Some(h) => match edge_into(edges, role, h) {
                None => None,
                Some(e) => walk_back(edges, role, e.parent, (n - 1) as nat),
            },
        }
    }
}

/// The edges that `n` steps back from `from` pass.
pub open spec fn walked(
    edges: Set<Edge>,
    role: CoverageRole,
    from: Option<ExternalSequenceBlockHash>,
    n: nat,
) -> Set<Edge>
    decreases n,
{
    if n == 0 {
        Set::empty()
    } else {
        match from {
            None => Set::empty(),
            Some(h) => match edge_into(edges, role, h) {
                None => Set::empty(),
                Some(e) => walked(edges, role, e.parent, (n - 1) as nat).insert(e),
            },
        }
    }
}

/// How many edges the first `n` bindings are made of, shared or not.
pub open spec fn charged(profile: Profile, bindings: Seq<Binding>, n: nat) -> nat
    decreases n,
{
    if n == 0 {
        0
    } else {
        charged(profile, bindings, (n - 1) as nat) + bindings[n - 1].edge_count(profile) as nat
    }
}

/// The edges that back the first `n` bindings.
pub open spec fn covered(
    profile: Profile,
    edges: Set<Edge>,
    bindings: Seq<Binding>,
    n: nat,
) -> Set<Edge>
    decreases n,
{
    if n == 0 {
        Set::empty()
    } else {
        let b = bindings[n - 1];
        covered(profile, edges, bindings, (n - 1) as nat).union(
            walked(edges, b.role, Some(b.child), b.edge_count(profile) as nat),
        )
    }
}

/// Why the first `n` bindings are not backed edge by edge, if they are not.
pub open spec fn coverage_error(
    profile: Profile,
    limits: Limits,
    edges: Set<Edge>,
    bindings: Seq<Binding>,
    n: nat,
) -> Option<Confidence>
    decreases n,
{
    if n == 0 {
        None
    } else {
        let b = bindings[n - 1];
        match coverage_error(profile, limits, edges, bindings, (n - 1) as nat) {
            Some(reason) => Some(reason),
            None => if charged(profile, bindings, n) > limits.edges {
                Some(Confidence::Overflow)
            } else if walk_back(edges, b.role, Some(b.child), b.edge_count(profile) as nat) != Some(
                b.parent,
            ) {
                Some(Confidence::Invalid)
            } else {
                None
            },
        }
    }
}

/// The bindings by identifier.
pub open spec fn bindings_by_id(bindings: Seq<Binding>) -> Map<u64, Binding>
    decreases bindings.len(),
{
    if bindings.len() == 0 {
        Map::empty()
    } else {
        bindings_by_id(bindings.drop_last()).insert(bindings.last().id, bindings.last())
    }
}

/// The plans by identifier.
pub open spec fn plans_by_id(plans: Seq<Plan>) -> Map<u64, Plan>
    decreases plans.len(),
{
    if plans.len() == 0 {
        Map::empty()
    } else {
        plans_by_id(plans.drop_last()).insert(plans.last().id, plans.last())
    }
}

/// How many of the plans the binding backs.
pub open spec fn plan_count_of(plans: Seq<Plan>, binding: u64) -> nat
    decreases plans.len(),
{
    if plans.len() == 0 {
        0
    } else {
        plan_count_of(plans.drop_last(), binding) + if plans.last().binding == binding {
            1nat
        } else {
            0nat
        }
    }
}

/// Every binding is valid and no identifier occurs twice.
pub open spec fn bindings_ok(profile: Profile, bindings: Seq<Binding>) -> bool {
    &&& forall|i: int| 0 <= i < bindings.len() ==> (#[trigger] bindings[i]).is_valid(profile)
    &&& forall|i: int, j: int|
        0 <= i < j < bindings.len() ==> (#[trigger] bindings[i]).id != (#[trigger] bindings[j]).id
}

/// Why the plans do not fit the bindings, if they do not: the first plan that
/// is invalid, repeated, or one too many for its binding decides.
pub open spec fn plans_error(
    profile: Profile,
    bindings: Map<u64, Binding>,
    plans: Seq<Plan>,
) -> Option<Confidence>
    decreases plans.len(),
{
    if plans.len() == 0 {
        None
    } else {
        let p = plans.last();
        match plans_error(profile, bindings, plans.drop_last()) {
            Some(reason) => Some(reason),
            None => if !bindings.contains_key(p.binding) || !p.is_valid(
                bindings[p.binding],
                profile,
            ) || plans_by_id(plans.drop_last()).contains_key(p.id) {
                Some(Confidence::Invalid)
            } else if plan_count_of(plans, p.binding) > profile.plan_cap(
                bindings[p.binding].role,
            ) {
                Some(Confidence::Overflow)
            } else {
                None
            },
        }
    }
}

/// Why `bindings` and `plans` cannot be the tables of a view that holds
/// `edges`, if they cannot. The edges must be exactly the matching material of
/// the bindings: a partial dump is unknown, not an authoritative miss.
pub open spec fn tables_error(
    profile: Profile,
    limits: Limits,
    edges: Set<Edge>,
    bindings: Seq<Binding>,
    plans: Seq<Plan>,
) -> Option<Confidence> {
    if bindings.len() > limits.bindings || plans.len() > limits.plans {
        Some(Confidence::Overflow)
    } else if !bindings_ok(profile, bindings) {
        Some(Confidence::Invalid)
    } else {
        match coverage_error(profile, limits, edges, bindings, bindings.len()) {
            Some(reason) => Some(reason),
            None => if covered(profile, edges, bindings, bindings.len()) != edges {
                Some(Confidence::Invalid)
            } else {
                plans_error(profile, bindings_by_id(bindings), plans)
            },
        }
    }
}

/// What adding the edges one by one makes of `edges`.
pub open spec fn with_added(edges: Set<Edge>, limits: Limits, added: Seq<Edge>) -> Result<
    Set<Edge>,
    Confidence,
>
    decreases added.len(),
{
    if added.len() == 0 {
        Ok(edges)
    } else {
        match with_added(edges, limits, added.drop_last()) {
            Err(reason) => Err(reason),
            Ok(held) => if held.len() >= limits.edges {
                Err(Confidence::Overflow)
            } else if conflicts(held, added.last()) {
                Err(Confidence::Invalid)
            } else {
                Ok(held.insert(added.last()))
            },
        }
    }
}

/// The abstract state of a [`LogicalView`].
pub struct ViewState {
    pub profile: Profile,
    pub scope: ScopeView,
    pub cursor: u64,
    pub confidence: Confidence,
    pub limits: Limits,
    pub edges: Set<Edge>,
    pub bindings: Map<u64, Binding>,
    pub plans: Map<u64, Plan>,
}

impl ViewState {
    /// The same view after it lost its tables for `reason`.
    pub open spec fn failed(self, reason: Confidence) -> ViewState {
        ViewState {
            confidence: reason,
            edges: Set::empty(),
            bindings: Map::empty(),
            plans: Map::empty(),
            ..self
        }
    }

    /// The view with new tables, or the view that lost them because the tables
    /// do not fit its edges.
    pub open spec fn with_tables(self, bindings: Seq<Binding>, plans: Seq<Plan>) -> ViewState {
        match tables_error(self.profile, self.limits, self.edges, bindings, plans) {
            Some(reason) => self.failed(reason),
            None => ViewState {
                bindings: bindings_by_id(bindings),
                plans: plans_by_id(plans),
                ..self
            },
        }
    }

    /// The view that a snapshot seeds.
    pub open spec fn seeded(snapshot: Snapshot, limits: Limits) -> ViewState {
        let empty = ViewState {
            profile: snapshot.profile,
            scope: snapshot.scope@,
            cursor: snapshot.cursor,
            confidence: snapshot.confidence,
            limits,
            edges: Set::empty(),
            bindings: Map::empty(),
            plans: Map::empty(),
        };
        if !snapshot.profile.is_supported() {
            empty.failed(Confidence::UnsupportedProfile)
        } else if snapshot.confidence != Confidence::Known {
            empty
        } else if snapshot.edges@.len() > limits.edges {
            empty.failed(Confidence::Overflow)
        } else if !index_ok(snapshot.edges@.to_set()) {
            empty.failed(Confidence::Invalid)
        } else {
            (ViewState { edges: snapshot.edges@.to_set(), ..empty }).with_tables(
                snapshot.bindings@,
                snapshot.plans@,
            )
        }
    }

    /// The view after a cut: another scope's cut and a stale cut change
    /// nothing, and every cut that cannot be followed exactly loses the tables.
    pub open spec fn applied(self, batch: MaterializedBatch) -> ViewState {
        if batch.scope@ != self.scope {
            self
        } else if batch.profile != self.profile {
            self.failed(Confidence::UnsupportedProfile)
        } else if batch.cursor <= self.cursor {
            self
        } else {
            let moved = ViewState { cursor: batch.cursor, ..self };
            if self.cursor + 1 != batch.cursor {
                moved.failed(Confidence::Gap)
            } else if batch.confidence != Confidence::Known {
                moved.failed(batch.confidence)
            } else if self.confidence != Confidence::Known {
                moved
            } else {
                match with_added(
                    self.edges.difference(batch.removed_edges@.to_set()),
                    self.limits,
                    batch.added_edges@,
                ) {
                    Err(reason) => moved.failed(reason),
                    Ok(edges) => (ViewState { edges, ..moved }).with_tables(
                        batch.bindings@,
                        batch.plans@,
                    ),
                }
            }
        }
    }
}

/// The bucket of the root anchor and of the anchors at `hash`.
pub open spec fn anchor_key(hash: Option<ExternalSequenceBlockHash>) -> u64 {
    match hash {
        Some(h) => h.0,
        None => 0,
    }
}

fn bucket_of(hash: Option<ExternalSequenceBlockHash>) -> (k: u64)
    ensures
        k == anchor_key(hash),
{
    match hash {
        Some(h) => h.0,
        None => 0,
    }
}

/// The plans are listed under their anchors.
spec fn lists_plans(index: Map<u64, Vec<u64>>, plans: Map<u64, Plan>) -> bool {
    &&& forall|id: u64| #[trigger]
        plans.contains_key(id) ==> index.contains_key(anchor_key(plans[id].anchor))
            && index[anchor_key(plans[id].anchor)]@.contains(id)
    &&& forall|k: u64, i: int|
        #![trigger index[k]@[i]]
        index.contains_key(k) && 0 <= i < index[k]@.len() ==> plans.contains_key(index[k]@[i])
}

/// The tail bindings are listed under their parents.
spec fn lists_tails(index: Map<u64, Vec<u64>>, bindings: Map<u64, Binding>) -> bool {
    &&& forall|id: u64| #[trigger]
        bindings.contains_key(id) && bindings[id].role == CoverageRole::Tail ==> index.contains_key(
            anchor_key(bindings[id].parent),
        ) && index[anchor_key(bindings[id].parent)]@.contains(id)
    &&& forall|k: u64, i: int|
        #![trigger index[k]@[i]]
        index.contains_key(k) && 0 <= i < index[k]@.len() ==> bindings.contains_key(index[k]@[i])
            && bindings[index[k]@[i]].role == CoverageRole::Tail
}

/// What holds of the tables of a view in good standing.
pub open spec fn view_ok(v: ViewState) -> bool {
    &&& v.profile.is_supported()
    &&& index_ok(v.edges)
    &&& v.edges.finite()
    &&& v.edges.len() <= v.limits.edges
    &&& crate::table_fit::tables_fit(v.profile, v.limits, v.edges, v.bindings, v.plans)
    &&& forall|id: u64| #[trigger]
        v.bindings.contains_key(id) ==> v.bindings[id].id == id && v.bindings[id].is_valid(
            v.profile,
        )
    &&& forall|id: u64| #[trigger]
        v.plans.contains_key(id) ==> v.plans[id].id == id && v.bindings.contains_key(
            v.plans[id].binding,
        ) && v.plans[id].is_valid(v.bindings[v.plans[id].binding], v.profile)
}

/// Materialized view shared by local, frontend and remote consumers. Apply/query
/// require a coherent caller-held lock or an immutable published replacement.
/// No native group semantics and no contribution refcounts live here.
pub struct LogicalView {
    profile: Profile,
    scope: Scope,
    cursor: u64,
    confidence: Confidence,
    limits: Limits,
    forward: EdgeTable,
    edges: EdgeTable,
    bindings: IdMap<Binding>,
    plans: IdMap<Plan>,
    by_anchor: IdMap<Vec<u64>>,
    tails_by_anchor: IdMap<Vec<u64>>,
}

impl View for LogicalView {
    type V = ViewState;

    closed spec fn view(&self) -> ViewState {
        ViewState {
            profile: self.profile,
            scope: self.scope@,
            cursor: self.cursor,
            confidence: self.confidence,
            limits: self.limits,
            edges: self.edges@.dom(),
            bindings: self.bindings@,
            plans: self.plans@,
        }
    }
}

/// The tables of a view, with the lists that lookups go through.
struct BuiltTables {
    bindings: IdMap<Binding>,
    plans: IdMap<Plan>,
    by_anchor: IdMap<Vec<u64>>,
    tails_by_anchor: IdMap<Vec<u64>>,
}

/// Looking an edge up by its child finds the one that [`edge_into`] names.
proof fn lemma_edge_into(edges: Set<Edge>, e: Edge)
    requires
        index_ok(edges),
        edges.contains(e),
    ensures
        edge_into(edges, e.role, e.child) == Some(e),
{
    let f = choose|f: Edge| #[trigger] edges.contains(f) && f.role == e.role && f.child == e.child;
    assert(edges.contains(f) && edges.contains(e));
}

/// A walk only passes edges that are held.
proof fn lemma_walked_held(
    edges: Set<Edge>,
    role: CoverageRole,
    from: Option<ExternalSequenceBlockHash>,
    n: nat,
)
    ensures
        walked(edges, role, from, n).subset_of(edges),
    decreases n,
{
    if n > 0 {
        if let Some(h) = from {
            if let Some(e) = edge_into(edges, role, h) {
                lemma_walked_held(edges, role, e.parent, (n - 1) as nat);
            }
        }
    }
}

proof fn lemma_covered_held(
    profile: Profile,
    edges: Set<Edge>,
    bindings: Seq<Binding>,
    n: nat,
)
    ensures
        covered(profile, edges, bindings, n).subset_of(edges),
    decreases n,
{
    if n > 0 {
        let b = bindings[n - 1];
        lemma_covered_held(profile, edges, bindings, (n - 1) as nat);
        lemma_walked_held(edges, b.role, Some(b.child), b.edge_count(profile) as nat);
    }
}

/// Adds `id` to the list stored under `key`.
fn list_under(index: &mut IdMap<Vec<u64>>, key: u64, id: u64)
    ensures
        forall|k: u64| #[trigger]
            final(index)@.contains_key(k) <==> old(index)@.contains_key(k) || k == key,
        forall|k: u64| #[trigger]
            old(index)@.contains_key(k) && k != key ==> final(index)@[k] == old(index)@[k],
        final(index)@[key]@ == (if old(index)@.contains_key(key) {
            old(index)@[key]@
        } else {
            Seq::empty()
        }).push(id),
{
    let mut ids: Vec<u64> = match index.remove(key) {
        Some(ids) => ids,
        None => Vec::new(),
    };
    ids.push(id);
    index.insert(key, ids);
}

/// Puts the bindings into a table and the tails among them into an index.
/// `None` when a binding is invalid or an identifier repeats.
fn build_bindings(profile: Profile, bindings: &Vec<Binding>) -> (built: Option<
    (IdMap<Binding>, IdMap<Vec<u64>>),
>)
    ensures
        built is Some <==> bindings_ok(profile, bindings@),
        built matches Some((table, tails)) ==> {
            &&& table@ == bindings_by_id(bindings@)
            &&& lists_tails(tails@, table@)
            &&& forall|id: u64| #[trigger]
                table@.contains_key(id) ==> table@[id].id == id && table@[id].is_valid(profile)
            &&& forall|i: int| 0 <= i < bindings@.len() ==> table@.contains_key(
                (#[trigger] bindings@[i]).id,
            )
        },
{
    let mut table: IdMap<Binding> = IdMap::new();
    let mut tails: IdMap<Vec<u64>> = IdMap::new();
    let mut i: usize = 0;
    proof {
        assert(bindings@.take(0).len() == 0);
    }
    while i < bindings.len()
        invariant
            i <= bindings.len(),
            bindings_ok(profile, bindings@.take(i as int)),
            table@ == bindings_by_id(bindings@.take(i as int)),
            lists_tails(tails@, table@),
            forall|id: u64| #[trigger]
                table@.contains_key(id) ==> table@[id].id == id && table@[id].is_valid(profile)
                    && exists|j: int| 0 <= j < i && (#[trigger] bindings@[j]).id == id,
            forall|j: int| 0 <= j < i ==> table@.contains_key((#[trigger] bindings@[j]).id),
        decreases bindings.len() - i,
    {
        let binding = bindings[i];
        let ghost upto = bindings@.take(i as int);
        let ghost next = bindings@.take(i + 1);
        let ghost held = table@;
        let ghost listed = tails@;
        proof {
            assert(next.drop_last() =~= upto);
            assert(next.last() == binding);
        }
        if !binding.valid(profile) {
            proof {
                assert(!bindings@[i as int].is_valid(profile));
            }
            return None;
        }
        if table.contains(binding.id) {
            proof {
                let j = choose|j: int| 0 <= j < i && (#[trigger] bindings@[j]).id == binding.id;
                assert(bindings@[j].id == bindings@[i as int].id);
            }
            return None;
        }
        if binding.role == CoverageRole::Tail {
            list_under(&mut tails, bucket_of(binding.parent), binding.id);
        }
        table.insert(binding.id, binding);
        proof {
            assert forall|j: int, k: int| 0 <= j < k < next.len() implies (#[trigger] next[j]).id
                != (#[trigger] next[k]).id by {
                assert(next[j] == bindings@[j]);
                if k < i {
                    assert(upto[j] == next[j] && upto[k] == next[k]);
                } else {
                    assert(held.contains_key(bindings@[j].id));
                }
            }
            assert forall|j: int| 0 <= j < next.len() implies (#[trigger] next[j]).is_valid(
                profile,
            ) by {
                if j < i {
                    assert(upto[j] == next[j]);
                }
            }
            assert(table@ == bindings_by_id(next));
            let key = anchor_key(binding.parent);
            if binding.role == CoverageRole::Tail {
                let before = if listed.contains_key(key) {
                    listed[key]@
                } else {
                    Seq::empty()
                };
                assert(tails@[key]@ == before.push(binding.id));
                assert(tails@[key]@[before.len() as int] == binding.id);
                assert forall|id: u64| #[trigger]
                    table@.contains_key(id) && table@[id].role
                        == CoverageRole::Tail implies tails@.contains_key(
                    anchor_key(table@[id].parent),
                ) && tails@[anchor_key(table@[id].parent)]@.contains(id) by {
                    if id != binding.id {
                        assert(held.contains_key(id));
                        let k = anchor_key(held[id].parent);
                        assert(listed.contains_key(k));
                        if k == key {
                            let m = choose|m: int| 0 <= m < before.len() && before[m] == id;
                            assert(tails@[key]@[m] == id);
                        }
                    }
                }
                assert forall|k: u64, m: int|
                    #![trigger tails@[k]@[m]]
                    tails@.contains_key(k) && 0 <= m < tails@[k]@.len() implies table@.contains_key(
                    tails@[k]@[m],
                ) && table@[tails@[k]@[m]].role == CoverageRole::Tail by {
                    if k == key {
                        if m < before.len() {
                            assert(listed.contains_key(key));
                            assert(listed[key]@[m] == tails@[k]@[m]);
                        }
                    } else {
                        assert(listed.contains_key(k));
                        assert(listed[k]@[m] == tails@[k]@[m]);
                    }
                }
            } else {
                assert forall|id: u64| #[trigger]
                    table@.contains_key(id) && table@[id].role
                        == CoverageRole::Tail implies tails@.contains_key(
                    anchor_key(table@[id].parent),
                ) && tails@[anchor_key(table@[id].parent)]@.contains(id) by {
                    assert(held.contains_key(id));
                }
            }
            assert forall|id: u64| #[trigger] table@.contains_key(id) implies table@[id].id == id
                && table@[id].is_valid(profile) && exists|j: int|
                0 <= j < i + 1 && (#[trigger] bindings@[j]).id == id by {
                if id == binding.id {
                    assert(bindings@[i as int].id == id);
                } else {
                    assert(held.contains_key(id));
                    let j = choose|j: int| 0 <= j < i && (#[trigger] bindings@[j]).id == id;
                    assert(bindings@[j].id == id);
                }
            }
            assert forall|j: int| 0 <= j < i + 1 implies table@.contains_key(
                (#[trigger] bindings@[j]).id,
            ) by {}
        }
        i = i + 1;
    }
    proof {
        assert(bindings@.take(i as int) =~= bindings@);
    }
    Some((table, tails))
}

/// Walks one binding back over the held edges and marks them as covered.
/// Returns whether the walk ends at the binding's parent.
fn walk_binding(profile: Profile, edges: &EdgeTable, binding: &Binding, marked: &mut EdgeTable) -> (ok:
    bool)
    requires
        profile.is_supported(),
        binding.is_valid(profile),
        edges.wf(),
        edges.keyed_by_child(),
        index_ok(edges@.dom()),
        old(marked).wf(),
        old(marked)@.dom().subset_of(edges@.dom()),
    ensures
        final(marked).wf(),
        final(marked)@.dom().subset_of(edges@.dom()),
        ok == (walk_back(
            edges@.dom(),
            binding.role,
            Some(binding.child),
            binding.edge_count(profile) as nat,
        ) == Some(binding.parent)),
        ok ==> final(marked)@.dom() == old(marked)@.dom().union(
            walked(
                edges@.dom(),
                binding.role,
                Some(binding.child),
                binding.edge_count(profile) as nat,
            ),
        ),
{
    let count: u32 = (binding.end - binding.start) / profile.unit(binding.role);
    let ghost held = edges@.dom();
    let ghost role = binding.role;
    let ghost start = marked@.dom();
    let ghost whole = walked(held, role, Some(binding.child), count as nat);
    let mut child: Option<ExternalSequenceBlockHash> = Some(binding.child);
    let mut left: u32 = count;
    proof {
        assert(start.union(whole) =~= marked@.dom().union(walked(held, role, child, left as nat)));
    }
    while left > 0
        invariant
            left <= count,
            held == edges@.dom(),
            role == binding.role,
            count == binding.edge_count(profile),
            edges.wf(),
            edges.keyed_by_child(),
            index_ok(held),
            marked.wf(),
            marked@.dom().subset_of(held),
            walk_back(held, role, Some(binding.child), count as nat) == walk_back(
                held,
                role,
                child,
                left as nat,
            ),
            start.union(whole) == marked@.dom().union(walked(held, role, child, left as nat)),
        decreases left,
    {
        let hash = match child {
            Some(hash) => hash,
            None => {
                return false;
            },
        };
        let edge = match edges.leading_to(binding.role, hash) {
            Some(edge) => edge,
            None => {
                proof {
                    assert(edge_into(held, role, hash) is None);
                }
                return false;
            },
        };
        proof {
            lemma_edge_into(held, edge);
            edges.lemma_finite();
            marked.lemma_finite();
            if !marked@.contains_key(edge) {
                assert(marked@.dom().insert(edge).subset_of(held));
                vstd::set_lib::lemma_len_subset(marked@.dom().insert(edge), held);
            }
            let rest = walked(held, role, edge.parent, (left - 1) as nat);
            assert(marked@.dom().union(rest.insert(edge)) =~= marked@.dom().insert(edge).union(
                rest,
            ));
        }
        let _ = edges.len();
        marked.set(edge, 1);
        proof {
            assert(marked@.dom().subset_of(held));
        }
        child = edge.parent;
        left = left - 1;
    }
    proof {
        assert(marked@.dom().union(Set::<Edge>::empty()) =~= marked@.dom());
    }
    child == binding.parent
}

/// Decides whether the edges are exactly the matching material of the bindings.
fn check_coverage(profile: Profile, limits: Limits, edges: &EdgeTable, bindings: &Vec<Binding>) -> (outcome:
    Result<(), Confidence>)
    requires
        profile.is_supported(),
        bindings_ok(profile, bindings@),
        edges.wf(),
        edges.keyed_by_child(),
        index_ok(edges@.dom()),
    ensures
        match coverage_error(profile, limits, edges@.dom(), bindings@, bindings@.len()) {
            Some(reason) => outcome == Err::<(), Confidence>(reason),
            None => if covered(profile, edges@.dom(), bindings@, bindings@.len())
                == edges@.dom() {
                outcome is Ok
            } else {
                outcome == Err::<(), Confidence>(Confidence::Invalid)
            },
        },
{
    let ghost held = edges@.dom();
    let mut marked = EdgeTable::new(true);
    let mut total: usize = 0;
    let mut i: usize = 0;
    proof {
        assert(marked@.dom() =~= Set::empty());
    }
    while i < bindings.len()
        invariant
            i <= bindings.len(),
            held == edges@.dom(),
            profile.is_supported(),
            bindings_ok(profile, bindings@),
            edges.wf(),
            edges.keyed_by_child(),
            index_ok(held),
            marked.wf(),
            marked@.dom() == covered(profile, held, bindings@, i as nat),
            total == charged(profile, bindings@, i as nat),
            coverage_error(profile, limits, held, bindings@, i as nat) is None,
        decreases bindings.len() - i,
    {
        let binding = &bindings[i];
        proof {
            assert(bindings@[i as int].is_valid(profile));
        }
        let count: usize = ((binding.end - binding.start) / profile.unit(binding.role)) as usize;
        let ghost n = (i + 1) as nat;
        assert(charged(profile, bindings@, n) == total + count);
        let exceeded: bool = match total.checked_add(count) {
            Some(sum) => {
                total = sum;
                sum > limits.edges
            },
            None => true,
        };
        if exceeded {
            proof {
                assert(coverage_error(profile, limits, held, bindings@, n) == Some(
                    Confidence::Overflow,
                ));
                lemma_coverage_error_sticks(profile, limits, held, bindings@, n, bindings@.len());
            }
            return Err(Confidence::Overflow);
        }
        proof {
            lemma_covered_held(profile, held, bindings@, i as nat);
        }
        if !walk_binding(profile, edges, binding, &mut marked) {
            proof {
                assert(coverage_error(profile, limits, held, bindings@, n) == Some(
                    Confidence::Invalid,
                ));
                lemma_coverage_error_sticks(profile, limits, held, bindings@, n, bindings@.len());
            }
            return Err(Confidence::Invalid);
        }
        i = i + 1;
    }
    proof {
        lemma_covered_held(profile, held, bindings@, i as nat);
        edges.lemma_finite();
        if marked@.len() == edges@.len() {
            vstd::set_lib::lemma_subset_equality(marked@.dom(), held);
        }
    }
    if marked.len() != edges.len() {
        return Err(Confidence::Invalid);
    }
    Ok(())
}

/// An error among the first bindings is the error of all of them.
proof fn lemma_coverage_error_sticks(
    profile: Profile,
    limits: Limits,
    edges: Set<Edge>,
    bindings: Seq<Binding>,
    n: nat,
    m: nat,
)
    requires
        n <= m,
        coverage_error(profile, limits, edges, bindings, n) is Some,
    ensures
        coverage_error(profile, limits, edges, bindings, m) == coverage_error(
            profile,
            limits,
            edges,
            bindings,
            n,
        ),
    decreases m,
{
    if n < m {
        lemma_coverage_error_sticks(profile, limits, edges, bindings, n, (m - 1) as nat);
    }
}

/// An error among the first plans is the error of all of them.
proof fn lemma_plans_error_sticks(
    profile: Profile,
    bindings: Map<u64, Binding>,
    plans: Seq<Plan>,
    n: int,
)
    requires
        0 <= n <= plans.len(),
        plans_error(profile, bindings, plans.take(n)) is Some,
    ensures
        plans_error(profile, bindings, plans) == plans_error(profile, bindings, plans.take(n)),
    decreases plans.len(),
{
    if n == plans.len() {
        assert(plans.take(n) =~= plans);
    } else {
        assert(plans.drop_last().take(n) =~= plans.take(n));
        lemma_plans_error_sticks(profile, bindings, plans.drop_last(), n);
    }
}

/// The tally of `key`, zero when it has none.
spec fn counted(tallies: Map<u64, usize>, key: u64) -> nat {
    if tallies.contains_key(key) {
        tallies[key] as nat
    } else {
        0
    }
}

/// Puts the plans into a table and lists them under their anchors.
fn build_plans(profile: Profile, bindings: &IdMap<Binding>, plans: &Vec<Plan>) -> (built: Result<
    (IdMap<Plan>, IdMap<Vec<u64>>),
    Confidence,
>)
    requires
        profile.is_supported(),
    ensures
        match plans_error(profile, bindings@, plans@) {
            Some(reason) => built is Err && built->Err_0 == reason,
            None => {
                &&& built is Ok
                &&& built->Ok_0.0@ == plans_by_id(plans@)
                &&& lists_plans(built->Ok_0.1@, built->Ok_0.0@)
                &&& forall|id: u64| #[trigger]
                    built->Ok_0.0@.contains_key(id) ==> built->Ok_0.0@[id].id == id
                        && bindings@.contains_key(built->Ok_0.0@[id].binding)
                        && built->Ok_0.0@[id].is_valid(
                        bindings@[built->Ok_0.0@[id].binding],
                        profile,
                    )
            },
        },
{
    let mut table: IdMap<Plan> = IdMap::new();
    let mut index: IdMap<Vec<u64>> = IdMap::new();
    let mut counts: IdMap<usize> = IdMap::new();
    let mut i: usize = 0;
    proof {
        assert(plans@.take(0).len() == 0);
    }
    while i < plans.len()
        invariant
            i <= plans.len(),
            profile.is_supported(),
            plans_error(profile, bindings@, plans@.take(i as int)) is None,
            table@ == plans_by_id(plans@.take(i as int)),
            lists_plans(index@, table@),
            forall|id: u64| #[trigger]
                table@.contains_key(id) ==> table@[id].id == id && bindings@.contains_key(
                    table@[id].binding,
                ) && table@[id].is_valid(bindings@[table@[id].binding], profile),
            forall|b: u64| #[trigger]
                counted(counts@, b) == plan_count_of(plans@.take(i as int), b) && counted(
                    counts@,
                    b,
                ) <= i,
        decreases plans.len() - i,
    {
        let plan = plans[i];
        let ghost upto = plans@.take(i as int);
        let ghost next = plans@.take(i + 1);
        let ghost held = table@;
        let ghost listed = index@;
        let ghost tallied = counts@;
        proof {
            assert(next.drop_last() =~= upto);
            assert(next.last() == plan);
        }
        let role = match bindings.get(plan.binding) {
            Some(binding) => {
                if !plan.valid(binding, profile) {
                    proof {
                        assert(plans_error(profile, bindings@, next) == Some(Confidence::Invalid));
                        lemma_plans_error_sticks(profile, bindings@, plans@, i + 1);
                    }
                    return Err(Confidence::Invalid);
                }
                binding.role
            },
            None => {
                proof {
                    assert(plans_error(profile, bindings@, next) == Some(Confidence::Invalid));
                    lemma_plans_error_sticks(profile, bindings@, plans@, i + 1);
                }
                return Err(Confidence::Invalid);
            },
        };
        if table.contains(plan.id) {
            proof {
                assert(plans_error(profile, bindings@, next) == Some(Confidence::Invalid));
                lemma_plans_error_sticks(profile, bindings@, plans@, i + 1);
            }
            return Err(Confidence::Invalid);
        }
        let before: usize = match counts.get(plan.binding) {
            Some(count) => *count,
            None => 0,
        };
        proof {
            assert(before as nat == counted(tallied, plan.binding));
        }
        let count: usize = before + 1;
        counts.insert(plan.binding, count);
        if count > profile.cap(role) {
            proof {
                assert(plans_error(profile, bindings@, next) == Some(Confidence::Overflow));
                lemma_plans_error_sticks(profile, bindings@, plans@, i + 1);
            }
            return Err(Confidence::Overflow);
        }
        list_under(&mut index, bucket_of(plan.anchor), plan.id);
        table.insert(plan.id, plan);
        proof {
            let key = anchor_key(plan.anchor);
            let earlier = if listed.contains_key(key) {
                listed[key]@
            } else {
                Seq::empty()
            };
            assert(index@[key]@ == earlier.push(plan.id));
            assert(index@[key]@[earlier.len() as int] == plan.id);
            assert forall|id: u64| #[trigger] table@.contains_key(id) implies index@.contains_key(
                anchor_key(table@[id].anchor),
            ) && index@[anchor_key(table@[id].anchor)]@.contains(id) by {
                if id != plan.id {
                    assert(held.contains_key(id));
                    let k = anchor_key(held[id].anchor);
                    assert(listed.contains_key(k));
                    if k == key {
                        let m = choose|m: int| 0 <= m < earlier.len() && earlier[m] == id;
                        assert(index@[key]@[m] == id);
                    }
                }
            }
            assert forall|k: u64, m: int|
                #![trigger index@[k]@[m]]
                index@.contains_key(k) && 0 <= m < index@[k]@.len() implies table@.contains_key(
                index@[k]@[m],
            ) by {
                if k == key {
                    if m < earlier.len() {
                        assert(listed[key]@[m] == index@[k]@[m]);
                    }
                } else {
                    assert(listed.contains_key(k));
                    assert(listed[k]@[m] == index@[k]@[m]);
                }
            }
            assert forall|b: u64| #[trigger]
                counted(counts@, b) == plan_count_of(next, b) && counted(counts@, b) <= i + 1 by {
                assert(counted(tallied, b) == plan_count_of(upto, b));
            }
        }
        i = i + 1;
    }
    proof {
        assert(plans@.take(i as int) =~= plans@);
    }
    Ok((table, index))
}

/// Builds the tables of a view that holds `edges`.
fn build_tables(
    profile: Profile,
    limits: Limits,
    edges: &EdgeTable,
    bindings: &Vec<Binding>,
    plans: &Vec<Plan>,
) -> (built: Result<BuiltTables, Confidence>)
    requires
        profile.is_supported(),
        edges.wf(),
        edges.keyed_by_child(),
        index_ok(edges@.dom()),
    ensures
        match tables_error(profile, limits, edges@.dom(), bindings@, plans@) {
            Some(reason) => built is Err && built->Err_0 == reason,
            None => {
                &&& built is Ok
                &&& built->Ok_0.bindings@ == bindings_by_id(bindings@)
                &&& built->Ok_0.plans@ == plans_by_id(plans@)
                &&& lists_plans(built->Ok_0.by_anchor@, built->Ok_0.plans@)
                &&& lists_tails(built->Ok_0.tails_by_anchor@, built->Ok_0.bindings@)
                &&& forall|id: u64| #[trigger]
                    built->Ok_0.bindings@.contains_key(id) ==> built->Ok_0.bindings@[id].id == id
                        && built->Ok_0.bindings@[id].is_valid(profile)
                &&& forall|id: u64| #[trigger]
                    built->Ok_0.plans@.contains_key(id) ==> built->Ok_0.plans@[id].id == id
                        && built->Ok_0.bindings@.contains_key(built->Ok_0.plans@[id].binding)
                        && built->Ok_0.plans@[id].is_valid(
                        built->Ok_0.bindings@[built->Ok_0.plans@[id].binding],
                        profile,
                    )
            },
        },
{
    if bindings.len() > limits.bindings || plans.len() > limits.plans {
        return Err(Confidence::Overflow);
    }
    match build_bindings(profile, bindings) {
        None => Err(Confidence::Invalid),
        Some((table, tails)) => {
            if let Err(reason) = check_coverage(profile, limits, edges, bindings) {
                return Err(reason);
            }
            match build_plans(profile, &table, plans) {
                Err(reason) => Err(reason),
                Ok((planned, index)) => Ok(
                    BuiltTables {
                        bindings: table,
                        plans: planned,
                        by_anchor: index,
                        tails_by_anchor: tails,
                    },
                ),
            }
        },
    }
}

/// Adding an edge without a conflict keeps the index.
proof fn lemma_index_insert(edges: Set<Edge>, edge: Edge)
    requires
        index_ok(edges),
    ensures
        !conflicts(edges, edge) <==> index_ok(edges.insert(edge)),
{
    if !conflicts(edges, edge) {
        let grown = edges.insert(edge);
        assert forall|e: Edge, f: Edge|
            #![trigger grown.contains(e), grown.contains(f)]
            grown.contains(e) && grown.contains(f) && e.role == f.role && ((e.parent == f.parent
                && e.local == f.local) || e.child == f.child) implies e == f by {
            if e == edge && f != edge {
                assert(edges.contains(f));
            }
            if f == edge && e != edge {
                assert(edges.contains(e));
            }
            if e != edge && f != edge {
                assert(edges.contains(e) && edges.contains(f));
            }
        }
    } else {
        let f = choose|f: Edge| #[trigger]
            edges.contains(f) && f.role == edge.role && f != edge && ((f.parent == edge.parent
                && f.local == edge.local) || f.child == edge.child);
        let grown = edges.insert(edge);
        assert(grown.contains(f) && grown.contains(edge));
    }
}

/// A part of an index is an index.
proof fn lemma_index_subset(part: Set<Edge>, whole: Set<Edge>)
    requires
        index_ok(whole),
        part.subset_of(whole),
    ensures
        index_ok(part),
{
    assert forall|e: Edge, f: Edge|
        #![trigger part.contains(e), part.contains(f)]
        part.contains(e) && part.contains(f) && e.role == f.role && ((e.parent == f.parent
            && e.local == f.local) || e.child == f.child) implies e == f by {
        assert(whole.contains(e) && whole.contains(f));
    }
}

/// A refused addition refuses the whole list.
proof fn lemma_added_error_sticks(edges: Set<Edge>, limits: Limits, added: Seq<Edge>, n: int)
    requires
        0 <= n <= added.len(),
        with_added(edges, limits, added.take(n)) is Err,
    ensures
        with_added(edges, limits, added) == with_added(edges, limits, added.take(n)),
    decreases added.len(),
{
    if n == added.len() {
        assert(added.take(n) =~= added);
    } else {
        assert(added.drop_last().take(n) =~= added.take(n));
        lemma_added_error_sticks(edges, limits, added.drop_last(), n);
    }
}

impl LogicalView {
    /// Lookups agree with the tables, and only a view in good standing holds
    /// anything.
    pub closed spec fn wf(&self) -> bool {
        &&& self.tables_wf()
        &&& self.confidence == Confidence::Known ==> view_ok(self@) && lists_plans(
            self.by_anchor@,
            self.plans@,
        ) && lists_tails(self.tails_by_anchor@, self.bindings@)
        &&& self.confidence != Confidence::Known ==> self@ == self@.failed(self.confidence)
    }

    /// The two edge tables hold the same edges.
    spec fn tables_wf(&self) -> bool {
        &&& self.forward.wf()
        &&& !self.forward.keyed_by_child()
        &&& self.edges.wf()
        &&& self.edges.keyed_by_child()
        &&& self.forward@.dom() == self.edges@.dom()
    }

    /// A view in good standing has sound tables.
    pub proof fn lemma_known_is_ok(&self)
        requires
            self.wf(),
            self@.confidence == Confidence::Known,
        ensures
            view_ok(self@),
    {
    }

    /// Seeds a view. Whatever cannot be followed exactly leaves it empty, with
    /// the reason as its confidence.
    pub fn from_snapshot(snapshot: Snapshot, limits: Limits) -> (view: Self)
        ensures
            view.wf(),
            view@ == ViewState::seeded(snapshot, limits),
    {
        let mut view = LogicalView {
            profile: snapshot.profile,
            scope: snapshot.scope,
            cursor: snapshot.cursor,
            confidence: snapshot.confidence,
            limits,
            forward: EdgeTable::new(false),
            edges: EdgeTable::new(true),
            bindings: IdMap::new(),
            plans: IdMap::new(),
            by_anchor: IdMap::new(),
            tails_by_anchor: IdMap::new(),
        };
        proof {
            assert(view.edges@.dom() =~= Set::empty());
            assert(view.forward@.dom() =~= Set::empty());
        }
        if !view.profile.supported() {
            view.fail(Confidence::UnsupportedProfile);
        }
        if view.confidence != Confidence::Known {
            return view;
        }
        if snapshot.edges.len() > limits.edges {
            view.fail(Confidence::Overflow);
            return view;
        }
        let edges = &snapshot.edges;
        let ghost start = view@;
        let mut i: usize = 0;
        proof {
            assert(edges@.take(0).to_set() =~= Set::empty());
        }
        while i < edges.len()
            invariant
                i <= edges.len(),
                view.tables_wf(),
                view@ == (ViewState { edges: edges@.take(i as int).to_set(), ..start }),
                index_ok(view@.edges),
                view.by_anchor@ == Map::<u64, Vec<u64>>::empty(),
                view.tails_by_anchor@ == Map::<u64, Vec<u64>>::empty(),
                edges@ == snapshot.edges@,
                edges@.len() <= limits.edges,
                snapshot.profile.is_supported(),
                snapshot.confidence == Confidence::Known,
                start == (ViewState {
                    profile: snapshot.profile,
                    scope: snapshot.scope@,
                    cursor: snapshot.cursor,
                    confidence: snapshot.confidence,
                    limits,
                    edges: Set::empty(),
                    bindings: Map::empty(),
                    plans: Map::empty(),
                }),
            decreases edges.len() - i,
        {
            proof {
                let upto = edges@.take(i as int);
                let next = edges@.take(i + 1);
                assert(next =~= upto.push(edges@[i as int]));
                assert(next.to_set() =~= upto.to_set().insert(edges@[i as int])) by {
                    assert forall|e: Edge| next.to_set().contains(e) <==> upto.to_set().insert(
                        edges@[i as int],
                    ).contains(e) by {
                        if next.contains(e) {
                            let j = choose|j: int| 0 <= j < next.len() && next[j] == e;
                            if j < upto.len() {
                                assert(upto[j] == e);
                            }
                        }
                        if upto.contains(e) {
                            let j = choose|j: int| 0 <= j < upto.len() && upto[j] == e;
                            assert(next[j] == e);
                        }
                        assert(next[i as int] == edges@[i as int]);
                    }
                }
                upto.lemma_cardinality_of_set();
                lemma_index_insert(view@.edges, edges@[i as int]);
                assert(next.to_set().subset_of(edges@.to_set())) by {
                    assert forall|e: Edge| next.to_set().contains(e) implies edges@.to_set().contains(
                    e) by {
                        let j = choose|j: int| 0 <= j < next.len() && next[j] == e;
                        assert(edges@[j] == e);
                    }
                }
            }
            if !view.insert_edge(edges[i]) {
                proof {
                    if index_ok(edges@.to_set()) {
                        lemma_index_subset(edges@.take(i + 1).to_set(), edges@.to_set());
                    }
                }
                view.fail(Confidence::Invalid);
                return view;
            }
            i = i + 1;
        }
        proof {
            assert(edges@.take(i as int) =~= edges@);
        }
        view.replace_tables(&snapshot.bindings, &snapshot.plans);
        view
    }

    fn fail(&mut self, reason: Confidence)
        requires
            reason != Confidence::Known,
        ensures
            final(self).wf(),
            final(self)@ == old(self)@.failed(reason),
    {
        self.confidence = reason;
        self.forward = EdgeTable::new(false);
        self.edges = EdgeTable::new(true);
        self.bindings.clear();
        self.plans.clear();
        self.by_anchor.clear();
        self.tails_by_anchor.clear();
        proof {
            assert(self.edges@.dom() =~= Set::empty());
            assert(self.forward@.dom() =~= Set::empty());
        }
    }

    /// Adds an edge, unless it contradicts one that is held.
    fn insert_edge(&mut self, edge: Edge) -> (ok: bool)
        requires
            old(self).tables_wf(),
            index_ok(old(self)@.edges),
            old(self)@.edges.len() < usize::MAX,
        ensures
            ok == !conflicts(old(self)@.edges, edge),
            final(self).tables_wf(),
            *final(self) == (LogicalView {
                forward: final(self).forward,
                edges: final(self).edges,
                ..*old(self)
            }),
            final(self)@.edges == (if ok {
                old(self)@.edges.insert(edge)
            } else {
                old(self)@.edges
            }),
            ok ==> index_ok(final(self)@.edges),
    {
        let ghost held = self.edges@.dom();
        proof {
            assert(self@.edges == held);
            lemma_index_insert(held, edge);
        }
        if let Some(other) = self.forward.continuation(edge.role, edge.parent, edge.local) {
            if other != edge {
                proof {
                    assert(held.contains(other));
                }
                return false;
            }
        }
        if let Some(other) = self.edges.leading_to(edge.role, edge.child) {
            if other != edge {
                proof {
                    assert(held.contains(other));
                }
                return false;
            }
        }
        proof {
            assert(!conflicts(held, edge)) by {
                if conflicts(held, edge) {
                    let f = choose|f: Edge| #[trigger]
                        held.contains(f) && f.role == edge.role && f != edge && ((f.parent
                            == edge.parent && f.local == edge.local) || f.child == edge.child);
                    assert(self.edges@.contains_key(f));
                    assert(self.forward@.dom().contains(f));
                    assert(self.forward@.contains_key(f));
                    if held.contains(edge) {
                        assert(held.contains(f) && held.contains(edge));
                    }
                }
            }
        }
        self.forward.set(edge, 1);
        self.edges.set(edge, 1);
        proof {
            assert(self.forward@.dom() =~= held.insert(edge));
            assert(self.edges@.dom() =~= held.insert(edge));
        }
        true
    }

    /// Replaces the semantic tables, or loses everything because the new ones
    /// do not fit the edges.
    fn replace_tables(&mut self, bindings: &Vec<Binding>, plans: &Vec<Plan>)
        requires
            old(self).tables_wf(),
            old(self)@.confidence == Confidence::Known,
            old(self)@.profile.is_supported(),
            index_ok(old(self)@.edges),
        ensures
            final(self).wf(),
            final(self)@ == old(self)@.with_tables(bindings@, plans@),
    {
        match build_tables(self.profile, self.limits, &self.edges, bindings, plans) {
            Err(reason) => {
                proof {
                    lemma_tables_error_is_a_reason(
                        self.profile,
                        self.limits,
                        self.edges@.dom(),
                        bindings@,
                        plans@,
                    );
                }
                self.fail(reason);
            },
            Ok(built) => {
                proof {
                    crate::table_fit::lemma_accepted_tables_fit(
                        self.profile,
                        self.limits,
                        self.edges@.dom(),
                        bindings@,
                        plans@,
                    );
                }
                self.bindings = built.bindings;
                self.plans = built.plans;
                self.by_anchor = built.by_anchor;
                self.tails_by_anchor = built.tails_by_anchor;
            },
        }
    }

    /// Follows one materialized cut.
    pub fn apply(&mut self, batch: MaterializedBatch)
        requires
            old(self).wf(),
        ensures
            final(self).wf(),
            final(self)@ == old(self)@.applied(batch),
    {
        if !batch.scope.same(&self.scope) {
            return ;
        }  // Lifecycle owner fences replacement snapshots.
        if batch.profile != self.profile {
            self.fail(Confidence::UnsupportedProfile);
            return ;
        }
        if batch.cursor <= self.cursor {
            return ;
        }
        let contiguous: bool = batch.cursor - self.cursor == 1;
        self.cursor = batch.cursor;
        if !contiguous {
            self.fail(Confidence::Gap);
            return ;
        }
        if batch.confidence != Confidence::Known {
            self.fail(batch.confidence);
            return ;
        }
        if self.confidence != Confidence::Known {
            return ;
        }
        let ghost moved = self@;
        let ghost kept = moved.edges.difference(batch.removed_edges@.to_set());
        let removed = &batch.removed_edges;
        let mut i: usize = 0;
        proof {
            assert(moved.edges.difference(removed@.take(0).to_set()) =~= moved.edges);
        }
        while i < removed.len()
            invariant
                i <= removed.len(),
                self.tables_wf(),
                self@ == (ViewState {
                    edges: moved.edges.difference(removed@.take(i as int).to_set()),
                    ..moved
                }),
            decreases removed.len() - i,
        {
            let edge = &removed[i];
            let ghost held = self.edges@.dom();
            self.edges.remove(edge);
            self.forward.remove(edge);
            proof {
                assert(self.edges@.dom() =~= held.remove(*edge));
                assert(self.forward@.dom() =~= held.remove(*edge));
                let upto = removed@.take(i as int);
                let next = removed@.take(i + 1);
                assert(next =~= upto.push(*edge));
                assert forall|e: Edge| next.to_set().contains(e) <==> upto.to_set().contains(e) || e
                    == edge by {
                    if next.contains(e) {
                        let j = choose|j: int| 0 <= j < next.len() && next[j] == e;
                        if j < upto.len() {
                            assert(upto[j] == e);
                        }
                    }
                    if upto.contains(e) {
                        let j = choose|j: int| 0 <= j < upto.len() && upto[j] == e;
                        assert(next[j] == e);
                    }
                    assert(next[i as int] == edge);
                }
                assert(held.remove(*edge) =~= moved.edges.difference(next.to_set()));
            }
            i = i + 1;
        }
        proof {
            assert(removed@.take(i as int) =~= removed@);
            lemma_index_subset(kept, moved.edges);
            assert(batch.added_edges@.take(0).len() == 0);
        }
        let added = &batch.added_edges;
        let mut k: usize = 0;
        while k < added.len()
            invariant
                k <= added.len(),
                self.tables_wf(),
                with_added(kept, moved.limits, added@.take(k as int)) is Ok,
                self@ == (ViewState {
                    edges: with_added(kept, moved.limits, added@.take(k as int))->Ok_0,
                    ..moved
                }),
                index_ok(self@.edges),
                kept == moved.edges.difference(batch.removed_edges@.to_set()),
                added@ == batch.added_edges@,
                moved == (ViewState { cursor: batch.cursor, ..old(self)@ }),
                batch.scope@ == old(self)@.scope,
                batch.profile == old(self)@.profile,
                old(self)@.cursor + 1 == batch.cursor,
                batch.confidence == Confidence::Known,
                old(self)@.confidence == Confidence::Known,
            decreases added.len() - k,
        {
            proof {
                let next = added@.take(k + 1);
                assert(next.drop_last() =~= added@.take(k as int));
                assert(next.last() == added@[k as int]);
            }
            if self.edges.len() >= self.limits.edges {
                proof {
                    lemma_added_error_sticks(kept, moved.limits, added@, k + 1);
                }
                self.fail(Confidence::Overflow);
                return ;
            }
            if !self.insert_edge(added[k]) {
                proof {
                    lemma_added_error_sticks(kept, moved.limits, added@, k + 1);
                }
                self.fail(Confidence::Invalid);
                return ;
            }
            k = k + 1;
        }
        proof {
            assert(added@.take(k as int) =~= added@);
        }
        self.replace_tables(&batch.bindings, &batch.plans);
    }

    /// The whole view as one cut. A view of a supported profile is seeded again
    /// from it exactly.
    pub fn snapshot(&self) -> (snapshot: Snapshot)
        requires
            self.wf(),
        ensures
            snapshot.profile == self@.profile,
            snapshot.scope@ == self@.scope,
            snapshot.cursor == self@.cursor,
            snapshot.confidence == self@.confidence,
            crate::publisher::lists(snapshot.edges@, self@.edges),
            crate::publisher::lists(snapshot.bindings@, crate::table_fit::bindings_in(self@.bindings)),
            crate::publisher::lists(snapshot.plans@, crate::publisher::plan_set(self@.plans)),
            self@.profile.is_supported() ==> ViewState::seeded(snapshot, self@.limits) == self@,
    {
        let snapshot = Snapshot {
            profile: self.profile,
            scope: self.scope.copied(),
            cursor: self.cursor,
            confidence: self.confidence,
            edges: self.edges.edges(),
            bindings: list_binding_table(&self.bindings),
            plans: list_plans(&self.plans),
        };
        proof {
            if self@.confidence == Confidence::Known {
                snapshot.edges@.unique_seq_to_set();
                crate::table_fit::lemma_fitting_tables_accepted(
                    self@.profile,
                    self@.limits,
                    self@.edges,
                    self@.bindings,
                    self@.plans,
                    snapshot.bindings@,
                    snapshot.plans@,
                );
            }
        }
        snapshot
    }

    /// How many plans are held.
    pub fn plan_count(&self) -> (n: usize)
        ensures
            n == self@.plans.len(),
    {
        self.plans.len()
    }

    pub fn scope(&self) -> (scope: &Scope)
        ensures
            scope@ == self@.scope,
    {
        &self.scope
    }

    pub fn profile(&self) -> (profile: Profile)
        ensures
            profile == self@.profile,
    {
        self.profile
    }

    pub fn confidence(&self) -> (confidence: Confidence)
        ensures
            confidence == self@.confidence,
    {
        self.confidence
    }
}

/// The bindings of a binding table, in no promised order.
fn list_binding_table(bindings: &IdMap<Binding>) -> (list: Vec<Binding>)
    requires
        forall|id: u64| #[trigger] bindings@.contains_key(id) ==> bindings@[id].id == id,
    ensures
        crate::publisher::lists(list@, crate::table_fit::bindings_in(bindings@)),
{
    let ids = bindings.ids();
    let ghost m = bindings@;
    let mut list: Vec<Binding> = Vec::new();
    let mut i: usize = 0;
    while i < ids.len()
        invariant
            i <= ids.len(),
            m == bindings@,
            ids@.no_duplicates(),
            ids@.to_set() == m.dom(),
            forall|id: u64| #[trigger] m.contains_key(id) ==> m[id].id == id,
            list@.len() == i,
            forall|j: int| 0 <= j < i ==> #[trigger] list@[j] == m[ids@[j]],
        decreases ids.len() - i,
    {
        assert(ids@.to_set().contains(ids@[i as int]));
        if let Some(binding) = bindings.get(ids[i]) {
            list.push(*binding);
        }
        i = i + 1;
    }
    proof {
        assert forall|j: int| 0 <= j < ids@.len() implies m.contains_key(#[trigger] ids@[j]) by {
            assert(ids@.to_set().contains(ids@[j]));
        }
        assert(list@.no_duplicates()) by {
            assert forall|j: int, k: int| 0 <= j < list@.len() && 0 <= k < list@.len() && j
                != k implies list@[j] != list@[k] by {
                assert(m.contains_key(ids@[j]) && m.contains_key(ids@[k]));
            }
        }
        assert forall|b: Binding| list@.to_set().contains(b)
            <==> crate::table_fit::bindings_in(m).contains(b) by {
            if list@.contains(b) {
                let j = choose|j: int| 0 <= j < list@.len() && list@[j] == b;
                assert(m.contains_key(ids@[j]));
            }
            if crate::table_fit::bindings_in(m).contains(b) {
                assert(ids@.to_set().contains(b.id));
                let j = choose|j: int| 0 <= j < ids@.len() && ids@[j] == b.id;
                assert(list@[j] == b);
            }
        }
        assert(list@.to_set() =~= crate::table_fit::bindings_in(m));
    }
    list
}

/// What makes tables unfit is never that they are known.
pub(crate) proof fn lemma_tables_error_is_a_reason(
    profile: Profile,
    limits: Limits,
    edges: Set<Edge>,
    bindings: Seq<Binding>,
    plans: Seq<Plan>,
)
    ensures
        tables_error(profile, limits, edges, bindings, plans) != Some(Confidence::Known),
{
    lemma_coverage_error_is_a_reason(profile, limits, edges, bindings, bindings.len());
    lemma_plans_error_is_a_reason(profile, bindings_by_id(bindings), plans);
}

proof fn lemma_coverage_error_is_a_reason(
    profile: Profile,
    limits: Limits,
    edges: Set<Edge>,
    bindings: Seq<Binding>,
    n: nat,
)
    ensures
        coverage_error(profile, limits, edges, bindings, n) != Some(Confidence::Known),
    decreases n,
{
    if n > 0 {
        lemma_coverage_error_is_a_reason(profile, limits, edges, bindings, (n - 1) as nat);
    }
}

proof fn lemma_plans_error_is_a_reason(
    profile: Profile,
    bindings: Map<u64, Binding>,
    plans: Seq<Plan>,
)
    ensures
        plans_error(profile, bindings, plans) != Some(Confidence::Known),
    decreases plans.len(),
{
    if plans.len() > 0 {
        lemma_plans_error_is_a_reason(profile, bindings, plans.drop_last());
    }
}

/// A prompt to match: its scope, its length, and its root-aligned hashes.
pub struct Query<'a> {
    pub scope: &'a Scope,
    pub prompt_tokens: u32,
    pub full: &'a [LocalBlockHash],
    /// Root-aligned fine hashes using the same matching options as stores.
    pub fine: &'a [LocalBlockHash],
}

#[derive(Debug, Clone, PartialEq, Eq)]
pub struct QueryResult {
    pub status: Confidence,
    pub raw_cpu_tokens: u32,
    pub eligible_cpu_root_tokens: Option<u32>,
    pub selected_plan: Option<u64>,
    /// This view's own commit counter, NOT the producer's wire cursor. A
    /// consumer that re-seeds the view on every snapshot restarts it at zero.
    /// To reconcile against engine-side logs use `LogicalStream::cursor()`.
    pub cursor: u64,
}

/// The edge of the given role that continues `parent` by the block `local`.
pub open spec fn edge_after(
    edges: Set<Edge>,
    role: CoverageRole,
    parent: Option<ExternalSequenceBlockHash>,
    local: LocalBlockHash,
) -> Option<Edge> {
    if exists|e: Edge| #[trigger]
        edges.contains(e) && e.role == role && e.parent == parent && e.local == local {
        Some(
            choose|e: Edge| #[trigger]
                edges.contains(e) && e.role == role && e.parent == parent && e.local == local,
        )
    } else {
        None
    }
}

/// The hash that the blocks `from..to` reach from `parent`, if there is an edge
/// for every one of them.
pub open spec fn reached(
    edges: Set<Edge>,
    role: CoverageRole,
    locals: Seq<LocalBlockHash>,
    parent: Option<ExternalSequenceBlockHash>,
    from: int,
    to: int,
) -> Option<Option<ExternalSequenceBlockHash>>
    decreases to - from,
{
    if to <= from {
        Some(parent)
    } else {
        match reached(edges, role, locals, parent, from, to - 1) {
            None => None,
            Some(hash) => match edge_after(edges, role, hash, locals[to - 1]) {
                None => None,
                Some(e) => Some(Some(e.child)),
            },
        }
    }
}

/// The prompt's own blocks lead from the root to the anchor `hash` at block `n`.
pub open spec fn anchored(
    edges: Set<Edge>,
    full: Seq<LocalBlockHash>,
    n: int,
    hash: Option<ExternalSequenceBlockHash>,
) -> bool {
    0 <= n <= full.len() && reached(edges, CoverageRole::Prefix, full, None, 0, n) == Some(hash)
}

/// A plan may be resumed from: the prompt is long enough, reaches the plan's
/// anchor, and, for a tail, reaches the plan's endpoint from there.
pub open spec fn eligible(
    v: ViewState,
    prompt_tokens: u32,
    full: Seq<LocalBlockHash>,
    fine: Seq<LocalBlockHash>,
    id: u64,
) -> bool {
    let p = v.plans[id];
    let b = v.bindings[p.binding];
    let block = v.profile.block_size as int;
    let unit = v.profile.hash_unit as int;
    &&& v.plans.contains_key(id)
    &&& p.minimum_prompt_tokens <= prompt_tokens
    &&& anchored(v.edges, full, p.anchor_end as int / block, p.anchor)
    &&& b.role == CoverageRole::Tail ==> reached(
        v.edges,
        CoverageRole::Tail,
        fine,
        p.anchor,
        p.anchor_end as int / unit,
        p.end as int / unit,
    ) == Some(Some(b.child))
}

/// `n` blocks of the prompt are resident as a prefix.
pub open spec fn prefix_resident(v: ViewState, full: Seq<LocalBlockHash>, n: int) -> bool {
    0 <= n <= full.len() && reached(v.edges, CoverageRole::Prefix, full, None, 0, n) is Some
}

/// `u` hash units of the prompt are resident by way of the tail binding `id`,
/// which hangs off a resident anchor.
pub open spec fn tail_resident(
    v: ViewState,
    prompt_tokens: u32,
    full: Seq<LocalBlockHash>,
    fine: Seq<LocalBlockHash>,
    id: u64,
    u: int,
) -> bool {
    let b = v.bindings[id];
    let block = v.profile.block_size as int;
    let unit = v.profile.hash_unit as int;
    &&& v.bindings.contains_key(id)
    &&& b.role == CoverageRole::Tail
    &&& anchored(v.edges, full, b.start as int / block, b.parent)
    &&& b.start as int / unit < u
    &&& u * unit <= b.end
    &&& u * unit <= prompt_tokens
    &&& reached(
        v.edges,
        CoverageRole::Tail,
        fine,
        b.parent,
        b.start as int / unit,
        u,
    ) is Some
}

/// `tokens` leading tokens of the prompt are resident, whether or not any plan
/// certifies that they can be resumed from.
pub open spec fn resident(
    v: ViewState,
    prompt_tokens: u32,
    full: Seq<LocalBlockHash>,
    fine: Seq<LocalBlockHash>,
    tokens: int,
) -> bool {
    ||| exists|n: int| #[trigger]
        prefix_resident(v, full, n) && tokens == n * v.profile.block_size
    ||| exists|id: u64, u: int| #[trigger]
        tail_resident(v, prompt_tokens, full, fine, id, u) && tokens == u * v.profile.hash_unit
}

/// Between two eligible plans the one that resumes deeper is better, then the
/// one with the smaller identifier.
pub open spec fn no_better(v: ViewState, id: u64, than: u64) -> bool {
    v.plans[id].end < v.plans[than].end || (v.plans[id].end == v.plans[than].end && id >= than)
}

/// The answer of a view in good standing to a query of its own scope with the
/// right number of hashes.
pub open spec fn matched(
    v: ViewState,
    prompt_tokens: u32,
    full: Seq<LocalBlockHash>,
    fine: Seq<LocalBlockHash>,
    result: QueryResult,
) -> bool {
    &&& result.status == Confidence::Known
    &&& resident(v, prompt_tokens, full, fine, result.raw_cpu_tokens as int)
    &&& forall|tokens: int|
        resident(v, prompt_tokens, full, fine, tokens) ==> tokens <= result.raw_cpu_tokens
    &&& match result.selected_plan {
        Some(best) => {
            &&& eligible(v, prompt_tokens, full, fine, best)
            &&& result.eligible_cpu_root_tokens == Some(v.plans[best].end)
            &&& forall|id: u64| #[trigger]
                eligible(v, prompt_tokens, full, fine, id) ==> no_better(v, id, best)
        },
        None => {
            &&& result.eligible_cpu_root_tokens == Some(0u32)
            &&& forall|id: u64| !#[trigger] eligible(v, prompt_tokens, full, fine, id)
        },
    }
}

/// The answer of a view to a query. A view that is not known, or is asked about
/// another scope or with the wrong number of hashes, says so: it never answers
/// that nothing is cached.
pub open spec fn answers(v: ViewState, query: Query, result: QueryResult) -> bool {
    let silent = result.raw_cpu_tokens == 0 && result.eligible_cpu_root_tokens is None
        && result.selected_plan is None;
    &&& result.cursor == v.cursor
    &&& if query.scope@ != v.scope {
        silent && result.status == Confidence::ScopeMismatch
    } else if v.confidence != Confidence::Known {
        silent && result.status == v.confidence
    } else if query.full@.len() != query.prompt_tokens as int / v.profile.block_size as int
        || query.fine@.len() != query.prompt_tokens as int / v.profile.hash_unit as int {
        silent && result.status == Confidence::UnsupportedQuery
    } else {
        matched(v, query.prompt_tokens, query.full@, query.fine@, result)
    }
}

/// Looking an edge up by parent and block finds the one that [`edge_after`]
/// names.
proof fn lemma_edge_after(edges: Set<Edge>, e: Edge)
    requires
        index_ok(edges),
        edges.contains(e),
    ensures
        edge_after(edges, e.role, e.parent, e.local) == Some(e),
{
    let f = choose|f: Edge| #[trigger]
        edges.contains(f) && f.role == e.role && f.parent == e.parent && f.local == e.local;
    assert(edges.contains(f) && edges.contains(e));
}

/// Once a block has no edge, no later block is reached.
proof fn lemma_unreached(
    edges: Set<Edge>,
    role: CoverageRole,
    locals: Seq<LocalBlockHash>,
    parent: Option<ExternalSequenceBlockHash>,
    from: int,
    n: int,
    to: int,
)
    requires
        n <= to,
        reached(edges, role, locals, parent, from, n) is None,
    ensures
        reached(edges, role, locals, parent, from, to) is None,
    decreases to - n,
{
    if n < to {
        lemma_unreached(edges, role, locals, parent, from, n, to - 1);
    }
}

/// `u` units fit into `m` exactly when `u` is at most the quotient.
proof fn lemma_units_fit(u: int, m: int, unit: int)
    requires
        unit > 0,
    ensures
        u <= m / unit <==> u * unit <= m,
{
    assert(u <= m / unit ==> u * unit <= m) by (nonlinear_arith)
        requires
            unit > 0,
    ;
    assert(u * unit <= m ==> u <= m / unit) by (nonlinear_arith)
        requires
            unit > 0,
    ;
}

/// Multiples keep their order under division.
proof fn lemma_multiples_in_order(a: int, b: int, unit: int)
    requires
        unit > 0,
        a < b,
        b % unit == 0,
    ensures
        a / unit < b / unit,
{
    assert(a / unit < b / unit) by (nonlinear_arith)
        requires
            unit > 0,
            a < b,
            b % unit == 0,
    ;
}

/// A multiple is its quotient times the unit.
proof fn lemma_exact(a: int, unit: int)
    requires
        unit > 0,
        a % unit == 0,
    ensures
        a / unit * unit == a,
{
    assert(a / unit * unit == a) by (nonlinear_arith)
        requires
            unit > 0,
            a % unit == 0,
    ;
}

/// Dividing a multiple gives the factor back.
proof fn lemma_factor(n: int, unit: int)
    requires
        unit > 0,
    ensures
        n * unit / unit == n,
        n * unit % unit == 0,
{
    assert(n * unit / unit == n) by (nonlinear_arith)
        requires
            unit > 0,
    ;
    assert(n * unit % unit == 0) by (nonlinear_arith)
        requires
            unit > 0,
    ;
}

impl LogicalView {
    /// The hashes that the prompt's leading blocks reach, the root first.
    fn match_prefix(&self, full: &[LocalBlockHash]) -> (anchors: Vec<
        Option<ExternalSequenceBlockHash>,
    >)
        requires
            self.wf(),
            self@.confidence == Confidence::Known,
        ensures
            1 <= anchors@.len() <= full@.len() + 1,
            forall|n: int|
                0 <= n < anchors@.len() ==> reached(
                    self@.edges,
                    CoverageRole::Prefix,
                    full@,
                    None,
                    0,
                    n,
                ) == Some(#[trigger] anchors@[n]),
            forall|n: int|
                anchors@.len() <= n ==> reached(
                    self@.edges,
                    CoverageRole::Prefix,
                    full@,
                    None,
                    0,
                    n,
                ) is None || n > full@.len(),
    {
        let ghost held = self@.edges;
        let mut anchors: Vec<Option<ExternalSequenceBlockHash>> = Vec::new();
        anchors.push(None);
        let mut parent: Option<ExternalSequenceBlockHash> = None;
        let mut i: usize = 0;
        while i < full.len()
            invariant
                i <= full@.len(),
                self.wf(),
                self@.confidence == Confidence::Known,
                held == self@.edges,
                anchors@.len() == i + 1,
                parent == anchors@[i as int],
                forall|n: int|
                    0 <= n <= i ==> reached(held, CoverageRole::Prefix, full@, None, 0, n) == Some(
                        #[trigger] anchors@[n],
                    ),
            decreases full@.len() - i,
        {
            match self.forward.continuation(CoverageRole::Prefix, parent, full[i]) {
                Some(edge) => {
                    proof {
                        assert(self.forward@.dom().contains(edge));
                        lemma_edge_after(held, edge);
                        assert(reached(held, CoverageRole::Prefix, full@, None, 0, i as int)
                            == Some(anchors@[i as int]));
                    }
                    anchors.push(Some(edge.child));
                    parent = Some(edge.child);
                },
                None => {
                    proof {
                        assert forall|e: Edge| held.contains(e) implies !(e.role
                            == CoverageRole::Prefix && e.parent == parent && e.local
                            == full@[i as int]) by {
                            assert(self.forward@.dom().contains(e));
                            assert(self.forward@.contains_key(e));
                        }
                        assert(reached(held, CoverageRole::Prefix, full@, None, 0, i as int)
                            == Some(anchors@[i as int]));
                        assert(reached(
                            held,
                            CoverageRole::Prefix,
                            full@,
                            None,
                            0,
                            i + 1,
                        ) is None);
                        assert forall|n: int| anchors@.len() <= n implies reached(
                            held,
                            CoverageRole::Prefix,
                            full@,
                            None,
                            0,
                            n,
                        ) is None || n > full@.len() by {
                            lemma_unreached(
                                held,
                                CoverageRole::Prefix,
                                full@,
                                None,
                                0,
                                i + 1,
                                n,
                            );
                        }
                    }
                    return anchors;
                },
            }
            i = i + 1;
        }
        anchors
    }

    /// The hashes that the prompt's units reach from an anchor, up to `limit`.
    fn match_tail(
        &self,
        fine: &[LocalBlockHash],
        parent: Option<ExternalSequenceBlockHash>,
        from: u32,
        limit: u32,
    ) -> (hashes: Vec<ExternalSequenceBlockHash>)
        requires
            self.wf(),
            self@.confidence == Confidence::Known,
            limit <= fine@.len(),
        ensures
            hashes@.len() == 0 || from + hashes@.len() <= limit,
            forall|j: int|
                0 <= j < hashes@.len() ==> reached(
                    self@.edges,
                    CoverageRole::Tail,
                    fine@,
                    parent,
                    from as int,
                    from + j + 1,
                ) == Some(Some(#[trigger] hashes@[j])),
            forall|u: int|
                from + hashes@.len() < u <= limit ==> reached(
                    self@.edges,
                    CoverageRole::Tail,
                    fine@,
                    parent,
                    from as int,
                    u,
                ) is None,
    {
        let ghost held = self@.edges;
        let ghost start = from as int;
        let mut hashes: Vec<ExternalSequenceBlockHash> = Vec::new();
        let mut reached_hash: Option<ExternalSequenceBlockHash> = parent;
        let mut position: u32 = from;
        while position < limit
            invariant
                from <= position,
                position <= limit || hashes@.len() == 0,
                start == from,
                limit <= fine@.len(),
                self.wf(),
                self@.confidence == Confidence::Known,
                held == self@.edges,
                hashes@.len() == position - from,
                reached(held, CoverageRole::Tail, fine@, parent, start, position as int) == Some(
                    reached_hash,
                ),
                forall|j: int|
                    0 <= j < hashes@.len() ==> reached(
                        held,
                        CoverageRole::Tail,
                        fine@,
                        parent,
                        start,
                        start + j + 1,
                    ) == Some(Some(#[trigger] hashes@[j])),
            decreases limit - position,
        {
            let local = fine[position as usize];
            match self.forward.continuation(CoverageRole::Tail, reached_hash, local) {
                Some(edge) => {
                    proof {
                        assert(self.forward@.dom().contains(edge));
                        lemma_edge_after(held, edge);
                    }
                    hashes.push(edge.child);
                    reached_hash = Some(edge.child);
                },
                None => {
                    proof {
                        assert forall|e: Edge| held.contains(e) implies !(e.role
                            == CoverageRole::Tail && e.parent == reached_hash && e.local == local) by {
                            assert(self.forward@.dom().contains(e));
                            assert(self.forward@.contains_key(e));
                        }
                        assert(reached(
                            held,
                            CoverageRole::Tail,
                            fine@,
                            parent,
                            start,
                            position + 1,
                        ) is None);
                        assert forall|u: int| start + hashes@.len() < u <= limit implies reached(
                            held,
                            CoverageRole::Tail,
                            fine@,
                            parent,
                            start,
                            u,
                        ) is None by {
                            lemma_unreached(
                                held,
                                CoverageRole::Tail,
                                fine@,
                                parent,
                                start,
                                position + 1,
                                u,
                            );
                        }
                    }
                    return hashes;
                },
            }
            position = position + 1;
        }
        hashes
    }

    /// The deepest end of the tail bindings at an anchor, zero without any.
    fn tail_limit(&self, start: u32, parent: Option<ExternalSequenceBlockHash>) -> (limit: u32)
        requires
            self.wf(),
            self@.confidence == Confidence::Known,
        ensures
            forall|id: u64| #[trigger]
                tail_at(self@, id, start, parent) ==> self@.bindings[id].end <= limit,
            limit > 0 ==> exists|id: u64| #[trigger]
                tail_at(self@, id, start, parent) && self@.bindings[id].end == limit,
    {
        let mut limit: u32 = 0;
        match self.tails_by_anchor.get(bucket_of(parent)) {
            Some(ids) => {
                let ghost key = anchor_key(parent);
                let mut i: usize = 0;
                while i < ids.len()
                    invariant
                        i <= ids.len(),
                        self.wf(),
                        self@.confidence == Confidence::Known,
                        key == anchor_key(parent),
                        self.tails_by_anchor@.contains_key(key),
                        self.tails_by_anchor@[key] == *ids,
                        forall|j: int|
                            0 <= j < i && tail_at(self@, #[trigger] ids@[j], start, parent)
                                ==> self@.bindings[ids@[j]].end <= limit,
                        limit > 0 ==> exists|id: u64| #[trigger]
                            tail_at(self@, id, start, parent) && self@.bindings[id].end == limit,
                    decreases ids.len() - i,
                {
                    let id = ids[i];
                    proof {
                        assert(self.tails_by_anchor@[key]@[i as int] == id);
                    }
                    if let Some(binding) = self.bindings.get(id) {
                        if binding.start == start && binding.parent == parent && binding.end
                            > limit {
                            limit = binding.end;
                            proof {
                                assert(tail_at(self@, id, start, parent));
                            }
                        }
                    }
                    i = i + 1;
                }
                proof {
                    assert forall|id: u64| #[trigger]
                        tail_at(self@, id, start, parent) implies self@.bindings[id].end
                        <= limit by {
                        assert(self.bindings@.contains_key(id));
                        assert(ids@.contains(id));
                        let j = choose|j: int| 0 <= j < ids@.len() && ids@[j] == id;
                        assert(tail_at(self@, ids@[j], start, parent));
                    }
                }
            },
            None => {
                proof {
                    assert forall|id: u64| #[trigger]
                        tail_at(self@, id, start, parent) implies self@.bindings[id].end
                        <= limit by {
                        assert(self.bindings@.contains_key(id));
                    }
                }
            },
        }
        limit
    }

    /// Answers how much of a prompt is resident and how much of it a plan
    /// certifies to be resumable.
    pub fn query(&self, query: &Query<'_>) -> (result: QueryResult)
        requires
            self.wf(),
        ensures
            answers(self@, *query, result),
    {
        let mut result = QueryResult {
            status: self.confidence,
            raw_cpu_tokens: 0,
            eligible_cpu_root_tokens: None,
            selected_plan: None,
            cursor: self.cursor,
        };
        if !query.scope.same(&self.scope) {
            result.status = Confidence::ScopeMismatch;
            return result;
        }
        if self.confidence != Confidence::Known {
            return result;
        }
        let block = self.profile.block_size;
        let unit = self.profile.hash_unit;
        let prompt = query.prompt_tokens;
        if query.full.len() != (prompt / block) as usize || query.fine.len() != (prompt
            / unit) as usize {
            result.status = Confidence::UnsupportedQuery;
            return result;
        }
        self.match_query(prompt, query.full, query.fine)
    }

    /// Considers the plans that are listed at one matching anchor.
    fn best_at_anchor(
        &self,
        prompt: u32,
        full: &[LocalBlockHash],
        fine: &[LocalBlockHash],
        end: u32,
        hash: Option<ExternalSequenceBlockHash>,
        tail: &Vec<ExternalSequenceBlockHash>,
        best: Option<(u64, u32)>,
    ) -> (next: Option<(u64, u32)>)
        requires
            self.wf(),
            self@.confidence == Confidence::Known,
            end as int % self@.profile.block_size as int == 0,
            anchored(self@.edges, full@, end as int / self@.profile.block_size as int, hash),
            tail_matched(self@, prompt, fine@, end, hash, tail@),
            best matches Some((id, depth)) ==> eligible(self@, prompt, full@, fine@, id)
                && self@.plans[id].end == depth,
        ensures
            next matches Some((id, depth)) ==> eligible(self@, prompt, full@, fine@, id)
                && self@.plans[id].end == depth,
            forall|id: u64| #[trigger]
                eligible(self@, prompt, full@, fine@, id) && self@.plans[id].anchor_end == end
                    ==> next is Some && no_better(self@, id, next->Some_0.0),
            best is Some ==> next is Some && no_better(
                self@,
                best->Some_0.0,
                next->Some_0.0,
            ),
    {
        let ids = match self.by_anchor.get(bucket_of(hash)) {
            Some(ids) => ids,
            None => {
                proof {
                    assert forall|id: u64| #[trigger]
                        eligible(self@, prompt, full@, fine@, id) && self@.plans[id].anchor_end
                            == end implies false by {
                        assert(self.plans@.contains_key(id));
                    }
                }
                return best;
            },
        };
        let ghost v = self@;
        let ghost key = anchor_key(hash);
        let mut next = best;
        let mut i: usize = 0;
        while i < ids.len()
            invariant
                i <= ids.len(),
                self.wf(),
                v == self@,
                v.confidence == Confidence::Known,
                key == anchor_key(hash),
                self.by_anchor@.contains_key(key),
                self.by_anchor@[key] == *ids,
                end as int % v.profile.block_size as int == 0,
                anchored(v.edges, full@, end as int / v.profile.block_size as int, hash),
                tail_matched(v, prompt, fine@, end, hash, tail@),
                next matches Some((id, depth)) ==> eligible(v, prompt, full@, fine@, id)
                    && v.plans[id].end == depth,
                best is Some ==> next is Some && no_better(v, best->Some_0.0, next->Some_0.0),
                forall|j: int|
                    0 <= j < i && eligible(v, prompt, full@, fine@, #[trigger] ids@[j])
                        && v.plans[ids@[j]].anchor_end == end ==> next is Some && no_better(
                        v,
                        ids@[j],
                        next->Some_0.0,
                    ),
            decreases ids.len() - i,
        {
            let id = ids[i];
            let ghost held = next;
            proof {
                assert(self.by_anchor@[key]@[i as int] == id);
                assert(self.plans@.contains_key(id));
            }
            if let Some(plan) = self.plans.get(id) {
                if let Some(binding) = self.bindings.get(plan.binding) {
                    let mut fits: bool = plan.anchor_end == end && plan.anchor == hash && prompt
                        >= plan.minimum_prompt_tokens;
                    if fits && binding.role == CoverageRole::Tail {
                        let unit = self.profile.hash_unit;
                        proof {
                            lemma_multiples_in_order(
                                plan.anchor_end as int,
                                plan.end as int,
                                unit as int,
                            );
                            assert(tail_at(v, plan.binding, end, hash));
                            lemma_exact(plan.end as int, unit as int);
                        }
                        let position: u32 = plan.end / unit - end / unit - 1;
                        fits = (position as usize) < tail.len() && tail[position as usize]
                            == binding.child;
                    }
                    proof {
                        assert(fits == (eligible(v, prompt, full@, fine@, id)
                            && v.plans[id].anchor_end == end)) by {
                            if v.plans[id].anchor_end == end && anchored(
                                v.edges,
                                full@,
                                end as int / v.profile.block_size as int,
                                plan.anchor,
                            ) {
                                assert(plan.anchor == hash);
                            }
                        }
                    }
                    if fits {
                        let better: bool = match next {
                            Some((old, depth)) => plan.end > depth || (plan.end == depth && id
                                < old),
                            None => true,
                        };
                        if better {
                            next = Some((id, plan.end));
                        }
                    }
                }
            }
            i = i + 1;
        }
        proof {
            assert forall|id: u64| #[trigger]
                eligible(v, prompt, full@, fine@, id) && v.plans[id].anchor_end
                    == end implies next is Some && no_better(v, id, next->Some_0.0) by {
                assert(self.plans@.contains_key(id));
                assert(v.plans[id].anchor == hash);
                assert(ids@.contains(id));
                let j = choose|j: int| 0 <= j < ids@.len() && ids@[j] == id;
                assert(eligible(v, prompt, full@, fine@, ids@[j]));
            }
        }
        next
    }

    /// Matches a prompt of the right shape against a view in good standing.
    #[verifier::spinoff_prover]
    #[verifier::rlimit(60)]
    fn match_query(&self, prompt: u32, full: &[LocalBlockHash], fine: &[LocalBlockHash]) -> (result:
        QueryResult)
        requires
            self.wf(),
            self@.confidence == Confidence::Known,
            full@.len() == prompt as int / self@.profile.block_size as int,
            fine@.len() == prompt as int / self@.profile.hash_unit as int,
        ensures
            matched(self@, prompt, full@, fine@, result),
            result.cursor == self@.cursor,
    {
        let block = self.profile.block_size;
        let unit = self.profile.hash_unit;
        let ghost v = self@;
        let anchors = self.match_prefix(full);
        let ghost deepest = anchors@.len() - 1;
        proof {
            lemma_units_fit(deepest, prompt as int, block as int);
            assert(reached(v.edges, CoverageRole::Prefix, full@, None, 0, deepest) == Some(
                anchors@[deepest],
            ));
            assert(prefix_resident(v, full@, deepest));
        }
        let mut raw: u32 = (anchors.len() - 1) as u32 * block;
        proof {
            assert forall|n: int| #[trigger] prefix_resident(v, full@, n) implies n * block
                <= raw by {
                if n > deepest {
                    assert(false);
                }
                assert(n * block <= deepest * block) by (nonlinear_arith)
                    requires
                        n <= deepest,
                        block > 0,
                ;
            }
        }
        // Enumerate only plans/tails at matching anchors, including the root and
        // anchors behind the deepest full match. Never scan the whole cache.
        let mut best: Option<(u64, u32)> = None;
        let mut a: usize = 0;
        while a < anchors.len()
            invariant
                a <= anchors@.len(),
                self.wf(),
                v == self@,
                v.confidence == Confidence::Known,
                block == v.profile.block_size,
                unit == v.profile.hash_unit,
                full@.len() == prompt as int / block as int,
                fine@.len() == prompt as int / unit as int,
                1 <= anchors@.len() <= full@.len() + 1,
                forall|n: int|
                    0 <= n < anchors@.len() ==> reached(
                        v.edges,
                        CoverageRole::Prefix,
                        full@,
                        None,
                        0,
                        n,
                    ) == Some(#[trigger] anchors@[n]),
                resident(v, prompt, full@, fine@, raw as int),
                forall|n: int| #[trigger] prefix_resident(v, full@, n) ==> n * block <= raw,
                forall|id: u64, u: int| #[trigger]
                    tail_resident(v, prompt, full@, fine@, id, u) && (v.bindings[id].start as int
                        / block as int) < a ==> u * unit <= raw,
                best matches Some((id, depth)) ==> eligible(v, prompt, full@, fine@, id)
                    && v.plans[id].end == depth,
                forall|id: u64| #[trigger]
                    eligible(v, prompt, full@, fine@, id) && (v.plans[id].anchor_end as int
                        / block as int) < a ==> best is Some && no_better(v, id, best->Some_0.0),
            decreases anchors.len() - a,
        {
            let hash = anchors[a];
            proof {
                self.lemma_known_is_ok();
                lemma_units_fit(a as int, prompt as int, block as int);
                lemma_factor(a as int, block as int);
                assert(reached(v.edges, CoverageRole::Prefix, full@, None, 0, a as int) == Some(
                    anchors@[a as int],
                ));
            }
            let end: u32 = a as u32 * block;
            let ceiling = self.tail_limit(end, hash);
            let bound: u32 = if ceiling < prompt {
                ceiling
            } else {
                prompt
            };
            let from: u32 = end / unit;
            let limit: u32 = bound / unit;
            proof {
                assert(limit <= prompt as int / unit as int) by (nonlinear_arith)
                    requires
                        bound <= prompt,
                        unit > 0,
                        limit == bound as int / unit as int,
                ;
            }
            let tail = self.match_tail(fine, hash, from, limit);
            let ghost before = raw;
            if tail.len() > 0 {
                proof {
                    lemma_units_fit(from + tail@.len(), bound as int, unit as int);
                }
                let depth: u32 = (from + tail.len() as u32) * unit;
                if depth > raw {
                    raw = depth;
                    proof {
                        let u = from + tail@.len();
                        assert(bound > 0);
                        let id = choose|id: u64| #[trigger]
                            tail_at(v, id, end, hash) && v.bindings[id].end == ceiling;
                        assert(tail_at(v, id, end, hash));
                        assert(reached(v.edges, CoverageRole::Tail, fine@, hash, from as int, u)
                            == Some(Some(tail@[tail@.len() - 1])));
                        assert(tail_resident(v, prompt, full@, fine@, id, u));
                    }
                }
            }
            proof {
                assert forall|id: u64, u: int| #[trigger]
                    tail_resident(v, prompt, full@, fine@, id, u) && v.bindings[id].start as int
                        / block as int <= a implies u * unit <= raw by {
                    let b = v.bindings[id];
                    if b.start as int / block as int == a {
                        lemma_exact(b.start as int, block as int);
                        assert(b.start == end);
                        assert(tail_at(v, id, end, hash));
                        assert(u * unit <= bound);
                        lemma_units_fit(u, bound as int, unit as int);
                        assert(u <= from + tail@.len());
                        assert(tail@.len() > 0);
                        assert(u * unit <= (from + tail@.len()) * unit) by (nonlinear_arith)
                            requires
                                u <= from + tail@.len(),
                                unit > 0,
                        ;
                    }
                }
                assert(tail_matched(v, prompt, fine@, end, hash, tail@)) by {
                    assert forall|id: u64, u: int|
                        #![trigger tail_at(v, id, end, hash), reached(
                            v.edges,
                            CoverageRole::Tail,
                            fine@,
                            hash,
                            from as int,
                            u,
                        )]
                        tail_at(v, id, end, hash) && from < u && u * unit <= v.bindings[id].end && u
                            * unit <= prompt implies {
                        let found = reached(
                            v.edges,
                            CoverageRole::Tail,
                            fine@,
                            hash,
                            from as int,
                            u,
                        );
                        if u - from - 1 < tail@.len() {
                            found == Some(Some(tail@[u - from - 1]))
                        } else {
                            found is None
                        }
                    } by {
                        lemma_units_fit(u, bound as int, unit as int);
                        if u - from - 1 < tail@.len() {
                            assert(reached(
                                v.edges,
                                CoverageRole::Tail,
                                fine@,
                                hash,
                                from as int,
                                from + (u - from - 1) + 1,
                            ) == Some(Some(tail@[u - from - 1])));
                        }
                    }
                }
            }
            let ghost chosen = best;
            best = self.best_at_anchor(prompt, full, fine, end, hash, &tail, best);
            proof {
                assert forall|id: u64| #[trigger]
                    eligible(v, prompt, full@, fine@, id) && v.plans[id].anchor_end as int
                        / block as int <= a implies best is Some && no_better(
                    v,
                    id,
                    best->Some_0.0,
                ) by {
                    if v.plans[id].anchor_end as int / block as int == a {
                        lemma_exact(v.plans[id].anchor_end as int, block as int);
                        assert(v.plans[id].anchor_end == end);
                    } else {
                        assert(no_better(v, id, chosen->Some_0.0));
                    }
                }
            }
            a = a + 1;
        }
        proof {
            self.lemma_known_is_ok();
            assert forall|tokens: int| resident(v, prompt, full@, fine@, tokens) implies tokens
                <= raw by {
                if exists|n: int| #[trigger]
                    prefix_resident(v, full@, n) && tokens == n * v.profile.block_size {
                } else {
                    let (id, u) = choose|id: u64, u: int| #[trigger]
                        tail_resident(v, prompt, full@, fine@, id, u) && tokens == u
                            * v.profile.hash_unit;
                    assert(tail_resident(v, prompt, full@, fine@, id, u));
                    assert((v.bindings[id].start as int / block as int) < a);
                }
            }
            assert forall|id: u64| #[trigger] eligible(v, prompt, full@, fine@, id) implies best is Some
                && no_better(v, id, best->Some_0.0) by {
                assert((v.plans[id].anchor_end as int / block as int) < a);
            }
        }
        let (selected, depth) = match best {
            Some((id, depth)) => (Some(id), depth),
            None => (None, 0),
        };
        QueryResult {
            status: Confidence::Known,
            raw_cpu_tokens: raw,
            eligible_cpu_root_tokens: Some(depth),
            selected_plan: selected,
            cursor: self.cursor,
        }
    }
}

/// `tail` spells out what the prompt's units reach from the anchor, as far as
/// any tail binding there goes.
spec fn tail_matched(
    v: ViewState,
    prompt: u32,
    fine: Seq<LocalBlockHash>,
    end: u32,
    hash: Option<ExternalSequenceBlockHash>,
    tail: Seq<ExternalSequenceBlockHash>,
) -> bool {
    let unit = v.profile.hash_unit as int;
    let from = end as int / unit;
    forall|id: u64, u: int|
        #![trigger tail_at(v, id, end, hash), reached(
            v.edges,
            CoverageRole::Tail,
            fine,
            hash,
            from,
            u,
        )]
        tail_at(v, id, end, hash) && from < u && u * unit <= v.bindings[id].end && u * unit
            <= prompt ==> {
            let found = reached(v.edges, CoverageRole::Tail, fine, hash, from, u);
            if u - from - 1 < tail.len() {
                found == Some(Some(tail[u - from - 1]))
            } else {
                found is None
            }
        }
}

/// A tail binding hangs off the given anchor.
spec fn tail_at(
    v: ViewState,
    id: u64,
    start: u32,
    parent: Option<ExternalSequenceBlockHash>,
) -> bool {
    v.bindings.contains_key(id) && v.bindings[id].role == CoverageRole::Tail && v.bindings[id].start
        == start && v.bindings[id].parent == parent
}

} // verus!
