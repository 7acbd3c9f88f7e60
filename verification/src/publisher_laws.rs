//! What holds of a publisher's tables and of the cuts that carry them.

use crate::logical::{
    Binding, Confidence, Contribution, CoverageRole, Edge, Limits, MaterializedBatch, Mutation,
    Plan, Profile, Snapshot,
};
use crate::logical_normalizer::Catalog;
use crate::logical_stream::StreamState;
use crate::logical_wire::{
    Cut, DecodeLimits, LogicalDecodeError, WireCut, WireHeader, WirePayload, WirePlan, WireSegment,
};
use crate::protocols::ResidencyOwner;
use crate::publisher::{PublisherState, Tables};
use vstd::prelude::*;
use vstd::utf8::*;

verus! {

/// A geometry is supported if blocks are made of two or more whole units.
pub proof fn law_blocks_are_made_of_units(profile: Profile, n: int)
    requires
        profile.hash_unit > 0,
        profile.block_size == n * profile.hash_unit,
    ensures
        profile.is_supported() <==> profile.version == 1 && n >= 2,
        n >= 2 ==> profile.plan_cap(CoverageRole::Prefix) == n,
        profile.plan_cap(CoverageRole::Tail) == 1,
        profile.unit_of(CoverageRole::Prefix) == profile.block_size,
        profile.unit_of(CoverageRole::Tail) == profile.hash_unit,
        n >= 1 ==> crate::logical_wire::plans_per_row(profile.block_size, profile.hash_unit) == n
            + 1,
        crate::logical_wire::good_geometry(profile.block_size, profile.hash_unit) <==> n >= 2,
{
    let unit = profile.hash_unit as int;
    vstd::arithmetic::div_mod::lemma_div_multiples_vanish(n, unit);
    vstd::arithmetic::div_mod::lemma_mod_multiples_basic(n, unit);
    assert(n * unit == unit * n) by (nonlinear_arith);
    assert(n >= 2 ==> n * unit > unit) by (nonlinear_arith)
        requires
            unit > 0,
    ;
    assert(n < 2 ==> n * unit <= unit) by (nonlinear_arith)
        requires
            unit > 0,
    ;
}

/// A prefix binding is exactly one block, a tail is shorter than one and ends at
/// a unit; both begin at a block, and only one at the root has no parent.
pub proof fn law_bindings_begin_at_a_block(binding: Binding, profile: Profile)
    requires
        profile.is_supported(),
    ensures
        binding.is_valid(profile) ==> {
            &&& binding.start < binding.end
            &&& binding.start as int % profile.block_size as int == 0
            &&& binding.start == 0 <==> binding.parent is None
            &&& binding.role == CoverageRole::Prefix ==> binding.end == binding.start
                + profile.block_size && binding.edge_count(profile) == 1
            &&& binding.role == CoverageRole::Tail ==> binding.end < binding.start
                + profile.block_size && binding.end as int % profile.hash_unit as int == 0
        },
        binding.start < binding.end && binding.start as int % profile.block_size as int == 0 && (
        binding.start == 0 <==> binding.parent is None) && binding.role == CoverageRole::Prefix
            && binding.end == binding.start + profile.block_size ==> binding.is_valid(profile),
        binding.start < binding.end && binding.start as int % profile.block_size as int == 0 && (
        binding.start == 0 <==> binding.parent is None) && binding.role == CoverageRole::Tail
            && binding.end < binding.start + profile.block_size && binding.end as int
            % profile.hash_unit as int == 0 ==> binding.is_valid(profile),
{
    if binding.is_valid(profile) && binding.role == CoverageRole::Prefix {
        let size = profile.block_size as int;
        assert(size / size == 1) by (nonlinear_arith)
            requires
                size > 0,
        ;
    }
}

/// A plan always leaves part of the prompt to compute, is anchored at a block,
/// and resumes within the binding that backs it.
pub proof fn law_plans_resume_within_their_binding(plan: Plan, binding: Binding, profile: Profile)
    requires
        profile.is_supported(),
        plan.is_valid(binding, profile),
    ensures
        plan.end > 0,
        plan.end < plan.minimum_prompt_tokens,
        plan.anchor_end < plan.minimum_prompt_tokens,
        plan.end as int % profile.hash_unit as int == 0,
        plan.anchor_end as int % profile.block_size as int == 0,
        plan.anchor_end == 0 <==> plan.anchor is None,
        binding.role == CoverageRole::Prefix ==> plan.anchor == Some(binding.child)
            && plan.anchor_end == binding.end && binding.start < plan.end <= binding.end,
        binding.role == CoverageRole::Tail ==> plan.anchor == binding.parent && plan.anchor_end
            == binding.start && plan.end == binding.end,
{
}

/// A well-formed contribution is a chain: its first edge hangs off the
/// binding's parent, each later one off the one before it, and its last one
/// leads to the binding's child.
pub proof fn law_contributions_are_chains(contribution: Contribution, profile: Profile, i: int)
    requires
        crate::publisher::well_formed(contribution, profile),
        0 <= i < contribution.edges@.len(),
    ensures
        contribution.edges@[i].role == contribution.binding.role,
        i == 0 ==> contribution.edges@[i].parent == contribution.binding.parent,
        i > 0 ==> contribution.edges@[i].parent == Some(contribution.edges@[i - 1].child),
        contribution.edges@.last().child == contribution.binding.child,
        contribution.edges@.len() == contribution.binding.edge_count(profile),
        contribution.binding.is_valid(profile),
{
    let edges = contribution.edges@;
    if i > 0 {
        assert(edges.take(i).last() == edges[i - 1]);
    }
}

/// New coverage is taken exactly if it is well formed and there is room for it
/// and for its edges. Everything that was there stays.
pub proof fn law_coverage_is_added(
    profile: Profile,
    limits: Limits,
    t: Tables,
    c: Contribution,
    other: u64,
)
    requires
        !t.contributions.contains_key(c.binding.id),
        other != c.binding.id,
    ensures
        ({
            let after = crate::publisher::mutated(profile, limits, t, Mutation::Coverage(c));
            let charged = crate::sums::sum_of(crate::publisher::charges(t.contributions));
            let fits = t.contributions.len() < limits.bindings && charged + c.edges@.len()
                <= limits.edges;
            &&& !crate::publisher::well_formed(c, profile) ==> after == Err::<Tables, Confidence>(
                Confidence::Invalid,
            )
            &&& crate::publisher::well_formed(c, profile) && !fits ==> after == Err::<
                Tables,
                Confidence,
            >(Confidence::Overflow)
            &&& crate::publisher::well_formed(c, profile) && fits ==> {
                &&& after is Ok
                &&& after->Ok_0.contributions.contains_key(c.binding.id)
                &&& after->Ok_0.contributions[c.binding.id] == c
                &&& after->Ok_0.contributions.contains_key(other)
                    == t.contributions.contains_key(other)
                &&& t.contributions.contains_key(other) ==> after->Ok_0.contributions[other]
                    == t.contributions[other]
                &&& after->Ok_0.plans == t.plans
            }
        }),
{
}

/// A new plan is taken exactly if its binding is covered, it is valid for it,
/// and there is room, in all and at the binding.
pub proof fn law_plan_is_added(
    profile: Profile,
    limits: Limits,
    t: Tables,
    plan: Plan,
    other: u64,
)
    requires
        !t.plans.contains_key(plan.id),
        other != plan.id,
    ensures
        ({
            let after = crate::publisher::mutated(profile, limits, t, Mutation::Plan(plan));
            let binding = t.contributions[plan.binding].binding;
            let backed = t.contributions.contains_key(plan.binding) && plan.is_valid(
                binding,
                profile,
            );
            let fits = t.plans.len() < limits.plans && crate::publisher::plans_of(
                t.plans,
                plan.binding,
            ).len() < profile.plan_cap(binding.role);
            &&& !backed ==> after == Err::<Tables, Confidence>(Confidence::Invalid)
            &&& backed && !fits ==> after == Err::<Tables, Confidence>(Confidence::Overflow)
            &&& backed && fits ==> {
                &&& after is Ok
                &&& after->Ok_0.plans.contains_key(plan.id)
                &&& after->Ok_0.plans[plan.id] == plan
                &&& after->Ok_0.plans.contains_key(other) == t.plans.contains_key(other)
                &&& t.plans.contains_key(other) ==> after->Ok_0.plans[other] == t.plans[other]
                &&& after->Ok_0.contributions == t.contributions
            }
        }),
{
}

/// Removing a plan removes that plan alone, and a clear removes everything.
pub proof fn law_removal_is_exact(
    profile: Profile,
    limits: Limits,
    t: Tables,
    id: u64,
    other: u64,
)
    requires
        other != id,
    ensures
        ({
            let after = crate::publisher::mutated(profile, limits, t, Mutation::RemovePlan(id));
            &&& after is Ok
            &&& !after->Ok_0.plans.contains_key(id)
            &&& after->Ok_0.plans.contains_key(other) == t.plans.contains_key(other)
            &&& t.plans.contains_key(other) ==> after->Ok_0.plans[other] == t.plans[other]
            &&& after->Ok_0.contributions == t.contributions
        }),
        ({
            let after = crate::publisher::mutated(
                profile,
                limits,
                t,
                Mutation::RemoveCoverage(id),
            );
            &&& after is Ok
            &&& !after->Ok_0.contributions.contains_key(id)
            &&& after->Ok_0.contributions.contains_key(other) == t.contributions.contains_key(other)
            &&& t.contributions.contains_key(other) ==> after->Ok_0.contributions[other]
                == t.contributions[other]
        }),
        ({
            let after = crate::publisher::mutated(profile, limits, t, Mutation::ClearCpu);
            &&& after is Ok
            &&& !after->Ok_0.contributions.contains_key(id)
            &&& !after->Ok_0.plans.contains_key(id)
        }),
{
}

/// A publisher follows cuts one by one: an old cut changes nothing, the next
/// one moves the cursor by one, and one that comes too early loses the tables
/// for a gap.
pub proof fn law_publishers_follow_cuts_one_by_one(
    s: PublisherState,
    cursor: u64,
    mutations: Seq<Mutation>,
)
    ensures
        ({
            let after = s.applied(cursor, mutations);
            &&& cursor <= s.cursor ==> after == s
            &&& cursor > s.cursor ==> after.cursor == cursor
            &&& cursor > s.cursor + 1 ==> after.confidence == Confidence::Gap
                && after.tables.contributions.dom() == Set::<u64>::empty()
                && after.tables.plans.dom() == Set::<u64>::empty()
            &&& cursor == s.cursor + 1 && s.confidence == Confidence::Known && mutations.len() == 0
                ==> after.tables == s.tables && after.confidence == Confidence::Known
            &&& s.confidence != Confidence::Known && cursor <= s.cursor + 1 ==> after.confidence
                == s.confidence
            &&& after.profile == s.profile && after.scope == s.scope && after.limits == s.limits
        }),
{
}

/// An edge is live as long as some contribution holds it.
pub proof fn law_live_edges_are_held(c: Map<u64, Contribution>, id: u64, e: Edge)
    ensures
        c.contains_key(id) && c[id].edges@.contains(e) ==> crate::publisher::live_edges(c).contains(
            e,
        ),
        crate::publisher::live_edges(c).contains(e) ==> exists|k: u64|
            #![trigger c.contains_key(k)]
            c.contains_key(k) && c[k].edges@.contains(e),
{
    if c.contains_key(id) && c[id].edges@.contains(e) {
        assert(crate::publisher::holds(c, id, e));
    }
    if crate::publisher::live_edges(c).contains(e) {
        let k = choose|k: u64| crate::publisher::holds(c, k, e);
        assert(c.contains_key(k));
    }
}

/// A cut carries exactly what changed: an edge that became live is added, one
/// that ceased to be is removed, and every binding and plan of the new state is
/// listed.
pub proof fn law_cuts_carry_what_changed(
    before: PublisherState,
    after: PublisherState,
    batch: MaterializedBatch,
    e: Edge,
    b: Binding,
    p: Plan,
)
    requires
        crate::publisher::batch_between(before, after, batch),
    ensures
        ({
            let was = crate::publisher::live_edges(before.tables.contributions).contains(e);
            let is = crate::publisher::live_edges(after.tables.contributions).contains(e);
            &&& batch.added_edges@.contains(e) <==> is && !was
            &&& batch.removed_edges@.contains(e) <==> was && !is
        }),
        batch.bindings@.contains(b) <==> after.tables.contributions.contains_key(b.id)
            && after.tables.contributions[b.id].binding == b,
        batch.plans@.contains(p) <==> after.tables.plans.contains_key(p.id)
            && after.tables.plans[p.id] == p,
        batch.added_edges@.no_duplicates() && batch.removed_edges@.no_duplicates(),
        batch.cursor == after.cursor,
        batch.confidence == after.confidence,
        batch.scope@ == after.scope,
        batch.profile == after.profile,
{
    assert(batch.added_edges@.to_set().contains(e) == batch.added_edges@.contains(e));
    assert(batch.removed_edges@.to_set().contains(e) == batch.removed_edges@.contains(e));
    assert(batch.bindings@.to_set().contains(b) == batch.bindings@.contains(b));
    assert(batch.plans@.to_set().contains(p) == batch.plans@.contains(p));
}

/// A snapshot lists everything that is live, once.
pub proof fn law_snapshots_list_everything(
    s: PublisherState,
    snapshot: Snapshot,
    e: Edge,
    b: Binding,
    p: Plan,
)
    requires
        crate::publisher::snapshot_of(s, snapshot),
    ensures
        snapshot.edges@.contains(e) <==> crate::publisher::live_edges(
            s.tables.contributions,
        ).contains(e),
        snapshot.bindings@.contains(b) <==> s.tables.contributions.contains_key(b.id)
            && s.tables.contributions[b.id].binding == b,
        snapshot.plans@.contains(p) <==> s.tables.plans.contains_key(p.id) && s.tables.plans[p.id]
            == p,
        snapshot.edges@.no_duplicates(),
        snapshot.cursor == s.cursor,
        snapshot.confidence == s.confidence,
        snapshot.scope@ == s.scope,
        snapshot.profile == s.profile,
{
    assert(snapshot.edges@.to_set().contains(e) == snapshot.edges@.contains(e));
    assert(snapshot.bindings@.to_set().contains(b) == snapshot.bindings@.contains(b));
    assert(snapshot.plans@.to_set().contains(p) == snapshot.plans@.contains(p));
}

/// A mutation that is refused changes nothing, and is never refused because
/// everything is known.
pub proof fn law_refused_mutations_change_nothing(
    before: PublisherState,
    after: PublisherState,
    expected: Result<Tables, Confidence>,
    outcome: Result<(), Confidence>,
)
    requires
        crate::publisher::outcome_of(before, after, expected, outcome),
    ensures
        outcome is Err ==> after == before && outcome->Err_0 != Confidence::Known,
        outcome is Ok ==> after.confidence == before.confidence && after.cursor == before.cursor
            && expected is Ok && after.tables == expected->Ok_0,
{
}

/// A cut passes only in the one layout and namespace, with a geometry that fits
/// its own ceilings and ceilings that fit the limits.
pub proof fn law_headers_fit_the_limits(
    wire: WireCut,
    namespace: Seq<char>,
    limits: DecodeLimits,
    n: int,
)
    requires
        wire.hash_unit > 0,
        wire.block_size == n * wire.hash_unit,
    ensures
        crate::logical_wire::header_error(wire, namespace, limits) is None <==> {
            &&& wire.profile@ == "native-cpu-root"@
            &&& wire.version == 1
            &&& wire.namespace@ == namespace
            &&& 1 <= encode_utf8(namespace).len() <= 1024
            &&& n >= 2
            &&& wire.max_plans == wire.max_rows * (n + 1)
            &&& wire.max_rows <= limits.state.bindings
            &&& wire.max_plans <= limits.state.plans
            &&& crate::logical_wire::is_epoch(wire.epoch@)
            &&& wire.plans is Some ==> wire.plans->Some_0@.len() <= wire.max_plans
            &&& wire.added_plans is Some ==> wire.added_plans->Some_0@.len() <= wire.max_plans
        },
{
    law_blocks_are_made_of_units(
        Profile { version: 1, block_size: wire.block_size, hash_unit: wire.hash_unit },
        n,
    );
}

/// An epoch is sixteen bytes in thirty-two hexadecimal digits, two for each
/// byte, the higher first, in either case.
pub proof fn law_epochs_are_sixteen_bytes(epoch: Seq<char>, i: int)
    requires
        crate::logical_wire::is_epoch(epoch),
        0 <= i < 16,
    ensures
        ({
            let digits = encode_utf8(epoch);
            let high = digits[2 * i];
            let low = digits[2 * i + 1];
            let bytes = crate::logical_wire::epoch_of(epoch);
            &&& digits.len() == 32
            &&& bytes.len() == 16
            &&& 48 <= high <= 57 && 48 <= low <= 57 ==> bytes[i] == (high - 48) * 16 + (low - 48)
            &&& 97 <= high <= 102 && 48 <= low <= 57 ==> bytes[i] == (high - 87) * 16 + (low - 48)
            &&& 48 <= high <= 57 && 97 <= low <= 102 ==> bytes[i] == (high - 48) * 16 + (low - 87)
            &&& 97 <= high <= 102 && 97 <= low <= 102 ==> bytes[i] == (high - 87) * 16 + (low - 87)
            &&& 65 <= high <= 70 && 65 <= low <= 70 ==> bytes[i] == (high - 55) * 16 + (low - 55)
        }),
{
    let digits = encode_utf8(epoch);
    assert(crate::logical_wire::hex_digit(digits[2 * i]));
    assert(crate::logical_wire::hex_digit(digits[2 * i + 1]));
}

/// A message passes only if it fits its budget, holds one cut for the rank of
/// its own worker, and the cut has the lists of its own kind and no others.
pub proof fn law_messages_hold_one_cut(
    payload: WirePayload,
    owner: ResidencyOwner,
    namespace: Seq<char>,
    limits: DecodeLimits,
)
    requires
        crate::logical_wire::cut_error(payload, owner, namespace, limits) is None,
    ensures
        payload.bytes <= limits.bytes,
        payload.envelope is Ok,
        payload.envelope->Ok_0.finite_timestamp,
        payload.envelope->Ok_0.cuts@.len() == 1,
        owner is Worker,
        payload.envelope->Ok_0.dp_rank == owner->Worker_0.dp_rank,
        ({
            let wire = payload.envelope->Ok_0.cuts@[0];
            &&& crate::logical_wire::header_error(wire, namespace, limits) is None
            &&& wire.event_type@ == "LogicalSnapshot"@ || wire.event_type@ == "LogicalUpdate"@
            &&& wire.event_type@ == "LogicalSnapshot"@ ==> {
                &&& wire.segments is Some && wire.plans is Some
                &&& wire.added_segments is None && wire.removed_segments is None
                &&& wire.added_plans is None && wire.removed_plans is None
                &&& wire.segments->Some_0@.len() <= wire.max_rows
            }
            &&& wire.event_type@ != "LogicalSnapshot"@ ==> {
                &&& wire.segments is None && wire.plans is None
                &&& wire.added_segments is Some && wire.removed_segments is Some
                &&& wire.added_plans is Some && wire.removed_plans is Some
            }
        }),
{
}

/// A header repeats the fields of its cut, and a cut carries its own lists.
pub proof fn law_cuts_repeat_the_wire(wire: WireCut, cut: Cut)
    requires
        crate::logical_wire::cut_of(wire, cut),
    ensures
        cut is Snapshot ==> wire.event_type@ == "LogicalSnapshot"@,
        cut is Update ==> wire.event_type@ == "LogicalUpdate"@,
        ({
            let header = match cut {
                Cut::Snapshot { header, .. } => header,
                Cut::Update { header, .. } => header,
            };
            &&& header.epoch@ == wire.epoch@
            &&& header.cursor == wire.cursor
            &&& header.confidence@ == wire.confidence@
            &&& header.reason@ == wire.reason@
            &&& header.block_size == wire.block_size
            &&& header.hash_unit == wire.hash_unit
            &&& header.max_rows == wire.max_rows
        }),
        cut is Snapshot ==> Some(cut->segments) == wire.segments && Some(cut->plans) == wire.plans,
        cut is Update ==> Some(cut->added_segments) == wire.added_segments && Some(
            cut->removed_segments,
        ) == wire.removed_segments && Some(cut->added_plans) == wire.added_plans && Some(
            cut->removed_plans,
        ) == wire.removed_plans,
{
}

/// A frame that follows the last one keeps the view, any later one retires it
/// and asks for a replay; the first frame of all is no loss.
pub proof fn law_frames_follow_one_by_one(before: StreamState, transport: u64)
    ensures
        ({
            let after = crate::logical_stream::arrived(before, transport);
            let follows = before.transport is None || transport == before.transport->Some_0 + 1;
            &&& after.transport == Some(transport)
            &&& follows ==> after.normal == before.normal && after.needs_replay
                == before.needs_replay
            &&& !follows ==> after.normal is None && after.needs_replay
            &&& after.epoch == before.epoch && after.cursor == before.cursor && after.retired
                == before.retired
        }),
{
}

/// A snapshot that can be built replaces the view, whatever there was, unless it
/// is old or of a superseded epoch; a new epoch supersedes the one before it.
pub proof fn law_snapshots_replace_the_view(
    state: StreamState,
    header: WireHeader,
    limits: DecodeLimits,
    normal: crate::logical_normalizer::Normal,
)
    ensures
        ({
            let epoch = crate::logical_wire::epoch_of(header.epoch@);
            let (after, answer) = crate::logical_stream::after_snapshot(
                state,
                header,
                limits,
                Ok::<crate::logical_normalizer::Normal, LogicalDecodeError>(normal),
            );
            let same = state.epoch == Some(epoch);
            let old = same && header.cursor <= state.cursor;
            let superseded = !same && state.retired.contains(epoch);
            &&& old ==> answer == Ok::<bool, LogicalDecodeError>(false) && after == state
            &&& superseded ==> answer is Err && after.normal is None
            &&& !old && !superseded ==> {
                &&& answer == Ok::<bool, LogicalDecodeError>(true)
                &&& after.normal == Some(normal)
                &&& after.epoch == Some(epoch)
                &&& after.cursor == header.cursor
                &&& !after.needs_replay
                &&& after.transport == state.transport
            }
            &&& !old && !superseded && state.epoch is Some && !same && limits.epochs > 0
                ==> after.retired.contains(state.epoch->Some_0)
            &&& !old && !superseded && same ==> after.retired == state.retired
        }),
{
    if state.epoch is Some && limits.epochs > 0 {
        let last = state.epoch->Some_0;
        let history = crate::logical_stream::fenced(state.retired, last, limits.epochs as int);
        if !state.retired.contains(last) {
            assert(history.last() == last);
            assert(history[history.len() - 1] == last);
        }
    }
}

/// An update is taken exactly if it comes next in the epoch of a view that is
/// there; an old one changes nothing, and any other retires the view.
pub proof fn law_updates_come_next(
    state: StreamState,
    header: WireHeader,
    normal: crate::logical_normalizer::Normal,
)
    ensures
        ({
            let epoch = crate::logical_wire::epoch_of(header.epoch@);
            let (after, answer) = crate::logical_stream::after_update(
                state,
                header,
                Ok::<crate::logical_normalizer::Normal, LogicalDecodeError>(normal),
            );
            let ours = state.epoch == Some(epoch) && state.normal is Some;
            &&& answer == Ok::<bool, LogicalDecodeError>(true) <==> ours && header.cursor
                == state.cursor + 1
            &&& ours && header.cursor == state.cursor + 1 ==> after.normal == Some(normal)
                && after.cursor == header.cursor
            &&& ours && header.cursor <= state.cursor ==> after == state
            &&& ours && header.cursor > state.cursor + 1 ==> after.normal is None
            &&& !ours ==> after.normal is None && after.cursor == state.cursor
            &&& after.epoch == state.epoch && after.retired == state.retired
                && after.needs_replay == state.needs_replay && after.transport == state.transport
        }),
{
}

/// A segment that is declared gets a binding of its own span, and its edges
/// join its own hashes in order, the first to its parent.
pub proof fn law_segments_become_their_own_bindings(
    profile: Profile,
    namespace: Seq<char>,
    catalog: Catalog,
    segment: WireSegment,
    i: int,
)
    requires
        crate::logical_normalizer::with_segment(profile, namespace, catalog, segment) is Ok,
        0 <= i < segment.hashes@.len(),
    ensures
        ({
            let (after, op) = crate::logical_normalizer::with_segment(
                profile,
                namespace,
                catalog,
                segment,
            )->Ok_0;
            let binding = op->Cover_0;
            let edges = op->Cover_1;
            let id = crate::block_hash::xxh3_64_of(encode_utf8(segment.id@));
            &&& op is Cover
            &&& binding.id == id
            &&& binding.start == segment.start && binding.end == segment.end
            &&& segment.kind@ == "complete"@ ==> binding.role == CoverageRole::Prefix
            &&& segment.kind@ != "complete"@ ==> segment.kind@ == "tail"@ && binding.role
                == CoverageRole::Tail
            &&& binding.parent is Some <==> segment.parent_hash is Some
            &&& binding.parent is Some ==> binding.parent->Some_0.0
                == crate::block_hash::xxh3_64_of(segment.parent_hash->Some_0.0@)
            &&& binding.child.0 == crate::block_hash::xxh3_64_of(segment.end_hash.0@)
            &&& edges.len() == segment.hashes@.len()
            &&& edges[i].role == binding.role
            &&& edges[i].child.0 == crate::block_hash::xxh3_64_of(segment.hashes@[i].0@)
            &&& i == 0 ==> edges[i].parent == binding.parent
            &&& i > 0 ==> edges[i].parent == Some(edges[i - 1].child)
            &&& !catalog.segments.contains_key(id)
            &&& after.segments == catalog.segments.insert(id, after.segments[id])
            &&& after.segments[id].binding == binding
            &&& after.plans == catalog.plans && after.plan_names == catalog.plan_names
        }),
{
}

/// A plan that is declared belongs to a declared segment of its own kind, and
/// becomes a plan of its own positions under its own name.
pub proof fn law_plans_belong_to_declared_segments(catalog: Catalog, plan: WirePlan)
    requires
        crate::logical_normalizer::with_plan(catalog, plan) is Ok,
    ensures
        ({
            let (after, op) = crate::logical_normalizer::with_plan(catalog, plan)->Ok_0;
            let made = op->Declare_0;
            let id = crate::block_hash::xxh3_64_of(encode_utf8(plan.id@));
            let segment = crate::block_hash::xxh3_64_of(encode_utf8(plan.binding@));
            &&& op is Declare
            &&& made.id == id
            &&& made.binding == segment
            &&& made.end == plan.end
            &&& made.anchor_end == plan.anchor
            &&& made.minimum_prompt_tokens == plan.minimum_prompt_tokens
            &&& made.anchor is Some <==> plan.anchor_hash is Some
            &&& made.anchor is Some ==> made.anchor->Some_0.0 == crate::block_hash::xxh3_64_of(
                plan.anchor_hash->Some_0.0@,
            )
            &&& catalog.segments.contains_key(segment)
            &&& !catalog.plan_names.contains_key(id)
            &&& after.plan_names.contains_key(id) && after.plan_names[id] == plan.id@
            &&& after.plans.contains_key(id) && after.plans[id] == segment
            &&& after.segments == catalog.segments
            &&& catalog.segments[segment].binding.role == CoverageRole::Tail
                ==> plan.terminal_hash.0@ == catalog.segments[segment].end_hash
        }),
{
}

/// No identity stands for two byte strings: one that is given out stays, and
/// other bytes with the same identity are refused.
pub proof fn law_identities_are_unique(table: Map<u64, Seq<u8>>, bytes: Seq<u8>, other: u64)
    ensures
        ({
            let after = crate::logical_normalizer::interned(table, bytes);
            let id = crate::block_hash::xxh3_64_of(bytes);
            &&& bytes.len() == 0 || bytes.len() > 1024 ==> after == Err::<
                Map<u64, Seq<u8>>,
                LogicalDecodeError,
            >(LogicalDecodeError::Identity)
            &&& 1 <= bytes.len() <= 1024 && table.contains_key(id) && table[id] != bytes ==> after
                == Err::<Map<u64, Seq<u8>>, LogicalDecodeError>(LogicalDecodeError::Collision)
            &&& after is Ok ==> after->Ok_0.contains_key(id) && after->Ok_0[id] == bytes
            &&& after is Ok && table.contains_key(other) ==> after->Ok_0.contains_key(other)
                && after->Ok_0[other] == table[other]
            &&& after is Ok && other != id ==> after->Ok_0.contains_key(other)
                == table.contains_key(other)
            &&& 1 <= bytes.len() <= 1024 && (!table.contains_key(id) || table[id] == bytes)
                ==> after is Ok
        }),
{
}

/// A prompt is stated at its own length, as far as it can be counted.
pub proof fn law_prompts_state_their_length(tokens: Seq<u32>)
    ensures
        tokens.len() <= u32::MAX ==> crate::logical_normalizer::stated_length(tokens)
            == tokens.len(),
        tokens.len() > u32::MAX ==> crate::logical_normalizer::stated_length(tokens) == u32::MAX,
{
}

/// Withdrawing a plan frees its name and leaves every other plan and every
/// segment as it is.
pub proof fn law_withdrawn_plans_free_their_names(
    catalog: Catalog,
    name: Seq<char>,
    other: u64,
)
    requires
        catalog.has_plan(name),
        other != crate::block_hash::xxh3_64_of(encode_utf8(name)),
    ensures
        ({
            let after = crate::logical_normalizer::without_plan(catalog, name);
            &&& !after.has_plan(name)
            &&& !after.plan_names.contains_key(crate::block_hash::xxh3_64_of(encode_utf8(name)))
            &&& after.plans.contains_key(other) == catalog.plans.contains_key(other)
            &&& after.plan_names.contains_key(other) == catalog.plan_names.contains_key(other)
            &&& after.segments == catalog.segments
            &&& after.ids == catalog.ids && after.hashes == catalog.hashes
        }),
{
}

/// A retired segment is gone, with everything under it; other segments stay.
pub proof fn law_retired_segments_are_gone(catalog: Catalog, name: Seq<char>, other: u64)
    requires
        catalog.has_segment(name),
        other != crate::block_hash::xxh3_64_of(encode_utf8(name)),
    ensures
        ({
            let after = crate::logical_normalizer::without_segment(catalog, name);
            &&& !after.has_segment(name)
            &&& after.segments.contains_key(other) == catalog.segments.contains_key(other)
            &&& catalog.segments.contains_key(other) ==> after.segments[other]
                == catalog.segments[other]
        }),
{
}

/// Names that nothing is declared under are passed over.
pub proof fn law_unknown_names_are_passed_over(catalog: Catalog, name: Seq<char>)
    ensures
        !catalog.has_plan(name) ==> crate::logical_normalizer::without_plan(catalog, name)
            == catalog,
        !catalog.has_segment(name) ==> crate::logical_normalizer::without_segment(catalog, name)
            == catalog,
{
}

/// A cut asks for one operation for each segment and each plan that it declares,
/// and for no more withdrawals than it names.
pub proof fn law_every_declaration_is_asked_for(
    profile: Profile,
    namespace: Seq<char>,
    catalog: Catalog,
    removed_plans: Seq<String>,
    removed_segments: Seq<String>,
    added_segments: Seq<WireSegment>,
    added_plans: Seq<WirePlan>,
)
    requires
        crate::logical_normalizer::catalogued(
            profile,
            namespace,
            catalog,
            removed_plans,
            removed_segments,
            added_segments,
            added_plans,
        ) is Ok,
    ensures
        ({
            let ops = crate::logical_normalizer::catalogued(
                profile,
                namespace,
                catalog,
                removed_plans,
                removed_segments,
                added_segments,
                added_plans,
            )->Ok_0.1;
            let added = added_segments.len() + added_plans.len();
            &&& added <= ops.len() <= added + removed_plans.len() + removed_segments.len()
        }),
{
    let (first, _) = crate::logical_normalizer::withdrawn(catalog, removed_plans);
    let (second, _) = crate::logical_normalizer::retired(first, removed_segments);
    lemma_withdrawals(catalog, removed_plans);
    lemma_retirements(first, removed_segments);
    lemma_covers(profile, namespace, second, added_segments);
    let third = crate::logical_normalizer::covered_by(
        profile,
        namespace,
        second,
        added_segments,
    )->Ok_0.0;
    lemma_declarations(third, added_plans);
}

proof fn lemma_withdrawals(catalog: Catalog, names: Seq<String>)
    ensures
        crate::logical_normalizer::withdrawn(catalog, names).1.len() <= names.len(),
    decreases names.len(),
{
    if names.len() > 0 {
        lemma_withdrawals(catalog, names.drop_last());
    }
}

proof fn lemma_retirements(catalog: Catalog, names: Seq<String>)
    ensures
        crate::logical_normalizer::retired(catalog, names).1.len() <= names.len(),
    decreases names.len(),
{
    if names.len() > 0 {
        lemma_retirements(catalog, names.drop_last());
    }
}

proof fn lemma_covers(
    profile: Profile,
    namespace: Seq<char>,
    catalog: Catalog,
    segments: Seq<WireSegment>,
)
    ensures
        crate::logical_normalizer::covered_by(profile, namespace, catalog, segments) is Ok
            ==> crate::logical_normalizer::covered_by(
            profile,
            namespace,
            catalog,
            segments,
        )->Ok_0.1.len() == segments.len(),
    decreases segments.len(),
{
    if segments.len() > 0 {
        lemma_covers(profile, namespace, catalog, segments.drop_last());
    }
}

proof fn lemma_declarations(catalog: Catalog, plans: Seq<WirePlan>)
    ensures
        crate::logical_normalizer::declared_by(catalog, plans) is Ok
            ==> crate::logical_normalizer::declared_by(catalog, plans)->Ok_0.1.len() == plans.len(),
    decreases plans.len(),
{
    if plans.len() > 0 {
        lemma_declarations(catalog, plans.drop_last());
    }
}

/// What a snapshot builds is of its own geometry, owner, namespace and epoch. It
/// is in good standing exactly if it claims to be known, and then gives no
/// reason; if it does not, it gives one and holds nothing.
pub proof fn law_snapshots_build_their_own_view(
    header: WireHeader,
    segments: Seq<WireSegment>,
    plans: Seq<WirePlan>,
    owner: ResidencyOwner,
    namespace: Seq<char>,
    limits: DecodeLimits,
    mutations: Seq<Mutation>,
)
    requires
        crate::logical_normalizer::built(
            header,
            segments,
            plans,
            owner,
            namespace,
            limits,
            mutations,
        ) is Ok,
    ensures
        ({
            let normal = crate::logical_normalizer::built(
                header,
                segments,
                plans,
                owner,
                namespace,
                limits,
                mutations,
            )->Ok_0;
            &&& normal.view.profile.version == 1
            &&& normal.view.profile.block_size == header.block_size
            &&& normal.view.profile.hash_unit == header.hash_unit
            &&& normal.view.scope.owner == owner
            &&& normal.view.scope.namespace == namespace
            &&& normal.view.scope.incarnation == crate::logical_wire::epoch_of(header.epoch@)
            &&& normal.view.scope.generation == 0
            &&& normal.view.confidence == Confidence::Known <==> header.confidence@ == "known"@
            &&& header.confidence@ == "known"@ ==> header.reason@.len() == 0
            &&& header.confidence@ != "known"@ ==> header.confidence@ == "unknown"@
                && header.reason@.len() > 0 && segments.len() == 0 && plans.len() == 0
                && normal.view.edges == Set::<Edge>::empty() && normal.view.confidence
                == Confidence::Gap
            &&& header.confidence@ == "known"@ ==> normal.view.plans
                == normal.publisher.tables.plans && normal.view.edges
                == crate::publisher::live_edges(normal.publisher.tables.contributions)
                && normal.catalog.segments.len() <= limits.state.bindings
                && normal.catalog.plan_names.len() <= limits.state.plans
        }),
{
}

/// An update is taken only if it claims to be known without a reason, keeps the
/// geometry and stays within its rows; what it builds mirrors the publisher one
/// cut further on.
pub proof fn law_updates_keep_the_geometry(
    before: crate::logical_normalizer::Normal,
    header: WireHeader,
    removed_plans: Seq<String>,
    removed_segments: Seq<String>,
    added_segments: Seq<WireSegment>,
    added_plans: Seq<WirePlan>,
    limits: DecodeLimits,
    mutations: Seq<Mutation>,
)
    requires
        crate::logical_normalizer::updated(
            before,
            header,
            removed_plans,
            removed_segments,
            added_segments,
            added_plans,
            limits,
            mutations,
        ) is Ok,
    ensures
        ({
            let after = crate::logical_normalizer::updated(
                before,
                header,
                removed_plans,
                removed_segments,
                added_segments,
                added_plans,
                limits,
                mutations,
            )->Ok_0;
            &&& header.confidence@ == "known"@ && header.reason@.len() == 0
            &&& header.block_size == before.publisher.profile.block_size
            &&& header.hash_unit == before.publisher.profile.hash_unit
            &&& after.catalog.segments.len() <= header.max_rows
            &&& before.view.confidence == Confidence::Known
            &&& after.view.confidence == Confidence::Known
            &&& after.publisher.cursor == before.publisher.cursor + 1
            &&& after.view.cursor == after.publisher.cursor
            &&& after.view.plans == after.publisher.tables.plans
            &&& after.view.edges == crate::publisher::live_edges(
                after.publisher.tables.contributions,
            )
            &&& after.view.scope == before.publisher.scope
        }),
{
}

/// The material of a declared segment agrees with its span: as many tokens as
/// the span has, a hash for each unit of it, and the last hash is its end.
pub proof fn law_segments_carry_their_whole_material(
    profile: Profile,
    namespace: Seq<char>,
    catalog: Catalog,
    segment: WireSegment,
)
    requires
        profile.is_supported(),
        crate::logical_normalizer::with_segment(profile, namespace, catalog, segment) is Ok,
    ensures
        segment.start < segment.end,
        segment.start as int % profile.block_size as int == 0,
        segment.token_ids@.len() == segment.end - segment.start,
        segment.kind@ == "complete"@ ==> segment.hash_unit == profile.block_size,
        segment.kind@ != "complete"@ ==> segment.hash_unit == profile.hash_unit,
        segment.hashes@.len() * segment.hash_unit == segment.end - segment.start,
        segment.hashes@.len() > 0,
        segment.hashes@.last().0@ == segment.end_hash.0@,
{
    let unit = segment.hash_unit as int;
    let span = segment.end - segment.start;
    vstd::arithmetic::div_mod::lemma_fundamental_div_mod(span, unit);
    assert(unit * (span / unit) == (span / unit) * unit) by (nonlinear_arith);
}

/// The edge at `i` of a declared segment carries the content hash of the tokens
/// of that unit alone, in the namespace.
pub proof fn law_edges_carry_their_own_tokens(
    profile: Profile,
    namespace: Seq<char>,
    catalog: Catalog,
    segment: WireSegment,
    i: int,
)
    requires
        profile.is_supported(),
        crate::logical_normalizer::with_segment(profile, namespace, catalog, segment) is Ok,
        0 <= i < segment.hashes@.len(),
    ensures
        ({
            let op = crate::logical_normalizer::with_segment(
                profile,
                namespace,
                catalog,
                segment,
            )->Ok_0.1;
            let unit = segment.hash_unit as int;
            &&& i * unit + unit <= segment.token_ids@.len()
            &&& op->Cover_1[i].local.0 == crate::block_hash::xxh3_64_seeded(
                crate::block_hash::token_bytes(
                    segment.token_ids@.subrange(i * unit, i * unit + unit),
                ) + crate::block_hash::hash_bytes(Seq::<u64>::empty()),
                crate::block_hash::seed_of(None, Some(encode_utf8(namespace))),
            )
        }),
{
    law_segments_carry_their_whole_material(profile, namespace, catalog, segment);
    let unit = segment.hash_unit as int;
    let n = segment.hashes@.len() as int;
    let len = segment.token_ids@.len() as int;
    crate::producer_laws::law_only_whole_blocks_count(len, unit, unit);
    let count = crate::block_hash::block_count(len, unit, unit);
    assert(i * unit + unit <= n * unit) by (nonlinear_arith)
        requires
            i + 1 <= n,
            unit > 0,
    ;
    assert(i < count) by (nonlinear_arith)
        requires
            count * unit + unit > n * unit,
            i + 1 <= n,
            unit > 0,
    ;
}

/// Every prompt that can be counted is answered by a view in good standing, by
/// the hashes of its own whole blocks and units in the view's namespace.
pub proof fn law_known_views_answer_every_prompt(
    v: crate::logical_view::ViewState,
    tokens: Seq<u32>,
    result: crate::logical_view::QueryResult,
)
    requires
        v.confidence == Confidence::Known,
        v.profile.is_supported(),
        tokens.len() <= u32::MAX,
        crate::logical_normalizer::answers_tokens(v, tokens, result),
    ensures
        result.status == Confidence::Known,
        result.cursor == v.cursor,
        result.eligible_cpu_root_tokens is Some,
        crate::logical_view::matched(
            v,
            tokens.len() as u32,
            crate::logical_normalizer::segment_locals(
                tokens,
                v.profile.block_size,
                v.scope.namespace,
            ),
            crate::logical_normalizer::segment_locals(
                tokens,
                v.profile.hash_unit,
                v.scope.namespace,
            ),
            result,
        ),
{
    lemma_units(tokens.len() as int, v.profile.block_size as int);
    lemma_units(tokens.len() as int, v.profile.hash_unit as int);
}

proof fn lemma_units(len: int, unit: int)
    requires
        unit > 0,
        len >= 0,
    ensures
        crate::block_hash::block_count(len, unit, unit) == len / unit,
{
    let n = crate::block_hash::block_count(len, unit, unit);
    crate::producer_laws::law_only_whole_blocks_count(len, unit, unit);
    vstd::arithmetic::div_mod::lemma_fundamental_div_mod(len, unit);
    vstd::arithmetic::div_mod::lemma_mod_bound(len, unit);
    let q = len / unit;
    let r = len % unit;
    assert(n == q) by (nonlinear_arith)
        requires
            unit > 0,
            n >= 0,
            n > 0 ==> (n - 1) * unit + unit <= len,
            n * unit + unit > len,
            len == unit * q + r,
            0 <= r < unit,
            len >= 0,
    ;
}

/// Coverage under a live identifier is refused if it differs in its binding or
/// in any edge, and a plan if it differs at all.
pub proof fn law_live_coverage_cannot_change(
    profile: Profile,
    limits: Limits,
    t: Tables,
    c: Contribution,
    p: Plan,
)
    ensures
        t.contributions.contains_key(c.binding.id) && (t.contributions[c.binding.id].binding
            != c.binding || t.contributions[c.binding.id].edges@ != c.edges@)
            ==> crate::publisher::mutated(profile, limits, t, Mutation::Coverage(c)) == Err::<
            Tables,
            Confidence,
        >(Confidence::Invalid),
        t.plans.contains_key(p.id) && t.plans[p.id] != p ==> crate::publisher::mutated(
            profile,
            limits,
            t,
            Mutation::Plan(p),
        ) == Err::<Tables, Confidence>(Confidence::Invalid),
{
}

/// No two edges of a well-formed contribution lead to the same child.
pub proof fn law_chains_never_meet_themselves(
    contribution: Contribution,
    profile: Profile,
    i: int,
    j: int,
)
    requires
        crate::publisher::well_formed(contribution, profile),
        0 <= i < j < contribution.edges@.len(),
    ensures
        contribution.edges@[i].child != contribution.edges@[j].child,
{
}

/// A list of mutations is applied one after the other, and the first refusal
/// ends it.
pub proof fn law_mutations_are_applied_in_order(
    profile: Profile,
    limits: Limits,
    t: Tables,
    mutations: Seq<Mutation>,
    next: Mutation,
)
    ensures
        crate::publisher::mutated_by(profile, limits, t, Seq::<Mutation>::empty()) == Ok::<
            Tables,
            Confidence,
        >(t),
        crate::publisher::mutated_by(profile, limits, t, mutations) is Ok
            ==> crate::publisher::mutated_by(profile, limits, t, mutations.push(next))
            == crate::publisher::mutated(
            profile,
            limits,
            crate::publisher::mutated_by(profile, limits, t, mutations)->Ok_0,
            next,
        ),
        crate::publisher::mutated_by(profile, limits, t, mutations) is Err
            ==> crate::publisher::mutated_by(profile, limits, t, mutations.push(next))
            == crate::publisher::mutated_by(profile, limits, t, mutations),
{
    assert(mutations.push(next).drop_last() =~= mutations);
}

/// What additions have added is there at the end.
proof fn lemma_additions_stay(
    profile: Profile,
    limits: Limits,
    t: Tables,
    mutations: Seq<Mutation>,
    i: int,
)
    requires
        crate::publisher::mutated_by(profile, limits, t, mutations) is Ok,
        forall|k: int|
            0 <= k < mutations.len() ==> (#[trigger] mutations[k]) is Coverage
                || mutations[k] is Plan,
        0 <= i < mutations.len(),
    ensures
        ({
            let after = crate::publisher::mutated_by(profile, limits, t, mutations)->Ok_0;
            match mutations[i] {
                Mutation::Coverage(c) => {
                    &&& after.contributions.contains_key(c.binding.id)
                    &&& after.contributions[c.binding.id].binding == c.binding
                    &&& after.contributions[c.binding.id].edges@ == c.edges@
                },
                Mutation::Plan(p) => after.plans.contains_key(p.id) && after.plans[p.id] == p,
                _ => true,
            }
        }),
    decreases mutations.len(),
{
    let front = mutations.drop_last();
    assert(mutations.last() == mutations[mutations.len() - 1]);
    assert forall|k: int| 0 <= k < front.len() implies (#[trigger] front[k]) is Coverage
        || front[k] is Plan by {
        assert(front[k] == mutations[k]);
    }
    if i < front.len() {
        assert(front[i] == mutations[i]);
        lemma_additions_stay(profile, limits, t, front, i);
    }
}

proof fn lemma_cover_ops(
    profile: Profile,
    namespace: Seq<char>,
    catalog: Catalog,
    segments: Seq<WireSegment>,
    i: int,
)
    requires
        crate::logical_normalizer::covered_by(profile, namespace, catalog, segments) is Ok,
        0 <= i < segments.len(),
    ensures
        ({
            let ops = crate::logical_normalizer::covered_by(
                profile,
                namespace,
                catalog,
                segments,
            )->Ok_0.1;
            &&& ops.len() == segments.len()
            &&& ops[i] is Cover
            &&& ops[i]->Cover_0.id == crate::block_hash::xxh3_64_of(encode_utf8(segments[i].id@))
            &&& ops[i]->Cover_0.start == segments[i].start
            &&& ops[i]->Cover_0.end == segments[i].end
        }),
    decreases segments.len(),
{
    lemma_covers(profile, namespace, catalog, segments.drop_last());
    if i < segments.len() - 1 {
        lemma_cover_ops(profile, namespace, catalog, segments.drop_last(), i);
        assert(segments.drop_last()[i] == segments[i]);
    } else {
        assert(segments.last() == segments[i]);
    }
}

proof fn lemma_declare_ops(catalog: Catalog, plans: Seq<WirePlan>, i: int)
    requires
        crate::logical_normalizer::declared_by(catalog, plans) is Ok,
        0 <= i < plans.len(),
    ensures
        ({
            let ops = crate::logical_normalizer::declared_by(catalog, plans)->Ok_0.1;
            &&& ops.len() == plans.len()
            &&& ops[i] is Declare
            &&& ops[i]->Declare_0.id == crate::block_hash::xxh3_64_of(encode_utf8(plans[i].id@))
            &&& ops[i]->Declare_0.end == plans[i].end
            &&& ops[i]->Declare_0.minimum_prompt_tokens == plans[i].minimum_prompt_tokens
        }),
    decreases plans.len(),
{
    lemma_declarations(catalog, plans.drop_last());
    if i < plans.len() - 1 {
        lemma_declare_ops(catalog, plans.drop_last(), i);
        assert(plans.drop_last()[i] == plans[i]);
    } else {
        assert(plans.last() == plans[i]);
    }
}

/// The operations of a snapshot cover its segments, in order, and then declare
/// its plans.
proof fn lemma_snapshot_ops(
    header: WireHeader,
    namespace: Seq<char>,
    segments: Seq<WireSegment>,
    plans: Seq<WirePlan>,
    k: int,
)
    requires
        header.confidence@ == "known"@,
        header.reason@.len() == 0,
        crate::logical_normalizer::catalogued(
            crate::logical_normalizer::profile_of(header),
            namespace,
            Catalog::empty(),
            Seq::empty(),
            Seq::empty(),
            segments,
            plans,
        ) is Ok,
        0 <= k < segments.len() + plans.len(),
    ensures
        ({
            let ops = crate::logical_normalizer::snapshot_ops(header, namespace, segments, plans);
            &&& ops.len() == segments.len() + plans.len()
            &&& k < segments.len() ==> {
                &&& ops[k] is Cover
                &&& ops[k]->Cover_0.id == crate::block_hash::xxh3_64_of(
                    encode_utf8(segments[k].id@),
                )
                &&& ops[k]->Cover_0.start == segments[k].start
                &&& ops[k]->Cover_0.end == segments[k].end
            }
            &&& k >= segments.len() ==> {
                let plan = plans[k - segments.len()];
                &&& ops[k] is Declare
                &&& ops[k]->Declare_0.id == crate::block_hash::xxh3_64_of(encode_utf8(plan.id@))
                &&& ops[k]->Declare_0.end == plan.end
                &&& ops[k]->Declare_0.minimum_prompt_tokens == plan.minimum_prompt_tokens
            }
        }),
{
    let profile = crate::logical_normalizer::profile_of(header);
    let none = Seq::<String>::empty();
    assert(crate::logical_normalizer::withdrawn(Catalog::empty(), none) == (
        Catalog::empty(),
        Seq::<crate::logical_normalizer::Op>::empty(),
    ));
    assert(crate::logical_normalizer::retired(Catalog::empty(), none) == (
        Catalog::empty(),
        Seq::<crate::logical_normalizer::Op>::empty(),
    ));
    let (third, cover) = crate::logical_normalizer::covered_by(
        profile,
        namespace,
        Catalog::empty(),
        segments,
    )->Ok_0;
    let declare = crate::logical_normalizer::declared_by(third, plans)->Ok_0.1;
    let ops = crate::logical_normalizer::snapshot_ops(header, namespace, segments, plans);
    lemma_covers(profile, namespace, Catalog::empty(), segments);
    lemma_declarations(third, plans);
    assert(ops =~= cover + declare);
    if k < segments.len() {
        lemma_cover_ops(profile, namespace, Catalog::empty(), segments, k);
    } else {
        lemma_declare_ops(third, plans, k - segments.len());
    }
}

/// Everything that an accepted snapshot declares is live in the view that it
/// builds: each segment under its name with its span, and each plan under its
/// name with its end.
pub proof fn law_accepted_snapshots_are_live(
    header: WireHeader,
    segments: Seq<WireSegment>,
    plans: Seq<WirePlan>,
    owner: ResidencyOwner,
    namespace: Seq<char>,
    limits: DecodeLimits,
    mutations: Seq<Mutation>,
    k: int,
)
    requires
        header.confidence@ == "known"@,
        crate::logical_normalizer::built(
            header,
            segments,
            plans,
            owner,
            namespace,
            limits,
            mutations,
        ) is Ok,
        crate::logical_normalizer::spells_all(
            mutations,
            crate::logical_normalizer::snapshot_ops(header, namespace, segments, plans),
        ),
        0 <= k < segments.len() + plans.len(),
    ensures
        ({
            let view = crate::logical_normalizer::built(
                header,
                segments,
                plans,
                owner,
                namespace,
                limits,
                mutations,
            )->Ok_0.view;
            &&& k < segments.len() ==> {
                let id = crate::block_hash::xxh3_64_of(encode_utf8(segments[k].id@));
                &&& view.bindings.contains_key(id)
                &&& view.bindings[id].start == segments[k].start
                &&& view.bindings[id].end == segments[k].end
            }
            &&& k >= segments.len() ==> {
                let plan = plans[k - segments.len()];
                let id = crate::block_hash::xxh3_64_of(encode_utf8(plan.id@));
                &&& view.plans.contains_key(id)
                &&& view.plans[id].end == plan.end
                &&& view.plans[id].minimum_prompt_tokens == plan.minimum_prompt_tokens
            }
        }),
{
    let ops = crate::logical_normalizer::snapshot_ops(header, namespace, segments, plans);
    let start = crate::logical_normalizer::fresh(
        crate::logical_normalizer::profile_of(header),
        crate::logical_normalizer::scope_of(header, owner, namespace),
        limits.state,
    );
    lemma_snapshot_ops(header, namespace, segments, plans, k);
    assert forall|j: int| 0 <= j < mutations.len() implies (#[trigger] mutations[j]) is Coverage
        || mutations[j] is Plan by {
        lemma_snapshot_ops(header, namespace, segments, plans, j);
        assert(crate::logical_normalizer::spells(mutations[j], ops[j]));
    }
    assert(crate::logical_normalizer::spells(mutations[k], ops[k]));
    let publisher = start.publisher;
    assert(publisher.applied(1, mutations).confidence == Confidence::Known);
    lemma_refusal_is_no_knowledge(
        publisher.profile,
        publisher.limits,
        publisher.tables,
        mutations,
    );
    assert(crate::publisher::mutated_by(
        publisher.profile,
        publisher.limits,
        publisher.tables,
        mutations,
    ) is Ok);
    lemma_additions_stay(
        publisher.profile,
        publisher.limits,
        publisher.tables,
        mutations,
        k,
    );
}

proof fn lemma_refusal_is_no_knowledge(
    profile: Profile,
    limits: Limits,
    t: Tables,
    mutations: Seq<Mutation>,
)
    ensures
        crate::publisher::mutated_by(profile, limits, t, mutations) != Err::<Tables, Confidence>(
            Confidence::Known,
        ),
    decreases mutations.len(),
{
    if mutations.len() > 0 {
        lemma_refusal_is_no_knowledge(profile, limits, t, mutations.drop_last());
    }
}

} // verus!
