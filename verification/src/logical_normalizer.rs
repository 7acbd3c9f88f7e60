//! Turns the cuts of one epoch into mutations of a logical view.
//!
//! Native identities and declared names are kept for the whole epoch, because
//! an update names bindings that an earlier cut introduced.

use crate::block_hash::BlockHashOptions;
use crate::id_map::IdMap;
use crate::logical::{
    Binding, Confidence, Contribution, CoverageRole, Edge, Limits, Mutation, Plan, Profile, Scope,
    ScopeView, Snapshot,
};
use crate::logical_view::{LogicalView, Query, QueryResult, ViewState};
use crate::logical_wire::{
    Cut, DecodeLimits, LogicalDecodeError, NativeHash, WireHeader, WirePayload, WirePlan,
    WireSegment,
};
use crate::protocols::{ExternalSequenceBlockHash, LocalBlockHash, ResidencyOwner};
use crate::publisher::{Publisher, PublisherState, Tables};
use vstd::prelude::*;
use vstd::utf8::*;

verus! {

/// The compact identity of some bytes.
pub open spec fn identity(bytes: Seq<u8>) -> u64 {
    crate::block_hash::xxh3_64_of(bytes)
}

/// The identity of a name.
pub open spec fn name_id(name: Seq<char>) -> u64 {
    identity(encode_utf8(name))
}

/// The identities after one more was given out. Two byte strings must never
/// share an identity.
pub open spec fn interned(table: Map<u64, Seq<u8>>, bytes: Seq<u8>) -> Result<
    Map<u64, Seq<u8>>,
    LogicalDecodeError,
> {
    if bytes.len() == 0 || bytes.len() > 1024 {
        Err(LogicalDecodeError::Identity)
    } else if table.contains_key(identity(bytes)) && table[identity(bytes)] != bytes {
        Err(LogicalDecodeError::Collision)
    } else {
        Ok(table.insert(identity(bytes), bytes))
    }
}

/// The identities after an optional one.
pub open spec fn interned_optional(table: Map<u64, Seq<u8>>, hash: Option<NativeHash>) -> Result<
    Map<u64, Seq<u8>>,
    LogicalDecodeError,
> {
    match hash {
        Some(hash) => interned(table, hash.0@),
        None => Ok(table),
    }
}

/// The identities after several, in order.
pub open spec fn interned_all(table: Map<u64, Seq<u8>>, hashes: Seq<NativeHash>) -> Result<
    Map<u64, Seq<u8>>,
    LogicalDecodeError,
>
    decreases hashes.len(),
{
    if hashes.len() == 0 {
        Ok(table)
    } else {
        match interned_all(table, hashes.drop_last()) {
            Ok(before) => interned(before, hashes.last().0@),
            Err(error) => Err(error),
        }
    }
}

/// The identity of an optional hash.
pub open spec fn optional_identity(hash: Option<NativeHash>) -> Option<ExternalSequenceBlockHash> {
    match hash {
        Some(hash) => Some(ExternalSequenceBlockHash(identity(hash.0@))),
        None => None,
    }
}

/// A declared segment.
pub ghost struct SegmentEntry {
    pub binding: Binding,
    pub end_hash: Seq<u8>,
}

/// The names and identities of an epoch.
pub ghost struct Catalog {
    /// The native hashes by identity.
    pub hashes: Map<u64, Seq<u8>>,
    /// The declared names by identity.
    pub ids: Map<u64, Seq<u8>>,
    /// The declared segments, by the identity of their names.
    pub segments: Map<u64, SegmentEntry>,
    /// The segment of each declared plan.
    pub plans: Map<u64, u64>,
    pub plan_names: Map<u64, Seq<char>>,
}

impl Catalog {
    pub open spec fn empty() -> Catalog {
        Catalog {
            hashes: Map::empty(),
            ids: Map::empty(),
            segments: Map::empty(),
            plans: Map::empty(),
            plan_names: Map::empty(),
        }
    }

    /// The name is the one that its identity was given to.
    pub open spec fn knows(self, name: Seq<char>) -> bool {
        self.ids.contains_key(name_id(name)) && self.ids[name_id(name)] == encode_utf8(name)
    }

    pub open spec fn has_segment(self, name: Seq<char>) -> bool {
        self.knows(name) && self.segments.contains_key(name_id(name))
    }

    pub open spec fn has_plan(self, name: Seq<char>) -> bool {
        self.knows(name) && self.plans.contains_key(name_id(name))
    }

    /// Every plan has a name and belongs to a declared segment.
    pub open spec fn ok(self) -> bool {
        &&& self.plans.dom() == self.plan_names.dom()
        &&& forall|id: u64| #[trigger]
            self.plans.contains_key(id) ==> self.segments.contains_key(self.plans[id])
        &&& forall|id: u64| #[trigger]
            self.segments.contains_key(id) ==> self.segments[id].binding.id == id
    }
}

/// A mutation, as a plain value.
pub ghost enum Op {
    Cover(Binding, Seq<Edge>),
    Uncover(u64),
    Declare(Plan),
    Withdraw(u64),
}

/// `mutation` does what `op` says.
pub open spec fn spells(mutation: Mutation, op: Op) -> bool {
    match op {
        Op::Cover(binding, edges) => mutation is Coverage && mutation->Coverage_0.binding
            == binding && mutation->Coverage_0.edges@ == edges,
        Op::Uncover(id) => mutation == Mutation::RemoveCoverage(id),
        Op::Declare(plan) => mutation == Mutation::Plan(plan),
        Op::Withdraw(id) => mutation == Mutation::RemovePlan(id),
    }
}

/// The mutations do what the operations say, in order.
pub open spec fn spells_all(mutations: Seq<Mutation>, ops: Seq<Op>) -> bool {
    &&& mutations.len() == ops.len()
    &&& forall|i: int| 0 <= i < ops.len() ==> spells(#[trigger] mutations[i], ops[i])
}

/// The role that a kind names.
pub open spec fn role_of(kind: Seq<char>) -> Option<CoverageRole> {
    if kind == "complete"@ {
        Some(CoverageRole::Prefix)
    } else if kind == "tail"@ {
        Some(CoverageRole::Tail)
    } else {
        None
    }
}

/// The segment's span, material and identities agree with each other.
pub open spec fn good_material(profile: Profile, segment: WireSegment, role: CoverageRole) -> bool {
    let unit = profile.unit_of(role);
    let span = segment.end - segment.start;
    &&& segment.start < segment.end
    &&& segment.hash_unit == unit
    &&& segment.start as int % profile.block_size as int == 0
    &&& segment.token_ids@.len() == span
    &&& segment.hashes@.len() == span / unit as int
    &&& span % unit as int == 0
    &&& segment.hashes@.len() > 0
    &&& segment.hashes@.last().0@ == segment.end_hash.0@
}

/// The binding of a segment.
pub open spec fn segment_binding(segment: WireSegment, role: CoverageRole) -> Binding {
    Binding {
        id: name_id(segment.id@),
        role,
        start: segment.start as u32,
        end: segment.end as u32,
        parent: optional_identity(segment.parent_hash),
        child: ExternalSequenceBlockHash(identity(segment.end_hash.0@)),
    }
}

/// The content hashes of a segment's blocks, in its namespace.
pub open spec fn segment_locals(
    tokens: Seq<u32>,
    unit: u32,
    namespace: Seq<char>,
) -> Seq<LocalBlockHash> {
    crate::block_hash::locals_with(
        tokens,
        unit,
        unit as int,
        |i: int| Seq::empty(),
        crate::block_hash::seed_of(None, Some(encode_utf8(namespace))),
    )
}

/// The edges of a segment: native identities, joined by the content hashes of
/// the tokens between them.
pub open spec fn segment_edges(
    segment: WireSegment,
    role: CoverageRole,
    locals: Seq<LocalBlockHash>,
) -> Seq<Edge> {
    Seq::new(
        segment.hashes@.len(),
        |i: int|
            Edge {
                role,
                parent: if i == 0 {
                    optional_identity(segment.parent_hash)
                } else {
                    Some(ExternalSequenceBlockHash(identity(segment.hashes@[i - 1].0@)))
                },
                local: locals[i],
                child: ExternalSequenceBlockHash(identity(segment.hashes@[i].0@)),
            },
    )
}

/// What declaring a segment makes of the catalog.
pub open spec fn with_segment(
    profile: Profile,
    namespace: Seq<char>,
    catalog: Catalog,
    segment: WireSegment,
) -> Result<(Catalog, Op), LogicalDecodeError> {
    if role_of(segment.kind@) is None {
        Err(LogicalDecodeError::Kind)
    } else if segment.start > u32::MAX || segment.end > u32::MAX {
        Err(LogicalDecodeError::Position)
    } else {
        let role = role_of(segment.kind@)->Some_0;
        let id = name_id(segment.id@);
        let binding = segment_binding(segment, role);
        if !good_material(profile, segment, role) {
            Err(LogicalDecodeError::SegmentMaterial)
        } else {
            match interned(catalog.ids, encode_utf8(segment.id@)) {
                Err(error) => Err(error),
                Ok(ids) => match interned_optional(catalog.hashes, segment.parent_hash) {
                    Err(error) => Err(error),
                    Ok(first) => match interned(first, segment.end_hash.0@) {
                        Err(error) => Err(error),
                        Ok(second) => match interned_all(second, segment.hashes@) {
                            Err(error) => Err(error),
                            Ok(hashes) => if catalog.segments.contains_key(id) {
                                Err(LogicalDecodeError::DuplicateSegment)
                            } else {
                                Ok(
                                    (
                                        Catalog {
                                            hashes,
                                            ids,
                                            segments: catalog.segments.insert(
                                                id,
                                                SegmentEntry {
                                                    binding,
                                                    end_hash: segment.end_hash.0@,
                                                },
                                            ),
                                            ..catalog
                                        },
                                        Op::Cover(
                                            binding,
                                            segment_edges(
                                                segment,
                                                role,
                                                segment_locals(
                                                    segment.token_ids@,
                                                    profile.unit_of(role),
                                                    namespace,
                                                ),
                                            ),
                                        ),
                                    ),
                                )
                            },
                        },
                    },
                },
            }
        }
    }
}

/// What declaring a plan makes of the catalog.
pub open spec fn with_plan(catalog: Catalog, plan: WirePlan) -> Result<
    (Catalog, Op),
    LogicalDecodeError,
> {
    let segment = name_id(plan.binding@);
    let id = name_id(plan.id@);
    if !catalog.has_segment(plan.binding@) {
        Err(LogicalDecodeError::MissingBinding)
    } else if role_of(plan.kind@) is None {
        Err(LogicalDecodeError::Kind)
    } else {
        let entry = catalog.segments[segment];
        if role_of(plan.kind@) != Some(entry.binding.role) || (entry.binding.role
            == CoverageRole::Tail && plan.terminal_hash.0@ != entry.end_hash) {
            Err(LogicalDecodeError::PlanMismatch)
        } else {
            match interned(catalog.ids, encode_utf8(plan.id@)) {
                Err(error) => Err(error),
                Ok(ids) => if catalog.plan_names.contains_key(id) {
                    Err(LogicalDecodeError::DuplicatePlan)
                } else {
                    match interned(catalog.hashes, plan.terminal_hash.0@) {
                        Err(error) => Err(error),
                        Ok(first) => if plan.end > u32::MAX || plan.anchor > u32::MAX {
                            Err(LogicalDecodeError::Position)
                        } else {
                            match interned_optional(first, plan.anchor_hash) {
                                Err(error) => Err(error),
                                Ok(hashes) => if plan.minimum_prompt_tokens > u32::MAX {
                                    Err(LogicalDecodeError::Position)
                                } else {
                                    Ok(
                                        (
                                            Catalog {
                                                hashes,
                                                ids,
                                                plans: catalog.plans.insert(id, segment),
                                                plan_names: catalog.plan_names.insert(
                                                    id,
                                                    plan.id@,
                                                ),
                                                ..catalog
                                            },
                                            Op::Declare(
                                                Plan {
                                                    id,
                                                    binding: segment,
                                                    end: plan.end as u32,
                                                    anchor_end: plan.anchor as u32,
                                                    anchor: optional_identity(plan.anchor_hash),
                                                    minimum_prompt_tokens:
                                                        plan.minimum_prompt_tokens as u32,
                                                },
                                            ),
                                        ),
                                    )
                                },
                            }
                        },
                    }
                },
            }
        }
    }
}

/// The plans of a segment.
pub open spec fn plans_under(plans: Map<u64, u64>, segment: u64) -> Set<u64> {
    Set::new(|id: u64| plans.contains_key(id) && plans[id] == segment)
}

/// What retiring a segment makes of the catalog: its plans' names go with it.
pub open spec fn without_segment(catalog: Catalog, name: Seq<char>) -> Catalog {
    let id = name_id(name);
    if catalog.has_segment(name) {
        Catalog {
            segments: catalog.segments.remove(id),
            plans: catalog.plans.remove_keys(plans_under(catalog.plans, id)),
            plan_names: catalog.plan_names.remove_keys(plans_under(catalog.plans, id)),
            ..catalog
        }
    } else {
        catalog
    }
}

/// What withdrawing a plan makes of the catalog.
pub open spec fn without_plan(catalog: Catalog, name: Seq<char>) -> Catalog {
    if catalog.has_plan(name) {
        Catalog {
            plans: catalog.plans.remove(name_id(name)),
            plan_names: catalog.plan_names.remove(name_id(name)),
            ..catalog
        }
    } else {
        catalog
    }
}

/// The catalog after plans were withdrawn, and what that asks of the view.
pub open spec fn withdrawn(catalog: Catalog, names: Seq<String>) -> (Catalog, Seq<Op>)
    decreases names.len(),
{
    if names.len() == 0 {
        (catalog, Seq::empty())
    } else {
        let (before, ops) = withdrawn(catalog, names.drop_last());
        let name = names.last()@;
        (
            without_plan(before, name),
            if before.has_plan(name) {
                ops.push(Op::Withdraw(name_id(name)))
            } else {
                ops
            },
        )
    }
}

/// The catalog after segments were retired, and what that asks of the view.
pub open spec fn retired(catalog: Catalog, names: Seq<String>) -> (Catalog, Seq<Op>)
    decreases names.len(),
{
    if names.len() == 0 {
        (catalog, Seq::empty())
    } else {
        let (before, ops) = retired(catalog, names.drop_last());
        let name = names.last()@;
        (
            without_segment(before, name),
            if before.has_segment(name) {
                ops.push(Op::Uncover(name_id(name)))
            } else {
                ops
            },
        )
    }
}

/// The catalog after segments were declared.
pub open spec fn covered_by(
    profile: Profile,
    namespace: Seq<char>,
    catalog: Catalog,
    segments: Seq<WireSegment>,
) -> Result<(Catalog, Seq<Op>), LogicalDecodeError>
    decreases segments.len(),
{
    if segments.len() == 0 {
        Ok((catalog, Seq::empty()))
    } else {
        match covered_by(profile, namespace, catalog, segments.drop_last()) {
            Err(error) => Err(error),
            Ok((before, ops)) => match with_segment(
                profile,
                namespace,
                before,
                segments.last(),
            ) {
                Err(error) => Err(error),
                Ok((after, op)) => Ok((after, ops.push(op))),
            },
        }
    }
}

/// The catalog after plans were declared.
pub open spec fn declared_by(catalog: Catalog, plans: Seq<WirePlan>) -> Result<
    (Catalog, Seq<Op>),
    LogicalDecodeError,
>
    decreases plans.len(),
{
    if plans.len() == 0 {
        Ok((catalog, Seq::empty()))
    } else {
        match declared_by(catalog, plans.drop_last()) {
            Err(error) => Err(error),
            Ok((before, ops)) => match with_plan(before, plans.last()) {
                Err(error) => Err(error),
                Ok((after, op)) => Ok((after, ops.push(op))),
            },
        }
    }
}

fn same_bytes(one: &[u8], other: &[u8]) -> (same: bool)
    ensures
        same == (one@ == other@),
{
    if one.len() != other.len() {
        return false;
    }
    let mut i: usize = 0;
    while i < one.len()
        invariant
            i <= one@.len(),
            one@.len() == other@.len(),
            forall|j: int| 0 <= j < i ==> one@[j] == other@[j],
        decreases one@.len() - i,
    {
        if one[i] != other[i] {
            assert(one@[i as int] != other@[i as int]);
            return false;
        }
        i = i + 1;
    }
    assert(one@ =~= other@);
    true
}

fn bytes_of(bytes: &[u8]) -> (copy: Vec<u8>)
    ensures
        copy@ == bytes@,
{
    let mut copy: Vec<u8> = Vec::new();
    copy.extend_from_slice(bytes);
    assert(copy@ =~= bytes@);
    copy
}

/// Keeps full byte identity: compact hashes are only admitted while no two
/// byte strings share one. Interning is a function of the bytes alone, so
/// identities stay stable across the cuts of one epoch; the retained table only
/// exists to detect a collision.
struct Identities {
    table: IdMap<Vec<u8>>,
}

impl View for Identities {
    type V = Map<u64, Seq<u8>>;

    closed spec fn view(&self) -> Map<u64, Seq<u8>> {
        Map::new(|id: u64| self.table@.contains_key(id), |id: u64| self.table@[id]@)
    }
}

impl Identities {
    fn new() -> (s: Self)
        ensures
            s@ == Map::<u64, Seq<u8>>::empty(),
    {
        let s = Identities { table: IdMap::new() };
        assert(s@ =~= Map::<u64, Seq<u8>>::empty());
        s
    }

    fn len(&self) -> (n: usize)
        ensures
            n == self@.len(),
    {
        assert(self@.dom() =~= self.table@.dom());
        self.table.len()
    }

    fn intern(&mut self, bytes: &[u8]) -> (id: Result<u64, LogicalDecodeError>)
        ensures
            match interned(old(self)@, bytes@) {
                Ok(after) => id is Ok && id->Ok_0 == identity(bytes@) && final(self)@ == after,
                Err(error) => id is Err && id->Err_0 == error,
            },
    {
        if bytes.len() == 0 || bytes.len() > 1024 {
            return Err(LogicalDecodeError::Identity);
        }
        let id: u64 = crate::block_hash::xxh3_64(bytes);
        let ghost before = self.table@;
        let previous = self.table.insert(id, bytes_of(bytes));
        if let Some(previous) = previous {
            if !same_bytes(previous.as_slice(), bytes) {
                return Err(LogicalDecodeError::Collision);
            }
        }
        proof {
            let target = interned(old(self)@, bytes@)->Ok_0;
            assert(self@ =~= target);
        }
        Ok(id)
    }

    fn optional(&mut self, hash: &Option<NativeHash>) -> (id: Result<
        Option<ExternalSequenceBlockHash>,
        LogicalDecodeError,
    >)
        ensures
            match interned_optional(old(self)@, *hash) {
                Ok(after) => id is Ok && id->Ok_0 == optional_identity(*hash) && final(self)@
                    == after,
                Err(error) => id is Err && id->Err_0 == error,
            },
    {
        match hash {
            Some(hash) => match self.intern(hash.0.as_slice()) {
                Ok(id) => Ok(Some(ExternalSequenceBlockHash(id))),
                Err(error) => Err(error),
            },
            None => Ok(None),
        }
    }

    /// Whether the identity of `bytes` was given to just these bytes.
    fn knows(&self, bytes: &[u8]) -> (id: Option<u64>)
        ensures
            id is Some <==> self@.contains_key(identity(bytes@)) && self@[identity(bytes@)]
                == bytes@,
            id is Some ==> id->Some_0 == identity(bytes@),
    {
        let id: u64 = crate::block_hash::xxh3_64(bytes);
        match self.table.get(id) {
            Some(held) => if same_bytes(held.as_slice(), bytes) {
                Some(id)
            } else {
                None
            },
            None => None,
        }
    }
}

/// A declared segment, as it is kept.
struct SegmentRecord {
    binding: Binding,
    end_hash: Vec<u8>,
}

/// The names and identities of an epoch, as they are kept.
struct Names {
    hashes: Identities,
    ids: Identities,
    segments: IdMap<SegmentRecord>,
    plan_names: IdMap<String>,
    plan_segments: IdMap<u64>,
    // By segment: retiring a row is then a lookup rather than a scan of the
    // whole plan table.
    plans_by_segment: IdMap<Vec<u64>>,
}

/// The lists of plans by segment are the plans, grouped.
spec fn grouped(groups: Map<u64, Vec<u64>>, plans: Map<u64, u64>) -> bool {
    &&& forall|segment: u64| #[trigger]
        groups.contains_key(segment) ==> groups[segment]@.no_duplicates()
            && groups[segment]@.to_set() == plans_under(plans, segment)
    &&& forall|id: u64| #[trigger] plans.contains_key(id) ==> groups.contains_key(plans[id])
}

impl Names {
    spec fn catalog(&self) -> Catalog {
        Catalog {
            hashes: self.hashes@,
            ids: self.ids@,
            segments: Map::new(
                |id: u64| self.segments@.contains_key(id),
                |id: u64|
                    SegmentEntry {
                        binding: self.segments@[id].binding,
                        end_hash: self.segments@[id].end_hash@,
                    },
            ),
            plans: self.plan_segments@,
            plan_names: Map::new(
                |id: u64| self.plan_names@.contains_key(id),
                |id: u64| self.plan_names@[id]@,
            ),
        }
    }

    spec fn wf(&self) -> bool {
        &&& self.catalog().ok()
        &&& grouped(self.plans_by_segment@, self.plan_segments@)
    }

    fn new() -> (s: Self)
        ensures
            s.wf(),
            s.catalog() == Catalog::empty(),
    {
        let s = Names {
            hashes: Identities::new(),
            ids: Identities::new(),
            segments: IdMap::new(),
            plan_names: IdMap::new(),
            plan_segments: IdMap::new(),
            plans_by_segment: IdMap::new(),
        };
        proof {
            assert(s.catalog().segments =~= Map::<u64, SegmentEntry>::empty());
            assert(s.catalog().plan_names =~= Map::<u64, Seq<char>>::empty());
            assert(s.catalog().plans =~= Map::<u64, u64>::empty());
            assert(s.catalog().plans.dom() =~= s.catalog().plan_names.dom());
        }
        s
    }
}

/// The position as it is kept.
fn position(value: u64) -> (at: Result<u32, LogicalDecodeError>)
    ensures
        value <= u32::MAX ==> at == Ok::<u32, LogicalDecodeError>(value as u32),
        value > u32::MAX ==> at is Err && at->Err_0 == LogicalDecodeError::Position,
{
    if value <= u32::MAX as u64 {
        Ok(value as u32)
    } else {
        Err(LogicalDecodeError::Position)
    }
}

fn role(kind: &str) -> (role: Result<CoverageRole, LogicalDecodeError>)
    ensures
        match role_of(kind@) {
            Some(r) => role == Ok::<CoverageRole, LogicalDecodeError>(r),
            None => role is Err && role->Err_0 == LogicalDecodeError::Kind,
        },
{
    if crate::text::same_text(kind, "complete") {
        Ok(CoverageRole::Prefix)
    } else if crate::text::same_text(kind, "tail") {
        Ok(CoverageRole::Tail)
    } else {
        Err(LogicalDecodeError::Kind)
    }
}

fn material_fits(
    profile: Profile,
    segment: &WireSegment,
    role: CoverageRole,
    start: u32,
    end: u32,
) -> (fits: bool)
    requires
        profile.is_supported(),
        start == segment.start,
        end == segment.end,
    ensures
        fits == good_material(profile, *segment, role),
{
    let unit: u32 = profile.unit(role);
    if start >= end {
        return false;
    }
    let span: u32 = end - start;
    if segment.hash_unit != unit || start % profile.block_size != 0 || segment.token_ids.len()
        != span as usize || segment.hashes.len() != (span / unit) as usize || span % unit != 0 {
        return false;
    }
    if segment.hashes.len() == 0 {
        return false;
    }
    same_bytes(
        segment.hashes[segment.hashes.len() - 1].0.as_slice(),
        segment.end_hash.0.as_slice(),
    )
}

/// A token sequence of whole blocks has one content hash per block.
proof fn lemma_whole_blocks(len: int, unit: int)
    requires
        unit > 0,
        len > 0,
        len % unit == 0,
    ensures
        crate::block_hash::block_count(len, unit, unit) == len / unit,
{
    assert(len >= unit) by (nonlinear_arith)
        requires
            unit > 0,
            len > 0,
            len % unit == 0,
    ;
    assert((len - unit) / unit + 1 == len / unit) by (nonlinear_arith)
        requires
            unit > 0,
            len >= unit,
    ;
}

impl Names {
    /// Interns the hashes along a segment and joins them into edges.
    fn edges(
        &mut self,
        segment: &WireSegment,
        kind: CoverageRole,
        first: Option<ExternalSequenceBlockHash>,
        locals: &Vec<LocalBlockHash>,
    ) -> (edges: Result<Vec<Edge>, LogicalDecodeError>)
        requires
            first == optional_identity(segment.parent_hash),
            locals@.len() == segment.hashes@.len(),
        ensures
            final(self).ids == old(self).ids,
            final(self).segments == old(self).segments,
            final(self).plan_names == old(self).plan_names,
            final(self).plan_segments == old(self).plan_segments,
            final(self).plans_by_segment == old(self).plans_by_segment,
            match interned_all(old(self).hashes@, segment.hashes@) {
                Ok(after) => edges is Ok && final(self).hashes@ == after && edges->Ok_0@
                    == segment_edges(*segment, kind, locals@),
                Err(error) => edges is Err && edges->Err_0 == error,
            },
    {
        let ghost start = self.hashes@;
        let ghost target = segment_edges(*segment, kind, locals@);
        let mut parent: Option<ExternalSequenceBlockHash> = first;
        let mut edges: Vec<Edge> = Vec::new();
        let mut i: usize = 0;
        while i < segment.hashes.len()
            invariant
                i <= segment.hashes@.len(),
                locals@.len() == segment.hashes@.len(),
                target == segment_edges(*segment, kind, locals@),
                self.ids == old(self).ids,
                self.segments == old(self).segments,
                self.plan_names == old(self).plan_names,
                self.plan_segments == old(self).plan_segments,
                self.plans_by_segment == old(self).plans_by_segment,
                start == old(self).hashes@,
                interned_all(start, segment.hashes@.take(i as int)) == Ok::<
                    Map<u64, Seq<u8>>,
                    LogicalDecodeError,
                >(self.hashes@),
                parent == (if i == 0 {
                    optional_identity(segment.parent_hash)
                } else {
                    Some(ExternalSequenceBlockHash(identity(segment.hashes@[i - 1].0@)))
                }),
                edges@ == target.take(i as int),
            decreases segment.hashes@.len() - i,
        {
            let ghost upto = segment.hashes@.take(i + 1);
            assert(upto.drop_last() =~= segment.hashes@.take(i as int));
            let child = match self.hashes.intern(segment.hashes[i].0.as_slice()) {
                Ok(id) => ExternalSequenceBlockHash(id),
                Err(error) => {
                    proof {
                        lemma_intern_error_sticks(start, segment.hashes@, i + 1);
                    }
                    return Err(error);
                },
            };
            edges.push(Edge { role: kind, parent, local: locals[i], child });
            assert(edges@ =~= target.take(i + 1));
            parent = Some(child);
            i = i + 1;
        }
        proof {
            assert(segment.hashes@.take(segment.hashes@.len() as int) =~= segment.hashes@);
            assert(target.take(target.len() as int) =~= target);
        }
        Ok(edges)
    }

    /// Declares a segment.
    fn segment(&mut self, profile: Profile, namespace: &str, segment: &WireSegment) -> (mutation:
        Result<Mutation, LogicalDecodeError>)
        requires
            profile.is_supported(),
            old(self).wf(),
        ensures
            match with_segment(profile, namespace@, old(self).catalog(), *segment) {
                Ok((catalog, op)) => mutation is Ok && spells(mutation->Ok_0, op)
                    && final(self).wf() && final(self).catalog() == catalog,
                Err(error) => mutation is Err && mutation->Err_0 == error,
            },
    {
        let ghost before = self.catalog();
        let kind = match role(segment.kind.as_str()) {
            Ok(kind) => kind,
            Err(error) => {
                return Err(error);
            },
        };
        let start: u32 = match position(segment.start) {
            Ok(start) => start,
            Err(error) => {
                return Err(error);
            },
        };
        let end: u32 = match position(segment.end) {
            Ok(end) => end,
            Err(error) => {
                return Err(error);
            },
        };
        let unit: u32 = profile.unit(kind);
        if !material_fits(profile, segment, kind, start, end) {
            return Err(LogicalDecodeError::SegmentMaterial);
        }
        let id: u64 = match self.ids.intern(segment.id.as_str().as_bytes()) {
            Ok(id) => id,
            Err(error) => {
                return Err(error);
            },
        };
        let parent = match self.hashes.optional(&segment.parent_hash) {
            Ok(parent) => parent,
            Err(error) => {
                return Err(error);
            },
        };
        let child = match self.hashes.intern(segment.end_hash.0.as_slice()) {
            Ok(id) => ExternalSequenceBlockHash(id),
            Err(error) => {
                return Err(error);
            },
        };
        let binding = Binding { id, role: kind, start, end, parent, child };
        let options = BlockHashOptions {
            block_mm_infos: None,
            lora_name: None,
            cache_namespace: Some(namespace),
            is_eagle: None,
        };
        let locals = crate::block_hash::compute_block_hash_for_seq(
            segment.token_ids.as_slice(),
            unit,
            options,
        );
        proof {
            assert(locals@ =~= segment_locals(segment.token_ids@, unit, namespace@)) by {
                assert(options.seed() == crate::block_hash::seed_of(
                    None,
                    Some(encode_utf8(namespace@)),
                ));
            }
            lemma_whole_blocks((end - start) as int, unit as int);
        }
        let edges = match self.edges(segment, kind, parent, &locals) {
            Ok(edges) => edges,
            Err(error) => {
                return Err(error);
            },
        };
        let record = SegmentRecord { binding, end_hash: bytes_of(segment.end_hash.0.as_slice()) };
        let ghost entry = SegmentEntry { binding, end_hash: record.end_hash@ };
        if self.segments.insert(id, record).is_some() {
            return Err(LogicalDecodeError::DuplicateSegment);
        }
        proof {
            let after = with_segment(profile, namespace@, before, *segment)->Ok_0.0;
            assert(self.catalog().segments =~= before.segments.insert(id, entry));
            assert(self.catalog().plan_names =~= before.plan_names);
            assert(self.catalog() == after);
        }
        Ok(Mutation::Coverage(Contribution { binding, edges }))
    }
}

proof fn lemma_intern_error_sticks(table: Map<u64, Seq<u8>>, hashes: Seq<NativeHash>, n: int)
    requires
        0 <= n <= hashes.len(),
        interned_all(table, hashes.take(n)) is Err,
    ensures
        interned_all(table, hashes) == interned_all(table, hashes.take(n)),
    decreases hashes.len() - n,
{
    if n == hashes.len() {
        assert(hashes.take(n) =~= hashes);
    } else {
        assert(hashes.take(n + 1).drop_last() =~= hashes.take(n));
        lemma_intern_error_sticks(table, hashes, n + 1);
    }
}

impl Names {
    /// Files a plan under its segment.
    fn file_plan(&mut self, id: u64, segment: u64)
        requires
            grouped(old(self).plans_by_segment@, old(self).plan_segments@),
            !old(self).plan_segments@.contains_key(id),
        ensures
            final(self).hashes == old(self).hashes,
            final(self).ids == old(self).ids,
            final(self).segments == old(self).segments,
            final(self).plan_names == old(self).plan_names,
            final(self).plan_segments@ == old(self).plan_segments@.insert(id, segment),
            grouped(final(self).plans_by_segment@, final(self).plan_segments@),
    {
        let ghost plans = self.plan_segments@;
        let ghost groups = self.plans_by_segment@;
        let mut list: Vec<u64> = match self.plans_by_segment.remove(segment) {
            Some(list) => list,
            None => Vec::new(),
        };
        let ghost before = list@;
        proof {
            if !groups.contains_key(segment) {
                assert(plans_under(plans, segment) =~= Set::empty()) by {
                    assert forall|p: u64| !plans_under(plans, segment).contains(p) by {
                        if plans.contains_key(p) && plans[p] == segment {
                            assert(groups.contains_key(plans[p]));
                        }
                    }
                }
                assert(before.to_set() =~= Set::empty());
            }
            assert(before.to_set() == plans_under(plans, segment));
            assert(!before.contains(id)) by {
                if before.contains(id) {
                    assert(before.to_set().contains(id));
                }
            }
        }
        list.push(id);
        self.plans_by_segment.insert(segment, list);
        self.plan_segments.insert(id, segment);
        proof {
            let after = self.plan_segments@;
            let now = self.plans_by_segment@;
            assert forall|s: u64| #[trigger] now.contains_key(s) implies now[s]@.no_duplicates()
                && now[s]@.to_set() == plans_under(after, s) by {
                if s == segment {
                    assert(now[s]@ == before.push(id));
                    assert(now[s]@.to_set() =~= before.to_set().insert(id)) by {
                        assert forall|p: u64| now[s]@.to_set().contains(p)
                            == before.to_set().insert(id).contains(p) by {
                            if before.contains(p) {
                                let j = choose|j: int| 0 <= j < before.len() && before[j] == p;
                                assert(now[s]@[j] == p);
                            }
                            assert(now[s]@[before.len() as int] == id);
                            if now[s]@.contains(p) && p != id {
                                let j = choose|j: int| 0 <= j < now[s]@.len() && now[s]@[j] == p;
                                assert(before[j] == p);
                            }
                        }
                    }
                    assert(plans_under(after, s) =~= plans_under(plans, s).insert(id));
                } else {
                    assert(groups.contains_key(s) && now[s] == groups[s]);
                    assert(plans_under(after, s) =~= plans_under(plans, s));
                }
            }
            assert forall|p: u64| #[trigger] after.contains_key(p) implies now.contains_key(
                after[p],
            ) by {
                if p != id {
                    assert(plans.contains_key(p));
                }
            }
        }
    }

    /// Declares a plan.
    fn plan(&mut self, plan: &WirePlan) -> (mutation: Result<Mutation, LogicalDecodeError>)
        requires
            old(self).wf(),
        ensures
            match with_plan(old(self).catalog(), *plan) {
                Ok((catalog, op)) => mutation is Ok && spells(mutation->Ok_0, op)
                    && final(self).wf() && final(self).catalog() == catalog,
                Err(error) => mutation is Err && mutation->Err_0 == error,
            },
    {
        let ghost before = self.catalog();
        let segment: u64 = match self.ids.knows(plan.binding.as_str().as_bytes()) {
            Some(segment) => segment,
            None => {
                return Err(LogicalDecodeError::MissingBinding);
            },
        };
        let (role_held, same_end): (CoverageRole, bool) = match self.segments.get(segment) {
            Some(record) => (
                record.binding.role,
                same_bytes(plan.terminal_hash.0.as_slice(), record.end_hash.as_slice()),
            ),
            None => {
                return Err(LogicalDecodeError::MissingBinding);
            },
        };
        let kind = match role(plan.kind.as_str()) {
            Ok(kind) => kind,
            Err(error) => {
                return Err(error);
            },
        };
        if kind != role_held || (role_held == CoverageRole::Tail && !same_end) {
            return Err(LogicalDecodeError::PlanMismatch);
        }
        let id: u64 = match self.ids.intern(plan.id.as_str().as_bytes()) {
            Ok(id) => id,
            Err(error) => {
                return Err(error);
            },
        };
        if self.plan_names.insert(id, plan.id.clone()).is_some() {
            return Err(LogicalDecodeError::DuplicatePlan);
        }
        proof {
            assert(!before.plan_names.contains_key(id));
            assert(!before.plan_names.dom().contains(id));
        }
        self.file_plan(id, segment);
        // Validate the terminal identity as bytes even for an in-segment plan; no
        // fabricated fine edges are needed to match its whole anchor.
        match self.hashes.intern(plan.terminal_hash.0.as_slice()) {
            Ok(_) => {},
            Err(error) => {
                return Err(error);
            },
        }
        let end: u32 = match position(plan.end) {
            Ok(end) => end,
            Err(error) => {
                return Err(error);
            },
        };
        let anchor_end: u32 = match position(plan.anchor) {
            Ok(anchor_end) => anchor_end,
            Err(error) => {
                return Err(error);
            },
        };
        let anchor = match self.hashes.optional(&plan.anchor_hash) {
            Ok(anchor) => anchor,
            Err(error) => {
                return Err(error);
            },
        };
        let minimum_prompt_tokens: u32 = match position(plan.minimum_prompt_tokens) {
            Ok(minimum) => minimum,
            Err(error) => {
                return Err(error);
            },
        };
        proof {
            let after = with_plan(before, *plan)->Ok_0.0;
            assert(self.catalog().segments =~= before.segments);
            assert(self.catalog().plan_names =~= before.plan_names.insert(id, plan.id@));
            assert(self.catalog().plans.dom() =~= self.catalog().plan_names.dom());
            assert(self.catalog() == after);
        }
        Ok(
            Mutation::Plan(
                Plan { id, binding: segment, end, anchor_end, anchor, minimum_prompt_tokens },
            ),
        )
    }

    /// Retires a segment, and the names of its plans with it, so that a later
    /// cut may use them again.
    fn drop_segment(&mut self, name: &String) -> (mutation: Option<Mutation>)
        requires
            old(self).wf(),
        ensures
            final(self).wf(),
            final(self).catalog() == without_segment(old(self).catalog(), name@),
            mutation is Some <==> old(self).catalog().has_segment(name@),
            mutation is Some ==> spells(mutation->Some_0, Op::Uncover(name_id(name@))),
    {
        let ghost before = self.catalog();
        let id: u64 = match self.ids.knows(name.as_str().as_bytes()) {
            Some(id) => id,
            None => {
                return None;
            },
        };
        let ghost records = self.segments@;
        let binding: u64 = match self.segments.remove(id) {
            Some(record) => record.binding.id,
            None => {
                assert(self.segments@ =~= records);
                assert(self.catalog() == before);
                return None;
            },
        };
        assert(before.segments.contains_key(id));
        let ghost groups = self.plans_by_segment@;
        let ghost plans = self.plan_segments@;
        let ghost names = self.plan_names@;
        let removed = self.plans_by_segment.remove(id);
        if let Some(list) = removed {
            let mut i: usize = 0;
            while i < list.len()
                invariant
                    i <= list@.len(),
                    list@.no_duplicates(),
                    list@.to_set() == plans_under(plans, id),
                    self.hashes == old(self).hashes,
                    self.ids == old(self).ids,
                    self.segments@ == records.remove(id),
                    self.plans_by_segment@ == groups.remove(id),
                    forall|p: u64| #[trigger]
                        self.plan_segments@.contains_key(p) <==> plans.contains_key(p)
                            && !list@.take(i as int).contains(p),
                    forall|p: u64| #[trigger]
                        self.plan_segments@.contains_key(p) ==> self.plan_segments@[p] == plans[p],
                    forall|p: u64| #[trigger]
                        self.plan_names@.contains_key(p) <==> names.contains_key(p)
                            && !list@.take(i as int).contains(p),
                    forall|p: u64| #[trigger]
                        self.plan_names@.contains_key(p) ==> self.plan_names@[p] == names[p],
                decreases list@.len() - i,
            {
                let plan: u64 = list[i];
                self.plan_segments.remove(plan);
                self.plan_names.remove(plan);
                proof {
                    let upto = list@.take(i as int);
                    let next = list@.take(i + 1);
                    assert forall|p: u64| next.contains(p) <==> upto.contains(p) || p == plan by {
                        if upto.contains(p) {
                            let j = choose|j: int| 0 <= j < upto.len() && upto[j] == p;
                            assert(next[j] == p);
                        }
                        assert(next[i as int] == plan);
                        if next.contains(p) {
                            let j = choose|j: int| 0 <= j < next.len() && next[j] == p;
                            if j < i {
                                assert(upto[j] == p);
                            }
                        }
                    }
                }
                i = i + 1;
            }
            proof {
                assert(list@.take(list@.len() as int) =~= list@);
                assert forall|p: u64| list@.contains(p) <==> plans_under(plans, id).contains(p) by {
                    assert(list@.to_set().contains(p) == list@.contains(p));
                }
            }
        } else {
            proof {
                assert forall|p: u64| !plans_under(plans, id).contains(p) by {
                    if plans.contains_key(p) && plans[p] == id {
                        assert(groups.contains_key(plans[p]));
                    }
                }
                assert(self.plans_by_segment@ =~= groups.remove(id));
            }
        }
        proof {
            let under = plans_under(plans, id);
            let after = without_segment(before, name@);
            assert(self.plan_segments@ =~= plans.remove_keys(under));
            assert(self.catalog().plan_names =~= before.plan_names.remove_keys(under));
            assert(self.catalog().segments =~= before.segments.remove(id));
            assert(self.catalog() == after);
            assert(after.plans.dom() =~= after.plan_names.dom());
            assert forall|p: u64| #[trigger] after.plans.contains_key(p) implies after.segments.contains_key(
                after.plans[p],
            ) by {
                assert(plans.contains_key(p) && plans[p] != id);
                assert(before.segments.contains_key(plans[p]));
            }
            assert(after.ok());
            assert(grouped(self.plans_by_segment@, self.plan_segments@)) by {
                let now = self.plans_by_segment@;
                assert forall|s: u64| #[trigger] now.contains_key(s) implies now[s]@.no_duplicates()
                    && now[s]@.to_set() == plans_under(self.plan_segments@, s) by {
                    assert(groups.contains_key(s) && s != id);
                    assert(plans_under(self.plan_segments@, s) =~= plans_under(plans, s));
                }
                assert forall|p: u64| #[trigger]
                    self.plan_segments@.contains_key(p) implies now.contains_key(
                    self.plan_segments@[p],
                ) by {
                    assert(plans.contains_key(p));
                    assert(groups.contains_key(plans[p]));
                }
            }
        }
        Some(Mutation::RemoveCoverage(binding))
    }

    /// Withdraws a plan.
    fn drop_plan(&mut self, name: &String) -> (mutation: Option<Mutation>)
        requires
            old(self).wf(),
        ensures
            final(self).wf(),
            final(self).catalog() == without_plan(old(self).catalog(), name@),
            mutation is Some <==> old(self).catalog().has_plan(name@),
            mutation is Some ==> spells(mutation->Some_0, Op::Withdraw(name_id(name@))),
    {
        let ghost before = self.catalog();
        let id: u64 = match self.ids.knows(name.as_str().as_bytes()) {
            Some(id) => id,
            None => {
                return None;
            },
        };
        let ghost plans = self.plan_segments@;
        let ghost groups = self.plans_by_segment@;
        let segment: u64 = match self.plan_segments.remove(id) {
            Some(segment) => segment,
            None => {
                assert(self.plan_segments@ =~= plans);
                assert(self.catalog() == before);
                return None;
            },
        };
        self.plan_names.remove(id);
        let mut kept: Vec<u64> = Vec::new();
        if let Some(list) = self.plans_by_segment.remove(segment) {
            let mut i: usize = 0;
            while i < list.len()
                invariant
                    i <= list@.len(),
                    list@.no_duplicates(),
                    list@.to_set() == plans_under(plans, segment),
                    self.plans_by_segment@ == groups.remove(segment),
                    forall|p: u64| #[trigger]
                        kept@.contains(p) <==> list@.take(i as int).contains(p) && p != id,
                    kept@.no_duplicates(),
                decreases list@.len() - i,
            {
                let plan: u64 = list[i];
                let ghost upto = list@.take(i as int);
                let ghost was = kept@;
                proof {
                    assert(!upto.contains(plan)) by {
                        if upto.contains(plan) {
                            let j = choose|j: int| 0 <= j < upto.len() && upto[j] == plan;
                            assert(list@[j] == list@[i as int]);
                        }
                    }
                    assert(!was.contains(plan));
                }
                if plan != id {
                    kept.push(plan);
                    assert forall|a: int, b: int|
                        0 <= a < kept@.len() && 0 <= b < kept@.len() && a != b implies kept@[a]
                        != kept@[b] by {
                        if a < was.len() && b < was.len() {
                            assert(was[a] != was[b]);
                        } else if a < was.len() {
                            assert(was.contains(was[a]));
                        } else {
                            assert(was.contains(was[b]));
                        }
                    }
                }
                proof {
                    let next = list@.take(i + 1);
                    assert forall|p: u64| #[trigger]
                        kept@.contains(p) <==> next.contains(p) && p != id by {
                        if upto.contains(p) {
                            let j = choose|j: int| 0 <= j < upto.len() && upto[j] == p;
                            assert(next[j] == p);
                        }
                        assert(next[i as int] == plan);
                        if next.contains(p) {
                            let j = choose|j: int| 0 <= j < next.len() && next[j] == p;
                            if j < i {
                                assert(upto[j] == p);
                            }
                        }
                        if plan != id {
                            assert(kept@[was.len() as int] == plan);
                            if was.contains(p) {
                                let j = choose|j: int| 0 <= j < was.len() && was[j] == p;
                                assert(kept@[j] == p);
                            }
                            if kept@.contains(p) && p != plan {
                                let j = choose|j: int| 0 <= j < kept@.len() && kept@[j] == p;
                                assert(was[j] == p);
                            }
                        }
                    }
                }
                i = i + 1;
            }
            proof {
                assert(list@.take(list@.len() as int) =~= list@);
                assert forall|p: u64| list@.contains(p) <==> plans_under(plans, segment).contains(
                    p,
                ) by {
                    assert(list@.to_set().contains(p) == list@.contains(p));
                }
            }
        } else {
            assert(groups.contains_key(plans[id]));
        }
        proof {
            let after = plans.remove(id);
            assert(kept@.to_set() =~= plans_under(after, segment)) by {
                assert forall|p: u64| kept@.to_set().contains(p) == plans_under(
                    after,
                    segment,
                ).contains(p) by {
                    assert(kept@.contains(p) <==> plans_under(plans, segment).contains(p) && p
                        != id);
                }
            }
        }
        let ghost filed = kept@;
        if kept.len() > 0 {
            self.plans_by_segment.insert(segment, kept);
        }
        proof {
            let after = without_plan(before, name@);
            assert(self.catalog().plan_names =~= before.plan_names.remove(id));
            assert(self.catalog().segments =~= before.segments);
            assert(self.catalog() == after);
            assert(after.plans.dom() =~= after.plan_names.dom());
            assert(after.ok());
            assert(grouped(self.plans_by_segment@, self.plan_segments@)) by {
                let now = self.plans_by_segment@;
                assert forall|s: u64| #[trigger] now.contains_key(s) implies now[s]@.no_duplicates()
                    && now[s]@.to_set() == plans_under(self.plan_segments@, s) by {
                    if s != segment {
                        assert(groups.contains_key(s));
                        assert(plans_under(self.plan_segments@, s) =~= plans_under(plans, s));
                    }
                }
                assert forall|p: u64| #[trigger]
                    self.plan_segments@.contains_key(p) implies now.contains_key(
                    self.plan_segments@[p],
                ) by {
                    assert(plans.contains_key(p));
                    if plans[p] == segment {
                        assert(filed.to_set().contains(p));
                        assert(filed.contains(p));
                    } else {
                        assert(groups.contains_key(plans[p]));
                    }
                }
            }
        }
        Some(Mutation::RemovePlan(id))
    }
}

impl Names {
    /// Withdraws the named plans. Names that are not declared are passed over.
    fn withdraw(&mut self, names: &Vec<String>) -> (mutations: Vec<Mutation>)
        requires
            old(self).wf(),
        ensures
            final(self).wf(),
            final(self).catalog() == withdrawn(old(self).catalog(), names@).0,
            spells_all(mutations@, withdrawn(old(self).catalog(), names@).1),
    {
        let ghost start = self.catalog();
        let mut mutations: Vec<Mutation> = Vec::new();
        let mut i: usize = 0;
        while i < names.len()
            invariant
                i <= names@.len(),
                self.wf(),
                self.catalog() == withdrawn(start, names@.take(i as int)).0,
                spells_all(mutations@, withdrawn(start, names@.take(i as int)).1),
            decreases names@.len() - i,
        {
            assert(names@.take(i + 1).drop_last() =~= names@.take(i as int));
            if let Some(mutation) = self.drop_plan(&names[i]) {
                mutations.push(mutation);
            }
            i = i + 1;
        }
        assert(names@.take(names@.len() as int) =~= names@);
        mutations
    }

    /// Retires the named segments. Names that are not declared are passed over.
    fn retire(&mut self, names: &Vec<String>) -> (mutations: Vec<Mutation>)
        requires
            old(self).wf(),
        ensures
            final(self).wf(),
            final(self).catalog() == retired(old(self).catalog(), names@).0,
            spells_all(mutations@, retired(old(self).catalog(), names@).1),
    {
        let ghost start = self.catalog();
        let mut mutations: Vec<Mutation> = Vec::new();
        let mut i: usize = 0;
        while i < names.len()
            invariant
                i <= names@.len(),
                self.wf(),
                self.catalog() == retired(start, names@.take(i as int)).0,
                spells_all(mutations@, retired(start, names@.take(i as int)).1),
            decreases names@.len() - i,
        {
            assert(names@.take(i + 1).drop_last() =~= names@.take(i as int));
            if let Some(mutation) = self.drop_segment(&names[i]) {
                mutations.push(mutation);
            }
            i = i + 1;
        }
        assert(names@.take(names@.len() as int) =~= names@);
        mutations
    }

    /// Declares segments, in order.
    fn cover(&mut self, profile: Profile, namespace: &str, segments: &Vec<WireSegment>) -> (mutations:
        Result<Vec<Mutation>, LogicalDecodeError>)
        requires
            profile.is_supported(),
            old(self).wf(),
        ensures
            match covered_by(profile, namespace@, old(self).catalog(), segments@) {
                Ok((catalog, ops)) => mutations is Ok && spells_all(mutations->Ok_0@, ops)
                    && final(self).wf() && final(self).catalog() == catalog,
                Err(error) => mutations is Err && mutations->Err_0 == error,
            },
    {
        let ghost start = self.catalog();
        let mut mutations: Vec<Mutation> = Vec::new();
        let mut i: usize = 0;
        while i < segments.len()
            invariant
                i <= segments@.len(),
                profile.is_supported(),
                self.wf(),
                start == old(self).catalog(),
                covered_by(profile, namespace@, start, segments@.take(i as int)) is Ok,
                self.catalog() == covered_by(
                    profile,
                    namespace@,
                    start,
                    segments@.take(i as int),
                )->Ok_0.0,
                spells_all(
                    mutations@,
                    covered_by(profile, namespace@, start, segments@.take(i as int))->Ok_0.1,
                ),
            decreases segments@.len() - i,
        {
            assert(segments@.take(i + 1).drop_last() =~= segments@.take(i as int));
            match self.segment(profile, namespace, &segments[i]) {
                Ok(mutation) => {
                    mutations.push(mutation);
                },
                Err(error) => {
                    proof {
                        lemma_cover_error_sticks(
                            profile,
                            namespace@,
                            start,
                            segments@,
                            i + 1,
                        );
                    }
                    return Err(error);
                },
            }
            i = i + 1;
        }
        assert(segments@.take(segments@.len() as int) =~= segments@);
        Ok(mutations)
    }

    /// Declares plans, in order.
    fn declare(&mut self, plans: &Vec<WirePlan>) -> (mutations: Result<
        Vec<Mutation>,
        LogicalDecodeError,
    >)
        requires
            old(self).wf(),
        ensures
            match declared_by(old(self).catalog(), plans@) {
                Ok((catalog, ops)) => mutations is Ok && spells_all(mutations->Ok_0@, ops)
                    && final(self).wf() && final(self).catalog() == catalog,
                Err(error) => mutations is Err && mutations->Err_0 == error,
            },
    {
        let ghost start = self.catalog();
        let mut mutations: Vec<Mutation> = Vec::new();
        let mut i: usize = 0;
        while i < plans.len()
            invariant
                i <= plans@.len(),
                self.wf(),
                start == old(self).catalog(),
                declared_by(start, plans@.take(i as int)) is Ok,
                self.catalog() == declared_by(start, plans@.take(i as int))->Ok_0.0,
                spells_all(mutations@, declared_by(start, plans@.take(i as int))->Ok_0.1),
            decreases plans@.len() - i,
        {
            assert(plans@.take(i + 1).drop_last() =~= plans@.take(i as int));
            match self.plan(&plans[i]) {
                Ok(mutation) => {
                    mutations.push(mutation);
                },
                Err(error) => {
                    proof {
                        lemma_declare_error_sticks(start, plans@, i + 1);
                    }
                    return Err(error);
                },
            }
            i = i + 1;
        }
        assert(plans@.take(plans@.len() as int) =~= plans@);
        Ok(mutations)
    }

    /// Whether the tables, which outlive a single cut and so are not covered by
    /// the payload ceiling, are within the ceilings.
    fn within_limits(&self, limits: DecodeLimits) -> (fit: bool)
        requires
            self.wf(),
        ensures
            fit == within(self.catalog(), limits),
    {
        proof {
            assert(self.catalog().segments.dom() =~= self.segments@.dom());
            assert(self.catalog().plan_names.dom() =~= self.plan_names@.dom());
        }
        let state = limits.state;
        let hashes: u128 = state.edges as u128 * 2;
        let ids: u128 = state.bindings as u128 + state.plans as u128;
        self.segments.len() <= state.bindings && self.plan_names.len() <= state.plans
            && self.hashes.len() as u128 <= hashes && self.ids.len() as u128 <= ids
    }
}

/// The catalog is within the ceilings.
pub open spec fn within(catalog: Catalog, limits: DecodeLimits) -> bool {
    &&& catalog.segments.len() <= limits.state.bindings
    &&& catalog.plan_names.len() <= limits.state.plans
    &&& catalog.hashes.len() <= limits.state.edges * 2
    &&& catalog.ids.len() <= limits.state.bindings + limits.state.plans
}

proof fn lemma_cover_error_sticks(
    profile: Profile,
    namespace: Seq<char>,
    catalog: Catalog,
    segments: Seq<WireSegment>,
    n: int,
)
    requires
        0 <= n <= segments.len(),
        covered_by(profile, namespace, catalog, segments.take(n)) is Err,
    ensures
        covered_by(profile, namespace, catalog, segments) == covered_by(
            profile,
            namespace,
            catalog,
            segments.take(n),
        ),
    decreases segments.len() - n,
{
    if n == segments.len() {
        assert(segments.take(n) =~= segments);
    } else {
        assert(segments.take(n + 1).drop_last() =~= segments.take(n));
        lemma_cover_error_sticks(profile, namespace, catalog, segments, n + 1);
    }
}

proof fn lemma_declare_error_sticks(catalog: Catalog, plans: Seq<WirePlan>, n: int)
    requires
        0 <= n <= plans.len(),
        declared_by(catalog, plans.take(n)) is Err,
    ensures
        declared_by(catalog, plans) == declared_by(catalog, plans.take(n)),
    decreases plans.len() - n,
{
    if n == plans.len() {
        assert(plans.take(n) =~= plans);
    } else {
        assert(plans.take(n + 1).drop_last() =~= plans.take(n));
        lemma_declare_error_sticks(catalog, plans, n + 1);
    }
}

/// What a cut makes of the catalog: retirements come before admissions, so that
/// a reused identity cannot be credited twice.
pub open spec fn catalogued(
    profile: Profile,
    namespace: Seq<char>,
    catalog: Catalog,
    removed_plans: Seq<String>,
    removed_segments: Seq<String>,
    added_segments: Seq<WireSegment>,
    added_plans: Seq<WirePlan>,
) -> Result<(Catalog, Seq<Op>), LogicalDecodeError> {
    let (first, withdraw) = withdrawn(catalog, removed_plans);
    let (second, retire) = retired(first, removed_segments);
    match covered_by(profile, namespace, second, added_segments) {
        Err(error) => Err(error),
        Ok((third, cover)) => match declared_by(third, added_plans) {
            Err(error) => Err(error),
            Ok((last, declare)) => Ok((last, withdraw + retire + cover + declare)),
        },
    }
}

/// The state of a normalizer.
pub ghost struct Normal {
    pub catalog: Catalog,
    pub publisher: PublisherState,
    pub view: ViewState,
}

/// A normalizer that has seen nothing yet.
pub open spec fn fresh(profile: Profile, scope: ScopeView, limits: Limits) -> Normal {
    let publisher = PublisherState {
        profile,
        scope,
        limits,
        cursor: 0,
        confidence: Confidence::Known,
        tables: Tables::none(),
    };
    Normal {
        catalog: Catalog::empty(),
        publisher,
        view: crate::logical_laws::mirror(publisher, limits),
    }
}

/// A view of which nothing is known.
pub open spec fn unknown_view(publisher: PublisherState, limits: Limits) -> ViewState {
    ViewState {
        profile: publisher.profile,
        scope: publisher.scope,
        cursor: publisher.cursor,
        confidence: Confidence::Gap,
        limits,
        edges: Set::empty(),
        bindings: Map::empty(),
        plans: Map::empty(),
    }
}

/// What a cut makes of a normalizer whose catalog has followed it already: the
/// view mirrors what the publisher publishes, or the cut is refused. A commit
/// counter that has run out cannot number the cut, so that the view cannot
/// follow it.
pub open spec fn committed(
    before: Normal,
    catalog: Catalog,
    limits: DecodeLimits,
    mutations: Seq<Mutation>,
) -> Result<Normal, LogicalDecodeError> {
    let after = before.publisher.applied((before.publisher.cursor + 1) as u64, mutations);
    if before.publisher.cursor == u64::MAX {
        Err(LogicalDecodeError::Inconsistent)
    } else if !within(catalog, limits) {
        Err(LogicalDecodeError::RetainedBudget)
    } else if before.view.confidence != Confidence::Known || after.confidence
        != Confidence::Known || !crate::logical_view::index_ok(
        crate::publisher::live_edges(after.tables.contributions),
    ) {
        Err(LogicalDecodeError::Inconsistent)
    } else {
        Ok(
            Normal {
                catalog,
                publisher: after,
                view: crate::logical_laws::mirror(after, limits.state),
            },
        )
    }
}

/// The normalizing state of one epoch.
pub struct Normalizer {
    limits: DecodeLimits,
    profile: Profile,
    publisher: Publisher,
    view: LogicalView,
    names: Names,
    applied: u64,
}

proof fn lemma_added_error_is_a_reason(edges: Set<Edge>, limits: Limits, added: Seq<Edge>)
    ensures
        crate::logical_view::with_added(edges, limits, added) != Err::<Set<Edge>, Confidence>(
            Confidence::Known,
        ),
    decreases added.len(),
{
    if added.len() > 0 {
        lemma_added_error_is_a_reason(edges, limits, added.drop_last());
    }
}

proof fn lemma_added_union(edges: Set<Edge>, limits: Limits, added: Seq<Edge>)
    requires
        crate::logical_view::with_added(edges, limits, added) is Ok,
    ensures
        crate::logical_view::with_added(edges, limits, added)->Ok_0 == edges.union(added.to_set()),
    decreases added.len(),
{
    if added.len() == 0 {
        assert(edges.union(added.to_set()) =~= edges);
    } else {
        lemma_added_union(edges, limits, added.drop_last());
        assert(added.to_set() =~= added.drop_last().to_set().insert(added.last())) by {
            assert forall|e: Edge| added.to_set().contains(e)
                == added.drop_last().to_set().insert(added.last()).contains(e) by {
                if added.contains(e) {
                    let j = choose|j: int| 0 <= j < added.len() && added[j] == e;
                    if j < added.len() - 1 {
                        assert(added.drop_last()[j] == e);
                    }
                }
                if added.drop_last().contains(e) {
                    let j = choose|j: int|
                        0 <= j < added.drop_last().len() && added.drop_last()[j] == e;
                    assert(added[j] == e);
                }
                assert(added[added.len() - 1] == added.last());
            }
        }
        assert(edges.union(added.to_set()) =~= edges.union(added.drop_last().to_set()).insert(
            added.last(),
        ));
    }
}

impl Normalizer {
    pub closed spec fn state(&self) -> Normal {
        Normal {
            catalog: self.names.catalog(),
            publisher: self.publisher@,
            view: self.view@,
        }
    }

    pub closed spec fn ceilings(&self) -> DecodeLimits {
        self.limits
    }

    /// Everything but the view is in good standing.
    spec fn sources_wf(&self) -> bool {
        &&& self.names.wf()
        &&& self.publisher.wf()
        &&& self.view.wf()
        &&& self.profile == self.publisher@.profile
        &&& self.profile.is_supported()
        &&& self.limits.state == self.publisher@.limits
        &&& self.publisher@.confidence == Confidence::Known
        &&& self.publisher@.cursor == self.applied
        &&& self.view@.scope == self.publisher@.scope
        &&& self.view@.limits == self.limits.state
    }

    /// The view mirrors the publisher, unless the producer said that it knows
    /// nothing.
    pub closed spec fn wf(&self) -> bool {
        &&& self.sources_wf()
        &&& if self.view@.confidence == Confidence::Known {
            &&& self.view@ == crate::logical_laws::mirror(self.publisher@, self.limits.state)
            &&& crate::logical_view::index_ok(
                crate::publisher::live_edges(self.publisher@.tables.contributions),
            )
        } else {
            self.view@ == unknown_view(self.publisher@, self.limits.state)
        }
    }

    fn new(profile: Profile, scope: Scope, limits: DecodeLimits) -> (s: Self)
        requires
            profile.is_supported(),
        ensures
            s.wf(),
            s.state() == fresh(profile, scope@, limits.state),
            s.ceilings() == limits,
    {
        let publisher = Publisher::new(profile, scope, limits.state);
        let snapshot = publisher.snapshot();
        proof {
            publisher.lemma_tables_ok();
            assert(crate::publisher::live_edges(publisher@.tables.contributions) =~= Set::empty());
            crate::logical_laws::law_snapshot_mirrors_publisher(publisher@, snapshot);
        }
        let view = LogicalView::from_snapshot(snapshot, limits.state);
        Normalizer { limits, profile, publisher, view, names: Names::new(), applied: 0 }
    }

    /// Hands mutations to the publisher and lets the view follow.
    fn commit(&mut self, mutations: Vec<Mutation>, before: Ghost<Normal>) -> (outcome: Result<
        (),
        LogicalDecodeError,
    >)
        requires
            old(self).wf(),
            before@.publisher == old(self).state().publisher,
            before@.view == old(self).state().view,
        ensures
            match committed(
                before@,
                old(self).state().catalog,
                old(self).ceilings(),
                mutations@,
            ) {
                Ok(after) => outcome is Ok && final(self).wf() && final(self).state() == after
                    && final(self).ceilings() == old(self).ceilings(),
                Err(error) => outcome is Err && outcome->Err_0 == error,
            },
    {
        if self.applied == u64::MAX {
            return Err(LogicalDecodeError::Inconsistent);
        }
        let ghost was = self.publisher@;
        let ghost seen = self.view@;
        proof {
            self.publisher.lemma_tables_ok();
        }
        self.applied = self.applied + 1;
        let batch = self.publisher.apply(self.applied, mutations);
        let ghost now = self.publisher@;
        let ghost given = batch;
        self.view.apply(batch);
        let ghost good = seen.confidence == Confidence::Known && now.confidence == Confidence::Known
            && crate::logical_view::index_ok(
            crate::publisher::live_edges(now.tables.contributions),
        );
        proof {
            self.publisher.lemma_tables_ok();
            if good {
                crate::logical_laws::law_view_follows_publisher(was, mutations@, given);
                assert(self.view@ == crate::logical_laws::mirror(now, self.limits.state));
            } else if self.view@.confidence == Confidence::Known {
                let old_edges = crate::publisher::live_edges(was.tables.contributions);
                let new_edges = crate::publisher::live_edges(now.tables.contributions);
                let kept = seen.edges.difference(given.removed_edges@.to_set());
                assert(seen.confidence == Confidence::Known);
                assert(now.confidence == Confidence::Known);
                let sum = crate::logical_view::with_added(kept, seen.limits, given.added_edges@);
                lemma_added_error_is_a_reason(kept, seen.limits, given.added_edges@);
                assert(sum is Ok);
                crate::logical_view::lemma_tables_error_is_a_reason(
                    seen.profile,
                    seen.limits,
                    sum->Ok_0,
                    given.bindings@,
                    given.plans@,
                );
                lemma_added_union(kept, seen.limits, given.added_edges@);
                assert(sum->Ok_0 =~= new_edges);
                self.view.lemma_known_is_ok();
                assert(self.view@.edges == sum->Ok_0);
                assert(false);
            }
        }
        if !self.names.within_limits(self.limits) {
            return Err(LogicalDecodeError::RetainedBudget);
        }
        if self.view.confidence() != Confidence::Known {
            return Err(LogicalDecodeError::Inconsistent);
        }
        Ok(())
    }
}

/// The profile of a cut.
pub open spec fn profile_of(header: WireHeader) -> Profile {
    Profile { version: 1, block_size: header.block_size, hash_unit: header.hash_unit }
}

/// The scope of a cut.
pub open spec fn scope_of(
    header: WireHeader,
    owner: ResidencyOwner,
    namespace: Seq<char>,
) -> ScopeView {
    ScopeView {
        owner,
        namespace,
        incarnation: crate::logical_wire::epoch_of(header.epoch@),
        generation: 0,
    }
}

/// A header that passed its checks.
pub open spec fn checked(header: WireHeader) -> bool {
    &&& crate::logical_wire::good_geometry(header.block_size, header.hash_unit)
    &&& crate::logical_wire::is_epoch(header.epoch@)
}

/// What a snapshot builds, given the mutations that spell its content: an
/// explicit loss must never be readable as an authoritative empty cache.
pub open spec fn built(
    header: WireHeader,
    segments: Seq<WireSegment>,
    plans: Seq<WirePlan>,
    owner: ResidencyOwner,
    namespace: Seq<char>,
    limits: DecodeLimits,
    mutations: Seq<Mutation>,
) -> Result<Normal, LogicalDecodeError> {
    let start = fresh(profile_of(header), scope_of(header, owner, namespace), limits.state);
    if header.confidence@ != "known"@ {
        if header.confidence@ != "unknown"@ || header.reason@.len() == 0 || segments.len() > 0
            || plans.len() > 0 {
            Err(LogicalDecodeError::ConfidenceState)
        } else {
            Ok(Normal { view: unknown_view(start.publisher, limits.state), ..start })
        }
    } else if header.reason@.len() > 0 {
        Err(LogicalDecodeError::KnownWithReason)
    } else {
        match catalogued(
            profile_of(header),
            namespace,
            Catalog::empty(),
            Seq::empty(),
            Seq::empty(),
            segments,
            plans,
        ) {
            Err(error) => Err(error),
            Ok((catalog, _)) => committed(start, catalog, limits, mutations),
        }
    }
}

/// The operations of a snapshot that claims to be known.
pub open spec fn snapshot_ops(
    header: WireHeader,
    namespace: Seq<char>,
    segments: Seq<WireSegment>,
    plans: Seq<WirePlan>,
) -> Seq<Op> {
    let content = catalogued(
        profile_of(header),
        namespace,
        Catalog::empty(),
        Seq::empty(),
        Seq::empty(),
        segments,
        plans,
    );
    if header.confidence@ == "known"@ && header.reason@.len() == 0 && content is Ok {
        content->Ok_0.1
    } else {
        Seq::empty()
    }
}

/// The result that a normal state, or its refusal, stands for.
pub open spec fn comes_to(
    outcome: Result<Normal, LogicalDecodeError>,
    normalizer: Result<Normalizer, LogicalDecodeError>,
    limits: DecodeLimits,
) -> bool {
    match outcome {
        Ok(state) => normalizer is Ok && normalizer->Ok_0.wf() && normalizer->Ok_0.state() == state
            && normalizer->Ok_0.ceilings() == limits,
        Err(error) => normalizer is Err && normalizer->Err_0 == error,
    }
}

proof fn lemma_spells_concat(m: Seq<Mutation>, a: Seq<Op>, n: Seq<Mutation>, b: Seq<Op>)
    requires
        spells_all(m, a),
        spells_all(n, b),
    ensures
        spells_all(m + n, a + b),
{
    assert forall|i: int| 0 <= i < (a + b).len() implies spells(
        #[trigger] (m + n)[i],
        (a + b)[i],
    ) by {
        if i < a.len() {
            assert((m + n)[i] == m[i]);
        } else {
            assert((m + n)[i] == n[i - a.len()]);
        }
    }
}

/// Builds the normalizer of a self-sufficient snapshot.
pub fn build_snapshot(
    header: &WireHeader,
    segments: &Vec<WireSegment>,
    plans: &Vec<WirePlan>,
    owner: ResidencyOwner,
    namespace: &str,
    limits: DecodeLimits,
) -> (normalizer: Result<Normalizer, LogicalDecodeError>)
    requires
        checked(*header),
    ensures
        exists|mutations: Seq<Mutation>|
            spells_all(mutations, snapshot_ops(*header, namespace@, segments@, plans@))
                && comes_to(
                #[trigger] built(
                    *header,
                    segments@,
                    plans@,
                    owner,
                    namespace@,
                    limits,
                    mutations,
                ),
                normalizer,
                limits,
            ),
{
    let profile = Profile {
        version: 1,
        block_size: header.block_size,
        hash_unit: header.hash_unit,
    };
    let scope = Scope {
        owner,
        namespace: namespace.to_owned(),
        incarnation: crate::logical_wire::epoch_bytes(header),
        generation: 0,
    };
    let ghost ops = snapshot_ops(*header, namespace@, segments@, plans@);
    let ghost nothing = Seq::<Mutation>::empty();
    let mut normalizer = Normalizer::new(profile, scope, limits);
    let ghost start = normalizer.state();
    if !crate::text::same_text(header.confidence.as_str(), "known") {
        if !crate::text::same_text(header.confidence.as_str(), "unknown")
            || header.reason.as_str().is_empty() || segments.len() > 0 || plans.len() > 0 {
            assert(built(*header, segments@, plans@, owner, namespace@, limits, nothing) is Err);
            return Err(LogicalDecodeError::ConfidenceState);
        }
        // An explicit loss must never be readable as an authoritative empty cache.

        let mut lost = normalizer.publisher.snapshot();
        lost.confidence = Confidence::Gap;
        normalizer.view = LogicalView::from_snapshot(lost, limits.state);
        assert(comes_to(
            built(*header, segments@, plans@, owner, namespace@, limits, nothing),
            Ok(normalizer),
            limits,
        ));
        return Ok(normalizer);
    }
    if !header.reason.as_str().is_empty() {
        assert(built(*header, segments@, plans@, owner, namespace@, limits, nothing) is Err);
        return Err(LogicalDecodeError::KnownWithReason);
    }
    let mut mutations = match normalizer.names.cover(profile, namespace, segments) {
        Ok(mutations) => mutations,
        Err(error) => {
            assert(built(*header, segments@, plans@, owner, namespace@, limits, nothing) is Err);
            return Err(error);
        },
    };
    let ghost covering = mutations@;
    let mut declaring = match normalizer.names.declare(plans) {
        Ok(declaring) => declaring,
        Err(error) => {
            assert(built(*header, segments@, plans@, owner, namespace@, limits, nothing) is Err);
            return Err(error);
        },
    };
    let ghost declared = declaring@;
    mutations.append(&mut declaring);
    proof {
        let cover = covered_by(profile, namespace@, Catalog::empty(), segments@)->Ok_0;
        let declare = declared_by(cover.0, plans@)->Ok_0;
        lemma_spells_concat(covering, cover.1, declared, declare.1);
        assert(mutations@ =~= covering + declared);
        assert(ops =~= cover.1 + declare.1);
        assert(withdrawn(Catalog::empty(), Seq::empty()) == (Catalog::empty(), Seq::<Op>::empty()));
    }
    let ghost all = mutations@;
    let outcome = normalizer.commit(mutations, Ghost(start));
    let result = match outcome {
        Ok(()) => Ok(normalizer),
        Err(error) => Err(error),
    };
    assert(comes_to(
        built(*header, segments@, plans@, owner, namespace@, limits, all),
        result,
        limits,
    ));
    result
}

/// What an update makes of a normalizer, given the mutations that spell its
/// content.
pub open spec fn updated(
    before: Normal,
    header: WireHeader,
    removed_plans: Seq<String>,
    removed_segments: Seq<String>,
    added_segments: Seq<WireSegment>,
    added_plans: Seq<WirePlan>,
    limits: DecodeLimits,
    mutations: Seq<Mutation>,
) -> Result<Normal, LogicalDecodeError> {
    let profile = before.publisher.profile;
    if header.confidence@ != "known"@ || header.reason@.len() > 0 {
        Err(LogicalDecodeError::UpdateNotKnown)
    } else if profile.block_size != header.block_size || profile.hash_unit != header.hash_unit {
        Err(LogicalDecodeError::GeometryChanged)
    } else {
        match catalogued(
            profile,
            before.view.scope.namespace,
            before.catalog,
            removed_plans,
            removed_segments,
            added_segments,
            added_plans,
        ) {
            Err(error) => Err(error),
            Ok((catalog, _)) => if catalog.segments.len() > header.max_rows {
                Err(LogicalDecodeError::StateBudget)
            } else {
                committed(before, catalog, limits, mutations)
            },
        }
    }
}

/// The operations of an update that keeps to its baseline.
pub open spec fn update_ops(
    before: Normal,
    header: WireHeader,
    removed_plans: Seq<String>,
    removed_segments: Seq<String>,
    added_segments: Seq<WireSegment>,
    added_plans: Seq<WirePlan>,
) -> Seq<Op> {
    let profile = before.publisher.profile;
    let content = catalogued(
        profile,
        before.view.scope.namespace,
        before.catalog,
        removed_plans,
        removed_segments,
        added_segments,
        added_plans,
    );
    if header.confidence@ == "known"@ && header.reason@.len() == 0 && profile.block_size
        == header.block_size && profile.hash_unit == header.hash_unit && content is Ok
        && content->Ok_0.0.segments.len() <= header.max_rows {
        content->Ok_0.1
    } else {
        Seq::empty()
    }
}

impl Normalizer {
    /// Applies an update to its baseline. The producer downgrades confidence
    /// only through a snapshot, so an update that claims a loss is malformed
    /// rather than a recoverable state.
    pub fn apply_update(
        self,
        header: &WireHeader,
        added_segments: &Vec<WireSegment>,
        removed_segments: &Vec<String>,
        added_plans: &Vec<WirePlan>,
        removed_plans: &Vec<String>,
    ) -> (after: Result<Normalizer, LogicalDecodeError>)
        requires
            self.wf(),
        ensures
            exists|mutations: Seq<Mutation>|
                spells_all(
                    mutations,
                    update_ops(
                        self.state(),
                        *header,
                        removed_plans@,
                        removed_segments@,
                        added_segments@,
                        added_plans@,
                    ),
                ) && comes_to(
                    #[trigger] updated(
                        self.state(),
                        *header,
                        removed_plans@,
                        removed_segments@,
                        added_segments@,
                        added_plans@,
                        self.ceilings(),
                        mutations,
                    ),
                    after,
                    self.ceilings(),
                ),
    {
        let ghost start = self.state();
        let ghost limits = self.ceilings();
        let ghost nothing = Seq::<Mutation>::empty();
        let mut normalizer = self;
        if !crate::text::same_text(header.confidence.as_str(), "known")
            || !header.reason.as_str().is_empty() {
            assert(updated(start, *header, removed_plans@, removed_segments@, added_segments@,
                added_plans@, limits, nothing)
                is Err);
            return Err(LogicalDecodeError::UpdateNotKnown);
        }
        if normalizer.profile.block_size != header.block_size || normalizer.profile.hash_unit
            != header.hash_unit {
            assert(updated(start, *header, removed_plans@, removed_segments@, added_segments@,
                added_plans@, limits, nothing)
                is Err);
            return Err(LogicalDecodeError::GeometryChanged);
        }
        let profile = normalizer.profile;
        let namespace: String = normalizer.view.scope().namespace.clone();
        // Retire before admitting, so a reused identity cannot double-credit.
        let mut mutations = normalizer.names.withdraw(removed_plans);
        let ghost m1 = mutations@;
        let mut retiring = normalizer.names.retire(removed_segments);
        let ghost m2 = retiring@;
        let mut covering = match normalizer.names.cover(
            profile,
            namespace.as_str(),
            added_segments,
        ) {
            Ok(covering) => covering,
            Err(error) => {
                assert(updated(start, *header, removed_plans@, removed_segments@, added_segments@,
                    added_plans@, limits, nothing)
                    is Err);
                return Err(error);
            },
        };
        let ghost m3 = covering@;
        let mut declaring = match normalizer.names.declare(added_plans) {
            Ok(declaring) => declaring,
            Err(error) => {
                assert(updated(start, *header, removed_plans@, removed_segments@, added_segments@,
                    added_plans@, limits, nothing)
                    is Err);
                return Err(error);
            },
        };
        let ghost m4 = declaring@;
        mutations.append(&mut retiring);
        mutations.append(&mut covering);
        mutations.append(&mut declaring);
        let ghost all = mutations@;
        proof {
            let (c1, o1) = withdrawn(start.catalog, removed_plans@);
            let (c2, o2) = retired(c1, removed_segments@);
            let third = covered_by(profile, namespace@, c2, added_segments@)->Ok_0;
            let fourth = declared_by(third.0, added_plans@)->Ok_0;
            lemma_spells_concat(m1, o1, m2, o2);
            lemma_spells_concat(m1 + m2, o1 + o2, m3, third.1);
            lemma_spells_concat(m1 + m2 + m3, o1 + o2 + third.1, m4, fourth.1);
            assert(all =~= m1 + m2 + m3 + m4);
            assert(normalizer.names.catalog() == fourth.0);
            assert(normalizer.names.catalog().segments.dom() =~= normalizer.names.segments@.dom());
        }
        if normalizer.names.segments.len() as u64 > header.max_rows {
            assert(updated(start, *header, removed_plans@, removed_segments@, added_segments@,
                added_plans@, limits, nothing)
                is Err);
            return Err(LogicalDecodeError::StateBudget);
        }
        let outcome = normalizer.commit(mutations, Ghost(start));
        let after = match outcome {
            Ok(()) => Ok(normalizer),
            Err(error) => Err(error),
        };
        assert(comes_to(
            updated(
                start,
                *header,
                removed_plans@,
                removed_segments@,
                added_segments@,
                added_plans@,
                limits,
                all,
            ),
            after,
            limits,
        ));
        after
    }

    /// The view that this epoch has come to.
    pub fn view(&self) -> (view: &LogicalView)
        requires
            self.wf(),
        ensures
            view.wf(),
            view@ == self.state().view,
    {
        &self.view
    }

    /// The declared name of a plan.
    pub fn plan_name(&self, id: u64) -> (name: Option<&String>)
        ensures
            match name {
                Some(text) => self.state().catalog.plan_names.contains_key(id) && text@
                    == self.state().catalog.plan_names[id],
                None => !self.state().catalog.plan_names.contains_key(id),
            },
    {
        self.names.plan_names.get(id)
    }

    /// The declared names of the plans, by their identifiers.
    pub fn plan_names(&self) -> (names: &IdMap<String>)
        ensures
            names_in(names@) == self.state().catalog.plan_names,
    {
        assert(names_in(self.names.plan_names@) =~= self.state().catalog.plan_names);
        &self.names.plan_names
    }
}

/// The names in a table of plan names.
pub open spec fn names_in(names: Map<u64, String>) -> Map<u64, Seq<char>> {
    Map::new(|id: u64| names.contains_key(id), |id: u64| names[id]@)
}

/// One self-sufficient cut, normalized.
pub struct NormalizedSnapshot {
    pub snapshot: Snapshot,
    /// Diagnostics keep the engine's declared plan identity, not its numeric
    /// interning key. This table is cut-scoped and bounded by `max_plans`.
    pub plan_names: IdMap<String>,
}

/// `normalized` is the cut that `state` has come to.
pub open spec fn normalizes(state: Normal, cursor: u64, normalized: NormalizedSnapshot) -> bool {
    let snapshot = normalized.snapshot;
    &&& snapshot.profile == state.view.profile
    &&& snapshot.scope@ == state.view.scope
    &&& snapshot.cursor == cursor
    &&& snapshot.confidence == state.view.confidence
    &&& crate::publisher::lists(snapshot.edges@, state.view.edges)
    &&& crate::publisher::lists(
        snapshot.bindings@,
        crate::table_fit::bindings_in(state.view.bindings),
    )
    &&& crate::publisher::lists(snapshot.plans@, crate::publisher::plan_set(state.view.plans))
    &&& ViewState::seeded(snapshot, state.view.limits) == ViewState { cursor, ..state.view }
    &&& names_in(normalized.plan_names@) == state.catalog.plan_names
}

/// Decode one self-sufficient snapshot, for fixture-level checks and for
/// consumers that only ever adopt an authoritative replacement.
pub fn decode_snapshot(
    payload: WirePayload,
    owner: ResidencyOwner,
    namespace: &str,
    limits: DecodeLimits,
) -> (normalized: Result<NormalizedSnapshot, LogicalDecodeError>)
    ensures
        match crate::logical_wire::cut_error(payload, owner, namespace@, limits) {
            Some(error) => normalized is Err && normalized->Err_0 == error,
            None => {
                let wire = payload.envelope->Ok_0.cuts@[0];
                if wire.event_type@ != "LogicalSnapshot"@ {
                    normalized is Err && normalized->Err_0 == LogicalDecodeError::NotASnapshot
                } else {
                    exists|header: WireHeader, mutations: Seq<Mutation>|
                        crate::logical_wire::header_of(wire, header) && spells_all(
                            mutations,
                            snapshot_ops(
                                header,
                                namespace@,
                                wire.segments->Some_0@,
                                wire.plans->Some_0@,
                            ),
                        ) && match #[trigger] built(
                            header,
                            wire.segments->Some_0@,
                            wire.plans->Some_0@,
                            owner,
                            namespace@,
                            limits,
                            mutations,
                        ) {
                            Ok(state) => normalized is Ok && normalizes(
                                state,
                                wire.cursor,
                                normalized->Ok_0,
                            ),
                            Err(error) => normalized is Err && normalized->Err_0 == error,
                        }
                }
            },
        },
{
    let ghost wire = payload.envelope->Ok_0.cuts@[0];
    let cut = match crate::logical_wire::decode_cut(payload, owner, namespace, limits) {
        Ok(cut) => cut,
        Err(error) => {
            return Err(error);
        },
    };
    let (header, segments, plans) = match cut {
        Cut::Snapshot { header, segments, plans } => (header, segments, plans),
        Cut::Update { .. } => {
            proof {
                reveal_strlit("LogicalSnapshot");
                reveal_strlit("LogicalUpdate");
                assert("LogicalSnapshot"@.len() != "LogicalUpdate"@.len());
            }
            return Err(LogicalDecodeError::NotASnapshot);
        },
    };
    match build_snapshot(&header, &segments, &plans, owner, namespace, limits) {
        Err(error) => Err(error),
        Ok(normalizer) => {
            let mut snapshot = normalizer.view.snapshot();
            let ghost whole = snapshot;
            snapshot.cursor = header.cursor;
            let normalized = NormalizedSnapshot {
                snapshot,
                plan_names: normalizer.names.plan_names,
            };
            proof {
                let state = normalizer.state();
                assert(names_in(normalized.plan_names@) =~= state.catalog.plan_names);
                assert(normalizes(state, wire.cursor, normalized));
            }
            Ok(normalized)
        },
    }
}

/// The prompt length that a query states.
pub open spec fn stated_length(tokens: Seq<u32>) -> u32 {
    if tokens.len() <= u32::MAX {
        tokens.len() as u32
    } else {
        u32::MAX
    }
}

/// `result` answers a query for `tokens` in the scope of the view.
pub open spec fn answers_tokens(v: ViewState, tokens: Seq<u32>, result: QueryResult) -> bool {
    let silent = result.raw_cpu_tokens == 0 && result.eligible_cpu_root_tokens is None
        && result.selected_plan is None;
    let prompt = stated_length(tokens);
    let full = segment_locals(tokens, v.profile.block_size, v.scope.namespace);
    let fine = segment_locals(tokens, v.profile.hash_unit, v.scope.namespace);
    &&& result.cursor == v.cursor
    &&& if v.confidence != Confidence::Known {
        silent && result.status == v.confidence
    } else if full.len() != prompt as int / v.profile.block_size as int || fine.len()
        != prompt as int / v.profile.hash_unit as int {
        silent && result.status == Confidence::UnsupportedQuery
    } else {
        crate::logical_view::matched(v, prompt, full, fine, result)
    }
}

/// Queries a view with plain token IDs in the explicitly bound model/layout
/// namespace. Callers with LoRA, multimodal content, a salt or EAGLE must not
/// use this.
pub fn query_tokens(view: &LogicalView, tokens: &[u32]) -> (result: QueryResult)
    requires
        view.wf(),
    ensures
        answers_tokens(view@, tokens@, result),
{
    let prompt_tokens: u32 = if tokens.len() as u64 <= u32::MAX as u64 {
        tokens.len() as u32
    } else {
        u32::MAX
    };
    if view.confidence() != Confidence::Known {
        let none: Vec<LocalBlockHash> = Vec::new();
        return view.query(
            &Query {
                scope: view.scope(),
                prompt_tokens,
                full: none.as_slice(),
                fine: none.as_slice(),
            },
        );
    }
    proof {
        view.lemma_known_is_ok();
    }
    let profile = view.profile();
    let options = BlockHashOptions {
        block_mm_infos: None,
        lora_name: None,
        cache_namespace: Some(view.scope().namespace.as_str()),
        is_eagle: None,
    };
    let full = crate::block_hash::compute_block_hash_for_seq(tokens, profile.block_size, options);
    let fine = crate::block_hash::compute_block_hash_for_seq(tokens, profile.hash_unit, options);
    proof {
        let namespace = view@.scope.namespace;
        assert(options.seed() == crate::block_hash::seed_of(None, Some(encode_utf8(namespace))));
        assert(full@ =~= segment_locals(tokens@, profile.block_size, namespace));
        assert(fine@ =~= segment_locals(tokens@, profile.hash_unit, namespace));
    }
    view.query(
        &Query {
            scope: view.scope(),
            prompt_tokens,
            full: full.as_slice(),
            fine: fine.as_slice(),
        },
    )
}

} // verus!
