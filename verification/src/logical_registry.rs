//! Multi-owner logical CPU views, their shared ceiling, and the mode that keeps
//! them out of routing until they are explicitly enabled.
//!
//! This is the consumer state a frontend or worker index holds once per attached
//! producer. It deliberately owns no socket: discovery, authentication and the
//! subscribing task belong to the runtime that already manages those lifetimes.
//!
//! * Unknown is not zero. A view that is missing, stale or unsupported yields
//!   `None`, never `Some(0)`, so a caller cannot read a lost view as an empty
//!   cache and route away from a warm worker.
//! * Observe never routes. In `Observe` the registry answers counterfactual
//!   questions and refuses to answer the routing question at all, so an
//!   observation cannot become a dispatch by accident.
//! * One owner cannot spend everyone's budget. The plan ceiling is aggregate
//!   across attached owners as well as per view.

use crate::keyed_table::{KeyedTable, TableKey};
use crate::logical::Confidence;
use crate::logical_stream::{LogicalStream, StreamState};
use crate::logical_view::QueryResult;
use crate::logical_wire::{DecodeLimits, LogicalDecodeError, WirePayload};
use crate::protocols::{ResidencyOwner, WorkerWithDpRank};
use vstd::prelude::*;
use vstd::string::*;

verus! {

/// How far the logical CPU view is allowed to reach into routing.
#[derive(Debug, Clone, Copy, PartialEq, Eq, Structural)]
pub enum LogicalMode {
    /// Nothing is decoded, held or reported. The default.
    Off,
    /// Views are maintained and can be inspected, but never answer a routing
    /// question. Use this to compare proposed choices against live ones.
    Observe,
    /// Views may additionally supply CPU-root overlap to the selector.
    Use,
}

impl Default for LogicalMode {
    fn default() -> (mode: Self)
        ensures
            mode == LogicalMode::Off,
    {
        LogicalMode::Off
    }
}

/// One attached owner's answer for one request. `eligible_cpu_root_tokens` is
/// the only value a selector may consume, and only in [`LogicalMode::Use`].
#[derive(Debug, PartialEq, Eq)]
pub struct WorkerOverlap {
    pub worker: WorkerWithDpRank,
    pub status: Confidence,
    /// `None` means unknown, never a measured zero.
    pub eligible_cpu_root_tokens: Option<u32>,
    /// Coverage actually matched. Diagnostic only: coverage never authorises an
    /// endpoint, and the gap between this and the eligible value is the whole
    /// point of the profile.
    pub raw_cpu_tokens: u32,
    /// The engine's own declared plan name, not the interning key.
    pub selected_plan: Option<String>,
    /// The producer's wire cursor for the cut this answer was read from, so a
    /// recorded decision can be reconciled against engine-side logs.
    pub cursor: u64,
}

#[derive(Debug, Clone, Copy, PartialEq, Eq, Structural)]
pub enum SelectionReason {
    /// The registry is Off, so it expresses no opinion at all.
    ModeDisabled,
    /// No attached owner among the candidates.
    NoCandidates,
    /// Every candidate was unknown or certified nothing reusable.
    NoLogicalCredit,
    /// A candidate certified the deepest reusable endpoint.
    MaximumEligibleEndpoint,
}

/// What the registry *would* choose, recorded without enqueue, capacity
/// reservation or dispatch.
#[derive(Debug, PartialEq, Eq)]
pub struct CounterfactualSelection {
    pub proposed: Option<WorkerWithDpRank>,
    pub reason: SelectionReason,
    pub candidates: Vec<WorkerOverlap>,
}

#[derive(Debug, Clone, Copy)]
pub struct RegistryLimits {
    pub decode: DecodeLimits,
    /// Ceiling on live plans summed over every attached owner.
    pub aggregate_plans: usize,
    /// Ceiling on simultaneously attached owners.
    pub owners: usize,
}

impl Default for RegistryLimits {
    fn default() -> (limits: Self)
        ensures
            limits.decode.bytes == 16 * 1024 * 1024,
            limits.decode.state.bindings == 4096,
            limits.decode.state.edges == 262_144,
            limits.decode.state.plans == 65_536,
            limits.decode.epochs == 256,
            limits.aggregate_plans == 262_144,
            limits.owners == 1024,
    {
        RegistryLimits { decode: DecodeLimits::default(), aggregate_plans: 262_144, owners: 1024 }
    }
}

#[derive(Debug)]
pub enum RegistryError {
    Disabled,
    NotAttached(WorkerWithDpRank),
    OwnerCeiling,
    Decode(LogicalDecodeError),
    AggregateCeiling,
}

impl RegistryError {
    pub open spec fn text(self) -> Seq<char> {
        match self {
            RegistryError::Disabled => "logical cache registry is disabled"@,
            RegistryError::NotAttached(worker) => {
                "owner WorkerWithDpRank { worker_id: "@ + crate::text::decimal(
                    worker.worker_id as nat,
                ) + ", dp_rank: "@ + crate::text::decimal(worker.dp_rank as nat)
                    + " } is not attached"@
            },
            RegistryError::OwnerCeiling => "attached owner ceiling reached"@,
            RegistryError::Decode(error) => {
                "unsupported or invalid logical CPU cut: "@ + error.detail()
            },
            RegistryError::AggregateCeiling => {
                "aggregate plan ceiling exceeded; this owner's view was retired"@
            },
        }
    }

    pub fn message(&self) -> (text: String)
        ensures
            text@ == self.text(),
    {
        match self {
            RegistryError::Disabled => "logical cache registry is disabled".to_owned(),
            RegistryError::NotAttached(worker) => {
                let mut text = "owner WorkerWithDpRank { worker_id: ".to_owned();
                text.append(crate::text::render_number(worker.worker_id).as_str());
                text.append(", dp_rank: ");
                text.append(crate::text::render_number(worker.dp_rank as u64).as_str());
                text.append(" } is not attached");
                text
            },
            RegistryError::OwnerCeiling => "attached owner ceiling reached".to_owned(),
            RegistryError::Decode(error) => error.message(),
            RegistryError::AggregateCeiling => {
                "aggregate plan ceiling exceeded; this owner's view was retired".to_owned()
            },
        }
    }
}

/// The streams of the attached owners.
pub type Streams = Map<WorkerWithDpRank, StreamState>;

/// How many plans a stream holds live.
pub open spec fn live_plans_of(stream: StreamState) -> nat {
    match stream.normal {
        Some(normal) => normal.view.plans.len(),
        None => 0,
    }
}

/// The live plans of all streams together.
pub open spec fn total_plans(streams: Streams) -> nat {
    crate::sums::sum_of(streams.map_values(|stream: StreamState| live_plans_of(stream)))
}

/// A stream that has seen nothing yet.
pub open spec fn silent_stream() -> StreamState {
    StreamState {
        transport: None,
        epoch: None,
        cursor: 0,
        retired: Seq::empty(),
        needs_replay: false,
        normal: None,
    }
}

/// `overlap` is what the owner `worker` answers for a prompt.
pub open spec fn overlaps(
    streams: Streams,
    worker: WorkerWithDpRank,
    tokens: Seq<u32>,
    overlap: WorkerOverlap,
) -> bool {
    let stream = streams[worker];
    let normal = stream.normal->Some_0;
    &&& answering(streams, worker)
    &&& overlap.worker == worker
    &&& overlap.cursor == stream.cursor
    &&& exists|result: QueryResult| #[trigger]
        crate::logical_normalizer::answers_tokens(normal.view, tokens, result) && {
            &&& overlap.status == result.status
            &&& overlap.raw_cpu_tokens == result.raw_cpu_tokens
            &&& overlap.eligible_cpu_root_tokens == (if result.status == Confidence::Known {
                result.eligible_cpu_root_tokens
            } else {
                None
            })
            &&& match overlap.selected_plan {
                Some(name) => result.selected_plan is Some
                    && normal.catalog.plan_names.contains_key(result.selected_plan->Some_0)
                    && name@ == normal.catalog.plan_names[result.selected_plan->Some_0],
                None => result.selected_plan is Some ==> !normal.catalog.plan_names.contains_key(
                    result.selected_plan->Some_0,
                ),
            }
        }
}

/// The owner is attached and has a view.
pub open spec fn answering(streams: Streams, worker: WorkerWithDpRank) -> bool {
    streams.contains_key(worker) && streams[worker].normal is Some
}

/// The place of a worker in the order by identifier, then rank.
pub open spec fn place(worker: WorkerWithDpRank) -> int {
    worker.worker_id * 0x1_0000_0000 + worker.dp_rank
}

fn place_of(worker: WorkerWithDpRank) -> (at: u128)
    ensures
        at == place(worker),
{
    worker.worker_id as u128 * 0x1_0000_0000 + worker.dp_rank as u128
}

/// The workers that the answers are about.
pub open spec fn workers_in(overlaps: Seq<WorkerOverlap>) -> Seq<WorkerWithDpRank> {
    overlaps.map_values(|overlap: WorkerOverlap| overlap.worker)
}

/// The candidates that answer.
pub open spec fn answerers(streams: Streams, candidates: Seq<WorkerWithDpRank>) -> Seq<
    WorkerWithDpRank,
>
    decreases candidates.len(),
{
    if candidates.len() == 0 {
        Seq::empty()
    } else {
        let before = answerers(streams, candidates.drop_last());
        if answering(streams, candidates.last()) {
            before.push(candidates.last())
        } else {
            before
        }
    }
}

/// The certified endpoint of an answer; what is unknown counts for nothing.
pub open spec fn credit(overlap: WorkerOverlap) -> u32 {
    match overlap.eligible_cpu_root_tokens {
        Some(tokens) => tokens,
        None => 0,
    }
}

/// `selection` is the registry's choice among the candidates: the deepest
/// certified endpoint, and among equals the lowest worker.
pub open spec fn selects(
    streams: Streams,
    candidates: Seq<WorkerWithDpRank>,
    tokens: Seq<u32>,
    selection: CounterfactualSelection,
) -> bool {
    let given = selection.candidates@;
    &&& workers_in(given).to_multiset() == answerers(streams, candidates).to_multiset()
    &&& forall|i: int|
        0 <= i < given.len() ==> overlaps(
            streams,
            (#[trigger] given[i]).worker,
            tokens,
            given[i],
        )
    &&& forall|i: int, j: int|
        0 <= i < j < given.len() ==> place((#[trigger] given[i]).worker) <= place(
            (#[trigger] given[j]).worker,
        )
    &&& match selection.proposed {
        Some(worker) => {
            &&& selection.reason == SelectionReason::MaximumEligibleEndpoint
            &&& exists|i: int| #[trigger] wins(given, i) && given[i].worker == worker
        },
        None => {
            &&& selection.reason == (if given.len() == 0 {
                SelectionReason::NoCandidates
            } else {
                SelectionReason::NoLogicalCredit
            })
            &&& forall|i: int| 0 <= i < given.len() ==> credit(#[trigger] given[i]) == 0
        },
    }
}

/// The answer at `i` certifies the most, and no lower worker certifies as much.
pub open spec fn wins(given: Seq<WorkerOverlap>, i: int) -> bool {
    &&& 0 <= i < given.len()
    &&& credit(given[i]) > 0
    &&& forall|j: int|
        0 <= j < given.len() ==> credit(#[trigger] given[j]) < credit(given[i]) || (credit(given[j])
            == credit(given[i]) && place(given[i].worker) <= place(given[j].worker))
}

/// The views of all attached producers.
pub struct LogicalRegistry {
    mode: LogicalMode,
    namespace: String,
    limits: RegistryLimits,
    streams: KeyedTable<WorkerWithDpRank, LogicalStream>,
}

spec fn streams_in(streams: Map<WorkerWithDpRank, LogicalStream>) -> Streams {
    Map::new(
        |worker: WorkerWithDpRank| streams.contains_key(worker),
        |worker: WorkerWithDpRank| streams[worker].state(),
    )
}

impl LogicalRegistry {
    pub closed spec fn streams(&self) -> Streams {
        streams_in(self.streams@)
    }

    pub closed spec fn setting(&self) -> LogicalMode {
        self.mode
    }

    pub closed spec fn ceilings(&self) -> RegistryLimits {
        self.limits
    }

    pub closed spec fn domain(&self) -> Seq<char> {
        self.namespace@
    }

    /// Every stream follows the cuts of its own worker in the one namespace,
    /// and a registry that is off has none.
    pub closed spec fn wf(&self) -> bool {
        &&& self.streams.wf()
        &&& forall|worker: WorkerWithDpRank| #[trigger]
            self.streams@.contains_key(worker) ==> {
                &&& self.streams@[worker].wf()
                &&& self.streams@[worker].source() == (
                    ResidencyOwner::Worker(worker),
                    self.namespace@,
                )
                &&& self.streams@[worker].ceilings() == self.limits.decode
            }
        &&& self.mode == LogicalMode::Off ==> self.streams@ == Map::<
            WorkerWithDpRank,
            LogicalStream,
        >::empty()
    }

    pub fn new(mode: LogicalMode, namespace: String, limits: RegistryLimits) -> (s: Self)
        ensures
            s.wf(),
            s.setting() == mode,
            s.domain() == namespace@,
            s.ceilings() == limits,
            s.streams() == Streams::empty(),
    {
        let s = LogicalRegistry { mode, namespace, limits, streams: KeyedTable::new() };
        assert(s.streams() =~= Streams::empty());
        s
    }

    pub fn mode(&self) -> (mode: LogicalMode)
        ensures
            mode == self.setting(),
    {
        self.mode
    }

    /// How many owners are attached.
    pub fn attached(&self) -> (n: usize)
        requires
            self.wf(),
        ensures
            n == self.streams().dom().len(),
    {
        assert(self.streams().dom() =~= self.streams@.dom());
        self.streams.len()
    }

    /// Discovery found an authenticated producer for this rank.
    pub fn attach(&mut self, worker: WorkerWithDpRank) -> (outcome: Result<(), RegistryError>)
        requires
            old(self).wf(),
        ensures
            final(self).wf(),
            final(self).setting() == old(self).setting(),
            final(self).domain() == old(self).domain(),
            final(self).ceilings() == old(self).ceilings(),
            if old(self).setting() == LogicalMode::Off {
                &&& outcome is Err && outcome->Err_0 is Disabled
                &&& final(self).streams() == old(self).streams()
            } else if old(self).streams().contains_key(worker) {
                outcome is Ok && final(self).streams() == old(self).streams()
            } else if old(self).streams().dom().len() >= old(self).ceilings().owners {
                &&& outcome is Err && outcome->Err_0 is OwnerCeiling
                &&& final(self).streams() == old(self).streams()
            } else {
                outcome is Ok && final(self).streams() == old(self).streams().insert(
                    worker,
                    silent_stream(),
                )
            },
    {
        if self.mode == LogicalMode::Off {
            return Err(RegistryError::Disabled);
        }
        if self.streams.contains(&worker) {
            return Ok(());
        }
        assert(self.streams().dom() =~= self.streams@.dom());
        if self.streams.len() >= self.limits.owners {
            return Err(RegistryError::OwnerCeiling);
        }
        let ghost before = self.streams@;
        let stream = LogicalStream::new(
            ResidencyOwner::worker(worker),
            self.namespace.clone(),
            self.limits.decode,
        );
        self.streams.insert(worker, stream);
        assert(self.streams() =~= streams_in(before).insert(worker, silent_stream()));
        Ok(())
    }

    /// The producer is gone. Its credit disappears with it; nothing is retained
    /// as a stale positive for a worker that may no longer hold the rows.
    pub fn detach(&mut self, worker: WorkerWithDpRank)
        requires
            old(self).wf(),
        ensures
            final(self).wf(),
            final(self).setting() == old(self).setting(),
            final(self).domain() == old(self).domain(),
            final(self).ceilings() == old(self).ceilings(),
            final(self).streams() == old(self).streams().remove(worker),
    {
        let ghost before = self.streams@;
        self.streams.remove(&worker);
        proof {
            assert(self.streams() =~= streams_in(before).remove(worker));
            if self.mode == LogicalMode::Off {
                assert(self.streams@ =~= Map::<WorkerWithDpRank, LogicalStream>::empty());
            }
        }
    }

    /// The authenticated attachment was replaced. Transport sequences restart
    /// with the socket, so continuity is not inferred from the wire.
    pub fn reattach(&mut self, worker: WorkerWithDpRank)
        requires
            old(self).wf(),
        ensures
            final(self).wf(),
            final(self).setting() == old(self).setting(),
            final(self).domain() == old(self).domain(),
            final(self).ceilings() == old(self).ceilings(),
            final(self).streams() == (if old(self).streams().contains_key(worker) {
                old(self).streams().insert(
                    worker,
                    StreamState {
                        transport: None,
                        ..old(self).streams()[worker].invalidated()
                    },
                )
            } else {
                old(self).streams()
            }),
    {
        let ghost before = self.streams@;
        let removed = self.streams.remove(&worker);
        match removed {
            Some(mut stream) => {
                stream.reattach();
                let ghost now = stream.state();
                self.streams.insert(worker, stream);
                assert(self.streams() =~= streams_in(before).insert(worker, now));
            },
            None => {
                assert(self.streams@ =~= before);
            },
        }
    }

    /// The live plans of all owners, as a number that cannot overflow.
    fn aggregate_plans(&self) -> (n: u128)
        requires
            self.wf(),
        ensures
            n == total_plans(self.streams()),
    {
        let ghost all = self.streams.entries@;
        let mut total: u128 = 0;
        let mut i: usize = 0;
        let count: usize = self.streams.entries.len();
        proof {
            let none = all.take(0);
            assert(crate::keyed_table::map_of(none) =~= Map::<
                WorkerWithDpRank,
                LogicalStream,
            >::empty());
            assert(plan_counts(crate::keyed_table::map_of(none)) =~= Map::<
                WorkerWithDpRank,
                nat,
            >::empty());
            crate::sums::lemma_sum_empty::<WorkerWithDpRank>();
        }
        while i < count
            invariant
                self.wf(),
                all == self.streams.entries@,
                count == all.len(),
                i <= count,
                crate::keyed_table::distinct_keys(all.take(i as int)),
                total == crate::sums::sum_of(
                    plan_counts(crate::keyed_table::map_of(all.take(i as int))),
                ),
                total <= i * usize::MAX,
            decreases count - i,
        {
            let stream = &self.streams.entries[i].1;
            let ghost worker = all[i as int].0;
            proof {
                crate::keyed_table::lemma_entry(all, i as int);
                assert(self.streams@.contains_key(worker));
                let upto = all.take(i as int);
                let next = all.take(i + 1);
                assert(next =~= upto.push(all[i as int]));
                assert(!crate::keyed_table::map_of(upto).contains_key(worker)) by {
                    if crate::keyed_table::map_of(upto).contains_key(worker) {
                        let j = choose|j: int| crate::keyed_table::entry_at(upto, worker, j);
                        assert(all[j].0.key() == all[i as int].0.key());
                    }
                }
                crate::keyed_table::lemma_push(upto, all[i as int]);
                crate::keyed_table::lemma_size(upto);
                let counts = plan_counts(crate::keyed_table::map_of(upto));
                assert(counts.dom() =~= crate::keyed_table::map_of(upto).dom());
                crate::sums::lemma_sum_insert(counts, worker, live_plans_of(stream.state()));
                assert(plan_counts(crate::keyed_table::map_of(next)) =~= counts.insert(
                    worker,
                    live_plans_of(stream.state()),
                ));
                assert((i + 1) * usize::MAX == i * usize::MAX + usize::MAX) by (nonlinear_arith);
                assert((i + 1) * usize::MAX <= usize::MAX * usize::MAX) by (nonlinear_arith)
                    requires
                        i + 1 <= usize::MAX,
                ;
                assert(usize::MAX * usize::MAX <= u64::MAX * u64::MAX) by (nonlinear_arith)
                    requires
                        0 <= usize::MAX <= u64::MAX,
                ;
            }
            let live: usize = match stream.view() {
                Some(view) => view.plan_count(),
                None => 0,
            };
            total = total + live as u128;
            i = i + 1;
        }
        proof {
            assert(all.take(all.len() as int) =~= all);
            assert(plan_counts(self.streams@) =~= self.streams().map_values(
                |stream: StreamState| live_plans_of(stream),
            ));
        }
        total
    }

    /// Live plans summed over every attached owner, for metrics and for the
    /// shared ceiling.
    pub fn live_plans(&self) -> (n: usize)
        requires
            self.wf(),
        ensures
            total_plans(self.streams()) <= usize::MAX ==> n == total_plans(self.streams()),
            total_plans(self.streams()) > usize::MAX ==> n == usize::MAX,
    {
        let total: u128 = self.aggregate_plans();
        if total <= usize::MAX as u128 {
            total as usize
        } else {
            usize::MAX
        }
    }
}

spec fn plan_counts(streams: Map<WorkerWithDpRank, LogicalStream>) -> Map<WorkerWithDpRank, nat> {
    Map::new(
        |worker: WorkerWithDpRank| streams.contains_key(worker),
        |worker: WorkerWithDpRank| live_plans_of(streams[worker].state()),
    )
}

/// `after` and `answer` are what a frame of an attached owner makes of the
/// registry. The owner that just grew past the shared ceiling is retired, not
/// an arbitrary victim: the others' views are still trustworthy.
pub open spec fn registers(
    before: Streams,
    worker: WorkerWithDpRank,
    transport: u64,
    payload: WirePayload,
    namespace: Seq<char>,
    limits: RegistryLimits,
    after: Streams,
    answer: Result<bool, RegistryError>,
) -> bool {
    exists|stream: StreamState, accepted: Result<bool, LogicalDecodeError>|
        #[trigger] crate::logical_stream::ingests(
            before[worker],
            transport,
            payload,
            ResidencyOwner::Worker(worker),
            namespace,
            limits.decode,
            stream,
            accepted,
        ) && {
            let followed = before.insert(worker, stream);
            match accepted {
                Err(error) => {
                    &&& answer is Err && answer->Err_0 is Decode && answer->Err_0->Decode_0 == error
                    &&& after == followed
                },
                Ok(taken) => if taken && total_plans(followed) > limits.aggregate_plans {
                    &&& answer is Err && answer->Err_0 is AggregateCeiling
                    &&& after == before.insert(worker, stream.invalidated())
                } else {
                    &&& answer is Ok && answer->Ok_0 == taken
                    &&& after == followed
                },
            }
        }
}

impl LogicalRegistry {
    /// Takes in one frame of an owner.
    pub fn ingest(&mut self, worker: WorkerWithDpRank, transport_cursor: u64,
        payload: WirePayload) -> (answer:
        Result<bool, RegistryError>)
        requires
            old(self).wf(),
        ensures
            final(self).wf(),
            final(self).setting() == old(self).setting(),
            final(self).domain() == old(self).domain(),
            final(self).ceilings() == old(self).ceilings(),
            if old(self).setting() == LogicalMode::Off {
                &&& answer is Err && answer->Err_0 is Disabled
                &&& final(self).streams() == old(self).streams()
            } else if !old(self).streams().contains_key(worker) {
                &&& answer is Err && answer->Err_0 is NotAttached
                &&& answer->Err_0->NotAttached_0 == worker
                &&& final(self).streams() == old(self).streams()
            } else {
                registers(
                    old(self).streams(),
                    worker,
                    transport_cursor,
                    payload,
                    old(self).domain(),
                    old(self).ceilings(),
                    final(self).streams(),
                    answer,
                )
            },
    {
        if self.mode == LogicalMode::Off {
            return Err(RegistryError::Disabled);
        }
        let ghost before = self.streams@;
        let mut stream: LogicalStream = match self.streams.remove(&worker) {
            Some(stream) => stream,
            None => {
                assert(self.streams@ =~= before);
                return Err(RegistryError::NotAttached(worker));
            },
        };
        let ghost was = stream.state();
        let accepted = stream.ingest(transport_cursor, payload);
        let ghost now = stream.state();
        proof {
            assert(crate::logical_stream::ingests(
                streams_in(before)[worker],
                transport_cursor,
                payload,
                ResidencyOwner::Worker(worker),
                self.namespace@,
                self.limits.decode,
                now,
                accepted,
            ));
        }
        self.streams.insert(worker, stream);
        assert(self.streams() =~= streams_in(before).insert(worker, now));
        let taken: bool = match accepted {
            Ok(taken) => taken,
            Err(error) => {
                return Err(RegistryError::Decode(error));
            },
        };
        if taken && self.aggregate_plans() > self.limits.aggregate_plans as u128 {
            let ghost followed = self.streams@;
            if let Some(mut grown) = self.streams.remove(&worker) {
                grown.invalidate();
                self.streams.insert(worker, grown);
            }
            assert(self.streams() =~= streams_in(before).insert(worker, now.invalidated()));
            return Err(RegistryError::AggregateCeiling);
        }
        Ok(taken)
    }

    /// What an owner answers for a prompt.
    fn overlap_of(&self, worker: WorkerWithDpRank, tokens: &[u32]) -> (overlap: Option<
        WorkerOverlap,
    >)
        requires
            self.wf(),
        ensures
            overlap is Some <==> answering(self.streams(), worker),
            overlap is Some ==> overlaps(self.streams(), worker, tokens@, overlap->Some_0),
    {
        let stream: &LogicalStream = match self.streams.get(&worker) {
            Some(stream) => stream,
            None => {
                return None;
            },
        };
        let view = match stream.view() {
            Some(view) => view,
            None => {
                return None;
            },
        };
        let result = crate::logical_normalizer::query_tokens(view, tokens);
        let eligible_cpu_root_tokens: Option<u32> = if result.status == Confidence::Known {
            result.eligible_cpu_root_tokens
        } else {
            None
        };
        let selected_plan: Option<String> = match result.selected_plan {
            Some(id) => match stream.plan_name(id) {
                Some(name) => Some(name.clone()),
                None => None,
            },
            None => None,
        };
        let cursor: u64 = match stream.cursor() {
            Some(cursor) => cursor,
            None => 0,
        };
        assert(crate::logical_normalizer::answers_tokens(
            self.streams()[worker].normal->Some_0.view,
            tokens@,
            result,
        ));
        Some(
            WorkerOverlap {
                worker,
                status: result.status,
                eligible_cpu_root_tokens,
                raw_cpu_tokens: result.raw_cpu_tokens,
                selected_plan,
                cursor,
            },
        )
    }

    /// The only value a selector may consume, and only in [`LogicalMode::Use`].
    ///
    /// `None` covers every case where this registry has nothing certified to
    /// say: disabled, observing, not attached, no accepted baseline, or an
    /// unsupported query. A caller must fall back to its existing residency
    /// authority rather than reading it as an empty cache.
    pub fn routing_overlap(&self, worker: WorkerWithDpRank, tokens: &[u32]) -> (eligible: Option<
        u32,
    >)
        requires
            self.wf(),
        ensures
            if self.setting() != LogicalMode::Use || !answering(self.streams(), worker) {
                eligible is None
            } else {
                exists|overlap: WorkerOverlap| #[trigger]
                    overlaps(self.streams(), worker, tokens@, overlap) && eligible
                        == overlap.eligible_cpu_root_tokens
            },
    {
        if self.mode != LogicalMode::Use {
            return None;
        }
        match self.overlap_of(worker, tokens) {
            Some(overlap) => {
                assert(overlaps(self.streams(), worker, tokens@, overlap));
                overlap.eligible_cpu_root_tokens
            },
            None => None,
        }
    }

    /// The answers of the candidates, in the order of the workers.
    fn ordered_overlaps(&self, candidates: &[WorkerWithDpRank], tokens: &[u32]) -> (given: Vec<
        WorkerOverlap,
    >)
        requires
            self.wf(),
        ensures
            workers_in(given@).to_multiset() == answerers(
                self.streams(),
                candidates@,
            ).to_multiset(),
            forall|i: int|
                0 <= i < given@.len() ==> overlaps(
                    self.streams(),
                    (#[trigger] given@[i]).worker,
                    tokens@,
                    given@[i],
                ),
            in_order(given@),
    {
        let mut given: Vec<WorkerOverlap> = Vec::new();
        let ghost streams = self.streams();
        let mut i: usize = 0;
        proof {
            assert(workers_in(given@) =~= Seq::<WorkerWithDpRank>::empty());
            assert(candidates@.take(0) =~= Seq::<WorkerWithDpRank>::empty());
        }
        while i < candidates.len()
            invariant
                i <= candidates@.len(),
                self.wf(),
                streams == self.streams(),
                workers_in(given@).to_multiset() == answerers(
                    streams,
                    candidates@.take(i as int),
                ).to_multiset(),
                forall|k: int|
                    0 <= k < given@.len() ==> overlaps(
                        streams,
                        (#[trigger] given@[k]).worker,
                        tokens@,
                        given@[k],
                    ),
                in_order(given@),
            decreases candidates@.len() - i,
        {
            let worker = candidates[i];
            proof {
                assert(candidates@.take(i + 1).drop_last() =~= candidates@.take(i as int));
                assert(candidates@.take(i + 1).last() == worker);
            }
            if let Some(overlap) = self.overlap_of(worker, tokens) {
                let ghost before = given@;
                let mut at: usize = 0;
                while at < given.len() && place_of(given[at].worker) <= place_of(worker)
                    invariant
                        at <= given@.len(),
                        given@ == before,
                        forall|k: int|
                            0 <= k < at ==> place((#[trigger] before[k]).worker) <= place(worker),
                    decreases given@.len() - at,
                {
                    at = at + 1;
                }
                let ghost added = overlap;
                given.insert(at, overlap);
                proof {
                    let after = given@;
                    assert(after =~= before.insert(at as int, added));
                    assert(workers_in(after) =~= workers_in(before).insert(at as int, worker));
                    vstd::seq_lib::to_multiset_insert(workers_in(before), at as int, worker);
                    assert(answerers(streams, candidates@.take(i + 1)) == answerers(
                        streams,
                        candidates@.take(i as int),
                    ).push(worker));
                    vstd::seq_lib::to_multiset_build(
                        answerers(streams, candidates@.take(i as int)),
                        worker,
                    );
                    assert(workers_in(after).to_multiset() == answerers(
                        streams,
                        candidates@.take(i + 1),
                    ).to_multiset());
                    assert(in_order(after)) by {
                        assert forall|a: int, b: int| 0 <= a < b < after.len() implies place(
                            (#[trigger] after[a]).worker,
                        ) <= place((#[trigger] after[b]).worker) by {
                            let x = if a < at { a } else { a - 1 };
                            let y = if b < at { b } else { b - 1 };
                            if a != at {
                                assert(after[a] == before[x]);
                            }
                            if b != at {
                                assert(after[b] == before[y]);
                            }
                            if a == at && b > at {
                                assert(place(before[at as int].worker) <= place(before[y].worker)
                                    || y == at);
                            }
                        }
                    }
                    assert forall|k: int| 0 <= k < after.len() implies overlaps(
                        streams,
                        (#[trigger] after[k]).worker,
                        tokens@,
                        after[k],
                    ) by {
                        if k != at {
                            let x = if k < at { k } else { k - 1 };
                            assert(after[k] == before[x]);
                        }
                    }
                }
            }
            i = i + 1;
        }
        assert(candidates@.take(candidates@.len() as int) =~= candidates@);
        given
    }

    /// Read-only counterfactual over the given candidates. Available in Observe
    /// as well as Use, and never touches any view's state.
    pub fn counterfactual(&self, candidates: &[WorkerWithDpRank], tokens: &[u32]) -> (selection:
        CounterfactualSelection)
        requires
            self.wf(),
        ensures
            if self.setting() == LogicalMode::Off {
                &&& selection.proposed is None
                &&& selection.reason == SelectionReason::ModeDisabled
                &&& selection.candidates@.len() == 0
            } else {
                selects(self.streams(), candidates@, tokens@, selection)
            },
            match selection.proposed {
                Some(worker) => exists|i: int|
                    {
                        &&& 0 <= i < selection.candidates@.len()
                        &&& #[trigger] selection.candidates@[i].worker == worker
                        &&& selection.candidates@[i].eligible_cpu_root_tokens is Some
                        &&& selection.candidates@[i].eligible_cpu_root_tokens->Some_0 > 0
                        &&& forall|j: int|
                            0 <= j < selection.candidates@.len() ==> match
                            #[trigger] selection.candidates@[j].eligible_cpu_root_tokens {
                                Some(t) => t
                                    <= selection.candidates@[i].eligible_cpu_root_tokens->Some_0,
                                None => true,
                            }
                    },
                None => forall|j: int|
                    0 <= j < selection.candidates@.len() ==> match
                    #[trigger] selection.candidates@[j].eligible_cpu_root_tokens {
                        Some(t) => t == 0,
                        None => true,
                    },
            },
    {
        if self.mode == LogicalMode::Off {
            return CounterfactualSelection {
                proposed: None,
                reason: SelectionReason::ModeDisabled,
                candidates: Vec::new(),
            };
        }
        let given = self.ordered_overlaps(candidates, tokens);
        // Deepest certified endpoint wins; ties go to the lowest worker so the
        // record is reproducible. An unknown view never competes.
        let mut best: Option<usize> = None;
        let mut deepest: u32 = 0;
        let mut i: usize = 0;
        while i < given.len()
            invariant
                i <= given@.len(),
                in_order(given@),
                match best {
                    Some(b) => {
                        &&& b < i
                        &&& deepest == credit(given@[b as int])
                        &&& deepest > 0
                        &&& forall|j: int|
                            0 <= j < i ==> credit(#[trigger] given@[j]) <= deepest && (credit(
                                given@[j],
                            ) == deepest ==> b <= j)
                    },
                    None => deepest == 0 && forall|j: int|
                        0 <= j < i ==> credit(#[trigger] given@[j]) == 0,
                },
            decreases given@.len() - i,
        {
            let tokens: u32 = match given[i].eligible_cpu_root_tokens {
                Some(tokens) => tokens,
                None => 0,
            };
            if tokens > deepest {
                deepest = tokens;
                best = Some(i);
            }
            i = i + 1;
        }
        let (proposed, reason) = match best {
            Some(b) => {
                assert(wins(given@, b as int));
                (Some(given[b].worker), SelectionReason::MaximumEligibleEndpoint)
            },
            None => if given.len() == 0 {
                (None, SelectionReason::NoCandidates)
            } else {
                (None, SelectionReason::NoLogicalCredit)
            },
        };
        let selection = CounterfactualSelection { proposed, reason, candidates: given };
        proof {
            let i = law_proposal_is_certified(self.streams(), candidates@, tokens@, selection);
            if selection.proposed is Some {
                assert(selection.candidates@[i].worker == selection.proposed->Some_0);
            }
        }
        selection
    }
}

/// The answers stand in the order of the workers.
spec fn in_order(given: Seq<WorkerOverlap>) -> bool {
    forall|i: int, j: int|
        0 <= i < j < given.len() ==> place((#[trigger] given[i]).worker) <= place(
            (#[trigger] given[j]).worker,
        )
}

/// Only certified tokens compete. The proposed worker's own answer, at place
/// `i`, certifies a positive number of tokens and no other answer certifies
/// more; an answer that certifies as much is of the same or a higher worker.
/// Nobody is proposed exactly where no answer certifies a single token.
pub proof fn law_proposal_is_certified(
    streams: Streams,
    candidates: Seq<WorkerWithDpRank>,
    tokens: Seq<u32>,
    selection: CounterfactualSelection,
) -> (i: int)
    requires
        selects(streams, candidates, tokens, selection),
    ensures
        selection.proposed is Some ==> {
            let worker = selection.proposed->Some_0;
            let own = selection.candidates@[i].eligible_cpu_root_tokens;
            &&& 0 <= i < selection.candidates@.len()
            &&& selection.candidates@[i].worker == worker
            &&& own is Some
            &&& own->Some_0 > 0
            &&& forall|j: int|
                0 <= j < selection.candidates@.len() ==> match
                #[trigger] selection.candidates@[j].eligible_cpu_root_tokens {
                    Some(t) => {
                        let other = selection.candidates@[j].worker;
                        &&& t <= own->Some_0
                        &&& t == own->Some_0 ==> worker.worker_id < other.worker_id || (
                        worker.worker_id == other.worker_id && worker.dp_rank <= other.dp_rank)
                    },
                    None => true,
                }
        },
        selection.proposed is None ==> forall|j: int|
            0 <= j < selection.candidates@.len() ==> match
            #[trigger] selection.candidates@[j].eligible_cpu_root_tokens {
                Some(t) => t == 0,
                None => true,
            },
        selection.reason == SelectionReason::MaximumEligibleEndpoint <==> selection.proposed is Some,
        selection.reason == SelectionReason::NoCandidates <==> selection.candidates@.len() == 0,
        selection.reason == SelectionReason::NoLogicalCredit <==> selection.proposed is None
            && selection.candidates@.len() > 0,
{
    let given = selection.candidates@;
    let i = choose|i: int| #[trigger] wins(given, i) && given[i].worker == selection.proposed->Some_0;
    assert forall|j: int| 0 <= j < given.len() && selection.proposed is None implies match
    #[trigger] given[j].eligible_cpu_root_tokens {
        Some(t) => t == 0,
        None => true,
    } by {
        assert(credit(given[j]) == 0);
    }
    if selection.proposed is Some {
        let worker = selection.proposed->Some_0;
        let own = given[i].eligible_cpu_root_tokens;
        assert(wins(given, i) && given[i].worker == worker);
        assert(credit(given[i]) > 0);
        assert forall|j: int| 0 <= j < given.len() implies match
        #[trigger] given[j].eligible_cpu_root_tokens {
            Some(t) => {
                let other = given[j].worker;
                &&& t <= own->Some_0
                &&& t == own->Some_0 ==> worker.worker_id < other.worker_id || (worker.worker_id
                    == other.worker_id && worker.dp_rank <= other.dp_rank)
            },
            None => true,
        } by {
            assert(credit(given[j]) <= credit(given[i]));
        }
    }
    i
}

/// The answers of a selection are those of the candidates that are attached
/// and have a view, each as often as it was asked about, in ascending order of
/// the worker's identifier and then of its rank.
pub proof fn law_answers_are_the_candidates_own(
    streams: Streams,
    candidates: Seq<WorkerWithDpRank>,
    tokens: Seq<u32>,
    selection: CounterfactualSelection,
    worker: WorkerWithDpRank,
)
    requires
        selects(streams, candidates, tokens, selection),
    ensures
        workers_in(selection.candidates@).to_multiset().count(worker) == (if streams.contains_key(
            worker,
        ) && streams[worker].normal is Some {
            candidates.to_multiset().count(worker)
        } else {
            0
        }),
        forall|i: int, j: int|
            0 <= i < j < selection.candidates@.len() ==> {
                let a = (#[trigger] selection.candidates@[i]).worker;
                let b = (#[trigger] selection.candidates@[j]).worker;
                a.worker_id < b.worker_id || (a.worker_id == b.worker_id && a.dp_rank <= b.dp_rank)
            },
{
    lemma_answerers_count(streams, candidates, worker);
    let given = selection.candidates@;
    assert forall|i: int, j: int| 0 <= i < j < given.len() implies {
        let a = (#[trigger] given[i]).worker;
        let b = (#[trigger] given[j]).worker;
        a.worker_id < b.worker_id || (a.worker_id == b.worker_id && a.dp_rank <= b.dp_rank)
    } by {
        assert(place(given[i].worker) <= place(given[j].worker));
    }
}

proof fn lemma_answerers_count(
    streams: Streams,
    candidates: Seq<WorkerWithDpRank>,
    worker: WorkerWithDpRank,
)
    ensures
        answerers(streams, candidates).to_multiset().count(worker) == (if streams.contains_key(
            worker,
        ) && streams[worker].normal is Some {
            candidates.to_multiset().count(worker)
        } else {
            0
        }),
    decreases candidates.len(),
{
    broadcast use vstd::seq_lib::group_to_multiset_ensures;

    if candidates.len() > 0 {
        let front = candidates.drop_last();
        lemma_answerers_count(streams, front, worker);
        assert(candidates =~= front.push(candidates.last()));
        vstd::seq_lib::to_multiset_build(front, candidates.last());
        vstd::seq_lib::to_multiset_build(answerers(streams, front), candidates.last());
    }
}

/// An answer repeats what the owner's view says of the prompt, at the cursor of
/// the owner's stream. The certified tokens are those that the view certifies,
/// never the merely resident ones, and are told only with full confidence.
pub proof fn law_answer_repeats_the_view(
    streams: Streams,
    worker: WorkerWithDpRank,
    tokens: Seq<u32>,
    overlap: WorkerOverlap,
)
    requires
        overlaps(streams, worker, tokens, overlap),
    ensures
        overlap.worker == worker,
        overlap.cursor == streams[worker].cursor,
        overlap.status != Confidence::Known ==> overlap.eligible_cpu_root_tokens is None
            && overlap.raw_cpu_tokens == 0 && overlap.selected_plan is None,
        exists|result: QueryResult| #[trigger]
            crate::logical_normalizer::answers_tokens(
                streams[worker].normal->Some_0.view,
                tokens,
                result,
            ) && overlap.status == result.status && overlap.raw_cpu_tokens == result.raw_cpu_tokens
                && overlap.eligible_cpu_root_tokens == result.eligible_cpu_root_tokens,
{
}

/// Unknown is not zero: an owner without a view in good standing never answers
/// with a number of tokens.
pub proof fn law_unknown_is_not_zero(
    streams: Streams,
    worker: WorkerWithDpRank,
    tokens: Seq<u32>,
    overlap: WorkerOverlap,
)
    requires
        overlaps(streams, worker, tokens, overlap),
        streams[worker].normal->Some_0.view.confidence != Confidence::Known,
    ensures
        overlap.eligible_cpu_root_tokens is None,
        overlap.status != Confidence::Known,
{
}

/// Only the owner of a frame is affected by it.
pub proof fn law_owners_are_independent(
    before: Streams,
    worker: WorkerWithDpRank,
    transport: u64,
    payload: WirePayload,
    namespace: Seq<char>,
    limits: RegistryLimits,
    after: Streams,
    answer: Result<bool, RegistryError>,
    other: WorkerWithDpRank,
)
    requires
        before.contains_key(worker),
        registers(before, worker, transport, payload, namespace, limits, after, answer),
        other != worker,
    ensures
        after.contains_key(other) == before.contains_key(other),
        after.contains_key(other) ==> after[other] == before[other],
{
}

/// The shared ceiling holds: a frame never takes the plans of all owners past
/// it, if they were within it before.
pub proof fn law_plan_ceiling_is_shared(
    before: Streams,
    worker: WorkerWithDpRank,
    transport: u64,
    payload: WirePayload,
    namespace: Seq<char>,
    limits: RegistryLimits,
    after: Streams,
    answer: Result<bool, RegistryError>,
)
    requires
        before.dom().finite(),
        before.contains_key(worker),
        total_plans(before) <= limits.aggregate_plans,
        registers(before, worker, transport, payload, namespace, limits, after, answer),
    ensures
        total_plans(after) <= limits.aggregate_plans,
{
    let live = |stream: StreamState| live_plans_of(stream);
    let (stream, accepted) = choose|stream: StreamState, accepted: Result<bool, LogicalDecodeError>|
        #[trigger] crate::logical_stream::ingests(
            before[worker],
            transport,
            payload,
            ResidencyOwner::Worker(worker),
            namespace,
            limits.decode,
            stream,
            accepted,
        ) && {
            let followed = before.insert(worker, stream);
            match accepted {
                Err(error) => {
                    &&& answer is Err && answer->Err_0 is Decode && answer->Err_0->Decode_0 == error
                    &&& after == followed
                },
                Ok(taken) => if taken && total_plans(followed) > limits.aggregate_plans {
                    &&& answer is Err && answer->Err_0 is AggregateCeiling
                    &&& after == before.insert(worker, stream.invalidated())
                } else {
                    &&& answer is Ok && answer->Ok_0 == taken
                    &&& after == followed
                },
            }
        };
    let counts = before.map_values(live);
    let rest = counts.remove(worker);
    assert(counts.dom() =~= before.dom());
    assert(after.map_values(live) =~= rest.insert(worker, live(after[worker])));
    assert(rest.dom() =~= counts.dom().remove(worker));
    crate::sums::lemma_sum_split(counts, worker);
    crate::sums::lemma_sum_insert(rest, worker, live(after[worker]));
    if accepted != Ok::<bool, LogicalDecodeError>(true) {
        // Nothing was taken in: the view is gone or as before.
        assert(live(after[worker]) <= live(before[worker]));
    }
}

/// A frame that takes the owners past their shared ceiling costs its own sender
/// the view, and only then is the ceiling given as the reason; a frame that
/// could not be read is refused with the reason it was refused for.
pub proof fn law_ceiling_costs_the_sender(
    before: Streams,
    worker: WorkerWithDpRank,
    transport: u64,
    payload: WirePayload,
    namespace: Seq<char>,
    limits: RegistryLimits,
    after: Streams,
    answer: Result<bool, RegistryError>,
)
    requires
        before.contains_key(worker),
        registers(before, worker, transport, payload, namespace, limits, after, answer),
    ensures
        after.contains_key(worker),
        answer is Err ==> after[worker].normal is None,
        answer is Err && answer->Err_0 is AggregateCeiling ==> after[worker].cursor
            == payload.envelope->Ok_0.cuts@[0].cursor,
        answer is Err ==> answer->Err_0 is AggregateCeiling || answer->Err_0 is Decode,
        answer == Ok::<bool, RegistryError>(true) ==> after[worker].normal is Some
            && total_plans(after) <= limits.aggregate_plans && after[worker].cursor
            == payload.envelope->Ok_0.cuts@[0].cursor,
        before[worker].transport is Some && transport <= before[worker].transport->Some_0 ==> {
            &&& answer == Ok::<bool, RegistryError>(false)
            &&& after == before
        },
{
    assert(before.insert(worker, before[worker]) =~= before);
}

/// A stream that has seen nothing knows no frame, no epoch and no view, and asks
/// for nothing.
pub proof fn law_silent_streams_know_nothing()
    ensures
        silent_stream().transport is None,
        silent_stream().epoch is None,
        silent_stream().cursor == 0,
        silent_stream().retired.len() == 0,
        !silent_stream().needs_replay,
        silent_stream().normal is None,
{
}

/// The plans of all owners are the plans of one and those of the others; an
/// owner without a view has none.
pub proof fn law_plans_add_up(streams: Streams, worker: WorkerWithDpRank)
    requires
        streams.dom().finite(),
        streams.contains_key(worker),
    ensures
        total_plans(streams) == total_plans(streams.remove(worker)) + (
        if streams[worker].normal is Some {
            streams[worker].normal->Some_0.view.plans.len()
        } else {
            0
        }),
{
    let live = |stream: StreamState| live_plans_of(stream);
    let counts = streams.map_values(live);
    assert(counts.dom() =~= streams.dom());
    assert(streams.remove(worker).map_values(live) =~= counts.remove(worker));
    crate::sums::lemma_sum_split(counts, worker);
}

} // verus!
