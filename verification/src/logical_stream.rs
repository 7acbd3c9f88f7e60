//! Ordered endpoint-local lifetime fencing of the cuts of one engine worker.
//!
//! A snapshot repairs any loss; an update that does not continue the accepted
//! cut retires the view instead of being applied. Malformed input retires only
//! this view.

use crate::id_map::IdMap;
use crate::logical::Mutation;
use crate::logical_normalizer::{Normal, Normalizer};
use crate::logical_view::LogicalView;
use crate::logical_wire::{Cut, DecodeLimits, LogicalDecodeError, WireCut, WireHeader, WirePayload};
use crate::protocols::ResidencyOwner;
use vstd::prelude::*;

verus! {

/// The state of a stream.
pub ghost struct StreamState {
    /// The sequence number of the last frame.
    pub transport: Option<u64>,
    /// The epoch of the last accepted snapshot.
    pub epoch: Option<Seq<u8>>,
    /// The cursor of the last accepted cut.
    pub cursor: u64,
    /// Superseded epochs, the oldest first.
    pub retired: Seq<Seq<u8>>,
    pub needs_replay: bool,
    /// What the accepted cuts have come to.
    pub normal: Option<Normal>,
}

impl StreamState {
    /// The state without a view.
    pub open spec fn invalidated(self) -> StreamState {
        StreamState { normal: None, ..self }
    }
}

/// The superseded epochs after one more. On overflow the oldest are forgotten:
/// refusing the newest would turn a full history into a permanent refusal of
/// every future reset, which is the protocol's own recovery path.
pub open spec fn fenced(history: Seq<Seq<u8>>, epoch: Seq<u8>, limit: int) -> Seq<Seq<u8>> {
    if history.contains(epoch) {
        history
    } else if limit <= 0 {
        Seq::empty()
    } else if history.len() >= limit {
        history.skip(history.len() - limit + 1).push(epoch)
    } else {
        history.push(epoch)
    }
}

/// The state once a frame has arrived, before it is looked at: a lost frame
/// retires the view.
pub open spec fn arrived(before: StreamState, transport: u64) -> StreamState {
    let lost = before.transport is Some && transport != before.transport->Some_0 + 1;
    StreamState {
        transport: Some(transport),
        normal: if lost {
            None
        } else {
            before.normal
        },
        needs_replay: before.needs_replay || lost,
        ..before
    }
}

/// The state and the answer after a snapshot. `state` has the frame.
pub open spec fn after_snapshot(
    state: StreamState,
    header: WireHeader,
    limits: DecodeLimits,
    outcome: Result<Normal, LogicalDecodeError>,
) -> (StreamState, Result<bool, LogicalDecodeError>) {
    let epoch = crate::logical_wire::epoch_of(header.epoch@);
    if state.epoch == Some(epoch) && header.cursor <= state.cursor {
        (state, Ok(false))
    } else if state.epoch != Some(epoch) && state.retired.contains(epoch) {
        (state.invalidated(), Err(LogicalDecodeError::RetiredEpoch))
    } else {
        let history = if state.epoch is Some && state.epoch != Some(epoch) {
            fenced(state.retired, state.epoch->Some_0, limits.epochs as int)
        } else {
            state.retired
        };
        match outcome {
            Ok(normal) => (
                StreamState {
                    epoch: Some(epoch),
                    cursor: header.cursor,
                    retired: history,
                    needs_replay: false,
                    normal: Some(normal),
                    ..state
                },
                Ok(true),
            ),
            Err(error) => (
                StreamState { retired: history, normal: None, ..state },
                Err(error),
            ),
        }
    }
}

/// An update continues the accepted cut.
pub open spec fn continues(state: StreamState, header: WireHeader) -> bool {
    &&& state.epoch == Some(crate::logical_wire::epoch_of(header.epoch@))
    &&& state.normal is Some
    &&& header.cursor == state.cursor + 1
}

/// The state and the answer after an update. `state` has the frame.
pub open spec fn after_update(
    state: StreamState,
    header: WireHeader,
    outcome: Result<Normal, LogicalDecodeError>,
) -> (StreamState, Result<bool, LogicalDecodeError>) {
    let epoch = crate::logical_wire::epoch_of(header.epoch@);
    if state.epoch != Some(epoch) || state.normal is None {
        (state.invalidated(), Ok(false))
    } else if header.cursor <= state.cursor {
        (state, Ok(false))
    } else if header.cursor != state.cursor + 1 {
        (state.invalidated(), Ok(false))
    } else {
        match outcome {
            Ok(normal) => (
                StreamState { cursor: header.cursor, normal: Some(normal), ..state },
                Ok(true),
            ),
            Err(error) => (state.invalidated(), Err(error)),
        }
    }
}

/// The content of an update, given the mutations that spell it.
pub open spec fn update_outcome(
    state: StreamState,
    wire: WireCut,
    header: WireHeader,
    limits: DecodeLimits,
    mutations: Seq<Mutation>,
) -> Result<Normal, LogicalDecodeError> {
    crate::logical_normalizer::updated(
        state.normal->Some_0,
        header,
        wire.removed_plans->Some_0@,
        wire.removed_segments->Some_0@,
        wire.added_segments->Some_0@,
        wire.added_plans->Some_0@,
        limits,
        mutations,
    )
}

/// What a cut that passed its checks does to a stream, given the mutations
/// that spell its content.
pub open spec fn accepted(
    state: StreamState,
    wire: WireCut,
    owner: ResidencyOwner,
    namespace: Seq<char>,
    limits: DecodeLimits,
    header: WireHeader,
    mutations: Seq<Mutation>,
) -> (StreamState, Result<bool, LogicalDecodeError>) {
    if wire.event_type@ == "LogicalSnapshot"@ {
        after_snapshot(
            state,
            header,
            limits,
            crate::logical_normalizer::built(
                header,
                wire.segments->Some_0@,
                wire.plans->Some_0@,
                owner,
                namespace,
                limits,
                mutations,
            ),
        )
    } else {
        after_update(state, header, update_outcome(state, wire, header, limits, mutations))
    }
}

/// The operations that the content of a cut asks for.
pub open spec fn cut_ops(
    state: StreamState,
    wire: WireCut,
    namespace: Seq<char>,
    header: WireHeader,
) -> Seq<crate::logical_normalizer::Op> {
    if wire.event_type@ == "LogicalSnapshot"@ {
        crate::logical_normalizer::snapshot_ops(
            header,
            namespace,
            wire.segments->Some_0@,
            wire.plans->Some_0@,
        )
    } else {
        crate::logical_normalizer::update_ops(
            state.normal->Some_0,
            header,
            wire.removed_plans->Some_0@,
            wire.removed_segments->Some_0@,
            wire.added_segments->Some_0@,
            wire.added_plans->Some_0@,
        )
    }
}

/// The content of the cut is looked at, rather than its place in the stream
/// alone.
pub open spec fn content_counts(state: StreamState, wire: WireCut, header: WireHeader) -> bool {
    let epoch = crate::logical_wire::epoch_of(header.epoch@);
    if wire.event_type@ == "LogicalSnapshot"@ {
        if state.epoch == Some(epoch) {
            header.cursor > state.cursor
        } else {
            !state.retired.contains(epoch)
        }
    } else {
        continues(state, header)
    }
}

/// `after` and `answer` are what a frame makes of a stream.
pub open spec fn ingests(
    before: StreamState,
    transport: u64,
    payload: WirePayload,
    owner: ResidencyOwner,
    namespace: Seq<char>,
    limits: DecodeLimits,
    after: StreamState,
    answer: Result<bool, LogicalDecodeError>,
) -> bool {
    if before.transport is Some && transport <= before.transport->Some_0 {
        after == before && answer == Ok::<bool, LogicalDecodeError>(false)
    } else {
        let state = arrived(before, transport);
        match crate::logical_wire::cut_error(payload, owner, namespace, limits) {
            Some(error) => after == state.invalidated() && answer is Err && answer->Err_0 == error,
            None => {
                let wire = payload.envelope->Ok_0.cuts@[0];
                exists|header: WireHeader, mutations: Seq<Mutation>|
                    crate::logical_wire::header_of(wire, header) && (content_counts(
                        state,
                        wire,
                        header,
                    ) ==> crate::logical_normalizer::spells_all(
                        mutations,
                        cut_ops(state, wire, namespace, header),
                    )) && (after, answer) == #[trigger] accepted(
                        state,
                        wire,
                        owner,
                        namespace,
                        limits,
                        header,
                        mutations,
                    )
            },
        }
    }
}

/// Follows the cuts of one engine worker.
pub struct LogicalStream {
    owner: ResidencyOwner,
    namespace: String,
    limits: DecodeLimits,
    transport_cursor: Option<u64>,
    epoch: Option<[u8; 16]>,
    cursor: u64,
    /// Superseded epochs, so a replayed stale cut cannot resurrect a retired
    /// view. Bounded, the oldest first.
    retired: Vec<[u8; 16]>,
    /// A frame was lost on the wire and the view was retired because of it.
    /// The subscriber must request a replay; nothing on the publication path
    /// will repair this by itself, because the producer publishes only on
    /// change and a sticky unknown state has nothing further to say.
    needs_replay: bool,
    normalizer: Option<Normalizer>,
}

spec fn epochs_in(retired: Seq<[u8; 16]>) -> Seq<Seq<u8>> {
    retired.map_values(|epoch: [u8; 16]| epoch@)
}

spec fn epoch_in(epoch: Option<[u8; 16]>) -> Option<Seq<u8>> {
    match epoch {
        Some(epoch) => Some(epoch@),
        None => None,
    }
}

impl LogicalStream {
    pub closed spec fn state(&self) -> StreamState {
        StreamState {
            transport: self.transport_cursor,
            epoch: epoch_in(self.epoch),
            cursor: self.cursor,
            retired: epochs_in(self.retired@),
            needs_replay: self.needs_replay,
            normal: match self.normalizer {
                Some(normalizer) => Some(normalizer.state()),
                None => None,
            },
        }
    }

    pub closed spec fn ceilings(&self) -> DecodeLimits {
        self.limits
    }

    /// Whose cuts these are.
    pub closed spec fn source(&self) -> (ResidencyOwner, Seq<char>) {
        (self.owner, self.namespace@)
    }

    /// The history of epochs is bounded, and what is held is in good standing.
    pub closed spec fn wf(&self) -> bool {
        &&& self.retired@.len() <= self.limits.epochs
        &&& self.normalizer is Some ==> self.normalizer->Some_0.wf()
            && self.normalizer->Some_0.ceilings() == self.limits
    }

    pub fn new(owner: ResidencyOwner, namespace: String, limits: DecodeLimits) -> (s: Self)
        ensures
            s.wf(),
            s.source() == (owner, namespace@),
            s.ceilings() == limits,
            s.state() == (StreamState {
                transport: None,
                epoch: None,
                cursor: 0,
                retired: Seq::empty(),
                needs_replay: false,
                normal: None,
            }),
    {
        let s = LogicalStream {
            owner,
            namespace,
            limits,
            transport_cursor: None,
            epoch: None,
            cursor: 0,
            retired: Vec::new(),
            needs_replay: false,
            normalizer: None,
        };
        assert(s.state().retired =~= Seq::<Seq<u8>>::empty());
        s
    }

    /// True when a wire-level frame loss retired the view. The subscriber owning
    /// the socket must request a replay from sequence 0; the retained window
    /// opens with a covering snapshot, which re-bases this stream.
    pub fn needs_replay(&self) -> (yes: bool)
        ensures
            yes == self.state().needs_replay,
    {
        self.needs_replay
    }

    /// How many superseded epochs are fenced.
    pub fn retired_epochs(&self) -> (n: usize)
        requires
            self.wf(),
        ensures
            n == self.state().retired.len(),
            n <= self.ceilings().epochs,
    {
        self.retired.len()
    }

    /// The producer's own cursor for the last accepted cut, as it appeared on
    /// the wire. This is the value to reconcile against engine-side logs.
    ///
    /// It is deliberately not the cursor of the view: that is an internal commit
    /// counter, which is re-seeded at zero on every snapshot and so does not
    /// track the epoch.
    pub fn cursor(&self) -> (cursor: Option<u64>)
        ensures
            cursor == (if self.state().normal is Some {
                Some(self.state().cursor)
            } else {
                None
            }),
    {
        if self.normalizer.is_some() {
            Some(self.cursor)
        } else {
            None
        }
    }

    pub fn view(&self) -> (view: Option<&LogicalView>)
        requires
            self.wf(),
        ensures
            view is Some <==> self.state().normal is Some,
            view is Some ==> view->Some_0.wf() && view->Some_0@
                == self.state().normal->Some_0.view,
    {
        match &self.normalizer {
            Some(normalizer) => Some(normalizer.view()),
            None => None,
        }
    }

    /// The declared name of a plan of the view.
    pub fn plan_name(&self, id: u64) -> (name: Option<&String>)
        ensures
            name is Some <==> self.state().normal is Some
                && self.state().normal->Some_0.catalog.plan_names.contains_key(id),
            name is Some ==> name->Some_0@
                == self.state().normal->Some_0.catalog.plan_names[id],
    {
        match &self.normalizer {
            Some(normalizer) => normalizer.plan_name(id),
            None => None,
        }
    }

    /// The declared names of the plans of the view, by their identifiers.
    pub fn plan_names(&self) -> (names: Option<&IdMap<String>>)
        ensures
            names is Some <==> self.state().normal is Some,
            names is Some ==> crate::logical_normalizer::names_in(names->Some_0@)
                == self.state().normal->Some_0.catalog.plan_names,
    {
        match &self.normalizer {
            Some(normalizer) => Some(normalizer.plan_names()),
            None => None,
        }
    }

    /// Drops the view.
    pub fn invalidate(&mut self)
        requires
            old(self).wf(),
        ensures
            final(self).wf(),
            final(self).source() == old(self).source(),
            final(self).ceilings() == old(self).ceilings(),
            final(self).state() == old(self).state().invalidated(),
    {
        self.normalizer = None;
    }

    /// Called by the lifecycle owner when an authenticated producer attachment
    /// is replaced. Transport sequences restart with the socket, so continuity
    /// is not inferred from the wire.
    ///
    /// The accepted epoch and its cursor are deliberately kept. Re-attachment
    /// is a socket event on this side; it says nothing about the producer, whose
    /// epoch changes only on a CPU reset or a restart. Fencing the epoch would
    /// retire a still-live producer and reject its very next snapshot; zeroing
    /// the cursor would throw away the high-water mark that makes the retained
    /// epoch mean anything, letting a replayed old cut rebuild a stale view.
    pub fn reattach(&mut self)
        requires
            old(self).wf(),
        ensures
            final(self).wf(),
            final(self).source() == old(self).source(),
            final(self).ceilings() == old(self).ceilings(),
            final(self).state() == (StreamState {
                transport: None,
                ..old(self).state().invalidated()
            }),
    {
        self.invalidate();
        self.transport_cursor = None;
    }

    /// Whether an epoch is known to be superseded.
    fn is_retired(&self, epoch: &[u8; 16]) -> (yes: bool)
        ensures
            yes == epochs_in(self.retired@).contains(epoch@),
    {
        let mut i: usize = 0;
        while i < self.retired.len()
            invariant
                i <= self.retired@.len(),
                forall|j: int| 0 <= j < i ==> (#[trigger] self.retired@[j])@ != epoch@,
            decreases self.retired@.len() - i,
        {
            if crate::logical::same_incarnation(&self.retired[i], epoch) {
                assert(epochs_in(self.retired@)[i as int] == epoch@);
                return true;
            }
            i = i + 1;
        }
        proof {
            if epochs_in(self.retired@).contains(epoch@) {
                let j = choose|j: int|
                    0 <= j < epochs_in(self.retired@).len() && epochs_in(self.retired@)[j]
                        == epoch@;
                assert(self.retired@[j]@ == epoch@);
            }
        }
        false
    }

    /// Record a superseded epoch, forgetting the oldest if the window is full.
    fn fence(&mut self, epoch: [u8; 16])
        requires
            old(self).wf(),
        ensures
            final(self).wf(),
            final(self).source() == old(self).source(),
            final(self).ceilings() == old(self).ceilings(),
            final(self).state() == (StreamState {
                retired: fenced(
                    old(self).state().retired,
                    epoch@,
                    old(self).ceilings().epochs as int,
                ),
                ..old(self).state()
            }),
            final(self).normalizer == old(self).normalizer,
    {
        if self.is_retired(&epoch) {
            return ;
        }
        let ghost before = self.retired@;
        let limit: usize = self.limits.epochs;
        while self.retired.len() > 0 && self.retired.len() >= limit
            invariant
                limit == self.limits.epochs,
                self.retired@.len() <= before.len(),
                self.retired@ == before.skip(before.len() - self.retired@.len()),
                self.retired@.len() == before.len() || self.retired@.len() + 1 >= limit,
                self.owner == old(self).owner,
                self.namespace == old(self).namespace,
                self.limits == old(self).limits,
                self.transport_cursor == old(self).transport_cursor,
                self.epoch == old(self).epoch,
                self.cursor == old(self).cursor,
                self.needs_replay == old(self).needs_replay,
                self.normalizer == old(self).normalizer,
            decreases self.retired@.len(),
        {
            let ghost now = self.retired@;
            self.retired.remove(0);
            assert(self.retired@ =~= before.skip(before.len() - self.retired@.len()));
        }
        if limit == 0 {
            assert(epochs_in(self.retired@) =~= Seq::<Seq<u8>>::empty());
            return ;
        }
        let ghost kept = self.retired@;
        self.retired.push(epoch);
        proof {
            let history = epochs_in(before);
            if history.len() >= limit {
                assert(kept.len() == limit - 1);
                assert(epochs_in(self.retired@) =~= history.skip(
                    history.len() - limit + 1,
                ).push(epoch@));
            } else {
                assert(kept =~= before);
                assert(epochs_in(self.retired@) =~= history.push(epoch@));
            }
        }
    }

    /// Takes in one frame. Gives whether its cut was accepted.
    pub fn ingest(&mut self, transport_cursor: u64, payload: WirePayload) -> (answer: Result<
        bool,
        LogicalDecodeError,
    >)
        requires
            old(self).wf(),
        ensures
            final(self).wf(),
            final(self).source() == old(self).source(),
            final(self).ceilings() == old(self).ceilings(),
            ingests(
                old(self).state(),
                transport_cursor,
                payload,
                old(self).source().0,
                old(self).source().1,
                old(self).ceilings(),
                final(self).state(),
                answer,
            ),
    {
        if let Some(last) = self.transport_cursor {
            if transport_cursor <= last {
                return Ok(false);
            }
            if transport_cursor != last + 1 {
                // A frame was lost. Protocol-cursor contiguity cannot see this: a
                // snapshot is accepted unconditionally, so a dropped snapshot is
                // invisible to it, and the one that announces a loss is exactly the
                // cut whose loss leaves stale positive credit. Retire now and let
                // the socket owner replay.
                self.invalidate();
                self.needs_replay = true;
            }
        }
        self.transport_cursor = Some(transport_cursor);
        let ghost state = self.state();
        assert(state == arrived(old(self).state(), transport_cursor));
        let ghost wire = payload.envelope->Ok_0.cuts@[0];
        let cut = match crate::logical_wire::decode_cut(
            payload,
            self.owner,
            self.namespace.as_str(),
            self.limits,
        ) {
            Ok(cut) => cut,
            Err(error) => {
                self.invalidate();
                return Err(error);
            },
        };
        proof {
            reveal_strlit("LogicalSnapshot");
            reveal_strlit("LogicalUpdate");
            assert("LogicalSnapshot"@.len() != "LogicalUpdate"@.len());
        }
        let ghost nothing = Seq::<Mutation>::empty();
        match cut {
            Cut::Snapshot { header, segments, plans } => {
                let epoch: [u8; 16] = crate::logical_wire::epoch_bytes(&header);
                let same: bool = match &self.epoch {
                    Some(current) => crate::logical::same_incarnation(current, &epoch),
                    None => false,
                };
                // The in-epoch high-water mark holds whether or not a view is
                // held: otherwise a retired view could be rebuilt from any
                // replayed old cut of the same epoch.
                if same && header.cursor <= self.cursor {
                    assert((self.state(), Ok::<bool, LogicalDecodeError>(false))
                        == accepted(state, wire, self.owner, self.namespace@, self.limits, header,
                        nothing));
                    return Ok(false);
                }
                if !same {
                    // Reject only an epoch known to be superseded. A full history
                    // must never become a blanket refusal.
                    if self.is_retired(&epoch) {
                        self.invalidate();
                        assert((self.state(), Err::<bool,
                            LogicalDecodeError>(LogicalDecodeError::RetiredEpoch))
                            == accepted(state, wire, self.owner, self.namespace@, self.limits,
                            header, nothing));
                        return Err(LogicalDecodeError::RetiredEpoch);
                    }
                    if let Some(superseded) = self.epoch {
                        self.fence(superseded);
                    }
                }
                let ghost fenced_state = self.state();
                let result = crate::logical_normalizer::build_snapshot(
                    &header,
                    &segments,
                    &plans,
                    self.owner,
                    self.namespace.as_str(),
                    self.limits,
                );
                let ghost mutations = choose|mutations: Seq<Mutation>|
                    crate::logical_normalizer::spells_all(
                        mutations,
                        crate::logical_normalizer::snapshot_ops(
                            header,
                            self.namespace@,
                            segments@,
                            plans@,
                        ),
                    ) && crate::logical_normalizer::comes_to(
                        #[trigger] crate::logical_normalizer::built(
                            header,
                            segments@,
                            plans@,
                            self.owner,
                            self.namespace@,
                            self.limits,
                            mutations,
                        ),
                        result,
                        self.limits,
                    );
                let answer = match result {
                    Ok(normalizer) => {
                        self.epoch = Some(epoch);
                        self.cursor = header.cursor;
                        // An authoritative cut is exactly what a replay is for.
                        self.needs_replay = false;
                        self.normalizer = Some(normalizer);
                        Ok(true)
                    },
                    Err(error) => {
                        self.invalidate();
                        Err(error)
                    },
                };
                assert((self.state(), answer) == accepted(
                    state,
                    wire,
                    self.owner,
                    self.namespace@,
                    self.limits,
                    header,
                    mutations,
                ));
                answer
            },
            Cut::Update {
                header,
                added_segments,
                removed_segments,
                added_plans,
                removed_plans,
            } => {
                let epoch: [u8; 16] = crate::logical_wire::epoch_bytes(&header);
                let same: bool = match &self.epoch {
                    Some(current) => crate::logical::same_incarnation(current, &epoch),
                    None => false,
                };
                let mut held: Option<Normalizer> = None;
                std::mem::swap(&mut self.normalizer, &mut held);
                let normalizer = match held {
                    Some(normalizer) => normalizer,
                    None => {
                        assert((self.state(), Ok::<bool, LogicalDecodeError>(false))
                            == accepted(state, wire, self.owner, self.namespace@, self.limits,
                            header, nothing));
                        return Ok(false);
                    },
                };
                if !same {
                    // No accepted baseline for this epoch: an update cannot create
                    // one. Wait for the producer's next snapshot.
                    assert((self.state(), Ok::<bool, LogicalDecodeError>(false))
                        == accepted(state, wire, self.owner, self.namespace@, self.limits, header,
                        nothing));
                    return Ok(false);
                }
                if header.cursor <= self.cursor {
                    self.normalizer = Some(normalizer);
                    assert((self.state(), Ok::<bool, LogicalDecodeError>(false))
                        == accepted(state, wire, self.owner, self.namespace@, self.limits, header,
                        nothing));
                    return Ok(false);
                }
                if header.cursor != self.cursor + 1 {
                    assert((self.state(), Ok::<bool, LogicalDecodeError>(false))
                        == accepted(state, wire, self.owner, self.namespace@, self.limits, header,
                        nothing));
                    return Ok(false);
                }
                let ghost before = normalizer.state();
                let result = normalizer.apply_update(
                    &header,
                    &added_segments,
                    &removed_segments,
                    &added_plans,
                    &removed_plans,
                );
                let ghost mutations = choose|mutations: Seq<Mutation>|
                    crate::logical_normalizer::spells_all(
                        mutations,
                        crate::logical_normalizer::update_ops(
                            before,
                            header,
                            removed_plans@,
                            removed_segments@,
                            added_segments@,
                            added_plans@,
                        ),
                    ) && crate::logical_normalizer::comes_to(
                        #[trigger] crate::logical_normalizer::updated(
                            before,
                            header,
                            removed_plans@,
                            removed_segments@,
                            added_segments@,
                            added_plans@,
                            self.limits,
                            mutations,
                        ),
                        result,
                        self.limits,
                    );
                let answer = match result {
                    Ok(normalizer) => {
                        self.cursor = header.cursor;
                        self.normalizer = Some(normalizer);
                        Ok(true)
                    },
                    Err(error) => Err(error),
                };
                assert((self.state(), answer) == accepted(
                    state,
                    wire,
                    self.owner,
                    self.namespace@,
                    self.limits,
                    header,
                    mutations,
                ));
                answer
            },
        }
    }
}

} // verus!
