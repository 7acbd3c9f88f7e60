//! Coalesces adjacent cache events into batches and numbers what is published.

use crate::event_dedup::{EventDedupFilter, EventDedupPolicy};
use crate::keyed_table::TableKey;
use crate::kv_events::{
    KvCacheEvent, KvCacheEventData, KvCacheStoreData, Placement, PlacementEvent, ResidencyDomain,
};
use crate::protocols::{ExternalSequenceBlockHash, StorageTier};
use vstd::prelude::*;

verus! {

/// How many blocks an event is about.
pub open spec fn block_count(event: PlacementEvent) -> nat {
    match event.event.data {
        KvCacheEventData::Stored(data) => data.blocks@.len(),
        KvCacheEventData::Removed(data) => data.block_hashes@.len(),
        _ => 0,
    }
}

/// The last block of a run.
pub open spec fn last_block(data: KvCacheStoreData) -> Option<ExternalSequenceBlockHash> {
    if data.blocks@.len() == 0 {
        None
    } else {
        Some(data.blocks@.last().block_hash)
    }
}

/// `next` continues `pending`: removals always do, stored blocks if they hang
/// off the last pending one.
pub open spec fn compatible(pending: KvCacheEventData, next: KvCacheEventData) -> bool {
    match (pending, next) {
        (KvCacheEventData::Stored(pending), KvCacheEventData::Stored(next)) => next.parent_hash
            == last_block(pending),
        (KvCacheEventData::Removed(_), KvCacheEventData::Removed(_)) => true,
        _ => false,
    }
}

/// `whole` is `pending` followed by `next`.
pub open spec fn joined(
    pending: PlacementEvent,
    next: PlacementEvent,
    whole: PlacementEvent,
) -> bool {
    &&& whole.placement == pending.placement
    &&& whole.event.event_id == pending.event.event_id
    &&& whole.event.dp_rank == pending.event.dp_rank
    &&& match (pending.event.data, next.event.data) {
        (KvCacheEventData::Stored(first), KvCacheEventData::Stored(second)) => {
            &&& whole.event.data is Stored
            &&& whole.event.data->Stored_0.parent_hash == first.parent_hash
            &&& whole.event.data->Stored_0.start_position == first.start_position
            &&& whole.event.data->Stored_0.blocks@ == first.blocks@ + second.blocks@
        },
        (KvCacheEventData::Removed(first), KvCacheEventData::Removed(second)) => {
            &&& whole.event.data is Removed
            &&& whole.event.data->Removed_0.block_hashes@ == first.block_hashes@
                + second.block_hashes@
        },
        _ => false,
    }
}

/// A clear, which nothing is merged across.
pub open spec fn is_barrier(event: PlacementEvent) -> bool {
    event.event.data is Cleared || event.event.data is TierCleared
}

/// Pure accumulator for adjacent compatible placement mutations.
///
/// The caller-provided key carries the exact logical owner/source and physical
/// tier. The coalescer adds DP-rank, operation, and Store-chain boundaries. It
/// deliberately owns no event IDs, timers, indexers, publishers, or error
/// policy, so both publisher lifecycles can share it without sharing commits.
pub struct PlacementEventCoalescer<K> {
    pending: Option<(K, PlacementEvent)>,
    max_batch_blocks: usize,
}

/// `event` is merged into what is pending.
pub open spec fn merges<K: TableKey>(
    pending: Option<(K, PlacementEvent)>,
    key: K,
    event: PlacementEvent,
) -> bool {
    &&& pending is Some
    &&& pending->Some_0.0.key() == key.key()
    &&& pending->Some_0.1.event.dp_rank == event.event.dp_rank
    &&& compatible(pending->Some_0.1.event.data, event.event.data)
}

/// The event that is pending.
pub open spec fn pending_event<K>(pending: Option<(K, PlacementEvent)>) -> Option<PlacementEvent> {
    match pending {
        Some((_, event)) => Some(event),
        None => None,
    }
}

/// What a push makes of the pending event, and what is ready then.
pub open spec fn pushed<K: TableKey>(
    before: Option<(K, PlacementEvent)>,
    key: K,
    event: PlacementEvent,
    max_batch_blocks: usize,
    after: Option<(K, PlacementEvent)>,
    first: Option<PlacementEvent>,
    second: Option<PlacementEvent>,
) -> bool {
    if is_barrier(event) {
        &&& first == pending_event(before)
        &&& second == Some(event)
        &&& after is None
    } else if merges(before, key, event) {
        &&& second is None
        &&& exists|whole: PlacementEvent| #[trigger]
            joined(before->Some_0.1, event, whole) && if block_count(whole) >= max_batch_blocks {
                first == Some(whole) && after is None
            } else {
                &&& first is None
                &&& after is Some
                &&& after->Some_0.0 == before->Some_0.0
                &&& after->Some_0.1 == whole
            }
    } else {
        &&& first == pending_event(before)
        &&& if block_count(event) >= max_batch_blocks {
            second == Some(event) && after is None
        } else {
            second is None && after == Some((key, event))
        }
    }
}

fn count_blocks(event: &PlacementEvent) -> (n: usize)
    ensures
        n == block_count(*event),
{
    match &event.event.data {
        KvCacheEventData::Stored(data) => data.blocks.len(),
        KvCacheEventData::Removed(data) => data.block_hashes.len(),
        _ => 0,
    }
}

fn compatible_data(pending: &KvCacheEventData, next: &KvCacheEventData) -> (yes: bool)
    ensures
        yes == compatible(*pending, *next),
{
    match (pending, next) {
        (KvCacheEventData::Stored(pending), KvCacheEventData::Stored(next)) => {
            let last: Option<ExternalSequenceBlockHash> = if pending.blocks.len() == 0 {
                None
            } else {
                Some(pending.blocks[pending.blocks.len() - 1].block_hash)
            };
            next.parent_hash == last
        },
        (KvCacheEventData::Removed(_), KvCacheEventData::Removed(_)) => true,
        _ => false,
    }
}

fn join(pending: PlacementEvent, next: PlacementEvent) -> (whole: PlacementEvent)
    requires
        compatible(pending.event.data, next.event.data),
    ensures
        joined(pending, next, whole),
{
    let PlacementEvent { placement, event: KvCacheEvent { event_id, data, dp_rank } } = pending;
    let data = match (data, next.event.data) {
        (KvCacheEventData::Stored(mut first), KvCacheEventData::Stored(second)) => {
            let mut blocks = second.blocks;
            first.blocks.append(&mut blocks);
            KvCacheEventData::Stored(first)
        },
        (KvCacheEventData::Removed(mut first), KvCacheEventData::Removed(second)) => {
            let mut hashes = second.block_hashes;
            first.block_hashes.append(&mut hashes);
            KvCacheEventData::Removed(first)
        },
        (data, _) => data,
    };
    PlacementEvent { placement, event: KvCacheEvent { event_id, data, dp_rank } }
}

impl<K: TableKey> PlacementEventCoalescer<K> {
    pub closed spec fn pending(&self) -> Option<(K, PlacementEvent)> {
        self.pending
    }

    pub closed spec fn limit(&self) -> usize {
        self.max_batch_blocks
    }

    pub fn new(max_batch_blocks: usize) -> (s: Self)
        ensures
            s.pending() is None,
            s.limit() == max_batch_blocks,
    {
        PlacementEventCoalescer { pending: None, max_batch_blocks }
    }

    pub fn has_pending(&self) -> (yes: bool)
        ensures
            yes == self.pending() is Some,
    {
        self.pending.is_some()
    }

    /// Push one input and return up to two ready outputs in stream order.
    ///
    /// Two outputs are possible when an incompatible or oversized mutation
    /// follows a pending mutation, or when `Cleared` flushes the pending value
    /// and then passes through as its own barrier.
    pub fn push(&mut self, key: K, event: PlacementEvent) -> (ready: (
        Option<PlacementEvent>,
        Option<PlacementEvent>,
    ))
        ensures
            final(self).limit() == old(self).limit(),
            pushed(
                old(self).pending(),
                key,
                event,
                old(self).limit(),
                final(self).pending(),
                ready.0,
                ready.1,
            ),
    {
        let barrier: bool = match &event.event.data {
            KvCacheEventData::Cleared => true,
            KvCacheEventData::TierCleared(_) => true,
            _ => false,
        };
        if barrier {
            return (self.flush(), Some(event));
        }
        let can_merge: bool = match &self.pending {
            Some((held, pending)) => held.same_key(&key) && pending.event.dp_rank
                == event.event.dp_rank && compatible_data(&pending.event.data, &event.event.data),
            None => false,
        };
        let mut taken: Option<(K, PlacementEvent)> = None;
        std::mem::swap(&mut self.pending, &mut taken);
        if can_merge {
            if let Some((held, pending)) = taken {
                let whole = join(pending, event);
                assert(joined(old(self).pending()->Some_0.1, event, whole));
                if count_blocks(&whole) >= self.max_batch_blocks {
                    return (Some(whole), None);
                }
                self.pending = Some((held, whole));
            }
            return (None, None);
        }
        let flushed: Option<PlacementEvent> = match taken {
            Some((_, pending)) => Some(pending),
            None => None,
        };
        if count_blocks(&event) >= self.max_batch_blocks {
            return (flushed, Some(event));
        }
        self.pending = Some((key, event));
        (flushed, None)
    }

    pub fn flush(&mut self) -> (ready: Option<PlacementEvent>)
        ensures
            final(self).limit() == old(self).limit(),
            final(self).pending() is None,
            ready == pending_event(old(self).pending()),
    {
        let mut taken: Option<(K, PlacementEvent)> = None;
        std::mem::swap(&mut self.pending, &mut taken);
        match taken {
            Some((_, event)) => Some(event),
            None => None,
        }
    }
}

/// A single change of a cache.
pub ghost enum Change {
    Store(ExternalSequenceBlockHash),
    Remove(ExternalSequenceBlockHash),
    Clear,
    ClearTier(StorageTier),
}

/// The changes that an event stands for, in order.
pub open spec fn changes(event: Option<PlacementEvent>) -> Seq<Change> {
    match event {
        Some(event) => match event.event.data {
            KvCacheEventData::Stored(data) => Seq::new(
                data.blocks@.len(),
                |i: int| Change::Store(data.blocks@[i].block_hash),
            ),
            KvCacheEventData::Removed(data) => Seq::new(
                data.block_hashes@.len(),
                |i: int| Change::Remove(data.block_hashes@[i]),
            ),
            KvCacheEventData::Cleared => seq![Change::Clear],
            KvCacheEventData::TierCleared(tier) => seq![Change::ClearTier(tier)],
        },
        None => Seq::empty(),
    }
}

/// Coalescing loses nothing, adds nothing and keeps the order: what comes out
/// and what stays pending are together what was pending and came in.
pub proof fn law_coalescing_keeps_the_stream<K: TableKey>(
    before: Option<(K, PlacementEvent)>,
    key: K,
    event: PlacementEvent,
    max_batch_blocks: usize,
    after: Option<(K, PlacementEvent)>,
    first: Option<PlacementEvent>,
    second: Option<PlacementEvent>,
)
    requires
        pushed(before, key, event, max_batch_blocks, after, first, second),
    ensures
        changes(first) + changes(second) + changes(pending_event(after)) == changes(
            pending_event(before),
        ) + changes(Some(event)),
{
    let came = changes(pending_event(before)) + changes(Some(event));
    let went = changes(first) + changes(second) + changes(pending_event(after));
    if !is_barrier(event) && merges(before, key, event) {
        let whole = choose|whole: PlacementEvent| #[trigger]
            joined(before->Some_0.1, event, whole) && if block_count(whole) >= max_batch_blocks {
                first == Some(whole) && after is None
            } else {
                &&& first is None
                &&& after is Some
                &&& after->Some_0.0 == before->Some_0.0
                &&& after->Some_0.1 == whole
            };
        assert(changes(Some(whole)) =~= came);
    }
    assert(went =~= came);
}

/// An event that is ready to be published, and where it belongs.
#[derive(Debug)]
pub struct ReadyEvent {
    pub tier: StorageTier,
    pub domain: ResidencyDomain,
    pub event: KvCacheEvent,
}

/// Accumulator for in-flight KV cache events that will be merged into a single
/// event before being forwarded to the event sink.
pub struct BatchingState {
    coalescer: PlacementEventCoalescer<Placement>,
    next_publish_id: u64,
    last_flush_ms: u64,
}

/// The slot in which the references of an event are counted.
pub open spec fn slot_of(event: PlacementEvent) -> crate::event_dedup::DedupSlot {
    crate::event_dedup::DedupSlot {
        dp_rank: event.event.dp_rank,
        tier: event.placement.tier,
        domain: event.placement.residency_domain,
    }
}

/// The blocks of a removal that pass the filter.
pub open spec fn passing(dedup: EventDedupFilter, event: PlacementEvent) -> Seq<u64> {
    crate::event_dedup::after_remove(
        dedup.counts(slot_of(event)),
        crate::kv_events::removed_hashes(event.event.data->Removed_0.block_hashes@),
    ).1
}

/// `ready` is what is published of an event: a removal only as far as it takes
/// the last reference of a block, and not at all if none does.
pub open spec fn published(
    dedup: EventDedupFilter,
    event: PlacementEvent,
    id: u64,
    ready: Option<ReadyEvent>,
) -> bool {
    &&& match event.event.data {
        KvCacheEventData::Removed(_) => {
            &&& ready is Some <==> passing(dedup, event).len() > 0
            &&& ready is Some ==> {
                &&& ready->Some_0.event.data is Removed
                &&& crate::kv_events::removed_hashes(
                    ready->Some_0.event.data->Removed_0.block_hashes@,
                ) == passing(dedup, event)
            }
        },
        _ => ready is Some && ready->Some_0.event.data == event.event.data,
    }
    &&& ready is Some ==> {
        &&& ready->Some_0.tier == event.placement.tier
        &&& ready->Some_0.domain == event.placement.residency_domain
        &&& ready->Some_0.event.dp_rank == event.event.dp_rank
        &&& ready->Some_0.event.event_id == id
    }
}

/// The references after an event was taken into account.
pub open spec fn accounted(
    before: EventDedupFilter,
    event: PlacementEvent,
    after: EventDedupFilter,
) -> bool {
    forall|slot: crate::event_dedup::DedupSlot| #[trigger]
        after.counts(slot) == (if slot == slot_of(event) {
            match event.event.data {
                KvCacheEventData::Stored(data) => crate::event_dedup::after_store(
                    before.counts(slot),
                    crate::kv_events::stored_hashes(data.blocks@),
                ),
                KvCacheEventData::Removed(data) => crate::event_dedup::after_remove(
                    before.counts(slot),
                    crate::kv_events::removed_hashes(data.block_hashes@),
                ).0,
                _ => before.counts(slot),
            }
        } else {
            before.counts(slot)
        })
}

impl BatchingState {
    pub closed spec fn pending(&self) -> Option<(Placement, PlacementEvent)> {
        self.coalescer.pending()
    }

    pub closed spec fn limit(&self) -> usize {
        self.coalescer.limit()
    }

    /// The identifier of the next event that is published.
    pub closed spec fn next_id(&self) -> u64 {
        self.next_publish_id
    }

    pub closed spec fn flushed_at(&self) -> u64 {
        self.last_flush_ms
    }

    /// Only mutations wait.
    pub closed spec fn wf(&self) -> bool {
        self.pending() is Some ==> !is_barrier(self.pending()->Some_0.1)
    }

    pub fn new(max_batch_blocks: usize, now_ms: u64) -> (s: Self)
        ensures
            s.wf(),
            s.pending() is None,
            s.limit() == max_batch_blocks,
            s.next_id() == 1,
            s.flushed_at() == now_ms,
    {
        BatchingState {
            coalescer: PlacementEventCoalescer::new(max_batch_blocks),
            next_publish_id: 1,
            last_flush_ms: now_ms,
        }
    }

    pub fn has_pending(&self) -> (yes: bool)
        ensures
            yes == self.pending() is Some,
    {
        self.coalescer.has_pending()
    }

    pub fn next_publish_id(&self) -> (id: u64)
        ensures
            id == self.next_id(),
    {
        self.next_publish_id
    }

    pub fn record_flush_time(&mut self, now_ms: u64)
        requires
            old(self).wf(),
        ensures
            final(self).wf(),
            final(self).pending() == old(self).pending(),
            final(self).limit() == old(self).limit(),
            final(self).next_id() == old(self).next_id(),
            final(self).flushed_at() == now_ms,
    {
        self.last_flush_ms = now_ms;
    }

    /// How many milliseconds are left of a timeout that runs from the last
    /// flush.
    pub fn remaining_timeout(&self, timeout_ms: u64, now_ms: u64) -> (left: u64)
        ensures
            left == (if now_ms - self.flushed_at() >= timeout_ms {
                0
            } else if now_ms <= self.flushed_at() {
                timeout_ms as int
            } else {
                timeout_ms - (now_ms - self.flushed_at())
            }),
    {
        let elapsed: u64 = if now_ms >= self.last_flush_ms {
            now_ms - self.last_flush_ms
        } else {
            0
        };
        if elapsed >= timeout_ms {
            0
        } else {
            timeout_ms - elapsed
        }
    }

    pub fn is_timeout_elapsed(&self, timeout_ms: u64, now_ms: u64) -> (yes: bool)
        ensures
            yes == (timeout_ms == 0 || now_ms - self.flushed_at() >= timeout_ms),
    {
        self.remaining_timeout(timeout_ms, now_ms) == 0
    }

    /// Accounts for an event that left the coalescer and numbers what is
    /// published of it.
    fn emit_ready(&mut self, event: PlacementEvent, dedup: &mut EventDedupFilter) -> (ready: Option<
        ReadyEvent,
    >)
        requires
            !is_barrier(event),
            old(dedup).wf(),
            old(self).next_id() < u64::MAX,
        ensures
            final(dedup).wf(),
            final(self).coalescer == old(self).coalescer,
            final(self).last_flush_ms == old(self).last_flush_ms,
            published(*old(dedup), event, old(self).next_id(), ready),
            accounted(*old(dedup), event, *final(dedup)),
            final(self).next_id() == (if ready is Some {
                (old(self).next_id() + 1) as u64
            } else {
                old(self).next_id()
            }),
    {
        let tier = event.placement.tier;
        let domain = event.placement.residency_domain;
        let KvCacheEvent { event_id: _, data, dp_rank } = event.event;
        let data = match data {
            KvCacheEventData::Removed(data) => {
                match dedup.filter_remove_in_domain(
                    dp_rank,
                    tier,
                    domain,
                    EventDedupPolicy::RefCounted,
                    data,
                ) {
                    Some(filtered) => KvCacheEventData::Removed(filtered),
                    None => {
                        return None;
                    },
                }
            },
            KvCacheEventData::Stored(data) => {
                dedup.track_store_in_domain(
                    dp_rank,
                    tier,
                    domain,
                    EventDedupPolicy::RefCounted,
                    &data,
                );
                KvCacheEventData::Stored(data)
            },
            other => other,
        };
        let id: u64 = self.next_publish_id;
        self.next_publish_id = id + 1;
        Some(ReadyEvent { tier, domain, event: KvCacheEvent { event_id: id, data, dp_rank } })
    }

    /// Publishes what is pending.
    pub fn flush(&mut self, dedup: &mut EventDedupFilter, now_ms: u64) -> (ready: Option<
        ReadyEvent,
    >)
        requires
            old(self).wf(),
            old(dedup).wf(),
            old(self).next_id() < u64::MAX,
        ensures
            final(self).wf(),
            final(dedup).wf(),
            final(self).pending() is None,
            final(self).limit() == old(self).limit(),
            final(self).flushed_at() == now_ms,
            match old(self).pending() {
                Some((_, event)) => {
                    &&& published(*old(dedup), event, old(self).next_id(), ready)
                    &&& accounted(*old(dedup), event, *final(dedup))
                },
                None => ready is None && *final(dedup) == *old(dedup),
            },
            final(self).next_id() == old(self).next_id() + (if ready is Some {
                1int
            } else {
                0int
            }),
    {
        let ready = match self.coalescer.flush() {
            Some(event) => self.emit_ready(event, dedup),
            None => None,
        };
        self.last_flush_ms = now_ms;
        ready
    }

    /// Takes in a mutation, and publishes what it makes ready. Clears are the
    /// publisher's own business.
    pub fn push(&mut self, event: PlacementEvent, dedup: &mut EventDedupFilter, now_ms: u64) -> (ready:
        (Option<ReadyEvent>, Option<ReadyEvent>))
        requires
            old(self).wf(),
            old(dedup).wf(),
            !is_barrier(event),
            old(self).next_id() < u64::MAX - 1,
        ensures
            final(self).wf(),
            final(dedup).wf(),
            final(self).limit() == old(self).limit(),
            exists|first: Option<PlacementEvent>, second: Option<PlacementEvent>, middle: EventDedupFilter|
             {
                &&& #[trigger] pushed(
                    old(self).pending(),
                    event.placement,
                    event,
                    old(self).limit(),
                    final(self).pending(),
                    first,
                    second,
                )
                &&& #[trigger] releases(*old(dedup), first, old(self).next_id(), ready.0, middle)
                &&& releases(
                    middle,
                    second,
                    (old(self).next_id() + count(ready.0)) as u64,
                    ready.1,
                    *final(dedup),
                )
                &&& final(self).flushed_at() == (if first is Some || second is Some {
                    now_ms
                } else {
                    old(self).flushed_at()
                })
            },
            final(self).next_id() == old(self).next_id() + count(ready.0) + count(ready.1),
    {
        let key = event.placement;
        let ghost before = self.pending();
        let (first, second) = self.coalescer.push(key, event);
        let ghost given = (first, second);
        let flushed: bool = first.is_some() || second.is_some();
        assert(pushed(before, key, event, self.limit(), self.pending(), given.0, given.1));
        let one = match first {
            Some(event) => self.emit_ready(event, dedup),
            None => None,
        };
        let ghost middle = *dedup;
        assert(releases(*old(dedup), given.0, old(self).next_id(), one, middle));
        let two = match second {
            Some(event) => self.emit_ready(event, dedup),
            None => None,
        };
        if flushed {
            self.last_flush_ms = now_ms;
        }
        (one, two)
    }
}

/// How many events were published.
pub open spec fn count(ready: Option<ReadyEvent>) -> int {
    if ready is Some {
        1
    } else {
        0
    }
}

/// What is published of an event that left the coalescer, if one did.
pub open spec fn releases(
    before: EventDedupFilter,
    event: Option<PlacementEvent>,
    id: u64,
    ready: Option<ReadyEvent>,
    after: EventDedupFilter,
) -> bool {
    match event {
        Some(event) => published(before, event, id, ready) && accounted(before, event, after),
        None => ready is None && after == before,
    }
}

} // verus!
