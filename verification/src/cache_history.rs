//! FIFO membership history of the canonical sequence hashes that a host has
//! computed.

use crate::id_map::IdMap;
use std::collections::VecDeque;
use vstd::prelude::*;

verus! {

pub const CACHE_REUSE_HISTORY_ENABLED_ENV: &'static str = "DYN_ROUTER_CACHE_REUSE_HISTORY";

pub const HISTORY_BYTES_ENV: &'static str = "DYN_ROUTER_CACHE_REUSE_HISTORY_BYTES";

pub const DEFAULT_HISTORY_BYTES: usize = 268_435_456;

pub const ESTIMATED_BYTES_PER_ENTRY: usize = 32;

/// Whether the value of the switch turns the history on.
pub fn enabled(setting: Option<&str>) -> (on: bool)
    ensures
        on == (setting is Some && crate::payload_logger::truthy(setting->Some_0@)),
{
    match setting {
        Some(value) => crate::payload_logger::is_truthy(value),
        None => false,
    }
}

/// A byte budget and whether it had to be made up because the setting is
/// invalid.
pub open spec fn budget_of(setting: Option<Seq<char>>) -> (nat, bool) {
    match setting {
        None => (DEFAULT_HISTORY_BYTES as nat, false),
        Some(text) => match crate::text::number_in(text) {
            Some(n) => if 0 < n <= usize::MAX {
                (n, false)
            } else {
                (DEFAULT_HISTORY_BYTES as nat, true)
            },
            None => (DEFAULT_HISTORY_BYTES as nat, true),
        },
    }
}

/// The byte budget that a setting asks for, and whether to warn about it.
pub fn byte_budget(setting: Option<&str>) -> (budget: (usize, bool))
    ensures
        budget.0 == budget_of(crate::kv_cache_sol_producer::setting_text(setting)).0,
        budget.1 == budget_of(crate::kv_cache_sol_producer::setting_text(setting)).1,
{
    match setting {
        Some(text) => match crate::text::parse_usize(text) {
            Some(bytes) => if bytes > 0 {
                (bytes, false)
            } else {
                (DEFAULT_HISTORY_BYTES, true)
            },
            None => (DEFAULT_HISTORY_BYTES, true),
        },
        None => (DEFAULT_HISTORY_BYTES, false),
    }
}

#[derive(Clone, Copy, Debug, PartialEq, Eq, Structural)]
pub struct CacheHistoryStats {
    pub retained_entries: usize,
    pub represented_tokens: u64,
    pub estimated_retained_bytes: usize,
    pub capacity_entries: usize,
    pub capacity_bytes: usize,
}

/// `a * b`, or `most` if that is more.
pub open spec fn capped_product(a: int, b: int, most: int) -> int {
    if a * b <= most {
        a * b
    } else {
        most
    }
}

/// The history after one hash: a known one changes nothing, a new one takes
/// the place of the oldest when the history is full.
pub open spec fn noted(history: Seq<u64>, hash: u64, capacity: nat) -> Seq<u64> {
    if history.contains(hash) {
        history
    } else if history.len() == capacity {
        history.skip(1).push(hash)
    } else {
        history.push(hash)
    }
}

/// The history after several hashes.
pub open spec fn recorded(history: Seq<u64>, hashes: Seq<u64>, capacity: nat) -> Seq<u64>
    decreases hashes.len(),
{
    if hashes.len() == 0 {
        history
    } else {
        noted(recorded(history, hashes.drop_last(), capacity), hashes.last(), capacity)
    }
}

/// How many leading hashes are in the history.
pub open spec fn leading_known(history: Seq<u64>, hashes: Seq<u64>) -> nat
    decreases hashes.len(),
{
    if hashes.len() > 0 && history.contains(hashes.first()) {
        1 + leading_known(history, hashes.skip(1))
    } else {
        0
    }
}

/// Per-host FIFO membership history for canonical sequence hashes.
///
/// Duplicate hashes neither consume capacity nor refresh age. Each host applies
/// the configured byte budget independently.
pub struct CacheHistory {
    block_tokens: u64,
    capacity_entries: usize,
    capacity_bytes: usize,
    fifo: VecDeque<u64>,
    members: IdMap<()>,
}

pub(crate) fn capped_times(a: u64, b: u64) -> (c: u64)
    ensures
        c == capped_product(a as int, b as int, u64::MAX as int),
{
    assert(a * b <= u64::MAX * u64::MAX) by (nonlinear_arith)
        requires
            0 <= a <= u64::MAX,
            0 <= b <= u64::MAX,
    ;
    let product: u128 = a as u128 * b as u128;
    if product <= u64::MAX as u128 {
        product as u64
    } else {
        u64::MAX
    }
}

impl CacheHistory {
    /// The retained hashes, the oldest first.
    pub closed spec fn history(&self) -> Seq<u64> {
        self.fifo@
    }

    pub closed spec fn capacity(&self) -> nat {
        self.capacity_entries as nat
    }

    pub closed spec fn byte_capacity(&self) -> usize {
        self.capacity_bytes
    }

    pub closed spec fn tokens_per_block(&self) -> u64 {
        self.block_tokens
    }

    /// No hash is retained twice, and the capacity is never exceeded.
    pub closed spec fn wf(&self) -> bool {
        &&& self.fifo@.no_duplicates()
        &&& self.members@.dom() == self.fifo@.to_set()
        &&& self.fifo@.len() <= self.capacity_entries
        &&& self.capacity_entries > 0
    }

    pub fn with_byte_budget(block_tokens: u32, requested_bytes: usize) -> (s: Self)
        requires
            block_tokens > 0,
        ensures
            s.wf(),
            s.history() == Seq::<u64>::empty(),
            s.tokens_per_block() == block_tokens,
            s.byte_capacity() == (if requested_bytes >= ESTIMATED_BYTES_PER_ENTRY {
                requested_bytes
            } else {
                ESTIMATED_BYTES_PER_ENTRY
            }),
            s.capacity() == s.byte_capacity() as int / ESTIMATED_BYTES_PER_ENTRY as int,
    {
        let capacity_bytes: usize = if requested_bytes >= ESTIMATED_BYTES_PER_ENTRY {
            requested_bytes
        } else {
            ESTIMATED_BYTES_PER_ENTRY
        };
        let s = CacheHistory {
            block_tokens: block_tokens as u64,
            capacity_entries: capacity_bytes / ESTIMATED_BYTES_PER_ENTRY,
            capacity_bytes,
            fifo: VecDeque::new(),
            members: IdMap::new(),
        };
        assert(s.members@.dom() =~= s.fifo@.to_set());
        s
    }

    pub fn with_capacity(capacity_entries: usize, block_tokens: u32) -> (s: Self)
        requires
            block_tokens > 0,
        ensures
            s.wf(),
            s.history() == Seq::<u64>::empty(),
            s.tokens_per_block() == block_tokens,
            s.byte_capacity() == (if capacity_entries == 0 {
                32
            } else {
                capped_product(capacity_entries as int, 32, usize::MAX as int)
            }),
            0 < capacity_entries * 32 <= usize::MAX ==> s.capacity() == capacity_entries,
            capacity_entries == 0 ==> s.capacity() == 1,
            capacity_entries * 32 > usize::MAX ==> s.capacity() == usize::MAX as int / 32,
    {
        let bytes: usize = if capacity_entries <= usize::MAX / ESTIMATED_BYTES_PER_ENTRY {
            capacity_entries * ESTIMATED_BYTES_PER_ENTRY
        } else {
            usize::MAX
        };
        CacheHistory::with_byte_budget(block_tokens, bytes)
    }

    /// The prompt tokens that the longest known prefix covers.
    pub fn previously_computed_tokens(&self, sequence_hashes: &[u64]) -> (tokens: u64)
        requires
            self.wf(),
        ensures
            tokens == capped_product(
                leading_known(self.history(), sequence_hashes@) as int,
                self.tokens_per_block() as int,
                u64::MAX as int,
            ),
    {
        let mut blocks: usize = 0;
        assert(sequence_hashes@.skip(0) =~= sequence_hashes@);
        while blocks < sequence_hashes.len() && self.members.contains(sequence_hashes[blocks])
            invariant
                blocks <= sequence_hashes@.len(),
                self.wf(),
                leading_known(self.history(), sequence_hashes@) == blocks + leading_known(
                    self.history(),
                    sequence_hashes@.skip(blocks as int),
                ),
            decreases sequence_hashes@.len() - blocks,
        {
            assert(sequence_hashes@.skip(blocks as int).skip(1) =~= sequence_hashes@.skip(
                blocks + 1,
            ));
            assert(self.fifo@.to_set().contains(sequence_hashes@[blocks as int]));
            blocks = blocks + 1;
        }
        proof {
            if blocks < sequence_hashes@.len() {
                let next = sequence_hashes@[blocks as int];
                assert(!self.members@.dom().contains(next));
                assert(!self.fifo@.to_set().contains(next));
                assert(sequence_hashes@.skip(blocks as int).first() == next);
            }
        }
        capped_times(blocks as u64, self.block_tokens)
    }

    /// Notes the hashes of a completed request. Gives the new figures if the
    /// number of retained hashes changed.
    pub fn record_completed(&mut self, sequence_hashes: &[u64]) -> (stats: Option<
        CacheHistoryStats,
    >)
        requires
            old(self).wf(),
        ensures
            final(self).wf(),
            final(self).capacity() == old(self).capacity(),
            final(self).byte_capacity() == old(self).byte_capacity(),
            final(self).tokens_per_block() == old(self).tokens_per_block(),
            final(self).history() == recorded(
                old(self).history(),
                sequence_hashes@,
                old(self).capacity(),
            ),
            stats is Some <==> final(self).history().len() != old(self).history().len(),
            stats is Some ==> stats->Some_0 == stats_of(*final(self)),
    {
        let initial: usize = self.fifo.len();
        let ghost start = self.fifo@;
        let mut i: usize = 0;
        assert(sequence_hashes@.take(0) =~= Seq::<u64>::empty());
        while i < sequence_hashes.len()
            invariant
                i <= sequence_hashes@.len(),
                self.wf(),
                self.capacity_entries == old(self).capacity_entries,
                self.capacity_bytes == old(self).capacity_bytes,
                self.block_tokens == old(self).block_tokens,
                start == old(self).fifo@,
                self.fifo@ == recorded(
                    start,
                    sequence_hashes@.take(i as int),
                    self.capacity_entries as nat,
                ),
            decreases sequence_hashes@.len() - i,
        {
            let hash: u64 = sequence_hashes[i];
            let ghost before = self.fifo@;
            proof {
                assert(sequence_hashes@.take(i + 1).drop_last() =~= sequence_hashes@.take(
                    i as int,
                ));
                assert(before.to_set().contains(hash) == before.contains(hash));
            }
            if !self.members.contains(hash) {
                if self.fifo.len() == self.capacity_entries {
                    if let Some(evicted) = self.fifo.pop_front() {
                        self.members.remove(evicted);
                    }
                    proof {
                        let rest = before.skip(1);
                        assert(self.fifo@ =~= rest);
                        assert(rest.to_set() =~= before.to_set().remove(before[0])) by {
                            assert forall|h: u64| rest.to_set().contains(h)
                                == before.to_set().remove(before[0]).contains(h) by {
                                if rest.contains(h) {
                                    let j = choose|j: int| 0 <= j < rest.len() && rest[j] == h;
                                    assert(before[j + 1] == h);
                                }
                                if before.contains(h) && h != before[0] {
                                    let j = choose|j: int| 0 <= j < before.len() && before[j] == h;
                                    assert(rest[j - 1] == h);
                                }
                            }
                        }
                        assert(self.members@.dom() =~= rest.to_set());
                    }
                }
                let ghost room = self.fifo@;
                self.members.insert(hash, ());
                self.fifo.push_back(hash);
                proof {
                    let now = self.fifo@;
                    assert(!room.contains(hash)) by {
                        if room.contains(hash) {
                            let j = choose|j: int| 0 <= j < room.len() && room[j] == hash;
                            if room.len() < before.len() {
                                assert(before[j + 1] == hash);
                            }
                            assert(before.contains(hash));
                        }
                    }
                    assert(now.to_set() =~= room.to_set().insert(hash)) by {
                        assert forall|h: u64| now.to_set().contains(h) == room.to_set().insert(
                            hash,
                        ).contains(h) by {
                            if room.contains(h) {
                                let j = choose|j: int| 0 <= j < room.len() && room[j] == h;
                                assert(now[j] == h);
                            }
                            assert(now[room.len() as int] == hash);
                            if now.contains(h) && h != hash {
                                let j = choose|j: int| 0 <= j < now.len() && now[j] == h;
                                assert(room[j] == h);
                            }
                        }
                    }
                    assert(self.members@.dom() =~= now.to_set());
                    assert forall|a: int, b: int|
                        0 <= a < now.len() && 0 <= b < now.len() && a != b implies now[a]
                        != now[b] by {
                        if a < room.len() && b < room.len() {
                            assert(room[a] != room[b]);
                        } else if a < room.len() {
                            assert(room.contains(room[a]));
                        } else {
                            assert(room.contains(room[b]));
                        }
                    }
                }
            }
            i = i + 1;
        }
        assert(sequence_hashes@.take(sequence_hashes@.len() as int) =~= sequence_hashes@);
        if self.fifo.len() != initial {
            Some(self.stats())
        } else {
            None
        }
    }

    /// The figures of this history.
    pub fn stats(&self) -> (stats: CacheHistoryStats)
        requires
            self.wf(),
        ensures
            stats == stats_of(*self),
    {
        let retained: usize = self.fifo.len();
        CacheHistoryStats {
            retained_entries: retained,
            represented_tokens: capped_times(retained as u64, self.block_tokens),
            estimated_retained_bytes: if retained <= usize::MAX / ESTIMATED_BYTES_PER_ENTRY {
                retained * ESTIMATED_BYTES_PER_ENTRY
            } else {
                usize::MAX
            },
            capacity_entries: self.capacity_entries,
            capacity_bytes: self.capacity_bytes,
        }
    }
}

/// The figures of a history.
pub open spec fn stats_of(history: CacheHistory) -> CacheHistoryStats {
    let retained = history.history().len();
    CacheHistoryStats {
        retained_entries: retained as usize,
        represented_tokens: capped_product(
            retained as int,
            history.tokens_per_block() as int,
            u64::MAX as int,
        ) as u64,
        estimated_retained_bytes: capped_product(
            retained as int,
            ESTIMATED_BYTES_PER_ENTRY as int,
            usize::MAX as int,
        ) as usize,
        capacity_entries: history.capacity() as usize,
        capacity_bytes: history.byte_capacity(),
    }
}

/// The capacity is a hard bound, and no hash is ever retained twice.
pub proof fn law_history_is_a_bounded_set(history: Seq<u64>, hashes: Seq<u64>, capacity: nat)
    requires
        capacity > 0,
        history.len() <= capacity,
        history.no_duplicates(),
    ensures
        recorded(history, hashes, capacity).len() <= capacity,
        recorded(history, hashes, capacity).no_duplicates(),
        recorded(history, hashes, capacity).len() >= history.len(),
    decreases hashes.len(),
{
    if hashes.len() > 0 {
        law_history_is_a_bounded_set(history, hashes.drop_last(), capacity);
        let before = recorded(history, hashes.drop_last(), capacity);
        let hash = hashes.last();
        let after = noted(before, hash, capacity);
        if !before.contains(hash) {
            let kept = if before.len() == capacity {
                before.skip(1)
            } else {
                before
            };
            assert forall|a: int, b: int|
                0 <= a < after.len() && 0 <= b < after.len() && a != b implies after[a]
                != after[b] by {
                let shift = before.len() - kept.len();
                if a < kept.len() {
                    assert(after[a] == before[a + shift]);
                }
                if b < kept.len() {
                    assert(after[b] == before[b + shift]);
                }
            }
        }
    }
}

/// A known hash neither consumes capacity nor becomes younger.
pub proof fn law_duplicates_change_nothing(history: Seq<u64>, hashes: Seq<u64>, capacity: nat)
    requires
        forall|i: int| 0 <= i < hashes.len() ==> history.contains(#[trigger] hashes[i]),
    ensures
        recorded(history, hashes, capacity) == history,
    decreases hashes.len(),
{
    if hashes.len() > 0 {
        assert forall|i: int| 0 <= i < hashes.drop_last().len() implies history.contains(
            #[trigger] hashes.drop_last()[i],
        ) by {
            assert(hashes.drop_last()[i] == hashes[i]);
        }
        law_duplicates_change_nothing(history, hashes.drop_last(), capacity);
        assert(history.contains(hashes[hashes.len() - 1]));
    }
}

/// A new hash is the youngest; nothing else changes, but that a full history
/// loses its oldest hash.
pub proof fn law_new_hash_replaces_the_oldest(history: Seq<u64>, hash: u64, capacity: nat)
    requires
        !history.contains(hash),
        history.len() <= capacity,
        capacity > 0,
    ensures
        ({
            let after = recorded(history, seq![hash], capacity);
            let dropped = if history.len() == capacity {
                1int
            } else {
                0
            };
            &&& after.len() == history.len() + 1 - dropped
            &&& after.last() == hash
            &&& forall|i: int|
                0 <= i < after.len() - 1 ==> #[trigger] after[i] == history[i + dropped]
        }),
{
    assert(seq![hash].drop_last() =~= Seq::<u64>::empty());
    assert(recorded(history, Seq::<u64>::empty(), capacity) == history);
}

/// What was recorded last is known afterwards, and recording several hashes is
/// recording them one after the other.
pub proof fn law_recorded_hash_is_known(history: Seq<u64>, hashes: Seq<u64>, capacity: nat)
    requires
        hashes.len() > 0,
        capacity > 0,
    ensures
        recorded(history, hashes, capacity).contains(hashes.last()),
        recorded(history, hashes, capacity) == recorded(
            recorded(history, hashes.drop_last(), capacity),
            seq![hashes.last()],
            capacity,
        ),
{
    let before = recorded(history, hashes.drop_last(), capacity);
    let after = recorded(history, hashes, capacity);
    let hash = hashes.last();
    assert(seq![hash].drop_last() =~= Seq::<u64>::empty());
    assert(recorded(before, Seq::<u64>::empty(), capacity) == before);
    if !before.contains(hash) {
        assert(after[after.len() - 1] == hash);
    }
}

/// Nothing gets into the history but what was there or was recorded.
pub proof fn law_history_holds_only_what_was_recorded(
    history: Seq<u64>,
    hashes: Seq<u64>,
    capacity: nat,
    hash: u64,
)
    requires
        capacity > 0,
        recorded(history, hashes, capacity).contains(hash),
    ensures
        history.contains(hash) || hashes.contains(hash),
    decreases hashes.len(),
{
    if hashes.len() > 0 {
        let front = hashes.drop_last();
        let before = recorded(history, front, capacity);
        let after = recorded(history, hashes, capacity);
        let at = choose|i: int| 0 <= i < after.len() && after[i] == hash;
        assert(hashes[hashes.len() - 1] == hashes.last());
        if hash != hashes.last() {
            if after == before {
                assert(before[at] == hash);
            } else if before.len() == capacity {
                assert(before[at + 1] == hash);
            } else {
                assert(before[at] == hash);
            }
            law_history_holds_only_what_was_recorded(history, front, capacity, hash);
            if front.contains(hash) {
                let i = choose|i: int| 0 <= i < front.len() && front[i] == hash;
                assert(hashes[i] == hash);
            }
        }
    }
}

/// The known prefix ends at the first hash that is not in the history.
pub proof fn law_known_prefix_ends_at_the_first_miss(history: Seq<u64>, hashes: Seq<u64>, n: int)
    requires
        0 <= n <= hashes.len(),
        forall|i: int| 0 <= i < n ==> history.contains(#[trigger] hashes[i]),
        n < hashes.len() ==> !history.contains(hashes[n]),
    ensures
        leading_known(history, hashes) == n,
    decreases n,
{
    if n > 0 {
        let rest = hashes.skip(1);
        assert(history.contains(hashes[0]));
        assert forall|i: int| 0 <= i < n - 1 implies history.contains(#[trigger] rest[i]) by {
            assert(rest[i] == hashes[i + 1]);
        }
        if n < hashes.len() {
            assert(rest[n - 1] == hashes[n]);
        }
        law_known_prefix_ends_at_the_first_miss(history, rest, n - 1);
    }
}

/// The figures of a history: its hashes, the tokens of as many blocks, and
/// thirty-two bytes for each, as far as can be counted.
pub proof fn law_figures_follow_the_history(history: CacheHistory)
    requires
        history.history().len() <= usize::MAX,
        history.capacity() <= usize::MAX,
    ensures
        ({
            let stats = stats_of(history);
            let n = history.history().len();
            &&& stats.retained_entries == n
            &&& n * history.tokens_per_block() <= u64::MAX ==> stats.represented_tokens == n
                * history.tokens_per_block()
            &&& n * history.tokens_per_block() > u64::MAX ==> stats.represented_tokens == u64::MAX
            &&& n * 32 <= usize::MAX ==> stats.estimated_retained_bytes == n * 32
            &&& n * 32 > usize::MAX ==> stats.estimated_retained_bytes == usize::MAX
            &&& stats.capacity_entries == history.capacity()
            &&& stats.capacity_bytes == history.byte_capacity()
        }),
{
    let n = history.history().len() as int;
    let tokens = history.tokens_per_block() as int;
    assert(n * tokens >= 0) by (nonlinear_arith)
        requires
            n >= 0,
            tokens >= 0,
    ;
}

/// A setting that is a positive number is the budget; any other setting, and
/// none, leaves it at 256 MiB, and only a setting that is no such number is
/// warned of.
pub proof fn law_budget_is_what_was_asked_for(setting: Option<Seq<char>>)
    ensures
        budget_of(setting).0 > 0,
        setting is None ==> budget_of(setting) == (268_435_456nat, false),
        setting is Some ==> {
            let asked = crate::text::number_in(setting->Some_0);
            &&& budget_of(setting).1 <==> asked is None || asked == Some(0nat) || asked->Some_0
                > usize::MAX
            &&& budget_of(setting).1 ==> budget_of(setting).0 == 268_435_456
            &&& !budget_of(setting).1 ==> budget_of(setting).0 == asked->Some_0
        },
{
}

} // verus!
