//! Minimal request-level cache-loss accounting.
//!
//! A bounded history of *completed* canonical sequence hashes, so that a request
//! can tell "computed before" from "still resident now".

use crate::block_hash::BlockExtraInfo;
use crate::id_map::IdMap;
use std::collections::VecDeque;
use vstd::prelude::*;

verus! {

pub const HISTORY_BYTES_ENV: &'static str = "DYN_CACHE_LOSS_HISTORY_BYTES";

pub const CACHE_LOSS_FUNNEL_ENABLED_ENV: &'static str = "DYN_CACHE_LOSS_FUNNEL_ENABLED";

pub const DEFAULT_HISTORY_BYTES: usize = 268_435_456;

pub const HISTORY_CHUNK_RECORDS: usize = 4_096;

/// Conservative planning estimate: an 8-byte FIFO sequence hash plus the
/// amortized hash-map key, refcount, bucket slack, and allocator overhead. This
/// is a capacity model, not a promise about a particular allocator.
pub const ESTIMATED_BYTES_PER_HISTORY_RECORD: usize = 32;

/// Whether cache-loss accounting is enabled. When it is not, callers must not
/// allocate the history ledger, copy prompt tokens, hash blocks, or attach
/// worker outcome metadata.
pub fn enabled(setting: Option<&str>) -> (on: bool)
    ensures
        on == (setting is Some && crate::payload_logger::truthy(setting->Some_0@)),
{
    match setting {
        Some(value) => crate::payload_logger::is_truthy(value),
        None => false,
    }
}

/// How often a hash occurs in a list.
pub open spec fn occurrences(hashes: Seq<u64>, hash: u64) -> nat
    decreases hashes.len(),
{
    if hashes.len() == 0 {
        0
    } else {
        occurrences(hashes.skip(1), hash) + if hashes.first() == hash {
            1nat
        } else {
            0nat
        }
    }
}

proof fn lemma_occurrences_add(a: Seq<u64>, b: Seq<u64>, hash: u64)
    ensures
        occurrences(a + b, hash) == occurrences(a, hash) + occurrences(b, hash),
    decreases a.len(),
{
    if a.len() == 0 {
        assert(a + b =~= b);
    } else {
        assert((a + b).skip(1) =~= a.skip(1) + b);
        lemma_occurrences_add(a.skip(1), b, hash);
    }
}

proof fn lemma_occurrences_one(hash: u64, other: u64)
    ensures
        occurrences(seq![hash], other) == (if hash == other {
            1nat
        } else {
            0nat
        }),
{
    assert(seq![hash].skip(1) =~= Seq::<u64>::empty());
    assert(occurrences(Seq::<u64>::empty(), other) == 0);
}

proof fn lemma_occurs(hashes: Seq<u64>, hash: u64)
    ensures
        occurrences(hashes, hash) > 0 <==> hashes.contains(hash),
    decreases hashes.len(),
{
    if hashes.len() > 0 {
        lemma_occurs(hashes.skip(1), hash);
        if hashes.skip(1).contains(hash) {
            let j = choose|j: int| 0 <= j < hashes.skip(1).len() && hashes.skip(1)[j] == hash;
            assert(hashes[j + 1] == hash);
        }
        if hashes.contains(hash) && hashes.first() != hash {
            let j = choose|j: int| 0 <= j < hashes.len() && hashes[j] == hash;
            assert(hashes.skip(1)[j - 1] == hash);
        }
    }
}

proof fn lemma_occurrences_bounded(hashes: Seq<u64>, hash: u64)
    ensures
        occurrences(hashes, hash) <= hashes.len(),
    decreases hashes.len(),
{
    if hashes.len() > 0 {
        lemma_occurrences_bounded(hashes.skip(1), hash);
    }
}

/// A run of records that expire together.
pub ghost struct Chunk {
    pub inserted_at_ms: u64,
    pub hashes: Seq<u64>,
}

/// All records of the chunks, the oldest first.
pub open spec fn records(chunks: Seq<Chunk>) -> Seq<u64>
    decreases chunks.len(),
{
    if chunks.len() == 0 {
        Seq::empty()
    } else {
        records(chunks.drop_last()) + chunks.last().hashes
    }
}

proof fn lemma_records_front(chunks: Seq<Chunk>)
    requires
        chunks.len() > 0,
    ensures
        records(chunks) == chunks.first().hashes + records(chunks.skip(1)),
    decreases chunks.len(),
{
    if chunks.len() == 1 {
        assert(chunks.drop_last() =~= Seq::<Chunk>::empty());
        assert(chunks.skip(1) =~= Seq::<Chunk>::empty());
        assert(records(chunks.drop_last()) == Seq::<u64>::empty());
        assert(records(chunks.skip(1)) == Seq::<u64>::empty());
        assert(records(chunks) =~= chunks.first().hashes);
    } else {
        lemma_records_front(chunks.drop_last());
        assert(chunks.drop_last().skip(1) =~= chunks.skip(1).drop_last());
        assert(records(chunks) =~= chunks.first().hashes + records(chunks.skip(1)));
    }
}

/// The chunks after one more record. A full history first loses its oldest
/// chunk, whole.
pub open spec fn with_record(
    chunks: Seq<Chunk>,
    hash: u64,
    now_ms: u64,
    capacity: nat,
    chunk_records: nat,
) -> Seq<Chunk> {
    let kept = if records(chunks).len() == capacity {
        chunks.skip(1)
    } else {
        chunks
    };
    if kept.len() == 0 || kept.last().hashes.len() == chunk_records {
        kept.push(Chunk { inserted_at_ms: now_ms, hashes: seq![hash] })
    } else {
        kept.update(
            kept.len() - 1,
            Chunk { hashes: kept.last().hashes.push(hash), ..kept.last() },
        )
    }
}

/// The chunks after several records.
pub open spec fn with_records(
    chunks: Seq<Chunk>,
    hashes: Seq<u64>,
    now_ms: u64,
    capacity: nat,
    chunk_records: nat,
) -> Seq<Chunk>
    decreases hashes.len(),
{
    if hashes.len() == 0 {
        chunks
    } else {
        with_record(
            with_records(chunks, hashes.drop_last(), now_ms, capacity, chunk_records),
            hashes.last(),
            now_ms,
            capacity,
            chunk_records,
        )
    }
}

/// How many leading hashes are among the records.
pub open spec fn leading_recorded(records: Seq<u64>, hashes: Seq<u64>) -> nat
    decreases hashes.len(),
{
    if hashes.len() > 0 && records.contains(hashes.first()) {
        1 + leading_recorded(records, hashes.skip(1))
    } else {
        0
    }
}

#[derive(Clone, Copy, Debug, PartialEq, Eq, Structural)]
pub struct CacheHistoryStats {
    pub capacity_blocks: usize,
    pub capacity_bytes: usize,
    pub retained_records: usize,
    pub retained_unique_hashes: usize,
    pub represented_tokens: u64,
    pub estimated_retained_bytes: usize,
    pub oldest_chunk_age_seconds: u64,
}

struct HistoryChunk {
    inserted_at_ms: u64,
    hashes: Vec<u64>,
}

impl HistoryChunk {
    spec fn chunk(self) -> Chunk {
        Chunk { inserted_at_ms: self.inserted_at_ms, hashes: self.hashes@ }
    }
}

/// A bounded history of cache identities that have definitely been computed.
///
/// The identity is the canonical rolling sequence hash, not a bare token-block
/// hash. Thus equal token blocks under different preceding contexts remain
/// distinct. Each record is retained in arrival order; a count keeps a hash
/// present while any retained record still refers to it.
pub struct CacheHistory {
    capacity_blocks: usize,
    capacity_bytes: usize,
    block_tokens: u64,
    chunk_records: usize,
    retained_records: usize,
    chunks: VecDeque<HistoryChunk>,
    retained: IdMap<usize>,
}

spec fn chunks_in(chunks: Seq<HistoryChunk>) -> Seq<Chunk> {
    chunks.map_values(|chunk: HistoryChunk| chunk.chunk())
}

/// The counts are those of the records.
spec fn counts(retained: Map<u64, usize>, records: Seq<u64>) -> bool {
    forall|hash: u64|
        #![trigger retained.contains_key(hash)]
        #![trigger retained[hash]]
        #![trigger occurrences(records, hash)]
        (retained.contains_key(hash) <==> occurrences(records, hash) > 0) && (retained.contains_key(
            hash,
        ) ==> retained[hash] == occurrences(records, hash))
}

/// How a byte budget is cut into records and chunks.
pub open spec fn chunk_size(record_budget: int, asked: int) -> int {
    let least = if asked > 1 {
        asked
    } else {
        1
    };
    let most = if record_budget > 1 {
        record_budget
    } else {
        1
    };
    if least <= most {
        least
    } else {
        most
    }
}

/// The capacity in records: whole chunks, at least one.
pub open spec fn capacity_of(record_budget: int, chunk: int) -> int {
    let whole = record_budget / chunk;
    if whole > 1 {
        whole * chunk
    } else {
        chunk
    }
}

impl CacheHistory {
    pub closed spec fn chunks(&self) -> Seq<Chunk> {
        chunks_in(self.chunks@)
    }

    pub closed spec fn capacity(&self) -> nat {
        self.capacity_blocks as nat
    }

    pub closed spec fn byte_capacity(&self) -> usize {
        self.capacity_bytes
    }

    pub closed spec fn records_per_chunk(&self) -> nat {
        self.chunk_records as nat
    }

    pub closed spec fn tokens_per_block(&self) -> u64 {
        self.block_tokens
    }

    /// The counts are exact and the capacity is never exceeded.
    pub closed spec fn wf(&self) -> bool {
        &&& self.capacity_blocks > 0
        &&& self.chunk_records > 0
        &&& self.retained_records == records(self.chunks()).len()
        &&& self.retained_records <= self.capacity_blocks
        &&& counts(self.retained@, records(self.chunks()))
        &&& forall|i: int|
            0 <= i < self.chunks@.len() ==> (#[trigger] self.chunks@[i]).hashes@.len() > 0
    }

    /// A history from the value of its byte budget setting. A setting that is
    /// no positive number is passed over.
    pub fn from_setting(block_tokens: u32, setting: Option<&str>) -> (s: Self)
        requires
            block_tokens > 0,
        ensures
            s.wf(),
            s.chunks() == Seq::<Chunk>::empty(),
            s.tokens_per_block() == block_tokens,
            s.byte_capacity() == asked_bytes(
                crate::kv_cache_sol_producer::setting_text(setting),
            ),
            ({
                let budget = s.byte_capacity() as int / 32;
                &&& s.records_per_chunk() == chunk_size(
                    budget,
                    if budget <= HISTORY_CHUNK_RECORDS {
                        budget
                    } else {
                        HISTORY_CHUNK_RECORDS as int
                    },
                )
                &&& s.capacity() == capacity_of(budget, s.records_per_chunk() as int)
            }),
    {
        let mut bytes: usize = DEFAULT_HISTORY_BYTES;
        if let Some(text) = setting {
            if let Some(asked) = crate::text::parse_usize(text) {
                if asked > 0 {
                    bytes = asked;
                }
            }
        }
        if bytes < ESTIMATED_BYTES_PER_HISTORY_RECORD {
            bytes = ESTIMATED_BYTES_PER_HISTORY_RECORD;
        }
        CacheHistory::new_with_budget(block_tokens, bytes)
    }

    pub fn new(capacity_blocks: usize, block_tokens: u32) -> (s: Self)
        requires
            block_tokens > 0,
        ensures
            s.wf(),
            s.chunks() == Seq::<Chunk>::empty(),
            s.tokens_per_block() == block_tokens,
            s.byte_capacity() == crate::cache_history::capped_product(
                capacity_blocks as int,
                32,
                usize::MAX as int,
            ),
            ({
                let budget = s.byte_capacity() as int / 32;
                &&& s.records_per_chunk() == chunk_size(
                    budget,
                    if budget <= HISTORY_CHUNK_RECORDS {
                        budget
                    } else {
                        HISTORY_CHUNK_RECORDS as int
                    },
                )
                &&& s.capacity() == capacity_of(budget, s.records_per_chunk() as int)
            }),
    {
        CacheHistory::new_with_budget(block_tokens, record_bytes(capacity_blocks))
    }

    pub fn new_with_chunk(capacity_blocks: usize, block_tokens: u32, chunk_records: usize) -> (s:
        Self)
        requires
            block_tokens > 0,
        ensures
            s.wf(),
            s.chunks() == Seq::<Chunk>::empty(),
            s.tokens_per_block() == block_tokens,
            s.byte_capacity() == crate::cache_history::capped_product(
                capacity_blocks as int,
                32,
                usize::MAX as int,
            ),
            ({
                let budget = s.byte_capacity() as int / 32;
                &&& s.records_per_chunk() == chunk_size(budget, chunk_records as int)
                &&& s.capacity() == capacity_of(budget, s.records_per_chunk() as int)
            }),
    {
        CacheHistory::new_with_chunk_budget(
            block_tokens,
            record_bytes(capacity_blocks),
            chunk_records,
        )
    }

    pub fn new_with_budget(block_tokens: u32, capacity_bytes: usize) -> (s: Self)
        requires
            block_tokens > 0,
        ensures
            s.wf(),
            s.chunks() == Seq::<Chunk>::empty(),
            s.tokens_per_block() == block_tokens,
            s.byte_capacity() == capacity_bytes,
            ({
                let budget = capacity_bytes as int / 32;
                &&& s.records_per_chunk() == chunk_size(
                    budget,
                    if budget <= HISTORY_CHUNK_RECORDS {
                        budget
                    } else {
                        HISTORY_CHUNK_RECORDS as int
                    },
                )
                &&& s.capacity() == capacity_of(budget, s.records_per_chunk() as int)
            }),
    {
        let record_budget: usize = capacity_bytes / ESTIMATED_BYTES_PER_HISTORY_RECORD;
        let chunk: usize = if record_budget <= HISTORY_CHUNK_RECORDS {
            record_budget
        } else {
            HISTORY_CHUNK_RECORDS
        };
        CacheHistory::new_with_chunk_budget(block_tokens, capacity_bytes, chunk)
    }

    pub fn new_with_chunk_budget(
        block_tokens: u32,
        capacity_bytes: usize,
        chunk_records: usize,
    ) -> (s: Self)
        requires
            block_tokens > 0,
        ensures
            s.wf(),
            s.chunks() == Seq::<Chunk>::empty(),
            s.tokens_per_block() == block_tokens,
            s.byte_capacity() == capacity_bytes,
            s.records_per_chunk() == chunk_size(capacity_bytes as int / 32, chunk_records as int),
            s.capacity() == capacity_of(capacity_bytes as int / 32, s.records_per_chunk() as int),
    {
        let record_budget: usize = capacity_bytes / ESTIMATED_BYTES_PER_HISTORY_RECORD;
        let least: usize = if chunk_records > 1 {
            chunk_records
        } else {
            1
        };
        let most: usize = if record_budget > 1 {
            record_budget
        } else {
            1
        };
        let chunk: usize = if least <= most {
            least
        } else {
            most
        };
        let whole: usize = record_budget / chunk;
        assert(whole * chunk <= record_budget) by (nonlinear_arith)
            requires
                whole == record_budget / chunk,
                chunk > 0,
        ;
        let capacity_blocks: usize = if whole > 1 {
            whole * chunk
        } else {
            chunk
        };
        assert(capacity_blocks > 0) by (nonlinear_arith)
            requires
                chunk > 0,
                capacity_blocks == chunk || (capacity_blocks == whole * chunk && whole > 1),
        ;
        let s = CacheHistory {
            capacity_blocks,
            capacity_bytes,
            block_tokens: block_tokens as u64,
            chunk_records: chunk,
            retained_records: 0,
            chunks: VecDeque::new(),
            retained: IdMap::new(),
        };
        assert(s.chunks() =~= Seq::<Chunk>::empty());
        assert(forall|hash: u64| occurrences(Seq::<u64>::empty(), hash) == 0);
        s
    }

    /// Count the longest complete prefix whose canonical identities have been
    /// computed by a prior completed request.
    pub fn previously_computed_tokens(&self, sequence_hashes: &[u64]) -> (tokens: u64)
        requires
            self.wf(),
        ensures
            tokens == crate::cache_history::capped_product(
                leading_recorded(records(self.chunks()), sequence_hashes@) as int,
                self.tokens_per_block() as int,
                u64::MAX as int,
            ),
    {
        let ghost all = records(self.chunks());
        let mut blocks: usize = 0;
        assert(sequence_hashes@.skip(0) =~= sequence_hashes@);
        while blocks < sequence_hashes.len() && self.retained.contains(sequence_hashes[blocks])
            invariant
                blocks <= sequence_hashes@.len(),
                self.wf(),
                all == records(self.chunks()),
                leading_recorded(all, sequence_hashes@) == blocks + leading_recorded(
                    all,
                    sequence_hashes@.skip(blocks as int),
                ),
            decreases sequence_hashes@.len() - blocks,
        {
            assert(sequence_hashes@.skip(blocks as int).skip(1) =~= sequence_hashes@.skip(
                blocks + 1,
            ));
            proof {
                lemma_occurs(all, sequence_hashes@[blocks as int]);
            }
            blocks = blocks + 1;
        }
        proof {
            if blocks < sequence_hashes@.len() {
                let next = sequence_hashes@[blocks as int];
                assert(!self.retained@.contains_key(next));
                lemma_occurs(all, next);
                assert(sequence_hashes@.skip(blocks as int).first() == next);
            }
        }
        crate::cache_history::capped_times(blocks as u64, self.block_tokens)
    }

    /// Retain the supplied complete canonical sequence hashes. Duplicate hashes
    /// are records too: refreshing a repeated prefix keeps it in the recent
    /// window without losing an older retained occurrence prematurely.
    pub fn record_completed(&mut self, sequence_hashes: &[u64], now_ms: u64)
        requires
            old(self).wf(),
        ensures
            final(self).wf(),
            final(self).capacity() == old(self).capacity(),
            final(self).byte_capacity() == old(self).byte_capacity(),
            final(self).records_per_chunk() == old(self).records_per_chunk(),
            final(self).tokens_per_block() == old(self).tokens_per_block(),
            final(self).chunks() == with_records(
                old(self).chunks(),
                sequence_hashes@,
                now_ms,
                old(self).capacity(),
                old(self).records_per_chunk(),
            ),
    {
        let ghost start = self.chunks();
        let mut i: usize = 0;
        assert(sequence_hashes@.take(0) =~= Seq::<u64>::empty());
        while i < sequence_hashes.len()
            invariant
                i <= sequence_hashes@.len(),
                self.wf(),
                start == old(self).chunks(),
                self.capacity_blocks == old(self).capacity_blocks,
                self.capacity_bytes == old(self).capacity_bytes,
                self.chunk_records == old(self).chunk_records,
                self.block_tokens == old(self).block_tokens,
                self.chunks() == with_records(
                    start,
                    sequence_hashes@.take(i as int),
                    now_ms,
                    self.capacity_blocks as nat,
                    self.chunk_records as nat,
                ),
            decreases sequence_hashes@.len() - i,
        {
            assert(sequence_hashes@.take(i + 1).drop_last() =~= sequence_hashes@.take(i as int));
            let ghost before = self.chunks();
            if self.retained_records == self.capacity_blocks {
                self.evict_oldest_chunk();
            }
            self.add(sequence_hashes[i], now_ms);
            i = i + 1;
        }
        assert(sequence_hashes@.take(sequence_hashes@.len() as int) =~= sequence_hashes@);
    }

    /// Adds a record to a history that has room for it.
    fn add(&mut self, hash: u64, now_ms: u64)
        requires
            old(self).wf(),
            old(self).retained_records < old(self).capacity_blocks,
        ensures
            final(self).wf(),
            final(self).capacity_blocks == old(self).capacity_blocks,
            final(self).capacity_bytes == old(self).capacity_bytes,
            final(self).chunk_records == old(self).chunk_records,
            final(self).block_tokens == old(self).block_tokens,
            ({
                let kept = old(self).chunks();
                final(self).chunks() == (if kept.len() == 0 || kept.last().hashes.len()
                    == old(self).chunk_records {
                    kept.push(Chunk { inserted_at_ms: now_ms, hashes: seq![hash] })
                } else {
                    kept.update(
                        kept.len() - 1,
                        Chunk { hashes: kept.last().hashes.push(hash), ..kept.last() },
                    )
                })
            }),
    {
        let ghost kept = self.chunks();
        let ghost before = self.chunks@;
        let ghost all = records(kept);
        let mut open: Option<HistoryChunk> = self.chunks.pop_back();
        let ghost rest = self.chunks@;
        let full: bool = match &open {
            Some(chunk) => chunk.hashes.len() == self.chunk_records,
            None => false,
        };
        proof {
            if before.len() > 0 {
                assert(kept.last() == before.last().chunk());
                assert(rest =~= before.drop_last());
                assert(chunks_in(rest) =~= kept.drop_last());
            } else {
                assert(rest =~= before);
            }
        }
        if full {
            if let Some(chunk) = open {
                self.chunks.push_back(chunk);
            }
            open = None;
            assert(self.chunks@ =~= before);
        }
        let ghost base = self.chunks@;
        let mut chunk: HistoryChunk = match open {
            Some(chunk) => chunk,
            None => HistoryChunk { inserted_at_ms: now_ms, hashes: Vec::new() },
        };
        chunk.hashes.push(hash);
        let ghost filled = chunk;
        self.chunks.push_back(chunk);
        self.retained_records = self.retained_records + 1;
        let ghost was = self.retained@;
        proof {
            lemma_occurrences_bounded(all, hash);
        }
        let count: usize = match self.retained.get(hash) {
            Some(count) => *count,
            None => 0,
        };
        self.retained.insert(hash, count + 1);
        proof {
            let now = self.chunks();
            assert(now =~= chunks_in(base).push(filled.chunk()));
            assert(now.drop_last() =~= chunks_in(base));
            if before.len() == 0 || full {
                assert(filled.hashes@ =~= seq![hash]);
                assert(chunks_in(base) =~= kept);
                assert(records(now) =~= all.push(hash));
            } else {
                assert(now =~= kept.update(
                    kept.len() - 1,
                    Chunk { hashes: kept.last().hashes.push(hash), ..kept.last() },
                ));
                assert(records(now) =~= all.push(hash));
            }
            assert(all.push(hash) =~= all + seq![hash]);
            assert forall|other: u64|
                (self.retained@.contains_key(other) <==> occurrences(records(now), other) > 0)
                    && (self.retained@.contains_key(other) ==> self.retained@[other]
                    == occurrences(records(now), other)) by {
                lemma_occurrences_add(all, seq![hash], other);
                lemma_occurrences_one(hash, other);
                assert(was.contains_key(other) <==> occurrences(all, other) > 0);
            }
            assert forall|j: int| 0 <= j < self.chunks@.len() implies (
            #[trigger] self.chunks@[j]).hashes@.len() > 0 by {
                if j < base.len() {
                    assert(self.chunks@[j] == base[j]);
                    assert(base[j] == before[j]);
                }
            }
        }
    }

    /// Forgets the oldest chunk of a history that has any.
    fn evict_oldest_chunk(&mut self)
        requires
            old(self).wf(),
            old(self).retained_records > 0,
        ensures
            final(self).wf(),
            final(self).capacity_blocks == old(self).capacity_blocks,
            final(self).capacity_bytes == old(self).capacity_bytes,
            final(self).chunk_records == old(self).chunk_records,
            final(self).block_tokens == old(self).block_tokens,
            final(self).chunks() == old(self).chunks().skip(1),
            final(self).retained_records < old(self).retained_records,
    {
        let ghost before = self.chunks@;
        let ghost all = records(self.chunks());
        let ghost was = self.retained@;
        proof {
            if before.len() == 0 {
                assert(self.chunks() =~= Seq::<Chunk>::empty());
            }
        }
        let chunk: HistoryChunk = match self.chunks.pop_front() {
            Some(chunk) => chunk,
            None => {
                return ;
            },
        };
        let ghost left = records(chunks_in(self.chunks@));
        proof {
            assert(self.chunks@ =~= before.skip(1));
            assert(chunks_in(self.chunks@) =~= chunks_in(before).skip(1));
            lemma_records_front(chunks_in(before));
            assert(all == chunk.hashes@ + left);
            assert(before[0].hashes@.len() > 0);
        }
        self.retained_records = self.retained_records - chunk.hashes.len();
        let mut i: usize = 0;
        assert(chunk.hashes@.skip(0) + left =~= all);
        while i < chunk.hashes.len()
            invariant
                i <= chunk.hashes@.len(),
                counts(self.retained@, chunk.hashes@.skip(i as int) + left),
                self.chunks@ == before.skip(1),
                self.capacity_blocks == old(self).capacity_blocks,
                self.capacity_bytes == old(self).capacity_bytes,
                self.chunk_records == old(self).chunk_records,
                self.block_tokens == old(self).block_tokens,
                self.retained_records == old(self).retained_records - chunk.hashes@.len(),
            decreases chunk.hashes@.len() - i,
        {
            let evicted: u64 = chunk.hashes[i];
            let ghost here = chunk.hashes@.skip(i as int) + left;
            let ghost next = chunk.hashes@.skip(i + 1) + left;
            let ghost held = self.retained@;
            proof {
                assert(here.first() == evicted);
                assert(here.skip(1) =~= next);
                assert(occurrences(here, evicted) > 0);
                assert(held.contains_key(evicted));
            }
            let count: usize = match self.retained.get(evicted) {
                Some(count) => *count,
                None => 1,
            };
            if count > 1 {
                self.retained.insert(evicted, count - 1);
            } else {
                self.retained.remove(evicted);
            }
            proof {
                assert forall|other: u64|
                    (self.retained@.contains_key(other) <==> occurrences(next, other) > 0) && (
                    self.retained@.contains_key(other) ==> self.retained@[other] == occurrences(
                        next,
                        other,
                    )) by {
                    assert(held.contains_key(other) <==> occurrences(here, other) > 0);
                }
            }
            i = i + 1;
        }
        proof {
            assert(chunk.hashes@.skip(chunk.hashes@.len() as int) + left =~= left);
            assert(self.chunks() =~= chunks_in(before).skip(1));
        }
    }

    /// The figures of this history.
    pub fn stats(&self, now_ms: u64) -> (stats: CacheHistoryStats)
        requires
            self.wf(),
        ensures
            stats.capacity_blocks == self.capacity(),
            stats.capacity_bytes == self.byte_capacity(),
            stats.retained_records == records(self.chunks()).len(),
            stats.retained_unique_hashes == records(self.chunks()).to_set().len(),
            stats.represented_tokens == crate::cache_history::capped_product(
                records(self.chunks()).len() as int,
                self.tokens_per_block() as int,
                u64::MAX as int,
            ),
            stats.estimated_retained_bytes == crate::cache_history::capped_product(
                records(self.chunks()).len() as int,
                32,
                usize::MAX as int,
            ),
            stats.oldest_chunk_age_seconds == (if self.chunks().len() > 0
                && self.chunks().first().inserted_at_ms <= now_ms {
                (now_ms - self.chunks().first().inserted_at_ms) / 1000
            } else {
                0
            }),
    {
        let retained: usize = self.retained_records;
        proof {
            let all = records(self.chunks());
            assert(self.retained@.dom() =~= all.to_set()) by {
                assert forall|hash: u64| self.retained@.dom().contains(hash)
                    == all.to_set().contains(hash) by {
                    lemma_occurs(all, hash);
                    assert(self.retained@.contains_key(hash) <==> occurrences(all, hash) > 0);
                }
            }
        }
        let oldest_chunk_age_seconds: u64 = if self.chunks.len() > 0 {
            let inserted: u64 = self.chunks[0].inserted_at_ms;
            if inserted <= now_ms {
                (now_ms - inserted) / 1000
            } else {
                0
            }
        } else {
            0
        };
        CacheHistoryStats {
            capacity_blocks: self.capacity_blocks,
            capacity_bytes: self.capacity_bytes,
            retained_records: retained,
            retained_unique_hashes: self.retained.len(),
            represented_tokens: crate::cache_history::capped_times(
                retained as u64,
                self.block_tokens,
            ),
            estimated_retained_bytes: record_bytes(retained),
            oldest_chunk_age_seconds,
        }
    }
}

/// The byte budget that a setting asks for: never less than one record.
pub open spec fn asked_bytes(setting: Option<Seq<char>>) -> int {
    let asked = match setting {
        Some(text) => match crate::text::number_in(text) {
            Some(n) => if 0 < n <= usize::MAX {
                n as int
            } else {
                DEFAULT_HISTORY_BYTES as int
            },
            None => DEFAULT_HISTORY_BYTES as int,
        },
        None => DEFAULT_HISTORY_BYTES as int,
    };
    if asked < 32 {
        32
    } else {
        asked
    }
}

fn record_bytes(records: usize) -> (bytes: usize)
    ensures
        bytes == crate::cache_history::capped_product(records as int, 32, usize::MAX as int),
{
    if records <= usize::MAX / ESTIMATED_BYTES_PER_HISTORY_RECORD {
        records * ESTIMATED_BYTES_PER_HISTORY_RECORD
    } else {
        usize::MAX
    }
}

/// What is recorded is known at once, and the capacity is a hard bound.
pub proof fn law_recorded_is_known(
    chunks: Seq<Chunk>,
    hash: u64,
    now_ms: u64,
    capacity: nat,
    chunk_records: nat,
)
    requires
        capacity > 0,
        records(chunks).len() <= capacity,
        forall|i: int| 0 <= i < chunks.len() ==> (#[trigger] chunks[i]).hashes.len() > 0,
    ensures
        ({
            let after = with_record(chunks, hash, now_ms, capacity, chunk_records);
            &&& records(after).contains(hash)
            &&& records(after).len() <= capacity
        }),
{
    let after = with_record(chunks, hash, now_ms, capacity, chunk_records);
    let kept = if records(chunks).len() == capacity {
        chunks.skip(1)
    } else {
        chunks
    };
    if records(chunks).len() == capacity {
        if chunks.len() == 0 {
            assert(records(chunks).len() == 0);
        }
        lemma_records_front(chunks);
        assert(chunks[0].hashes.len() > 0);
    }
    if kept.len() == 0 || kept.last().hashes.len() == chunk_records {
        assert(after.drop_last() =~= kept);
        assert(records(after) =~= records(kept).push(hash));
    } else {
        assert(after.drop_last() =~= kept.drop_last());
        assert(records(after) =~= records(kept).push(hash));
    }
    assert(records(after).last() == hash);
}

/// Only the oldest chunk is ever lost: every record outside it stays.
pub proof fn law_only_the_oldest_chunk_expires(
    chunks: Seq<Chunk>,
    hash: u64,
    now_ms: u64,
    capacity: nat,
    chunk_records: nat,
    other: u64,
)
    requires
        chunks.len() > 0,
        records(chunks.skip(1)).contains(other),
    ensures
        records(with_record(chunks, hash, now_ms, capacity, chunk_records)).contains(other),
{
    let after = with_record(chunks, hash, now_ms, capacity, chunk_records);
    let rest = chunks.skip(1);
    let kept = if records(chunks).len() == capacity {
        rest
    } else {
        chunks
    };
    lemma_records_front(chunks);
    let j = choose|j: int| 0 <= j < records(rest).len() && records(rest)[j] == other;
    assert(records(chunks)[j + chunks.first().hashes.len()] == other);
    assert(records(kept).contains(other));
    if kept.len() == 0 || kept.last().hashes.len() == chunk_records {
        assert(after.drop_last() =~= kept);
    } else {
        assert(after.drop_last() =~= kept.drop_last());
    }
    assert(records(after) =~= records(kept).push(hash));
    let k = choose|k: int| 0 <= k < records(kept).len() && records(kept)[k] == other;
    assert(records(after)[k] == other);
}

/// What is known of a request when it is routed.
#[derive(Clone, Copy, Debug, PartialEq, Eq, Structural)]
pub struct RouteObservation {
    pub prompt_tokens: u64,
    pub previously_computed_tokens: u64,
    pub best_router_tokens: u64,
    pub selected_router_tokens: u64,
}

/// The output of a choice that has been computed: the newest sampled token was
/// returned to the caller but has not yet been fed back through the model, so it
/// has no cache entry.
pub open spec fn computed_output(output: Seq<u32>) -> Seq<u32> {
    if output.len() == 0 {
        output
    } else {
        output.drop_last()
    }
}

/// Request-local state used to record canonical prompt and generated histories
/// only after the worker has supplied a complete cache-loss outcome.
///
/// Generated tokens are kept by output-choice index, in ascending order.
pub struct CacheHistoryRequest {
    prompt_tokens: Vec<u32>,
    prompt_hashes: Vec<u64>,
    block_mm_infos: Option<Vec<Option<BlockExtraInfo>>>,
    lora_name: Option<String>,
    cache_namespace: Option<String>,
    block_size: u32,
    is_eagle: bool,
    output_branches: crate::kv_cache_sol_producer::OutputTable,
    prompt_recorded: bool,
    finalized: bool,
}

/// How the hashes of a request are made.
pub ghost struct Hashing {
    pub block_size: u32,
    pub is_eagle: bool,
    pub infos: Option<Vec<Option<BlockExtraInfo>>>,
    pub seed: u64,
}

impl Hashing {
    /// The sequence hashes of some tokens.
    pub open spec fn hashes(self, tokens: Seq<u32>) -> Seq<u64> {
        crate::block_hash::rolling(
            None,
            crate::hash_continuation::sequence_locals(
                tokens,
                self.block_size,
                self.is_eagle,
                self.infos,
                self.seed,
            ),
        )
    }

    /// The hashes that an output adds to those of its prompt.
    pub open spec fn added(self, prompt: Seq<u32>, output: Seq<u32>) -> Seq<u64> {
        self.hashes(prompt + computed_output(output)).skip(self.hashes(prompt).len() as int)
    }
}

impl CacheHistoryRequest {
    pub closed spec fn hashing(&self) -> Hashing {
        Hashing {
            block_size: self.block_size,
            is_eagle: self.is_eagle,
            infos: self.block_mm_infos,
            seed: crate::block_hash::seed_of(
                crate::hash_continuation::name_bytes(self.lora_name),
                crate::hash_continuation::name_bytes(self.cache_namespace),
            ),
        }
    }

    pub closed spec fn prompt(&self) -> Seq<u32> {
        self.prompt_tokens@
    }

    /// The output so far, by choice.
    pub closed spec fn outputs(&self) -> crate::kv_cache_sol_producer::Outputs {
        self.output_branches.outputs()
    }

    /// The prompt has been recorded.
    pub closed spec fn recorded(&self) -> bool {
        self.prompt_recorded
    }

    pub closed spec fn done(&self) -> bool {
        self.finalized
    }

    pub closed spec fn wf(&self) -> bool {
        &&& self.block_size > 0
        &&& self.prompt_hashes@ == self.hashing().hashes(self.prompt_tokens@)
    }

    pub fn new(
        prompt_tokens: Vec<u32>,
        block_mm_infos: Option<Vec<Option<BlockExtraInfo>>>,
        lora_name: Option<String>,
        cache_namespace: Option<String>,
        block_size: u32,
        is_eagle: bool,
    ) -> (s: Self)
        requires
            block_size > 0,
        ensures
            s.wf(),
            s.prompt() == prompt_tokens@,
            s.hashing() == (Hashing {
                block_size,
                is_eagle,
                infos: block_mm_infos,
                seed: crate::block_hash::seed_of(
                    crate::hash_continuation::name_bytes(lora_name),
                    crate::hash_continuation::name_bytes(cache_namespace),
                ),
            }),
            s.outputs() == crate::kv_cache_sol_producer::Outputs::empty(),
            !s.recorded(),
            !s.done(),
    {
        let prompt_hashes = crate::hash_continuation::sequence_hashes(
            prompt_tokens.as_slice(),
            block_size,
            is_eagle,
            &block_mm_infos,
            &lora_name,
            &cache_namespace,
        );
        CacheHistoryRequest {
            prompt_tokens,
            prompt_hashes,
            block_mm_infos,
            lora_name,
            cache_namespace,
            block_size,
            is_eagle,
            output_branches: crate::kv_cache_sol_producer::OutputTable::new(),
            prompt_recorded: false,
            finalized: false,
        }
    }

    pub fn observe_output(&mut self, output_index: u32, token_ids: &[u32])
        requires
            old(self).wf(),
        ensures
            final(self).wf(),
            final(self).prompt() == old(self).prompt(),
            final(self).hashing() == old(self).hashing(),
            final(self).recorded() == old(self).recorded(),
            final(self).done() == old(self).done(),
            final(self).outputs() == (if token_ids@.len() > 0 {
                crate::kv_cache_sol_producer::with_output(
                    old(self).outputs(),
                    output_index,
                    token_ids@,
                )
            } else {
                old(self).outputs()
            }),
    {
        if token_ids.len() > 0 {
            self.output_branches.extend(output_index, token_ids);
        }
    }

    /// The hashes of the prompt.
    pub fn prompt_hashes(&self) -> (hashes: Vec<u64>)
        requires
            self.wf(),
        ensures
            hashes@ == self.hashing().hashes(self.prompt()),
    {
        let mut hashes: Vec<u64> = Vec::new();
        hashes.extend_from_slice(self.prompt_hashes.as_slice());
        assert(hashes@ =~= self.prompt_hashes@);
        hashes
    }

    /// The hashes that each output adds, for the outputs of which anything has
    /// been computed, in the order of their choices.
    pub fn output_hashes(&self) -> (hashes: Vec<Vec<u64>>)
        requires
            self.wf(),
        ensures
            exists|choices: Seq<u32>| #[trigger]
                crate::choice_map::ascending(choices) && choices.to_set() == self.outputs().dom()
                    && texts(hashes@) == outputs_added(
                    self.hashing(),
                    self.prompt(),
                    self.outputs(),
                    choices,
                ),
    {
        let choices = self.output_branches.choices();
        let mut hashes: Vec<Vec<u64>> = Vec::new();
        let mut i: usize = 0;
        assert(texts(hashes@) =~= Seq::<Seq<u64>>::empty());
        let none: Vec<u32> = Vec::new();
        assert(choices@.take(0) =~= Seq::<u32>::empty());
        while i < choices.len()
            invariant
                i <= choices@.len(),
                self.wf(),
                choices@.to_set() == self.outputs().dom(),
                texts(hashes@) == outputs_added(
                    self.hashing(),
                    self.prompt(),
                    self.outputs(),
                    choices@.take(i as int),
                ),
            decreases choices@.len() - i,
        {
            let choice: u32 = choices[i];
            proof {
                assert(choices@.take(i + 1).drop_last() =~= choices@.take(i as int));
                assert(choices@.to_set().contains(choice));
            }
            let output: &Vec<u32> = match self.output_branches.output(choice) {
                Some(output) => output,
                None => &none,
            };
            if output.len() > 1 {
                let mut sequence: Vec<u32> = Vec::new();
                sequence.extend_from_slice(self.prompt_tokens.as_slice());
                let mut k: usize = 0;
                let last: usize = output.len() - 1;
                assert(sequence@ =~= self.prompt_tokens@ + output@.take(0));
                while k < last
                    invariant
                        k <= last,
                        last == output@.len() - 1,
                        sequence@ == self.prompt_tokens@ + output@.take(k as int),
                    decreases last - k,
                {
                    sequence.push(output[k]);
                    assert(output@.take(k + 1) =~= output@.take(k as int).push(output@[k as int]));
                    assert(sequence@ =~= self.prompt_tokens@ + output@.take(k + 1));
                    k = k + 1;
                }
                assert(output@.take(last as int) =~= computed_output(output@));
                let all = crate::hash_continuation::sequence_hashes(
                    sequence.as_slice(),
                    self.block_size,
                    self.is_eagle,
                    &self.block_mm_infos,
                    &self.lora_name,
                    &self.cache_namespace,
                );
                proof {
                    lemma_longer_sequence_has_more_hashes(
                        self.hashing(),
                        self.prompt_tokens@,
                        computed_output(output@),
                    );
                }
                let ghost before = hashes@;
                let added = hashes_from(&all, self.prompt_hashes.len());
                hashes.push(added);
                assert(texts(hashes@) =~= texts(before).push(added@));
            }
            i = i + 1;
        }
        assert(choices@.take(choices@.len() as int) =~= choices@);
        hashes
    }

    /// Records the hashes of the prompt, once.
    pub fn record_prompt(&mut self, history: &mut CacheHistory, hashes: &Vec<u64>, now_ms: u64)
        requires
            old(self).wf(),
            old(history).wf(),
        ensures
            final(self).wf(),
            final(history).wf(),
            final(self).recorded(),
            final(self).done() == old(self).done(),
            final(self).outputs() == old(self).outputs(),
            final(self).prompt() == old(self).prompt(),
            final(self).hashing() == old(self).hashing(),
            final(history).capacity() == old(history).capacity(),
            final(history).byte_capacity() == old(history).byte_capacity(),
            final(history).tokens_per_block() == old(history).tokens_per_block(),
            final(history).records_per_chunk() == old(history).records_per_chunk(),
            final(history).chunks() == (if old(self).recorded() {
                old(history).chunks()
            } else {
                with_records(
                    old(history).chunks(),
                    hashes@,
                    now_ms,
                    old(history).capacity(),
                    old(history).records_per_chunk(),
                )
            }),
    {
        if self.prompt_recorded {
            return ;
        }
        history.record_completed(hashes.as_slice(), now_ms);
        self.prompt_recorded = true;
    }

    /// Records the hashes of the prompt and of the outputs, once.
    pub fn finalize(
        &mut self,
        history: &mut CacheHistory,
        prompt_hashes: &Vec<u64>,
        output_hashes: &Vec<Vec<u64>>,
        now_ms: u64,
    )
        requires
            old(self).wf(),
            old(history).wf(),
        ensures
            final(self).wf(),
            final(history).wf(),
            final(self).done(),
            final(self).recorded() == (old(self).recorded() || !old(self).done()),
            final(self).outputs() == old(self).outputs(),
            final(self).prompt() == old(self).prompt(),
            final(self).hashing() == old(self).hashing(),
            final(history).capacity() == old(history).capacity(),
            final(history).byte_capacity() == old(history).byte_capacity(),
            final(history).tokens_per_block() == old(history).tokens_per_block(),
            final(history).records_per_chunk() == old(history).records_per_chunk(),
            final(history).chunks() == (if old(self).done() {
                old(history).chunks()
            } else {
                with_lists(
                    if old(self).recorded() {
                        old(history).chunks()
                    } else {
                        with_records(
                            old(history).chunks(),
                            prompt_hashes@,
                            now_ms,
                            old(history).capacity(),
                            old(history).records_per_chunk(),
                        )
                    },
                    texts(output_hashes@),
                    now_ms,
                    old(history).capacity(),
                    old(history).records_per_chunk(),
                )
            }),
    {
        if self.finalized {
            return ;
        }
        self.finalized = true;
        self.record_prompt(history, prompt_hashes, now_ms);
        let ghost start = history.chunks();
        let ghost lists = texts(output_hashes@);
        let mut i: usize = 0;
        assert(lists.take(0) =~= Seq::<Seq<u64>>::empty());
        while i < output_hashes.len()
            invariant
                i <= output_hashes@.len(),
                history.wf(),
                lists == texts(output_hashes@),
                history.capacity() == old(history).capacity(),
                history.byte_capacity() == old(history).byte_capacity(),
                history.tokens_per_block() == old(history).tokens_per_block(),
                history.records_per_chunk() == old(history).records_per_chunk(),
                history.chunks() == with_lists(
                    start,
                    lists.take(i as int),
                    now_ms,
                    history.capacity(),
                    history.records_per_chunk(),
                ),
            decreases output_hashes@.len() - i,
        {
            assert(lists.take(i + 1).drop_last() =~= lists.take(i as int));
            history.record_completed(output_hashes[i].as_slice(), now_ms);
            i = i + 1;
        }
        assert(lists.take(lists.len() as int) =~= lists);
    }
}

/// The lists as plain values.
pub open spec fn texts(lists: Seq<Vec<u64>>) -> Seq<Seq<u64>> {
    lists.map_values(|list: Vec<u64>| list@)
}

/// The chunks after several lists of records.
pub open spec fn with_lists(
    chunks: Seq<Chunk>,
    lists: Seq<Seq<u64>>,
    now_ms: u64,
    capacity: nat,
    chunk_records: nat,
) -> Seq<Chunk>
    decreases lists.len(),
{
    if lists.len() == 0 {
        chunks
    } else {
        with_records(
            with_lists(chunks, lists.drop_last(), now_ms, capacity, chunk_records),
            lists.last(),
            now_ms,
            capacity,
            chunk_records,
        )
    }
}

/// The hashes that the outputs of some choices add, where anything of them has
/// been computed.
pub open spec fn outputs_added(
    hashing: Hashing,
    prompt: Seq<u32>,
    outputs: crate::kv_cache_sol_producer::Outputs,
    choices: Seq<u32>,
) -> Seq<Seq<u64>>
    decreases choices.len(),
{
    if choices.len() == 0 {
        Seq::empty()
    } else {
        let before = outputs_added(hashing, prompt, outputs, choices.drop_last());
        let output = outputs[choices.last()];
        if computed_output(output).len() > 0 {
            before.push(hashing.added(prompt, output))
        } else {
            before
        }
    }
}

proof fn lemma_longer_sequence_has_more_hashes(
    hashing: Hashing,
    tokens: Seq<u32>,
    more: Seq<u32>,
)
    requires
        hashing.block_size > 0,
    ensures
        hashing.hashes(tokens).len() <= hashing.hashes(tokens + more).len(),
{
    let size = hashing.block_size as int;
    let window = crate::hash_continuation::window_of(hashing.block_size, hashing.is_eagle);
    let short = crate::hash_continuation::sequence_locals(
        tokens,
        hashing.block_size,
        hashing.is_eagle,
        hashing.infos,
        hashing.seed,
    );
    let long = crate::hash_continuation::sequence_locals(
        tokens + more,
        hashing.block_size,
        hashing.is_eagle,
        hashing.infos,
        hashing.seed,
    );
    crate::block_hash::lemma_rolling_len(None, short);
    crate::block_hash::lemma_rolling_len(None, long);
    let n = short.len() as int;
    crate::block_hash::lemma_block_fits(tokens.len() as int, size, window, 0);
    crate::block_hash::lemma_block_fits((tokens + more).len() as int, size, window, 0);
    if n > 0 {
        crate::block_hash::lemma_block_fits(tokens.len() as int, size, window, n - 1);
        crate::block_hash::lemma_block_fits((tokens + more).len() as int, size, window, n - 1);
    }
}

/// The hashes from position `from` on.
fn hashes_from(hashes: &Vec<u64>, from: usize) -> (rest: Vec<u64>)
    requires
        from <= hashes@.len(),
    ensures
        rest@ == hashes@.skip(from as int),
{
    let mut rest: Vec<u64> = Vec::new();
    let mut i: usize = from;
    while i < hashes.len()
        invariant
            from <= i <= hashes@.len(),
            rest@ == hashes@.subrange(from as int, i as int),
        decreases hashes@.len() - i,
    {
        rest.push(hashes[i]);
        i = i + 1;
        assert(rest@ =~= hashes@.subrange(from as int, i as int));
    }
    assert(rest@ =~= hashes@.skip(from as int));
    rest
}

} // verus!
