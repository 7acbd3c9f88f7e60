//! Replay-oriented request hash capture for live traces.

use crate::block_hash::BlockHashOptions;
use crate::hash_continuation::{Continuation, HashContinuation};
use crate::protocols::LocalBlockHash;
use vstd::prelude::*;

verus! {

/// The hashes by which a request can be replayed.
#[derive(Debug, Clone, PartialEq, Eq)]
pub struct RequestReplayMetrics {
    pub trace_block_size: usize,
    pub input_length: usize,
    pub input_sequence_hashes: Vec<u64>,
    pub output_sequence_hashes: Vec<u64>,
}

/// The content hashes of a sequence's whole blocks.
pub open spec fn whole_locals(tokens: Seq<u32>, size: u32) -> Seq<LocalBlockHash> {
    crate::block_hash::locals_with(
        tokens,
        size,
        size as int,
        |i: int| Seq::empty(),
        crate::block_hash::XXH3_SEED,
    )
}

/// The content hashes of a sequence, with that of the unfinished block at its
/// end.
pub open spec fn trace_locals(tokens: Seq<u32>, size: u32) -> Seq<LocalBlockHash> {
    let whole = whole_locals(tokens, size);
    let rest = tokens.skip(whole.len() * size);
    if rest.len() > 0 {
        whole.push(
            crate::block_hash::local_hash(rest, Seq::empty(), crate::block_hash::XXH3_SEED),
        )
    } else {
        whole
    }
}

/// The sequence hashes of a trace. They cover every token.
pub open spec fn trace_hashes(tokens: Seq<u32>, size: u32) -> Seq<u64> {
    crate::block_hash::rolling(None, trace_locals(tokens, size))
}

/// How many whole blocks a sequence has.
proof fn lemma_whole(tokens: Seq<u32>, size: u32)
    requires
        size > 0,
    ensures
        whole_locals(tokens, size).len() == tokens.len() as int / size as int,
        whole_locals(tokens, size).len() * size <= tokens.len(),
        tokens.len() - whole_locals(tokens, size).len() * size == tokens.len() as int % size as int,
{
    let n = whole_locals(tokens, size).len() as int;
    let len = tokens.len() as int;
    let s = size as int;
    crate::block_hash::lemma_block_fits(len, s, s, n);
    crate::block_hash::lemma_block_fits(len, s, s, 0);
    if n > 0 {
        crate::block_hash::lemma_block_fits(len, s, s, n - 1);
        assert((n - 1) * s + s == n * s) by (nonlinear_arith);
    } else {
        assert(n * s == 0) by (nonlinear_arith)
            requires
                n == 0,
        ;
    }
    assert(len == n * s + (len - n * s));
    vstd::arithmetic::div_mod::lemma_fundamental_div_mod_converse(len, s, n, len - n * s);
}

/// The hashes of an input, identical to those of the router, so that replay
/// keeps shared-prefix identity.
pub fn input_sequence_hashes(token_ids: &[u32], trace_block_size: usize) -> (hashes: Vec<u64>)
    requires
        0 < trace_block_size <= u32::MAX,
    ensures
        hashes@ == trace_hashes(token_ids@, trace_block_size as u32),
{
    let size: u32 = trace_block_size as u32;
    let options = BlockHashOptions::plain();
    let mut block_hashes = crate::block_hash::compute_block_hash_for_seq(token_ids, size, options);
    let total: usize = token_ids.len();
    proof {
        assert(options.seed() == crate::block_hash::XXH3_SEED);
        assert(block_hashes@ =~= whole_locals(token_ids@, size));
        lemma_whole(token_ids@, size);
        assert(block_hashes@.len() * size <= total);
    }
    let full_token_count: usize = block_hashes.len() * trace_block_size;
    if full_token_count < total {
        let partial = crate::block_hash::hash_block(
            token_ids,
            full_token_count,
            total,
            None,
            crate::block_hash::XXH3_SEED,
        );
        assert(token_ids@.subrange(full_token_count as int, total as int) =~= token_ids@.skip(
            full_token_count as int,
        ));
        block_hashes.push(partial);
    }
    assert(block_hashes@ =~= trace_locals(token_ids@, size));
    crate::block_hash::compute_seq_hash_for_block(&block_hashes)
}

/// What a trace says of an input. A block size of zero asks for no trace.
pub fn replay_metrics(token_ids: &[u32], trace_block_size: usize) -> (metrics: Option<
    RequestReplayMetrics,
>)
    requires
        trace_block_size <= u32::MAX,
    ensures
        metrics is Some <==> trace_block_size > 0,
        metrics is Some ==> {
            &&& metrics->Some_0.trace_block_size == trace_block_size
            &&& metrics->Some_0.input_length == token_ids@.len()
            &&& metrics->Some_0.input_sequence_hashes@ == trace_hashes(
                token_ids@,
                trace_block_size as u32,
            )
            &&& metrics->Some_0.output_sequence_hashes@.len() == 0
        },
{
    if trace_block_size == 0 {
        return None;
    }
    Some(
        RequestReplayMetrics {
            trace_block_size,
            input_length: token_ids.len(),
            input_sequence_hashes: input_sequence_hashes(token_ids, trace_block_size),
            output_sequence_hashes: Vec::new(),
        },
    )
}

/// What has been captured of an output.
pub ghost struct Capture {
    pub continuation: Continuation,
    pub hashes: Seq<u64>,
    pub seen: bool,
}

impl Capture {
    /// The capture after more tokens.
    pub open spec fn after(self, tokens: Seq<u32>) -> Capture {
        let more = self.continuation.extended(tokens);
        Capture {
            continuation: more.drained(),
            hashes: self.hashes + more.hashes(),
            seen: self.seen || tokens.len() > 0,
        }
    }

    /// The hashes of the output, with that of the unfinished block at its end.
    pub open spec fn output_hashes(self) -> Seq<u64> {
        if !self.seen {
            Seq::empty()
        } else {
            match self.continuation.tail_hash() {
                Some(hash) => self.hashes.push(hash),
                None => self.hashes,
            }
        }
    }
}

/// The hash of the last whole block of an input.
pub open spec fn parent_hash(input_len: int, size: int, hashes: Seq<u64>) -> Option<u64> {
    let full = input_len / size;
    if input_len % size == 0 {
        crate::block_hash::last_or(hashes, None)
    } else if 0 < full <= hashes.len() {
        Some(hashes[full - 1])
    } else {
        None
    }
}

/// A capture that starts behind an input.
pub open spec fn behind(input: Seq<u32>, size: u32, hashes: Seq<u64>) -> Capture {
    let rest = input.len() as int % size as int;
    Capture {
        continuation: Continuation {
            block_size: size,
            eagle: false,
            tail: input.skip(input.len() - rest),
            parent: parent_hash(input.len() as int, size as int, hashes),
            mm_hashes: Seq::empty(),
            seed: crate::block_hash::XXH3_SEED,
        },
        hashes: Seq::empty(),
        seen: false,
    }
}

/// Captures a generated continuation as sequence hashes while retaining no more
/// than one unfinished KV block of raw token IDs.
pub struct OutputSequenceHashCapture {
    continuation: HashContinuation,
    output_sequence_hashes: Vec<u64>,
    output_tokens_seen: bool,
}

impl View for OutputSequenceHashCapture {
    type V = Capture;

    closed spec fn view(&self) -> Capture {
        Capture {
            continuation: self.continuation@,
            hashes: self.output_sequence_hashes@,
            seen: self.output_tokens_seen,
        }
    }
}

impl OutputSequenceHashCapture {
    /// Fewer raw tokens are retained than a block has.
    pub open spec fn wf(&self) -> bool {
        &&& self@.continuation.block_size > 0
        &&& !self@.continuation.eagle
        &&& self@.continuation.tail.len() < self@.continuation.block_size
    }

    pub fn new(input_tokens: &[u32], replay: &RequestReplayMetrics) -> (s: Self)
        requires
            0 < replay.trace_block_size <= u32::MAX,
        ensures
            s.wf(),
            s@ == behind(
                input_tokens@,
                replay.trace_block_size as u32,
                replay.input_sequence_hashes@,
            ),
    {
        let size: usize = replay.trace_block_size;
        let total: usize = input_tokens.len();
        let remainder: usize = total % size;
        let full: usize = total / size;
        let hashes = &replay.input_sequence_hashes;
        let parent: Option<u64> = if remainder == 0 {
            if hashes.len() > 0 {
                Some(hashes[hashes.len() - 1])
            } else {
                None
            }
        } else if full > 0 && full <= hashes.len() {
            Some(hashes[full - 1])
        } else {
            None
        };
        let mut tail: Vec<u32> = Vec::new();
        proof {
            vstd::arithmetic::div_mod::lemma_mod_decreases(total as nat, size as nat);
        }
        let from: usize = total - remainder;
        let mut i: usize = from;
        while i < total
            invariant
                from <= i <= total,
                total == input_tokens@.len(),
                tail@ == input_tokens@.subrange(from as int, i as int),
            decreases total - i,
        {
            tail.push(input_tokens[i]);
            i = i + 1;
            assert(tail@ =~= input_tokens@.subrange(from as int, i as int));
        }
        assert(tail@ =~= input_tokens@.skip(from as int));
        let s = OutputSequenceHashCapture {
            continuation: HashContinuation::new(
                size as u32,
                false,
                parent,
                tail,
                None,
                None,
                None,
            ),
            output_sequence_hashes: Vec::new(),
            output_tokens_seen: false,
        };
        proof {
            assert(crate::block_hash::seed_of(None, None) == crate::block_hash::XXH3_SEED);
            assert(s@.hashes =~= Seq::<u64>::empty());
        }
        s
    }

    /// Captures more of the output.
    pub fn record(&mut self, token_ids: &[u32])
        requires
            old(self).wf(),
        ensures
            final(self).wf(),
            final(self)@ == old(self)@.after(token_ids@),
    {
        if token_ids.len() > 0 {
            self.output_tokens_seen = true;
        }
        let ghost before = self.output_sequence_hashes@;
        let ghost more = self.continuation@.extended(token_ids@);
        let hashes = self.continuation.append(token_ids);
        self.output_sequence_hashes.extend_from_slice(hashes.as_slice());
        proof {
            assert(self.output_sequence_hashes@ =~= before + hashes@);
            let s = more.block_size as int;
            let n = more.complete();
            let len = more.tail.len() as int;
            crate::block_hash::lemma_block_fits(len, s, s, n);
            crate::block_hash::lemma_block_fits(len, s, s, 0);
            if n > 0 {
                crate::block_hash::lemma_block_fits(len, s, s, n - 1);
                assert((n - 1) * s + s == n * s) by (nonlinear_arith);
            } else {
                assert(n * s == 0) by (nonlinear_arith)
                    requires
                        n == 0,
                ;
            }
        }
    }

    /// The hashes of the output so far.
    pub fn sequence_hashes(&self) -> (hashes: Vec<u64>)
        requires
            self.wf(),
        ensures
            hashes@ == self@.output_hashes(),
    {
        let mut hashes: Vec<u64> = Vec::new();
        if !self.output_tokens_seen {
            return hashes;
        }
        hashes.extend_from_slice(self.output_sequence_hashes.as_slice());
        assert(hashes@ =~= self.output_sequence_hashes@);
        if let Some(hash) = self.continuation.tail_hash() {
            hashes.push(hash);
        }
        hashes
    }

    /// How many raw tokens are retained.
    pub fn pending_tokens(&self) -> (n: usize)
        requires
            self.wf(),
        ensures
            n == self@.continuation.tail.len(),
            n < self@.continuation.block_size,
    {
        self.continuation.tail_len()
    }
}

/// How a backend cuts its output into chunks does not matter.
pub proof fn law_output_hashes_ignore_chunking(
    capture: Capture,
    first: Seq<u32>,
    second: Seq<u32>,
)
    requires
        capture.continuation.block_size > 0,
    ensures
        capture.after(first).after(second) == capture.after(first + second),
{
    crate::hash_continuation::law_append_is_independent_of_chunking(
        capture.continuation,
        first,
        second,
    );
    let once = capture.after(first + second);
    let twice = capture.after(first).after(second);
    assert(once.hashes =~= twice.hashes);
}

/// The hashes of an output extend the chain of its input: behind the input's
/// whole blocks they are the hashes of input and output together.
pub proof fn law_output_extends_the_input_chain(input: Seq<u32>, output: Seq<u32>, size: u32)
    requires
        size > 0,
        output.len() > 0,
    ensures
        trace_hashes(input + output, size) == trace_hashes(input, size).take(
            input.len() as int / size as int,
        ) + behind(input, size, trace_hashes(input, size)).after(output).output_hashes(),
{
    let all = input + output;
    let start = behind(input, size, trace_hashes(input, size));
    let none = |i: int| Seq::<u64>::empty();
    let seed = crate::block_hash::XXH3_SEED;
    let head = whole_locals(input, size);
    let whole = whole_locals(all, size);
    let n = head.len() as int;
    lemma_whole(input, size);
    lemma_whole(all, size);
    crate::block_hash::lemma_rolling_len(None, head);
    // The hashes of the input's whole blocks open its trace.
    assert(trace_hashes(input, size).take(n) == crate::block_hash::rolling(None, head)) by {
        crate::block_hash::law_shared_prefix_shares_hashes(None, trace_locals(input, size), n);
        assert(trace_locals(input, size).take(n) =~= head);
    }
    crate::block_hash::lemma_rolling_len(None, trace_locals(input, size));
    let prompt = crate::hash_continuation::after_prompt(input, size, false, none, seed);
    assert(crate::block_hash::locals_with(input, size, size as int, none, seed) =~= head);
    assert(start.continuation.parent == prompt.parent) by {
        let hashes = trace_hashes(input, size);
        if n > 0 {
            assert(hashes.take(n)[n - 1] == hashes[n - 1]);
            assert(crate::block_hash::rolling(None, head).last() == hashes[n - 1]);
        }
        if input.len() as int % size as int == 0 {
            assert(trace_locals(input, size) =~= head);
        }
    }
    assert(start.continuation == prompt);
    crate::hash_continuation::law_continuation_matches_single_pass(
        input,
        output,
        size,
        false,
        none,
        seed,
    );
    assert(crate::block_hash::locals_with(all, size, size as int, none, seed) =~= whole);
    let more = start.continuation.extended(output);
    let after = start.after(output);
    assert(crate::block_hash::rolling(None, whole) == crate::block_hash::rolling(None, head)
        + more.hashes());
    assert(after.hashes =~= more.hashes());
    // The unfinished block at the end is the same one.
    let rest = all.skip(whole.len() * size);
    let m = more.complete();
    crate::block_hash::lemma_block_fits(more.tail.len() as int, size as int, size as int, m);
    crate::block_hash::lemma_block_fits(more.tail.len() as int, size as int, size as int, 0);
    crate::block_hash::lemma_rolling_len(None, whole);
    crate::block_hash::lemma_rolling_len(more.parent, more.locals());
    assert(whole.len() == n + m);
    assert((n + m) * size == n * size + m * size) by (nonlinear_arith);
    if m > 0 {
        crate::block_hash::lemma_block_fits(
            more.tail.len() as int,
            size as int,
            size as int,
            m - 1,
        );
        assert((m - 1) * size + size == m * size) by (nonlinear_arith);
    } else {
        assert(m * size == 0) by (nonlinear_arith)
            requires
                m == 0,
        ;
    }
    assert(more.tail =~= all.skip(n * size));
    assert(after.continuation.tail =~= rest);
    let chain = crate::block_hash::rolling(None, whole);
    assert(crate::block_hash::last_or(chain, None) == after.continuation.parent) by {
        if more.hashes().len() > 0 {
            assert(chain.last() == more.hashes().last());
        } else {
            assert(chain =~= crate::block_hash::rolling(None, head));
        }
    }
    let target = trace_hashes(input, size).take(n) + after.output_hashes();
    if rest.len() > 0 {
        let last = crate::block_hash::local_hash(rest, Seq::empty(), seed);
        assert(trace_locals(all, size).drop_last() =~= whole);
        assert(trace_hashes(all, size) == chain.push(
            crate::block_hash::rolled(crate::block_hash::last_or(chain, None), last),
        ));
        assert(after.continuation.mm_hashes =~= Seq::<u64>::empty());
    } else {
        assert(trace_locals(all, size) =~= whole);
    }
    assert(trace_hashes(all, size) =~= target);
}

} // verus!
