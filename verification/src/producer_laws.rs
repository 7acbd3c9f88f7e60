//! What holds of block hashes and of what a producer tells.

use crate::block_hash::BlockHashOptions;
use crate::hash_continuation::Continuation;
use crate::kv_cache_sol::KvCacheSolEvent;
use crate::kv_cache_sol_producer::{
    HashedPrompt, Inflight, KvCacheSolProducer, Outputs, ProducerConfigError, ProducerDrop, RawEnd,
    RawStart, SkipReason, SolRequest,
};
use crate::protocols::LocalBlockHash;
use vstd::bytes::*;
use vstd::prelude::*;

verus! {

/// As many blocks are hashed as fit whole: the last one ends within the
/// tokens, and one more would not.
pub proof fn law_only_whole_blocks_count(len: int, stride: int, window: int)
    requires
        stride > 0,
        window > 0,
        len >= 0,
    ensures
        ({
            let n = crate::block_hash::block_count(len, stride, window);
            &&& n >= 0
            &&& n > 0 ==> (n - 1) * stride + window <= len
            &&& n * stride + window > len
        }),
{
    if len >= window {
        let q = (len - window) / stride;
        vstd::arithmetic::div_mod::lemma_fundamental_div_mod(len - window, stride);
        vstd::arithmetic::div_mod::lemma_mod_bound(len - window, stride);
        vstd::arithmetic::div_mod::lemma_div_pos_is_pos(len - window, stride);
        assert((q + 1) * stride == stride * q + stride) by (nonlinear_arith);
        assert(q * stride == stride * q) by (nonlinear_arith);
    }
}

/// The hash at `i` is that of the tokens of its own block, with the multimodal
/// hashes of that block, under the seed. An eagle block reads one token more.
pub proof fn law_block_hash_reads_its_own_block(
    tokens: Seq<u32>,
    block_size: u32,
    options: BlockHashOptions,
    i: int,
)
    requires
        block_size > 0,
        0 <= i < crate::block_hash::block_hashes(tokens, block_size, options).len(),
    ensures
        ({
            let window = if options.is_eagle == Some(true) {
                block_size + 1
            } else {
                block_size as int
            };
            &&& i * block_size + window <= tokens.len()
            &&& crate::block_hash::block_hashes(tokens, block_size, options)[i].0
                == crate::block_hash::xxh3_64_seeded(
                crate::block_hash::token_bytes(
                    tokens.subrange(i * block_size, i * block_size + window),
                ) + crate::block_hash::hash_bytes(options.mm_hashes(i)),
                options.seed(),
            )
        }),
{
    let window = options.window(block_size);
    let n = crate::block_hash::block_count(tokens.len() as int, block_size as int, window);
    law_only_whole_blocks_count(tokens.len() as int, block_size as int, window);
    assert(i * block_size <= (n - 1) * block_size) by (nonlinear_arith)
        requires
            i <= n - 1,
            block_size > 0,
    ;
}

/// Tokens and hashes are written as little-endian bytes, one after the other.
pub proof fn law_values_are_written_one_after_the_other(
    tokens: Seq<u32>,
    token: u32,
    hashes: Seq<u64>,
    hash: u64,
)
    ensures
        crate::block_hash::token_bytes(Seq::<u32>::empty()).len() == 0,
        crate::block_hash::hash_bytes(Seq::<u64>::empty()).len() == 0,
        crate::block_hash::token_bytes(tokens.push(token)) == crate::block_hash::token_bytes(tokens)
            + spec_u32_to_le_bytes(token),
        crate::block_hash::hash_bytes(hashes.push(hash)) == crate::block_hash::hash_bytes(hashes)
            + spec_u64_to_le_bytes(hash),
{
    assert(tokens.push(token).drop_last() =~= tokens);
    assert(hashes.push(hash).drop_last() =~= hashes);
}

/// The rolling hash of the first block of a sequence is the block's own; each
/// later one joins the hash before it with its block, so that the hashes of a
/// prefix are a prefix of the hashes.
pub proof fn law_rolling_hashes_chain_their_blocks(
    parent: Option<u64>,
    locals: Seq<LocalBlockHash>,
    next: LocalBlockHash,
)
    ensures
        ({
            let before = crate::block_hash::rolling(parent, locals);
            let after = crate::block_hash::rolling(parent, locals.push(next));
            &&& before.len() == locals.len()
            &&& after.len() == locals.len() + 1
            &&& after.take(before.len() as int) == before
            &&& locals.len() == 0 && parent is None ==> after.last() == next.0
            &&& locals.len() == 0 && parent is Some ==> after.last()
                == crate::block_hash::xxh3_64_seeded(
                spec_u64_to_le_bytes(parent->Some_0) + spec_u64_to_le_bytes(next.0),
                crate::block_hash::XXH3_SEED,
            )
            &&& locals.len() > 0 ==> after.last() == crate::block_hash::xxh3_64_seeded(
                spec_u64_to_le_bytes(before.last()) + spec_u64_to_le_bytes(next.0),
                crate::block_hash::XXH3_SEED,
            )
        }),
    decreases locals.len(),
{
    if locals.len() > 0 {
        law_rolling_hashes_chain_their_blocks(parent, locals.drop_last(), locals.last());
        assert(locals.drop_last().push(locals.last()) =~= locals);
    }
    assert(locals.push(next).drop_last() =~= locals);
    let before = crate::block_hash::rolling(parent, locals);
    let after = crate::block_hash::rolling(parent, locals.push(next));
    assert(after.take(before.len() as int) =~= before);
}

/// No name and an empty one give the same seed, and without both the seed is the
/// plain one.
pub proof fn law_empty_names_do_not_reseed(lora: Option<Seq<u8>>, namespace: Option<Seq<u8>>)
    ensures
        crate::block_hash::seed_of(None, None) == 1337,
        crate::block_hash::seed_of(Some(Seq::<u8>::empty()), namespace)
            == crate::block_hash::seed_of(None, namespace),
        crate::block_hash::seed_of(lora, Some(Seq::<u8>::empty())) == crate::block_hash::seed_of(
            lora,
            None,
        ),
        lora is Some && lora->Some_0.len() > 0 ==> crate::block_hash::seed_of(lora, None)
            == crate::block_hash::xxh3_64_seeded(lora->Some_0, crate::block_hash::XXH3_SEED),
{
}

/// More tokens are added at the end of the tail and change nothing else.
pub proof fn law_more_tokens_extend_the_tail(continuation: Continuation, tokens: Seq<u32>)
    ensures
        continuation.extended(tokens).tail == continuation.tail + tokens,
        continuation.extended(tokens).parent == continuation.parent,
        continuation.extended(tokens).mm_hashes == continuation.mm_hashes,
        continuation.extended(tokens).seed == continuation.seed,
        continuation.extended(tokens).block_size == continuation.block_size,
        continuation.extended(tokens).eagle == continuation.eagle,
{
}

/// What remains of the tail when its blocks are hashed completes none; each of
/// its blocks took as many tokens as a block has, and the last hash is the new
/// parent.
pub proof fn law_drained_tail_completes_nothing(continuation: Continuation)
    requires
        continuation.block_size > 0,
    ensures
        ({
            let after = continuation.drained();
            let n = continuation.hashes().len();
            &&& n == continuation.complete()
            &&& n * continuation.block_size <= continuation.tail.len()
            &&& after.tail == continuation.tail.skip(n * continuation.block_size)
            &&& after.complete() == 0
            &&& n == 0 ==> after.parent == continuation.parent && after.mm_hashes
                == continuation.mm_hashes
            &&& n > 0 ==> after.parent == Some(continuation.hashes().last())
                && after.mm_hashes.len() == 0
        }),
{
    let size = continuation.block_size as int;
    let n = continuation.complete();
    let window = continuation.window();
    law_only_whole_blocks_count(continuation.tail.len() as int, size, window);
    lemma_rolling_len(continuation.parent, continuation.locals());
    if n > 0 {
        assert((n - 1) * size + size == n * size) by (nonlinear_arith);
    }
    assert(n * size >= 0) by (nonlinear_arith)
        requires
            n >= 0,
            size > 0,
    ;
    if n == 0 {
        assert(n * size == 0) by (nonlinear_arith)
            requires
                n == 0,
        ;
    }
    assert(0 <= n * size <= continuation.tail.len());
    let left = continuation.tail.len() - n * size;
    assert(continuation.drained().tail.len() == left);
    assert(left < window);
}

proof fn lemma_rolling_len(parent: Option<u64>, locals: Seq<LocalBlockHash>)
    ensures
        crate::block_hash::rolling(parent, locals).len() == locals.len(),
    decreases locals.len(),
{
    if locals.len() > 0 {
        lemma_rolling_len(parent, locals.drop_last());
    }
}

/// The queue is as long as a positive setting asks for, and 256 without one;
/// zero and what is no number are refused, each in its own way.
pub proof fn law_queue_capacity_is_what_was_asked_for(setting: Option<Seq<char>>)
    ensures
        ({
            let capacity = crate::kv_cache_sol_producer::queue_capacity_of(setting);
            let asked = crate::text::number_in(setting->Some_0);
            &&& setting is None ==> capacity == Ok::<nat, ProducerConfigError>(256)
            &&& setting is Some && asked == Some(0nat) ==> capacity == Err::<
                nat,
                ProducerConfigError,
            >(ProducerConfigError::ZeroQueueCapacity)
            &&& setting is Some && (asked is None || asked->Some_0 > usize::MAX) ==> capacity
                == Err::<nat, ProducerConfigError>(ProducerConfigError::InvalidQueueCapacity)
            &&& setting is Some && asked is Some && 0 < asked->Some_0 <= usize::MAX ==> capacity
                == Ok::<nat, ProducerConfigError>(asked->Some_0)
        }),
{
}

/// Probes are left out, requests without tokens are, and those of a model
/// without a card; nothing else is.
pub proof fn law_only_these_requests_are_left_out(request: SolRequest)
    ensures
        request.is_probe ==> crate::kv_cache_sol_producer::skipped(request) == Some(
            SkipReason::HealthProbe,
        ),
        !request.is_probe && request.has_prompt_embeds ==> crate::kv_cache_sol_producer::skipped(
            request,
        ) == Some(SkipReason::PromptEmbeds),
        !request.is_probe && !request.has_prompt_embeds && request.mdc_sum is None
            ==> crate::kv_cache_sol_producer::skipped(request) == Some(
            SkipReason::MissingModelConfig,
        ),
        crate::kv_cache_sol_producer::skipped(request) is None <==> !request.is_probe
            && !request.has_prompt_embeds && request.mdc_sum is Some,
{
}

/// A start tells of its request: its model and card, its names, and its tokens,
/// whole, or, where the router hashes them, their number and their end.
pub proof fn law_start_tells_of_its_request(
    producer: KvCacheSolProducer,
    request: SolRequest,
    start: RawStart,
)
    requires
        crate::kv_cache_sol_producer::prepared(producer, request, start),
    ensures
        start.domain.model@ == request.model@,
        start.domain.model_config@ == request.mdc_sum->Some_0@,
        start.domain.block_size == producer.block_size,
        start.domain.is_eagle == producer.is_eagle,
        start.lora_name == request.lora_name,
        start.cache_namespace == request.cache_namespace,
        producer.router_computes_hashes <==> start.prompt is Router,
        start.prompt is Tokens ==> start.prompt->token_ids@ == request.tokens@,
        start.prompt is Router ==> {
            let tail = start.prompt->tail_token_ids@;
            let kept = if producer.is_eagle {
                producer.block_size + 1
            } else {
                producer.block_size as int
            };
            &&& start.prompt->prompt_tokens == request.tokens@.len()
            &&& request.tokens@.len() <= kept ==> tail == request.tokens@
            &&& request.tokens@.len() > kept ==> tail.len() == kept && forall|i: int|
                0 <= i < kept ==> #[trigger] tail[i] == request.tokens@[request.tokens@.len() - kept
                    + i]
        },
{
}

/// Hashes of the router are taken if they cover no more than the prompt and
/// leave no more of it than was kept: then what they leave is the tail.
pub proof fn law_router_hashes_must_fit_the_prompt(
    start: RawStart,
    router_hashes: Option<Seq<u64>>,
)
    requires
        start.prompt is Router,
        start.domain.block_size > 0,
    ensures
        ({
            let prompt = crate::kv_cache_sol_producer::hashed_prompt(start, router_hashes);
            let covered = router_hashes->Some_0.len() * start.domain.block_size;
            let kept = start.prompt->tail_token_ids@;
            let fits = covered <= start.prompt->prompt_tokens <= covered + kept.len();
            &&& router_hashes is None ==> prompt == Err::<HashedPrompt, ProducerDrop>(
                ProducerDrop::MissingRouterHashes,
            )
            &&& router_hashes is Some && !fits ==> prompt == Err::<HashedPrompt, ProducerDrop>(
                ProducerDrop::InvalidRouterHashes,
            )
            &&& router_hashes is Some && fits ==> {
                &&& prompt is Ok
                &&& prompt->Ok_0.hashes == router_hashes->Some_0
                &&& prompt->Ok_0.tokens == start.prompt->prompt_tokens
                &&& prompt->Ok_0.tail.len() == start.prompt->prompt_tokens - covered
                &&& forall|i: int|
                    0 <= i < prompt->Ok_0.tail.len() ==> #[trigger] prompt->Ok_0.tail[i]
                        == kept[kept.len() - prompt->Ok_0.tail.len() + i]
            }
        }),
{
}

/// A start is dropped if too many requests are in flight or its own is already,
/// and else only for its hashes.
pub proof fn law_duplicate_requests_are_dropped(
    requests: Map<Seq<char>, Inflight>,
    start: RawStart,
    router_hashes: Option<Seq<u64>>,
)
    ensures
        ({
            let outcome = crate::kv_cache_sol_producer::start_outcome(
                requests,
                start,
                router_hashes,
            );
            let full = requests.dom().len() >= 100_000;
            &&& full ==> outcome == Err::<HashedPrompt, ProducerDrop>(
                ProducerDrop::InflightCapacity,
            )
            &&& !full && requests.contains_key(start.request_id@) ==> outcome == Err::<
                HashedPrompt,
                ProducerDrop,
            >(ProducerDrop::DuplicateRequestId)
            &&& !full && !requests.contains_key(start.request_id@) && start.prompt is Tokens
                ==> outcome is Ok && outcome->Ok_0.tokens == start.prompt->token_ids@.len()
        }),
{
}

/// The event of a start carries the time, the request and the domain of the
/// start, the hashes of its prompt and its length.
pub proof fn law_start_event_carries_its_prompt(
    event: KvCacheSolEvent,
    start: RawStart,
    prompt: HashedPrompt,
    sequence: u64,
)
    requires
        crate::kv_cache_sol_producer::tells_start(event, start, prompt, sequence),
    ensures
        event.producer_sequence == sequence,
        event.occurred_at_ms == start.occurred_at_ms,
        event.request_id@ == start.request_id@,
        event.domain.model@ == start.domain.model@,
        event.domain.model_config@ == start.domain.model_config@,
        event.domain.block_size == start.domain.block_size,
        event.domain.is_eagle == start.domain.is_eagle,
        event.kind is RequestStart,
        event.kind->prompt_sequence_hashes@ == prompt.hashes,
        event.kind->prompt_tokens == prompt.tokens,
{
}

/// The event of an end carries the time and the request of the end, the cached
/// tokens that were observed, and for each choice the hashes of the blocks that
/// its output completes.
pub proof fn law_end_event_carries_its_output(
    event: KvCacheSolEvent,
    end: RawEnd,
    request: Inflight,
    sequence: u64,
    choice: u32,
)
    requires
        crate::kv_cache_sol_producer::tells_end(event, end, request, sequence),
    ensures
        event.producer_sequence == sequence,
        event.occurred_at_ms == end.occurred_at_ms,
        event.request_id@ == end.request_id@,
        event.domain.model@ == request.domain.model,
        event.domain.block_size == request.domain.block_size,
        event.kind is RequestEnd,
        event.kind->observed_cached_tokens is Some <==> end.observed_cached_tokens is Some,
        end.observed_cached_tokens is Some ==> event.kind->observed_cached_tokens->Some_0
            == end.observed_cached_tokens->Some_0,
        event.kind->continuation_sequence_hashes@.contains_key(choice)
            <==> end.output_tokens@.contains_key(choice),
        end.output_tokens@.contains_key(choice) ==> event.kind->continuation_sequence_hashes@[choice]@
            == request.continuation.extended(end.output_tokens@[choice]@).hashes(),
{
    let told = event.kind->continuation_sequence_hashes@;
    assert(told.dom().contains(choice) == end.output_tokens@.dom().contains(choice));
}

/// Tokens of a choice come after those it has, and leave the others alone.
pub proof fn law_output_grows_by_choice(
    outputs: Outputs,
    choice: u32,
    tokens: Seq<u32>,
    other: u32,
)
    requires
        other != choice,
    ensures
        ({
            let after = crate::kv_cache_sol_producer::with_output(outputs, choice, tokens);
            &&& after.contains_key(choice)
            &&& outputs.contains_key(choice) ==> after[choice] == outputs[choice] + tokens
            &&& !outputs.contains_key(choice) ==> after[choice] == tokens
            &&& after.contains_key(other) == outputs.contains_key(other)
            &&& outputs.contains_key(other) ==> after[other] == outputs[other]
        }),
{
}

/// The hashes of a trace cover every token: one for each whole block, and one
/// more exactly if some tokens are left over.
pub proof fn law_traces_cover_every_token(tokens: Seq<u32>, size: u32)
    requires
        size > 0,
    ensures
        ({
            let n = crate::request_replay::trace_hashes(tokens, size).len();
            &&& n * size >= tokens.len()
            &&& n > 0 ==> (n - 1) * size < tokens.len()
            &&& tokens.len() == 0 ==> n == 0
        }),
{
    let s = size as int;
    let whole = crate::request_replay::whole_locals(tokens, size);
    let w = whole.len() as int;
    law_only_whole_blocks_count(tokens.len() as int, s, s);
    lemma_rolling_len(None, crate::request_replay::trace_locals(tokens, size));
    assert(w * s >= 0) by (nonlinear_arith)
        requires
            w >= 0,
            s > 0,
    ;
    if w > 0 {
        assert((w - 1) * s + s == w * s) by (nonlinear_arith);
    } else {
        assert(w * s == 0) by (nonlinear_arith)
            requires
                w == 0,
        ;
    }
    assert((w + 1) * s == w * s + s) by (nonlinear_arith);
    assert(tokens.skip(w * s).len() == tokens.len() - w * s);
    if w > 0 {
        assert((w - 1) * s < w * s) by (nonlinear_arith)
            requires
                s > 0,
        ;
    }
}

/// A capture behind an input starts with the tokens of the input's unfinished
/// block, and has seen no output.
pub proof fn law_captures_start_with_the_unfinished_block(
    input: Seq<u32>,
    size: u32,
    hashes: Seq<u64>,
    i: int,
)
    requires
        size > 0,
        0 <= i < input.len() as int % size as int,
    ensures
        ({
            let capture = crate::request_replay::behind(input, size, hashes);
            let rest = input.len() as int % size as int;
            &&& capture.continuation.tail.len() == rest
            &&& capture.continuation.tail[i] == input[input.len() - rest + i]
            &&& capture.continuation.block_size == size
            &&& !capture.seen
            &&& capture.hashes.len() == 0
            &&& capture.output_hashes().len() == 0
        }),
{
    assert(input.len() as int % size as int <= input.len()) by (nonlinear_arith)
        requires
            size > 0,
            input.len() >= 0,
    ;
}

/// Output is seen as soon as there is a token of it, and hashes are only ever
/// added.
pub proof fn law_captured_hashes_only_grow(
    capture: crate::request_replay::Capture,
    tokens: Seq<u32>,
)
    ensures
        ({
            let after = capture.after(tokens);
            &&& after.seen <==> capture.seen || tokens.len() > 0
            &&& after.hashes.take(capture.hashes.len() as int) == capture.hashes
            &&& after.hashes.len() >= capture.hashes.len()
            &&& !after.seen ==> after.output_hashes().len() == 0
        }),
{
    let after = capture.after(tokens);
    assert(after.hashes.take(capture.hashes.len() as int) =~= capture.hashes);
}

/// The hashes of all choices are those of one choice after the other, in the
/// order of the choices.
pub proof fn law_choices_are_joined_in_order(map: Map<u32, Vec<u64>>, choice: u32)
    ensures
        ({
            let before = crate::choice_map::joined_below(map, choice as nat);
            let after = crate::choice_map::joined_below(map, (choice + 1) as nat);
            &&& map.contains_key(choice) ==> after == before + map[choice]@
            &&& !map.contains_key(choice) ==> after == before
            &&& crate::choice_map::joined_below(map, 0).len() == 0
            &&& crate::choice_map::joined(map) == crate::choice_map::joined_below(
                map,
                0x1_0000_0000,
            )
        }),
{
    let before = crate::choice_map::joined_below(map, choice as nat);
    assert(before + Seq::<u64>::empty() =~= before);
}

/// A block hash looks at one block of tokens, and with eagle at one token more.
pub proof fn law_eagle_looks_one_token_further(block_size: u32, continuation: Continuation)
    ensures
        crate::hash_continuation::window_of(block_size, false) == block_size,
        crate::hash_continuation::window_of(block_size, true) == block_size + 1,
        continuation.eagle ==> continuation.window() == continuation.block_size + 1,
        !continuation.eagle ==> continuation.window() == continuation.block_size,
{
}

/// The multimodal hashes of a block are those of its objects, in order, and none
/// where nothing is told of the block.
pub proof fn law_multimodal_hashes_stand_in_order(
    infos: Option<Vec<Option<crate::block_hash::BlockExtraInfo>>>,
    i: int,
    k: int,
)
    ensures
        ({
            let told = infos is Some && 0 <= i < infos->Some_0@.len() && infos->Some_0@[i] is Some;
            let objects = infos->Some_0@[i]->Some_0.mm_objects@;
            let hashes = crate::hash_continuation::mm_of(infos, i);
            &&& !told ==> hashes.len() == 0
            &&& told ==> hashes.len() == objects.len()
            &&& told && 0 <= k < objects.len() ==> hashes[k] == objects[k].mm_hash
        }),
{
}

/// The hash of an unfinished tail is that of a block of its tokens behind the
/// parent, and an empty tail has none.
pub proof fn law_tail_is_hashed_like_a_block(continuation: Continuation)
    ensures
        continuation.tail.len() == 0 ==> continuation.tail_hash() is None,
        continuation.tail.len() > 0 && continuation.parent is None ==> continuation.tail_hash()
            == Some(
            crate::block_hash::xxh3_64_seeded(
                crate::block_hash::token_bytes(continuation.tail) + crate::block_hash::hash_bytes(
                    continuation.mm_hashes,
                ),
                continuation.seed,
            ),
        ),
        continuation.tail.len() > 0 && continuation.parent is Some ==> continuation.tail_hash()
            == Some(
            crate::block_hash::xxh3_64_seeded(
                spec_u64_to_le_bytes(continuation.parent->Some_0) + spec_u64_to_le_bytes(
                    crate::block_hash::xxh3_64_seeded(
                        crate::block_hash::token_bytes(continuation.tail)
                            + crate::block_hash::hash_bytes(continuation.mm_hashes),
                        continuation.seed,
                    ),
                ),
                crate::block_hash::XXH3_SEED,
            ),
        ),
{
}

/// The blocks that a tail completes are hashed from its own tokens, and the
/// multimodal hashes of the block in which the prompt ended go into the first of
/// them alone.
pub proof fn law_completed_blocks_read_their_own_tokens(continuation: Continuation, i: int)
    requires
        continuation.block_size > 0,
        0 <= i < continuation.locals().len(),
    ensures
        ({
            let size = continuation.block_size as int;
            let window = if continuation.eagle {
                size + 1
            } else {
                size
            };
            continuation.locals()[i].0 == crate::block_hash::xxh3_64_seeded(
                crate::block_hash::token_bytes(
                    continuation.tail.subrange(i * size, i * size + window),
                ) + crate::block_hash::hash_bytes(
                    if i == 0 {
                        continuation.mm_hashes
                    } else {
                        Seq::empty()
                    },
                ),
                continuation.seed,
            )
        }),
{
}

/// The blocks of a request that a producer counts as complete are those whose
/// tokens are all there; with eagle the last token of a prompt completes none.
pub proof fn law_completed_blocks_are_whole(producer: KvCacheSolProducer, tokens: int)
    requires
        producer.block_size > 0,
        tokens >= 0,
    ensures
        ({
            let n = crate::kv_cache_sol_producer::completed_blocks(producer, tokens);
            let usable = if producer.is_eagle && tokens > 0 {
                tokens - 1
            } else {
                tokens
            };
            &&& n * producer.block_size <= usable
            &&& usable < (n + 1) * producer.block_size
        }),
{
    let usable = if producer.is_eagle && tokens > 0 {
        tokens - 1
    } else {
        tokens
    };
    let size = producer.block_size as int;
    let n = usable / size;
    vstd::arithmetic::div_mod::lemma_fundamental_div_mod(usable, size);
    vstd::arithmetic::div_mod::lemma_mod_bound(usable, size);
    assert(size * n == n * size) by (nonlinear_arith);
    assert((n + 1) * size == n * size + size) by (nonlinear_arith);
}

/// The hash at `i` of a sequence is that of its own block, with the multimodal
/// hashes of that block.
pub proof fn law_sequence_hash_reads_its_own_block(
    tokens: Seq<u32>,
    block_size: u32,
    is_eagle: bool,
    infos: Option<Vec<Option<crate::block_hash::BlockExtraInfo>>>,
    seed: u64,
    i: int,
)
    requires
        block_size > 0,
        0 <= i < crate::hash_continuation::sequence_locals(
            tokens,
            block_size,
            is_eagle,
            infos,
            seed,
        ).len(),
    ensures
        ({
            let window = if is_eagle {
                block_size + 1
            } else {
                block_size as int
            };
            crate::hash_continuation::sequence_locals(
                tokens,
                block_size,
                is_eagle,
                infos,
                seed,
            )[i].0 == crate::block_hash::xxh3_64_seeded(
                crate::block_hash::token_bytes(
                    tokens.subrange(i * block_size, i * block_size + window),
                ) + crate::block_hash::hash_bytes(crate::hash_continuation::mm_of(infos, i)),
                seed,
            )
        }),
{
}

} // verus!
