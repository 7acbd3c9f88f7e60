//! The producer side of the speed-of-light estimate: what is told of each
//! request, and in which order.

use crate::block_hash::BlockExtraInfo;
use crate::hash_continuation::{Continuation, HashContinuation};
use crate::keyed_table::{KeyedTable, TableKey};
use crate::kv_cache_sol::{Domain, KvCacheSolDomain, KvCacheSolEvent, KvCacheSolEventKind};
use crate::protocols::LocalBlockHash;
use std::collections::BTreeMap;
use vstd::prelude::*;

verus! {

pub const DEFAULT_QUEUE_CAPACITY: usize = 256;

pub const MAX_PRODUCER_INFLIGHT_REQUESTS: usize = 100_000;

/// Why an event never reached the estimator.
#[derive(Debug, Clone, Copy, PartialEq, Eq, Structural)]
pub enum ProducerDrop {
    QueueFull,
    WorkerClosed,
    PublisherInit,
    InflightCapacity,
    DuplicateRequestId,
    MissingRouterHashes,
    InvalidRouterHashes,
    OrphanEnd,
    PublishError,
}

impl ProducerDrop {
    pub open spec fn label(self) -> Seq<char> {
        match self {
            ProducerDrop::QueueFull => "queue_full"@,
            ProducerDrop::WorkerClosed => "worker_closed"@,
            ProducerDrop::PublisherInit => "publisher_init"@,
            ProducerDrop::InflightCapacity => "inflight_capacity"@,
            ProducerDrop::DuplicateRequestId => "duplicate_request_id"@,
            ProducerDrop::MissingRouterHashes => "missing_router_hashes"@,
            ProducerDrop::InvalidRouterHashes => "invalid_router_hashes"@,
            ProducerDrop::OrphanEnd => "orphan_end"@,
            ProducerDrop::PublishError => "publish_error"@,
        }
    }

    /// The label under which drops of this kind are counted.
    pub fn as_label(self) -> (label: &'static str)
        ensures
            label@ == self.label(),
    {
        match self {
            ProducerDrop::QueueFull => "queue_full",
            ProducerDrop::WorkerClosed => "worker_closed",
            ProducerDrop::PublisherInit => "publisher_init",
            ProducerDrop::InflightCapacity => "inflight_capacity",
            ProducerDrop::DuplicateRequestId => "duplicate_request_id",
            ProducerDrop::MissingRouterHashes => "missing_router_hashes",
            ProducerDrop::InvalidRouterHashes => "invalid_router_hashes",
            ProducerDrop::OrphanEnd => "orphan_end",
            ProducerDrop::PublishError => "publish_error",
        }
    }
}

/// Why a request is left out of the estimate.
#[derive(Debug, Clone, Copy, PartialEq, Eq, Structural)]
pub enum SkipReason {
    HealthProbe,
    PromptEmbeds,
    MissingModelConfig,
}

impl SkipReason {
    pub open spec fn label(self) -> Seq<char> {
        match self {
            SkipReason::HealthProbe => "health_probe"@,
            SkipReason::PromptEmbeds => "prompt_embeds"@,
            SkipReason::MissingModelConfig => "missing_model_config"@,
        }
    }

    /// The label under which such requests are counted.
    pub fn as_label(self) -> (label: &'static str)
        ensures
            label@ == self.label(),
    {
        match self {
            SkipReason::HealthProbe => "health_probe",
            SkipReason::PromptEmbeds => "prompt_embeds",
            SkipReason::MissingModelConfig => "missing_model_config",
        }
    }
}

/// Why a producer cannot be set up.
#[derive(Debug, Clone, Copy, PartialEq, Eq, Structural)]
pub enum ProducerConfigError {
    ZeroBlockSize,
    InvalidQueueCapacity,
    ZeroQueueCapacity,
}

/// The settings of a producer.
#[derive(Debug, Clone, Copy, PartialEq, Eq, Structural)]
pub struct KvCacheSolProducer {
    pub block_size: u32,
    pub is_eagle: bool,
    pub router_computes_hashes: bool,
    pub queue_capacity: usize,
}

/// The queue capacity that a setting asks for.
pub open spec fn queue_capacity_of(setting: Option<Seq<char>>) -> Result<
    nat,
    ProducerConfigError,
> {
    match setting {
        None => Ok(DEFAULT_QUEUE_CAPACITY as nat),
        Some(text) => match crate::text::number_in(text) {
            Some(n) => if n > usize::MAX {
                Err(ProducerConfigError::InvalidQueueCapacity)
            } else if n == 0 {
                Err(ProducerConfigError::ZeroQueueCapacity)
            } else {
                Ok(n)
            },
            None => Err(ProducerConfigError::InvalidQueueCapacity),
        },
    }
}

/// The text in an optional setting.
pub open spec fn setting_text(setting: Option<&str>) -> Option<Seq<char>> {
    match setting {
        Some(text) => Some(text@),
        None => None,
    }
}

/// What of a request matters to the estimate.
#[derive(Debug)]
pub struct SolRequest {
    pub is_probe: bool,
    pub has_prompt_embeds: bool,
    pub model: String,
    /// The checksum of the model's deployment card.
    pub mdc_sum: Option<String>,
    pub tokens: Vec<u32>,
    pub block_mm_infos: Option<Vec<Option<BlockExtraInfo>>>,
    pub lora_name: Option<String>,
    pub cache_namespace: Option<String>,
}

/// Where the hashes of a prompt come from.
#[derive(Debug)]
pub enum PromptHashInput {
    /// The router hashes the prompt; only its end is kept.
    Router { prompt_tokens: usize, tail_token_ids: Vec<u32> },
    Tokens { token_ids: Vec<u32>, block_mm_infos: Option<Vec<Option<BlockExtraInfo>>> },
}

/// The start of a request, before its prompt is hashed.
#[derive(Debug)]
pub struct RawStart {
    pub occurred_at_ms: u64,
    pub request_id: String,
    pub domain: KvCacheSolDomain,
    pub prompt: PromptHashInput,
    pub next_block_mm_info: Option<BlockExtraInfo>,
    pub lora_name: Option<String>,
    pub cache_namespace: Option<String>,
}

/// The end of a request, before its output is hashed.
#[derive(Debug)]
pub struct RawEnd {
    pub occurred_at_ms: u64,
    pub request_id: String,
    /// By choice.
    pub output_tokens: BTreeMap<u32, Vec<u32>>,
    pub observed_cached_tokens: Option<usize>,
}

/// Why `request` is left out, if it is.
pub open spec fn skipped(request: SolRequest) -> Option<SkipReason> {
    if request.is_probe {
        Some(SkipReason::HealthProbe)
    } else if request.has_prompt_embeds {
        Some(SkipReason::PromptEmbeds)
    } else if request.mdc_sum is None {
        Some(SkipReason::MissingModelConfig)
    } else {
        None
    }
}

/// How many blocks a prompt completes.
pub open spec fn completed_blocks(producer: KvCacheSolProducer, tokens: int) -> int {
    let usable = if producer.is_eagle && tokens > 0 {
        tokens - 1
    } else {
        tokens
    };
    usable / producer.block_size as int
}

/// `start` tells of `request`.
pub open spec fn prepared(
    producer: KvCacheSolProducer,
    request: SolRequest,
    start: RawStart,
) -> bool {
    let tokens = request.tokens@;
    &&& start.domain.key() == Domain {
        model: request.model@,
        model_config: request.mdc_sum->Some_0@,
        block_size: producer.block_size,
        is_eagle: producer.is_eagle,
    }
    &&& crate::hash_continuation::info_hashes(start.next_block_mm_info) == crate::hash_continuation::mm_of(
        request.block_mm_infos,
        completed_blocks(producer, tokens.len() as int),
    )
    &&& crate::hash_continuation::info_of(start.next_block_mm_info)
        == crate::hash_continuation::block_info(
        request.block_mm_infos,
        completed_blocks(producer, tokens.len() as int),
    )
    &&& start.lora_name == request.lora_name
    &&& start.cache_namespace == request.cache_namespace
    &&& match start.prompt {
        PromptHashInput::Router { prompt_tokens, tail_token_ids } => {
            let kept = crate::hash_continuation::window_of(producer.block_size, producer.is_eagle);
            &&& producer.router_computes_hashes
            &&& prompt_tokens == tokens.len()
            &&& tail_token_ids@ == (if tokens.len() <= kept {
                tokens
            } else {
                tokens.skip(tokens.len() - kept)
            })
        },
        PromptHashInput::Tokens { token_ids, block_mm_infos } => {
            &&& !producer.router_computes_hashes
            &&& token_ids@ == tokens
            &&& crate::hash_continuation::infos_of(block_mm_infos)
                == crate::hash_continuation::infos_of(request.block_mm_infos)
            &&& forall|i: int| #[trigger]
                crate::hash_continuation::mm_of(block_mm_infos, i)
                    == crate::hash_continuation::mm_of(request.block_mm_infos, i)
        },
    }
}

/// The tokens from position `from` on.
fn tokens_from(tokens: &Vec<u32>, from: usize) -> (rest: Vec<u32>)
    requires
        from <= tokens@.len(),
    ensures
        rest@ == tokens@.skip(from as int),
{
    let mut rest: Vec<u32> = Vec::new();
    let mut i: usize = from;
    while i < tokens.len()
        invariant
            from <= i <= tokens@.len(),
            rest@ == tokens@.subrange(from as int, i as int),
        decreases tokens@.len() - i,
    {
        rest.push(tokens[i]);
        i = i + 1;
        assert(rest@ =~= tokens@.subrange(from as int, i as int));
    }
    assert(rest@ =~= tokens@.skip(from as int));
    rest
}

fn copied_infos(infos: &Option<Vec<Option<BlockExtraInfo>>>) -> (copy: Option<
    Vec<Option<BlockExtraInfo>>,
>)
    ensures
        crate::hash_continuation::infos_of(copy) == crate::hash_continuation::infos_of(*infos),
        forall|i: int| #[trigger] crate::hash_continuation::mm_of(copy, i)
            == crate::hash_continuation::mm_of(*infos, i),
{
    match infos {
        Some(infos) => {
            let mut copy: Vec<Option<BlockExtraInfo>> = Vec::new();
            let mut i: usize = 0;
            while i < infos.len()
                invariant
                    i <= infos@.len(),
                    copy@.len() == i,
                    forall|j: int|
                        0 <= j < i ==> crate::hash_continuation::info_hashes(#[trigger] copy@[j])
                            == crate::hash_continuation::info_hashes(infos@[j])
                            && crate::hash_continuation::info_of(copy@[j])
                            == crate::hash_continuation::info_of(infos@[j]),
                decreases infos@.len() - i,
            {
                copy.push(crate::hash_continuation::copied_info(&infos[i]));
                i = i + 1;
            }
            assert(crate::hash_continuation::infos_of(Some(copy))->Some_0
                =~= crate::hash_continuation::infos_of(Some(*infos))->Some_0);
            Some(copy)
        },
        None => None,
    }
}

impl KvCacheSolProducer {
    /// Sets a producer up, if it is switched on.
    pub fn configure(
        enabled: Option<&str>,
        queue_capacity: Option<&str>,
        block_size: u32,
        is_eagle: bool,
        router_computes_hashes: bool,
    ) -> (producer: Result<Option<Self>, ProducerConfigError>)
        ensures
            !(enabled is Some && crate::payload_logger::truthy(enabled->Some_0@)) ==> producer == Ok::<
                Option<Self>,
                ProducerConfigError,
            >(None),
            enabled is Some && crate::payload_logger::truthy(enabled->Some_0@) ==> {
                if block_size == 0 {
                    producer == Err::<Option<Self>, ProducerConfigError>(
                        ProducerConfigError::ZeroBlockSize,
                    )
                } else {
                    match queue_capacity_of(setting_text(queue_capacity)) {
                        Ok(capacity) => {
                            &&& producer is Ok && producer->Ok_0 is Some
                            &&& producer->Ok_0->Some_0.block_size == block_size
                            &&& producer->Ok_0->Some_0.is_eagle == is_eagle
                            &&& producer->Ok_0->Some_0.router_computes_hashes
                                == router_computes_hashes
                            &&& producer->Ok_0->Some_0.queue_capacity == capacity
                        },
                        Err(error) => producer == Err::<Option<Self>, ProducerConfigError>(error),
                    }
                }
            },
    {
        let on: bool = match enabled {
            Some(value) => crate::payload_logger::is_truthy(value),
            None => false,
        };
        if !on {
            return Ok(None);
        }
        if block_size == 0 {
            return Err(ProducerConfigError::ZeroBlockSize);
        }
        let capacity: usize = match queue_capacity {
            Some(text) => match crate::text::parse_usize(text) {
                Some(capacity) => capacity,
                None => {
                    return Err(ProducerConfigError::InvalidQueueCapacity);
                },
            },
            None => DEFAULT_QUEUE_CAPACITY,
        };
        if capacity == 0 {
            return Err(ProducerConfigError::ZeroQueueCapacity);
        }
        Ok(
            Some(
                KvCacheSolProducer {
                    block_size,
                    is_eagle,
                    router_computes_hashes,
                    queue_capacity: capacity,
                },
            ),
        )
    }

    /// What the start of a request tells, or why it is left out.
    pub fn prepare_start(&self, request_id: String, request: &SolRequest, now_ms: u64) -> (start:
        Result<RawStart, SkipReason>)
        requires
            self.block_size > 0,
        ensures
            match skipped(*request) {
                Some(reason) => start == Err::<RawStart, SkipReason>(reason),
                None => {
                    &&& start is Ok
                    &&& start->Ok_0.occurred_at_ms == now_ms
                    &&& start->Ok_0.request_id == request_id
                    &&& prepared(*self, *request, start->Ok_0)
                },
            },
    {
        if request.is_probe {
            return Err(SkipReason::HealthProbe);
        }
        if request.has_prompt_embeds {
            return Err(SkipReason::PromptEmbeds);
        }
        let model_config = match &request.mdc_sum {
            Some(sum) => sum.clone(),
            None => {
                return Err(SkipReason::MissingModelConfig);
            },
        };
        let total: usize = request.tokens.len();
        let usable: usize = if self.is_eagle && total > 0 {
            total - 1
        } else {
            total
        };
        let completed: usize = usable / self.block_size as usize;
        let next_block_mm_info = match &request.block_mm_infos {
            Some(infos) => if completed < infos.len() {
                crate::hash_continuation::copied_info(&infos[completed])
            } else {
                None
            },
            None => None,
        };
        let prompt = if self.router_computes_hashes {
            let size: usize = self.block_size as usize;
            let short: bool = total <= size || (self.is_eagle && total - size <= 1);
            let from: usize = if short {
                0
            } else if self.is_eagle {
                total - size - 1
            } else {
                total - size
            };
            assert(request.tokens@.skip(0) =~= request.tokens@);
            PromptHashInput::Router {
                prompt_tokens: total,
                tail_token_ids: tokens_from(&request.tokens, from),
            }
        } else {
            assert(request.tokens@.skip(0) =~= request.tokens@);
            PromptHashInput::Tokens {
                token_ids: tokens_from(&request.tokens, 0),
                block_mm_infos: copied_infos(&request.block_mm_infos),
            }
        };
        Ok(
            RawStart {
                occurred_at_ms: now_ms,
                request_id,
                domain: KvCacheSolDomain {
                    model: request.model.clone(),
                    model_config,
                    block_size: self.block_size,
                    is_eagle: self.is_eagle,
                },
                prompt,
                next_block_mm_info,
                lora_name: crate::hash_continuation::copied_name(&request.lora_name),
                cache_namespace: crate::hash_continuation::copied_name(&request.cache_namespace),
            },
        )
    }
}

/// The next sequence number of a producer. Events that were lost before they
/// reached the worker leave a gap.
pub fn reserve_publisher_sequence(next_sequence: &mut u64, missing: u64) -> (sequence: u64)
    ensures
        sequence == crate::kv_cache_sol_estimator::capped_sum(*old(next_sequence), missing),
        *final(next_sequence) == crate::kv_cache_sol_estimator::capped_sum(sequence, 1),
{
    let sequence: u64 = crate::kv_cache_sol_estimator::capped_add(*next_sequence, missing);
    *next_sequence = crate::kv_cache_sol_estimator::capped_add(sequence, 1);
    sequence
}

/// A prompt with its hashes.
pub ghost struct HashedPrompt {
    pub hashes: Seq<u64>,
    pub tokens: nat,
    /// The tokens that no block covers.
    pub tail: Seq<u32>,
}

/// The content hashes of the prompt of `start`, where it carries the tokens.
pub open spec fn prompt_locals(start: RawStart) -> Seq<LocalBlockHash> {
    let tokens = start.prompt->token_ids@;
    let infos = start.prompt->block_mm_infos;
    let size = start.domain.block_size;
    crate::block_hash::locals_with(
        tokens,
        size,
        crate::hash_continuation::window_of(size, start.domain.is_eagle),
        |i: int| crate::hash_continuation::mm_of(infos, i),
        start_seed(start),
    )
}

/// The seed of the hashes of a request.
pub open spec fn start_seed(start: RawStart) -> u64 {
    crate::block_hash::seed_of(
        crate::hash_continuation::name_bytes(start.lora_name),
        crate::hash_continuation::name_bytes(start.cache_namespace),
    )
}

/// The hashed prompt of `start`, or why there is none. The router's hashes must
/// fit the prompt, and leave no more of it than was kept.
pub open spec fn hashed_prompt(start: RawStart, router_hashes: Option<Seq<u64>>) -> Result<
    HashedPrompt,
    ProducerDrop,
> {
    let size = start.domain.block_size as int;
    match start.prompt {
        PromptHashInput::Router { prompt_tokens, tail_token_ids } => match router_hashes {
            None => Err(ProducerDrop::MissingRouterHashes),
            Some(hashes) => {
                let rest = prompt_tokens - hashes.len() * size;
                if rest < 0 || rest > tail_token_ids@.len() {
                    Err(ProducerDrop::InvalidRouterHashes)
                } else {
                    Ok(
                        HashedPrompt {
                            hashes,
                            tokens: prompt_tokens as nat,
                            tail: tail_token_ids@.skip(tail_token_ids@.len() - rest),
                        },
                    )
                }
            },
        },
        PromptHashInput::Tokens { token_ids, .. } => {
            let locals = prompt_locals(start);
            Ok(
                HashedPrompt {
                    hashes: crate::block_hash::rolling(None, locals),
                    tokens: token_ids@.len(),
                    tail: token_ids@.skip(locals.len() * size),
                },
            )
        },
    }
}

/// Where the hashing of a started request stands.
pub open spec fn continuation_of(start: RawStart, prompt: HashedPrompt) -> Continuation {
    Continuation {
        block_size: start.domain.block_size,
        eagle: start.domain.is_eagle,
        tail: prompt.tail,
        parent: crate::block_hash::last_or(prompt.hashes, None),
        mm_hashes: crate::hash_continuation::info_hashes(start.next_block_mm_info),
        seed: start_seed(start),
    }
}

/// A request in flight.
pub ghost struct Inflight {
    pub domain: Domain,
    pub continuation: Continuation,
}

struct RequestHashState {
    domain: KvCacheSolDomain,
    continuation: HashContinuation,
}

impl RequestHashState {
    spec fn inflight(&self) -> Inflight {
        Inflight { domain: self.domain.key(), continuation: self.continuation@ }
    }
}

/// What a start does to the requests in flight, or why it is dropped.
pub open spec fn start_outcome(
    requests: Map<Seq<char>, Inflight>,
    start: RawStart,
    router_hashes: Option<Seq<u64>>,
) -> Result<HashedPrompt, ProducerDrop> {
    if requests.dom().len() >= MAX_PRODUCER_INFLIGHT_REQUESTS {
        Err(ProducerDrop::InflightCapacity)
    } else if requests.contains_key(start.request_id@) {
        Err(ProducerDrop::DuplicateRequestId)
    } else {
        hashed_prompt(start, router_hashes)
    }
}

/// `event` tells of the start of a request.
pub open spec fn tells_start(
    event: KvCacheSolEvent,
    start: RawStart,
    prompt: HashedPrompt,
    sequence: u64,
) -> bool {
    &&& event.producer_sequence == sequence
    &&& event.occurred_at_ms == start.occurred_at_ms
    &&& event.request_id@ == start.request_id@
    &&& event.domain.key() == start.domain.key()
    &&& event.kind is RequestStart
    &&& event.kind->prompt_sequence_hashes@ == prompt.hashes
    &&& event.kind->prompt_tokens == prompt.tokens
}

/// `event` tells of the end of a request.
pub open spec fn tells_end(
    event: KvCacheSolEvent,
    end: RawEnd,
    request: Inflight,
    sequence: u64,
) -> bool {
    &&& event.producer_sequence == sequence
    &&& event.occurred_at_ms == end.occurred_at_ms
    &&& event.request_id@ == end.request_id@
    &&& event.domain.key() == request.domain
    &&& event.kind is RequestEnd
    &&& event.kind->observed_cached_tokens == (match end.observed_cached_tokens {
        Some(n) => Some(n as u64),
        None => None,
    })
    &&& event.kind->continuation_sequence_hashes@.dom() == end.output_tokens@.dom()
    &&& forall|choice: u32| #[trigger]
        end.output_tokens@.contains_key(choice)
            ==> event.kind->continuation_sequence_hashes@[choice]@
            == request.continuation.extended(end.output_tokens@[choice]@).hashes()
}

/// The hashes in an optional list.
pub open spec fn listed(hashes: Option<Vec<u64>>) -> Option<Seq<u64>> {
    match hashes {
        Some(hashes) => Some(hashes@),
        None => None,
    }
}

/// Hashes the prompt of a start.
fn hash_prompt(start: &RawStart, router_hashes: Option<Vec<u64>>) -> (prompt: Result<
    (Vec<u64>, usize, Vec<u32>),
    ProducerDrop,
>)
    requires
        start.domain.block_size > 0,
    ensures
        match hashed_prompt(*start, listed(router_hashes)) {
            Ok(p) => {
                &&& prompt is Ok
                &&& prompt->Ok_0.0@ == p.hashes
                &&& prompt->Ok_0.1 == p.tokens
                &&& prompt->Ok_0.2@ == p.tail
            },
            Err(reason) => prompt is Err && prompt->Err_0 == reason,
        },
{
    let size: u32 = start.domain.block_size;
    match &start.prompt {
        PromptHashInput::Router { prompt_tokens, tail_token_ids } => {
            let hashes = match router_hashes {
                Some(hashes) => hashes,
                None => {
                    return Err(ProducerDrop::MissingRouterHashes);
                },
            };
            let count: usize = hashes.len();
            assert(count * size <= u64::MAX * u32::MAX) by (nonlinear_arith)
                requires
                    0 <= count <= u64::MAX,
                    0 <= size <= u32::MAX,
            ;
            let covered: u128 = count as u128 * size as u128;
            if covered > *prompt_tokens as u128 {
                return Err(ProducerDrop::InvalidRouterHashes);
            }
            let rest: usize = *prompt_tokens - covered as usize;
            if rest > tail_token_ids.len() {
                return Err(ProducerDrop::InvalidRouterHashes);
            }
            let tail = tokens_from(tail_token_ids, tail_token_ids.len() - rest);
            Ok((hashes, *prompt_tokens, tail))
        },
        PromptHashInput::Tokens { token_ids, block_mm_infos } => {
            let total: usize = token_ids.len();
            let hashes = crate::hash_continuation::sequence_hashes(
                token_ids.as_slice(),
                size,
                start.domain.is_eagle,
                block_mm_infos,
                &start.lora_name,
                &start.cache_namespace,
            );
            proof {
                let locals = prompt_locals(*start);
                let n = locals.len() as int;
                let window = crate::hash_continuation::window_of(size, start.domain.is_eagle);
                crate::block_hash::lemma_rolling_len(None, locals);
                crate::block_hash::lemma_block_fits(
                    token_ids@.len() as int,
                    size as int,
                    window,
                    n,
                );
                if n > 0 {
                    crate::block_hash::lemma_block_fits(
                        token_ids@.len() as int,
                        size as int,
                        window,
                        n - 1,
                    );
                    assert(n * size == (n - 1) * size + size) by (nonlinear_arith);
                } else {
                    assert(n * size == 0) by (nonlinear_arith)
                        requires
                            n == 0,
                    ;
                }
                assert(hashes@.len() * size <= total);
            }
            let tail_start: usize = hashes.len() * size as usize;
            let tail = tokens_from(token_ids, tail_start);
            Ok((hashes, total, tail))
        },
    }
}

/// The worker that numbers and hashes the events of a producer, in the order
/// in which it gets them.
pub struct PublisherWorker {
    requests: KeyedTable<String, RequestHashState>,
    next_sequence: u64,
}

spec fn inflight_in(requests: Map<Seq<char>, RequestHashState>) -> Map<Seq<char>, Inflight> {
    Map::new(
        |id: Seq<char>| requests.contains_key(id),
        |id: Seq<char>| requests[id].inflight(),
    )
}

impl PublisherWorker {
    pub closed spec fn wf(&self) -> bool {
        &&& self.requests.wf()
        &&& forall|id: Seq<char>| #[trigger]
            self.requests@.contains_key(id)
                ==> self.requests@[id].inflight().continuation.block_size > 0
    }

    /// The requests that have started and not ended.
    pub closed spec fn inflight(&self) -> Map<Seq<char>, Inflight> {
        inflight_in(self.requests@)
    }

    /// The sequence number after the last one given.
    pub closed spec fn next(&self) -> u64 {
        self.next_sequence
    }

    pub fn new() -> (s: Self)
        ensures
            s.wf(),
            s.inflight() == Map::<Seq<char>, Inflight>::empty(),
            s.next() == 0,
    {
        let s = PublisherWorker { requests: KeyedTable::new(), next_sequence: 0 };
        assert(s.inflight() =~= Map::<Seq<char>, Inflight>::empty());
        s
    }

    /// Takes the start of a request. A sequence number is used up even where
    /// the event is dropped, so that the estimator sees the loss.
    pub fn start(&mut self, start: RawStart, router_hashes: Option<Vec<u64>>, missing: u64) -> (event:
        Result<KvCacheSolEvent, ProducerDrop>)
        requires
            old(self).wf(),
            start.domain.block_size > 0,
        ensures
            final(self).wf(),
            ({
                let sequence = crate::kv_cache_sol_estimator::capped_sum(
                    old(self).next(),
                    missing,
                );
                &&& final(self).next() == crate::kv_cache_sol_estimator::capped_sum(sequence, 1)
                &&& match start_outcome(old(self).inflight(), start, listed(router_hashes)) {
                    Ok(prompt) => {
                        &&& event is Ok
                        &&& tells_start(event->Ok_0, start, prompt, sequence)
                        &&& final(self).inflight() == old(self).inflight().insert(
                            start.request_id@,
                            Inflight {
                                domain: start.domain.key(),
                                continuation: continuation_of(start, prompt),
                            },
                        )
                    },
                    Err(reason) => {
                        &&& event is Err && event->Err_0 == reason
                        &&& final(self).inflight() == old(self).inflight()
                    },
                }
            }),
    {
        let sequence: u64 = reserve_publisher_sequence(&mut self.next_sequence, missing);
        assert(self.inflight().dom() =~= self.requests@.dom());
        if self.requests.len() >= MAX_PRODUCER_INFLIGHT_REQUESTS {
            return Err(ProducerDrop::InflightCapacity);
        }
        if self.requests.contains(&start.request_id) {
            return Err(ProducerDrop::DuplicateRequestId);
        }
        let ghost whole = start;
        let (hashes, prompt_tokens, tail) = match hash_prompt(&start, router_hashes) {
            Ok(prompt) => prompt,
            Err(reason) => {
                return Err(reason);
            },
        };
        let parent: Option<u64> = if hashes.len() > 0 {
            Some(hashes[hashes.len() - 1])
        } else {
            None
        };
        let RawStart {
            occurred_at_ms,
            request_id,
            domain,
            prompt: _,
            next_block_mm_info,
            lora_name,
            cache_namespace,
        } = start;
        let continuation = HashContinuation::new(
            domain.block_size,
            domain.is_eagle,
            parent,
            tail,
            next_block_mm_info,
            lora_name,
            cache_namespace,
        );
        let ghost before = self.requests@;
        let state = RequestHashState { domain: domain.copied(), continuation };
        let ghost inflight = state.inflight();
        self.requests.insert(request_id.clone(), state);
        proof {
            assert(inflight_in(self.requests@) =~= inflight_in(before).insert(
                request_id@,
                inflight,
            ));
        }
        Ok(
            KvCacheSolEvent {
                producer_sequence: sequence,
                occurred_at_ms,
                request_id,
                domain,
                kind: KvCacheSolEventKind::RequestStart {
                    prompt_sequence_hashes: hashes,
                    prompt_tokens: prompt_tokens as u64,
                },
            },
        )
    }

    /// Takes the end of a request: every choice continues the prompt on its
    /// own.
    pub fn end(&mut self, end: RawEnd, missing: u64) -> (event: Result<KvCacheSolEvent, ProducerDrop>)
        requires
            old(self).wf(),
        ensures
            final(self).wf(),
            ({
                let sequence = crate::kv_cache_sol_estimator::capped_sum(
                    old(self).next(),
                    missing,
                );
                let id = end.request_id@;
                &&& final(self).next() == crate::kv_cache_sol_estimator::capped_sum(sequence, 1)
                &&& final(self).inflight() == old(self).inflight().remove(id)
                &&& if old(self).inflight().contains_key(id) {
                    event is Ok && tells_end(event->Ok_0, end, old(self).inflight()[id], sequence)
                } else {
                    event is Err && event->Err_0 == ProducerDrop::OrphanEnd
                }
            }),
    {
        let sequence: u64 = reserve_publisher_sequence(&mut self.next_sequence, missing);
        let ghost before = self.requests@;
        let removed = self.requests.remove(&end.request_id);
        proof {
            assert(inflight_in(self.requests@) =~= inflight_in(before).remove(end.request_id@));
        }
        let state = match removed {
            Some(state) => state,
            None => {
                return Err(ProducerDrop::OrphanEnd);
            },
        };
        let ghost inflight = state.inflight();
        let choices = crate::choice_map::choices_of(&end.output_tokens);
        let mut told: BTreeMap<u32, Vec<u64>> = BTreeMap::new();
        let mut i: usize = 0;
        assert(told@.dom() =~= choices@.take(0).to_set());
        while i < choices.len()
            invariant
                i <= choices@.len(),
                choices@.to_set() == end.output_tokens@.dom(),
                told@.dom() == choices@.take(i as int).to_set(),
                state.inflight() == inflight,
                inflight.continuation.block_size > 0,
                forall|choice: u32| #[trigger]
                    told@.contains_key(choice) ==> told@[choice]@
                        == inflight.continuation.extended(
                        end.output_tokens@[choice]@,
                    ).hashes(),
            decreases choices@.len() - i,
        {
            let choice: u32 = choices[i];
            assert(choices@.to_set().contains(choice));
            if let Some(tokens) = crate::choice_map::value_of(&end.output_tokens, choice) {
                let mut continuation = state.continuation.copied();
                let hashes = continuation.append(tokens.as_slice());
                crate::choice_map::set_value(&mut told, choice, hashes);
            }
            proof {
                let taken = choices@.take(i as int);
                assert(choices@.take(i + 1) =~= taken.push(choice));
                assert(taken.push(choice).to_set() =~= taken.to_set().insert(choice)) by {
                    assert(taken.push(choice).last() == choice);
                    assert forall|c: u32| taken.to_set().contains(c) implies taken.push(
                        choice,
                    ).to_set().contains(c) by {
                        let j = choose|j: int| 0 <= j < taken.len() && taken[j] == c;
                        assert(taken.push(choice)[j] == c);
                    }
                }
                assert(told@.dom() =~= taken.to_set().insert(choice));
            }
            i = i + 1;
        }
        assert(choices@.take(i as int) =~= choices@);
        Ok(
            KvCacheSolEvent {
                producer_sequence: sequence,
                occurred_at_ms: end.occurred_at_ms,
                request_id: end.request_id,
                domain: state.domain,
                kind: KvCacheSolEventKind::RequestEnd {
                    continuation_sequence_hashes: told,
                    observed_cached_tokens: match end.observed_cached_tokens {
                        Some(n) => Some(n as u64),
                        None => None,
                    },
                },
            },
        )
    }
}

/// The two ways to a prompt's hashes agree: where the router's hashes are
/// those of the prompt, a start that kept only the prompt's end continues just
/// as one that kept all of it.
pub proof fn law_router_and_token_paths_agree(
    producer: KvCacheSolProducer,
    request: SolRequest,
    routed: RawStart,
    whole: RawStart,
)
    requires
        producer.block_size > 0,
        producer.router_computes_hashes,
        prepared(producer, request, routed),
        prepared(
            KvCacheSolProducer { router_computes_hashes: false, ..producer },
            request,
            whole,
        ),
    ensures
        ({
            let told = hashed_prompt(whole, None);
            &&& told is Ok
            &&& hashed_prompt(routed, Some(told->Ok_0.hashes)) == told
            &&& continuation_of(routed, told->Ok_0) == continuation_of(whole, told->Ok_0)
        }),
{
    let tokens = request.tokens@;
    let size = producer.block_size as int;
    let window = crate::hash_continuation::window_of(producer.block_size, producer.is_eagle);
    let locals = prompt_locals(whole);
    let n = locals.len() as int;
    let told = hashed_prompt(whole, None)->Ok_0;
    crate::block_hash::lemma_rolling_len(None, locals);
    crate::block_hash::lemma_block_fits(tokens.len() as int, size, window, n);
    if n > 0 {
        crate::block_hash::lemma_block_fits(tokens.len() as int, size, window, n - 1);
        assert(n * size == (n - 1) * size + size) by (nonlinear_arith);
    } else {
        assert(n * size == 0) by (nonlinear_arith)
            requires
                n == 0,
        ;
    }
    let rest = tokens.len() - n * size;
    assert(0 <= rest < window);
    let kept = routed.prompt->tail_token_ids@;
    assert(kept.skip(kept.len() - rest) =~= tokens.skip(n * size));
    assert(told.hashes.len() == n);
}

/// What a producer tells of a finished request is what the next prompt will be
/// looked up by: the hashes of prompt and response together are those told of
/// the prompt, followed by those told of the response.
pub proof fn law_response_becomes_part_of_the_next_prompt(
    start: RawStart,
    next: RawStart,
    response: Seq<u32>,
)
    requires
        start.domain.block_size > 0,
        start.prompt is Tokens,
        next.prompt is Tokens,
        next.domain.block_size == start.domain.block_size,
        next.domain.is_eagle == start.domain.is_eagle,
        start_seed(next) == start_seed(start),
        next.prompt->token_ids@ == start.prompt->token_ids@ + response,
        forall|i: int| #[trigger]
            crate::hash_continuation::mm_of(next.prompt->block_mm_infos, i)
                == crate::hash_continuation::mm_of(start.prompt->block_mm_infos, i),
        crate::hash_continuation::info_hashes(start.next_block_mm_info) == crate::hash_continuation::mm_of(
            start.prompt->block_mm_infos,
            prompt_locals(start).len() as int,
        ),
        forall|i: int|
            i > prompt_locals(start).len()
                ==> #[trigger] crate::hash_continuation::mm_of(start.prompt->block_mm_infos, i)
                == Seq::<u64>::empty(),
    ensures
        ({
            let told = hashed_prompt(start, None)->Ok_0;
            hashed_prompt(next, None)->Ok_0.hashes == told.hashes + continuation_of(
                start,
                told,
            ).extended(response).hashes()
        }),
{
    let tokens = start.prompt->token_ids@;
    let infos = start.prompt->block_mm_infos;
    let next_infos = next.prompt->block_mm_infos;
    let mm = |i: int| crate::hash_continuation::mm_of(infos, i);
    let size = start.domain.block_size;
    let eagle = start.domain.is_eagle;
    let told = hashed_prompt(start, None)->Ok_0;
    let window = crate::hash_continuation::window_of(size, eagle);
    crate::block_hash::lemma_block_fits(tokens.len() as int, size as int, window, 0);
    assert forall|i: int| #![trigger mm(i)]
        i > crate::block_hash::block_count(tokens.len() as int, size as int, window) implies mm(i)
        == Seq::<u64>::empty() by {
        assert(crate::hash_continuation::mm_of(infos, i) == Seq::<u64>::empty());
    }
    crate::hash_continuation::law_continuation_matches_single_pass(
        tokens,
        response,
        size,
        eagle,
        mm,
        start_seed(start),
    );
    assert(prompt_locals(next) =~= crate::block_hash::locals_with(
        tokens + response,
        size,
        window,
        mm,
        start_seed(start),
    )) by {
        assert forall|i: int| crate::hash_continuation::mm_of(next_infos, i) == mm(i) by {}
    }
    assert(crate::hash_continuation::after_prompt(tokens, size, eagle, mm, start_seed(start))
        == continuation_of(start, told));
}

/// What a producer does about an event that it handed to its queue.
#[derive(Debug, Clone, Copy, PartialEq, Eq, Structural)]
pub enum SendOutcome {
    Sent,
    Full,
    Closed,
}

/// What is counted for it.
#[derive(Debug, Clone, Copy, PartialEq, Eq, Structural)]
pub struct SendReport {
    /// The new depth of the queue, where it is known.
    pub queue_depth: Option<usize>,
    /// How many sequence numbers the event leaves unused.
    pub missing: u64,
    pub dropped: Option<ProducerDrop>,
}

/// What is counted for an event that was handed to the queue. A lost event
/// leaves its sequence number unused.
pub fn after_send(outcome: SendOutcome, max_capacity: usize, capacity: usize) -> (report: SendReport)
    ensures
        report == (match outcome {
            SendOutcome::Sent => SendReport {
                queue_depth: Some(
                    if capacity <= max_capacity {
                        (max_capacity - capacity) as usize
                    } else {
                        0
                    },
                ),
                missing: 0,
                dropped: None,
            },
            SendOutcome::Full => SendReport {
                queue_depth: None,
                missing: 1,
                dropped: Some(ProducerDrop::QueueFull),
            },
            SendOutcome::Closed => SendReport {
                queue_depth: Some(0),
                missing: 1,
                dropped: Some(ProducerDrop::WorkerClosed),
            },
        }),
{
    match outcome {
        SendOutcome::Sent => SendReport {
            queue_depth: Some(
                if capacity <= max_capacity {
                    max_capacity - capacity
                } else {
                    0
                },
            ),
            missing: 0,
            dropped: None,
        },
        SendOutcome::Full => SendReport {
            queue_depth: None,
            missing: 1,
            dropped: Some(ProducerDrop::QueueFull),
        },
        SendOutcome::Closed => SendReport {
            queue_depth: Some(0),
            missing: 1,
            dropped: Some(ProducerDrop::WorkerClosed),
        },
    }
}

/// The output of a request so far, by choice.
pub type Outputs = Map<u32, Seq<u32>>;

/// The outputs after more tokens of a choice.
pub open spec fn with_output(outputs: Outputs, choice: u32, tokens: Seq<u32>) -> Outputs {
    outputs.insert(
        choice,
        if outputs.contains_key(choice) {
            outputs[choice] + tokens
        } else {
            tokens
        },
    )
}

/// The outputs in a map.
pub open spec fn outputs_in(map: Map<u32, Vec<u32>>) -> Outputs {
    map.map_values(|tokens: Vec<u32>| tokens@)
}

/// The output of a request, by choice.
pub struct OutputTable {
    outputs: BTreeMap<u32, Vec<u32>>,
}

impl OutputTable {
    pub closed spec fn outputs(&self) -> Outputs {
        outputs_in(self.outputs@)
    }

    pub fn new() -> (s: Self)
        ensures
            s.outputs() == Outputs::empty(),
    {
        let s = OutputTable { outputs: BTreeMap::new() };
        assert(s.outputs() =~= Outputs::empty());
        s
    }

    /// The choices that have any output, in ascending order.
    pub fn choices(&self) -> (choices: Vec<u32>)
        ensures
            crate::choice_map::ascending(choices@),
            choices@.to_set() == self.outputs().dom(),
    {
        assert(self.outputs().dom() =~= self.outputs@.dom());
        crate::choice_map::choices_of(&self.outputs)
    }

    /// The output of a choice, if there is any.
    pub fn output(&self, choice: u32) -> (tokens: Option<&Vec<u32>>)
        ensures
            match tokens {
                Some(tokens) => self.outputs().contains_key(choice) && tokens@
                    == self.outputs()[choice],
                None => !self.outputs().contains_key(choice),
            },
    {
        crate::choice_map::value_of(&self.outputs, choice)
    }

    /// The outputs themselves.
    pub fn into_map(self) -> (map: BTreeMap<u32, Vec<u32>>)
        ensures
            outputs_in(map@) == self.outputs(),
    {
        self.outputs
    }

    /// Adds tokens to a choice.
    pub fn extend(&mut self, choice: u32, tokens: &[u32])
        ensures
            final(self).outputs() == with_output(old(self).outputs(), choice, tokens@),
    {
        let mut output: Vec<u32> = match crate::choice_map::take_value(&mut self.outputs, choice) {
            Some(output) => output,
            None => Vec::new(),
        };
        let ghost before = output@;
        output.extend_from_slice(tokens);
        proof {
            assert(output@ =~= before + tokens@);
            if !old(self).outputs().contains_key(choice) {
                assert(output@ =~= tokens@);
            }
        }
        crate::choice_map::set_value(&mut self.outputs, choice, output);
        assert(self.outputs() =~= with_output(old(self).outputs(), choice, tokens@));
    }
}

/// Watches over a response, so that the end of its request is told exactly
/// once: when the response is exhausted, or when it is dropped before.
pub struct ResponseEndGuard {
    request_id: Option<String>,
    output_tokens: OutputTable,
    observed_cached_tokens: Option<usize>,
}

impl ResponseEndGuard {
    /// The request whose end is still to be told.
    pub closed spec fn open_request(&self) -> Option<Seq<char>> {
        match self.request_id {
            Some(id) => Some(id@),
            None => None,
        }
    }

    pub closed spec fn outputs(&self) -> Outputs {
        self.output_tokens.outputs()
    }

    pub closed spec fn observed(&self) -> Option<usize> {
        self.observed_cached_tokens
    }

    pub fn new(request_id: String, observed_cached_tokens: Option<usize>) -> (s: Self)
        ensures
            s.open_request() == Some(request_id@),
            s.outputs() == Outputs::empty(),
            s.observed() == observed_cached_tokens,
    {
        ResponseEndGuard {
            request_id: Some(request_id),
            output_tokens: OutputTable::new(),
            observed_cached_tokens,
        }
    }

    /// Observes one output of the response. Gives the number of cached tokens
    /// if this output was the first to tell it.
    pub fn observe(&mut self, choice: u32, tokens: &[u32], cached_tokens: Option<usize>) -> (news:
        Option<usize>)
        ensures
            final(self).open_request() == old(self).open_request(),
            final(self).outputs() == with_output(old(self).outputs(), choice, tokens@),
            final(self).observed() == (if old(self).observed() is None {
                cached_tokens
            } else {
                old(self).observed()
            }),
            news == (if old(self).observed() is None {
                cached_tokens
            } else {
                None
            }),
    {
        self.output_tokens.extend(choice, tokens);
        if self.observed_cached_tokens.is_none() {
            self.observed_cached_tokens = cached_tokens;
            cached_tokens
        } else {
            None
        }
    }

    /// The end of the request, the first time that it is asked for.
    pub fn finish(&mut self, now_ms: u64) -> (end: Option<RawEnd>)
        ensures
            final(self).open_request() is None,
            final(self).observed() == old(self).observed(),
            final(self).outputs() == (if old(self).open_request() is Some {
                Outputs::empty()
            } else {
                old(self).outputs()
            }),
            end is Some <==> old(self).open_request() is Some,
            end is Some ==> {
                &&& end->Some_0.request_id@ == old(self).open_request()->Some_0
                &&& end->Some_0.occurred_at_ms == now_ms
                &&& outputs_in(end->Some_0.output_tokens@) == old(self).outputs()
                &&& end->Some_0.observed_cached_tokens == old(self).observed()
            },
    {
        let mut taken: Option<String> = None;
        std::mem::swap(&mut self.request_id, &mut taken);
        match taken {
            Some(request_id) => {
                let mut output_tokens = OutputTable::new();
                std::mem::swap(&mut self.output_tokens, &mut output_tokens);
                Some(
                    RawEnd {
                        occurred_at_ms: now_ms,
                        request_id,
                        output_tokens: output_tokens.into_map(),
                        observed_cached_tokens: self.observed_cached_tokens,
                    },
                )
            },
            None => None,
        }
    }
}

/// What to do with a response.
pub enum TapPlan {
    /// The request is left out: hand the response through.
    PassThrough,
    /// There is no response: tell start and end at once.
    Failed { start: RawStart, end: RawEnd },
    /// Tell the start, and watch over the response.
    Watch { start: RawStart, guard: ResponseEndGuard },
}

/// Decides what to do once it is known whether there is a response.
pub fn plan_tap(
    start: Option<RawStart>,
    request_id: String,
    responded: bool,
    observed_cached_tokens: Option<usize>,
    now_ms: u64,
) -> (plan: TapPlan)
    ensures
        match start {
            None => plan is PassThrough,
            Some(start) => if responded {
                &&& plan is Watch
                &&& plan->Watch_start == start
                &&& plan->guard.open_request() == Some(request_id@)
                &&& plan->guard.outputs() == Outputs::empty()
                &&& plan->guard.observed() == observed_cached_tokens
            } else {
                &&& plan is Failed
                &&& plan->Failed_start == start
                &&& plan->end.occurred_at_ms == now_ms
                &&& plan->end.request_id@ == request_id@
                &&& plan->end.output_tokens@ == Map::<u32, Vec<u32>>::empty()
                &&& plan->end.observed_cached_tokens == observed_cached_tokens
            },
        },
{
    let start = match start {
        Some(start) => start,
        None => {
            return TapPlan::PassThrough;
        },
    };
    if responded {
        TapPlan::Watch { start, guard: ResponseEndGuard::new(request_id, observed_cached_tokens) }
    } else {
        TapPlan::Failed {
            start,
            end: RawEnd {
                occurred_at_ms: now_ms,
                request_id,
                output_tokens: BTreeMap::new(),
                observed_cached_tokens,
            },
        }
    }
}

} // verus!
