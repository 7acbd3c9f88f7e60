//! Sequence hashes of a response, continued from the hashes of its prompt.

use crate::block_hash::{BlockExtraInfo, BlockHashOptions, MmObject};
use crate::protocols::LocalBlockHash;
use vstd::prelude::*;
use vstd::utf8::*;

verus! {

/// Where the hashing of a token sequence stands.
pub ghost struct Continuation {
    pub block_size: u32,
    pub eagle: bool,
    /// The tokens that no block covers yet.
    pub tail: Seq<u32>,
    /// The hash of the last block, if there was one.
    pub parent: Option<u64>,
    /// The multimodal hashes of the next block.
    pub mm_hashes: Seq<u64>,
    pub seed: u64,
}

impl Continuation {
    /// How many tokens a block hash looks at.
    pub open spec fn window(self) -> int {
        self.block_size + if self.eagle {
            1int
        } else {
            0int
        }
    }

    /// The tail after more tokens.
    pub open spec fn extended(self, tokens: Seq<u32>) -> Self {
        Continuation { tail: self.tail + tokens, ..self }
    }

    /// How many blocks the tail completes.
    pub open spec fn complete(self) -> int {
        crate::block_hash::block_count(
            self.tail.len() as int,
            self.block_size as int,
            self.window(),
        )
    }

    /// The content hashes of the blocks that the tail completes. Multimodal
    /// hashes go into the first of them.
    pub open spec fn locals(self) -> Seq<LocalBlockHash> {
        Seq::new(
            self.complete() as nat,
            |i: int|
                crate::block_hash::local_hash(
                    self.tail.subrange(i * self.block_size, i * self.block_size + self.window()),
                    if i == 0 {
                        self.mm_hashes
                    } else {
                        Seq::empty()
                    },
                    self.seed,
                ),
        )
    }

    /// The sequence hashes of those blocks.
    pub open spec fn hashes(self) -> Seq<u64> {
        crate::block_hash::rolling(self.parent, self.locals())
    }

    /// The hash of the tail as if it were a block, if there is any.
    pub open spec fn tail_hash(self) -> Option<u64> {
        if self.tail.len() == 0 {
            None
        } else {
            Some(
                crate::block_hash::rolled(
                    self.parent,
                    crate::block_hash::local_hash(self.tail, self.mm_hashes, self.seed),
                ),
            )
        }
    }

    /// What remains when those blocks are hashed.
    pub open spec fn drained(self) -> Self {
        Continuation {
            tail: self.tail.skip(self.complete() * self.block_size),
            parent: crate::block_hash::last_or(self.hashes(), self.parent),
            mm_hashes: if self.complete() > 0 {
                Seq::empty()
            } else {
                self.mm_hashes
            },
            ..self
        }
    }
}

/// The bytes of an optional name.
pub open spec fn name_bytes(name: Option<String>) -> Option<Seq<u8>> {
    match name {
        Some(name) => Some(encode_utf8(name@)),
        None => None,
    }
}

/// The multimodal hashes of an optional block.
pub open spec fn info_hashes(info: Option<BlockExtraInfo>) -> Seq<u64> {
    match info {
        Some(info) => crate::block_hash::mm_hashes_of(info),
        None => Seq::empty(),
    }
}

/// The multimodal objects of an optional block.
pub open spec fn info_of(info: Option<BlockExtraInfo>) -> Option<Seq<MmObject>> {
    match info {
        Some(info) => Some(crate::block_hash::objects_of(info)),
        None => None,
    }
}

/// The multimodal objects of the blocks of a sequence.
pub open spec fn infos_of(infos: Option<Vec<Option<BlockExtraInfo>>>) -> Option<
    Seq<Option<Seq<MmObject>>>,
> {
    match infos {
        Some(infos) => Some(infos@.map_values(|info: Option<BlockExtraInfo>| info_of(info))),
        None => None,
    }
}

/// The multimodal objects of block `i`.
pub open spec fn block_info(infos: Option<Vec<Option<BlockExtraInfo>>>, i: int) -> Option<
    Seq<MmObject>,
> {
    match infos {
        Some(infos) => if 0 <= i < infos@.len() {
            info_of(infos@[i])
        } else {
            None
        },
        None => None,
    }
}

/// The multimodal hashes of block `i`.
pub open spec fn mm_of(infos: Option<Vec<Option<BlockExtraInfo>>>, i: int) -> Seq<u64> {
    match infos {
        Some(infos) => if 0 <= i < infos@.len() {
            info_hashes(infos@[i])
        } else {
            Seq::empty()
        },
        None => Seq::empty(),
    }
}

/// How many tokens a block hash looks at.
pub open spec fn window_of(block_size: u32, is_eagle: bool) -> int {
    block_size + if is_eagle {
        1int
    } else {
        0int
    }
}

/// The content hashes of a sequence's whole blocks.
pub open spec fn sequence_locals(
    tokens: Seq<u32>,
    block_size: u32,
    is_eagle: bool,
    infos: Option<Vec<Option<BlockExtraInfo>>>,
    seed: u64,
) -> Seq<LocalBlockHash> {
    crate::block_hash::locals_with(
        tokens,
        block_size,
        window_of(block_size, is_eagle),
        |i: int| mm_of(infos, i),
        seed,
    )
}

/// The sequence hashes of a token sequence under all its hashing options.
pub fn sequence_hashes(
    tokens: &[u32],
    block_size: u32,
    is_eagle: bool,
    infos: &Option<Vec<Option<BlockExtraInfo>>>,
    lora_name: &Option<String>,
    cache_namespace: &Option<String>,
) -> (hashes: Vec<u64>)
    requires
        block_size > 0,
    ensures
        hashes@ == crate::block_hash::rolling(
            None,
            sequence_locals(
                tokens@,
                block_size,
                is_eagle,
                *infos,
                crate::block_hash::seed_of(name_bytes(*lora_name), name_bytes(*cache_namespace)),
            ),
        ),
{
    let options = BlockHashOptions {
        block_mm_infos: match infos {
            Some(infos) => Some(infos.as_slice()),
            None => None,
        },
        lora_name: match lora_name {
            Some(name) => Some(name.as_str()),
            None => None,
        },
        cache_namespace: match cache_namespace {
            Some(name) => Some(name.as_str()),
            None => None,
        },
        is_eagle: Some(is_eagle),
    };
    let local = crate::block_hash::compute_block_hash_for_seq(tokens, block_size, options);
    proof {
        let seed = crate::block_hash::seed_of(
            name_bytes(*lora_name),
            name_bytes(*cache_namespace),
        );
        assert(options.window(block_size) == window_of(block_size, is_eagle));
        assert(options.seed() == seed);
        assert forall|i: int| #[trigger] options.mm_hashes(i) == mm_of(*infos, i) by {}
        assert(local@ =~= sequence_locals(tokens@, block_size, is_eagle, *infos, seed));
    }
    crate::block_hash::compute_seq_hash_for_block(&local)
}

/// Continues the hashes of a sequence as tokens are added to it.
pub struct HashContinuation {
    block_size: u32,
    is_eagle: bool,
    tail: Vec<u32>,
    parent_sequence_hash: Option<u64>,
    next_block_mm_info: Option<BlockExtraInfo>,
    lora_name: Option<String>,
    cache_namespace: Option<String>,
}

pub(crate) fn copied_name(name: &Option<String>) -> (copy: Option<String>)
    ensures
        copy == *name,
{
    match name {
        Some(name) => Some(name.clone()),
        None => None,
    }
}

pub(crate) fn copied_info(info: &Option<BlockExtraInfo>) -> (copy: Option<BlockExtraInfo>)
    ensures
        info_of(copy) == info_of(*info),
        info_hashes(copy) == info_hashes(*info),
{
    match info {
        Some(info) => Some(info.copied()),
        None => None,
    }
}

impl View for HashContinuation {
    type V = Continuation;

    closed spec fn view(&self) -> Continuation {
        Continuation {
            block_size: self.block_size,
            eagle: self.is_eagle,
            tail: self.tail@,
            parent: self.parent_sequence_hash,
            mm_hashes: info_hashes(self.next_block_mm_info),
            seed: crate::block_hash::seed_of(
                name_bytes(self.lora_name),
                name_bytes(self.cache_namespace),
            ),
        }
    }
}

impl HashContinuation {
    /// The adapter and the namespace of the sequence.
    pub closed spec fn names(&self) -> (Option<String>, Option<String>) {
        (self.lora_name, self.cache_namespace)
    }

    /// The multimodal objects of the next block.
    pub closed spec fn next_info(&self) -> Option<Seq<MmObject>> {
        info_of(self.next_block_mm_info)
    }

    /// Continues a sequence from the hash of its last whole block and the
    /// tokens after it.
    pub fn new(
        block_size: u32,
        is_eagle: bool,
        parent_sequence_hash: Option<u64>,
        tail: Vec<u32>,
        next_block_mm_info: Option<BlockExtraInfo>,
        lora_name: Option<String>,
        cache_namespace: Option<String>,
    ) -> (s: Self)
        ensures
            s@ == (Continuation {
                block_size,
                eagle: is_eagle,
                tail: tail@,
                parent: parent_sequence_hash,
                mm_hashes: info_hashes(next_block_mm_info),
                seed: crate::block_hash::seed_of(
                    name_bytes(lora_name),
                    name_bytes(cache_namespace),
                ),
            }),
            s.names() == (lora_name, cache_namespace),
            s.next_info() == info_of(next_block_mm_info),
    {
        HashContinuation {
            block_size,
            is_eagle,
            tail,
            parent_sequence_hash,
            next_block_mm_info,
            lora_name,
            cache_namespace,
        }
    }

    /// Another continuation from the same point.
    pub fn copied(&self) -> (copy: Self)
        ensures
            copy@ == self@,
            copy.names() == self.names(),
            copy.next_info() == self.next_info(),
    {
        let mut tail: Vec<u32> = Vec::new();
        tail.extend_from_slice(self.tail.as_slice());
        assert(tail@ =~= self.tail@);
        HashContinuation {
            block_size: self.block_size,
            is_eagle: self.is_eagle,
            tail,
            parent_sequence_hash: self.parent_sequence_hash,
            next_block_mm_info: copied_info(&self.next_block_mm_info),
            lora_name: copied_name(&self.lora_name),
            cache_namespace: copied_name(&self.cache_namespace),
        }
    }

    /// How many tokens no block covers yet.
    pub fn tail_len(&self) -> (n: usize)
        ensures
            n == self@.tail.len(),
    {
        self.tail.len()
    }

    /// The hash of the tail as if it were a block, if there is any.
    pub fn tail_hash(&self) -> (hash: Option<u64>)
        ensures
            hash == self@.tail_hash(),
    {
        if self.tail.len() == 0 {
            return None;
        }
        let seed: u64 = crate::block_hash::compute_seed(
            match &self.lora_name {
                Some(name) => Some(name.as_str()),
                None => None,
            },
            match &self.cache_namespace {
                Some(name) => Some(name.as_str()),
                None => None,
            },
        );
        let local = crate::block_hash::hash_block(
            self.tail.as_slice(),
            0,
            self.tail.len(),
            self.next_block_mm_info.as_ref(),
            seed,
        );
        assert(self.tail@.subrange(0, self.tail@.len() as int) =~= self.tail@);
        Some(crate::block_hash::roll(self.parent_sequence_hash, local))
    }

    /// Adds tokens, and gives the hashes of the blocks that they complete.
    pub fn append(&mut self, tokens: &[u32]) -> (hashes: Vec<u64>)
        requires
            old(self)@.block_size > 0,
        ensures
            hashes@ == old(self)@.extended(tokens@).hashes(),
            final(self)@ == old(self)@.extended(tokens@).drained(),
            final(self).names() == old(self).names(),
            final(self).next_info() == (if old(self)@.extended(tokens@).complete() > 0 {
                None
            } else {
                old(self).next_info()
            }),
    {
        let ghost first = self@.extended(tokens@);
        self.tail.extend_from_slice(tokens);
        assert(self.tail@ =~= first.tail);
        let seed: u64 = crate::block_hash::compute_seed(
            match &self.lora_name {
                Some(name) => Some(name.as_str()),
                None => None,
            },
            match &self.cache_namespace {
                Some(name) => Some(name.as_str()),
                None => None,
            },
        );
        let stride: usize = self.block_size as usize;
        let eagle: bool = self.is_eagle;
        let total: usize = self.tail.len();
        let mut hashes: Vec<u64> = Vec::new();
        let mut consumed: usize = 0;
        let ghost mut count: int = 0;
        proof {
            crate::block_hash::lemma_block_fits(
                total as int,
                stride as int,
                first.window(),
                0,
            );
            assert(first.locals().take(0) =~= Seq::<LocalBlockHash>::empty());
        }
        while consumed <= total && total - consumed >= stride && (!eagle || total - consumed - stride
            >= 1)
            invariant
                stride == self.block_size,
                stride > 0,
                eagle == self.is_eagle,
                total == self.tail@.len(),
                self.tail@ == first.tail,
                self@.seed == seed,
                first.seed == seed,
                self.names() == old(self).names(),
                self.next_info() == (if count == 0 {
                    old(self).next_info()
                } else {
                    None
                }),
                self@.block_size == first.block_size,
                self@.eagle == first.eagle,
                consumed == count * stride,
                consumed <= total,
                0 <= count <= first.complete(),
                count < first.complete() <==> consumed + first.window() <= total,
                self@.mm_hashes == (if count == 0 {
                    first.mm_hashes
                } else {
                    Seq::empty()
                }),
                hashes@ == crate::block_hash::rolling(first.parent, first.locals().take(count)),
                hashes@.len() == count,
                self.parent_sequence_hash == crate::block_hash::last_or(hashes@, first.parent),
            decreases total - consumed,
        {
            let end: usize = if eagle {
                consumed + stride + 1
            } else {
                consumed + stride
            };
            let local = crate::block_hash::hash_block(
                self.tail.as_slice(),
                consumed,
                end,
                self.next_block_mm_info.as_ref(),
                seed,
            );
            let sequence: u64 = crate::block_hash::roll(self.parent_sequence_hash, local);
            hashes.push(sequence);
            self.parent_sequence_hash = Some(sequence);
            self.next_block_mm_info = None;
            consumed = consumed + stride;
            proof {
                assert(local == first.locals()[count]);
                let next = first.locals().take(count + 1);
                assert(next.drop_last() =~= first.locals().take(count));
                assert((count + 1) * stride == count * stride + stride) by (nonlinear_arith);
                count = count + 1;
                crate::block_hash::lemma_block_fits(
                    total as int,
                    stride as int,
                    first.window(),
                    count,
                );
            }
        }
        proof {
            assert(count == first.complete());
            assert(first.locals().take(count) =~= first.locals());
        }
        if consumed > 0 {
            let rest = self.tail.split_off(consumed);
            self.tail = rest;
            proof {
                assert(count > 0) by {
                    if count == 0 {
                        assert(count * stride == 0) by (nonlinear_arith)
                            requires
                                count == 0,
                        ;
                    }
                }
                assert(self.tail@ =~= first.tail.skip(consumed as int));
            }
        } else {
            proof {
                assert(count == 0) by (nonlinear_arith)
                    requires
                        count * stride == 0,
                        stride > 0,
                        count >= 0,
                ;
                assert(first.tail.skip(0) =~= first.tail);
            }
        }
        assert(self@ == first.drained());
        hashes
    }
}

/// Blocks counted in two steps.
proof fn lemma_count_splits(short: int, long: int, stride: int, window: int)
    requires
        stride > 0,
        window >= stride,
        0 <= short <= long,
    ensures
        ({
            let n = crate::block_hash::block_count(short, stride, window);
            &&& 0 <= n
            &&& n * stride <= short
            &&& crate::block_hash::block_count(long, stride, window) == n
                + crate::block_hash::block_count(long - n * stride, stride, window)
        }),
{
    let n = crate::block_hash::block_count(short, stride, window);
    let all = crate::block_hash::block_count(long, stride, window);
    let rest_len = long - n * stride;
    let rest = crate::block_hash::block_count(rest_len, stride, window);
    crate::block_hash::lemma_block_fits(short, stride, window, 0);
    if n > 0 {
        crate::block_hash::lemma_block_fits(short, stride, window, n - 1);
        crate::block_hash::lemma_block_fits(long, stride, window, n - 1);
        assert(n * stride == (n - 1) * stride + stride) by (nonlinear_arith);
    } else {
        crate::block_hash::lemma_block_fits(long, stride, window, 0);
        assert(n * stride == 0) by (nonlinear_arith)
            requires
                n == 0,
        ;
    }
    crate::block_hash::lemma_block_fits(rest_len, stride, window, 0);
    crate::block_hash::lemma_block_fits(rest_len, stride, window, all - n);
    crate::block_hash::lemma_block_fits(long, stride, window, all);
    assert((all - n) * stride == all * stride - n * stride) by (nonlinear_arith);
    crate::block_hash::lemma_block_fits(rest_len, stride, window, rest);
    crate::block_hash::lemma_block_fits(long, stride, window, rest + n);
    assert((rest + n) * stride == rest * stride + n * stride) by (nonlinear_arith);
}

/// Where the pieces of a response are cut does not matter: appending it in two
/// pieces gives the hashes of appending it at once, and leaves the same state.
pub proof fn law_append_is_independent_of_chunking(
    start: Continuation,
    first: Seq<u32>,
    second: Seq<u32>,
)
    requires
        start.block_size > 0,
    ensures
        ({
            let middle = start.extended(first);
            let end = middle.drained().extended(second);
            let once = start.extended(first + second);
            &&& once.hashes() == middle.hashes() + end.hashes()
            &&& once.drained() == end.drained()
        }),
{
    let middle = start.extended(first);
    let end = middle.drained().extended(second);
    let once = start.extended(first + second);
    let s = start.block_size as int;
    let w = start.window();
    let n = middle.complete();
    assert(once.tail =~= middle.tail + second);
    lemma_count_splits(middle.tail.len() as int, once.tail.len() as int, s, w);
    assert(end.tail =~= once.tail.skip(n * s));
    assert(once.complete() == n + end.complete());
    crate::block_hash::lemma_block_fits(end.tail.len() as int, s, w, 0);
    assert(once.locals() =~= middle.locals() + end.locals()) by {
        assert forall|i: int| 0 <= i < once.complete() implies once.locals()[i] == (
        middle.locals() + end.locals())[i] by {
            if i < n {
                crate::block_hash::lemma_block_fits(middle.tail.len() as int, s, w, i);
                assert(i * s >= 0) by (nonlinear_arith)
                    requires
                        i >= 0,
                        s > 0,
                ;
                assert(once.tail.subrange(i * s, i * s + w) =~= middle.tail.subrange(
                    i * s,
                    i * s + w,
                ));
            } else {
                let j = i - n;
                crate::block_hash::lemma_block_fits(end.tail.len() as int, s, w, j);
                assert(i * s == j * s + n * s) by (nonlinear_arith)
                    requires
                        j == i - n,
                ;
                assert(j * s >= 0) by (nonlinear_arith)
                    requires
                        j >= 0,
                        s > 0,
                ;
                assert(once.tail.subrange(i * s, i * s + w) =~= end.tail.subrange(
                    j * s,
                    j * s + w,
                ));
            }
        }
    }
    crate::block_hash::law_rolling_continues(start.parent, middle.locals(), end.locals());
    assert(once.hashes() == middle.hashes() + end.hashes());
    assert(crate::block_hash::last_or(once.hashes(), start.parent) == crate::block_hash::last_or(
        end.hashes(),
        middle.drained().parent,
    )) by {
        if end.hashes().len() > 0 {
            assert(once.hashes().last() == end.hashes().last());
        } else {
            assert(once.hashes() =~= middle.hashes());
        }
    }
    let m = end.complete();
    assert((n + m) * s == n * s + m * s) by (nonlinear_arith);
    if m > 0 {
        crate::block_hash::lemma_block_fits(end.tail.len() as int, s, w, m - 1);
        assert((m - 1) * s + s == m * s) by (nonlinear_arith);
    }
    assert(m * s >= 0) by (nonlinear_arith)
        requires
            m >= 0,
            s > 0,
    ;
    assert(once.drained().tail =~= end.drained().tail);
}

/// The point from which the response to a prompt is continued: the hashes of
/// the prompt's whole blocks, and the tokens after them.
pub open spec fn after_prompt(
    prompt: Seq<u32>,
    block_size: u32,
    eagle: bool,
    mm: spec_fn(int) -> Seq<u64>,
    seed: u64,
) -> Continuation {
    let window = if eagle {
        block_size + 1
    } else {
        block_size as int
    };
    let locals = crate::block_hash::locals_with(prompt, block_size, window, mm, seed);
    Continuation {
        block_size,
        eagle,
        tail: prompt.skip(locals.len() * block_size),
        parent: crate::block_hash::last_or(crate::block_hash::rolling(None, locals), None),
        mm_hashes: mm(locals.len() as int),
        seed,
    }
}

/// Hashing a prompt and then continuing with its response gives the hashes of
/// prompt and response in one pass, if no multimodal content comes after the
/// block in which the prompt ends.
pub proof fn law_continuation_matches_single_pass(
    prompt: Seq<u32>,
    response: Seq<u32>,
    block_size: u32,
    eagle: bool,
    mm: spec_fn(int) -> Seq<u64>,
    seed: u64,
)
    requires
        block_size > 0,
        ({
            let start = after_prompt(prompt, block_size, eagle, mm, seed);
            forall|i: int|
                i > crate::block_hash::block_count(
                    prompt.len() as int,
                    block_size as int,
                    start.window(),
                ) ==> #[trigger] mm(i) == Seq::<u64>::empty()
        }),
    ensures
        ({
            let start = after_prompt(prompt, block_size, eagle, mm, seed);
            crate::block_hash::rolling(
                None,
                crate::block_hash::locals_with(
                    prompt + response,
                    block_size,
                    start.window(),
                    mm,
                    seed,
                ),
            ) == crate::block_hash::rolling(
                None,
                crate::block_hash::locals_with(prompt, block_size, start.window(), mm, seed),
            ) + start.extended(response).hashes()
        }),
{
    let all = prompt + response;
    let start = after_prompt(prompt, block_size, eagle, mm, seed).extended(response);
    let s = block_size as int;
    let w = start.window();
    let head = crate::block_hash::locals_with(prompt, block_size, w, mm, seed);
    let whole = crate::block_hash::locals_with(all, block_size, w, mm, seed);
    let n = head.len() as int;
    crate::block_hash::lemma_block_fits(prompt.len() as int, s, w, 0);
    lemma_count_splits(prompt.len() as int, all.len() as int, s, w);
    assert(n == crate::block_hash::block_count(prompt.len() as int, s, w));
    assert(start.tail =~= all.skip(n * s));
    crate::block_hash::lemma_block_fits(start.tail.len() as int, s, w, 0);
    assert(whole =~= head + start.locals()) by {
        assert(whole.len() == n + start.complete());
        assert forall|i: int| 0 <= i < whole.len() implies whole[i] == (head + start.locals())[i] by {
            if i < n {
                crate::block_hash::lemma_block_fits(prompt.len() as int, s, w, i);
                assert(i * s >= 0) by (nonlinear_arith)
                    requires
                        i >= 0,
                        s > 0,
                ;
                assert(all.subrange(i * s, i * s + w) =~= prompt.subrange(i * s, i * s + w));
            } else {
                let j = i - n;
                crate::block_hash::lemma_block_fits(start.tail.len() as int, s, w, j);
                assert(i * s == j * s + n * s) by (nonlinear_arith)
                    requires
                        j == i - n,
                ;
                assert(j * s >= 0) by (nonlinear_arith)
                    requires
                        j >= 0,
                        s > 0,
                ;
                assert(all.subrange(i * s, i * s + w) =~= start.tail.subrange(j * s, j * s + w));
                assert(mm(i) == (if j == 0 {
                    start.mm_hashes
                } else {
                    Seq::empty()
                }));
            }
        }
    }
    crate::block_hash::law_rolling_continues(None, head, start.locals());
}

} // verus!
