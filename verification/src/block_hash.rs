//! Content hashes of token blocks and the rolling hashes of block sequences.

use crate::protocols::LocalBlockHash;
use vstd::bytes::*;
use vstd::prelude::*;
use vstd::utf8::*;

verus! {

/// The seed of every block and sequence hash.
pub const XXH3_SEED: u64 = 1337;

/// What `xxhash_rust::xxh3::xxh3_64` returns.
pub uninterp spec fn xxh3_64_of(data: Seq<u8>) -> u64;

/// What `xxhash_rust::xxh3::xxh3_64_with_seed` returns.
pub uninterp spec fn xxh3_64_seeded(data: Seq<u8>, seed: u64) -> u64;

/// `xxhash_rust::xxh3::xxh3_64`: a 64-bit digest that depends on the bytes
/// alone. Nothing is claimed of which digest it is.
#[verifier::external_body]
pub(crate) fn xxh3_64(data: &[u8]) -> (digest: u64)
    ensures
        digest == xxh3_64_of(data@),
{
    xxhash_rust::xxh3::xxh3_64(data)
}

/// `xxhash_rust::xxh3::xxh3_64_with_seed`: a 64-bit digest that depends on the
/// bytes and the seed alone. Nothing is claimed of which digest it is.
#[verifier::external_body]
fn xxh3_64_with_seed(data: &[u8], seed: u64) -> (digest: u64)
    ensures
        digest == xxh3_64_seeded(data@, seed),
{
    xxhash_rust::xxh3::xxh3_64_with_seed(data, seed)
}

/// One multimodal object that a block touches.
#[derive(Debug, Clone, PartialEq, Eq)]
pub struct BlockMmObjectInfo {
    pub mm_hash: u64,
    pub offsets: Vec<(usize, usize)>,
}

/// What besides its tokens identifies a block.
#[derive(Debug, Clone, PartialEq, Eq)]
pub struct BlockExtraInfo {
    pub mm_objects: Vec<BlockMmObjectInfo>,
}

/// What a [`BlockMmObjectInfo`] says.
pub ghost struct MmObject {
    pub mm_hash: u64,
    pub offsets: Seq<(usize, usize)>,
}

/// The objects of a block, in order.
pub open spec fn objects_of(info: BlockExtraInfo) -> Seq<MmObject> {
    info.mm_objects@.map_values(
        |o: BlockMmObjectInfo| MmObject { mm_hash: o.mm_hash, offsets: o.offsets@ },
    )
}

fn copied_offsets(offsets: &Vec<(usize, usize)>) -> (copy: Vec<(usize, usize)>)
    ensures
        copy@ == offsets@,
{
    let mut copy: Vec<(usize, usize)> = Vec::new();
    let mut i: usize = 0;
    while i < offsets.len()
        invariant
            i <= offsets@.len(),
            copy@ == offsets@.take(i as int),
        decreases offsets@.len() - i,
    {
        copy.push(offsets[i]);
        assert(offsets@.take(i + 1) =~= offsets@.take(i as int).push(offsets@[i as int]));
        i = i + 1;
    }
    assert(offsets@.take(i as int) =~= offsets@);
    copy
}

impl BlockExtraInfo {
    /// A copy with the same objects.
    pub(crate) fn copied(&self) -> (copy: Self)
        ensures
            objects_of(copy) == objects_of(*self),
            mm_hashes_of(copy) == mm_hashes_of(*self),
    {
        let mut mm_objects: Vec<BlockMmObjectInfo> = Vec::new();
        let mut i: usize = 0;
        while i < self.mm_objects.len()
            invariant
                i <= self.mm_objects@.len(),
                mm_objects@.len() == i,
                forall|j: int|
                    0 <= j < i ==> (#[trigger] mm_objects@[j]).mm_hash
                        == self.mm_objects@[j].mm_hash && mm_objects@[j].offsets@
                        == self.mm_objects@[j].offsets@,
            decreases self.mm_objects@.len() - i,
        {
            let object = &self.mm_objects[i];
            mm_objects.push(
                BlockMmObjectInfo { mm_hash: object.mm_hash, offsets: copied_offsets(&object.offsets) },
            );
            i = i + 1;
        }
        let copy = BlockExtraInfo { mm_objects };
        assert(objects_of(copy) =~= objects_of(*self));
        assert(mm_hashes_of(copy) =~= mm_hashes_of(*self));
        copy
    }
}

/// What besides the tokens goes into the block hashes of a sequence.
#[derive(Debug, Clone, Copy)]
pub struct BlockHashOptions<'a> {
    pub block_mm_infos: Option<&'a [Option<BlockExtraInfo>]>,
    pub lora_name: Option<&'a str>,
    pub cache_namespace: Option<&'a str>,
    pub is_eagle: Option<bool>,
}

impl<'a> BlockHashOptions<'a> {
    /// Plain token blocks.
    pub fn plain() -> (options: Self)
        ensures
            options.block_mm_infos is None,
            options.lora_name is None,
            options.cache_namespace is None,
            options.is_eagle is None,
    {
        BlockHashOptions {
            block_mm_infos: None,
            lora_name: None,
            cache_namespace: None,
            is_eagle: None,
        }
    }

    pub open spec fn eagle(self) -> bool {
        self.is_eagle == Some(true)
    }

    /// How many tokens one block hash reads.
    pub open spec fn window(self, block_size: u32) -> int {
        block_size + if self.eagle() {
            1int
        } else {
            0int
        }
    }

    /// The seed that separates adapters and namespaces.
    pub open spec fn seed(self) -> u64 {
        seed_of(
            match self.lora_name {
                Some(name) => Some(encode_utf8(name@)),
                None => None,
            },
            match self.cache_namespace {
                Some(name) => Some(encode_utf8(name@)),
                None => None,
            },
        )
    }

    /// The multimodal hashes of the block at `index`, in order.
    pub open spec fn mm_hashes(self, index: int) -> Seq<u64> {
        match self.block_mm_infos {
            Some(infos) => if 0 <= index < infos@.len() {
                match infos@[index] {
                    Some(info) => mm_hashes_of(info),
                    None => Seq::empty(),
                }
            } else {
                Seq::empty()
            },
            None => Seq::empty(),
        }
    }
}

/// The hashes of the objects of a block, in order.
pub open spec fn mm_hashes_of(info: BlockExtraInfo) -> Seq<u64> {
    info.mm_objects@.map_values(|o: BlockMmObjectInfo| o.mm_hash)
}

/// An adapter and a namespace each reseed the hash, in that order; an absent
/// and an empty name are the same. How names enter the seed is this library's
/// own definition: hashes under a name agree among its users.
pub open spec fn seed_of(lora: Option<Seq<u8>>, namespace: Option<Seq<u8>>) -> u64 {
    let adapted = match lora {
        Some(name) => if name.len() == 0 {
            XXH3_SEED
        } else {
            xxh3_64_seeded(name, XXH3_SEED)
        },
        None => XXH3_SEED,
    };
    match namespace {
        Some(name) => if name.len() == 0 {
            adapted
        } else {
            xxh3_64_seeded(name, !adapted)
        },
        None => adapted,
    }
}

/// The tokens as little-endian bytes.
pub open spec fn token_bytes(tokens: Seq<u32>) -> Seq<u8>
    decreases tokens.len(),
{
    if tokens.len() == 0 {
        Seq::empty()
    } else {
        token_bytes(tokens.drop_last()) + spec_u32_to_le_bytes(tokens.last())
    }
}

/// The hashes as little-endian bytes.
pub open spec fn hash_bytes(hashes: Seq<u64>) -> Seq<u8>
    decreases hashes.len(),
{
    if hashes.len() == 0 {
        Seq::empty()
    } else {
        hash_bytes(hashes.drop_last()) + spec_u64_to_le_bytes(hashes.last())
    }
}

/// The content hash of one block.
pub open spec fn local_hash(tokens: Seq<u32>, mm_hashes: Seq<u64>, seed: u64) -> LocalBlockHash {
    LocalBlockHash(xxh3_64_seeded(token_bytes(tokens) + hash_bytes(mm_hashes), seed))
}

/// How many blocks of `window` tokens, `stride` apart, fit into `len` tokens.
pub open spec fn block_count(len: int, stride: int, window: int) -> int {
    if stride <= 0 || len < window {
        0
    } else {
        (len - window) / stride + 1
    }
}

/// The content hashes of all whole blocks of a token sequence, where `mm` gives
/// the multimodal hashes of each block.
pub open spec fn locals_with(
    tokens: Seq<u32>,
    block_size: u32,
    window: int,
    mm: spec_fn(int) -> Seq<u64>,
    seed: u64,
) -> Seq<LocalBlockHash> {
    Seq::new(
        block_count(tokens.len() as int, block_size as int, window) as nat,
        |i: int|
            local_hash(tokens.subrange(i * block_size, i * block_size + window), mm(i), seed),
    )
}


/// The content hashes of the complete blocks of `tokens`.
pub open spec fn block_hashes(tokens: Seq<u32>, block_size: u32, options: BlockHashOptions) -> Seq<
    LocalBlockHash,
> {
    locals_with(
        tokens,
        block_size,
        options.window(block_size),
        |i: int| options.mm_hashes(i),
        options.seed(),
    )
}

/// The rolling hash after one more block.
pub open spec fn next_hash(parent: u64, local: LocalBlockHash) -> u64 {
    xxh3_64_seeded(spec_u64_to_le_bytes(parent) + spec_u64_to_le_bytes(local.0), XXH3_SEED)
}

/// The rolling hash of a block after `parent`; the first block is its own.
pub open spec fn rolled(parent: Option<u64>, local: LocalBlockHash) -> u64 {
    match parent {
        Some(parent) => next_hash(parent, local),
        None => local.0,
    }
}

/// The rolling hashes of a sequence of blocks that follows `parent`.
pub open spec fn rolling(parent: Option<u64>, locals: Seq<LocalBlockHash>) -> Seq<u64>
    decreases locals.len(),
{
    if locals.len() == 0 {
        Seq::empty()
    } else {
        let head = rolling(parent, locals.drop_last());
        head.push(rolled(last_or(head, parent), locals.last()))
    }
}

/// The last of `hashes`, or `parent` when there is none.
pub open spec fn last_or(hashes: Seq<u64>, parent: Option<u64>) -> Option<u64> {
    if hashes.len() == 0 {
        parent
    } else {
        Some(hashes.last())
    }
}

fn push_all(bytes: &mut Vec<u8>, more: &Vec<u8>)
    ensures
        final(bytes)@ == old(bytes)@ + more@,
{
    let ghost start = bytes@;
    let mut i: usize = 0;
    while i < more.len()
        invariant
            i <= more.len(),
            bytes@ == start + more@.take(i as int),
        decreases more.len() - i,
    {
        bytes.push(more[i]);
        i = i + 1;
        assert(bytes@ =~= start + more@.take(i as int));
    }
    assert(more@.take(i as int) =~= more@);
}

pub(crate) fn compute_seed(lora_name: Option<&str>, cache_namespace: Option<&str>) -> (seed: u64)
    ensures
        seed == seed_of(
            match lora_name {
                Some(name) => Some(encode_utf8(name@)),
                None => None,
            },
            match cache_namespace {
                Some(name) => Some(encode_utf8(name@)),
                None => None,
            },
        ),
{
    let mut seed: u64 = XXH3_SEED;
    if let Some(name) = lora_name {
        let bytes = name.as_bytes();
        if bytes.len() > 0 {
            seed = xxh3_64_with_seed(bytes, seed);
        }
    }
    if let Some(name) = cache_namespace {
        let bytes = name.as_bytes();
        if bytes.len() > 0 {
            seed = xxh3_64_with_seed(bytes, !seed);
        }
    }
    seed
}

/// The content hash of the tokens `from..to` and of the objects they touch.
pub(crate) fn hash_block(
    tokens: &[u32],
    from: usize,
    to: usize,
    info: Option<&BlockExtraInfo>,
    seed: u64,
) -> (hash: LocalBlockHash)
    requires
        from <= to <= tokens@.len(),
    ensures
        hash == local_hash(
            tokens@.subrange(from as int, to as int),
            match info {
                Some(info) => mm_hashes_of(*info),
                None => Seq::empty(),
            },
            seed,
        ),
{
    let ghost block = tokens@.subrange(from as int, to as int);
    let ghost hashes = match info {
        Some(info) => mm_hashes_of(*info),
        None => Seq::empty(),
    };
    let mut bytes: Vec<u8> = Vec::new();
    let mut i: usize = from;
    while i < to
        invariant
            from <= i <= to <= tokens@.len(),
            block == tokens@.subrange(from as int, to as int),
            bytes@ == token_bytes(block.take(i - from)),
        decreases to - i,
    {
        let word = u32_to_le_bytes(tokens[i]);
        push_all(&mut bytes, &word);
        proof {
            let next = block.take(i + 1 - from);
            assert(next.drop_last() =~= block.take(i - from));
            assert(next.last() == tokens@[i as int]);
        }
        i = i + 1;
    }
    proof {
        assert(block.take(to - from) =~= block);
        assert(bytes@ =~= token_bytes(block) + hash_bytes(hashes.take(0)));
    }
    if let Some(info) = info {
        let mut k: usize = 0;
        while k < info.mm_objects.len()
            invariant
                k <= info.mm_objects.len(),
                hashes == mm_hashes_of(*info),
                bytes@ == token_bytes(block) + hash_bytes(hashes.take(k as int)),
            decreases info.mm_objects.len() - k,
        {
            let word = u64_to_le_bytes(info.mm_objects[k].mm_hash);
            push_all(&mut bytes, &word);
            proof {
                let next = hashes.take(k + 1);
                assert(next.drop_last() =~= hashes.take(k as int));
                assert(next.last() == info.mm_objects@[k as int].mm_hash);
                assert(bytes@ =~= token_bytes(block) + hash_bytes(next));
            }
            k = k + 1;
        }
        assert(hashes.take(k as int) =~= hashes);
    } else {
        assert(hashes.take(0) =~= hashes);
    }
    LocalBlockHash(xxh3_64_with_seed(bytes.as_slice(), seed))
}

/// Hashes the complete blocks of a token sequence. With `is_eagle` every block
/// also reads the token that follows it. What an adapter, a namespace and
/// multimodal objects add to a hash is this library's own definition; see
/// [`seed_of`] and [`local_hash`].
pub fn compute_block_hash_for_seq(tokens: &[u32], block_size: u32, options: BlockHashOptions<'_>) -> (hashes:
    Vec<LocalBlockHash>)
    requires
        block_size > 0,
    ensures
        hashes@ == block_hashes(tokens@, block_size, options),
{
    let seed = compute_seed(options.lora_name, options.cache_namespace);
    let stride: usize = block_size as usize;
    let eagle: bool = match options.is_eagle {
        Some(eagle) => eagle,
        None => false,
    };
    let ghost window = options.window(block_size);
    let ghost total = block_count(tokens@.len() as int, block_size as int, window);
    let mut hashes: Vec<LocalBlockHash> = Vec::new();
    let mut start: usize = 0;
    let mut index: usize = 0;
    proof {
        assert(0 * block_size == 0);
        lemma_block_fits(tokens@.len() as int, block_size as int, window, 0);
    }
    // `start + stride` cannot overflow while a block fits, and a block fits
    // only while enough tokens are left.
    while start <= tokens.len() && tokens.len() - start >= stride && (!eagle || tokens.len() - start
        - stride >= 1)
        invariant
            stride == block_size,
            block_size > 0,
            eagle == options.eagle(),
            window == options.window(block_size),
            seed == options.seed(),
            total == block_count(tokens@.len() as int, block_size as int, window),
            start == index * block_size,
            start <= tokens@.len(),
            0 <= index <= total,
            index < total <==> start + window <= tokens@.len(),
            hashes@.len() == index,
            forall|i: int|
                0 <= i < index ==> #[trigger] hashes@[i] == block_hashes(
                    tokens@,
                    block_size,
                    options,
                )[i],
        decreases tokens.len() - start,
    {
        let mut info: Option<&BlockExtraInfo> = None;
        if let Some(infos) = options.block_mm_infos {
            if index < infos.len() {
                if let Some(found) = &infos[index] {
                    info = Some(found);
                }
            }
        }
        let end: usize = if eagle {
            start + stride + 1
        } else {
            start + stride
        };
        let hash = hash_block(tokens, start, end, info, seed);
        proof {
            assert(index < total);
            assert(hash == block_hashes(tokens@, block_size, options)[index as int]);
            assert((index + 1) * block_size == index * block_size + block_size) by (nonlinear_arith);
            lemma_block_fits(tokens@.len() as int, block_size as int, window, index + 1);
        }
        hashes.push(hash);
        start = start + stride;
        index = index + 1;
    }
    proof {
        assert(hashes@ =~= block_hashes(tokens@, block_size, options));
    }
    hashes
}

/// Block `i` exists exactly when the sequence holds all of its tokens.
pub proof fn lemma_block_fits(len: int, stride: int, window: int, i: int)
    requires
        stride > 0,
        window >= stride,
        0 <= i,
    ensures
        0 <= block_count(len, stride, window),
        i < block_count(len, stride, window) <==> i * stride + window <= len,
{
    if len >= window {
        assert(i <= (len - window) / stride <==> i * stride <= len - window) by (nonlinear_arith)
            requires
                stride > 0,
        ;
        assert(0 <= (len - window) / stride) by (nonlinear_arith)
            requires
                stride > 0,
                len >= window,
        ;
    } else {
        assert(i * stride >= 0) by (nonlinear_arith)
            requires
                i >= 0,
                stride > 0,
        ;
    }
}

/// The rolling hash after one more block.
pub fn compute_next_seq_hash(parent: u64, local: LocalBlockHash) -> (hash: u64)
    ensures
        hash == next_hash(parent, local),
{
    let mut bytes = u64_to_le_bytes(parent);
    let word = u64_to_le_bytes(local.0);
    push_all(&mut bytes, &word);
    xxh3_64_with_seed(bytes.as_slice(), XXH3_SEED)
}

/// The rolling hash of a block after `parent`; the first block is its own.
pub fn roll(parent: Option<u64>, local: LocalBlockHash) -> (hash: u64)
    ensures
        hash == rolled(parent, local),
{
    match parent {
        Some(parent) => compute_next_seq_hash(parent, local),
        None => local.0,
    }
}

/// The rolling hashes of a sequence of blocks.
pub fn compute_seq_hash_for_block(locals: &[LocalBlockHash]) -> (hashes: Vec<u64>)
    ensures
        hashes@ == rolling(None, locals@),
{
    let mut hashes: Vec<u64> = Vec::new();
    let mut parent: Option<u64> = None;
    let mut i: usize = 0;
    while i < locals.len()
        invariant
            i <= locals@.len(),
            hashes@ == rolling(None, locals@.take(i as int)),
            parent == last_or(hashes@, None),
        decreases locals@.len() - i,
    {
        let hash = roll(parent, locals[i]);
        proof {
            let next = locals@.take(i + 1);
            assert(next.drop_last() =~= locals@.take(i as int));
            assert(next.last() == locals@[i as int]);
        }
        hashes.push(hash);
        parent = Some(hash);
        i = i + 1;
    }
    assert(locals@.take(i as int) =~= locals@);
    hashes
}

/// There is one rolling hash per block.
pub proof fn lemma_rolling_len(parent: Option<u64>, locals: Seq<LocalBlockHash>)
    ensures
        rolling(parent, locals).len() == locals.len(),
    decreases locals.len(),
{
    if locals.len() > 0 {
        lemma_rolling_len(parent, locals.drop_last());
    }
}

/// Rolling over two runs of blocks is rolling over the first and then, from
/// where it ended, over the second.
pub proof fn law_rolling_continues(
    parent: Option<u64>,
    first: Seq<LocalBlockHash>,
    second: Seq<LocalBlockHash>,
)
    ensures
        rolling(parent, first + second) == rolling(parent, first) + rolling(
            last_or(rolling(parent, first), parent),
            second,
        ),
    decreases second.len(),
{
    let head = rolling(parent, first);
    let from = last_or(head, parent);
    if second.len() == 0 {
        assert(first + second =~= first);
        assert(head + rolling(from, second) =~= head);
    } else {
        let all = first + second;
        assert(all.drop_last() =~= first + second.drop_last());
        assert(all.last() == second.last());
        law_rolling_continues(parent, first, second.drop_last());
        let tail = rolling(from, second.drop_last());
        assert(last_or(head + tail, parent) == last_or(tail, from)) by {
            if tail.len() > 0 {
                assert((head + tail).last() == tail.last());
            } else {
                assert(head + tail =~= head);
            }
        }
        assert((head + tail).push(rolled(last_or(tail, from), second.last())) =~= head + tail.push(
            rolled(last_or(tail, from), second.last()),
        ));
    }
}

/// A prompt that extends another has the other's hashes as a prefix of its own.
pub proof fn law_shared_prefix_shares_hashes(
    parent: Option<u64>,
    locals: Seq<LocalBlockHash>,
    n: int,
)
    requires
        0 <= n <= locals.len(),
    ensures
        rolling(parent, locals).take(n) == rolling(parent, locals.take(n)),
{
    assert(locals =~= locals.take(n) + locals.skip(n));
    law_rolling_continues(parent, locals.take(n), locals.skip(n));
    lemma_rolling_len(parent, locals.take(n));
    assert(rolling(parent, locals).take(n) =~= rolling(parent, locals.take(n)));
}

} // verus!
