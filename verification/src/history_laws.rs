//! What holds of the history of computed blocks.

use crate::minimal_cache_loss::{Chunk, Hashing};
use vstd::prelude::*;

verus! {

proof fn lemma_records_push(chunks: Seq<Chunk>, chunk: Chunk)
    ensures
        crate::minimal_cache_loss::records(chunks.push(chunk))
            == crate::minimal_cache_loss::records(chunks) + chunk.hashes,
{
    assert(chunks.push(chunk).drop_last() =~= chunks);
}

/// A new record comes last. Nothing else changes, but that a full history loses
/// its oldest chunk. It opens a chunk of its own exactly if there is none or the
/// newest is full, and only then does the time of insertion count.
pub proof fn law_record_comes_last(
    chunks: Seq<Chunk>,
    hash: u64,
    now_ms: u64,
    capacity: nat,
    chunk_records: nat,
)
    ensures
        ({
            let after = crate::minimal_cache_loss::with_record(
                chunks,
                hash,
                now_ms,
                capacity,
                chunk_records,
            );
            let kept = if crate::minimal_cache_loss::records(chunks).len() == capacity {
                chunks.skip(1)
            } else {
                chunks
            };
            let opens = kept.len() == 0 || kept.last().hashes.len() == chunk_records;
            &&& crate::minimal_cache_loss::records(after) == crate::minimal_cache_loss::records(
                kept,
            ).push(hash)
            &&& after.len() == kept.len() + (if opens {
                1int
            } else {
                0
            })
            &&& opens ==> after.last().inserted_at_ms == now_ms
            &&& !opens ==> after.last().inserted_at_ms == kept.last().inserted_at_ms
            &&& forall|i: int|
                0 <= i < after.len() - 1 ==> #[trigger] after[i] == kept[i]
        }),
{
    let after = crate::minimal_cache_loss::with_record(
        chunks,
        hash,
        now_ms,
        capacity,
        chunk_records,
    );
    let kept = if crate::minimal_cache_loss::records(chunks).len() == capacity {
        chunks.skip(1)
    } else {
        chunks
    };
    let opens = kept.len() == 0 || kept.last().hashes.len() == chunk_records;
    if opens {
        let chunk = Chunk { inserted_at_ms: now_ms, hashes: seq![hash] };
        lemma_records_push(kept, chunk);
        assert(crate::minimal_cache_loss::records(after)
            =~= crate::minimal_cache_loss::records(kept).push(hash));
    } else {
        let front = kept.drop_last();
        let chunk = Chunk { hashes: kept.last().hashes.push(hash), ..kept.last() };
        assert(after =~= front.push(chunk));
        assert(kept =~= front.push(kept.last()));
        lemma_records_push(front, chunk);
        lemma_records_push(front, kept.last());
        assert(crate::minimal_cache_loss::records(after)
            =~= crate::minimal_cache_loss::records(kept).push(hash));
    }
}

/// Several records are taken in one after the other.
pub proof fn law_records_are_taken_in_order(
    chunks: Seq<Chunk>,
    hashes: Seq<u64>,
    hash: u64,
    now_ms: u64,
    capacity: nat,
    chunk_records: nat,
)
    ensures
        crate::minimal_cache_loss::with_records(
            chunks,
            Seq::<u64>::empty(),
            now_ms,
            capacity,
            chunk_records,
        ) == chunks,
        crate::minimal_cache_loss::with_records(
            chunks,
            hashes.push(hash),
            now_ms,
            capacity,
            chunk_records,
        ) == crate::minimal_cache_loss::with_record(
            crate::minimal_cache_loss::with_records(
                chunks,
                hashes,
                now_ms,
                capacity,
                chunk_records,
            ),
            hash,
            now_ms,
            capacity,
            chunk_records,
        ),
{
    assert(hashes.push(hash).drop_last() =~= hashes);
}

/// The known prefix ends at the first hash without a record.
pub proof fn law_recorded_prefix_ends_at_the_first_miss(
    records: Seq<u64>,
    hashes: Seq<u64>,
    n: int,
)
    requires
        0 <= n <= hashes.len(),
        forall|i: int| 0 <= i < n ==> records.contains(#[trigger] hashes[i]),
        n < hashes.len() ==> !records.contains(hashes[n]),
    ensures
        crate::minimal_cache_loss::leading_recorded(records, hashes) == n,
    decreases n,
{
    if n > 0 {
        let rest = hashes.skip(1);
        assert(records.contains(hashes[0]));
        assert forall|i: int| 0 <= i < n - 1 implies records.contains(#[trigger] rest[i]) by {
            assert(rest[i] == hashes[i + 1]);
        }
        if n < hashes.len() {
            assert(rest[n - 1] == hashes[n]);
        }
        law_recorded_prefix_ends_at_the_first_miss(records, rest, n - 1);
    }
}

/// A chunk has as many records as were asked for, but at least one and no more
/// than the budget allows.
pub proof fn law_chunks_fit_the_budget(record_budget: int, asked: int)
    ensures
        ({
            let chunk = crate::minimal_cache_loss::chunk_size(record_budget, asked);
            &&& chunk >= 1
            &&& record_budget >= 1 ==> chunk <= record_budget
            &&& record_budget <= 1 ==> chunk == 1
            &&& 1 <= asked <= record_budget ==> chunk == asked
            &&& asked > record_budget >= 1 ==> chunk == record_budget
            &&& asked < 1 ==> chunk == 1
        }),
{
}

/// The capacity is the largest number of whole chunks within the budget, and at
/// least one chunk.
pub proof fn law_capacity_is_whole_chunks(record_budget: int, chunk: int)
    requires
        chunk > 0,
    ensures
        ({
            let capacity = crate::minimal_cache_loss::capacity_of(record_budget, chunk);
            &&& capacity % chunk == 0
            &&& capacity >= chunk
            &&& record_budget >= chunk ==> capacity <= record_budget && record_budget - capacity
                < chunk
            &&& record_budget < chunk ==> capacity == chunk
        }),
{
    let whole = record_budget / chunk;
    let left = record_budget % chunk;
    vstd::arithmetic::div_mod::lemma_fundamental_div_mod(record_budget, chunk);
    vstd::arithmetic::div_mod::lemma_mod_bound(record_budget, chunk);
    assert(chunk * whole == whole * chunk) by (nonlinear_arith);
    vstd::arithmetic::div_mod::lemma_mod_multiples_basic(whole, chunk);
    vstd::arithmetic::div_mod::lemma_mod_multiples_basic(1, chunk);
    if whole > 1 {
        assert(whole * chunk >= chunk) by (nonlinear_arith)
            requires
                whole > 1,
                chunk > 0,
        ;
    } else if record_budget >= chunk {
        assert(whole == 1) by (nonlinear_arith)
            requires
                record_budget == chunk * whole + left,
                0 <= left < chunk,
                record_budget >= chunk,
                whole <= 1,
        ;
    }
}

/// The budget is what a positive setting asks for, else 256 MiB, and in any case
/// enough for one record.
pub proof fn law_history_budget_is_what_was_asked_for(setting: Option<Seq<char>>)
    ensures
        ({
            let bytes = crate::minimal_cache_loss::asked_bytes(setting);
            let asked = crate::text::number_in(setting->Some_0);
            &&& bytes >= 32
            &&& setting is None ==> bytes == 268_435_456
            &&& setting is Some && asked is None ==> bytes == 268_435_456
            &&& setting is Some && asked == Some(0nat) ==> bytes == 268_435_456
            &&& setting is Some && asked is Some && 32 <= asked->Some_0 <= usize::MAX ==> bytes
                == asked->Some_0
            &&& setting is Some && asked is Some && 1 <= asked->Some_0 <= 32 ==> bytes == 32
        }),
{
}

/// The newest token of an output has not been computed; all before it have.
pub proof fn law_newest_token_is_not_computed(output: Seq<u32>)
    ensures
        ({
            let computed = crate::minimal_cache_loss::computed_output(output);
            &&& output.len() > 0 ==> computed.len() == output.len() - 1
            &&& output.len() == 0 ==> computed.len() == 0
            &&& forall|i: int| 0 <= i < computed.len() ==> #[trigger] computed[i] == output[i]
        }),
{
}

/// An output adds the hashes of the whole sequence that lie behind those of the
/// prompt.
pub proof fn law_output_adds_what_lies_behind_the_prompt(
    hashing: Hashing,
    prompt: Seq<u32>,
    output: Seq<u32>,
    i: int,
)
    requires
        output.len() > 0,
        ({
            let whole = hashing.hashes(prompt + output.drop_last());
            0 <= i && hashing.hashes(prompt).len() + i < whole.len()
        }),
    ensures
        ({
            let whole = hashing.hashes(prompt + output.drop_last());
            let added = hashing.added(prompt, output);
            &&& added.len() == whole.len() - hashing.hashes(prompt).len()
            &&& added[i] == whole[hashing.hashes(prompt).len() + i]
        }),
{
    assert(crate::minimal_cache_loss::computed_output(output) =~= output.drop_last());
}

/// Products are counted as far as they can be.
pub proof fn law_products_are_capped(a: int, b: int, most: int)
    ensures
        a * b <= most ==> crate::cache_history::capped_product(a, b, most) == a * b,
        a * b >= most ==> crate::cache_history::capped_product(a, b, most) == most,
{
}

/// Lists of hashes are recorded one after the other.
pub proof fn law_lists_are_recorded_in_order(
    chunks: Seq<Chunk>,
    lists: Seq<Seq<u64>>,
    list: Seq<u64>,
    now_ms: u64,
    capacity: nat,
    chunk_records: nat,
)
    ensures
        crate::minimal_cache_loss::with_lists(
            chunks,
            Seq::<Seq<u64>>::empty(),
            now_ms,
            capacity,
            chunk_records,
        ) == chunks,
        crate::minimal_cache_loss::with_lists(
            chunks,
            lists.push(list),
            now_ms,
            capacity,
            chunk_records,
        ) == crate::minimal_cache_loss::with_records(
            crate::minimal_cache_loss::with_lists(
                chunks,
                lists,
                now_ms,
                capacity,
                chunk_records,
            ),
            list,
            now_ms,
            capacity,
            chunk_records,
        ),
{
    assert(lists.push(list).drop_last() =~= lists);
}

/// A choice adds a list of hashes exactly if it has put out more than one token.
pub proof fn law_choices_with_output_add_hashes(
    hashing: Hashing,
    prompt: Seq<u32>,
    outputs: Map<u32, Seq<u32>>,
    choices: Seq<u32>,
    choice: u32,
)
    ensures
        ({
            let before = crate::minimal_cache_loss::outputs_added(
                hashing,
                prompt,
                outputs,
                choices,
            );
            let after = crate::minimal_cache_loss::outputs_added(
                hashing,
                prompt,
                outputs,
                choices.push(choice),
            );
            &&& outputs[choice].len() > 1 ==> after == before.push(
                hashing.added(prompt, outputs[choice]),
            )
            &&& outputs[choice].len() <= 1 ==> after == before
        }),
{
    assert(choices.push(choice).drop_last() =~= choices);
}

} // verus!
