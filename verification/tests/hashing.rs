use kv_router::block_hash::{
    compute_block_hash_for_seq, compute_next_seq_hash, compute_seq_hash_for_block,
    BlockHashOptions,
};
use kv_router::hash_continuation::{sequence_hashes, HashContinuation};

#[test]
fn plain_blocks_hash_independently_of_position() {
    let hashes = compute_block_hash_for_seq(&[1, 2, 1, 2, 3], 2, BlockHashOptions::plain());
    assert_eq!(hashes.len(), 2);
    assert_eq!(hashes[0], hashes[1]);
    let rolling = compute_seq_hash_for_block(&hashes);
    assert_eq!(rolling[0], hashes[0].0);
    assert_ne!(rolling[0], rolling[1]);
}

fn plain(tokens: &[u32], size: u32) -> Vec<u64> {
    sequence_hashes(tokens, size, false, &None, &None, &None)
}

#[test]
fn a_block_hashes_its_little_endian_tokens_with_the_seed() {
    let hashes = compute_block_hash_for_seq(&[1, 2], 2, BlockHashOptions::plain());
    let mut bytes = Vec::new();
    bytes.extend_from_slice(&1_u32.to_le_bytes());
    bytes.extend_from_slice(&2_u32.to_le_bytes());
    assert_eq!(hashes[0].0, xxhash_rust::xxh3::xxh3_64_with_seed(&bytes, 1337));
    let mut pair = hashes[0].0.to_le_bytes().to_vec();
    pair.extend_from_slice(&hashes[0].0.to_le_bytes());
    assert_eq!(
        compute_next_seq_hash(hashes[0].0, hashes[0]),
        xxhash_rust::xxh3::xxh3_64_with_seed(&pair, 1337)
    );
}

#[test]
fn a_continuation_matches_a_single_pass() {
    let tokens: Vec<u32> = (0..11).collect();
    let mut continuation = HashContinuation::new(4, false, None, vec![], None, None, None);
    let mut hashes = continuation.append(&tokens[..3]);
    hashes.extend(continuation.append(&tokens[3..9]));
    hashes.extend(continuation.append(&tokens[9..]));
    assert_eq!(hashes, plain(&tokens, 4));
    assert_eq!(continuation.tail_len(), 3);
}

#[test]
fn names_change_the_hashes() {
    let tokens = [1, 2, 3, 4];
    let lora = Some("adapter".to_string());
    let named = sequence_hashes(&tokens, 2, false, &None, &lora, &None);
    let spaced = sequence_hashes(&tokens, 2, false, &None, &None, &lora);
    assert_ne!(named, plain(&tokens, 2));
    assert_ne!(named, spaced);
    assert_eq!(sequence_hashes(&tokens, 2, true, &None, &None, &None).len(), 1);
}

#[test]
fn shared_prefixes_share_their_hashes() {
    let one = plain(&[1, 2, 3, 4, 5, 6], 2);
    let other = plain(&[1, 2, 3, 4, 9, 9], 2);
    assert_eq!(one[..2], other[..2]);
    assert_ne!(one[2], other[2]);
}

#[test]
fn whole_blocks_of_a_prompt_get_one_hash_each() {
    let prompt_tokens = vec![1_u32, 2, 3, 4, 5, 6, 7, 8];
    let local_hashes = compute_block_hash_for_seq(&prompt_tokens, 4, BlockHashOptions::plain());
    let seq_hashes = compute_seq_hash_for_block(&local_hashes);
    assert_eq!(seq_hashes.len(), 2);
}
