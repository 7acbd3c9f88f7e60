use kv_router::cache_history;
use kv_router::minimal_cache_loss;

#[test]
fn longest_prefix_stops_at_first_unseen_hash() {
    let mut history = cache_history::CacheHistory::with_capacity(4, 16);
    assert!(history.record_completed(&[10, 20, 30]).is_some());

    assert_eq!(history.previously_computed_tokens(&[10, 20, 99, 30]), 32);
}

#[test]
fn duplicate_does_not_consume_capacity_or_refresh_fifo_age() {
    let mut history = cache_history::CacheHistory::with_capacity(2, 8);
    assert!(history.record_completed(&[10, 20]).is_some());
    history.record_completed(&[10, 30]);

    assert_eq!(history.previously_computed_tokens(&[10]), 0);
    assert_eq!(history.previously_computed_tokens(&[20, 30]), 16);
    assert_eq!(history.stats().retained_entries, 2);
}

#[test]
fn duplicate_only_completion_reports_no_change() {
    let mut history = cache_history::CacheHistory::with_capacity(2, 8);
    assert!(history.record_completed(&[10, 20]).is_some());
    assert!(history.record_completed(&[10, 20, 10]).is_none());
}

#[test]
fn recomputations_and_evictions_keep_the_newest_entries() {
    let mut history = cache_history::CacheHistory::with_capacity(8, 8);
    for step in 0..512_u64 {
        history.record_completed(&[step % 4, step + 10]);
    }
    let stats = history.stats();
    assert_eq!(stats.retained_entries, 8);
    assert_eq!(stats.represented_tokens, 64);
    assert_eq!(stats.estimated_retained_bytes, 256);
    assert_eq!(history.previously_computed_tokens(&[521]), 8);
    assert_eq!(history.previously_computed_tokens(&[510]), 0);
}

#[test]
fn environment_variable_names_are_stable() {
    assert_eq!(cache_history::CACHE_REUSE_HISTORY_ENABLED_ENV, "DYN_ROUTER_CACHE_REUSE_HISTORY");
    assert_eq!(cache_history::HISTORY_BYTES_ENV, "DYN_ROUTER_CACHE_REUSE_HISTORY_BYTES");
}

#[test]
fn disabled_by_default() {
    assert!(!cache_history::enabled(None));
}

#[test]
fn explicit_flag_enables_history() {
    assert!(cache_history::enabled(Some("true")));
    assert!(!cache_history::enabled(Some("false")));
}

#[test]
fn invalid_byte_budget_warns_and_uses_default() {
    for value in ["0", "64m", " 268435456 "] {
        let (bytes, warn) = cache_history::byte_budget(Some(value));
        assert!(warn);
        let stats = cache_history::CacheHistory::with_byte_budget(16, bytes).stats();
        assert_eq!(stats.capacity_bytes, cache_history::DEFAULT_HISTORY_BYTES);
    }
}

#[test]
fn valid_or_unset_byte_budget_does_not_warn() {
    let (bytes, warn) = cache_history::byte_budget(None);
    assert!(!warn);
    let stats = cache_history::CacheHistory::with_byte_budget(16, bytes).stats();
    assert_eq!(stats.capacity_bytes, cache_history::DEFAULT_HISTORY_BYTES);

    let (bytes, warn) = cache_history::byte_budget(Some("67108864"));
    assert!(!warn);
    let stats = cache_history::CacheHistory::with_byte_budget(16, bytes).stats();
    assert_eq!(stats.capacity_bytes, 67_108_864);
}

#[test]
fn a_tiny_budget_still_holds_one_entry() {
    let mut history = cache_history::CacheHistory::with_byte_budget(16, 1);
    history.record_completed(&[1, 2]);
    assert_eq!(history.previously_computed_tokens(&[2]), 16);
    assert_eq!(history.previously_computed_tokens(&[1]), 0);
}

#[test]
fn cache_loss_funnel_is_disabled_by_default() {
    assert_eq!(
        minimal_cache_loss::CACHE_LOSS_FUNNEL_ENABLED_ENV,
        "DYN_CACHE_LOSS_FUNNEL_ENABLED"
    );
    assert!(!minimal_cache_loss::enabled(None));
}

#[test]
fn cache_loss_funnel_accepts_truthy_enablement() {
    assert!(minimal_cache_loss::enabled(Some("true")));
}

#[test]
fn retains_recent_records_and_expires_the_oldest_chunk() {
    let mut history = minimal_cache_loss::CacheHistory::new_with_chunk(2, 16, 1);
    history.record_completed(&[10, 20], 0);
    assert_eq!(history.previously_computed_tokens(&[10, 20]), 32);

    history.record_completed(&[30], 0);
    assert_eq!(history.previously_computed_tokens(&[10, 20]), 0);
    assert_eq!(history.previously_computed_tokens(&[20, 30]), 32);
    assert_eq!(history.stats(0).represented_tokens, 32);
}

#[test]
fn evicts_a_complete_oldest_chunk() {
    let mut history = minimal_cache_loss::CacheHistory::new_with_chunk(8, 16, 4);
    history.record_completed(&[1, 2, 3, 4], 0);
    history.record_completed(&[5, 6, 7, 8], 0);
    history.record_completed(&[9], 0);
    assert_eq!(history.stats(0).retained_records, 5);
    assert_eq!(history.previously_computed_tokens(&[1]), 0);
    assert_eq!(history.previously_computed_tokens(&[5, 6, 7, 8, 9]), 80);
}

#[test]
fn duplicate_records_keep_a_hash_retained_until_all_expire() {
    let mut history = minimal_cache_loss::CacheHistory::new_with_chunk(2, 8, 1);
    history.record_completed(&[7, 7], 0);
    history.record_completed(&[9], 0);

    assert_eq!(history.previously_computed_tokens(&[7]), 8);
    history.record_completed(&[11], 0);
    assert_eq!(history.previously_computed_tokens(&[7]), 0);
}

#[test]
fn generated_history_excludes_the_newest_sampled_token() {
    let mut request =
        minimal_cache_loss::CacheHistoryRequest::new(vec![1, 2, 3, 4], None, None, None, 2, false);
    request.observe_output(0, &[5, 6, 7, 8]);
    let mut history = minimal_cache_loss::CacheHistory::new(32, 2);
    let prompt_hashes = request.prompt_hashes();
    let output_hashes = request.output_hashes();
    request.finalize(&mut history, &prompt_hashes, &output_hashes, 0);

    // The newest sampled token has no corresponding KV entry.
    assert_eq!(history.stats(0).retained_records, 3);
    // A request is recorded once.
    request.finalize(&mut history, &prompt_hashes, &output_hashes, 0);
    assert_eq!(history.stats(0).retained_records, 3);
    assert_eq!(history.previously_computed_tokens(&prompt_hashes), 4);
}

#[test]
fn default_budget_derives_capacity_without_a_block_limit() {
    let history = minimal_cache_loss::CacheHistory::from_setting(16, None);
    assert_eq!(
        history.stats(0).capacity_blocks,
        minimal_cache_loss::DEFAULT_HISTORY_BYTES
            / minimal_cache_loss::ESTIMATED_BYTES_PER_HISTORY_RECORD
    );
}

#[test]
fn statistics_tell_records_from_hashes_and_age_the_oldest_chunk() {
    let mut history = minimal_cache_loss::CacheHistory::new_with_chunk(4, 16, 2);
    history.record_completed(&[7, 7, 8], 5_000);
    let stats = history.stats(8_500);
    assert_eq!(stats.retained_records, 3);
    assert_eq!(stats.retained_unique_hashes, 2);
    assert_eq!(stats.estimated_retained_bytes, 96);
    assert_eq!(stats.capacity_bytes, 128);
    assert_eq!(stats.oldest_chunk_age_seconds, 3);
    assert_eq!(history.stats(0).oldest_chunk_age_seconds, 0);
}
