use kv_router::protocols::{ExternalSequenceBlockHash, WorkerWithDpRank};
use kv_router::router_hint::RouterHintRootCandidates;

#[test]
fn best_source_selects_longest_eligible_prefix() {
    let worker_a = WorkerWithDpRank::new(7, 0);
    let worker_b = WorkerWithDpRank::new(8, 0);
    let excluded = WorkerWithDpRank::new(9, 0);
    let candidates = RouterHintRootCandidates {
        block_hashes: vec![
            ExternalSequenceBlockHash(101),
            ExternalSequenceBlockHash(102),
            ExternalSequenceBlockHash(103),
        ],
        owner_prefix_blocks: vec![(worker_b, 2), (excluded, 3), (worker_a, 3)],
    };

    let selected = candidates.best_source(0, |worker| worker != excluded);

    assert_eq!(
        selected,
        Some((
            worker_a,
            vec![
                ExternalSequenceBlockHash(101),
                ExternalSequenceBlockHash(102),
                ExternalSequenceBlockHash(103),
            ],
        ))
    );
}

#[test]
fn best_source_fails_closed_on_invalid_prefix_length() {
    let candidates = RouterHintRootCandidates {
        block_hashes: vec![ExternalSequenceBlockHash(101)],
        owner_prefix_blocks: vec![(WorkerWithDpRank::new(7, 0), 2)],
    };

    assert!(candidates.best_source(0, |_| true).is_none());
    assert!(candidates.best_source_prefix_blocks(0, |_| true).is_none());
}

#[test]
fn best_source_prefix_blocks_matches_best_source_length() {
    let worker_a = WorkerWithDpRank::new(7, 0);
    let worker_b = WorkerWithDpRank::new(8, 0);
    let candidates = RouterHintRootCandidates {
        block_hashes: vec![
            ExternalSequenceBlockHash(101),
            ExternalSequenceBlockHash(102),
            ExternalSequenceBlockHash(103),
        ],
        owner_prefix_blocks: vec![(worker_b, 2), (worker_a, 3)],
    };

    assert_eq!(candidates.best_source_prefix_blocks(0, |_| true), Some(3));
    assert_eq!(
        candidates.best_source_prefix_blocks(0, |_| true),
        candidates.best_source(0, |_| true).map(|(_, hashes)| hashes.len())
    );
    assert_eq!(candidates.best_source_prefix_blocks(3, |_| true), None);
}

#[test]
fn equal_prefixes_go_to_the_smaller_worker() {
    let candidates = RouterHintRootCandidates {
        block_hashes: vec![ExternalSequenceBlockHash(1), ExternalSequenceBlockHash(2)],
        owner_prefix_blocks: vec![
            (WorkerWithDpRank::new(4, 1), 2),
            (WorkerWithDpRank::new(4, 0), 2),
            (WorkerWithDpRank::new(5, 0), 2),
        ],
    };
    let (worker, hashes) = candidates.best_source(1, |_| true).unwrap();
    assert_eq!(worker, WorkerWithDpRank::new(4, 0));
    assert_eq!(hashes.len(), 2);
}

#[test]
fn the_eligibility_test_may_keep_state() {
    let worker = WorkerWithDpRank::new(7, 0);
    let candidates = RouterHintRootCandidates {
        block_hashes: vec![ExternalSequenceBlockHash(1), ExternalSequenceBlockHash(2)],
        owner_prefix_blocks: vec![(worker, 2), (WorkerWithDpRank::new(8, 0), 1)],
    };
    let mut asked = Vec::new();
    let blocks = candidates.best_source_prefix_blocks(1, |source| {
        asked.push(source);
        true
    });
    assert_eq!(blocks, Some(2));
    // Only sources that would beat the known prefix are asked about.
    assert_eq!(asked, vec![worker]);
}
