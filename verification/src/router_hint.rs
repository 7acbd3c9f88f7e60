//! Router-generated hints that are attached to selected backend requests.

use crate::protocols::{ExternalSequenceBlockHash, WorkerWithDpRank};
use vstd::prelude::*;

verus! {

/// Key for router-generated backend hints inside KV transfer params.
pub const ROUTER_HINT_EXTRA_ARGS_KEY: &'static str = "router_hint";

/// Worker runtime_data key. Boolean true means the worker can consume router_hint extra args.
pub const ROUTER_HINT_RUNTIME_CAPABILITY_KEY: &'static str = "router_hint";

/// Worker runtime_data key for matching router-hint sources to targets by backend role.
pub const ROUTER_HINT_WORKER_TYPE_RUNTIME_KEY: &'static str = "router_hint_worker_type";

/// Worker runtime_data key for per-global-DP-rank advertised KVCC control endpoints.
pub const ROUTER_HINT_SOURCE_CONTROL_ENDPOINTS_RUNTIME_KEY: &'static str =
    "router_hint_source_control_endpoints";

/// Worker runtime_data key for the source process's inventory generation.
pub const ROUTER_HINT_INVENTORY_EPOCH_RUNTIME_KEY: &'static str = "router_hint_inventory_epoch";

#[derive(Debug, Clone, PartialEq, Eq)]
pub struct RouterHint {
    pub source_control_endpoint: String,
    /// Source process generation advertised with the inventory used for this decision.
    pub source_inventory_epoch: u64,
    /// First request block the destination should consider for remediation.
    pub start_block: u32,
    /// Number of consecutive remediation blocks represented by this hint.
    pub hinted_blocks: u32,
    /// Root-aligned source-side KV block hashes. `block_hashes[i]`
    /// corresponds to request block `i`; `start_block..start_block+hinted_blocks`
    /// is the intended suffix.
    pub block_hashes: Vec<ExternalSequenceBlockHash>,
}

#[derive(Debug, Clone, PartialEq, Eq)]
pub struct RouterHintRootCandidates {
    pub block_hashes: Vec<ExternalSequenceBlockHash>,
    pub owner_prefix_blocks: Vec<(WorkerWithDpRank, usize)>,
}

/// Workers are ordered by identity, then by rank.
pub open spec fn worker_before(a: WorkerWithDpRank, b: WorkerWithDpRank) -> bool {
    a.worker_id < b.worker_id || (a.worker_id == b.worker_id && a.dp_rank < b.dp_rank)
}

/// A source beats another by its longer prefix, then by its smaller worker.
pub open spec fn beats(a: (WorkerWithDpRank, usize), b: (WorkerWithDpRank, usize)) -> bool {
    a.1 > b.1 || (a.1 == b.1 && worker_before(a.0, b.0))
}

/// Entry `i` is a candidate: its prefix is long enough and it was admitted.
pub open spec fn is_candidate(
    owners: Seq<(WorkerWithDpRank, usize)>,
    admitted: Seq<bool>,
    to_beat: usize,
    i: int,
) -> bool {
    0 <= i < owners.len() && owners[i].1 > to_beat && admitted[i]
}

/// `best` is the candidate that no candidate beats, if there is a candidate.
pub open spec fn is_best(
    owners: Seq<(WorkerWithDpRank, usize)>,
    admitted: Seq<bool>,
    to_beat: usize,
    best: Option<(WorkerWithDpRank, usize)>,
) -> bool {
    match best {
        Some(entry) => {
            &&& exists|i: int| #[trigger]
                is_candidate(owners, admitted, to_beat, i) && owners[i] == entry
            &&& forall|i: int| #[trigger]
                is_candidate(owners, admitted, to_beat, i) ==> !beats(owners[i], entry)
        },
        None => forall|i: int| !#[trigger] is_candidate(owners, admitted, to_beat, i),
    }
}

/// `admitted` is what the eligibility test said of each owner that was worth
/// asking about.
pub open spec fn asked<F: FnMut(WorkerWithDpRank) -> bool>(
    is_eligible_source: F,
    owners: Seq<(WorkerWithDpRank, usize)>,
    to_beat: usize,
    admitted: Seq<bool>,
) -> bool {
    &&& admitted.len() == owners.len()
    &&& forall|i: int|
        0 <= i < owners.len() && (#[trigger] owners[i]).1 > to_beat ==> call_ensures(
            is_eligible_source,
            (owners[i].0,),
            admitted[i],
        )
}

impl RouterHintRootCandidates {
    /// The best entry, unless its prefix is longer than the retained chain.
    pub open spec fn usable(&self, best: Option<(WorkerWithDpRank, usize)>) -> Option<
        (WorkerWithDpRank, usize),
    > {
        match best {
            Some(entry) => if entry.1 <= self.block_hashes@.len() {
                Some(entry)
            } else {
                None
            },
            None => None,
        }
    }

    /// `entry` is the usable best source under some answer of the test.
    pub open spec fn picks<F: FnMut(WorkerWithDpRank) -> bool>(
        &self,
        to_beat: usize,
        is_eligible_source: F,
        entry: Option<(WorkerWithDpRank, usize)>,
    ) -> bool {
        exists|admitted: Seq<bool>, best: Option<(WorkerWithDpRank, usize)>|
            #![trigger is_best(self.owner_prefix_blocks@, admitted, to_beat, best)]
            {
                &&& asked(is_eligible_source, self.owner_prefix_blocks@, to_beat, admitted)
                &&& is_best(self.owner_prefix_blocks@, admitted, to_beat, best)
                &&& entry == self.usable(best)
            }
    }

    /// Longest eligible source prefix, without materializing its block hashes.
    ///
    /// Use this when only the prefix length is needed (the `M` counter); it
    /// fails closed on the same invalid-prefix condition as [`Self::best_source`]
    /// so the two can never disagree.
    pub fn best_source_prefix_blocks<F>(
        &self,
        prefix_blocks_to_beat: usize,
        is_eligible_source: F,
    ) -> (blocks: Option<usize>) where F: FnMut(WorkerWithDpRank) -> bool
        requires
            forall|worker: WorkerWithDpRank| call_requires(is_eligible_source, (worker,)),
        ensures
            exists|entry: Option<(WorkerWithDpRank, usize)>| #[trigger]
                self.picks(prefix_blocks_to_beat, is_eligible_source, entry) && blocks == (
                match entry {
                    Some(e) => Some(e.1),
                    None => None,
                }),
    {
        match self.best_source_entry(prefix_blocks_to_beat, is_eligible_source) {
            Some((_, prefix_blocks)) => Some(prefix_blocks),
            None => None,
        }
    }

    /// The longest eligible source and the part of the chain that it holds.
    pub fn best_source<F>(&self, prefix_blocks_to_beat: usize, is_eligible_source: F) -> (source:
        Option<(WorkerWithDpRank, Vec<ExternalSequenceBlockHash>)>) where
        F: FnMut(WorkerWithDpRank) -> bool,

        requires
            forall|worker: WorkerWithDpRank| call_requires(is_eligible_source, (worker,)),
        ensures
            exists|entry: Option<(WorkerWithDpRank, usize)>| #[trigger]
                self.picks(prefix_blocks_to_beat, is_eligible_source, entry) && match entry {
                    Some(e) => source matches Some((worker, hashes)) && worker == e.0 && hashes@
                        == self.block_hashes@.take(e.1 as int),
                    None => source is None,
                },
    {
        match self.best_source_entry(prefix_blocks_to_beat, is_eligible_source) {
            Some((source, prefix_blocks)) => {
                let mut hashes: Vec<ExternalSequenceBlockHash> = Vec::new();
                let mut i: usize = 0;
                while i < prefix_blocks
                    invariant
                        i <= prefix_blocks <= self.block_hashes@.len(),
                        hashes@ == self.block_hashes@.take(i as int),
                    decreases prefix_blocks - i,
                {
                    hashes.push(self.block_hashes[i]);
                    i = i + 1;
                    assert(hashes@ =~= self.block_hashes@.take(i as int));
                }
                Some((source, hashes))
            },
            None => None,
        }
    }

    /// Pick the longest eligible source and validate that the recorded prefix
    /// length is representable by the retained chain. A winning candidate with
    /// an out-of-range prefix fails closed rather than falling back to the
    /// runner-up, so a corrupt inventory entry cannot silently downgrade the
    /// hint to a shorter source.
    pub fn best_source_entry<F>(&self, prefix_blocks_to_beat: usize, is_eligible_source: F) -> (entry:
        Option<(WorkerWithDpRank, usize)>) where F: FnMut(WorkerWithDpRank) -> bool
        requires
            forall|worker: WorkerWithDpRank| call_requires(is_eligible_source, (worker,)),
        ensures
            self.picks(prefix_blocks_to_beat, is_eligible_source, entry),
            entry matches Some(e) ==> e.1 <= self.block_hashes@.len(),
    {
        let mut test = is_eligible_source;
        let owners = &self.owner_prefix_blocks;
        let ghost all = owners@;
        let ghost mut admitted: Seq<bool> = Seq::empty();
        let mut best: Option<(WorkerWithDpRank, usize)> = None;
        let mut i: usize = 0;
        proof {
            assert(all.take(0).len() == 0);
        }
        while i < owners.len()
            invariant
                i <= owners@.len(),
                all == owners@,
                test == is_eligible_source,
                forall|worker: WorkerWithDpRank| call_requires(is_eligible_source, (worker,)),
                asked(is_eligible_source, all.take(i as int), prefix_blocks_to_beat, admitted),
                is_best(all.take(i as int), admitted, prefix_blocks_to_beat, best),
            decreases owners@.len() - i,
        {
            let (worker, blocks) = owners[i];
            let mut ok: bool = false;
            if blocks > prefix_blocks_to_beat {
                ok = test(worker);
            }
            let ghost upto = all.take(i as int);
            let ghost next = all.take(i + 1);
            let ghost before = admitted;
            let ghost prior = best;
            proof {
                admitted = admitted.push(ok);
                assert(next =~= upto.push(all[i as int]));
                assert(asked(is_eligible_source, next, prefix_blocks_to_beat, admitted)) by {
                    assert forall|j: int|
                        0 <= j < next.len() && (#[trigger] next[j]).1
                            > prefix_blocks_to_beat implies call_ensures(
                        is_eligible_source,
                        (next[j].0,),
                        admitted[j],
                    ) by {
                        if j < i {
                            assert(next[j] == upto[j]);
                        }
                    }
                }
                assert forall|j: int| j != i implies #[trigger] is_candidate(
                    next,
                    admitted,
                    prefix_blocks_to_beat,
                    j,
                ) == is_candidate(upto, before, prefix_blocks_to_beat, j) by {
                    if 0 <= j < i {
                        assert(next[j] == upto[j]);
                        assert(admitted[j] == before[j]);
                    }
                }
                assert(is_candidate(next, admitted, prefix_blocks_to_beat, i as int) == ok);
            }
            if ok {
                let better: bool = match best {
                    Some((held, depth)) => blocks > depth || (blocks == depth && (worker.worker_id
                        < held.worker_id || (worker.worker_id == held.worker_id && worker.dp_rank
                        < held.dp_rank))),
                    None => true,
                };
                if better {
                    best = Some((worker, blocks));
                }
            }
            proof {
                assert(is_best(next, admitted, prefix_blocks_to_beat, best)) by {
                    match best {
                        Some(entry) => {
                            assert forall|j: int| #[trigger]
                                is_candidate(
                                    next,
                                    admitted,
                                    prefix_blocks_to_beat,
                                    j,
                                ) implies !beats(next[j], entry) by {
                                if j != i {
                                    assert(is_candidate(upto, before, prefix_blocks_to_beat, j));
                                    assert(next[j] == upto[j]);
                                    assert(!beats(upto[j], prior->Some_0));
                                }
                            }
                            if prior is Some && prior == best {
                                let j = choose|j: int| #[trigger]
                                    is_candidate(upto, before, prefix_blocks_to_beat, j)
                                        && upto[j] == entry;
                                assert(is_candidate(next, admitted, prefix_blocks_to_beat, j));
                                assert(next[j] == entry);
                            } else {
                                assert(is_candidate(
                                    next,
                                    admitted,
                                    prefix_blocks_to_beat,
                                    i as int,
                                ));
                                assert(next[i as int] == entry);
                            }
                        },
                        None => {
                            assert forall|j: int| !#[trigger] is_candidate(
                                next,
                                admitted,
                                prefix_blocks_to_beat,
                                j,
                            ) by {
                                if j != i {
                                    assert(!is_candidate(upto, before, prefix_blocks_to_beat, j));
                                }
                            }
                        },
                    }
                }
            }
            i = i + 1;
        }
        proof {
            assert(all.take(i as int) =~= all);
            assert(is_best(self.owner_prefix_blocks@, admitted, prefix_blocks_to_beat, best));
        }
        match best {
            Some((source, prefix_blocks)) => {
                if prefix_blocks <= self.block_hashes.len() {
                    Some((source, prefix_blocks))
                } else {
                    None
                }
            },
            None => None,
        }
    }
}

/// There is at most one best source.
pub proof fn law_best_source_is_unique(
    owners: Seq<(WorkerWithDpRank, usize)>,
    admitted: Seq<bool>,
    to_beat: usize,
    a: Option<(WorkerWithDpRank, usize)>,
    b: Option<(WorkerWithDpRank, usize)>,
)
    requires
        is_best(owners, admitted, to_beat, a),
        is_best(owners, admitted, to_beat, b),
    ensures
        a == b,
{
    if a is Some {
        let i = choose|i: int| #[trigger]
            is_candidate(owners, admitted, to_beat, i) && owners[i] == a->Some_0;
        assert(is_candidate(owners, admitted, to_beat, i));
        if b is Some {
            let j = choose|j: int| #[trigger]
                is_candidate(owners, admitted, to_beat, j) && owners[j] == b->Some_0;
            assert(!beats(owners[i], b->Some_0));
            assert(!beats(owners[j], a->Some_0));
        }
    } else if b is Some {
        let j = choose|j: int| #[trigger]
            is_candidate(owners, admitted, to_beat, j) && owners[j] == b->Some_0;
        assert(is_candidate(owners, admitted, to_beat, j));
    }
}

} // verus!
