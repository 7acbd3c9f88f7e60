//! The estimator's model of an unbounded shared cache with a retention
//! horizon, fed by the events of all producers.

use crate::id_map::IdMap;
use crate::keyed_table::{KeyedTable, TableKey};
use crate::kv_cache_sol::{Domain, KvCacheSolDomain, KvCacheSolEvent, KvCacheSolEventKind};
use std::collections::BTreeSet;
use vstd::prelude::*;

verus! {

/// The place of a hash in the expiry order: by expiry, then by hash.
pub open spec fn place(expires_at: u64, hash: u64) -> u128 {
    (expires_at * 0x1_0000_0000_0000_0000 + hash) as u128
}

fn place_of(expires_at: u64, hash: u64) -> (at: u128)
    ensures
        at == place(expires_at, hash),
{
    expires_at as u128 * 0x1_0000_0000_0000_0000 + hash as u128
}

proof fn lemma_place(a: u64, x: u64, b: u64, y: u64)
    ensures
        place(a, x) == place(b, y) ==> a == b && x == y,
        place(a, x) <= place(b, y) ==> a <= b,
        place(a, x) as int == a * 0x1_0000_0000_0000_0000 + x,
{
}

/// `BTreeSet::first`: the smallest element, if there is any.
#[verifier::external_body]
fn first_place(queue: &BTreeSet<u128>) -> (first: Option<u128>)
    ensures
        match first {
            Some(at) => queue@.contains(at) && forall|other: u128|
                queue@.contains(other) ==> at <= other,
            None => queue@ == Set::<u128>::empty(),
        },
{
    queue.first().copied()
}

/// The entries that outlive `watermark`.
pub open spec fn outliving(expirations: Map<u64, u64>, watermark: u64) -> Map<u64, u64> {
    Map::new(
        |hash: u64| expirations.contains_key(hash) && expirations[hash] > watermark,
        |hash: u64| expirations[hash],
    )
}

/// A hash kept at least until `expires_at`: a known retention is never
/// shortened.
pub open spec fn refreshed(expirations: Map<u64, u64>, hash: u64, expires_at: u64) -> Map<
    u64,
    u64,
> {
    if expirations.contains_key(hash) && expirations[hash] >= expires_at {
        expirations
    } else {
        expirations.insert(hash, expires_at)
    }
}

/// The hashes retained in one domain, with the time at which each expires.
pub struct DomainCache {
    expirations: IdMap<u64>,
    // Exactly one ordered expiry entry per retained hash. A heap would leave
    // one stale entry behind on every refresh, so a hot prefix could grow
    // memory independently of the number of retained hashes.
    expiry_queue: BTreeSet<u128>,
}

impl View for DomainCache {
    type V = Map<u64, u64>;

    closed spec fn view(&self) -> Map<u64, u64> {
        self.expirations@
    }
}

impl DomainCache {
    /// The queue holds one entry for each retained hash, and no other.
    pub closed spec fn wf(&self) -> bool {
        &&& self.expirations@.dom().finite()
        &&& forall|at: u128| #[trigger]
            self.expiry_queue@.contains(at) ==> exists|hash: u64| #[trigger]
                self.expirations@.contains_key(hash) && at == place(self.expirations@[hash], hash)
        &&& forall|hash: u64| #[trigger]
            self.expirations@.contains_key(hash) ==> self.expiry_queue@.contains(
                place(self.expirations@[hash], hash),
            )
    }

    pub fn new() -> (s: Self)
        ensures
            s.wf(),
            s@ == Map::<u64, u64>::empty(),
    {
        DomainCache { expirations: IdMap::new(), expiry_queue: BTreeSet::new() }
    }

    /// How many hashes are retained.
    pub fn len(&self) -> (n: usize)
        requires
            self.wf(),
        ensures
            n == self@.dom().len(),
            self@.dom().finite(),
    {
        self.expirations.len()
    }

    /// How many entries the expiry queue holds: one for each retained hash.
    pub fn queued(&self) -> (n: usize)
        requires
            self.wf(),
        ensures
            n == self@.dom().len(),
    {
        broadcast use vstd::std_specs::btree::group_btree_axioms;

        proof {
            let map = self.expirations@;
            let at = |hash: u64| place(map[hash], hash);
            assert(vstd::relations::injective_on(at, map.dom())) by {
                assert forall|x: u64, y: u64|
                    map.dom().contains(x) && map.dom().contains(y) && #[trigger] at(x)
                        == #[trigger] at(y) implies x == y by {
                    lemma_place(map[x], x, map[y], y);
                }
            }
            assert(map.dom().map(at) =~= self.expiry_queue@) by {
                assert forall|p: u128| self.expiry_queue@.contains(p) implies map.dom().map(
                    at,
                ).contains(p) by {
                    let hash = choose|hash: u64| #[trigger]
                        map.contains_key(hash) && p == place(map[hash], hash);
                    assert(map.dom().contains(hash) && at(hash) == p);
                }
            }
            vstd::set_lib::lemma_map_size(map.dom(), self.expiry_queue@, at);
        }
        self.expiry_queue.len()
    }

    /// When a retained hash expires.
    pub fn expiry(&self, hash: u64) -> (expires_at: Option<u64>)
        ensures
            match expires_at {
                Some(at) => self@.contains_key(hash) && self@[hash] == at,
                None => !self@.contains_key(hash),
            },
    {
        match self.expirations.get(hash) {
            Some(at) => Some(*at),
            None => None,
        }
    }

    /// Forgets what has expired by `watermark_ms`.
    pub fn prune(&mut self, watermark_ms: u64)
        requires
            old(self).wf(),
        ensures
            final(self).wf(),
            final(self)@ == outliving(old(self)@, watermark_ms),
    {
        let ghost before = self@;
        broadcast use vstd::std_specs::btree::group_btree_axioms;

        loop
            invariant_except_break
                self.wf(),
                forall|hash: u64| #[trigger]
                    self@.contains_key(hash) ==> before.contains_key(hash) && self@[hash]
                        == before[hash],
                forall|hash: u64| #[trigger]
                    before.contains_key(hash) && before[hash] > watermark_ms ==> self@.contains_key(
                        hash,
                    ),
            ensures
                self.wf(),
                self@ =~= outliving(before, watermark_ms),
            decreases self@.dom().len(),
        {
            let first: u128 = match first_place(&self.expiry_queue) {
                Some(first) => first,
                None => {
                    proof {
                        assert forall|hash: u64| !self@.contains_key(hash) by {
                            if self@.contains_key(hash) {
                                assert(self.expiry_queue@.contains(place(self@[hash], hash)));
                            }
                        }
                    }
                    break;
                },
            };
            let expires_at: u64 = (first / 0x1_0000_0000_0000_0000) as u64;
            let hash: u64 = (first % 0x1_0000_0000_0000_0000) as u64;
            let ghost owner = choose|owner: u64| #[trigger]
                self@.contains_key(owner) && first == place(self@[owner], owner);
            proof {
                lemma_place(self@[owner], owner, 0, 0);
                assert(expires_at == self@[owner] && hash == owner) by {
                    let whole = first as int;
                    assert(whole == self@[owner] * 0x1_0000_0000_0000_0000 + owner);
                }
            }
            if expires_at > watermark_ms {
                proof {
                    assert forall|other: u64| #[trigger] self@.contains_key(other) implies self@[other]
                        > watermark_ms by {
                        assert(self.expiry_queue@.contains(place(self@[other], other)));
                        lemma_place(self@[owner], owner, self@[other], other);
                    }
                }
                break;
            }
            let ghost was = self.expirations@;
            let ghost queue = self.expiry_queue@;
            self.expiry_queue.remove(&first);
            self.expirations.remove(hash);
            proof {
                assert(self.expiry_queue@ =~= queue.remove(first));
                assert(self.expirations@.dom() =~= was.dom().remove(hash));
                assert forall|at: u128| #[trigger]
                    self.expiry_queue@.contains(at) implies exists|h: u64| #[trigger]
                    self.expirations@.contains_key(h) && at == place(self.expirations@[h], h) by {
                    assert(queue.contains(at));
                    let h = choose|h: u64| #[trigger]
                        was.contains_key(h) && at == place(was[h], h);
                    assert(h != hash);
                    assert(self.expirations@.contains_key(h));
                }
                assert forall|h: u64| #[trigger]
                    self.expirations@.contains_key(h) implies self.expiry_queue@.contains(
                    place(self.expirations@[h], h),
                ) by {
                    assert(was.contains_key(h));
                    lemma_place(was[h], h, was[hash], hash);
                }
            }
        }
    }

    /// Retains a hash until `expires_at`. Gives whether it is new.
    pub fn insert(&mut self, hash: u64, expires_at: u64) -> (new: bool)
        requires
            old(self).wf(),
        ensures
            final(self).wf(),
            final(self)@ == refreshed(old(self)@, hash, expires_at),
            new == !old(self)@.contains_key(hash),
    {
        broadcast use vstd::std_specs::btree::group_btree_axioms;

        let ghost was = self.expirations@;
        let ghost queue = self.expiry_queue@;
        let known: Option<u64> = self.expiry(hash);
        if let Some(current) = known {
            // Events from different producers can have slightly skewed
            // timestamps. Never shorten an already-known retention window.
            if expires_at <= current {
                return false;
            }
            self.expiry_queue.remove(&place_of(current, hash));
        }
        self.expirations.insert(hash, expires_at);
        self.expiry_queue.insert(place_of(expires_at, hash));
        proof {
            let now = self.expirations@;
            assert(now.dom() =~= was.dom().insert(hash));
            assert forall|at: u128| #[trigger]
                self.expiry_queue@.contains(at) implies exists|h: u64| #[trigger]
                now.contains_key(h) && at == place(now[h], h) by {
                if at == place(expires_at, hash) {
                    assert(now.contains_key(hash));
                } else {
                    assert(queue.contains(at));
                    let h = choose|h: u64| #[trigger] was.contains_key(h) && at == place(was[h], h);
                    assert(h != hash);
                    assert(now.contains_key(h));
                }
            }
            assert forall|h: u64| #[trigger] now.contains_key(h) implies self.expiry_queue@.contains(
                place(now[h], h),
            ) by {
                if h != hash {
                    assert(was.contains_key(h));
                    if known is Some {
                        lemma_place(was[h], h, was[hash], hash);
                    }
                }
            }
        }
        known.is_none()
    }
}

/// A request of a producer.
pub struct RequestKey {
    pub publisher_id: u64,
    pub request_id: String,
}

impl TableKey for RequestKey {
    type Key = (u64, Seq<char>);

    open spec fn key(&self) -> (u64, Seq<char>) {
        (self.publisher_id, self.request_id@)
    }

    fn same_key(&self, other: &Self) -> (same: bool) {
        self.publisher_id == other.publisher_id && self.request_id == other.request_id
    }
}

/// A request that has started and not ended.
struct PendingRequest {
    domain: KvCacheSolDomain,
    prompt_tokens: u64,
    hit_tokens: u64,
    expires_at_ms: u64,
}

/// What is kept of a request until it ends.
pub ghost struct Pending {
    pub domain: Domain,
    pub prompt_tokens: u64,
    pub hit_tokens: u64,
    pub expires_at: u64,
}

impl PendingRequest {
    spec fn pending(&self) -> Pending {
        Pending {
            domain: self.domain.key(),
            prompt_tokens: self.prompt_tokens,
            hit_tokens: self.hit_tokens,
            expires_at: self.expires_at_ms,
        }
    }
}

/// The bounds of the estimator.
pub ghost struct SolLimits {
    pub horizon_ms: u64,
    pub max_cache_blocks: nat,
    pub max_pending_requests: nat,
}

/// The state of the estimator.
pub ghost struct SolState {
    pub watermark: u64,
    /// When each retained hash of each domain expires.
    pub retained: Map<(Domain, u64), u64>,
    /// The domains that are looked after.
    pub domains: Set<Domain>,
    pub pending: Map<(u64, Seq<char>), Pending>,
    pub degraded_until: u64,
}

pub open spec fn later(a: u64, b: u64) -> u64 {
    if a >= b {
        a
    } else {
        b
    }
}

/// `a + b`, or the largest number if that does not fit.
pub open spec fn capped_sum(a: u64, b: u64) -> u64 {
    if a + b <= u64::MAX {
        (a + b) as u64
    } else {
        u64::MAX
    }
}

/// The state when time has come to `now`: what has expired is gone.
pub open spec fn advanced(state: SolState, now: u64) -> SolState {
    let watermark = later(state.watermark, now);
    let retained = Map::new(
        |at: (Domain, u64)| state.retained.contains_key(at) && state.retained[at] > watermark,
        |at: (Domain, u64)| state.retained[at],
    );
    SolState {
        watermark,
        retained,
        domains: Set::new(
            |domain: Domain|
                state.domains.contains(domain) && exists|hash: u64| #[trigger]
                    retained.contains_key((domain, hash)),
        ),
        pending: Map::new(
            |key: (u64, Seq<char>)|
                state.pending.contains_key(key) && state.pending[key].expires_at > watermark,
            |key: (u64, Seq<char>)| state.pending[key],
        ),
        degraded_until: state.degraded_until,
    }
}

/// How many of the leading hashes are retained.
pub open spec fn leading_hits(
    retained: Map<(Domain, u64), u64>,
    domain: Domain,
    hashes: Seq<u64>,
) -> nat
    decreases hashes.len(),
{
    if hashes.len() > 0 && retained.contains_key((domain, hashes.first())) {
        1 + leading_hits(retained, domain, hashes.skip(1))
    } else {
        0
    }
}

/// The prompt tokens that the leading hits cover.
pub open spec fn hit_tokens(hits: nat, block_size: u32, prompt_tokens: u64) -> u64 {
    if hits * block_size <= prompt_tokens {
        (hits * block_size) as u64
    } else {
        prompt_tokens
    }
}

/// The retained hashes while a sequence of hashes is taken in.
pub ghost struct Memory {
    pub retained: Map<(Domain, u64), u64>,
    /// A hash found no room; it and all after it were left out.
    pub full: bool,
}

/// Takes hashes in, in order, until one finds no room. A hash that is retained
/// already needs none.
pub open spec fn remembered(
    retained: Map<(Domain, u64), u64>,
    domain: Domain,
    hashes: Seq<u64>,
    expires_at: u64,
    room: nat,
) -> Memory
    decreases hashes.len(),
{
    if hashes.len() == 0 {
        Memory { retained, full: false }
    } else {
        let before = remembered(retained, domain, hashes.drop_last(), expires_at, room);
        let at = (domain, hashes.last());
        if before.full {
            before
        } else if !before.retained.contains_key(at) && before.retained.dom().len() >= room {
            Memory { full: true, ..before }
        } else if before.retained.contains_key(at) && before.retained[at] >= expires_at {
            before
        } else {
            Memory { retained: before.retained.insert(at, expires_at), full: false }
        }
    }
}

/// The state after hashes of a domain were taken in, if they outlive the
/// watermark at all.
pub open spec fn with_hashes(
    limits: SolLimits,
    state: SolState,
    domain: Domain,
    hashes: Seq<u64>,
    expires_at: u64,
) -> SolState {
    let known = SolState { domains: state.domains.insert(domain), ..state };
    if expires_at > state.watermark {
        let memory = remembered(
            state.retained,
            domain,
            hashes,
            expires_at,
            limits.max_cache_blocks,
        );
        SolState {
            retained: memory.retained,
            degraded_until: if memory.full {
                later(state.degraded_until, expires_at)
            } else {
                state.degraded_until
            },
            ..known
        }
    } else {
        known
    }
}

/// The state after a request started. `state` has been advanced to its time.
pub open spec fn started(
    limits: SolLimits,
    state: SolState,
    key: (u64, Seq<char>),
    domain: Domain,
    hashes: Seq<u64>,
    prompt_tokens: u64,
    expires_at: u64,
) -> SolState {
    let hits = hit_tokens(
        leading_hits(state.retained, domain, hashes),
        domain.block_size,
        prompt_tokens,
    );
    let after = with_hashes(limits, state, domain, hashes, expires_at);
    if expires_at <= state.watermark {
        after
    } else if state.pending.dom().len() >= limits.max_pending_requests {
        SolState { degraded_until: later(after.degraded_until, expires_at), ..after }
    } else {
        SolState {
            pending: state.pending.insert(
                key,
                Pending { domain, prompt_tokens, hit_tokens: hits, expires_at },
            ),
            ..after
        }
    }
}

/// The state after a request ended. `state` has been advanced to its time.
pub open spec fn ended(
    limits: SolLimits,
    state: SolState,
    key: (u64, Seq<char>),
    domain: Domain,
    hashes: Seq<u64>,
    expires_at: u64,
) -> SolState {
    let after = with_hashes(limits, state, domain, hashes, expires_at);
    SolState {
        pending: state.pending.remove(key),
        degraded_until: if !state.pending.contains_key(key) && expires_at > state.watermark {
            later(after.degraded_until, expires_at)
        } else {
            after.degraded_until
        },
        ..after
    }
}

/// The state after an event of a producer.
pub open spec fn applied(
    limits: SolLimits,
    state: SolState,
    publisher_id: u64,
    event: KvCacheSolEvent,
) -> SolState {
    let current = advanced(state, event.occurred_at_ms);
    let expires_at = capped_sum(event.occurred_at_ms, limits.horizon_ms);
    let key = (publisher_id, event.request_id@);
    match event.kind {
        KvCacheSolEventKind::RequestStart { prompt_sequence_hashes, prompt_tokens } => started(
            limits,
            current,
            key,
            event.domain.key(),
            prompt_sequence_hashes@,
            prompt_tokens,
            expires_at,
        ),
        KvCacheSolEventKind::RequestEnd { continuation_sequence_hashes, .. } => ended(
            limits,
            current,
            key,
            event.domain.key(),
            crate::choice_map::joined(continuation_sequence_hashes@),
            expires_at,
        ),
    }
}

/// What an event says about a request.
#[derive(Debug)]
#[allow(inconsistent_fields)]
pub enum SolObservation {
    Start { domain: KvCacheSolDomain, prompt_tokens: u64, hit_tokens: u64 },
    End {
        domain: KvCacheSolDomain,
        prompt_tokens: Option<u64>,
        comparable_hit_tokens: Option<u64>,
        observed_cached_tokens: Option<u64>,
    },
}

/// `observation` is what `event` says about its request.
pub open spec fn observes(
    state: SolState,
    publisher_id: u64,
    event: KvCacheSolEvent,
    observation: SolObservation,
) -> bool {
    let current = advanced(state, event.occurred_at_ms);
    let key = (publisher_id, event.request_id@);
    match event.kind {
        KvCacheSolEventKind::RequestStart { prompt_sequence_hashes, prompt_tokens } => {
            &&& observation is Start
            &&& observation->Start_domain.key() == event.domain.key()
            &&& observation->Start_prompt_tokens == prompt_tokens
            &&& observation->hit_tokens == hit_tokens(
                leading_hits(current.retained, event.domain.key(), prompt_sequence_hashes@),
                event.domain.block_size,
                prompt_tokens,
            )
        },
        KvCacheSolEventKind::RequestEnd { observed_cached_tokens, .. } => {
            &&& observation is End
            &&& observation->observed_cached_tokens == observed_cached_tokens
            &&& if current.pending.contains_key(key) {
                let pending = current.pending[key];
                &&& observation->End_domain.key() == pending.domain
                &&& observation->End_prompt_tokens == Some(pending.prompt_tokens)
                &&& observation->comparable_hit_tokens == Some(pending.hit_tokens)
            } else {
                &&& observation->End_domain.key() == event.domain.key()
                &&& observation->End_prompt_tokens is None
                &&& observation->comparable_hit_tokens is None
            }
        },
    }
}

/// The retained hashes of all domains together.
spec fn retained_in(caches: Map<Domain, DomainCache>) -> Map<(Domain, u64), u64> {
    Map::new(
        |at: (Domain, u64)| caches.contains_key(at.0) && caches[at.0]@.contains_key(at.1),
        |at: (Domain, u64)| caches[at.0]@[at.1],
    )
}

/// A further domain adds its hashes.
proof fn lemma_domain_added(caches: Map<Domain, DomainCache>, domain: Domain, cache: DomainCache)
    requires
        !caches.contains_key(domain),
        retained_in(caches).dom().finite(),
        cache@.dom().finite(),
    ensures
        retained_in(caches.insert(domain, cache)).dom().finite(),
        retained_in(caches.insert(domain, cache)).dom().len() == retained_in(caches).dom().len()
            + cache@.dom().len(),
{
    let others = retained_in(caches).dom();
    let pair = |hash: u64| (domain, hash);
    let own = cache@.dom().map(pair);
    let all = retained_in(caches.insert(domain, cache)).dom();
    vstd::set_lib::lemma_map_size(cache@.dom(), own, pair);
    assert(all =~= others + own) by {
        assert forall|at: (Domain, u64)| all.contains(at) implies (others + own).contains(at) by {
            if at.0 == domain {
                assert(cache@.dom().contains(at.1) && pair(at.1) == at);
            }
        }
    }
    assert(others.disjoint(own));
    vstd::set_lib::lemma_set_disjoint_lens(others, own);
}

/// The pending requests as plain values.
spec fn pending_in(pending: Map<(u64, Seq<char>), PendingRequest>) -> Map<
    (u64, Seq<char>),
    Pending,
> {
    Map::new(
        |key: (u64, Seq<char>)| pending.contains_key(key),
        |key: (u64, Seq<char>)| pending[key].pending(),
    )
}

fn later_of(a: u64, b: u64) -> (c: u64)
    ensures
        c == later(a, b),
{
    if a >= b {
        a
    } else {
        b
    }
}

pub(crate) fn capped_add(a: u64, b: u64) -> (c: u64)
    ensures
        c == capped_sum(a, b),
{
    if b <= u64::MAX - a {
        a + b
    } else {
        u64::MAX
    }
}

/// The estimator's model of the cache.
pub struct KvCacheSolCore {
    horizon_ms: u64,
    max_cache_blocks: usize,
    max_pending_requests: usize,
    watermark_ms: u64,
    caches: KeyedTable<KvCacheSolDomain, DomainCache>,
    pending: KeyedTable<RequestKey, PendingRequest>,
    cache_blocks: usize,
    degraded_until_ms: u64,
}

impl KvCacheSolCore {
    pub closed spec fn limits(&self) -> SolLimits {
        SolLimits {
            horizon_ms: self.horizon_ms,
            max_cache_blocks: self.max_cache_blocks as nat,
            max_pending_requests: self.max_pending_requests as nat,
        }
    }

    pub closed spec fn state(&self) -> SolState {
        SolState {
            watermark: self.watermark_ms,
            retained: retained_in(self.caches@),
            domains: self.caches@.dom(),
            pending: pending_in(self.pending@),
            degraded_until: self.degraded_until_ms,
        }
    }

    /// The capacity is never exceeded, and the count of blocks is exact.
    pub closed spec fn wf(&self) -> bool {
        &&& self.caches.wf()
        &&& self.pending.wf()
        &&& forall|domain: Domain| #[trigger]
            self.caches@.contains_key(domain) ==> self.caches@[domain].wf()
        &&& self.state().retained.dom().finite()
        &&& self.cache_blocks == self.state().retained.dom().len()
        &&& self.cache_blocks <= self.max_cache_blocks
        &&& self.pending@.dom().finite()
        &&& self.pending@.dom().len() <= self.max_pending_requests
    }

    pub fn new(horizon_ms: u64, max_cache_blocks: usize, max_pending_requests: usize) -> (s: Self)
        ensures
            s.wf(),
            s.limits() == (SolLimits {
                horizon_ms,
                max_cache_blocks: max_cache_blocks as nat,
                max_pending_requests: max_pending_requests as nat,
            }),
            s.state() == (SolState {
                watermark: 0,
                retained: Map::empty(),
                domains: Set::empty(),
                pending: Map::empty(),
                degraded_until: 0,
            }),
    {
        let s = KvCacheSolCore {
            horizon_ms,
            max_cache_blocks,
            max_pending_requests,
            watermark_ms: 0,
            caches: KeyedTable::new(),
            pending: KeyedTable::new(),
            cache_blocks: 0,
            degraded_until_ms: 0,
        };
        proof {
            assert(s.state().retained =~= Map::empty());
            assert(s.state().retained.dom() =~= Set::empty());
            assert(s.state().pending =~= Map::empty());
            assert(s.state().domains =~= Set::empty());
        }
        s
    }

    /// Forgets the hashes that have expired, and the domains that hold none.
    fn prune_caches(&mut self)
        requires
            old(self).wf(),
        ensures
            final(self).wf(),
            final(self).limits() == old(self).limits(),
            final(self).pending == old(self).pending,
            final(self).watermark_ms == old(self).watermark_ms,
            final(self).degraded_until_ms == old(self).degraded_until_ms,
            final(self).state().retained == advanced(
                old(self).state(),
                old(self).watermark_ms,
            ).retained,
            final(self).state().domains == advanced(
                old(self).state(),
                old(self).watermark_ms,
            ).domains,
    {
        let ghost all = self.caches.entries@;
        let ghost map = self.caches@;
        let ghost was = retained_in(map);
        let ghost held = self.cache_blocks;
        let watermark: u64 = self.watermark_ms;
        let mut entries: Vec<(KvCacheSolDomain, DomainCache)> = Vec::new();
        std::mem::swap(&mut self.caches.entries, &mut entries);
        let mut kept: Vec<(KvCacheSolDomain, DomainCache)> = Vec::new();
        let mut blocks: usize = 0;
        proof {
            assert(crate::keyed_table::map_of(kept@) =~= Map::<Domain, DomainCache>::empty());
            assert(retained_in(crate::keyed_table::map_of(kept@)).dom() =~= Set::empty());
        }
        for entry in it: entries
            invariant
                it.seq() == all,
                map == crate::keyed_table::map_of(all),
                crate::keyed_table::distinct_keys(all),
                forall|domain: Domain| #[trigger] map.contains_key(domain) ==> map[domain].wf(),
                was == retained_in(map),
                was.dom().finite(),
                was.dom().len() == held,
                held <= usize::MAX,
                crate::keyed_table::distinct_keys(kept@),
                ({
                    let now = crate::keyed_table::map_of(kept@);
                    &&& retained_in(now).dom().finite()
                    &&& blocks == retained_in(now).dom().len()
                    &&& forall|domain: Domain| #[trigger]
                        now.contains_key(domain) ==> {
                            &&& map.contains_key(domain)
                            &&& now[domain].wf()
                            &&& now[domain]@ == outliving(map[domain]@, watermark)
                            &&& exists|hash: u64| #[trigger] now[domain]@.contains_key(hash)
                            &&& exists|i: int|
                                0 <= i < it.index() && (#[trigger] all[i]).0.key() == domain
                        }
                    &&& forall|i: int, hash: u64|
                        0 <= i < it.index() && #[trigger] outliving(
                            all[i].1@,
                            watermark,
                        ).contains_key(hash) ==> now.contains_key(all[i].0.key())
                }),
        {
            let ghost at = it.index();
            let ghost before = crate::keyed_table::map_of(kept@);
            let ghost before_entries = kept@;
            proof {
                assert(entry == all[at]);
                crate::keyed_table::lemma_entry(all, at);
            }
            let (domain, mut cache) = entry;
            cache.prune(watermark);
            let size: usize = cache.len();
            proof {
                if before.contains_key(domain.key()) {
                    let i = choose|i: int|
                        0 <= i < at && (#[trigger] all[i]).0.key() == domain.key();
                    assert(all[i].0.key() != all[at].0.key());
                }
            }
            if size > 0 {
                let ghost entry = (domain, cache);
                proof {
                    let key = domain.key();
                    let next = before.insert(key, cache);
                    crate::keyed_table::lemma_push(before_entries, entry);
                    lemma_domain_added(before, key, cache);
                    assert(retained_in(next).dom().subset_of(was.dom())) by {
                        assert forall|p: (Domain, u64)| retained_in(next).dom().contains(
                            p,
                        ) implies was.dom().contains(p) by {
                            if p.0 == key {
                                assert(map[key] == all[at].1);
                            } else {
                                assert(before.contains_key(p.0));
                            }
                        }
                    }
                    vstd::set_lib::lemma_len_subset(retained_in(next).dom(), was.dom());
                    assert(exists|hash: u64| #[trigger] cache@.contains_key(hash)) by {
                        if forall|hash: u64| !cache@.contains_key(hash) {
                            assert(cache@.dom() =~= Set::empty());
                        }
                    }
                    assert(all[at].0.key() == key);
                }
                blocks = blocks + size;
                kept.push((domain, cache));
                proof {
                    let now = crate::keyed_table::map_of(kept@);
                    assert forall|i: int, hash: u64|
                        0 <= i < at + 1 && #[trigger] outliving(
                            all[i].1@,
                            watermark,
                        ).contains_key(hash) implies now.contains_key(all[i].0.key()) by {}
                }
            } else {
                proof {
                    assert forall|i: int, hash: u64|
                        0 <= i < at + 1 && #[trigger] outliving(
                            all[i].1@,
                            watermark,
                        ).contains_key(hash) implies before.contains_key(all[i].0.key()) by {
                        if i == at {
                            assert(cache@.dom().contains(hash));
                            assert(cache@.dom().len() > 0) by {
                                if cache@.dom().len() == 0 {
                                    assert(cache@.dom() =~= Set::empty());
                                }
                            }
                        }
                    }
                    assert forall|domain: Domain| #[trigger] before.contains_key(
                        domain,
                    ) implies exists|i: int|
                        0 <= i < at + 1 && (#[trigger] all[i]).0.key() == domain by {
                        let i = choose|i: int|
                            0 <= i < at && (#[trigger] all[i]).0.key() == domain;
                        assert(all[i].0.key() == domain);
                    }
                }
            }
        }
        self.caches.entries = kept;
        self.cache_blocks = blocks;
        proof {
            let now = self.caches@;
            let target = advanced(old(self).state(), watermark);
            assert(target.watermark == watermark);
            assert forall|p: (Domain, u64)| #[trigger] retained_in(now).contains_key(
                p,
            ) == target.retained.contains_key(p) by {
                if target.retained.contains_key(p) {
                    let i = choose|i: int| crate::keyed_table::entry_at(all, p.0, i);
                    crate::keyed_table::lemma_entry(all, i);
                    assert(outliving(all[i].1@, watermark).contains_key(p.1));
                    assert(now.contains_key(all[i].0.key()));
                }
            }
            assert(retained_in(now) =~= target.retained);
            assert(now.dom() =~= target.domains) by {
                assert forall|domain: Domain| now.dom().contains(domain)
                    == target.domains.contains(domain) by {
                    if now.dom().contains(domain) {
                        let hash = choose|hash: u64| #[trigger] now[domain]@.contains_key(hash);
                        assert(target.retained.contains_key((domain, hash)));
                    }
                    if target.domains.contains(domain) {
                        let hash = choose|hash: u64| #[trigger]
                            target.retained.contains_key((domain, hash));
                        assert(retained_in(now).contains_key((domain, hash)));
                    }
                }
            }
            vstd::set_lib::lemma_len_subset(retained_in(now).dom(), was.dom());
        }
    }

    /// Forgets the pending requests that have expired.
    fn prune_pending(&mut self)
        requires
            old(self).wf(),
        ensures
            final(self).wf(),
            final(self).limits() == old(self).limits(),
            final(self).caches == old(self).caches,
            final(self).watermark_ms == old(self).watermark_ms,
            final(self).degraded_until_ms == old(self).degraded_until_ms,
            final(self).state().pending == advanced(
                old(self).state(),
                old(self).watermark_ms,
            ).pending,
    {
        let ghost all = self.pending.entries@;
        let ghost map = self.pending@;
        let watermark: u64 = self.watermark_ms;
        let mut entries: Vec<(RequestKey, PendingRequest)> = Vec::new();
        std::mem::swap(&mut self.pending.entries, &mut entries);
        let mut kept: Vec<(RequestKey, PendingRequest)> = Vec::new();
        for entry in it: entries
            invariant
                it.seq() == all,
                map == crate::keyed_table::map_of(all),
                crate::keyed_table::distinct_keys(all),
                crate::keyed_table::distinct_keys(kept@),
                ({
                    let now = crate::keyed_table::map_of(kept@);
                    &&& forall|key: (u64, Seq<char>)| #[trigger]
                        now.contains_key(key) ==> {
                            &&& map.contains_key(key)
                            &&& now[key] == map[key]
                            &&& map[key].expires_at_ms > watermark
                            &&& exists|i: int|
                                0 <= i < it.index() && (#[trigger] all[i]).0.key() == key
                        }
                    &&& forall|i: int|
                        0 <= i < it.index() && (#[trigger] all[i]).1.expires_at_ms > watermark
                            ==> now.contains_key(all[i].0.key())
                }),
        {
            let ghost at = it.index();
            let ghost before = crate::keyed_table::map_of(kept@);
            proof {
                assert(entry == all[at]);
                crate::keyed_table::lemma_entry(all, at);
                if before.contains_key(entry.0.key()) {
                    let i = choose|i: int|
                        0 <= i < at && (#[trigger] all[i]).0.key() == entry.0.key();
                    assert(all[i].0.key() != all[at].0.key());
                }
                assert forall|key: (u64, Seq<char>)| #[trigger] before.contains_key(
                    key,
                ) implies exists|i: int| 0 <= i < at + 1 && (#[trigger] all[i]).0.key() == key by {
                    let i = choose|i: int| 0 <= i < at && (#[trigger] all[i]).0.key() == key;
                    assert(all[i].0.key() == key);
                }
            }
            if entry.1.expires_at_ms > watermark {
                proof {
                    crate::keyed_table::lemma_push(kept@, entry);
                    assert(all[at].0.key() == entry.0.key());
                }
                kept.push(entry);
            }
        }
        self.pending.entries = kept;
        proof {
            let now = self.pending@;
            let target = advanced(old(self).state(), watermark).pending;
            assert forall|key: (u64, Seq<char>)| #[trigger] now.contains_key(key)
                == target.contains_key(key) by {
                if target.contains_key(key) {
                    let i = choose|i: int| crate::keyed_table::entry_at(all, key, i);
                    crate::keyed_table::lemma_entry(all, i);
                    assert(now.contains_key(all[i].0.key()));
                }
            }
            assert(pending_in(now) =~= target);
            assert(now.dom().subset_of(map.dom()));
            vstd::set_lib::lemma_len_subset(now.dom(), map.dom());
        }
    }

    /// Moves the watermark up to `occurred_at_ms` and forgets what has expired.
    pub fn advance_to(&mut self, occurred_at_ms: u64)
        requires
            old(self).wf(),
        ensures
            final(self).wf(),
            final(self).limits() == old(self).limits(),
            final(self).state() == advanced(old(self).state(), occurred_at_ms),
    {
        self.watermark_ms = later_of(self.watermark_ms, occurred_at_ms);
        let ghost moved = self.state();
        self.prune_caches();
        self.prune_pending();
        proof {
            let target = advanced(old(self).state(), occurred_at_ms);
            assert(advanced(moved, moved.watermark).retained =~= target.retained);
            assert(advanced(moved, moved.watermark).domains =~= target.domains);
            assert(advanced(moved, moved.watermark).pending =~= target.pending);
        }
    }
}

/// Once a hash found no room, nothing more is taken in.
proof fn lemma_full_stays(
    retained: Map<(Domain, u64), u64>,
    domain: Domain,
    hashes: Seq<u64>,
    expires_at: u64,
    room: nat,
    n: int,
)
    requires
        0 <= n <= hashes.len(),
        remembered(retained, domain, hashes.take(n), expires_at, room).full,
    ensures
        remembered(retained, domain, hashes, expires_at, room) == remembered(
            retained,
            domain,
            hashes.take(n),
            expires_at,
            room,
        ),
    decreases hashes.len() - n,
{
    if n == hashes.len() {
        assert(hashes.take(n) =~= hashes);
    } else {
        assert(hashes.take(n + 1).drop_last() =~= hashes.take(n));
        lemma_full_stays(retained, domain, hashes, expires_at, room, n + 1);
    }
}

impl KvCacheSolCore {
    /// How many of the leading hashes are retained in a domain.
    fn hits(&self, domain: &KvCacheSolDomain, hashes: &Vec<u64>) -> (n: usize)
        requires
            self.wf(),
        ensures
            n == leading_hits(self.state().retained, domain.key(), hashes@),
    {
        let ghost retained = self.state().retained;
        let ghost key = domain.key();
        assert(hashes@.skip(0) =~= hashes@);
        let cache: &DomainCache = match self.caches.get(domain) {
            Some(cache) => cache,
            None => {
                return 0;
            },
        };
        let mut n: usize = 0;
        while n < hashes.len() && cache.expiry(hashes[n]).is_some()
            invariant
                n <= hashes@.len(),
                self.caches@.contains_key(key),
                *cache == self.caches@[key],
                retained == retained_in(self.caches@),
                leading_hits(retained, key, hashes@) == n + leading_hits(
                    retained,
                    key,
                    hashes@.skip(n as int),
                ),
            decreases hashes@.len() - n,
        {
            assert(hashes@.skip(n as int).skip(1) =~= hashes@.skip(n + 1));
            assert(retained.contains_key((key, hashes@[n as int])));
            n = n + 1;
        }
        n
    }

    /// Takes hashes of a domain in, as far as there is room.
    fn take_in(&mut self, domain: &KvCacheSolDomain, hashes: &Vec<u64>, expires_at: u64)
        requires
            old(self).wf(),
        ensures
            final(self).wf(),
            final(self).limits() == old(self).limits(),
            final(self).pending == old(self).pending,
            final(self).watermark_ms == old(self).watermark_ms,
            final(self).state() == with_hashes(
                old(self).limits(),
                old(self).state(),
                domain.key(),
                hashes@,
                expires_at,
            ),
    {
        let ghost key = domain.key();
        let ghost was = self.caches@;
        let ghost start = retained_in(was);
        let ghost room = self.max_cache_blocks as nat;
        let mut cache: DomainCache = match self.caches.remove(domain) {
            Some(cache) => cache,
            None => DomainCache::new(),
        };
        let ghost rest = self.caches@;
        let mut blocks: usize = self.cache_blocks;
        let mut full: bool = false;
        proof {
            assert(rest =~= was.remove(key));
            assert(retained_in(rest.insert(key, cache)) =~= start);
            assert(hashes@.take(0) =~= Seq::<u64>::empty());
        }
        if expires_at > self.watermark_ms {
            let mut i: usize = 0;
            while i < hashes.len() && !full
                invariant
                    i <= hashes@.len(),
                    cache.wf(),
                    !rest.contains_key(key),
                    room == self.max_cache_blocks,
                    start == retained_in(was),
                    remembered(start, key, hashes@.take(i as int), expires_at, room) == (Memory {
                        retained: retained_in(rest.insert(key, cache)),
                        full,
                    }),
                    retained_in(rest.insert(key, cache)).dom().finite(),
                    blocks == retained_in(rest.insert(key, cache)).dom().len(),
                    blocks <= room,
                    self.caches@ == rest,
                    self.caches.wf(),
                    self.pending == old(self).pending,
                    self.watermark_ms == old(self).watermark_ms,
                    self.limits() == old(self).limits(),
                    self.degraded_until_ms == (if full {
                        later(old(self).degraded_until_ms, expires_at)
                    } else {
                        old(self).degraded_until_ms
                    }),
                decreases hashes@.len() - i,
            {
                let hash: u64 = hashes[i];
                let ghost before = retained_in(rest.insert(key, cache));
                let ghost at = (key, hash);
                assert(hashes@.take(i + 1).drop_last() =~= hashes@.take(i as int));
                assert(before.contains_key(at) == cache@.contains_key(hash));
                if cache.expiry(hash).is_none() && blocks >= self.max_cache_blocks {
                    self.degraded_until_ms = later_of(self.degraded_until_ms, expires_at);
                    full = true;
                } else {
                    let ghost held = cache@;
                    if cache.insert(hash, expires_at) {
                        blocks = blocks + 1;
                    }
                    proof {
                        let after = retained_in(rest.insert(key, cache));
                        if held.contains_key(hash) && held[hash] >= expires_at {
                            assert(after =~= before);
                        } else {
                            assert(after =~= before.insert(at, expires_at));
                            assert(after.dom() =~= before.dom().insert(at));
                        }
                    }
                }
                i = i + 1;
            }
            proof {
                if full {
                    lemma_full_stays(start, key, hashes@, expires_at, room, i as int);
                } else {
                    assert(hashes@.take(hashes@.len() as int) =~= hashes@);
                }
            }
        }
        self.caches.insert(domain.copied(), cache);
        self.cache_blocks = blocks;
        proof {
            assert(self.caches@ =~= rest.insert(key, cache));
            assert(self.caches@.dom() =~= was.dom().insert(key));
            let target = with_hashes(
                old(self).limits(),
                old(self).state(),
                key,
                hashes@,
                expires_at,
            );
            assert(self.state().retained == target.retained);
            assert(self.state().domains =~= target.domains);
            assert(self.state() == target);
        }
    }

    /// Takes in an event of a producer, and says what it tells of its request.
    pub fn apply(&mut self, publisher_id: u64, event: KvCacheSolEvent) -> (observation:
        SolObservation)
        requires
            old(self).wf(),
        ensures
            final(self).wf(),
            final(self).limits() == old(self).limits(),
            final(self).state() == applied(old(self).limits(), old(self).state(), publisher_id, event),
            observes(old(self).state(), publisher_id, event, observation),
    {
        let ghost target = applied(self.limits(), self.state(), publisher_id, event);
        self.advance_to(event.occurred_at_ms);
        let ghost current = self.state();
        let expires_at: u64 = capped_add(event.occurred_at_ms, self.horizon_ms);
        let KvCacheSolEvent { request_id, domain, kind, .. } = event;
        let key = RequestKey { publisher_id, request_id };
        match kind {
            KvCacheSolEventKind::RequestStart { prompt_sequence_hashes, prompt_tokens } => {
                let hit_blocks: usize = self.hits(&domain, &prompt_sequence_hashes);
                assert(hit_blocks * domain.block_size <= u64::MAX * u32::MAX) by (nonlinear_arith)
                    requires
                        0 <= hit_blocks <= u64::MAX,
                        0 <= domain.block_size <= u32::MAX,
                ;
                let covered: u128 = hit_blocks as u128 * domain.block_size as u128;
                let hit_tokens: u64 = if covered <= prompt_tokens as u128 {
                    covered as u64
                } else {
                    prompt_tokens
                };
                self.take_in(&domain, &prompt_sequence_hashes, expires_at);
                if expires_at > self.watermark_ms {
                    let ghost waiting = self.pending@;
                    proof {
                        assert(pending_in(waiting).dom() =~= waiting.dom());
                    }
                    if self.pending.len() >= self.max_pending_requests {
                        self.degraded_until_ms = later_of(self.degraded_until_ms, expires_at);
                    } else {
                        let pending = PendingRequest {
                            domain: domain.copied(),
                            prompt_tokens,
                            hit_tokens,
                            expires_at_ms: expires_at,
                        };
                        let ghost plain = pending.pending();
                        let ghost k = key.key();
                        self.pending.insert(key, pending);
                        assert(pending_in(self.pending@) =~= pending_in(waiting).insert(k, plain));
                    }
                }
                assert(self.state() == target);
                SolObservation::Start { domain, prompt_tokens, hit_tokens }
            },
            KvCacheSolEventKind::RequestEnd {
                continuation_sequence_hashes,
                observed_cached_tokens,
            } => {
                let hashes = crate::choice_map::join(&continuation_sequence_hashes);
                self.take_in(&domain, &hashes, expires_at);
                let ghost waiting = self.pending@;
                let pending = self.pending.remove(&key);
                if pending.is_none() && expires_at > self.watermark_ms {
                    self.degraded_until_ms = later_of(self.degraded_until_ms, expires_at);
                }
                proof {
                    assert(pending_in(self.pending@) =~= pending_in(waiting).remove(key.key()));
                    assert(self.state() == target);
                }
                match pending {
                    Some(pending) => SolObservation::End {
                        domain: pending.domain,
                        prompt_tokens: Some(pending.prompt_tokens),
                        comparable_hit_tokens: Some(pending.hit_tokens),
                        observed_cached_tokens,
                    },
                    None => SolObservation::End {
                        domain,
                        prompt_tokens: None,
                        comparable_hit_tokens: None,
                        observed_cached_tokens,
                    },
                }
            },
        }
    }

    /// How many hashes are retained, over all domains.
    pub fn cache_blocks(&self) -> (n: usize)
        requires
            self.wf(),
        ensures
            n == self.state().retained.dom().len(),
            n <= self.limits().max_cache_blocks,
    {
        self.cache_blocks
    }

    /// How many requests wait for their end.
    pub fn pending_requests(&self) -> (n: usize)
        requires
            self.wf(),
        ensures
            n == self.state().pending.dom().len(),
            n <= self.limits().max_pending_requests,
    {
        assert(self.state().pending.dom() =~= self.pending@.dom());
        self.pending.len()
    }

    /// How many domains are looked after.
    pub fn domain_count(&self) -> (n: usize)
        requires
            self.wf(),
        ensures
            n == self.state().domains.len(),
    {
        self.caches.len()
    }

    /// Whether a domain is looked after.
    pub fn holds_domain(&self, domain: &KvCacheSolDomain) -> (yes: bool)
        requires
            self.wf(),
        ensures
            yes == self.state().domains.contains(domain.key()),
    {
        self.caches.contains(domain)
    }

    /// Whether losses or limits make the estimate unreliable now.
    pub fn degraded(&self) -> (yes: bool)
        ensures
            yes == (self.state().watermark < self.state().degraded_until),
    {
        self.watermark_ms < self.degraded_until_ms
    }

    /// Notes a loss at `occurred_at_ms`: the estimate is unreliable for one
    /// horizon.
    pub fn mark_degraded_at(&mut self, occurred_at_ms: u64)
        requires
            old(self).wf(),
        ensures
            final(self).wf(),
            final(self).limits() == old(self).limits(),
            final(self).state() == marked(old(self).limits(), old(self).state(), occurred_at_ms),
    {
        self.watermark_ms = later_of(self.watermark_ms, occurred_at_ms);
        self.degraded_until_ms = later_of(
            self.degraded_until_ms,
            capped_add(occurred_at_ms, self.horizon_ms),
        );
    }

    pub fn horizon_ms(&self) -> (horizon: u64)
        ensures
            horizon == self.limits().horizon_ms,
    {
        self.horizon_ms
    }
}

/// The state after a loss at `occurred_at_ms`.
pub open spec fn marked(limits: SolLimits, state: SolState, occurred_at_ms: u64) -> SolState {
    SolState {
        watermark: later(state.watermark, occurred_at_ms),
        degraded_until: later(
            state.degraded_until,
            capped_sum(occurred_at_ms, limits.horizon_ms),
        ),
        ..state
    }
}

/// Why an event was not taken at face value.
#[derive(Debug, Clone, Copy, PartialEq, Eq, Structural)]
pub enum EstimatorLoss {
    DecodeError,
    InvalidDomain,
    SequenceGap,
}

impl EstimatorLoss {
    pub open spec fn label(self) -> Seq<char> {
        match self {
            EstimatorLoss::DecodeError => "decode_error"@,
            EstimatorLoss::InvalidDomain => "invalid_domain"@,
            EstimatorLoss::SequenceGap => "sequence_gap"@,
        }
    }

    /// The label under which losses of this kind are counted.
    pub fn as_label(self) -> (label: &'static str)
        ensures
            label@ == self.label(),
    {
        match self {
            EstimatorLoss::DecodeError => "decode_error",
            EstimatorLoss::InvalidDomain => "invalid_domain",
            EstimatorLoss::SequenceGap => "sequence_gap",
        }
    }
}

/// What the estimator shows of its state.
#[derive(Debug, Clone, Copy, PartialEq, Eq, Structural)]
pub struct SolGauges {
    pub cache_blocks: usize,
    pub pending_requests: usize,
    pub degraded: bool,
}

/// What an event adds to the counters of its domain.
#[derive(Debug)]
pub enum SolCounts {
    /// A request was evaluated.
    Evaluated { domain: KvCacheSolDomain, prompt_tokens: u64, hit_tokens: u64 },
    /// A request can be compared with what its backend observed.
    Compared {
        domain: KvCacheSolDomain,
        prompt_tokens: u64,
        hit_tokens: u64,
        cached_tokens: u64,
    },
    Nothing,
}

/// What came of an event.
#[derive(Debug)]
pub struct SolReport {
    pub loss: Option<EstimatorLoss>,
    /// The kind of the event, if it was taken in.
    pub event_type: Option<&'static str>,
    pub counts: SolCounts,
    pub gauges: SolGauges,
}

/// The last sequence number of each producer, and when it was sent.
pub type LastSequences = Map<u64, (u64, u64)>;

/// The producers heard of within one horizon before `now`.
pub open spec fn recently_heard(last: LastSequences, horizon_ms: u64, now: u64) -> LastSequences {
    Map::new(
        |id: u64| last.contains_key(id) && capped_sum(last[id].1, horizon_ms) > now,
        |id: u64| last[id],
    )
}

/// A sequence number other than the one that was to come.
pub open spec fn is_gap(last: LastSequences, publisher_id: u64, sequence: u64) -> bool {
    if last.contains_key(publisher_id) {
        sequence != capped_sum(last[publisher_id].0, 1)
    } else {
        sequence != 0
    }
}

/// What `observation` adds to the counters.
pub open spec fn counts_of(observation: SolObservation, counts: SolCounts) -> bool {
    match observation {
        SolObservation::Start { domain, prompt_tokens, hit_tokens } => {
            &&& counts is Evaluated
            &&& counts->Evaluated_domain.key() == domain.key()
            &&& counts->Evaluated_prompt_tokens == prompt_tokens
            &&& counts->Evaluated_hit_tokens == hit_tokens
        },
        SolObservation::End {
            domain,
            prompt_tokens,
            comparable_hit_tokens,
            observed_cached_tokens,
        } => if prompt_tokens is Some && comparable_hit_tokens is Some
            && observed_cached_tokens is Some {
            &&& counts is Compared
            &&& counts->Compared_domain.key() == domain.key()
            &&& counts->Compared_prompt_tokens == prompt_tokens->Some_0
            &&& counts->Compared_hit_tokens == comparable_hit_tokens->Some_0
            &&& counts->cached_tokens == (if observed_cached_tokens->Some_0
                <= prompt_tokens->Some_0 {
                observed_cached_tokens->Some_0
            } else {
                prompt_tokens->Some_0
            })
        } else {
            counts is Nothing
        },
    }
}

/// The gauges show `state`.
pub open spec fn gauges_of(state: SolState, gauges: SolGauges) -> bool {
    &&& gauges.cache_blocks == state.retained.dom().len()
    &&& gauges.pending_requests == state.pending.dom().len()
    &&& gauges.degraded == (state.watermark < state.degraded_until)
}

/// The estimator: its model of the cache, and how far it has heard from each
/// producer.
pub struct SolEstimator {
    core: KvCacheSolCore,
    last_sequence: IdMap<(u64, u64)>,
}

/// The core's state before an event is applied to it: a gap counts as a loss.
pub open spec fn before_event(
    limits: SolLimits,
    state: SolState,
    heard: LastSequences,
    publisher_id: u64,
    event: KvCacheSolEvent,
) -> SolState {
    if is_gap(heard, publisher_id, event.producer_sequence) {
        marked(limits, state, event.occurred_at_ms)
    } else {
        state
    }
}

impl SolEstimator {
    pub closed spec fn wf(&self) -> bool {
        self.core.wf()
    }

    pub closed spec fn limits(&self) -> SolLimits {
        self.core.limits()
    }

    pub closed spec fn state(&self) -> SolState {
        self.core.state()
    }

    pub closed spec fn heard(&self) -> LastSequences {
        self.last_sequence@
    }

    pub fn new(core: KvCacheSolCore) -> (s: Self)
        requires
            core.wf(),
        ensures
            s.wf(),
            s.limits() == core.limits(),
            s.state() == core.state(),
            s.heard() == LastSequences::empty(),
    {
        SolEstimator { core, last_sequence: IdMap::new() }
    }

    fn gauges(&self) -> (gauges: SolGauges)
        requires
            self.wf(),
        ensures
            gauges_of(self.state(), gauges),
    {
        SolGauges {
            cache_blocks: self.core.cache_blocks(),
            pending_requests: self.core.pending_requests(),
            degraded: self.core.degraded(),
        }
    }

    /// Forgets the producers that were not heard of within the horizon.
    fn forget_silent(&mut self, now_ms: u64)
        ensures
            final(self).core == old(self).core,
            final(self).heard() == recently_heard(
                old(self).heard(),
                old(self).limits().horizon_ms,
                now_ms,
            ),
    {
        let horizon: u64 = self.core.horizon_ms();
        let ghost before = self.last_sequence@;
        let ids: Vec<u64> = self.last_sequence.ids();
        let mut i: usize = 0;
        while i < ids.len()
            invariant
                i <= ids@.len(),
                ids@.no_duplicates(),
                ids@.to_set() == before.dom(),
                horizon == old(self).limits().horizon_ms,
                self.core == old(self).core,
                forall|id: u64| #[trigger]
                    self.last_sequence@.contains_key(id) ==> before.contains_key(id)
                        && self.last_sequence@[id] == before[id],
                forall|j: int|
                    0 <= j < ids@.len() ==> (self.last_sequence@.contains_key(#[trigger] ids@[j])
                        <==> j >= i || capped_sum(before[ids@[j]].1, horizon) > now_ms),
            decreases ids@.len() - i,
        {
            let id: u64 = ids[i];
            assert(ids@.to_set().contains(id));
            let known = self.last_sequence.get(id);
            if let Some(last) = known {
                let silent: bool = capped_add(last.1, horizon) <= now_ms;
                if silent {
                    self.last_sequence.remove(id);
                }
            }
            i = i + 1;
        }
        proof {
            let target = recently_heard(before, horizon, now_ms);
            assert forall|id: u64| self.last_sequence@.contains_key(id) == target.contains_key(
                id,
            ) by {
                if before.contains_key(id) {
                    assert(ids@.to_set().contains(id));
                    let j = choose|j: int| 0 <= j < ids@.len() && ids@[j] == id;
                    assert(ids@[j] == id);
                }
            }
            assert(self.last_sequence@ =~= target);
        }
    }

    /// Once a second: forgets what has expired by `now_ms`.
    pub fn tick(&mut self, now_ms: u64) -> (gauges: SolGauges)
        requires
            old(self).wf(),
        ensures
            final(self).wf(),
            final(self).limits() == old(self).limits(),
            final(self).state() == advanced(old(self).state(), now_ms),
            final(self).heard() == recently_heard(
                old(self).heard(),
                old(self).limits().horizon_ms,
                now_ms,
            ),
            gauges_of(final(self).state(), gauges),
    {
        self.core.advance_to(now_ms);
        self.forget_silent(now_ms);
        self.gauges()
    }

    /// An event could not be decoded.
    pub fn undecodable(&mut self, now_ms: u64) -> (report: SolReport)
        requires
            old(self).wf(),
        ensures
            final(self).wf(),
            final(self).limits() == old(self).limits(),
            final(self).state() == marked(old(self).limits(), old(self).state(), now_ms),
            final(self).heard() == old(self).heard(),
            report.loss == Some(EstimatorLoss::DecodeError),
            report.event_type is None,
            report.counts is Nothing,
            gauges_of(final(self).state(), report.gauges),
    {
        self.core.mark_degraded_at(now_ms);
        SolReport {
            loss: Some(EstimatorLoss::DecodeError),
            event_type: None,
            counts: SolCounts::Nothing,
            gauges: self.gauges(),
        }
    }

    /// Takes in an event of a producer.
    pub fn receive(&mut self, publisher_id: u64, event: KvCacheSolEvent) -> (report: SolReport)
        requires
            old(self).wf(),
        ensures
            final(self).wf(),
            final(self).limits() == old(self).limits(),
            gauges_of(final(self).state(), report.gauges),
            event.domain.block_size == 0 ==> {
                &&& report.loss == Some(EstimatorLoss::InvalidDomain)
                &&& report.event_type is None
                &&& report.counts is Nothing
                &&& final(self).heard() == old(self).heard()
                &&& final(self).state() == marked(
                    old(self).limits(),
                    old(self).state(),
                    event.occurred_at_ms,
                )
            },
            event.domain.block_size > 0 ==> {
                let heard = recently_heard(
                    old(self).heard(),
                    old(self).limits().horizon_ms,
                    event.occurred_at_ms,
                );
                let before = before_event(
                    old(self).limits(),
                    old(self).state(),
                    heard,
                    publisher_id,
                    event,
                );
                &&& report.loss == (if is_gap(heard, publisher_id, event.producer_sequence) {
                    Some(EstimatorLoss::SequenceGap)
                } else {
                    None
                })
                &&& report.event_type is Some
                &&& report.event_type->Some_0@ == event.kind.label()
                &&& final(self).heard() == heard.insert(
                    publisher_id,
                    (event.producer_sequence, event.occurred_at_ms),
                )
                &&& final(self).state() == applied(
                    old(self).limits(),
                    before,
                    publisher_id,
                    event,
                )
                &&& exists|observation: SolObservation| #[trigger]
                    observes(before, publisher_id, event, observation) && counts_of(
                        observation,
                        report.counts,
                    )
            },
            event.domain.block_size > 0 && event.kind is RequestEnd ==> {
                let start = old(self).state().pending[(publisher_id, event.request_id@)];
                let observed = event.kind->observed_cached_tokens;
                if old(self).state().pending.contains_key((publisher_id, event.request_id@))
                    && start.expires_at > old(self).state().watermark && start.expires_at
                    > event.occurred_at_ms && observed is Some {
                    &&& report.counts is Compared
                    &&& report.counts->Compared_domain.key() == start.domain
                    &&& report.counts->Compared_prompt_tokens == start.prompt_tokens
                    &&& report.counts->Compared_hit_tokens == start.hit_tokens
                    &&& report.counts->cached_tokens == (if observed->Some_0
                        <= start.prompt_tokens {
                        observed->Some_0
                    } else {
                        start.prompt_tokens
                    })
                } else {
                    report.counts is Nothing
                }
            },
    {
        if event.domain.block_size == 0 {
            self.core.mark_degraded_at(event.occurred_at_ms);
            return SolReport {
                loss: Some(EstimatorLoss::InvalidDomain),
                event_type: None,
                counts: SolCounts::Nothing,
                gauges: self.gauges(),
            };
        }
        self.forget_silent(event.occurred_at_ms);
        let previous = self.last_sequence.insert(
            publisher_id,
            (event.producer_sequence, event.occurred_at_ms),
        );
        let gap: bool = match previous {
            Some(last) => event.producer_sequence != capped_add(last.0, 1),
            None => event.producer_sequence != 0,
        };
        let mut loss: Option<EstimatorLoss> = None;
        if gap {
            loss = Some(EstimatorLoss::SequenceGap);
            self.core.mark_degraded_at(event.occurred_at_ms);
        }
        let event_type = Some(event.kind.event_type());
        let ghost before = self.core.state();
        let observation = self.core.apply(publisher_id, event);
        assert(observes(before, publisher_id, event, observation));
        let counts = match observation {
            SolObservation::Start { domain, prompt_tokens, hit_tokens } => SolCounts::Evaluated {
                domain,
                prompt_tokens,
                hit_tokens,
            },
            SolObservation::End {
                domain,
                prompt_tokens,
                comparable_hit_tokens,
                observed_cached_tokens,
            } => match (prompt_tokens, comparable_hit_tokens, observed_cached_tokens) {
                (Some(prompt), Some(hit), Some(observed)) => SolCounts::Compared {
                    domain,
                    prompt_tokens: prompt,
                    hit_tokens: hit,
                    cached_tokens: if observed <= prompt {
                        observed
                    } else {
                        prompt
                    },
                },
                _ => SolCounts::Nothing,
            },
        };
        proof {
            let heard = recently_heard(
                old(self).heard(),
                old(self).limits().horizon_ms,
                event.occurred_at_ms,
            );
            assert(gap == is_gap(heard, publisher_id, event.producer_sequence));
            assert(before == before_event(
                old(self).limits(),
                old(self).state(),
                heard,
                publisher_id,
                event,
            ));
            assert(self.heard() == heard.insert(publisher_id, (event.producer_sequence,
                event.occurred_at_ms)));
            assert(self.state() == applied(old(self).limits(), before, publisher_id, event));
            assert(event_type->Some_0@ == event.kind.label());
            assert(counts_of(observation, counts));
        }
        SolReport { loss, event_type, counts, gauges: self.gauges() }
    }
}

/// How long hashes are retained, if nothing else is asked for.
pub const DEFAULT_HORIZON_SECS: u64 = 3600;

pub const DEFAULT_MAX_CACHE_BLOCKS: usize = 5_000_000;

pub const DEFAULT_MAX_PENDING_REQUESTS: usize = 100_000;

/// Why an estimator cannot be started.
#[derive(Debug, Clone, Copy, PartialEq, Eq, Structural)]
pub enum EstimatorArgumentError {
    ZeroHorizon,
    ZeroCapacity,
}

impl EstimatorArgumentError {
    pub open spec fn text(self) -> Seq<char> {
        match self {
            EstimatorArgumentError::ZeroHorizon => "horizon_secs must be greater than zero"@,
            EstimatorArgumentError::ZeroCapacity => {
                "max_cache_blocks and max_pending_requests must be greater than zero"@
            },
        }
    }

    pub fn message(self) -> (text: &'static str)
        ensures
            text@ == self.text(),
    {
        match self {
            EstimatorArgumentError::ZeroHorizon => "horizon_secs must be greater than zero",
            EstimatorArgumentError::ZeroCapacity => {
                "max_cache_blocks and max_pending_requests must be greater than zero"
            },
        }
    }
}

/// Checks the arguments of an estimator.
pub fn check_estimator_arguments(
    horizon_secs: u64,
    max_cache_blocks: usize,
    max_pending_requests: usize,
) -> (checked: Result<(), EstimatorArgumentError>)
    ensures
        checked == (if horizon_secs == 0 {
            Err::<(), EstimatorArgumentError>(EstimatorArgumentError::ZeroHorizon)
        } else if max_cache_blocks == 0 || max_pending_requests == 0 {
            Err(EstimatorArgumentError::ZeroCapacity)
        } else {
            Ok(())
        }),
{
    if horizon_secs == 0 {
        return Err(EstimatorArgumentError::ZeroHorizon);
    }
    if max_cache_blocks == 0 || max_pending_requests == 0 {
        return Err(EstimatorArgumentError::ZeroCapacity);
    }
    Ok(())
}

} // verus!
