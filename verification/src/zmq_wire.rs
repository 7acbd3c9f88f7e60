//! Normalization of engine KV events: which events are kept, and which cache
//! namespace a stored block belongs to.

use crate::id_map::IdMap;
use crate::protocols::{StorageTier, WorkerWithDpRank};
use vstd::prelude::*;

verus! {

/// Who owns the transition that an event reports.
#[derive(Debug, Clone, Copy, PartialEq, Eq, Structural)]
pub enum KvEventOwnership {
    Framework,
    Kvcr,
    /// An ownership tag that this consumer does not know.
    Unknown,
}

#[derive(Debug, Clone, Copy, PartialEq, Eq, Structural)]
pub enum Locality {
    Local,
    Remote,
    Unknown,
}

/// The storage medium that an event names.
#[derive(Debug, Clone, Copy, PartialEq, Eq, Structural)]
pub enum KvMedium {
    Tier(StorageTier),
    /// A medium name that maps to no tier.
    Unrecognized,
}

/// What kind of cache group an event speaks of.
#[derive(Debug, Clone, Copy, PartialEq, Eq, Structural)]
pub enum KvCacheSpecKind {
    MainAttention,
    Other,
    Unknown,
}

/// What an event says besides the blocks it moves.
#[derive(Debug, Clone, Copy, PartialEq, Eq, Structural)]
pub struct KvCacheEventMetadata {
    pub ownership: KvEventOwnership,
    pub locality: Option<Locality>,
    pub group_idx: Option<u32>,
    pub kv_cache_spec_kind: Option<KvCacheSpecKind>,
    pub kv_cache_spec_sliding_window: Option<u32>,
}

/// One engine event, as far as normalization reads it.
#[allow(inconsistent_fields)]
#[derive(Debug, Clone)]
pub enum RawKvEvent {
    BlockStored {
        block_hashes: Vec<u64>,
        parent_block_hash: Option<u64>,
        cache_namespace: Option<String>,
        medium: Option<KvMedium>,
        metadata: KvCacheEventMetadata,
    },
    BlockRemoved {
        block_hashes: Vec<u64>,
        medium: Option<KvMedium>,
        metadata: KvCacheEventMetadata,
    },
    AllBlocksCleared { medium: Option<KvMedium>, metadata: KvCacheEventMetadata },
    TierBlocksCleared { medium: KvMedium, metadata: KvCacheEventMetadata },
    Ignored,
}

/// The metadata of an event that carries none.
pub open spec fn no_metadata() -> KvCacheEventMetadata {
    KvCacheEventMetadata {
        ownership: KvEventOwnership::Framework,
        locality: None,
        group_idx: None,
        kv_cache_spec_kind: None,
        kv_cache_spec_sliding_window: None,
    }
}

impl RawKvEvent {
    pub open spec fn spec_metadata(&self) -> KvCacheEventMetadata {
        match self {
            RawKvEvent::BlockStored { metadata, .. } => *metadata,
            RawKvEvent::BlockRemoved { metadata, .. } => *metadata,
            RawKvEvent::AllBlocksCleared { metadata, .. } => *metadata,
            RawKvEvent::TierBlocksCleared { metadata, .. } => *metadata,
            RawKvEvent::Ignored => no_metadata(),
        }
    }

    pub open spec fn spec_medium(&self) -> Option<KvMedium> {
        match self {
            RawKvEvent::BlockStored { medium, .. } => *medium,
            RawKvEvent::BlockRemoved { medium, .. } => *medium,
            RawKvEvent::AllBlocksCleared { medium, .. } => *medium,
            RawKvEvent::TierBlocksCleared { medium, .. } => Some(*medium),
            RawKvEvent::Ignored => None,
        }
    }

    pub fn metadata(&self) -> (m: KvCacheEventMetadata)
        ensures
            m == self.spec_metadata(),
    {
        match self {
            RawKvEvent::BlockStored { metadata, .. } => *metadata,
            RawKvEvent::BlockRemoved { metadata, .. } => *metadata,
            RawKvEvent::AllBlocksCleared { metadata, .. } => *metadata,
            RawKvEvent::TierBlocksCleared { metadata, .. } => *metadata,
            RawKvEvent::Ignored => KvCacheEventMetadata {
                ownership: KvEventOwnership::Framework,
                locality: None,
                group_idx: None,
                kv_cache_spec_kind: None,
                kv_cache_spec_sliding_window: None,
            },
        }
    }

    pub fn medium(&self) -> (m: Option<KvMedium>)
        ensures
            m == self.spec_medium(),
    {
        match self {
            RawKvEvent::BlockStored { medium, .. } => *medium,
            RawKvEvent::BlockRemoved { medium, .. } => *medium,
            RawKvEvent::AllBlocksCleared { medium, .. } => *medium,
            RawKvEvent::TierBlocksCleared { medium, .. } => Some(*medium),
            RawKvEvent::Ignored => None,
        }
    }
}

#[derive(Debug, Clone, Copy, PartialEq, Eq, Structural)]
pub enum ZmqEventFilterReason {
    IgnoredEvent,
    NonLocalLocality,
    UnknownMedium,
    AmbiguousScopedClear,
    UnsupportedOwnership,
    UnknownOwnership,
    AmbiguousCacheNamespace,
    NonMainAttentionKind,
    UnknownKind,
    NonMainAttentionGroup,
    UnlearnedGroupIdx,
}

impl ZmqEventFilterReason {
    pub fn as_label(self) -> (label: &'static str)
        ensures
            label@ == (match self {
                ZmqEventFilterReason::IgnoredEvent => "ignored_event"@,
                ZmqEventFilterReason::NonLocalLocality => "non_local_locality"@,
                ZmqEventFilterReason::UnknownMedium => "unknown_medium"@,
                ZmqEventFilterReason::AmbiguousScopedClear => "ambiguous_scoped_clear"@,
                ZmqEventFilterReason::UnsupportedOwnership => "unsupported_ownership"@,
                ZmqEventFilterReason::UnknownOwnership => "unknown_ownership"@,
                ZmqEventFilterReason::AmbiguousCacheNamespace => "ambiguous_cache_namespace"@,
                ZmqEventFilterReason::NonMainAttentionKind => "non_main_attention_kind"@,
                ZmqEventFilterReason::UnknownKind => "unknown_kind"@,
                ZmqEventFilterReason::NonMainAttentionGroup => "non_main_attention_group"@,
                ZmqEventFilterReason::UnlearnedGroupIdx => "unlearned_group_idx"@,
            }),
    {
        match self {
            ZmqEventFilterReason::IgnoredEvent => "ignored_event",
            ZmqEventFilterReason::NonLocalLocality => "non_local_locality",
            ZmqEventFilterReason::UnknownMedium => "unknown_medium",
            ZmqEventFilterReason::AmbiguousScopedClear => "ambiguous_scoped_clear",
            ZmqEventFilterReason::UnsupportedOwnership => "unsupported_ownership",
            ZmqEventFilterReason::UnknownOwnership => "unknown_ownership",
            ZmqEventFilterReason::AmbiguousCacheNamespace => "ambiguous_cache_namespace",
            ZmqEventFilterReason::NonMainAttentionKind => "non_main_attention_kind",
            ZmqEventFilterReason::UnknownKind => "unknown_kind",
            ZmqEventFilterReason::NonMainAttentionGroup => "non_main_attention_group",
            ZmqEventFilterReason::UnlearnedGroupIdx => "unlearned_group_idx",
        }
    }
}

/// A set of storage tiers.
#[derive(Debug, Clone, Copy, PartialEq, Eq, Structural)]
pub struct TierSet {
    pub device: bool,
    pub host_pinned: bool,
    pub disk: bool,
    pub external: bool,
}

impl TierSet {
    pub open spec fn none() -> TierSet {
        TierSet { device: false, host_pinned: false, disk: false, external: false }
    }

    pub open spec fn has(self, tier: StorageTier) -> bool {
        match tier {
            StorageTier::Device => self.device,
            StorageTier::HostPinned => self.host_pinned,
            StorageTier::Disk => self.disk,
            StorageTier::External => self.external,
        }
    }

    /// The set with the tier put in or taken out.
    pub open spec fn put(self, tier: StorageTier, present: bool) -> TierSet {
        match tier {
            StorageTier::Device => TierSet { device: present, ..self },
            StorageTier::HostPinned => TierSet { host_pinned: present, ..self },
            StorageTier::Disk => TierSet { disk: present, ..self },
            StorageTier::External => TierSet { external: present, ..self },
        }
    }

    fn set(self, tier: StorageTier, present: bool) -> (s: TierSet)
        ensures
            s == self.put(tier, present),
    {
        let mut s = self;
        match tier {
            StorageTier::Device => {
                s.device = present;
            },
            StorageTier::HostPinned => {
                s.host_pinned = present;
            },
            StorageTier::Disk => {
                s.disk = present;
            },
            StorageTier::External => {
                s.external = present;
            },
        }
        s
    }

    fn is_empty(self) -> (b: bool)
        ensures
            b == (self == TierSet::none()),
    {
        !self.device && !self.host_pinned && !self.disk && !self.external
    }
}

/// What is known of the namespace of a block hash.
#[derive(Debug, Clone, PartialEq, Eq)]
pub enum CacheNamespaceState {
    Namespaced(String),
    Ambiguous,
}

/// What a [`CacheNamespaceState`] says.
pub enum NamespaceView {
    Namespaced(Seq<char>),
    Ambiguous,
}

impl View for CacheNamespaceState {
    type V = NamespaceView;

    open spec fn view(&self) -> NamespaceView {
        match self {
            CacheNamespaceState::Namespaced(name) => NamespaceView::Namespaced(name@),
            CacheNamespaceState::Ambiguous => NamespaceView::Ambiguous,
        }
    }
}

/// The namespaces of the blocks of one worker, and the tiers they reside in.
pub struct Namespaces {
    pub states: Map<u64, NamespaceView>,
    pub tiers: Map<u64, TierSet>,
}

/// What storing blocks in a namespace, or without one, makes of the state of
/// one of them.
pub open spec fn stored_state(before: Option<NamespaceView>, namespace: Option<Seq<char>>) -> Option<
    NamespaceView,
> {
    match (before, namespace) {
        (None, Some(name)) => Some(NamespaceView::Namespaced(name)),
        (None, None) => None,
        (Some(state), Some(name)) => if state == NamespaceView::Namespaced(name) {
            Some(state)
        } else {
            Some(NamespaceView::Ambiguous)
        },
        (Some(_), None) => Some(NamespaceView::Ambiguous),
    }
}

/// The value bound to `k`, if any.
pub open spec fn look<V>(m: Map<u64, V>, k: u64) -> Option<V> {
    if m.contains_key(k) {
        Some(m[k])
    } else {
        None
    }
}

/// The states after blocks were stored.
pub open spec fn states_stored(
    before: Map<u64, NamespaceView>,
    hashes: Seq<u64>,
    namespace: Option<Seq<char>>,
) -> Map<u64, NamespaceView> {
    Map::new(
        |h: u64|
            if hashes.contains(h) {
                stored_state(look(before, h), namespace) is Some
            } else {
                before.contains_key(h)
            },
        |h: u64|
            if hashes.contains(h) {
                stored_state(look(before, h), namespace)->Some_0
            } else {
                before[h]
            },
    )
}

/// The tiers after blocks were stored in `tier`: only blocks whose namespace is
/// tracked are tracked.
pub open spec fn tiers_stored(
    before: Map<u64, TierSet>,
    states: Map<u64, NamespaceView>,
    hashes: Seq<u64>,
    tier: StorageTier,
) -> Map<u64, TierSet> {
    Map::new(
        |h: u64| before.contains_key(h) || (hashes.contains(h) && states.contains_key(h)),
        |h: u64|
            if hashes.contains(h) && states.contains_key(h) {
                (if before.contains_key(h) {
                    before[h]
                } else {
                    TierSet::none()
                }).put(tier, true)
            } else {
                before[h]
            },
    )
}

impl Namespaces {
    /// Nothing is tracked.
    pub open spec fn none() -> Namespaces {
        Namespaces { states: Map::empty(), tiers: Map::empty() }
    }

    /// Only tracked blocks reside anywhere, and every residence is non-empty.
    pub open spec fn ok(self) -> bool {
        forall|h: u64| #[trigger]
            self.tiers.contains_key(h) ==> self.states.contains_key(h) && self.tiers[h]
                != TierSet::none()
    }

    /// The namespace that a stored block inherits or brings: its own, or that
    /// of its parent.
    pub open spec fn namespace_of(self, own: Option<Seq<char>>, parent: Option<u64>) -> Result<
        Option<Seq<char>>,
        ZmqEventFilterReason,
    > {
        match own {
            Some(name) => if name.len() > 0 {
                Ok(Some(name))
            } else {
                self.inherited(parent)
            },
            None => self.inherited(parent),
        }
    }

    /// The namespace of the parent. An untracked parent is taken as unsalted,
    /// an ambiguous one cannot be resolved.
    pub open spec fn inherited(self, parent: Option<u64>) -> Result<
        Option<Seq<char>>,
        ZmqEventFilterReason,
    > {
        match parent {
            Some(p) => match look(self.states, p) {
                Some(NamespaceView::Namespaced(name)) => Ok(Some(name)),
                Some(NamespaceView::Ambiguous) => Err(
                    ZmqEventFilterReason::AmbiguousCacheNamespace,
                ),
                None => Ok(None),
            },
            None => Ok(None),
        }
    }

    /// Blocks were stored.
    pub open spec fn stored(
        self,
        hashes: Seq<u64>,
        namespace: Option<Seq<char>>,
        tier: StorageTier,
    ) -> Namespaces {
        let states = states_stored(self.states, hashes, namespace);
        Namespaces { states, tiers: tiers_stored(self.tiers, states, hashes, tier) }
    }

    /// Whether a block stays resident in another tier when it leaves `tier`.
    pub open spec fn stays(self, hash: u64, tier: StorageTier) -> bool {
        self.tiers.contains_key(hash) && self.tiers[hash].put(tier, false) != TierSet::none()
    }

    /// Blocks left `tier`. A block that is resident nowhere else is forgotten,
    /// unless its namespace is ambiguous.
    pub open spec fn removed(self, hashes: Seq<u64>, tier: StorageTier) -> Namespaces {
        Namespaces {
            states: Map::new(
                |h: u64|
                    self.states.contains_key(h) && (!hashes.contains(h) || self.stays(h, tier)
                        || self.states[h] == NamespaceView::Ambiguous),
                |h: u64| self.states[h],
            ),
            tiers: Map::new(
                |h: u64|
                    self.tiers.contains_key(h) && (!hashes.contains(h) || self.stays(h, tier)),
                |h: u64|
                    if hashes.contains(h) {
                        self.tiers[h].put(tier, false)
                    } else {
                        self.tiers[h]
                    },
            ),
        }
    }

    /// A tier was cleared. A block that was resident nowhere else is forgotten.
    pub open spec fn tier_cleared(self, tier: StorageTier) -> Namespaces {
        Namespaces {
            states: Map::new(
                |h: u64|
                    self.states.contains_key(h) && (!self.tiers.contains_key(h) || self.stays(
                        h,
                        tier,
                    )),
                |h: u64| self.states[h],
            ),
            tiers: Map::new(
                |h: u64| self.stays(h, tier),
                |h: u64| self.tiers[h].put(tier, false),
            ),
        }
    }
}

/// The tier that a stored or removed block is taken to be in.
pub open spec fn tier_or_device(medium: Option<KvMedium>) -> StorageTier {
    match medium {
        Some(KvMedium::Tier(tier)) => tier,
        _ => StorageTier::Device,
    }
}

fn effective_tier(medium: Option<KvMedium>) -> (tier: StorageTier)
    ensures
        tier == tier_or_device(medium),
{
    match medium {
        Some(KvMedium::Tier(tier)) => tier,
        _ => StorageTier::Device,
    }
}

/// The namespace table of one worker.
pub struct NamespaceTable {
    states: IdMap<CacheNamespaceState>,
    tiers: IdMap<TierSet>,
}

/// The states by hash.
spec fn states_view(m: Map<u64, CacheNamespaceState>) -> Map<u64, NamespaceView> {
    m.map_values(|s: CacheNamespaceState| s@)
}

impl View for NamespaceTable {
    type V = Namespaces;

    closed spec fn view(&self) -> Namespaces {
        Namespaces { states: states_view(self.states@), tiers: self.tiers@ }
    }
}

impl NamespaceTable {
    pub fn new() -> (s: Self)
        ensures
            s@ == Namespaces::none(),
    {
        let s = NamespaceTable { states: IdMap::new(), tiers: IdMap::new() };
        proof {
            assert(s@.states =~= Map::empty());
        }
        s
    }

    /// Resolves the namespace of a stored block and writes an inherited one
    /// into the event.
    fn resolve(&self, own: Option<String>, parent: Option<u64>) -> (resolved: Result<
        Option<String>,
        ZmqEventFilterReason,
    >)
        ensures
            match self@.namespace_of(
                match own {
                    Some(name) => Some(name@),
                    None => None,
                },
                parent,
            ) {
                Ok(Some(name)) => resolved matches Ok(Some(n)) && n@ == name,
                Ok(None) => resolved matches Ok(None),
                Err(reason) => resolved is Err && resolved->Err_0 == reason,
            },
    {
        if let Some(name) = own {
            if !name.as_str().is_empty() {
                return Ok(Some(name));
            }
        }
        if let Some(p) = parent {
            match self.states.get(p) {
                Some(CacheNamespaceState::Namespaced(name)) => Ok(Some(name.clone())),
                Some(CacheNamespaceState::Ambiguous) => Err(
                    ZmqEventFilterReason::AmbiguousCacheNamespace,
                ),
                // A listener that joins in the middle of a chain cannot tell an
                // unknown salted parent from an unsalted one; the unsalted
                // interpretation is kept.
                None => Ok(None),
            }
        } else {
            Ok(None)
        }
    }

    fn store_states(&mut self, hashes: &Vec<u64>, namespace: &Option<String>)
        ensures
            final(self)@ == (Namespaces {
                states: states_stored(
                    old(self)@.states,
                    hashes@,
                    match namespace {
                        Some(name) => Some(name@),
                        None => None,
                    },
                ),
                ..old(self)@
            }),
    {
        let ghost name = match namespace {
            Some(name) => Some(name@),
            None => None,
        };
        let ghost before = self@.states;
        let mut i: usize = 0;
        proof {
            assert(states_stored(before, hashes@.take(0), name) =~= before);
        }
        while i < hashes.len()
            invariant
                i <= hashes@.len(),
                name == (match namespace {
                    Some(name) => Some(name@),
                    None => None,
                }),
                self@.tiers == old(self)@.tiers,
                self@.states == states_stored(before, hashes@.take(i as int), name),
            decreases hashes@.len() - i,
        {
            let hash = hashes[i];
            let ghost held = self@.states;
            let ghost upto = hashes@.take(i as int);
            let ghost next = hashes@.take(i + 1);
            let existing: Option<CacheNamespaceState> = self.states.remove(hash);
            let updated: Option<CacheNamespaceState> = match (existing, namespace) {
                (None, Some(name)) => Some(CacheNamespaceState::Namespaced(name.clone())),
                (None, None) => None,
                (Some(state), Some(name)) => {
                    let same: bool = match &state {
                        CacheNamespaceState::Namespaced(known) => *known == *name,
                        CacheNamespaceState::Ambiguous => false,
                    };
                    if same {
                        Some(state)
                    } else {
                        Some(CacheNamespaceState::Ambiguous)
                    }
                },
                (Some(_), None) => Some(CacheNamespaceState::Ambiguous),
            };
            let ghost put = updated;
            if let Some(state) = updated {
                self.states.insert(hash, state);
            }
            proof {
                assert(next =~= upto.push(hash));
                assert forall|h: u64| next.contains(h) <==> upto.contains(h) || h == hash by {
                    if next.contains(h) {
                        let j = choose|j: int| 0 <= j < next.len() && next[j] == h;
                        if j < upto.len() {
                            assert(upto[j] == h);
                        }
                    }
                    if upto.contains(h) {
                        let j = choose|j: int| 0 <= j < upto.len() && upto[j] == h;
                        assert(next[j] == h);
                    }
                    assert(next[i as int] == hash);
                }
                assert(look(held, hash) == if upto.contains(hash) {
                    stored_state(look(before, hash), name)
                } else {
                    look(before, hash)
                });
                assert(look(self@.states, hash) == stored_state(look(held, hash), name));
                let after = states_stored(before, next, name);
                assert forall|h: u64| #[trigger]
                    self@.states.contains_key(h) <==> after.contains_key(h) by {
                    if h != hash {
                        assert(self@.states.contains_key(h) <==> held.contains_key(h));
                        assert(held.contains_key(h) <==> after.contains_key(h));
                    } else {
                        assert(self@.states.contains_key(h) <==> look(self@.states, h) is Some);
                    }
                }
                assert forall|h: u64| #[trigger] self@.states.contains_key(h) implies self@.states[h]
                    == after[h] by {
                    if h != hash {
                        assert(held.contains_key(h));
                        assert(self@.states[h] == held[h]);
                    } else {
                        assert(look(self@.states, h) == Some(self@.states[h]));
                    }
                }
                assert(self@.states =~= after);
            }
            i = i + 1;
        }
        proof {
            assert(hashes@.take(i as int) =~= hashes@);
        }
    }

    fn store_tiers(&mut self, hashes: &Vec<u64>, tier: StorageTier)
        ensures
            final(self)@ == (Namespaces {
                tiers: tiers_stored(old(self)@.tiers, old(self)@.states, hashes@, tier),
                ..old(self)@
            }),
    {
        let ghost before = self@.tiers;
        let ghost states = self@.states;
        let mut i: usize = 0;
        proof {
            assert(tiers_stored(before, states, hashes@.take(0), tier) =~= before);
        }
        while i < hashes.len()
            invariant
                i <= hashes@.len(),
                states == old(self)@.states,
                self@.states == states,
                self@.tiers == tiers_stored(before, states, hashes@.take(i as int), tier),
            decreases hashes@.len() - i,
        {
            let hash = hashes[i];
            let ghost held = self@.tiers;
            let ghost upto = hashes@.take(i as int);
            let ghost next = hashes@.take(i + 1);
            if self.states.contains(hash) {
                let set: TierSet = match self.tiers.get(hash) {
                    Some(set) => *set,
                    None => TierSet {
                        device: false,
                        host_pinned: false,
                        disk: false,
                        external: false,
                    },
                };
                self.tiers.insert(hash, set.set(tier, true));
            }
            proof {
                assert(next =~= upto.push(hash));
                assert forall|h: u64| next.contains(h) <==> upto.contains(h) || h == hash by {
                    if next.contains(h) {
                        let j = choose|j: int| 0 <= j < next.len() && next[j] == h;
                        if j < upto.len() {
                            assert(upto[j] == h);
                        }
                    }
                    if upto.contains(h) {
                        let j = choose|j: int| 0 <= j < upto.len() && upto[j] == h;
                        assert(next[j] == h);
                    }
                    assert(next[i as int] == hash);
                }
                assert(self.states@.contains_key(hash) <==> states.contains_key(hash));
                assert(self@.tiers =~= tiers_stored(before, states, next, tier));
            }
            i = i + 1;
        }
        proof {
            assert(hashes@.take(i as int) =~= hashes@);
        }
    }

    fn remove_blocks(&mut self, hashes: &Vec<u64>, tier: StorageTier)
        ensures
            final(self)@ == old(self)@.removed(hashes@, tier),
    {
        let ghost before = self@;
        let mut i: usize = 0;
        proof {
            assert(before.removed(hashes@.take(0), tier).states =~= before.states);
            assert(before.removed(hashes@.take(0), tier).tiers =~= before.tiers);
        }
        while i < hashes.len()
            invariant
                i <= hashes@.len(),
                before == old(self)@,
                self@ == before.removed(hashes@.take(i as int), tier),
            decreases hashes@.len() - i,
        {
            let hash = hashes[i];
            let ghost held = self@;
            let ghost upto = hashes@.take(i as int);
            let ghost next = hashes@.take(i + 1);
            let ghost mid = self.states@;
            let mut stays: bool = false;
            if let Some(set) = self.tiers.remove(hash) {
                let left = set.set(tier, false);
                if !left.is_empty() {
                    self.tiers.insert(hash, left);
                    stays = true;
                }
            }
            if !stays {
                let ambiguous: bool = match self.states.get(hash) {
                    Some(CacheNamespaceState::Ambiguous) => true,
                    _ => false,
                };
                if !ambiguous {
                    self.states.remove(hash);
                }
            }
            proof {
                assert(next =~= upto.push(hash));
                assert forall|h: u64| next.contains(h) <==> upto.contains(h) || h == hash by {
                    if next.contains(h) {
                        let j = choose|j: int| 0 <= j < next.len() && next[j] == h;
                        if j < upto.len() {
                            assert(upto[j] == h);
                        }
                    }
                    if upto.contains(h) {
                        let j = choose|j: int| 0 <= j < upto.len() && upto[j] == h;
                        assert(next[j] == h);
                    }
                    assert(next[i as int] == hash);
                }
                assert(self@.tiers =~= before.removed(next, tier).tiers);
                let after = before.removed(next, tier).states;
                assert forall|h: u64| #[trigger]
                    self@.states.contains_key(h) <==> after.contains_key(h) by {
                    if h != hash {
                        assert(self@.states.contains_key(h) <==> held.states.contains_key(h));
                    } else {
                        assert(held.states.contains_key(h) <==> mid.contains_key(h));
                        assert(mid.contains_key(h) ==> held.states[h] == mid[h]@);
                        assert(self.states@.contains_key(h) <==> self@.states.contains_key(h));
                        assert(stays == held.stays(h, tier));
                        assert(held.stays(h, tier) == before.stays(h, tier));
                        assert(self@.states.contains_key(h) <==> held.states.contains_key(h) && (
                        stays || held.states[h] == NamespaceView::Ambiguous));
                    }
                }
                assert forall|h: u64| #[trigger] self@.states.contains_key(h) implies self@.states[h]
                    == after[h] by {
                    assert(held.states.contains_key(h));
                    assert(self@.states[h] == held.states[h]);
                }
                assert(self@.states =~= after);
            }
            i = i + 1;
        }
        proof {
            assert(hashes@.take(i as int) =~= hashes@);
        }
    }

    /// Forgets what was resident in one tier only.
    fn clear_namespace_tier(&mut self, tier: StorageTier)
        ensures
            final(self)@ == old(self)@.tier_cleared(tier),
    {
        let ghost before = self@;
        let keys = self.tiers.ids();
        let mut i: usize = 0;
        while i < keys.len()
            invariant
                i <= keys@.len(),
                before == old(self)@,
                keys@.no_duplicates(),
                keys@.to_set() == before.tiers.dom(),
                forall|h: u64| #[trigger]
                    self@.tiers.contains_key(h) <==> if keys@.take(i as int).contains(h) {
                        before.stays(h, tier)
                    } else {
                        before.tiers.contains_key(h)
                    },
                forall|h: u64| #[trigger]
                    self@.tiers.contains_key(h) ==> self@.tiers[h] == if keys@.take(
                        i as int,
                    ).contains(h) {
                        before.tiers[h].put(tier, false)
                    } else {
                        before.tiers[h]
                    },
                forall|h: u64| #[trigger]
                    self@.states.contains_key(h) <==> before.states.contains_key(h) && (
                    !keys@.take(i as int).contains(h) || before.stays(h, tier)),
                forall|h: u64| #[trigger]
                    self@.states.contains_key(h) ==> self@.states[h] == before.states[h],
            decreases keys@.len() - i,
        {
            let key = keys[i];
            let ghost held = self@;
            let ghost upto = keys@.take(i as int);
            let ghost next = keys@.take(i + 1);
            proof {
                assert(keys@.to_set().contains(key));
                assert(next =~= upto.push(key));
                assert(!upto.contains(key)) by {
                    if upto.contains(key) {
                        let j = choose|j: int| 0 <= j < upto.len() && upto[j] == key;
                        assert(keys@[j] == keys@[i as int]);
                    }
                }
                assert forall|h: u64| #[trigger] next.contains(h) <==> upto.contains(h) || h
                    == key by {
                    if next.contains(h) {
                        let j = choose|j: int| 0 <= j < next.len() && next[j] == h;
                        if j < upto.len() {
                            assert(upto[j] == h);
                        }
                    }
                    if upto.contains(h) {
                        let j = choose|j: int| 0 <= j < upto.len() && upto[j] == h;
                        assert(next[j] == h);
                    }
                    assert(next[i as int] == key);
                }
                assert(held.tiers.contains_key(key));
                assert(self.tiers@ == held.tiers);
            }
            if let Some(set) = self.tiers.remove(key) {
                let left = set.set(tier, false);
                if left.is_empty() {
                    self.states.remove(key);
                } else {
                    self.tiers.insert(key, left);
                }
            }
            proof {
                assert forall|h: u64| #[trigger]
                    self@.tiers.contains_key(h) <==> if next.contains(h) {
                        before.stays(h, tier)
                    } else {
                        before.tiers.contains_key(h)
                    } by {
                    assert(held.tiers.contains_key(h) <==> if upto.contains(h) {
                        before.stays(h, tier)
                    } else {
                        before.tiers.contains_key(h)
                    });
                }
                assert forall|h: u64| #[trigger] self@.tiers.contains_key(h) implies self@.tiers[h]
                    == if next.contains(h) {
                    before.tiers[h].put(tier, false)
                } else {
                    before.tiers[h]
                } by {
                    if h != key {
                        assert(held.tiers.contains_key(h));
                    }
                }
                assert forall|h: u64| #[trigger]
                    self@.states.contains_key(h) <==> before.states.contains_key(h) && (
                    !next.contains(h) || before.stays(h, tier)) by {
                    assert(held.states.contains_key(h) <==> before.states.contains_key(h) && (
                    !upto.contains(h) || before.stays(h, tier)));
                }
                assert forall|h: u64| #[trigger]
                    self@.states.contains_key(h) implies self@.states[h] == before.states[h] by {
                    assert(held.states.contains_key(h));
                }
            }
            i = i + 1;
        }
        proof {
            assert(keys@.take(i as int) =~= keys@);
            assert forall|h: u64| #[trigger] keys@.contains(h) <==> before.tiers.contains_key(
                h,
            ) by {
                assert(keys@.to_set().contains(h) <==> before.tiers.dom().contains(h));
            }
            assert(self@.tiers =~= before.tier_cleared(tier).tiers);
            assert(self@.states =~= before.tier_cleared(tier).states);
        }
    }

    fn clear(&mut self)
        ensures
            final(self)@ == Namespaces::none(),
    {
        self.states.clear();
        self.tiers.clear();
        proof {
            assert(self@.states =~= Map::empty());
        }
    }
}

/// The name in a cache namespace field.
pub open spec fn name_of(field: Option<String>) -> Option<Seq<char>> {
    match field {
        Some(name) => Some(name@),
        None => None,
    }
}

/// What an event makes of the namespaces of its worker.
pub open spec fn followed(before: Namespaces, raw: RawKvEvent) -> Result<
    Namespaces,
    ZmqEventFilterReason,
> {
    match raw {
        RawKvEvent::BlockStored {
            block_hashes,
            parent_block_hash,
            cache_namespace,
            medium,
            ..
        } => match before.namespace_of(name_of(cache_namespace), parent_block_hash) {
            Ok(namespace) => Ok(
                before.stored(block_hashes@, namespace, tier_or_device(medium)),
            ),
            Err(reason) => Err(reason),
        },
        RawKvEvent::BlockRemoved { block_hashes, medium, .. } => Ok(
            before.removed(block_hashes@, tier_or_device(medium)),
        ),
        RawKvEvent::AllBlocksCleared { medium, .. } => match medium {
            None => Ok(Namespaces::none()),
            Some(KvMedium::Tier(tier)) => Ok(before.tier_cleared(tier)),
            Some(KvMedium::Unrecognized) => Ok(before),
        },
        RawKvEvent::TierBlocksCleared { medium, .. } => match medium {
            KvMedium::Tier(tier) => Ok(before.tier_cleared(tier)),
            KvMedium::Unrecognized => Ok(before),
        },
        RawKvEvent::Ignored => Ok(before),
    }
}

/// `out` is `raw` with its namespace resolved; nothing else changes.
pub open spec fn resolved_event(before: Namespaces, raw: RawKvEvent, out: RawKvEvent) -> bool {
    match raw {
        RawKvEvent::BlockStored {
            block_hashes,
            parent_block_hash,
            cache_namespace,
            medium,
            metadata,
        } => {
            &&& out is BlockStored
            &&& out->BlockStored_block_hashes == block_hashes
            &&& out->parent_block_hash == parent_block_hash
            &&& out->BlockStored_medium == medium
            &&& out->BlockStored_metadata == metadata
            &&& Ok::<Option<Seq<char>>, ZmqEventFilterReason>(name_of(out->cache_namespace))
                == before.namespace_of(name_of(cache_namespace), parent_block_hash)
        },
        _ => out == raw,
    }
}

impl NamespaceTable {
    /// Follows one event: resolves the namespace of stored blocks, and keeps
    /// track of which blocks belong to which namespace.
    pub fn propagate_cache_namespace(&mut self, raw: RawKvEvent) -> (out: Result<
        RawKvEvent,
        ZmqEventFilterReason,
    >)
        ensures
            match followed(old(self)@, raw) {
                Ok(after) => out is Ok && final(self)@ == after && resolved_event(
                    old(self)@,
                    raw,
                    out->Ok_0,
                ),
                Err(reason) => out is Err && out->Err_0 == reason && final(self)@ == old(self)@,
            },
    {
        match raw {
            RawKvEvent::BlockStored {
                block_hashes,
                parent_block_hash,
                cache_namespace,
                medium,
                metadata,
            } => {
                let tier = effective_tier(medium);
                let namespace = match self.resolve(cache_namespace, parent_block_hash) {
                    Ok(namespace) => namespace,
                    Err(reason) => {
                        return Err(reason);
                    },
                };
                self.store_states(&block_hashes, &namespace);
                self.store_tiers(&block_hashes, tier);
                Ok(
                    RawKvEvent::BlockStored {
                        block_hashes,
                        parent_block_hash,
                        cache_namespace: namespace,
                        medium,
                        metadata,
                    },
                )
            },
            RawKvEvent::BlockRemoved { block_hashes, medium, metadata } => {
                self.remove_blocks(&block_hashes, effective_tier(medium));
                Ok(RawKvEvent::BlockRemoved { block_hashes, medium, metadata })
            },
            RawKvEvent::AllBlocksCleared { medium, metadata } => {
                match medium {
                    None => {
                        self.clear();
                    },
                    Some(KvMedium::Tier(tier)) => {
                        self.clear_namespace_tier(tier);
                    },
                    Some(KvMedium::Unrecognized) => {},
                }
                Ok(RawKvEvent::AllBlocksCleared { medium, metadata })
            },
            RawKvEvent::TierBlocksCleared { medium, metadata } => {
                match medium {
                    KvMedium::Tier(tier) => {
                        self.clear_namespace_tier(tier);
                    },
                    KvMedium::Unrecognized => {},
                }
                Ok(RawKvEvent::TierBlocksCleared { medium, metadata })
            },
            RawKvEvent::Ignored => Ok(RawKvEvent::Ignored),
        }
    }
}

/// What is known of a cache group.
#[derive(Debug, Clone, Copy, PartialEq, Eq, Structural)]
pub struct KvCacheGroupMetadata {
    pub kind: KvCacheSpecKind,
    pub sliding_window: Option<u32>,
}

/// The identifier of a cache group of a rank.
pub open spec fn group_key(dp_rank: u32, group_idx: u32) -> u64 {
    (dp_rank * 0x1_0000_0000 + group_idx) as u64
}

fn key_of_group(dp_rank: u32, group_idx: u32) -> (key: u64)
    ensures
        key == group_key(dp_rank, group_idx),
{
    dp_rank as u64 * 0x1_0000_0000 + group_idx as u64
}

/// The groups after an event: a stored block teaches the kind of its group.
pub open spec fn learned(
    groups: Map<u64, KvCacheGroupMetadata>,
    raw: RawKvEvent,
    dp_rank: u32,
) -> Map<u64, KvCacheGroupMetadata> {
    let m = raw.spec_metadata();
    match (m.group_idx, m.kv_cache_spec_kind) {
        (Some(group_idx), Some(kind)) => if raw is BlockStored {
            groups.insert(
                group_key(dp_rank, group_idx),
                KvCacheGroupMetadata { kind, sliding_window: m.kv_cache_spec_sliding_window },
            )
        } else {
            groups
        },
        _ => groups,
    }
}

/// Why the group of an event is not indexed, if it is not: only main-attention
/// groups are. A group that was never described is main only if it is the
/// first.
pub open spec fn group_refusal(
    groups: Map<u64, KvCacheGroupMetadata>,
    m: KvCacheEventMetadata,
    dp_rank: u32,
) -> Option<ZmqEventFilterReason> {
    match m.kv_cache_spec_kind {
        Some(KvCacheSpecKind::MainAttention) => None,
        Some(KvCacheSpecKind::Unknown) => Some(ZmqEventFilterReason::UnknownKind),
        Some(KvCacheSpecKind::Other) => Some(ZmqEventFilterReason::NonMainAttentionKind),
        None => match m.group_idx {
            None => None,
            Some(group_idx) => match look(groups, group_key(dp_rank, group_idx)) {
                Some(known) => match known.kind {
                    KvCacheSpecKind::MainAttention => None,
                    KvCacheSpecKind::Unknown => Some(ZmqEventFilterReason::UnknownKind),
                    KvCacheSpecKind::Other => Some(ZmqEventFilterReason::NonMainAttentionGroup),
                },
                None => if group_idx == 0 {
                    None
                } else {
                    Some(ZmqEventFilterReason::UnlearnedGroupIdx)
                },
            },
        },
    }
}

/// What is done with an event before any group is considered.
pub enum Screening {
    Refused(ZmqEventFilterReason),
    /// A hash-only lower-tier event: kept as it is, without touching any state.
    Bypassed,
    Considered,
}

/// Screens an event by ownership, kind, locality and medium.
pub open spec fn screened(raw: RawKvEvent) -> Screening {
    let m = raw.spec_metadata();
    if m.ownership == KvEventOwnership::Unknown {
        Screening::Refused(ZmqEventFilterReason::UnknownOwnership)
    } else if raw is Ignored {
        Screening::Refused(ZmqEventFilterReason::IgnoredEvent)
    } else if raw is AllBlocksCleared && raw.spec_medium() is Some {
        Screening::Refused(ZmqEventFilterReason::AmbiguousScopedClear)
    } else if m.locality == Some(Locality::Remote) || m.locality == Some(Locality::Unknown) {
        Screening::Refused(ZmqEventFilterReason::NonLocalLocality)
    } else {
        match raw.spec_medium() {
            None => Screening::Considered,
            Some(KvMedium::Tier(StorageTier::Device)) => Screening::Considered,
            Some(KvMedium::Tier(StorageTier::HostPinned)) => Screening::Considered,
            Some(KvMedium::Tier(_)) => Screening::Bypassed,
            Some(KvMedium::Unrecognized) => Screening::Refused(
                ZmqEventFilterReason::UnknownMedium,
            ),
        }
    }
}

/// Turns the raw events of the engines of one listener into events that the
/// index can follow.
pub struct ZmqEventNormalizer {
    kv_block_size: u32,
    image_token_id: Option<u32>,
    video_token_id: Option<u32>,
    group_metadata: IdMap<KvCacheGroupMetadata>,
    /// By worker, then by rank.
    tables: IdMap<IdMap<NamespaceTable>>,
}

/// The tables of the ranks of one worker.
spec fn ranks_in(tables: Map<u64, IdMap<NamespaceTable>>, worker_id: u64) -> Map<
    u64,
    NamespaceTable,
> {
    if tables.contains_key(worker_id) {
        tables[worker_id]@
    } else {
        Map::empty()
    }
}

spec fn namespaces_in(
    tables: Map<u64, IdMap<NamespaceTable>>,
    worker: WorkerWithDpRank,
) -> Namespaces {
    let ranks = ranks_in(tables, worker.worker_id);
    if ranks.contains_key(worker.dp_rank as u64) {
        ranks[worker.dp_rank as u64]@
    } else {
        Namespaces::none()
    }
}

impl ZmqEventNormalizer {
    /// What is tracked for `worker`.
    pub closed spec fn namespaces(&self, worker: WorkerWithDpRank) -> Namespaces {
        namespaces_in(self.tables@, worker)
    }

    /// What is known of the cache groups.
    pub closed spec fn groups(&self) -> Map<u64, KvCacheGroupMetadata> {
        self.group_metadata@
    }

    /// The block size and the multimodal placeholder tokens.
    pub closed spec fn settings(&self) -> (u32, Option<u32>, Option<u32>) {
        (self.kv_block_size, self.image_token_id, self.video_token_id)
    }

    pub fn new(kv_block_size: u32) -> (s: Self)
        ensures
            s.groups() == Map::<u64, KvCacheGroupMetadata>::empty(),
            forall|worker: WorkerWithDpRank| #[trigger]
                s.namespaces(worker) == Namespaces::none(),
            s.settings() == (kv_block_size, None::<u32>, None::<u32>),
    {
        ZmqEventNormalizer {
            kv_block_size,
            image_token_id: None,
            video_token_id: None,
            group_metadata: IdMap::new(),
            tables: IdMap::new(),
        }
    }

    /// Set the model's image placeholder token id so vLLM BlockStored events
    /// get normalized to the canonical pad_value scheme. No-op for text-only
    /// models (leave unset).
    pub fn with_image_token_id(self, image_token_id: Option<u32>) -> (s: Self)
        ensures
            s.groups() == self.groups(),
            forall|worker: WorkerWithDpRank| #[trigger]
                s.namespaces(worker) == self.namespaces(worker),
            s.settings() == (self.settings().0, image_token_id, self.settings().2),
    {
        let mut s = self;
        s.image_token_id = image_token_id;
        s
    }

    pub fn with_video_token_id(self, video_token_id: Option<u32>) -> (s: Self)
        ensures
            s.groups() == self.groups(),
            forall|worker: WorkerWithDpRank| #[trigger]
                s.namespaces(worker) == self.namespaces(worker),
            s.settings() == (self.settings().0, self.settings().1, video_token_id),
    {
        let mut s = self;
        s.video_token_id = video_token_id;
        s
    }

    /// The block size and the placeholder tokens that conversion goes by.
    pub fn conversion_settings(&self) -> (settings: (u32, Option<u32>, Option<u32>))
        ensures
            settings == self.settings(),
    {
        (self.kv_block_size, self.image_token_id, self.video_token_id)
    }

    pub fn preprocess(&mut self, raw: RawKvEvent, worker: WorkerWithDpRank) -> (out: Option<
        RawKvEvent,
    >)
        ensures
            exists|full: Result<RawKvEvent, ZmqEventFilterReason>| #[trigger]
                framework_outcome(*old(self), *final(self), raw, worker, full) && out == (
                match full {
                    Ok(event) => Some(event),
                    Err(_) => None,
                }),
    {
        let full = self.preprocess_with_reason(raw, worker);
        assert(framework_outcome(*old(self), *self, raw, worker, full));
        match full {
            Ok(event) => Some(event),
            Err(_) => None,
        }
    }

    /// Normalizes the event of a framework stream. Transitions of another
    /// owner are refused.
    pub fn preprocess_with_reason(&mut self, raw: RawKvEvent, worker: WorkerWithDpRank) -> (out:
        Result<RawKvEvent, ZmqEventFilterReason>)
        ensures
            framework_outcome(*old(self), *final(self), raw, worker, out),
    {
        match raw.metadata().ownership {
            KvEventOwnership::Framework => {},
            KvEventOwnership::Kvcr => {
                return Err(ZmqEventFilterReason::UnsupportedOwnership);
            },
            KvEventOwnership::Unknown => {
                return Err(ZmqEventFilterReason::UnknownOwnership);
            },
        }
        self.preprocess_residency_with_reason(raw, worker)
    }

    /// Normalize a version-gated state-agent stream which may contain both
    /// framework and vLLM-enriched KVCR transitions.
    pub fn preprocess_residency_with_reason(
        &mut self,
        raw: RawKvEvent,
        worker: WorkerWithDpRank,
    ) -> (out: Result<RawKvEvent, ZmqEventFilterReason>)
        ensures
            residency_outcome(*old(self), *final(self), raw, worker, out),
    {
        let metadata = raw.metadata();
        if metadata.ownership == KvEventOwnership::Unknown {
            return Err(ZmqEventFilterReason::UnknownOwnership);
        }
        match &raw {
            RawKvEvent::Ignored => {
                return Err(ZmqEventFilterReason::IgnoredEvent);
            },
            RawKvEvent::AllBlocksCleared { medium, .. } => {
                if medium.is_some() {
                    return Err(ZmqEventFilterReason::AmbiguousScopedClear);
                }
            },
            _ => {},
        }
        // Non-local events are dropped by policy, and classified here, before the
        // lower-tier bypass, so that this covers every tier. Accepting one and
        // dropping it in conversion would leave an event-id gap.

        match metadata.locality {
            Some(Locality::Remote) | Some(Locality::Unknown) => {
                return Err(ZmqEventFilterReason::NonLocalLocality);
            },
            _ => {},
        }
        // Classify by medium before touching normalizer state. Hash-only
        // lower-tier events carry no namespace, so they bypass the tables;
        // unrecognized media fail closed.

        match raw.medium() {
            None => {},
            Some(KvMedium::Tier(tier)) => match tier {
                StorageTier::Device | StorageTier::HostPinned => {},
                _ => {
                    return Ok(raw);
                },
            },
            Some(KvMedium::Unrecognized) => {
                return Err(ZmqEventFilterReason::UnknownMedium);
            },
        }
        let stored: bool = match &raw {
            RawKvEvent::BlockStored { .. } => true,
            _ => false,
        };
        if stored {
            self.learn_metadata(metadata, worker.dp_rank);
        }
        if let Some(reason) = self.filter_reason(metadata, worker.dp_rank) {
            return Err(reason);
        }
        self.propagate_cache_namespace(raw, worker)
    }

    fn learn_metadata(&mut self, metadata: KvCacheEventMetadata, dp_rank: u32)
        ensures
            final(self).tables == old(self).tables,
            final(self).settings() == old(self).settings(),
            final(self).groups() == (match (metadata.group_idx, metadata.kv_cache_spec_kind) {
                (Some(group_idx), Some(kind)) => old(self).groups().insert(
                    group_key(dp_rank, group_idx),
                    KvCacheGroupMetadata {
                        kind,
                        sliding_window: metadata.kv_cache_spec_sliding_window,
                    },
                ),
                _ => old(self).groups(),
            }),
    {
        if let Some(group_idx) = metadata.group_idx {
            if let Some(kind) = metadata.kv_cache_spec_kind {
                self.group_metadata.insert(
                    key_of_group(dp_rank, group_idx),
                    KvCacheGroupMetadata {
                        kind,
                        sliding_window: metadata.kv_cache_spec_sliding_window,
                    },
                );
            }
        }
    }

    fn filter_reason(&self, metadata: KvCacheEventMetadata, dp_rank: u32) -> (reason: Option<
        ZmqEventFilterReason,
    >)
        ensures
            reason == group_refusal(self.groups(), metadata, dp_rank),
    {
        if let Some(kind) = metadata.kv_cache_spec_kind {
            return match kind {
                KvCacheSpecKind::MainAttention => None,
                KvCacheSpecKind::Unknown => Some(ZmqEventFilterReason::UnknownKind),
                KvCacheSpecKind::Other => Some(ZmqEventFilterReason::NonMainAttentionKind),
            };
        }
        let group_idx = match metadata.group_idx {
            Some(group_idx) => group_idx,
            None => {
                return None;
            },
        };
        if let Some(known) = self.group_metadata.get(key_of_group(dp_rank, group_idx)) {
            return match known.kind {
                KvCacheSpecKind::MainAttention => None,
                KvCacheSpecKind::Unknown => Some(ZmqEventFilterReason::UnknownKind),
                KvCacheSpecKind::Other => Some(ZmqEventFilterReason::NonMainAttentionGroup),
            };
        }
        if group_idx == 0 {
            None
        } else {
            Some(ZmqEventFilterReason::UnlearnedGroupIdx)
        }
    }

    /// Follows one event in the table of its worker.
    fn propagate_cache_namespace(&mut self, raw: RawKvEvent, worker: WorkerWithDpRank) -> (out:
        Result<RawKvEvent, ZmqEventFilterReason>)
        ensures
            final(self).groups() == old(self).groups(),
            final(self).settings() == old(self).settings(),
            forall|other: WorkerWithDpRank|
                other != worker ==> #[trigger] final(self).namespaces(other) == old(
                    self,
                ).namespaces(other),
            match followed(old(self).namespaces(worker), raw) {
                Ok(after) => out is Ok && final(self).namespaces(worker) == after
                    && resolved_event(old(self).namespaces(worker), raw, out->Ok_0),
                Err(reason) => out is Err && out->Err_0 == reason && final(self).namespaces(worker)
                    == old(self).namespaces(worker),
            },
    {
        let mut ranks = match self.tables.remove(worker.worker_id) {
            Some(ranks) => ranks,
            None => IdMap::new(),
        };
        let mut table = match ranks.remove(worker.dp_rank as u64) {
            Some(table) => table,
            None => NamespaceTable::new(),
        };
        assert(table@ == old(self).namespaces(worker));
        let out = table.propagate_cache_namespace(raw);
        ranks.insert(worker.dp_rank as u64, table);
        self.tables.insert(worker.worker_id, ranks);
        out
    }
}

/// What becomes of an event of a stream that may hold both kinds of ownership.
pub open spec fn residency_outcome(
    before: ZmqEventNormalizer,
    after: ZmqEventNormalizer,
    raw: RawKvEvent,
    worker: WorkerWithDpRank,
    out: Result<RawKvEvent, ZmqEventFilterReason>,
) -> bool {
    let untouched = forall|w: WorkerWithDpRank| #[trigger]
        after.namespaces(w) == before.namespaces(w);
    &&& after.settings() == before.settings()
    &&& match screened(raw) {
        Screening::Refused(reason) => {
            &&& out is Err && out->Err_0 == reason
            &&& untouched && after.groups() == before.groups()
        },
        Screening::Bypassed => {
            &&& out is Ok && out->Ok_0 == raw
            &&& untouched && after.groups() == before.groups()
        },
        Screening::Considered => {
            let groups = learned(before.groups(), raw, worker.dp_rank);
            &&& after.groups() == groups
            &&& match group_refusal(groups, raw.spec_metadata(), worker.dp_rank) {
                Some(reason) => out is Err && out->Err_0 == reason && untouched,
                None => {
                    &&& forall|w: WorkerWithDpRank|
                        w != worker ==> #[trigger] after.namespaces(w) == before.namespaces(w)
                    &&& match followed(before.namespaces(worker), raw) {
                        Ok(namespaces) => out is Ok && after.namespaces(worker) == namespaces
                            && resolved_event(before.namespaces(worker), raw, out->Ok_0),
                        Err(reason) => out is Err && out->Err_0 == reason && after.namespaces(
                            worker,
                        ) == before.namespaces(worker),
                    }
                },
            }
        },
    }
}

/// What becomes of an event of a framework stream.
pub open spec fn framework_outcome(
    before: ZmqEventNormalizer,
    after: ZmqEventNormalizer,
    raw: RawKvEvent,
    worker: WorkerWithDpRank,
    out: Result<RawKvEvent, ZmqEventFilterReason>,
) -> bool {
    if raw.spec_metadata().ownership == KvEventOwnership::Kvcr {
        &&& out is Err && out->Err_0 == ZmqEventFilterReason::UnsupportedOwnership
        &&& after == before
    } else {
        residency_outcome(before, after, raw, worker, out)
    }
}

/// Following an event keeps the tables consistent: only tracked blocks reside
/// anywhere.
pub proof fn law_tracking_stays_consistent(before: Namespaces, raw: RawKvEvent)
    requires
        before.ok(),
    ensures
        followed(before, raw) is Ok ==> followed(before, raw)->Ok_0.ok(),
{
}

/// An ambiguous hash stays ambiguous until its tier or its worker is cleared:
/// storing or removing blocks never resolves it.
pub proof fn law_ambiguity_is_sticky(before: Namespaces, raw: RawKvEvent, hash: u64)
    requires
        look(before.states, hash) == Some(NamespaceView::Ambiguous),
        raw is BlockStored || raw is BlockRemoved,
        followed(before, raw) is Ok,
    ensures
        look(followed(before, raw)->Ok_0.states, hash) == Some(NamespaceView::Ambiguous),
{
}

/// A namespace travels down a chain: blocks stored on a namespaced parent
/// without a namespace of their own get the parent's, and pass it on.
pub proof fn law_namespace_is_inherited(
    before: Namespaces,
    hashes: Seq<u64>,
    parent: u64,
    tier: StorageTier,
    name: Seq<char>,
    hash: u64,
)
    requires
        look(before.states, parent) == Some(NamespaceView::Namespaced(name)),
        hashes.contains(hash),
        !before.states.contains_key(hash),
    ensures
        before.namespace_of(None, Some(parent)) == Ok::<Option<Seq<char>>, ZmqEventFilterReason>(
            Some(name),
        ),
        before.stored(hashes, Some(name), tier).namespace_of(None, Some(hash)) == Ok::<
            Option<Seq<char>>,
            ZmqEventFilterReason,
        >(Some(name)),
{
}

} // verus!
