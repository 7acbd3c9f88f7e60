//! Counted sets of coverage edges, bucketed by one of the edge's hashes.

use crate::id_map::IdMap;
use crate::logical::{CoverageRole, Edge};
use crate::protocols::{ExternalSequenceBlockHash, LocalBlockHash};
use vstd::prelude::*;

verus! {

/// A finite map from edges to counts. Edges that agree on the bucketing hash
/// (the child hash or the local hash) share a bucket.
pub struct EdgeTable {
    by_child: bool,
    buckets: IdMap<Vec<(Edge, usize)>>,
    count: usize,
}

/// The hash that selects an edge's bucket.
spec fn key_of(by_child: bool, edge: Edge) -> u64 {
    if by_child {
        edge.child.0
    } else {
        edge.local.0
    }
}

/// The bucket stored under `key`, empty when nothing is.
spec fn bucket(buckets: Map<u64, Vec<(Edge, usize)>>, key: u64) -> Seq<(Edge, usize)> {
    if buckets.contains_key(key) {
        buckets[key]@
    } else {
        Seq::empty()
    }
}

/// Whether `edge` stands at position `i` of `entries`.
spec fn stands_at(entries: Seq<(Edge, usize)>, edge: Edge, i: int) -> bool {
    0 <= i < entries.len() && entries[i].0 == edge
}

spec fn stands(entries: Seq<(Edge, usize)>, edge: Edge) -> bool {
    exists|i: int| stands_at(entries, edge, i)
}

spec fn value_of(entries: Seq<(Edge, usize)>, edge: Edge) -> usize {
    entries[choose|i: int| stands_at(entries, edge, i)].1
}

/// No edge stands twice in `entries`.
spec fn distinct(entries: Seq<(Edge, usize)>) -> bool {
    forall|i: int, j: int|
        0 <= i < entries.len() && 0 <= j < entries.len() && i != j ==> entries[i].0 != entries[j].0
}

spec fn contents(by_child: bool, buckets: Map<u64, Vec<(Edge, usize)>>) -> Map<Edge, usize> {
    Map::new(
        |e: Edge| stands(bucket(buckets, key_of(by_child, e)), e),
        |e: Edge| value_of(bucket(buckets, key_of(by_child, e)), e),
    )
}

proof fn lemma_value_at(entries: Seq<(Edge, usize)>, i: int)
    requires
        distinct(entries),
        0 <= i < entries.len(),
    ensures
        stands(entries, entries[i].0),
        value_of(entries, entries[i].0) == entries[i].1,
{
    assert(stands_at(entries, entries[i].0, i));
}

/// Replacing one bucket changes the contents only for the edges of that bucket.
proof fn lemma_replace_bucket(
    by_child: bool,
    before: Map<u64, Vec<(Edge, usize)>>,
    key: u64,
    entries: Vec<(Edge, usize)>,
)
    ensures
        forall|e: Edge|
            #![trigger contents(by_child, before.insert(key, entries)).contains_key(e)]
            #![trigger contents(by_child, before.insert(key, entries))[e]]
            {
                let after = contents(by_child, before.insert(key, entries));
                if key_of(by_child, e) == key {
                    &&& after.contains_key(e) <==> stands(entries@, e)
                    &&& stands(entries@, e) ==> after[e] == value_of(entries@, e)
                } else {
                    &&& after.contains_key(e) <==> contents(by_child, before).contains_key(e)
                    &&& after.contains_key(e) ==> after[e] == contents(by_child, before)[e]
                }
            },
{
}

impl View for EdgeTable {
    type V = Map<Edge, usize>;

    closed spec fn view(&self) -> Map<Edge, usize> {
        contents(self.by_child, self.buckets@)
    }
}

impl EdgeTable {
    pub closed spec fn wf(&self) -> bool {
        &&& forall|k: u64, i: int|
            #![trigger bucket(self.buckets@, k)[i]]
            0 <= i < bucket(self.buckets@, k).len() ==> key_of(
                self.by_child,
                bucket(self.buckets@, k)[i].0,
            ) == k
        &&& forall|k: u64| distinct(#[trigger] bucket(self.buckets@, k))
        &&& self@.dom().finite()
        &&& self.count == self@.dom().len()
    }

    /// Whether the table is bucketed by child hash rather than by local hash.
    pub closed spec fn keyed_by_child(&self) -> bool {
        self.by_child
    }

    /// Only finitely many edges are held.
    pub proof fn lemma_finite(&self)
        requires
            self.wf(),
        ensures
            self@.dom().finite(),
    {
    }

    /// The empty table, bucketed by child hash or by local hash.
    pub fn new(by_child: bool) -> (s: Self)
        ensures
            s.wf(),
            s@ == Map::<Edge, usize>::empty(),
            s.keyed_by_child() == by_child,
    {
        let s = EdgeTable { by_child, buckets: IdMap::new(), count: 0 };
        proof {
            assert(s@ =~= Map::<Edge, usize>::empty());
        }
        s
    }

    fn key(by_child: bool, edge: &Edge) -> (k: u64)
        ensures
            k == key_of(by_child, *edge),
    {
        if by_child {
            edge.child.0
        } else {
            edge.local.0
        }
    }

    /// How many edges the table holds.
    pub fn len(&self) -> (n: usize)
        requires
            self.wf(),
        ensures
            n == self@.len(),
    {
        self.count
    }

    /// The count of `edge`, if the table holds it.
    pub fn get(&self, edge: &Edge) -> (n: Option<usize>)
        requires
            self.wf(),
        ensures
            match n {
                Some(v) => self@.contains_key(*edge) && v == self@[*edge],
                None => !self@.contains_key(*edge),
            },
    {
        let key = Self::key(self.by_child, edge);
        match self.buckets.get(key) {
            Some(entries) => {
                assert(entries@ == bucket(self.buckets@, key));
                let mut i: usize = 0;
                while i < entries.len()
                    invariant
                        i <= entries.len(),
                        distinct(entries@),
                        forall|j: int| 0 <= j < i ==> entries@[j].0 != *edge,
                        self.buckets@.contains_key(key),
                        self.buckets@[key] == *entries,
                        key == key_of(self.by_child, *edge),
                    decreases entries.len() - i,
                {
                    if entries[i].0 == *edge {
                        proof {
                            lemma_value_at(entries@, i as int);
                        }
                        return Some(entries[i].1);
                    }
                    i = i + 1;
                }
                None
            },
            None => None,
        }
    }

    /// Whether the table holds `edge`.
    pub fn contains(&self, edge: &Edge) -> (b: bool)
        requires
            self.wf(),
        ensures
            b == self@.contains_key(*edge),
    {
        self.get(edge).is_some()
    }

    /// Gives `edge` the count `n`, whether or not the table held it.
    pub fn set(&mut self, edge: Edge, n: usize)
        requires
            old(self).wf(),
            old(self)@.contains_key(edge) || old(self)@.len() < usize::MAX,
        ensures
            final(self).wf(),
            final(self)@ == old(self)@.insert(edge, n),
            final(self).keyed_by_child() == old(self).keyed_by_child(),
    {
        let key = Self::key(self.by_child, &edge);
        let ghost before = self.buckets@;
        let mut entries: Vec<(Edge, usize)> = match self.buckets.remove(key) {
            Some(entries) => entries,
            None => Vec::new(),
        };
        let ghost held = entries@;
        proof {
            assert(held =~= bucket(before, key));
        }
        let mut i: usize = 0;
        let mut found: bool = false;
        while i < entries.len()
            invariant_except_break
                !found,
            invariant
                i <= entries.len(),
                entries@ == held,
                forall|j: int| 0 <= j < i ==> held[j].0 != edge,
            ensures
                entries@ == held,
                found ==> i < held.len() && held[i as int].0 == edge,
                !found ==> forall|j: int| 0 <= j < held.len() ==> held[j].0 != edge,
            decreases entries.len() - i,
        {
            if entries[i].0 == edge {
                found = true;
                break ;
            }
            i = i + 1;
        }
        if found {
            entries.set(i, (edge, n));
        } else {
            entries.push((edge, n));
            self.count = self.count + 1;
        }
        let ghost put = entries;
        self.buckets.insert(key, entries);
        proof {
            lemma_replace_bucket(self.by_child, before, key, put);
            assert(self.buckets@ =~= before.insert(key, put));
            let at = if found {
                i as int
            } else {
                held.len() as int
            };
            lemma_value_at(put@, at);
            assert forall|e: Edge| e != edge implies (stands(put@, e) <==> stands(held, e)) && (
            stands(held, e) ==> value_of(put@, e) == value_of(held, e)) by {
                if stands(held, e) {
                    let j = choose|j: int| stands_at(held, e, j);
                    lemma_value_at(held, j);
                    assert(put@[j] == held[j]);
                    lemma_value_at(put@, j);
                }
                if stands(put@, e) {
                    let j = choose|j: int| stands_at(put@, e, j);
                    assert(stands_at(held, e, j));
                }
            }
            if found {
                lemma_value_at(held, i as int);
            } else {
                assert(!stands(held, edge));
            }
            assert(self@ =~= old(self)@.insert(edge, n));
            assert forall|k: u64| distinct(#[trigger] bucket(self.buckets@, k)) by {
                if k == key {
                    assert(bucket(self.buckets@, k) == put@);
                } else {
                    assert(bucket(self.buckets@, k) == bucket(before, k));
                }
            }
            assert forall|k: u64, j: int|
                #![trigger bucket(self.buckets@, k)[j]]
                0 <= j < bucket(self.buckets@, k).len() implies key_of(
                self.by_child,
                bucket(self.buckets@, k)[j].0,
            ) == k by {
                if k == key {
                    assert(bucket(self.buckets@, k) == put@);
                    if j != at {
                        assert(put@[j] == held[j]);
                        assert(bucket(before, key)[j] == held[j]);
                    }
                } else {
                    assert(bucket(self.buckets@, k) == bucket(before, k));
                    assert(bucket(before, k)[j] == bucket(self.buckets@, k)[j]);
                }
            }
        }
    }

    /// Drops `edge` and returns the count it had.
    pub fn remove(&mut self, edge: &Edge) -> (n: Option<usize>)
        requires
            old(self).wf(),
        ensures
            final(self).wf(),
            final(self)@ == old(self)@.remove(*edge),
            final(self).keyed_by_child() == old(self).keyed_by_child(),
            match n {
                Some(v) => old(self)@.contains_key(*edge) && v == old(self)@[*edge],
                None => !old(self)@.contains_key(*edge),
            },
    {
        let key = Self::key(self.by_child, edge);
        let ghost before = self.buckets@;
        match self.buckets.remove(key) {
            None => {
                proof {
                    assert(self.buckets@ =~= before);
                    assert(!stands(bucket(before, key), *edge));
                    assert(self@ =~= old(self)@.remove(*edge));
                }
                None
            },
            Some(mut entries) => {
                let ghost held = entries@;
                proof {
                    assert(held == bucket(before, key));
                }
                let mut i: usize = 0;
                let mut found: bool = false;
                while i < entries.len()
                    invariant_except_break
                        !found,
                    invariant
                        i <= entries.len(),
                        entries@ == held,
                        forall|j: int| 0 <= j < i ==> held[j].0 != edge,
                    ensures
                        entries@ == held,
                        found ==> i < held.len() && held[i as int].0 == edge,
                        !found ==> forall|j: int| 0 <= j < held.len() ==> held[j].0 != edge,
                    decreases entries.len() - i,
                {
                    if entries[i].0 == *edge {
                        found = true;
                        break ;
                    }
                    i = i + 1;
                }
                let mut taken: Option<usize> = None;
                if found {
                    proof {
                        lemma_value_at(held, i as int);
                        assert(old(self)@.dom().contains(*edge));
                        assert(old(self)@.dom().remove(*edge).len() + 1 == old(self)@.dom().len());
                    }
                    self.count = self.count - 1;
                    let entry = entries.swap_remove(i);
                    taken = Some(entry.1);
                }
                let ghost put = entries;
                if entries.len() > 0 {
                    self.buckets.insert(key, entries);
                }
                proof {
                    lemma_replace_bucket(self.by_child, before, key, put);
                    assert(distinct(put@));
                    assert forall|e: Edge| (#[trigger] stands(put@, e) <==> stands(held, e) && e
                        != edge) && (stands(put@, e) ==> value_of(put@, e) == value_of(held, e)) by {
                        if stands(held, e) && e != edge {
                            let j = choose|j: int| stands_at(held, e, j);
                            lemma_value_at(held, j);
                            let k = if found && j == held.len() - 1 {
                                i as int
                            } else {
                                j
                            };
                            assert(put@[k] == held[j]);
                            lemma_value_at(put@, k);
                        }
                        if stands(put@, e) {
                            let j = choose|j: int| stands_at(put@, e, j);
                            let k = if found && j == i {
                                held.len() - 1
                            } else {
                                j
                            };
                            assert(put@[j] == held[k]);
                            assert(stands_at(held, e, k));
                        }
                    }
                    let swapped = before.insert(key, put);
                    assert forall|k: u64| #[trigger] bucket(self.buckets@, k) == bucket(
                        swapped,
                        k,
                    ) by {
                        if k == key && put@.len() == 0 {
                            assert(bucket(self.buckets@, k) =~= bucket(swapped, k));
                        }
                    }
                    assert(self@ =~= contents(self.by_child, swapped));
                    assert(self@ =~= old(self)@.remove(*edge));
                    assert forall|k: u64| distinct(#[trigger] bucket(self.buckets@, k)) by {
                        if k != key {
                            assert(bucket(self.buckets@, k) == bucket(before, k));
                        }
                    }
                    assert forall|k: u64, j: int|
                        #![trigger bucket(self.buckets@, k)[j]]
                        0 <= j < bucket(self.buckets@, k).len() implies key_of(
                        self.by_child,
                        bucket(self.buckets@, k)[j].0,
                    ) == k by {
                        if k == key {
                            let e = put@[j].0;
                            assert(stands_at(put@, e, j));
                            assert(stands(put@, e));
                            let m = choose|m: int| stands_at(held, e, m);
                            assert(bucket(before, key)[m].0 == e);
                        } else {
                            assert(bucket(self.buckets@, k) == bucket(before, k));
                            assert(bucket(before, k)[j] == bucket(self.buckets@, k)[j]);
                        }
                    }
                }
                taken
            },
        }
    }

    /// The edge of the given role that continues `parent` by the block `local`.
    pub fn continuation(
        &self,
        role: CoverageRole,
        parent: Option<ExternalSequenceBlockHash>,
        local: LocalBlockHash,
    ) -> (found: Option<Edge>)
        requires
            self.wf(),
            !self.keyed_by_child(),
        ensures
            match found {
                Some(e) => self@.contains_key(e) && e.role == role && e.parent == parent && e.local
                    == local,
                None => forall|e: Edge| #[trigger]
                    self@.contains_key(e) ==> !(e.role == role && e.parent == parent && e.local
                        == local),
            },
    {
        match self.buckets.get(local.0) {
            Some(entries) => {
                assert(entries@ == bucket(self.buckets@, local.0));
                let mut i: usize = 0;
                while i < entries.len()
                    invariant
                        i <= entries.len(),
                        !self.by_child,
                        self.wf(),
                        entries@ == bucket(self.buckets@, local.0),
                        forall|j: int|
                            0 <= j < i ==> !((#[trigger] entries@[j]).0.role == role
                                && entries@[j].0.parent == parent && entries@[j].0.local == local),
                    decreases entries.len() - i,
                {
                    let edge = entries[i].0;
                    if edge.role == role && edge.parent == parent && edge.local == local {
                        proof {
                            lemma_value_at(entries@, i as int);
                        }
                        return Some(edge);
                    }
                    i = i + 1;
                }
                None
            },
            None => None,
        }
    }

    /// An edge of the given role that leads to `child`.
    pub fn leading_to(&self, role: CoverageRole, child: ExternalSequenceBlockHash) -> (found: Option<
        Edge,
    >)
        requires
            self.wf(),
            self.keyed_by_child(),
        ensures
            match found {
                Some(e) => self@.contains_key(e) && e.role == role && e.child == child,
                None => forall|e: Edge| #[trigger]
                    self@.contains_key(e) ==> !(e.role == role && e.child == child),
            },
    {
        match self.buckets.get(child.0) {
            Some(entries) => {
                assert(entries@ == bucket(self.buckets@, child.0));
                let mut i: usize = 0;
                while i < entries.len()
                    invariant
                        i <= entries.len(),
                        self.by_child,
                        self.wf(),
                        entries@ == bucket(self.buckets@, child.0),
                        forall|j: int|
                            0 <= j < i ==> !((#[trigger] entries@[j]).0.role == role
                                && entries@[j].0.child == child),
                    decreases entries.len() - i,
                {
                    let edge = entries[i].0;
                    if edge.role == role && edge.child == child {
                        proof {
                            lemma_value_at(entries@, i as int);
                        }
                        return Some(edge);
                    }
                    i = i + 1;
                }
                None
            },
            None => None,
        }
    }

    /// The edges that the table holds, each once, in no promised order.
    pub fn edges(&self) -> (edges: Vec<Edge>)
        requires
            self.wf(),
        ensures
            edges@.no_duplicates(),
            edges@.to_set() == self@.dom(),
    {
        let keys = self.buckets.ids();
        let mut edges: Vec<Edge> = Vec::new();
        let mut k: usize = 0;
        while k < keys.len()
            invariant
                k <= keys.len(),
                self.wf(),
                keys@.no_duplicates(),
                keys@.to_set() == self.buckets@.dom(),
                edges@.no_duplicates(),
                forall|e: Edge| #[trigger]
                    edges@.contains(e) <==> self@.contains_key(e) && keys@.take(
                        k as int,
                    ).contains(key_of(self.by_child, e)),
            decreases keys.len() - k,
        {
            let key = keys[k];
            let ghost done = edges@;
            assert(keys@.to_set().contains(key));
            match self.buckets.get(key) {
                Some(entries) => {
                    assert(entries@ == bucket(self.buckets@, key));
                    let mut i: usize = 0;
                    while i < entries.len()
                        invariant
                            i <= entries.len(),
                            k < keys.len(),
                            self.wf(),
                            key == keys@[k as int],
                            entries@ == bucket(self.buckets@, key),
                            keys@.no_duplicates(),
                            edges@.no_duplicates(),
                            forall|e: Edge| #[trigger]
                                done.contains(e) <==> self@.contains_key(e) && keys@.take(
                                    k as int,
                                ).contains(key_of(self.by_child, e)),
                            edges@ == done + Seq::new(i as nat, |j: int| entries@[j].0),
                        decreases entries.len() - i,
                    {
                        let ghost listed = edges@;
                        let edge = entries[i].0;
                        proof {
                            assert(bucket(self.buckets@, key)[i as int].0 == edge);
                            assert(key_of(self.by_child, edge) == key);
                            assert(!keys@.take(k as int).contains(key));
                            assert(!done.contains(edge));
                            assert forall|j: int| 0 <= j < listed.len() implies listed[j] != edge by {
                                if j < done.len() {
                                    assert(done.contains(done[j]));
                                } else {
                                    assert(listed[j] == entries@[j - done.len()].0);
                                }
                            }
                        }
                        edges.push(edge);
                        assert(edges@ =~= done + Seq::new((i + 1) as nat, |j: int| entries@[j].0));
                        i = i + 1;
                    }
                    proof {
                        let listed = Seq::new(entries@.len(), |j: int| entries@[j].0);
                        assert forall|e: Edge| #[trigger]
                            edges@.contains(e) <==> self@.contains_key(e) && keys@.take(
                                k + 1,
                            ).contains(key_of(self.by_child, e)) by {
                            assert(keys@.take(k + 1) =~= keys@.take(k as int).push(key));
                            if edges@.contains(e) {
                                let j = choose|j: int| 0 <= j < edges@.len() && edges@[j] == e;
                                if j < done.len() {
                                    assert(done.contains(e));
                                    let upto = keys@.take(k as int);
                                    let m = choose|m: int|
                                        0 <= m < upto.len() && upto[m] == key_of(self.by_child, e);
                                    assert(keys@.take(k + 1)[m] == key_of(self.by_child, e));
                                } else {
                                    lemma_value_at(entries@, j - done.len());
                                    assert(keys@.take(k + 1)[k as int] == key);
                                }
                            }
                            if self@.contains_key(e) && keys@.take(k + 1).contains(
                                key_of(self.by_child, e),
                            ) {
                                let upto = keys@.take(k + 1);
                                let m = choose|m: int|
                                    0 <= m < upto.len() && upto[m] == key_of(self.by_child, e);
                                if m < k {
                                    assert(keys@.take(k as int)[m] == key_of(self.by_child, e));
                                    assert(done.contains(e));
                                    let j = choose|j: int| 0 <= j < done.len() && done[j] == e;
                                    assert(edges@[j] == e);
                                } else {
                                    let j = choose|j: int| stands_at(entries@, e, j);
                                    assert(edges@[done.len() + j] == e);
                                }
                            }
                        }
                    }
                },
                None => {},
            }
            k = k + 1;
        }
        proof {
            assert(keys@.take(k as int) =~= keys@);
            assert forall|e: Edge| #[trigger] edges@.to_set().contains(e) <==> self@.dom().contains(
                e,
            ) by {
                if self@.contains_key(e) {
                    assert(self.buckets@.contains_key(key_of(self.by_child, e)));
                    assert(keys@.to_set().contains(key_of(self.by_child, e)));
                }
                assert(edges@.contains(e) <==> self@.contains_key(e));
            }
            assert(edges@.to_set() =~= self@.dom());
        }
        edges
    }
}

} // verus!
