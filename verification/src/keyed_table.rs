//! A table of values under keys that are compared by what they stand for.

use crate::protocols::WorkerWithDpRank;
use vstd::prelude::*;

verus! {

/// A key of a table.
pub trait TableKey: Sized {
    /// What the key stands for.
    type Key;

    spec fn key(&self) -> Self::Key;

    fn same_key(&self, other: &Self) -> (same: bool)
        ensures
            same == (self.key() == other.key()),
    ;
}

impl TableKey for String {
    type Key = Seq<char>;

    open spec fn key(&self) -> Seq<char> {
        self@
    }

    fn same_key(&self, other: &Self) -> (same: bool) {
        *self == *other
    }
}

impl TableKey for u64 {
    type Key = u64;

    open spec fn key(&self) -> u64 {
        *self
    }

    fn same_key(&self, other: &Self) -> (same: bool) {
        *self == *other
    }
}

impl TableKey for WorkerWithDpRank {
    type Key = WorkerWithDpRank;

    open spec fn key(&self) -> WorkerWithDpRank {
        *self
    }

    fn same_key(&self, other: &Self) -> (same: bool) {
        *self == *other
    }
}

/// The entry of `key` stands at position `i`.
pub open spec fn entry_at<K: TableKey, V>(entries: Seq<(K, V)>, key: K::Key, i: int) -> bool {
    0 <= i < entries.len() && entries[i].0.key() == key
}

/// No key has two entries.
pub open spec fn distinct_keys<K: TableKey, V>(entries: Seq<(K, V)>) -> bool {
    forall|i: int, j: int|
        0 <= i < entries.len() && 0 <= j < entries.len() && i != j ==> (
        #[trigger] entries[i]).0.key() != (#[trigger] entries[j]).0.key()
}

/// The map that the entries list.
pub open spec fn map_of<K: TableKey, V>(entries: Seq<(K, V)>) -> Map<K::Key, V> {
    Map::new(
        |key: K::Key| exists|i: int| entry_at(entries, key, i),
        |key: K::Key| entries[choose|i: int| entry_at(entries, key, i)].1,
    )
}

/// An entry is found under its key.
pub proof fn lemma_entry<K: TableKey, V>(entries: Seq<(K, V)>, i: int)
    requires
        distinct_keys(entries),
        0 <= i < entries.len(),
    ensures
        map_of(entries).contains_key(entries[i].0.key()),
        map_of(entries)[entries[i].0.key()] == entries[i].1,
{
    assert(entry_at(entries, entries[i].0.key(), i));
    let j = choose|j: int| entry_at(entries, entries[i].0.key(), j);
    assert(j == i);
}

/// Adding an entry under a new key.
pub proof fn lemma_push<K: TableKey, V>(entries: Seq<(K, V)>, entry: (K, V))
    requires
        distinct_keys(entries),
        !map_of(entries).contains_key(entry.0.key()),
    ensures
        distinct_keys(entries.push(entry)),
        map_of(entries.push(entry)) == map_of(entries).insert(entry.0.key(), entry.1),
{
    let after = entries.push(entry);
    let key = entry.0.key();
    assert forall|i: int| 0 <= i < entries.len() implies (#[trigger] entries[i]).0.key() != key by {
        if entries[i].0.key() == key {
            assert(entry_at(entries, key, i));
        }
    }
    assert forall|i: int, j: int|
        0 <= i < after.len() && 0 <= j < after.len() && i != j implies (#[trigger] after[i]).0.key()
        != (#[trigger] after[j]).0.key() by {
        if i < entries.len() {
            assert(after[i] == entries[i]);
        }
        if j < entries.len() {
            assert(after[j] == entries[j]);
        }
    }
    assert forall|k: K::Key| map_of(after).contains_key(k) == map_of(entries).insert(
        key,
        entry.1,
    ).contains_key(k) by {
        if k == key {
            assert(entry_at(after, k, entries.len() as int));
        }
        if exists|i: int| entry_at(entries, k, i) {
            let i = choose|i: int| entry_at(entries, k, i);
            assert(entry_at(after, k, i));
        }
        if exists|i: int| entry_at(after, k, i) {
            let i = choose|i: int| entry_at(after, k, i);
            if i < entries.len() {
                assert(entry_at(entries, k, i));
            }
        }
    }
    assert(map_of(after) =~= map_of(entries).insert(key, entry.1)) by {
        assert forall|k: K::Key| #[trigger] map_of(after).contains_key(k) implies map_of(after)[k]
            == map_of(entries).insert(key, entry.1)[k] by {
            let i = choose|i: int| entry_at(after, k, i);
            lemma_entry(after, i);
            if i < entries.len() {
                lemma_entry(entries, i);
            }
        }
    }
}

/// Replacing the value of an entry.
pub proof fn lemma_update<K: TableKey, V>(entries: Seq<(K, V)>, i: int, entry: (K, V))
    requires
        distinct_keys(entries),
        0 <= i < entries.len(),
        entry.0.key() == entries[i].0.key(),
    ensures
        distinct_keys(entries.update(i, entry)),
        map_of(entries.update(i, entry)) == map_of(entries).insert(entry.0.key(), entry.1),
{
    let after = entries.update(i, entry);
    let key = entry.0.key();
    assert forall|a: int| 0 <= a < after.len() implies (#[trigger] after[a]).0.key()
        == entries[a].0.key() by {}
    assert forall|k: K::Key| map_of(after).contains_key(k) == map_of(entries).insert(
        key,
        entry.1,
    ).contains_key(k) by {
        if exists|a: int| entry_at(after, k, a) {
            let a = choose|a: int| entry_at(after, k, a);
            assert(entry_at(entries, k, a));
        }
        if exists|a: int| entry_at(entries, k, a) {
            let a = choose|a: int| entry_at(entries, k, a);
            assert(entry_at(after, k, a));
        }
        if k == key {
            assert(entry_at(after, k, i));
        }
    }
    assert(map_of(after) =~= map_of(entries).insert(key, entry.1)) by {
        assert forall|k: K::Key| #[trigger] map_of(after).contains_key(k) implies map_of(after)[k]
            == map_of(entries).insert(key, entry.1)[k] by {
            let a = choose|a: int| entry_at(after, k, a);
            lemma_entry(after, a);
            lemma_entry(entries, a);
        }
    }
}

/// Taking an entry out.
pub proof fn lemma_remove<K: TableKey, V>(entries: Seq<(K, V)>, i: int)
    requires
        distinct_keys(entries),
        0 <= i < entries.len(),
    ensures
        distinct_keys(entries.remove(i)),
        map_of(entries.remove(i)) == map_of(entries).remove(entries[i].0.key()),
{
    let after = entries.remove(i);
    let key = entries[i].0.key();
    assert forall|a: int| 0 <= a < after.len() implies (#[trigger] after[a]) == entries[if a < i {
        a
    } else {
        a + 1
    }] by {}
    assert forall|k: K::Key| map_of(after).contains_key(k) == map_of(entries).remove(
        key,
    ).contains_key(k) by {
        if exists|a: int| entry_at(after, k, a) {
            let a = choose|a: int| entry_at(after, k, a);
            let b = if a < i {
                a
            } else {
                a + 1
            };
            assert(after[a] == entries[b]);
            assert(entry_at(entries, k, b));
            assert(entries[b].0.key() != entries[i].0.key());
        }
        if k != key && (exists|b: int| entry_at(entries, k, b)) {
            let b = choose|b: int| entry_at(entries, k, b);
            let a = if b < i {
                b
            } else {
                b - 1
            };
            assert(after[a] == entries[b]);
            assert(entry_at(after, k, a));
        }
    }
    assert(distinct_keys(after)) by {
        assert forall|a: int, c: int|
            0 <= a < after.len() && 0 <= c < after.len() && a != c implies (
        #[trigger] after[a]).0.key() != (#[trigger] after[c]).0.key() by {
            let x = if a < i { a } else { a + 1 };
            let y = if c < i { c } else { c + 1 };
            assert(after[a] == entries[x] && after[c] == entries[y]);
        }
    }
    assert(map_of(after) =~= map_of(entries).remove(key)) by {
        assert forall|k: K::Key| #[trigger] map_of(after).contains_key(k) implies map_of(after)[k]
            == map_of(entries).remove(key)[k] by {
            let a = choose|a: int| entry_at(after, k, a);
            lemma_entry(after, a);
            let b = if a < i { a } else { a + 1 };
            assert(after[a] == entries[b]);
            lemma_entry(entries, b);
        }
    }
}

/// There are as many keys as entries.
pub proof fn lemma_size<K: TableKey, V>(entries: Seq<(K, V)>)
    requires
        distinct_keys(entries),
    ensures
        map_of(entries).dom().finite(),
        map_of(entries).dom().len() == entries.len(),
    decreases entries.len(),
{
    if entries.len() == 0 {
        assert(map_of(entries).dom() =~= Set::empty());
    } else {
        let last = entries.len() - 1;
        assert(entries.remove(last) =~= entries.drop_last());
        lemma_remove(entries, last);
        lemma_size(entries.drop_last());
        lemma_entry(entries, last);
        assert(map_of(entries).dom() =~= map_of(entries.drop_last()).dom().insert(
            entries[last].0.key(),
        ));
    }
}

/// A table of values under distinct keys, in the order of their first
/// insertion.
pub struct KeyedTable<K, V> {
    pub(crate) entries: Vec<(K, V)>,
}

impl<K: TableKey, V> View for KeyedTable<K, V> {
    type V = Map<K::Key, V>;

    open(crate) spec fn view(&self) -> Map<K::Key, V> {
        map_of(self.entries@)
    }
}

impl<K: TableKey, V> KeyedTable<K, V> {
    pub open(crate) spec fn wf(&self) -> bool {
        distinct_keys(self.entries@)
    }

    pub fn new() -> (s: Self)
        ensures
            s.wf(),
            s@ == Map::<K::Key, V>::empty(),
    {
        let s = KeyedTable { entries: Vec::new() };
        assert(s@ =~= Map::<K::Key, V>::empty());
        s
    }

    /// How many keys there are.
    pub fn len(&self) -> (n: usize)
        requires
            self.wf(),
        ensures
            n == self@.len(),
            self@.dom().finite(),
    {
        proof {
            lemma_size(self.entries@);
        }
        self.entries.len()
    }

    /// The position of the entry of `key`.
    pub(crate) fn position(&self, key: &K) -> (at: Option<usize>)
        requires
            self.wf(),
        ensures
            match at {
                Some(i) => {
                    &&& i < self.entries@.len()
                    &&& self.entries@[i as int].0.key() == key.key()
                    &&& self@.contains_key(key.key())
                    &&& self@[key.key()] == self.entries@[i as int].1
                },
                None => !self@.contains_key(key.key()),
            },
    {
        let mut i: usize = 0;
        while i < self.entries.len()
            invariant
                self.wf(),
                i <= self.entries@.len(),
                forall|j: int| 0 <= j < i ==> (#[trigger] self.entries@[j]).0.key() != key.key(),
            decreases self.entries@.len() - i,
        {
            if self.entries[i].0.same_key(key) {
                proof {
                    lemma_entry(self.entries@, i as int);
                }
                return Some(i);
            }
            i = i + 1;
        }
        None
    }

    /// Whether `key` has a value.
    pub fn contains(&self, key: &K) -> (yes: bool)
        requires
            self.wf(),
        ensures
            yes == self@.contains_key(key.key()),
    {
        self.position(key).is_some()
    }

    /// The value of `key`, if it has one.
    pub fn get(&self, key: &K) -> (value: Option<&V>)
        requires
            self.wf(),
        ensures
            match value {
                Some(v) => self@.contains_key(key.key()) && *v == self@[key.key()],
                None => !self@.contains_key(key.key()),
            },
    {
        match self.position(key) {
            Some(i) => Some(&self.entries[i].1),
            None => None,
        }
    }

    /// Sets the value of `key` and hands back the one it had.
    pub fn insert(&mut self, key: K, value: V) -> (previous: Option<V>)
        requires
            old(self).wf(),
        ensures
            final(self).wf(),
            final(self)@ == old(self)@.insert(key.key(), value),
            match previous {
                Some(v) => old(self)@.contains_key(key.key()) && v == old(self)@[key.key()],
                None => !old(self)@.contains_key(key.key()),
            },
    {
        let ghost before = self.entries@;
        let ghost entry = (key, value);
        match self.position(&key) {
            Some(i) => {
                let mut entry = (key, value);
                proof {
                    lemma_update(before, i as int, entry);
                }
                std::mem::swap(&mut self.entries[i], &mut entry);
                assert(self.entries@ =~= before.update(i as int, (key, value)));
                Some(entry.1)
            },
            None => {
                proof {
                    lemma_push(before, entry);
                }
                self.entries.push((key, value));
                None
            },
        }
    }

    /// Takes out the value of `key`.
    pub fn remove(&mut self, key: &K) -> (previous: Option<V>)
        requires
            old(self).wf(),
        ensures
            final(self).wf(),
            final(self)@ == old(self)@.remove(key.key()),
            match previous {
                Some(v) => old(self)@.contains_key(key.key()) && v == old(self)@[key.key()],
                None => !old(self)@.contains_key(key.key()),
            },
    {
        let ghost before = self.entries@;
        match self.position(key) {
            Some(i) => {
                proof {
                    lemma_remove(before, i as int);
                }
                let entry = self.entries.remove(i);
                Some(entry.1)
            },
            None => {
                assert(self@ =~= self@.remove(key.key()));
                None
            },
        }
    }

    /// Takes everything out.
    pub fn clear(&mut self)
        ensures
            final(self).wf(),
            final(self)@ == Map::<K::Key, V>::empty(),
    {
        self.entries.clear();
        assert(self@ =~= Map::<K::Key, V>::empty());
    }
}

} // verus!
