//! A map keyed by 64-bit identifiers, backed by `rustc_hash::FxHashMap`.

use rustc_hash::{FxBuildHasher, FxHashMap};
use vstd::prelude::*;

verus! {

/// The hasher factory behind `FxHashMap`, opaque to the proofs.
#[verifier::external_type_specification]
#[verifier::external_body]
pub struct ExFxBuildHasher(FxBuildHasher);

/// `FxHashMap::insert`: binds the key, replacing and returning the value it
/// was bound to. `FxBuildHasher` starts every hasher from the same state, so
/// equal keys always meet the same bucket.
#[verifier::external_body]
fn fx_insert<V>(map: &mut FxHashMap<u64, V>, id: u64, value: V) -> (previous: Option<V>)
    ensures
        final(map)@ == old(map)@.insert(id, value),
        match previous {
            Some(v) => old(map)@.contains_key(id) && v == old(map)@[id],
            None => !old(map)@.contains_key(id),
        },
{
    map.insert(id, value)
}

/// `FxHashMap::remove`: unbinds the key and returns the value it was bound to.
#[verifier::external_body]
fn fx_remove<V>(map: &mut FxHashMap<u64, V>, id: u64) -> (previous: Option<V>)
    ensures
        final(map)@ == old(map)@.remove(id),
        match previous {
            Some(v) => old(map)@.contains_key(id) && v == old(map)@[id],
            None => !old(map)@.contains_key(id),
        },
{
    map.remove(&id)
}

/// `FxHashMap::get`: the value bound to the key, if it is bound.
#[verifier::external_body]
fn fx_get<V>(map: &FxHashMap<u64, V>, id: u64) -> (value: Option<&V>)
    ensures
        match value {
            Some(v) => map@.contains_key(id) && *v == map@[id],
            None => !map@.contains_key(id),
        },
{
    map.get(&id)
}

/// `FxHashMap::len`: the number of bound keys.
#[verifier::external_body]
fn fx_len<V>(map: &FxHashMap<u64, V>) -> (n: usize)
    ensures
        n == map@.len(),
{
    map.len()
}

/// `FxHashMap::keys`: every bound key once, in an order that is not promised.
#[verifier::external_body]
fn fx_keys<V>(map: &FxHashMap<u64, V>) -> (ids: Vec<u64>)
    ensures
        ids@.no_duplicates(),
        ids@.to_set() == map@.dom(),
{
    map.keys().copied().collect()
}

/// A finite map from identifiers to values.
#[verifier::reject_recursive_types(V)]
pub struct IdMap<V> {
    map: FxHashMap<u64, V>,
}

impl<V> View for IdMap<V> {
    type V = Map<u64, V>;

    closed spec fn view(&self) -> Map<u64, V> {
        self.map@
    }
}

impl<V> IdMap<V> {
    /// The map that holds nothing.
    pub fn new() -> (s: Self)
        ensures
            s@ == Map::<u64, V>::empty(),
    {
        IdMap { map: FxHashMap::default() }
    }

    /// How many identifiers are bound.
    pub fn len(&self) -> (n: usize)
        ensures
            n == self@.len(),
    {
        fx_len(&self.map)
    }

    /// Whether `id` is bound.
    pub fn contains(&self, id: u64) -> (b: bool)
        ensures
            b == self@.contains_key(id),
    {
        fx_get(&self.map, id).is_some()
    }

    /// The value bound to `id`, if any.
    pub fn get(&self, id: u64) -> (value: Option<&V>)
        ensures
            match value {
                Some(v) => self@.contains_key(id) && *v == self@[id],
                None => !self@.contains_key(id),
            },
    {
        fx_get(&self.map, id)
    }

    /// Binds `id` to `value` and hands back what it was bound to.
    pub fn insert(&mut self, id: u64, value: V) -> (previous: Option<V>)
        ensures
            final(self)@ == old(self)@.insert(id, value),
            match previous {
                Some(v) => old(self)@.contains_key(id) && v == old(self)@[id],
                None => !old(self)@.contains_key(id),
            },
    {
        fx_insert(&mut self.map, id, value)
    }

    /// Unbinds `id` and hands back what it was bound to.
    pub fn remove(&mut self, id: u64) -> (previous: Option<V>)
        ensures
            final(self)@ == old(self)@.remove(id),
            match previous {
                Some(v) => old(self)@.contains_key(id) && v == old(self)@[id],
                None => !old(self)@.contains_key(id),
            },
    {
        fx_remove(&mut self.map, id)
    }

    /// Unbinds everything.
    pub fn clear(&mut self)
        ensures
            final(self)@ == Map::<u64, V>::empty(),
    {
        self.map.clear();
    }

    /// The bound identifiers, each once, in no promised order.
    pub fn ids(&self) -> (ids: Vec<u64>)
        ensures
            ids@.no_duplicates(),
            ids@.to_set() == self@.dom(),
            ids@.len() == self@.len(),
    {
        let ids = fx_keys(&self.map);
        proof {
            ids@.unique_seq_to_set();
        }
        ids
    }

    /// Only finitely many identifiers are bound.
    pub proof fn lemma_finite(&self)
        ensures
            self@.dom().finite(),
    {
        broadcast use vstd::std_specs::hash::group_hash_axioms;

        let keys = vstd::std_specs::iter::IteratorSpec::remaining(
            &vstd::std_specs::hash::spec_keys_iter(&self.map),
        ).unref();
        assert(keys.to_set() == self.map@.dom());
        vstd::seq_lib::seq_to_set_is_finite(keys);
    }
}

} // verus!
