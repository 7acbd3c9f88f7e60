//! Maps keyed by the index of an output choice.

use std::collections::BTreeMap;
use vstd::prelude::*;

verus! {

/// Strictly ascending.
pub open spec fn ascending(choices: Seq<u32>) -> bool {
    forall|i: int, j: int| 0 <= i < j < choices.len() ==> #[trigger] choices[i] < #[trigger] choices[j]
}

/// The choices of a map, in ascending order.
pub fn choices_of<V>(map: &BTreeMap<u32, V>) -> (choices: Vec<u32>)
    ensures
        ascending(choices@),
        choices@.to_set() == map@.dom(),
{
    broadcast use vstd::std_specs::btree::group_btree_axioms;
    broadcast use vstd::laws_cmp::group_laws_cmp;

    let mut choices: Vec<u32> = Vec::new();
    let keys = map.keys();
    let ghost all = vstd::std_specs::iter::IteratorSpec::remaining(&keys);
    assert(choices@ =~= all.unref().take(0));
    for key in it: keys
        invariant
            it.seq() == all,
            choices@ == all.unref().take(it.index()),
    {
        assert(all.unref().take(it.index() + 1) =~= all.unref().take(it.index()).push(*key));
        choices.push(*key);
    }
    assert(choices@ =~= all.unref());
    assert(ascending(choices@)) by {
        assert forall|i: int, j: int| 0 <= i < j < choices@.len() implies #[trigger] choices@[i]
            < #[trigger] choices@[j] by {
            assert(vstd::std_specs::cmp::OrdSpec::cmp_spec(&all[i], &all[j]) is Less);
        }
    }
    choices
}

/// The value of a choice, if there is one.
pub fn value_of<V>(map: &BTreeMap<u32, V>, choice: u32) -> (value: Option<&V>)
    ensures
        match value {
            Some(v) => map@.contains_key(choice) && *v == map@[choice],
            None => !map@.contains_key(choice),
        },
{
    broadcast use vstd::std_specs::btree::group_btree_axioms;
    broadcast use vstd::laws_cmp::group_laws_cmp;

    map.get(&choice)
}

/// Sets the value of a choice.
pub fn set_value<V>(map: &mut BTreeMap<u32, V>, choice: u32, value: V)
    ensures
        final(map)@ == old(map)@.insert(choice, value),
{
    broadcast use vstd::std_specs::btree::group_btree_axioms;
    broadcast use vstd::laws_cmp::group_laws_cmp;

    map.insert(choice, value);
}

/// Takes the value of a choice out.
pub fn take_value<V>(map: &mut BTreeMap<u32, V>, choice: u32) -> (value: Option<V>)
    ensures
        final(map)@ == old(map)@.remove(choice),
        match value {
            Some(v) => old(map)@.contains_key(choice) && v == old(map)@[choice],
            None => !old(map)@.contains_key(choice),
        },
{
    broadcast use vstd::std_specs::btree::group_btree_axioms;
    broadcast use vstd::laws_cmp::group_laws_cmp;

    let value = map.remove(&choice);
    assert(value is None ==> old(map)@.remove(choice) =~= old(map)@);
    value
}

/// The values of the choices below `n`, one after the other.
pub open spec fn joined_below(map: Map<u32, Vec<u64>>, n: nat) -> Seq<u64>
    decreases n,
{
    if n == 0 {
        Seq::empty()
    } else {
        joined_below(map, (n - 1) as nat) + if map.contains_key((n - 1) as u32) {
            map[(n - 1) as u32]@
        } else {
            Seq::empty()
        }
    }
}

/// The values of all choices, one after the other, in the order of the choices.
pub open spec fn joined(map: Map<u32, Vec<u64>>) -> Seq<u64> {
    joined_below(map, 0x1_0000_0000)
}

proof fn lemma_nothing_between(map: Map<u32, Vec<u64>>, from: nat, to: nat)
    requires
        from <= to <= 0x1_0000_0000,
        forall|c: u32| from <= c < to ==> !(#[trigger] map.contains_key(c)),
    ensures
        joined_below(map, from) == joined_below(map, to),
    decreases to - from,
{
    if from < to {
        lemma_nothing_between(map, from, (to - 1) as nat);
        assert(!map.contains_key((to - 1) as u32));
        assert(joined_below(map, to) =~= joined_below(map, (to - 1) as nat));
    }
}

/// Joins the values of all choices.
pub fn join(map: &BTreeMap<u32, Vec<u64>>) -> (values: Vec<u64>)
    ensures
        values@ == joined(map@),
{
    let choices = choices_of(map);
    let mut values: Vec<u64> = Vec::new();
    let mut i: usize = 0;
    let ghost mut done: nat = 0;
    while i < choices.len()
        invariant
            i <= choices@.len(),
            ascending(choices@),
            choices@.to_set() == map@.dom(),
            done == (if i == 0 {
                0nat
            } else {
                (choices@[i - 1] + 1) as nat
            }),
            values@ == joined_below(map@, done),
        decreases choices@.len() - i,
    {
        let choice: u32 = choices[i];
        assert(choices@.to_set().contains(choice));
        proof {
            assert forall|c: u32| done <= c < choice implies !(#[trigger] map@.contains_key(c)) by {
                if map@.contains_key(c) {
                    assert(choices@.to_set().contains(c));
                    let j = choose|j: int| 0 <= j < choices@.len() && choices@[j] == c;
                    if j >= i {
                        assert(choices@[i as int] <= choices@[j]);
                    } else {
                        assert(choices@[j] <= choices@[i - 1]);
                    }
                }
            }
            lemma_nothing_between(map@, done, choice as nat);
        }
        if let Some(value) = value_of(map, choice) {
            let ghost before = values@;
            values.extend_from_slice(value.as_slice());
            assert(values@ =~= before + map@[choice]@);
        }
        proof {
            done = (choice + 1) as nat;
        }
        i = i + 1;
    }
    proof {
        assert forall|c: u32| done <= c < 0x1_0000_0000 implies !(#[trigger] map@.contains_key(
            c,
        )) by {
            if map@.contains_key(c) {
                assert(choices@.to_set().contains(c));
                let j = choose|j: int| 0 <= j < choices@.len() && choices@[j] == c;
                assert(choices@[j] <= choices@[i - 1]);
            }
        }
        lemma_nothing_between(map@, done, 0x1_0000_0000);
    }
    values
}

} // verus!
