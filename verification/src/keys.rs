//! The keys of a hash map with number keys, as a vector: in any order, or ascending.
use std::collections::HashMap;
use vstd::prelude::*;
use vstd::std_specs::iter::IteratorSpec;

verus! {

broadcast use vstd::std_specs::hash::group_hash_axioms;

/// Whether each number of the sequence is below the one after it.
pub open spec fn ascending(keys: Seq<u32>) -> bool {
    forall|i: int, j: int| 0 <= i < j < keys.len() ==> keys[i] < keys[j]
}

/// The keys of `map`, each once, in no particular order.
pub fn keys_of<V>(map: &HashMap<u32, V>) -> (keys: Vec<u32>)
    ensures
        keys@.to_set() == map@.dom(),
        keys@.no_duplicates(),
{
    let mut keys: Vec<u32> = Vec::new();
    let ghost all = map.keys().remaining().unref();
    for key in it: map.keys()
        invariant
            it.seq().unref() == all,
            keys@ == all.take(it.index() as int),
    {
        keys.push(*key);
    }
    proof {
        assert(keys@ == all);
        assert(map.keys().remaining().no_duplicates());
    }
    keys
}

/// Puts `key` into an ascending vector at the place that keeps it ascending.
fn insert_ascending(keys: &mut Vec<u32>, key: u32)
    requires
        ascending(old(keys)@),
        !old(keys)@.contains(key),
    ensures
        ascending(final(keys)@),
        final(keys)@.to_set() == old(keys)@.to_set().insert(key),
{
    let mut at: usize = 0;
    while at < keys.len() && keys[at] < key
        invariant
            at <= keys.len(),
            *keys == *old(keys),
            forall|i: int| 0 <= i < at ==> keys@[i] < key,
        decreases keys.len() - at,
    {
        at += 1;
    }
    keys.insert(at, key);
    proof {
        let before = old(keys)@;
        let after = keys@;
        assert(after[at as int] == key);
        assert forall|i: int| at <= i < before.len() implies before[i] > key by {
            assert(before.contains(before[i]));
        }
        assert forall|i: int, j: int| 0 <= i < j < after.len() implies after[i] < after[j] by {
            if i < at && j > at {
                assert(after[i] == before[i] && after[j] == before[j - 1]);
            }
        }
        assert forall|k: u32| after.to_set().contains(k) == before.to_set().insert(
            key,
        ).contains(k) by {
            if after.contains(k) {
                let i = choose|i: int| 0 <= i < after.len() && after[i] == k;
                if i < at {
                    assert(before[i] == k);
                } else if i > at {
                    assert(before[i - 1] == k);
                }
            }
            if before.contains(k) {
                let i = choose|i: int| 0 <= i < before.len() && before[i] == k;
                if i < at {
                    assert(after[i] == k);
                } else {
                    assert(after[i + 1] == k);
                }
            }
        }
        assert(after.to_set() =~= before.to_set().insert(key));
    }
}

/// The keys of `map`, each once, in ascending order.
pub fn ascending_keys<V>(map: &HashMap<u32, V>) -> (keys: Vec<u32>)
    ensures
        keys@.to_set() == map@.dom(),
        ascending(keys@),
{
    let unordered = keys_of(map);
    let mut keys: Vec<u32> = Vec::new();
    let mut i: usize = 0;
    while i < unordered.len()
        invariant
            i <= unordered.len(),
            unordered@.no_duplicates(),
            ascending(keys@),
            keys@.to_set() == unordered@.take(i as int).to_set(),
        decreases unordered.len() - i,
    {
        let key: u32 = unordered[i];
        proof {
            if keys@.contains(key) {
                assert(unordered@.take(i as int).to_set().contains(key));
                let j = choose|j: int|
                    0 <= j < i && unordered@.take(i as int)[j] == key;
                assert(unordered@[j] == unordered@[i as int]);
            }
        }
        insert_ascending(&mut keys, key);
        proof {
            let before = unordered@.take(i as int);
            let after = unordered@.take(i + 1);
            assert(after == before.push(key));
            assert forall|k: u32| after.to_set().contains(k) == before.to_set().insert(
                key,
            ).contains(k) by {
                if after.contains(k) {
                    let j = choose|j: int| 0 <= j < after.len() && after[j] == k;
                    if j < i {
                        assert(before[j] == k);
                    }
                }
                if before.contains(k) {
                    let j = choose|j: int| 0 <= j < before.len() && before[j] == k;
                    assert(after[j] == k);
                }
                assert(after[i as int] == key);
            }
            assert(after.to_set() =~= before.to_set().insert(key));
        }
        i += 1;
    }
    proof {
        assert(unordered@.take(i as int) == unordered@);
    }
    keys
}

} // verus!
