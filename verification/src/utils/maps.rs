//! Walking over hash maps.

use std::collections::HashMap;
use vstd::prelude::*;
use vstd::std_specs::hash::obeys_key_model;

verus! {

broadcast use vstd::std_specs::hash::group_hash_axioms;

/// All keys of a map, in arbitrary order.
pub fn keys_of<K: Copy, V>(m: &HashMap<K, V>) -> (keys: Vec<K>)
    requires
        obeys_key_model::<K>(),
    ensures
        keys@.no_duplicates(),
        keys@.to_set() == m@.dom(),
        keys@.len() == m@.len(),
{
    let mut keys: Vec<K> = Vec::new();
    for k in it: m.keys()
        invariant
            keys@.len() == it.index(),
            forall|i: int| 0 <= i < keys@.len() ==> #[trigger] keys@[i] == *it.seq()[i],
    {
        keys.push(*k);
    }
    proof {
        let all = vstd::std_specs::iter::IteratorSpec::remaining(
            &vstd::std_specs::hash::spec_keys_iter(m),
        );
        assert(keys@ =~= all.unref());
        assert forall|i: int, j: int| 0 <= i < j < keys@.len() implies keys@[i] != keys@[j] by {
            assert(all[i] != all[j]);
        }
    }
    keys
}

} // verus!
