use std::collections::HashMap;
use vstd::prelude::*;
use vstd::std_specs::iter::IteratorSpec;

use crate::data::PlayerId;

verus! {

broadcast use vstd::std_specs::hash::group_hash_axioms;

/// The keys of a map, each once, in the map's own (unspecified) order.
pub fn map_keys<V>(m: &HashMap<PlayerId, V>) -> (keys: Vec<PlayerId>)
    ensures
        keys@.no_duplicates(),
        keys@.to_set() == m@.dom(),
{
    let mut keys: Vec<PlayerId> = Vec::new();
    for k in it: m.keys()
        invariant
            it.seq() == vstd::std_specs::hash::spec_keys_iter(m).remaining(),
            keys@ == it.seq().take(it.index()).unref(),
    {
        proof {
            assert(0 <= it.index() < it.seq().len());
            assert(*k == *it.seq()[it.index()]);
        }
        keys.push(*k);
        proof {
            assert(it.seq().take(it.index() + 1).unref() =~= keys@);
        }
    }
    proof {
        let full = vstd::std_specs::hash::spec_keys_iter(m).remaining();
        assert(keys@ =~= full.unref());
    }
    keys
}

} // verus!
