//! The keys of an integer-keyed hash map, listed once each.
use vstd::prelude::*;
use vstd::std_specs::iter::IteratorSpec;

use std::collections::HashMap;

verus! {

broadcast use vstd::std_specs::hash::group_hash_axioms;

/// The keys of `m`, each once.
pub fn keys_of<E>(m: &HashMap<u64, E>) -> (ks: Vec<u64>)
    ensures
        ks@.to_set() == m@.dom(),
        ks@.no_duplicates(),
{
    let ghost expected = vstd::std_specs::hash::spec_keys_iter(m).remaining().unref();
    let mut ks: Vec<u64> = Vec::new();
    for k in it: m.keys()
        invariant
            expected == vstd::std_specs::hash::spec_keys_iter(m).remaining().unref(),
            it.seq().unref() == expected,
            ks@ == expected.take(it.index()),
    {
        proof {
            assert(expected.take(it.index() + 1) =~= ks@.push(*k));
        }
        ks.push(*k);
    }
    assert(ks@ =~= expected);
    ks
}

} // verus!
