//! The keys of hash maps, in no particular order.
use std::collections::HashMap;

use vstd::prelude::*;
use vstd::std_specs::hash::spec_keys_iter;
use vstd::std_specs::iter::IteratorSpec;

verus! {

broadcast use vstd::std_specs::hash::group_hash_axioms;

/// Whether a list names every key of a map exactly once.
pub open spec fn lists_keys<K, V>(keys: Seq<K>, m: Map<K, V>) -> bool {
    &&& keys.no_duplicates()
    &&& forall|k: K| #[trigger] keys.contains(k) <==> m.contains_key(k)
}

/// The fingerprints that a map has entries for.
pub fn fingerprints_of<V>(m: &HashMap<u64, V>) -> (keys: Vec<u64>)
    ensures
        lists_keys(keys@, m@),
{
    let mut keys: Vec<u64> = Vec::new();
    let ghost refs = spec_keys_iter(m).remaining();
    let ghost all = refs.unref();
    for k in it: m.keys()
        invariant
            it.seq() == refs,
            all == refs.unref(),
            keys@ == all.take(it.index()),
    {
        keys.push(*k);
        proof {
            assert(all.take(it.index() + 1) =~= all.take(it.index()).push(*k));
        }
    }
    proof {
        assert(all.take(all.len() as int) =~= all);
        assert(all.to_set() == m@.dom());
        assert(all.no_duplicates()) by {
            assert forall|i: int, j: int| 0 <= i < all.len() && 0 <= j < all.len() && i
                != j implies all[i] != all[j] by {
                assert(refs[i] != refs[j]);
            }
        }
        lemma_listed(keys@, m@.dom());
    }
    keys
}

/// The relations that a map has entries for.
pub fn oids_of<V>(m: &HashMap<u32, V>) -> (keys: Vec<u32>)
    ensures
        lists_keys(keys@, m@),
{
    let mut keys: Vec<u32> = Vec::new();
    let ghost refs = spec_keys_iter(m).remaining();
    let ghost all = refs.unref();
    for k in it: m.keys()
        invariant
            it.seq() == refs,
            all == refs.unref(),
            keys@ == all.take(it.index()),
    {
        keys.push(*k);
        proof {
            assert(all.take(it.index() + 1) =~= all.take(it.index()).push(*k));
        }
    }
    proof {
        assert(all.take(all.len() as int) =~= all);
        assert(all.to_set() == m@.dom());
        assert(all.no_duplicates()) by {
            assert forall|i: int, j: int| 0 <= i < all.len() && 0 <= j < all.len() && i
                != j implies all[i] != all[j] by {
                assert(refs[i] != refs[j]);
            }
        }
        lemma_listed(keys@, m@.dom());
    }
    keys
}

proof fn lemma_listed<K>(keys: Seq<K>, dom: Set<K>)
    requires
        keys.to_set() == dom,
    ensures
        forall|k: K| #[trigger] keys.contains(k) <==> dom.contains(k),
{
    assert forall|k: K| #[trigger] keys.contains(k) <==> dom.contains(k) by {
        assert(keys.to_set().contains(k) <==> keys.contains(k));
    }
}

} // verus!
