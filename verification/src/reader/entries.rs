use std::collections::BTreeMap;
use vstd::prelude::*;
use vstd::std_specs::cmp::OrdSpec;
use vstd::std_specs::iter::IteratorSpec;

use crate::base::Record;

verus! {

/// Object numbers are ordered as integers are, as the maps of sections require.
pub proof fn lemma_numbers_ordered()
    ensures
        vstd::laws_cmp::obeys_cmp::<u64>(),
        vstd::std_specs::btree::key_obeys_cmp_spec::<u64>(),
{
    broadcast use vstd::std_specs::btree::group_btree_axioms;
    broadcast use vstd::laws_cmp::group_laws_cmp;
}

/// The entries of a cross-reference map in increasing order of object number.
pub fn sorted_entries(m: &BTreeMap<u64, Record>) -> (r: Vec<(u64, Record)>)
    ensures
        forall|i: int| 0 <= i < r@.len() ==> m@.contains_key(#[trigger] r@[i].0) && m@[r@[i].0] == r@[i].1,
        forall|i: int, j: int| 0 <= i < j < r@.len() ==> r@[i].0 < r@[j].0,
        forall|k: u64| m@.contains_key(k) ==> exists|i: int| 0 <= i < r@.len() && #[trigger] r@[i].0 == k,
{
    let mut out: Vec<(u64, Record)> = Vec::new();
    let it = m.iter();
    let ghost s = it.remaining();
    let ghost keys = s.map_values(|kv: (&u64, &Record)| *kv.0);
    assert(vstd::std_specs::btree::increasing_seq(keys));
    proof {
        vstd::std_specs::btree::axiom_increasing_seq_meaning(keys);
    }
    for (k, v) in iter: it
        invariant
            out@.len() == iter.index(),
            iter.seq() == s,
            forall|i: int| 0 <= i < out@.len() ==> out@[i] == (*s[i].0, *s[i].1),
    {
        out.push((*k, *v));
    }
    assert forall|i: int, j: int| 0 <= i < j < out@.len() implies out@[i].0 < out@[j].0 by {
        assert(keys[i] == out@[i].0);
        assert(keys[j] == out@[j].0);
        assert(keys[i].cmp_spec(&keys[j]) is Less);
    }
    assert forall|k: u64| m@.contains_key(k) implies exists|i: int|
        0 <= i < out@.len() && #[trigger] out@[i].0 == k by {
        assert(s.contains((&k, &m@[k])));
        let i = choose|i: int| 0 <= i < s.len() && s[i] == (&k, &m@[k]);
        assert(out@[i].0 == k);
    }
    out
}

} // verus!
