//! The entries of the two tables in ascending order of their keys, so that
//! whatever lists them lists them in one way only.

use crate::atlas::info::HieroBitmapInfo;
use std::collections::BTreeMap;
use std::collections::HashMap;
use std::hash::Hash;
use vstd::laws_cmp::obeys_cmp;
use vstd::prelude::*;
use vstd::std_specs::btree::{increasing_seq, spec_btree_map_iter};
use vstd::std_specs::cmp::OrdSpec;
use vstd::std_specs::hash::{obeys_key_model, spec_hash_map_iter};
use vstd::std_specs::iter::IteratorSpec;

verus! {

broadcast use {
    vstd::std_specs::hash::group_hash_axioms,
    vstd::std_specs::btree::group_btree_axioms,
    vstd::laws_cmp::group_laws_cmp,
};

/// Whether `entries` holds the entries of `table`, each once, in the order
/// that `below` gives their keys.
pub open spec fn in_key_order<K, V>(
    entries: Seq<(K, V)>,
    table: Map<K, V>,
    below: spec_fn(K, K) -> bool,
) -> bool {
    &&& forall|i: int|
        0 <= i < entries.len() ==> table.contains_key((#[trigger] entries[i]).0)
            && table[entries[i].0] == entries[i].1
    &&& forall|k: K|
        table.contains_key(k) ==> exists|i: int|
            0 <= i < entries.len() && (#[trigger] entries[i]).0 == k
    &&& forall|i: int, j: int|
        0 <= i < j < entries.len() ==> below((#[trigger] entries[i]).0, (#[trigger] entries[j]).0)
}

/// The entries of a table in ascending order of the keys.
fn entries_in_order<K: Ord + Hash + Eq + Copy, V: Copy>(table: &HashMap<K, V>) -> (res: Vec<(K, V)>)
    requires
        obeys_key_model::<K>(),
        obeys_cmp::<K>(),
    ensures
        in_key_order(res@, table@, |a: K, b: K| a.cmp_spec(&b) is Less),
{
    let mut sorted: BTreeMap<K, V> = BTreeMap::new();
    let ghost unordered = spec_hash_map_iter(table).remaining();
    for entry in it: table.iter()
        invariant
            obeys_cmp::<K>(),
            unordered == spec_hash_map_iter(table).remaining(),
            it.seq() == unordered,
            forall|k: K| #[trigger]
                sorted@.contains_key(k) ==> table@.contains_key(k) && sorted@[k] == table@[k],
            forall|i: int|
                0 <= i < it.index() ==> sorted@.contains_key(*(#[trigger] unordered[i]).0),
    {
        let (key, value) = entry;
        proof {
            assert(entry == unordered[it.index()]);
            assert(table@.contains_key(*unordered[it.index()].0));
            assert(table@[*unordered[it.index()].0] == *unordered[it.index()].1);
        }
        sorted.insert(*key, *value);
    }
    proof {
        assert forall|k: K| table@.contains_key(k) implies sorted@.contains_key(k) by {
            assert(unordered.contains((&k, &table@[k])));
            let i = choose|i: int| 0 <= i < unordered.len() && unordered[i] == (&k, &table@[k]);
            assert(sorted@.contains_key(*unordered[i].0));
        }
    }
    let mut res: Vec<(K, V)> = Vec::new();
    let ghost ordered = spec_btree_map_iter(&sorted).remaining();
    for entry in it: sorted.iter()
        invariant
            ordered == spec_btree_map_iter(&sorted).remaining(),
            increasing_seq(ordered.map_values(|kv: (&K, &V)| *kv.0)),
            it.seq() == ordered,
            res@.len() == it.index(),
            forall|i: int|
                0 <= i < it.index() ==> (#[trigger] res@[i]).0 == *ordered[i].0 && res@[i].1
                    == *ordered[i].1,
    {
        let (key, value) = entry;
        proof {
            assert(entry == ordered[it.index()]);
        }
        res.push((*key, *value));
    }
    proof {
        let keys = ordered.map_values(|kv: (&K, &V)| *kv.0);
        assert forall|i: int| 0 <= i < res@.len() implies table@.contains_key(
            (#[trigger] res@[i]).0,
        ) && table@[res@[i].0] == res@[i].1 by {
            assert(sorted@.contains_key(*ordered[i].0) && sorted@[*ordered[i].0] == *ordered[i].1);
        }
        assert forall|k: K| table@.contains_key(k) implies exists|i: int|
            0 <= i < res@.len() && (#[trigger] res@[i]).0 == k by {
            assert(sorted@.contains_key(k));
            assert(ordered.contains((&k, &sorted@[k])));
            let i = choose|i: int| 0 <= i < ordered.len() && ordered[i] == (&k, &sorted@[k]);
            assert(res@[i].0 == k);
        }
        assert forall|i: int, j: int| 0 <= i < j < res@.len() implies (#[trigger] res@[i]).0.cmp_spec(
            &(#[trigger] res@[j]).0,
        ) is Less by {
            assert(keys[i] == *ordered[i].0);
            assert(keys[j] == *ordered[j].0);
            assert(keys[i].cmp_spec(&keys[j]) is Less);
        }
    }
    res
}

/// The entries of a glyph table in ascending order of the codepoints.
pub(crate) fn glyphs_in_order(table: &HashMap<u32, HieroBitmapInfo>) -> (res: Vec<
    (u32, HieroBitmapInfo),
>)
    ensures
        in_key_order(res@, table@, |a: u32, b: u32| a < b),
{
    let res = entries_in_order(table);
    proof {
        assert forall|i: int, j: int| 0 <= i < j < res@.len() implies (#[trigger] res@[i]).0 < (
        #[trigger] res@[j]).0 by {
            assert(res@[i].0.cmp_spec(&res@[j].0) is Less);
        }
    }
    res
}

/// The entries of a kerning table in ascending order of the keys.
pub(crate) fn kernings_in_order(table: &HashMap<u64, i32>) -> (res: Vec<(u64, i32)>)
    ensures
        in_key_order(res@, table@, |a: u64, b: u64| a < b),
{
    let res = entries_in_order(table);
    proof {
        assert forall|i: int, j: int| 0 <= i < j < res@.len() implies (#[trigger] res@[i]).0 < (
        #[trigger] res@[j]).0 by {
            assert(res@[i].0.cmp_spec(&res@[j].0) is Less);
        }
    }
    res
}

} // verus!
