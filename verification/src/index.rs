//! Id lists filed under a key.
use vstd::prelude::*;

use crate::table::{Key, Table};

verus! {

/// Each id list of a map by its view.
pub open spec fn id_views<K>(m: Map<K, Vec<u64>>) -> Map<K, Seq<u64>> {
    m.map_values(|v: Vec<u64>| v@)
}

/// The ids filed under `k`; none if nothing is.
pub open spec fn ids_under<K>(index: Map<K, Seq<u64>>, k: K) -> Seq<u64> {
    if index.contains_key(k) {
        index[k]
    } else {
        Seq::empty()
    }
}

/// Filing one more id list files its view.
pub proof fn lemma_id_views_insert<K>(m: Map<K, Vec<u64>>, k: K, v: Vec<u64>)
    ensures
        id_views(m.insert(k, v)) == id_views(m).insert(k, v@),
{
    assert(id_views(m.insert(k, v)) =~= id_views(m).insert(k, v@));
}

/// A copy of the id list under `k`; empty if there is none.
pub fn id_list<K: Key>(index: &Table<K, Vec<u64>>, k: K) -> (r: Vec<u64>)
    ensures
        r@ == ids_under(id_views(index@), k),
{
    match index.get(k) {
        Some(ids) => {
            let r = ids.clone();
            assert(r@ =~= ids@);
            r
        },
        None => Vec::new(),
    }
}

/// A key with a list on file has that list; any other key has an empty one.
/// Filing a list under one key changes nothing under the others.
pub proof fn law_lists_are_kept_apart<K>(index: Map<K, Seq<u64>>, k: K, other: K, ids: Seq<u64>)
    ensures
        ids_under(Map::<K, Seq<u64>>::empty(), k).len() == 0,
        ids_under(index.insert(k, ids), k) == ids,
        other != k ==> ids_under(index.insert(k, ids), other) == ids_under(index, other),
        ids_under(index.remove(k), k).len() == 0,
        index.contains_key(k) ==> ids_under(index, k) == index[k],
{
}

/// What is said of a stored list is what the list holds.
pub proof fn law_stored_lists_are_seen_whole<K>(index: Map<K, Vec<u64>>, k: K)
    ensures
        id_views(index).contains_key(k) <==> index.contains_key(k),
        index.contains_key(k) ==> id_views(index)[k] == index[k]@,
{
}

} // verus!
