use vstd::prelude::*;
use std::collections::{BTreeMap, BTreeSet};
use vstd::std_specs::iter::IteratorSpec;
use vstd::std_specs::cmp::OrdSpec;
use crate::id::EntityIdRaw;

verus! {

/// Whether the ids ascend strictly.
pub open spec fn ascending_ids(ids: Seq<EntityIdRaw>) -> bool {
    forall|i: int, j: int| 0 <= i < j < ids.len() ==> ids[i] < ids[j]
}

spec fn comes_before<K: Ord>(a: K, b: K) -> bool {
    a.cmp_spec(&b) is Less
}

/// The keys of an ordered tree, in ascending order.
pub fn tree_map_ids<T>(m: &BTreeMap<EntityIdRaw, T>) -> (ids: Vec<EntityIdRaw>)
    ensures
        ids@.no_duplicates(),
        ids@.to_set() == m@.dom(),
        ascending_ids(ids@),
{
    broadcast use vstd::std_specs::btree::group_btree_axioms;
    broadcast use vstd::laws_cmp::group_laws_cmp;

    let mut ids: Vec<EntityIdRaw> = Vec::new();
    for k in iter: m.keys()
        invariant
            ids@.len() == iter.index(),
            forall|j: int| 0 <= j < ids@.len() ==> ids@[j] == *iter.seq()[j],
    {
        ids.push(*k);
    }
    proof {
        let all = m.keys().remaining();
        assert(ids@ =~= all.unref());
        assert(vstd::laws_cmp::obeys_cmp::<&EntityIdRaw>()) by {
            reveal(vstd::laws_cmp::obeys_cmp_partial_ord);
            reveal(vstd::laws_cmp::obeys_cmp_ord);
        }
        vstd::std_specs::btree::axiom_increasing_seq_meaning::<&EntityIdRaw>(all);
        assert forall|i: int, j: int| 0 <= i < j < ids@.len() implies ids@[i] < ids@[j] by {
            assert(comes_before::<&EntityIdRaw>(all[i], all[j]));
        }
    }
    ids
}

/// The elements of an ordered tree, in ascending order.
pub fn tree_set_ids(s: &BTreeSet<EntityIdRaw>) -> (ids: Vec<EntityIdRaw>)
    ensures
        ids@.no_duplicates(),
        ids@.to_set() == s@,
        ascending_ids(ids@),
{
    broadcast use vstd::std_specs::btree::group_btree_axioms;
    broadcast use vstd::laws_cmp::group_laws_cmp;

    let mut ids: Vec<EntityIdRaw> = Vec::new();
    for k in iter: s.iter()
        invariant
            ids@.len() == iter.index(),
            forall|j: int| 0 <= j < ids@.len() ==> ids@[j] == *iter.seq()[j],
    {
        ids.push(*k);
    }
    proof {
        let all = s.iter().remaining();
        assert(ids@ =~= all.unref());
        assert(vstd::laws_cmp::obeys_cmp::<&EntityIdRaw>()) by {
            reveal(vstd::laws_cmp::obeys_cmp_partial_ord);
            reveal(vstd::laws_cmp::obeys_cmp_ord);
        }
        vstd::std_specs::btree::axiom_increasing_seq_meaning::<&EntityIdRaw>(all);
        assert forall|i: int, j: int| 0 <= i < j < ids@.len() implies ids@[i] < ids@[j] by {
            assert(comes_before::<&EntityIdRaw>(all[i], all[j]));
        }
    }
    ids
}

} // verus!
