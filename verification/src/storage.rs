use vstd::prelude::*;
use std::collections::{BTreeMap, BTreeSet, HashMap, HashSet};
use vstd::std_specs::iter::IteratorSpec;
use crate::flat_collections::{FlatMap, FlatSet};
use crate::id::EntityIdRaw;
use crate::ordered::{ascending_ids, tree_map_ids, tree_set_ids};
use crate::storage_type::StorageType;
use crate::vec_collections::{VecMap, VecSet};

verus! {

/// The components of one kind that carries a value, in the container chosen for it.
///
/// Every operation is specified over the view alone, so what a caller observes
/// does not depend on the container.
pub enum ComponentMap<T> {
    Vector(VecMap<T>),
    Flat(FlatMap<T>),
    Hash(HashMap<EntityIdRaw, T>),
    BTree(BTreeMap<EntityIdRaw, T>),
}

impl<T> View for ComponentMap<T> {
    type V = Map<EntityIdRaw, T>;

    open spec fn view(&self) -> Map<EntityIdRaw, T> {
        match self {
            ComponentMap::Vector(m) => m@,
            ComponentMap::Flat(m) => m@,
            ComponentMap::Hash(m) => m@,
            ComponentMap::BTree(m) => m@,
        }
    }
}

impl<T> ComponentMap<T> {
    /// The invariant that every operation keeps.
    pub open spec fn wf(&self) -> bool {
        match self {
            ComponentMap::Vector(m) => m.wf(),
            ComponentMap::Flat(m) => m.wf(),
            _ => true,
        }
    }

    pub open spec fn spec_storage_type(&self) -> StorageType {
        match self {
            ComponentMap::Vector(_) => StorageType::Vector,
            ComponentMap::Flat(_) => StorageType::Flat,
            ComponentMap::Hash(_) => StorageType::Hash,
            ComponentMap::BTree(_) => StorageType::BTree,
        }
    }

    /// An empty map held in the container that `storage` names.
    pub fn new(storage: StorageType) -> (m: Self)
        ensures
            m.wf(),
            m@ == Map::<EntityIdRaw, T>::empty(),
            m.spec_storage_type() == storage,
    {
        match storage {
            StorageType::Vector => ComponentMap::Vector(VecMap::new()),
            StorageType::Flat => ComponentMap::Flat(FlatMap::new()),
            StorageType::Hash => ComponentMap::Hash(HashMap::new()),
            StorageType::BTree => ComponentMap::BTree(BTreeMap::new()),
        }
    }

    /// The container that holds this map.
    #[verifier::when_used_as_spec(spec_storage_type)]
    pub fn storage_type(&self) -> (s: StorageType)
        ensures
            s == self.spec_storage_type(),
    {
        match self {
            ComponentMap::Vector(_) => StorageType::Vector,
            ComponentMap::Flat(_) => StorageType::Flat,
            ComponentMap::Hash(_) => StorageType::Hash,
            ComponentMap::BTree(_) => StorageType::BTree,
        }
    }

    pub fn get(&self, id: &EntityIdRaw) -> (r: Option<&T>)
        requires
            self.wf(),
        ensures
            match r {
                Some(v) => self@.contains_key(*id) && *v == self@[*id],
                None => !self@.contains_key(*id),
            },
    {
        broadcast use vstd::std_specs::hash::group_hash_axioms;
        broadcast use vstd::std_specs::btree::group_btree_axioms;

        match self {
            ComponentMap::Vector(m) => m.get(id),
            ComponentMap::Flat(m) => m.get(id),
            ComponentMap::Hash(m) => m.get(id),
            ComponentMap::BTree(m) => m.get(id),
        }
    }

    pub fn contains_key(&self, id: &EntityIdRaw) -> (b: bool)
        requires
            self.wf(),
        ensures
            b == self@.contains_key(*id),
    {
        broadcast use vstd::std_specs::hash::group_hash_axioms;
        broadcast use vstd::std_specs::btree::group_btree_axioms;

        match self {
            ComponentMap::Vector(m) => m.contains_key(id),
            ComponentMap::Flat(m) => m.contains_key(id),
            ComponentMap::Hash(m) => m.contains_key(id),
            ComponentMap::BTree(m) => m.contains_key(id),
        }
    }

    /// Stores `value` under `id` and returns what was stored there before.
    pub fn insert(&mut self, id: EntityIdRaw, value: T) -> (r: Option<T>)
        requires
            old(self).wf(),
        ensures
            final(self).wf(),
            final(self).spec_storage_type() == old(self).spec_storage_type(),
            final(self)@ == old(self)@.insert(id, value),
            r == old(self)@.get(id),
    {
        broadcast use vstd::std_specs::hash::group_hash_axioms;
        broadcast use vstd::std_specs::btree::group_btree_axioms;

        match self {
            ComponentMap::Vector(m) => m.insert(id, value),
            ComponentMap::Flat(m) => m.insert(id, value),
            ComponentMap::Hash(m) => m.insert(id, value),
            ComponentMap::BTree(m) => m.insert(id, value),
        }
    }

    /// Removes what is stored under `id` and returns it.
    pub fn remove(&mut self, id: &EntityIdRaw) -> (r: Option<T>)
        requires
            old(self).wf(),
        ensures
            final(self).wf(),
            final(self).spec_storage_type() == old(self).spec_storage_type(),
            final(self)@ == old(self)@.remove(*id),
            r == old(self)@.get(*id),
    {
        broadcast use vstd::std_specs::hash::group_hash_axioms;
        broadcast use vstd::std_specs::btree::group_btree_axioms;

        match self {
            ComponentMap::Vector(m) => m.remove(id),
            ComponentMap::Flat(m) => m.remove(id),
            ComponentMap::Hash(m) => m.remove(id),
            ComponentMap::BTree(m) => m.remove(id),
        }
    }

    /// The number of entities that hold a component.
    pub fn len(&self) -> (n: usize)
        requires
            self.wf(),
        ensures
            self@.dom().finite(),
            n == self@.dom().len(),
    {
        match self {
            ComponentMap::Vector(m) => m.len(),
            ComponentMap::Flat(m) => {
                let ids = self.ids();
                proof {
                    ids@.unique_seq_to_set();
                }
                ids.len()
            },
            ComponentMap::Hash(m) => m.len(),
            ComponentMap::BTree(m) => m.len(),
        }
    }

    pub fn is_empty(&self) -> (b: bool)
        requires
            self.wf(),
        ensures
            b == (self@ == Map::<EntityIdRaw, T>::empty()),
    {
        match self {
            ComponentMap::Vector(m) => m.is_empty(),
            ComponentMap::Flat(m) => {
                let mut it = m.iter();
                let first = it.next();
                proof {
                    m.lemma_entries();
                    if first is None {
                        assert(self@ =~= Map::<EntityIdRaw, T>::empty());
                    } else {
                        assert(self@.contains_key(m.entries()[0].0));
                    }
                }
                first.is_none()
            },
            ComponentMap::Hash(m) => {
                let b = m.is_empty();
                proof {
                    if b {
                        assert(self@ =~= Map::<EntityIdRaw, T>::empty());
                    }
                }
                b
            },
            ComponentMap::BTree(m) => {
                let b = m.is_empty();
                proof {
                    if b {
                        assert(self@ =~= Map::<EntityIdRaw, T>::empty());
                    }
                }
                b
            },
        }
    }

    /// Some entity that holds a component, with the value, or `None` where
    /// there is none. Which one is up to the container: the list gives the
    /// entry in its first slot, the others the first that their iteration yields.
    pub fn any(&self) -> (r: Option<(EntityIdRaw, &T)>)
        requires
            self.wf(),
        ensures
            match r {
                Some((k, v)) => self@.contains_key(k) && *v == self@[k],
                None => self@ == Map::<EntityIdRaw, T>::empty(),
            },
            match *self {
                ComponentMap::Vector(m) => r is Some ==> r.unwrap().0 == m.entries()[0].0,
                ComponentMap::Flat(m) => r is Some ==> r.unwrap().0 == m.entries()[0].0,
                _ => true,
            },
    {
        broadcast use vstd::std_specs::hash::group_hash_axioms;
        broadcast use vstd::std_specs::btree::group_btree_axioms;

        match self {
            ComponentMap::Vector(m) => match m.first() {
                Some((k, v)) => Some((*k, v)),
                None => None,
            },
            ComponentMap::Flat(m) => {
                let mut it = m.iter();
                let first = it.next();
                proof {
                    m.lemma_entries();
                    if first is None {
                        assert(self@ =~= Map::<EntityIdRaw, T>::empty());
                    } else {
                        assert(self@.contains_key(m.entries()[0].0));
                    }
                }
                first
            },
            ComponentMap::Hash(m) => {
                for entry in iter: m.iter()
                    invariant
                        iter.index() == 0,
                        self@ == m@,
                        self.spec_storage_type() == StorageType::Hash,
                {
                    assert(m@.contains_key(*m.iter().remaining()[0].0));
                    return Some((*entry.0, entry.1));
                }
                assert(self@.dom().len() == 0);
                assert(self@ =~= Map::<EntityIdRaw, T>::empty());
                None
            },
            ComponentMap::BTree(m) => {
                for entry in iter: m.iter()
                    invariant
                        iter.index() == 0,
                        self@ == m@,
                        self.spec_storage_type() == StorageType::BTree,
                {
                    assert(m@.contains_key(*m.iter().remaining()[0].0));
                    return Some((*entry.0, entry.1));
                }
                assert(self@.dom().len() == 0);
                assert(self@ =~= Map::<EntityIdRaw, T>::empty());
                None
            },
        }
    }

    /// The entities that hold a component, each once. The order is that of
    /// the container: the list gives them as they are stored, the array and
    /// the tree in ascending order, the hash table in no order that could be named.
    pub fn ids(&self) -> (ids: Vec<EntityIdRaw>)
        requires
            self.wf(),
        ensures
            ids@.no_duplicates(),
            ids@.to_set() == self@.dom(),
            match *self {
                ComponentMap::Vector(m) => ids@ == m.entries().map_values(
                    |e: (EntityIdRaw, T)| e.0,
                ),
                ComponentMap::Flat(m) => ids@ == m.entries().map_values(
                    |e: (EntityIdRaw, T)| e.0,
                ) && ascending_ids(ids@),
                ComponentMap::Hash(_) => true,
                ComponentMap::BTree(_) => ascending_ids(ids@),
            },
    {
        broadcast use vstd::std_specs::hash::group_hash_axioms;
        broadcast use vstd::std_specs::btree::group_btree_axioms;

        let mut ids: Vec<EntityIdRaw> = Vec::new();
        match self {
            ComponentMap::Vector(m) => {
                let mut it = m.keys();
                let ghost all = it.remaining();
                loop
                    invariant
                        it.wf(),
                        ids@ + it.remaining() == all,
                    ensures
                        ids@ == all,
                    decreases it.remaining().len(),
                {
                    match it.next() {
                        Some(k) => {
                            ids.push(*k);
                            assert(ids@ + it.remaining() =~= all);
                        },
                        None => {
                            assert(ids@ + it.remaining() =~= ids@);
                            break ;
                        },
                    }
                }
                proof {
                    m.lemma_entries();
                    let entries = m.entries();
                    assert forall|k: EntityIdRaw| ids@.contains(k) <==> self@.contains_key(
                        k,
                    ) by {
                        if ids@.contains(k) {
                            let i = choose|i: int| 0 <= i < ids@.len() && ids@[i] == k;
                            assert(entries[i].0 == k);
                        }
                        if self@.contains_key(k) {
                            let i = choose|i: int|
                                0 <= i < entries.len() && (#[trigger] entries[i]).0 == k;
                            assert(ids@[i] == k);
                        }
                    }
                    assert(ids@.to_set() =~= self@.dom());
                }
            },
            ComponentMap::Flat(m) => {
                let mut it = m.keys();
                let ghost all = it.remaining();
                loop
                    invariant
                        it.wf(),
                        ids@ + it.remaining() == all,
                    ensures
                        ids@ == all,
                    decreases it.remaining().len(),
                {
                    match it.next() {
                        Some(k) => {
                            ids.push(k);
                            assert(ids@ + it.remaining() =~= all);
                        },
                        None => {
                            assert(ids@ + it.remaining() =~= ids@);
                            break ;
                        },
                    }
                }
                proof {
                    m.lemma_entries();
                    let entries = m.entries();
                    assert forall|k: EntityIdRaw| ids@.contains(k) <==> self@.contains_key(
                        k,
                    ) by {
                        if ids@.contains(k) {
                            let i = choose|i: int| 0 <= i < ids@.len() && ids@[i] == k;
                            assert(entries[i].0 == k);
                        }
                        if self@.contains_key(k) {
                            let i = choose|i: int|
                                0 <= i < entries.len() && (#[trigger] entries[i]).0 == k;
                            assert(ids@[i] == k);
                        }
                    }
                    assert(ids@.to_set() =~= self@.dom());
                }
            },
            ComponentMap::Hash(m) => {
                for k in iter: m.keys()
                    invariant
                        ids@.len() == iter.index(),
                        forall|j: int| 0 <= j < ids@.len() ==> ids@[j] == *iter.seq()[j],
                {
                    ids.push(*k);
                }
                proof {
                    assert(ids@ =~= m.keys().remaining().unref());
                    assert forall|i: int, j: int|
                        0 <= i < ids@.len() && 0 <= j < ids@.len() && i != j implies ids@[i]
                        != ids@[j] by {
                        assert(m.keys().remaining()[i] != m.keys().remaining()[j]);
                    }
                }
            },
            ComponentMap::BTree(m) => {
                ids = tree_map_ids(m);
            },
        }
        ids
    }
}

/// The entities that hold a component of one kind without a value, in the
/// container chosen for it.
pub enum ComponentSet {
    Vector(VecSet),
    Flat(FlatSet),
    Hash(HashSet<EntityIdRaw>),
    BTree(BTreeSet<EntityIdRaw>),
}

impl View for ComponentSet {
    type V = Set<EntityIdRaw>;

    open spec fn view(&self) -> Set<EntityIdRaw> {
        match self {
            ComponentSet::Vector(s) => s@,
            ComponentSet::Flat(s) => s@,
            ComponentSet::Hash(s) => s@,
            ComponentSet::BTree(s) => s@,
        }
    }
}

impl ComponentSet {
    /// The invariant that every operation keeps.
    pub open spec fn wf(&self) -> bool {
        match self {
            ComponentSet::Vector(s) => s.wf(),
            ComponentSet::Flat(s) => s.wf(),
            _ => true,
        }
    }

    pub open spec fn spec_storage_type(&self) -> StorageType {
        match self {
            ComponentSet::Vector(_) => StorageType::Vector,
            ComponentSet::Flat(_) => StorageType::Flat,
            ComponentSet::Hash(_) => StorageType::Hash,
            ComponentSet::BTree(_) => StorageType::BTree,
        }
    }

    /// An empty set held in the container that `storage` names.
    pub fn new(storage: StorageType) -> (s: Self)
        ensures
            s.wf(),
            s@ == Set::<EntityIdRaw>::empty(),
            s.spec_storage_type() == storage,
    {
        match storage {
            StorageType::Vector => ComponentSet::Vector(VecSet::new()),
            StorageType::Flat => ComponentSet::Flat(FlatSet::new()),
            StorageType::Hash => ComponentSet::Hash(HashSet::new()),
            StorageType::BTree => ComponentSet::BTree(BTreeSet::new()),
        }
    }

    /// The container that holds this set.
    #[verifier::when_used_as_spec(spec_storage_type)]
    pub fn storage_type(&self) -> (s: StorageType)
        ensures
            s == self.spec_storage_type(),
    {
        match self {
            ComponentSet::Vector(_) => StorageType::Vector,
            ComponentSet::Flat(_) => StorageType::Flat,
            ComponentSet::Hash(_) => StorageType::Hash,
            ComponentSet::BTree(_) => StorageType::BTree,
        }
    }

    pub fn contains(&self, id: &EntityIdRaw) -> (b: bool)
        requires
            self.wf(),
        ensures
            b == self@.contains(*id),
    {
        broadcast use vstd::std_specs::hash::group_hash_axioms;
        broadcast use vstd::std_specs::btree::group_btree_axioms;

        match self {
            ComponentSet::Vector(s) => s.contains(id),
            ComponentSet::Flat(s) => s.contains(id),
            ComponentSet::Hash(s) => s.contains(id),
            ComponentSet::BTree(s) => s.contains(id),
        }
    }

    /// Adds `id`; the result says whether it was there before.
    pub fn insert(&mut self, id: EntityIdRaw) -> (present: bool)
        requires
            old(self).wf(),
        ensures
            final(self).wf(),
            final(self).spec_storage_type() == old(self).spec_storage_type(),
            final(self)@ == old(self)@.insert(id),
            present == old(self)@.contains(id),
    {
        broadcast use vstd::std_specs::hash::group_hash_axioms;
        broadcast use vstd::std_specs::btree::group_btree_axioms;

        match self {
            ComponentSet::Vector(s) => !s.insert(id),
            ComponentSet::Flat(s) => s.insert(id),
            ComponentSet::Hash(s) => !s.insert(id),
            ComponentSet::BTree(s) => !s.insert(id),
        }
    }

    /// Removes `id`; the result says whether it was there.
    pub fn remove(&mut self, id: &EntityIdRaw) -> (present: bool)
        requires
            old(self).wf(),
        ensures
            final(self).wf(),
            final(self).spec_storage_type() == old(self).spec_storage_type(),
            final(self)@ == old(self)@.remove(*id),
            present == old(self)@.contains(*id),
    {
        broadcast use vstd::std_specs::hash::group_hash_axioms;
        broadcast use vstd::std_specs::btree::group_btree_axioms;

        match self {
            ComponentSet::Vector(s) => s.remove(id),
            ComponentSet::Flat(s) => s.remove(id),
            ComponentSet::Hash(s) => s.remove(id),
            ComponentSet::BTree(s) => s.remove(id),
        }
    }

    /// The number of entities in the set.
    pub fn len(&self) -> (n: usize)
        requires
            self.wf(),
        ensures
            self@.finite(),
            n == self@.len(),
    {
        match self {
            ComponentSet::Vector(s) => s.len(),
            ComponentSet::Flat(s) => {
                let ids = self.ids();
                proof {
                    ids@.unique_seq_to_set();
                }
                ids.len()
            },
            ComponentSet::Hash(s) => {
                proof {
                    broadcast use vstd::std_specs::hash::group_hash_axioms;

                    vstd::seq_lib::seq_to_set_is_finite(s.iter().remaining().unref());
                }
                s.len()
            },
            ComponentSet::BTree(s) => {
                proof {
                    broadcast use vstd::std_specs::btree::group_btree_axioms;

                    vstd::seq_lib::seq_to_set_is_finite(s.iter().remaining().unref());
                }
                s.len()
            },
        }
    }

    pub fn is_empty(&self) -> (b: bool)
        requires
            self.wf(),
        ensures
            b == (self@ == Set::<EntityIdRaw>::empty()),
    {
        match self {
            ComponentSet::Vector(s) => s.is_empty(),
            ComponentSet::Flat(s) => s.is_empty(),
            ComponentSet::Hash(s) => {
                let b = s.is_empty();
                proof {
                    if b {
                        assert(self@ =~= Set::<EntityIdRaw>::empty());
                    }
                }
                b
            },
            ComponentSet::BTree(s) => {
                let b = s.is_empty();
                proof {
                    if b {
                        assert(self@ =~= Set::<EntityIdRaw>::empty());
                    }
                }
                b
            },
        }
    }

    /// Some entity of the set, or `None` where it is empty. Which one is up
    /// to the container: the list gives the element in its first slot, the
    /// others the first that their iteration yields.
    pub fn any(&self) -> (r: Option<EntityIdRaw>)
        requires
            self.wf(),
        ensures
            match r {
                Some(k) => self@.contains(k),
                None => self@ == Set::<EntityIdRaw>::empty(),
            },
            match *self {
                ComponentSet::Vector(s) => r is Some ==> r.unwrap() == s.members()[0],
                ComponentSet::Flat(s) => r is Some ==> r.unwrap() == s.members()[0],
                _ => true,
            },
    {
        broadcast use vstd::std_specs::hash::group_hash_axioms;
        broadcast use vstd::std_specs::btree::group_btree_axioms;

        match self {
            ComponentSet::Vector(s) => match s.first() {
                Some(k) => Some(*k),
                None => None,
            },
            ComponentSet::Flat(s) => {
                let mut it = s.iter();
                let first = it.next();
                proof {
                    s.lemma_members();
                    if first is None {
                        assert forall|k: EntityIdRaw| !self@.contains(k) by {
                            assert(!s.members().contains(k));
                        }
                        assert(self@ =~= Set::<EntityIdRaw>::empty());
                    } else {
                        assert(s.members().contains(s.members()[0]));
                    }
                }
                first
            },
            ComponentSet::Hash(s) => {
                for k in iter: s.iter()
                    invariant
                        iter.index() == 0,
                        self@ == s@,
                        self.spec_storage_type() == StorageType::Hash,
                {
                    let ghost all = s.iter().remaining().unref();
                    assert(all[0] == *k);
                    assert(all.to_set().contains(*k));
                    return Some(*k);
                }
                assert(s.iter().remaining().unref() =~= Seq::<EntityIdRaw>::empty());
                assert(self@ =~= Set::<EntityIdRaw>::empty());
                None
            },
            ComponentSet::BTree(s) => {
                for k in iter: s.iter()
                    invariant
                        iter.index() == 0,
                        self@ == s@,
                        self.spec_storage_type() == StorageType::BTree,
                {
                    let ghost all = s.iter().remaining().unref();
                    assert(all[0] == *k);
                    assert(all.to_set().contains(*k));
                    return Some(*k);
                }
                assert(s.iter().remaining().unref() =~= Seq::<EntityIdRaw>::empty());
                assert(self@ =~= Set::<EntityIdRaw>::empty());
                None
            },
        }
    }

    /// The entities of the set, each once. The order is that of the
    /// container: the list gives them as they are stored, the bitmap and the
    /// tree in ascending order, the hash table in no order that could be named.
    pub fn ids(&self) -> (ids: Vec<EntityIdRaw>)
        requires
            self.wf(),
        ensures
            ids@.no_duplicates(),
            ids@.to_set() == self@,
            match *self {
                ComponentSet::Vector(s) => ids@ == s.members(),
                ComponentSet::Flat(s) => ids@ == s.members() && ascending_ids(ids@),
                ComponentSet::Hash(_) => true,
                ComponentSet::BTree(_) => ascending_ids(ids@),
            },
    {
        broadcast use vstd::std_specs::hash::group_hash_axioms;
        broadcast use vstd::std_specs::btree::group_btree_axioms;

        let mut ids: Vec<EntityIdRaw> = Vec::new();
        match self {
            ComponentSet::Vector(s) => {
                let mut it = s.iter();
                let ghost all = it.remaining();
                loop
                    invariant
                        it.wf(),
                        ids@ + it.remaining() == all,
                    ensures
                        ids@ == all,
                    decreases it.remaining().len(),
                {
                    match it.next() {
                        Some(k) => {
                            ids.push(*k);
                            assert(ids@ + it.remaining() =~= all);
                        },
                        None => {
                            assert(ids@ + it.remaining() =~= ids@);
                            break ;
                        },
                    }
                }
                proof {
                    s.lemma_members();
                }
            },
            ComponentSet::Flat(s) => {
                let mut it = s.iter();
                let ghost all = it.remaining();
                loop
                    invariant
                        it.wf(),
                        ids@ + it.remaining() == all,
                    ensures
                        ids@ == all,
                    decreases it.remaining().len(),
                {
                    match it.next() {
                        Some(k) => {
                            ids.push(k);
                            assert(ids@ + it.remaining() =~= all);
                        },
                        None => {
                            assert(ids@ + it.remaining() =~= ids@);
                            break ;
                        },
                    }
                }
                proof {
                    s.lemma_members();
                    assert(ids@.to_set() =~= self@);
                }
            },
            ComponentSet::Hash(s) => {
                for k in iter: s.iter()
                    invariant
                        ids@.len() == iter.index(),
                        forall|j: int| 0 <= j < ids@.len() ==> ids@[j] == *iter.seq()[j],
                {
                    ids.push(*k);
                }
                proof {
                    assert(ids@ =~= s.iter().remaining().unref());
                    assert forall|i: int, j: int|
                        0 <= i < ids@.len() && 0 <= j < ids@.len() && i != j implies ids@[i]
                        != ids@[j] by {
                        assert(s.iter().remaining()[i] != s.iter().remaining()[j]);
                    }
                }
            },
            ComponentSet::BTree(s) => {
                ids = tree_set_ids(s);
            },
        }
        ids
    }
}

} // verus!
