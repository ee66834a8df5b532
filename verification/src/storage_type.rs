use vstd::prelude::*;
use crate::strings::str_eq;

verus! {

/// The container that holds the components of one kind.
#[derive(Clone, Copy, Debug, PartialEq, Eq, Structural)]
pub enum StorageType {
    /// An unordered list of entries; lookup walks the list.
    Vector,
    /// An array indexed by the entity id.
    Flat,
    /// A hash table.
    Hash,
    /// An ordered tree; the only container that iterates in ascending id order.
    BTree,
}

impl StorageType {
    /// The name of the container in a schema.
    pub open spec fn spec_to_str(self) -> Seq<char> {
        match self {
            StorageType::Vector => "vector"@,
            StorageType::Flat => "flat"@,
            StorageType::Hash => "hash"@,
            StorageType::BTree => "btree"@,
        }
    }

    pub fn to_str(self) -> (s: &'static str)
        ensures
            s@ == self.spec_to_str(),
    {
        match self {
            StorageType::Vector => "vector",
            StorageType::Flat => "flat",
            StorageType::Hash => "hash",
            StorageType::BTree => "btree",
        }
    }

    /// The type that holds the components of a kind with a value.
    pub open spec fn spec_to_map_type(self) -> Seq<char> {
        match self {
            StorageType::Vector => "EntityVecMap"@,
            StorageType::Flat => "EntityFlatMap"@,
            StorageType::Hash => "EntityHashMap"@,
            StorageType::BTree => "EntityBTreeMap"@,
        }
    }

    pub fn to_map_type(self) -> (s: &'static str)
        ensures
            s@ == self.spec_to_map_type(),
    {
        match self {
            StorageType::Vector => "EntityVecMap",
            StorageType::Flat => "EntityFlatMap",
            StorageType::Hash => "EntityHashMap",
            StorageType::BTree => "EntityBTreeMap",
        }
    }

    /// The type that holds the entities of a kind without a value.
    pub open spec fn spec_to_set_type(self) -> Seq<char> {
        match self {
            StorageType::Vector => "EntityVecSet"@,
            StorageType::Flat => "EntityFlatSet"@,
            StorageType::Hash => "EntityHashSet"@,
            StorageType::BTree => "EntityBTreeSet"@,
        }
    }

    pub fn to_set_type(self) -> (s: &'static str)
        ensures
            s@ == self.spec_to_set_type(),
    {
        match self {
            StorageType::Vector => "EntityVecSet",
            StorageType::Flat => "EntityFlatSet",
            StorageType::Hash => "EntityHashSet",
            StorageType::BTree => "EntityBTreeSet",
        }
    }

    /// The type that turns the entries of the map into entities with values.
    pub open spec fn spec_to_map_iter_wrapper(self) -> Seq<char> {
        match self {
            StorageType::Vector => "EntityIdAndValIterOfRef"@,
            StorageType::Flat => "EntityIdAndValIterOfVal"@,
            StorageType::Hash => "EntityIdAndValIterOfRef"@,
            StorageType::BTree => "EntityIdAndValIterOfRef"@,
        }
    }

    pub fn to_map_iter_wrapper(self) -> (s: &'static str)
        ensures
            s@ == self.spec_to_map_iter_wrapper(),
    {
        match self {
            StorageType::Vector => "EntityIdAndValIterOfRef",
            StorageType::Flat => "EntityIdAndValIterOfVal",
            StorageType::Hash => "EntityIdAndValIterOfRef",
            StorageType::BTree => "EntityIdAndValIterOfRef",
        }
    }

    /// The type that turns the elements of the set into entities.
    pub open spec fn spec_to_set_iter_wrapper(self) -> Seq<char> {
        match self {
            StorageType::Vector => "EntityIdIterOfRef"@,
            StorageType::Flat => "EntityIdIterOfVal"@,
            StorageType::Hash => "EntityIdIterOfRef"@,
            StorageType::BTree => "EntityIdIterOfRef"@,
        }
    }

    pub fn to_set_iter_wrapper(self) -> (s: &'static str)
        ensures
            s@ == self.spec_to_set_iter_wrapper(),
    {
        match self {
            StorageType::Vector => "EntityIdIterOfRef",
            StorageType::Flat => "EntityIdIterOfVal",
            StorageType::Hash => "EntityIdIterOfRef",
            StorageType::BTree => "EntityIdIterOfRef",
        }
    }

    /// The type of the iterator over the entries of the map.
    pub open spec fn spec_to_map_iter(self) -> Seq<char> {
        match self {
            StorageType::Vector => "EntityVecMapIter"@,
            StorageType::Flat => "EntityFlatMapIter"@,
            StorageType::Hash => "EntityHashMapIter"@,
            StorageType::BTree => "EntityBTreeMapIter"@,
        }
    }

    pub fn to_map_iter(self) -> (s: &'static str)
        ensures
            s@ == self.spec_to_map_iter(),
    {
        match self {
            StorageType::Vector => "EntityVecMapIter",
            StorageType::Flat => "EntityFlatMapIter",
            StorageType::Hash => "EntityHashMapIter",
            StorageType::BTree => "EntityBTreeMapIter",
        }
    }

    /// The type of the iterator over the keys of the map.
    pub open spec fn spec_to_map_keys(self) -> Seq<char> {
        match self {
            StorageType::Vector => "EntityVecMapKeys"@,
            StorageType::Flat => "EntityFlatMapKeys"@,
            StorageType::Hash => "EntityHashMapKeys"@,
            StorageType::BTree => "EntityBTreeMapKeys"@,
        }
    }

    pub fn to_map_keys(self) -> (s: &'static str)
        ensures
            s@ == self.spec_to_map_keys(),
    {
        match self {
            StorageType::Vector => "EntityVecMapKeys",
            StorageType::Flat => "EntityFlatMapKeys",
            StorageType::Hash => "EntityHashMapKeys",
            StorageType::BTree => "EntityBTreeMapKeys",
        }
    }

    /// The type of the iterator over the elements of the set.
    pub open spec fn spec_to_set_iter(self) -> Seq<char> {
        match self {
            StorageType::Vector => "EntityVecSetIter"@,
            StorageType::Flat => "EntityFlatSetIter"@,
            StorageType::Hash => "EntityHashSetIter"@,
            StorageType::BTree => "EntityBTreeSetIter"@,
        }
    }

    pub fn to_set_iter(self) -> (s: &'static str)
        ensures
            s@ == self.spec_to_set_iter(),
    {
        match self {
            StorageType::Vector => "EntityVecSetIter",
            StorageType::Flat => "EntityFlatSetIter",
            StorageType::Hash => "EntityHashSetIter",
            StorageType::BTree => "EntityBTreeSetIter",
        }
    }

    /// No two containers have the same name.
    pub proof fn lemma_names_distinct(a: StorageType, b: StorageType)
        requires
            a.spec_to_str() == b.spec_to_str(),
        ensures
            a == b,
    {
        reveal_strlit("vector");
        reveal_strlit("flat");
        reveal_strlit("hash");
        reveal_strlit("btree");
        assert("vector"@.len() == 6);
        assert("flat"@.len() == 4 && "flat"@[0] == 'f');
        assert("hash"@.len() == 4 && "hash"@[0] == 'h');
        assert("btree"@.len() == 5);
    }

    /// The container that `s` names, if it names one.
    pub fn from_str(s: &str) -> (r: Option<Self>)
        ensures
            match r {
                Some(t) => t.spec_to_str() == s@,
                None => forall|t: StorageType| t.spec_to_str() != s@,
            },
    {
        if str_eq(s, "vector") {
            Some(StorageType::Vector)
        } else if str_eq(s, "flat") {
            Some(StorageType::Flat)
        } else if str_eq(s, "hash") {
            Some(StorageType::Hash)
        } else if str_eq(s, "btree") {
            Some(StorageType::BTree)
        } else {
            None
        }
    }

    /// All containers, in the order in which a schema error lists them.
    pub fn all() -> (r: Vec<StorageType>)
        ensures
            r@ == seq![
                StorageType::Vector,
                StorageType::Flat,
                StorageType::Hash,
                StorageType::BTree,
            ],
    {
        let mut r: Vec<StorageType> = Vec::new();
        r.push(StorageType::Vector);
        r.push(StorageType::Flat);
        r.push(StorageType::Hash);
        r.push(StorageType::BTree);
        assert(r@ =~= seq![
            StorageType::Vector,
            StorageType::Flat,
            StorageType::Hash,
            StorageType::BTree,
        ]);
        r
    }
}

} // verus!
