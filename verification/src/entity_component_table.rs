use vstd::prelude::*;
use crate::component::ComponentType;
use crate::component_type_set::{ComponentTypeSet, ComponentTypeSetIter};
use crate::entity_change::EntityChange;
use crate::flat_collections::FlatMap;
use crate::id::{EntityId, EntityIdRaw};

verus! {

/// For each entity, the kinds of component attached to it.
///
/// From an id alone this tells which containers hold something of the entity,
/// so that draining or freeing it need not probe every one.
pub struct EntityComponentTable {
    table: FlatMap<ComponentTypeSet>,
}

impl EntityComponentTable {
    /// The invariant that every operation keeps.
    pub closed spec fn wf(&self) -> bool {
        &&& self.table.wf()
        &&& forall|id: EntityIdRaw| #[trigger]
            self.table@.contains_key(id) ==> self.table@[id].wf()
    }

    /// The kinds recorded for `id`.
    pub closed spec fn kinds_of(&self, id: EntityIdRaw) -> Set<ComponentType> {
        if self.table@.contains_key(id) {
            self.table@[id]@
        } else {
            Set::empty()
        }
    }

    /// Whether the table keeps a record for `id`. A record is made when a
    /// kind is first recorded or struck for the entity, and stays, even
    /// where it lists no kind, until the entity is forgotten.
    pub closed spec fn has_record(&self, id: EntityIdRaw) -> bool {
        self.table@.contains_key(id)
    }

    pub fn new() -> (t: Self)
        ensures
            t.wf(),
            forall|id: EntityIdRaw| t.kinds_of(id) == Set::<ComponentType>::empty(),
            forall|id: EntityIdRaw| !t.has_record(id),
    {
        EntityComponentTable { table: FlatMap::new() }
    }

    /// Records that `id` holds a component of kind `typ`.
    pub fn insert(&mut self, id: EntityIdRaw, typ: ComponentType)
        requires
            old(self).wf(),
        ensures
            final(self).wf(),
            final(self).kinds_of(id) == old(self).kinds_of(id).insert(typ),
            final(self).has_record(id),
            forall|other: EntityIdRaw|
                other != id ==> final(self).kinds_of(other) == old(self).kinds_of(other)
                    && final(self).has_record(other) == old(self).has_record(other),
    {
        self.table.entry(&id).or_insert_with(ComponentTypeSet::new).insert(typ);
    }

    /// Records that `id` holds no component of kind `typ`.
    pub fn remove_type(&mut self, id: EntityIdRaw, typ: ComponentType)
        requires
            old(self).wf(),
        ensures
            final(self).wf(),
            final(self).kinds_of(id) == old(self).kinds_of(id).remove(typ),
            final(self).has_record(id),
            forall|other: EntityIdRaw|
                other != id ==> final(self).kinds_of(other) == old(self).kinds_of(other)
                    && final(self).has_record(other) == old(self).has_record(other),
    {
        self.table.entry(&id).or_insert_with(ComponentTypeSet::new).remove(typ);
    }

    pub fn insert_coord(&mut self, id: EntityIdRaw)
        requires
            old(self).wf(),
        ensures
            final(self).wf(),
            final(self).kinds_of(id) == old(self).kinds_of(id).insert(ComponentType::Coord),
            final(self).has_record(id),
            forall|other: EntityIdRaw|
                other != id ==> final(self).kinds_of(other) == old(self).kinds_of(other)
                    && final(self).has_record(other) == old(self).has_record(other),
    {
        self.insert(id, ComponentType::Coord)
    }

    pub fn remove_coord(&mut self, id: EntityIdRaw)
        requires
            old(self).wf(),
        ensures
            final(self).wf(),
            final(self).kinds_of(id) == old(self).kinds_of(id).remove(ComponentType::Coord),
            final(self).has_record(id),
            forall|other: EntityIdRaw|
                other != id ==> final(self).kinds_of(other) == old(self).kinds_of(other)
                    && final(self).has_record(other) == old(self).has_record(other),
    {
        self.remove_type(id, ComponentType::Coord)
    }

    pub fn insert_opacity(&mut self, id: EntityIdRaw)
        requires
            old(self).wf(),
        ensures
            final(self).wf(),
            final(self).kinds_of(id) == old(self).kinds_of(id).insert(ComponentType::Opacity),
            final(self).has_record(id),
            forall|other: EntityIdRaw|
                other != id ==> final(self).kinds_of(other) == old(self).kinds_of(other)
                    && final(self).has_record(other) == old(self).has_record(other),
    {
        self.insert(id, ComponentType::Opacity)
    }

    pub fn remove_opacity(&mut self, id: EntityIdRaw)
        requires
            old(self).wf(),
        ensures
            final(self).wf(),
            final(self).kinds_of(id) == old(self).kinds_of(id).remove(ComponentType::Opacity),
            final(self).has_record(id),
            forall|other: EntityIdRaw|
                other != id ==> final(self).kinds_of(other) == old(self).kinds_of(other)
                    && final(self).has_record(other) == old(self).has_record(other),
    {
        self.remove_type(id, ComponentType::Opacity)
    }

    pub fn insert_player(&mut self, id: EntityIdRaw)
        requires
            old(self).wf(),
        ensures
            final(self).wf(),
            final(self).kinds_of(id) == old(self).kinds_of(id).insert(ComponentType::Player),
            final(self).has_record(id),
            forall|other: EntityIdRaw|
                other != id ==> final(self).kinds_of(other) == old(self).kinds_of(other)
                    && final(self).has_record(other) == old(self).has_record(other),
    {
        self.insert(id, ComponentType::Player)
    }

    pub fn remove_player(&mut self, id: EntityIdRaw)
        requires
            old(self).wf(),
        ensures
            final(self).wf(),
            final(self).kinds_of(id) == old(self).kinds_of(id).remove(ComponentType::Player),
            final(self).has_record(id),
            forall|other: EntityIdRaw|
                other != id ==> final(self).kinds_of(other) == old(self).kinds_of(other)
                    && final(self).has_record(other) == old(self).has_record(other),
    {
        self.remove_type(id, ComponentType::Player)
    }

    pub fn insert_solid(&mut self, id: EntityIdRaw)
        requires
            old(self).wf(),
        ensures
            final(self).wf(),
            final(self).kinds_of(id) == old(self).kinds_of(id).insert(ComponentType::Solid),
            final(self).has_record(id),
            forall|other: EntityIdRaw|
                other != id ==> final(self).kinds_of(other) == old(self).kinds_of(other)
                    && final(self).has_record(other) == old(self).has_record(other),
    {
        self.insert(id, ComponentType::Solid)
    }

    pub fn remove_solid(&mut self, id: EntityIdRaw)
        requires
            old(self).wf(),
        ensures
            final(self).wf(),
            final(self).kinds_of(id) == old(self).kinds_of(id).remove(ComponentType::Solid),
            final(self).has_record(id),
            forall|other: EntityIdRaw|
                other != id ==> final(self).kinds_of(other) == old(self).kinds_of(other)
                    && final(self).has_record(other) == old(self).has_record(other),
    {
        self.remove_type(id, ComponentType::Solid)
    }

    /// Applies one change to the record of the entity it is about. An
    /// insertion makes a record where the entity has none; a removal strikes
    /// the kind from the record that is there, and makes none.
    pub fn update(&mut self, change: &EntityChange)
        requires
            old(self).wf(),
        ensures
            final(self).wf(),
            final(self).kinds_of(change.spec_id().spec_raw()) == (match *change {
                EntityChange::Insert(_, value) => old(self).kinds_of(change.spec_id().spec_raw()).insert(
                    value.spec_typ(),
                ),
                EntityChange::Remove(_, typ) => old(self).kinds_of(change.spec_id().spec_raw()).remove(typ),
            }),
            final(self).has_record(change.spec_id().spec_raw()) == (*change is Insert || old(
                self,
            ).has_record(change.spec_id().spec_raw())),
            forall|other: EntityIdRaw|
                other != change.spec_id().spec_raw() ==> final(self).kinds_of(other) == old(
                    self,
                ).kinds_of(other) && final(self).has_record(other) == old(self).has_record(other),
    {
        match change {
            EntityChange::Insert(id, value) => {
                self.insert(id.raw(), value.typ());
            },
            EntityChange::Remove(id, typ) => {
                let raw = id.raw();
                if let Some(set) = self.table.get_mut(&raw) {
                    set.remove(*typ);
                } else {
                    assert(self.kinds_of(raw).remove(*typ) =~= self.kinds_of(raw));
                }
            },
        }
    }

    /// Forgets `id` and returns the kinds that were recorded for it.
    pub fn remove(&mut self, id: EntityIdRaw) -> (r: Option<ComponentTypeSet>)
        requires
            old(self).wf(),
        ensures
            final(self).wf(),
            final(self).kinds_of(id) == Set::<ComponentType>::empty(),
            !final(self).has_record(id),
            forall|other: EntityIdRaw|
                other != id ==> final(self).kinds_of(other) == old(self).kinds_of(other)
                    && final(self).has_record(other) == old(self).has_record(other),
            r is Some <==> old(self).has_record(id),
            match r {
                Some(set) => set.wf() && set@ == old(self).kinds_of(id),
                None => old(self).kinds_of(id) == Set::<ComponentType>::empty(),
            },
    {
        self.table.remove(&id)
    }

    /// An iterator over the kinds recorded for `id`.
    pub fn components(&self, id: EntityId) -> (it: ComponentTypeSetIter)
        requires
            self.wf(),
        ensures
            it.wf(),
            it@ == self.kinds_of(id.spec_raw()),
    {
        match self.table.get(&id.raw()) {
            Some(s) => s.iter(),
            None => ComponentTypeSetIter::empty(),
        }
    }

    /// An iterator over the changes that detach every component recorded for `id`.
    pub fn remove_entity(&self, id: EntityId) -> (it: RemoveEntityIter)
        requires
            self.wf(),
        ensures
            it.wf(),
            it.id() == id,
            it@ == self.kinds_of(id.spec_raw()),
    {
        RemoveEntityIter { id, iter: self.components(id) }
    }
}

/// Yields, for one entity, a removal of each kind recorded for it.
pub struct RemoveEntityIter {
    id: EntityId,
    iter: ComponentTypeSetIter,
}

impl View for RemoveEntityIter {
    type V = Set<ComponentType>;

    /// The kinds whose removal is still to come.
    closed spec fn view(&self) -> Set<ComponentType> {
        self.iter@
    }
}

impl RemoveEntityIter {
    /// The invariant that every operation keeps.
    pub closed spec fn wf(&self) -> bool {
        self.iter.wf()
    }

    /// The entity whose components are removed.
    pub closed spec fn id(&self) -> EntityId {
        self.id
    }

    /// Yields the removal of the remaining kind with the smallest index.
    pub fn next(&mut self) -> (r: Option<EntityChange>)
        requires
            old(self).wf(),
        ensures
            final(self).wf(),
            final(self).id() == old(self).id(),
            match r {
                Some(EntityChange::Remove(id, t)) => {
                    &&& id == old(self).id()
                    &&& old(self)@.contains(t)
                    &&& forall|u: ComponentType|
                        old(self)@.contains(u) ==> t.spec_index() <= u.spec_index()
                    &&& final(self)@ == old(self)@.remove(t)
                },
                Some(EntityChange::Insert(_, _)) => false,
                None => old(self)@ == Set::<ComponentType>::empty() && final(self)@ == old(self)@,
            },
    {
        match self.iter.next() {
            Some(t) => Some(EntityChange::Remove(self.id, t)),
            None => None,
        }
    }
}

} // verus!
