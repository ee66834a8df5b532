use vstd::prelude::*;
use crate::component::{ComponentType, ComponentValue};
use crate::coord::Coord;
use crate::id::EntityIdRaw;
use crate::storage::{ComponentMap, ComponentSet};
use crate::storage_type::StorageType;

verus! {

/// What a store holds, as mathematical maps and sets: for each kind of
/// component, the entities that hold it, with their values where the kind has one.
pub struct StoreView {
    pub coord: Map<EntityIdRaw, Coord>,
    pub opacity: Map<EntityIdRaw, u8>,
    pub player: Set<EntityIdRaw>,
    pub solid: Set<EntityIdRaw>,
}

impl StoreView {
    /// The store that holds nothing.
    pub open spec fn empty() -> StoreView {
        StoreView {
            coord: Map::empty(),
            opacity: Map::empty(),
            player: Set::empty(),
            solid: Set::empty(),
        }
    }

    /// Only finitely many entities hold anything.
    pub open spec fn finite(self) -> bool {
        &&& self.coord.dom().finite()
        &&& self.opacity.dom().finite()
        &&& self.player.finite()
        &&& self.solid.finite()
    }

    /// The component of kind `typ` that `id` holds, if any.
    pub open spec fn component(self, id: EntityIdRaw, typ: ComponentType) -> Option<ComponentValue> {
        match typ {
            ComponentType::Coord => if self.coord.contains_key(id) {
                Some(ComponentValue::Coord(self.coord[id]))
            } else {
                None
            },
            ComponentType::Opacity => if self.opacity.contains_key(id) {
                Some(ComponentValue::Opacity(self.opacity[id]))
            } else {
                None
            },
            ComponentType::Player => if self.player.contains(id) {
                Some(ComponentValue::Player)
            } else {
                None
            },
            ComponentType::Solid => if self.solid.contains(id) {
                Some(ComponentValue::Solid)
            } else {
                None
            },
        }
    }

    /// The kinds of component that `id` holds.
    pub open spec fn kinds_of(self, id: EntityIdRaw) -> Set<ComponentType> {
        Set::new(|typ: ComponentType| self.component(id, typ) is Some)
    }

    /// The store after `value` was attached to `id`, in place of any earlier
    /// component of the same kind.
    pub open spec fn insert(self, id: EntityIdRaw, value: ComponentValue) -> StoreView {
        match value {
            ComponentValue::Coord(c) => StoreView { coord: self.coord.insert(id, c), ..self },
            ComponentValue::Opacity(o) => StoreView { opacity: self.opacity.insert(id, o), ..self },
            ComponentValue::Player => StoreView { player: self.player.insert(id), ..self },
            ComponentValue::Solid => StoreView { solid: self.solid.insert(id), ..self },
        }
    }

    /// The store after the component of kind `typ` was detached from `id`.
    pub open spec fn remove(self, id: EntityIdRaw, typ: ComponentType) -> StoreView {
        match typ {
            ComponentType::Coord => StoreView { coord: self.coord.remove(id), ..self },
            ComponentType::Opacity => StoreView { opacity: self.opacity.remove(id), ..self },
            ComponentType::Player => StoreView { player: self.player.remove(id), ..self },
            ComponentType::Solid => StoreView { solid: self.solid.remove(id), ..self },
        }
    }

    /// The store in which `id` holds `component` for the kind `typ` (nothing of
    /// that kind where `component` is `None`) and all else is as in `self`.
    pub open spec fn with_component(
        self,
        id: EntityIdRaw,
        typ: ComponentType,
        component: Option<ComponentValue>,
    ) -> StoreView {
        match component {
            Some(value) => self.insert(id, value),
            None => self.remove(id, typ),
        }
    }

    /// The component of kind `typ` of `id` as a list: empty or of one element.
    pub open spec fn component_seq(self, id: EntityIdRaw, typ: ComponentType) -> Seq<
        ComponentValue,
    > {
        match self.component(id, typ) {
            Some(value) => seq![value],
            None => seq![],
        }
    }

    /// The components of `id`, in the order of the indices of their kinds.
    pub open spec fn components_of(self, id: EntityIdRaw) -> Seq<ComponentValue> {
        self.component_seq(id, ComponentType::Coord) + self.component_seq(
            id,
            ComponentType::Opacity,
        ) + self.component_seq(id, ComponentType::Player) + self.component_seq(
            id,
            ComponentType::Solid,
        )
    }

    /// The components of `id` whose kinds are not among `remaining`, in the
    /// order of the indices of their kinds.
    pub open spec fn components_outside(
        self,
        id: EntityIdRaw,
        remaining: Set<ComponentType>,
    ) -> Seq<ComponentValue> {
        (if remaining.contains(ComponentType::Coord) {
            seq![]
        } else {
            self.component_seq(id, ComponentType::Coord)
        }) + (if remaining.contains(ComponentType::Opacity) {
            seq![]
        } else {
            self.component_seq(id, ComponentType::Opacity)
        }) + (if remaining.contains(ComponentType::Player) {
            seq![]
        } else {
            self.component_seq(id, ComponentType::Player)
        }) + (if remaining.contains(ComponentType::Solid) {
            seq![]
        } else {
            self.component_seq(id, ComponentType::Solid)
        })
    }

    /// The store after each of `values` was attached to `id`, one after the other.
    pub open spec fn insert_all(self, id: EntityIdRaw, values: Seq<ComponentValue>) -> StoreView
        decreases values.len(),
    {
        if values.len() == 0 {
            self
        } else {
            self.insert_all(id, values.drop_last()).insert(id, values.last())
        }
    }

    /// Attaching a component and then restoring what the entity held of that
    /// kind before gives the store back, and so does detaching one.
    pub proof fn lemma_restore(self, id: EntityIdRaw, value: ComponentValue)
        ensures
            self.insert(id, value).with_component(
                id,
                value.spec_typ(),
                self.component(id, value.spec_typ()),
            ) == self,
            self.remove(id, value.spec_typ()).with_component(
                id,
                value.spec_typ(),
                self.component(id, value.spec_typ()),
            ) == self,
            self.insert(id, value).component(id, value.spec_typ()) == Some(value),
            self.remove(id, value.spec_typ()).component(id, value.spec_typ()) is None,
    {
        let typ = value.spec_typ();
        let a = self.insert(id, value).with_component(id, typ, self.component(id, typ));
        let b = self.remove(id, typ).with_component(id, typ, self.component(id, typ));
        assert(a.coord =~= self.coord);
        assert(a.opacity =~= self.opacity);
        assert(a.player =~= self.player);
        assert(a.solid =~= self.solid);
        assert(b.coord =~= self.coord);
        assert(b.opacity =~= self.opacity);
        assert(b.player =~= self.player);
        assert(b.solid =~= self.solid);
    }

    /// What the entities hold after one component was attached or detached.
    pub proof fn lemma_kinds_step(self, id: EntityIdRaw, value: ComponentValue, other: EntityIdRaw)
        ensures
            self.insert(id, value).kinds_of(id) == self.kinds_of(id).insert(value.spec_typ()),
            self.remove(id, value.spec_typ()).kinds_of(id) == self.kinds_of(id).remove(
                value.spec_typ(),
            ),
            other != id ==> self.insert(id, value).kinds_of(other) == self.kinds_of(other),
            other != id ==> self.remove(id, value.spec_typ()).kinds_of(other) == self.kinds_of(
                other,
            ),
            self.finite() ==> self.insert(id, value).finite() && self.remove(
                id,
                value.spec_typ(),
            ).finite(),
    {
        let typ = value.spec_typ();
        assert(self.insert(id, value).kinds_of(id) =~= self.kinds_of(id).insert(typ));
        assert(self.remove(id, typ).kinds_of(id) =~= self.kinds_of(id).remove(typ));
        if other != id {
            assert(self.insert(id, value).kinds_of(other) =~= self.kinds_of(other));
            assert(self.remove(id, typ).kinds_of(other) =~= self.kinds_of(other));
        }
    }

    /// The store after every component was detached from `id`.
    pub open spec fn remove_all(self, id: EntityIdRaw) -> StoreView {
        StoreView {
            coord: self.coord.remove(id),
            opacity: self.opacity.remove(id),
            player: self.player.remove(id),
            solid: self.solid.remove(id),
        }
    }
}

/// Which container holds the components of each kind.
#[derive(Clone, Copy, Debug, PartialEq, Eq, Structural)]
pub struct StorageConfig {
    pub coord: StorageType,
    pub opacity: StorageType,
    pub player: StorageType,
    pub solid: StorageType,
}

impl StorageConfig {
    pub open spec fn spec_standard() -> StorageConfig {
        StorageConfig {
            coord: StorageType::Hash,
            opacity: StorageType::Flat,
            player: StorageType::BTree,
            solid: StorageType::Vector,
        }
    }

    /// The assignment that a store uses unless told otherwise.
    #[verifier::when_used_as_spec(spec_standard)]
    pub fn standard() -> (c: StorageConfig)
        ensures
            c == Self::spec_standard(),
    {
        StorageConfig {
            coord: StorageType::Hash,
            opacity: StorageType::Flat,
            player: StorageType::BTree,
            solid: StorageType::Vector,
        }
    }

    /// The assignment that uses one container for every kind.
    pub fn uniform(storage: StorageType) -> (c: StorageConfig)
        ensures
            c == (StorageConfig { coord: storage, opacity: storage, player: storage, solid: storage }),
    {
        StorageConfig { coord: storage, opacity: storage, player: storage, solid: storage }
    }
}

/// The containers of a store, one for each kind of component.
pub struct EntityStoreRaw {
    pub coord: ComponentMap<Coord>,
    pub opacity: ComponentMap<u8>,
    pub player: ComponentSet,
    pub solid: ComponentSet,
}

impl View for EntityStoreRaw {
    type V = StoreView;

    open spec fn view(&self) -> StoreView {
        StoreView {
            coord: self.coord@,
            opacity: self.opacity@,
            player: self.player@,
            solid: self.solid@,
        }
    }
}

impl EntityStoreRaw {
    /// The invariant that every operation keeps.
    pub open spec fn wf(&self) -> bool {
        &&& self.coord.wf()
        &&& self.opacity.wf()
        &&& self.player.wf()
        &&& self.solid.wf()
        &&& self@.finite()
    }

    /// The container that holds each kind.
    pub open spec fn storage(&self) -> StorageConfig {
        StorageConfig {
            coord: self.coord.spec_storage_type(),
            opacity: self.opacity.spec_storage_type(),
            player: self.player.spec_storage_type(),
            solid: self.solid.spec_storage_type(),
        }
    }

    /// Empty containers in the standard assignment.
    pub fn new() -> (s: Self)
        ensures
            s.wf(),
            s@ == StoreView::empty(),
            s.storage() == StorageConfig::spec_standard(),
    {
        Self::with_storage(StorageConfig::standard())
    }

    /// Empty containers in the assignment that `config` gives.
    pub fn with_storage(config: StorageConfig) -> (s: Self)
        ensures
            s.wf(),
            s@ == StoreView::empty(),
            s.storage() == config,
    {
        EntityStoreRaw {
            coord: ComponentMap::new(config.coord),
            opacity: ComponentMap::new(config.opacity),
            player: ComponentSet::new(config.player),
            solid: ComponentSet::new(config.solid),
        }
    }
}

} // verus!
