use vstd::prelude::*;
use crate::component::{ComponentType, ComponentValue};
use crate::id::EntityId;

verus! {

/// One mutation of the components of one entity.
#[derive(Debug, Clone, Copy, PartialEq, Eq, Structural)]
pub enum EntityChange {
    Insert(EntityId, ComponentValue),
    Remove(EntityId, ComponentType),
}

impl EntityChange {
    pub open spec fn spec_id(&self) -> EntityId {
        match self {
            EntityChange::Insert(id, _) => *id,
            EntityChange::Remove(id, _) => *id,
        }
    }

    /// The entity that the change is about.
    #[verifier::when_used_as_spec(spec_id)]
    pub fn id(&self) -> (id: EntityId)
        ensures
            id == self.spec_id(),
    {
        match self {
            EntityChange::Insert(id, _) => *id,
            EntityChange::Remove(id, _) => *id,
        }
    }

    pub open spec fn spec_typ(&self) -> ComponentType {
        match self {
            EntityChange::Insert(_, value) => value.spec_typ(),
            EntityChange::Remove(_, typ) => *typ,
        }
    }

    /// The kind of component that the change is about.
    #[verifier::when_used_as_spec(spec_typ)]
    pub fn typ(&self) -> (t: ComponentType)
        ensures
            t == self.spec_typ(),
    {
        match self {
            EntityChange::Insert(_, value) => value.typ(),
            EntityChange::Remove(_, typ) => *typ,
        }
    }
}

} // verus!
