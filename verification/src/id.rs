use vstd::prelude::*;

verus! {

/// The raw integer behind an entity id.
pub type EntityIdRaw = u32;

/// Token handed out together with a store. Operations that hand out entity
/// ids borrow it, and the one that frees an entity borrows it mutably.
#[derive(Debug)]
pub struct EntityWit(());

impl EntityWit {
    pub(crate) fn new() -> Self {
        EntityWit(())
    }
}

/// The identity of an entity. It carries no data of its own.
#[derive(Debug, Clone, Copy, PartialEq, Eq, Hash, Structural)]
pub struct EntityId {
    pub(crate) raw: EntityIdRaw,
}

impl EntityId {
    pub(crate) fn from_raw(raw: EntityIdRaw) -> (id: Self)
        ensures
            id.spec_raw() == raw,
    {
        EntityId { raw }
    }

    /// Two ids with the same raw id are the same id.
    pub proof fn lemma_raw_injective(self, other: Self)
        requires
            self.spec_raw() == other.spec_raw(),
        ensures
            self == other,
    {
    }

    pub closed spec fn spec_raw(self) -> EntityIdRaw {
        self.raw
    }

    #[verifier::when_used_as_spec(spec_raw)]
    pub fn raw(self) -> (r: EntityIdRaw)
        ensures
            r == self.spec_raw(),
    {
        self.raw
    }
}

/// An entity id together with the number of times its raw id had been freed
/// when the reference was made. It stays valid until the entity is freed.
#[derive(Debug, Clone, Copy, PartialEq, Eq, Hash, Structural)]
pub struct EntityIdRuntimeChecked {
    pub(crate) raw: EntityIdRaw,
    pub(crate) free_count: u64,
}

impl EntityIdRuntimeChecked {
    pub(crate) fn from_parts(raw: EntityIdRaw, free_count: u64) -> (id: Self)
        ensures
            id.spec_raw() == raw,
            id.spec_free_count() == free_count,
    {
        EntityIdRuntimeChecked { raw, free_count }
    }

    pub closed spec fn spec_raw(self) -> EntityIdRaw {
        self.raw
    }

    pub closed spec fn spec_free_count(self) -> u64 {
        self.free_count
    }

    #[verifier::when_used_as_spec(spec_raw)]
    pub fn raw(self) -> (r: EntityIdRaw)
        ensures
            r == self.spec_raw(),
    {
        self.raw
    }

    #[verifier::when_used_as_spec(spec_free_count)]
    pub fn free_count(self) -> (n: u64)
        ensures
            n == self.spec_free_count(),
    {
        self.free_count
    }
}

/// A reference to an entity that can be kept across the freeing of entities.
pub type EntityIdToStore = EntityIdRuntimeChecked;

/// A reference to an entity that is handed over to free the entity.
pub type EntityIdToFree = EntityIdRuntimeChecked;

} // verus!
