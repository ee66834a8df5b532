use vstd::prelude::*;
use crate::component::{ComponentType, ComponentValue};
use crate::coord::{Coord, Size};
use crate::entity_change::EntityChange;
use crate::entity_component_table::EntityComponentTable;
use crate::entity_store_raw::{EntityStoreRaw, StorageConfig, StoreView};
use crate::flat_collections::{FlatMap, FlatSet};
use crate::id::{EntityId, EntityIdRaw, EntityIdRuntimeChecked, EntityIdToFree, EntityIdToStore, EntityWit};
use crate::id_allocator::{
    pool_allocate, pool_free, pool_free_list, pool_new, pool_next, pool_peek, RawIdPool,
};
use crate::grid::{cell_index, coord_at};
use crate::aggregate::solid_count_at;
use crate::direction::{lemma_steps, neighbour, step, Direction, NUM_DIRECTIONS};
use crate::spatial_hash::{
    has_room, lemma_member_step, lemma_placed_step, placed, placing_stamps, stamps, unplaced,
    SpatialHashCell, SpatialHashTable,
};
use crate::ordered::ascending_ids;
use crate::storage::ComponentMap;
use crate::storage_type::StorageType;

verus! {

/// An entity-component store with a spatial hash.
///
/// Entities are bare identities. Each can hold a position (`coord`), an
/// opacity, and the flags `player` and `solid`. A grid of cells summarises,
/// for every coordinate, the entities positioned there; the summaries are
/// brought up to date on every mutation.
pub struct EntityStore {
    raw: EntityStoreRaw,
    spatial_hash: SpatialHashTable,
    id_allocator: RawIdPool,
    id_free_count: FlatMap<u64>,
    live: FlatSet,
    num_free: u64,
    entity_component_table: EntityComponentTable,
    time: u64,
}

impl View for EntityStore {
    type V = StoreView;

    /// The components that the entities hold.
    closed spec fn view(&self) -> StoreView {
        self.raw@
    }
}

impl EntityStore {
    /// The raw ids that are allocated and not freed.
    pub closed spec fn live_ids(&self) -> Set<EntityIdRaw> {
        self.live@
    }

    /// How often the raw id was freed.
    pub closed spec fn generation(&self, raw: EntityIdRaw) -> u64 {
        if self.id_free_count@.contains_key(raw) {
            self.id_free_count@[raw]
        } else {
            0
        }
    }

    /// The store-wide clock: it advances with every mutation of a component.
    pub closed spec fn clock(&self) -> u64 {
        self.time
    }

    /// The size of the grid.
    pub closed spec fn grid_size(&self) -> Size {
        self.spatial_hash.spec_size()
    }

    /// The cell at `c`, which must lie inside the grid.
    pub closed spec fn cell(&self, c: Coord) -> SpatialHashCell {
        self.spatial_hash.cell(c)
    }

    /// The cells in storage order: row after row, each from left to right.
    pub closed spec fn cells(&self) -> Seq<SpatialHashCell> {
        self.spatial_hash.cells()
    }

    /// The container that holds each kind of component.
    pub closed spec fn storage(&self) -> StorageConfig {
        self.raw.storage()
    }

    /// The number of raw ids that were never handed out and still can be.
    /// The largest raw id is never handed out.
    pub closed spec fn fresh_ids_left(&self) -> nat {
        (EntityIdRaw::MAX - pool_next(self.id_allocator)) as nat
    }

    /// The number of raw ids that were freed and not handed out since.
    pub closed spec fn freed_ids_waiting(&self) -> nat {
        pool_free_list(self.id_allocator).len()
    }

    /// Whether an id is left to allocate: a freed one, or one never used.
    pub open spec fn spec_has_spare_id(&self) -> bool {
        self.freed_ids_waiting() > 0 || self.fresh_ids_left() > 0
    }

    /// The reference is to a live entity and was made since that raw id was
    /// last freed.
    pub open spec fn is_valid(&self, id: EntityIdRuntimeChecked) -> bool {
        self.live_ids().contains(id.spec_raw()) && self.generation(id.spec_raw())
            == id.spec_free_count()
    }

    /// The internal invariant of the store.
    pub closed spec fn wf(&self) -> bool {
        &&& self.raw.wf()
        &&& self.spatial_hash.wf()
        &&& self.spatial_hash.matches(self.raw@)
        &&& self.entity_component_table.wf()
        &&& forall|id: EntityIdRaw| #[trigger]
            self.entity_component_table.kinds_of(id) == self.raw@.kinds_of(id)
        &&& self.live.wf()
        &&& self.id_free_count.wf()
        &&& pool_free_list(self.id_allocator).no_duplicates()
        &&& self.num_free == pool_free_list(self.id_allocator).len()
        &&& forall|e: EntityIdRaw|
            self.live@.contains(e) <==> (e < pool_next(self.id_allocator) && !pool_free_list(
                self.id_allocator,
            ).contains(e))
        &&& forall|e: EntityIdRaw|
            pool_free_list(self.id_allocator).contains(e) ==> e < pool_next(self.id_allocator)
    }

    /// What `other` has of identities is what `self` has: the live ids, their
    /// generations, and the ids that are left.
    pub open spec fn same_identities(&self, other: &Self) -> bool {
        &&& self.live_ids() == other.live_ids()
        &&& forall|raw: EntityIdRaw| self.generation(raw) == other.generation(raw)
        &&& self.fresh_ids_left() == other.fresh_ids_left()
        &&& self.freed_ids_waiting() == other.freed_ids_waiting()
    }

    /// What an allocation takes from the ids that are left, where `before`
    /// is the store before it: a freed id where one waits, else a fresh one.
    pub open spec fn one_id_taken_from(&self, before: &Self) -> bool {
        if before.freed_ids_waiting() > 0 {
            self.freed_ids_waiting() == before.freed_ids_waiting() - 1 && self.fresh_ids_left()
                == before.fresh_ids_left()
        } else {
            self.freed_ids_waiting() == 0 && self.fresh_ids_left() == before.fresh_ids_left() - 1
        }
    }

    /// What a mutation of one component of the entity `raw` leaves alone and
    /// what it touches, where `before` is the store before it, `typ` the kind
    /// of the component and `previous` the component of that kind that the
    /// entity held: identities, grid size and containers stay, the clock
    /// advances, the cells that change are stamped with the new time, and
    /// no other cell changes.
    pub open spec fn changed_from(
        &self,
        before: &Self,
        raw: EntityIdRaw,
        typ: ComponentType,
        previous: Option<ComponentValue>,
    ) -> bool {
        &&& self.same_identities(before)
        &&& self.grid_size() == before.grid_size()
        &&& self.storage() == before.storage()
        &&& self.clock() == next_clock(before.clock())
        &&& forall|c: Coord|
            c.spec_is_valid(before.grid_size()) && !stamps(self@, raw, typ, previous, c)
                ==> self.cell(c) == before.cell(c)
        &&& forall|c: Coord|
            c.spec_is_valid(before.grid_size()) && stamps(self@, raw, typ, previous, c) ==> (
            #[trigger] self.cell(c)).last_updated == self.clock()
    }

    /// Nothing that can be observed differs between `self` and `before`.
    pub open spec fn unchanged_from(&self, before: &Self) -> bool {
        &&& self@ == before@
        &&& self.same_identities(before)
        &&& self.grid_size() == before.grid_size()
        &&& self.storage() == before.storage()
        &&& self.clock() == before.clock()
        &&& self.cells() == before.cells()
    }

    /// What detaching the component of kind `typ` from the entity `raw`
    /// leaves alone and what it touches, where `before` is the store before
    /// it and `previous` the component that the entity held: where it held
    /// none, nothing changes at all.
    pub open spec fn removed_from(
        &self,
        before: &Self,
        raw: EntityIdRaw,
        typ: ComponentType,
        previous: Option<ComponentValue>,
    ) -> bool {
        if previous is Some {
            self.changed_from(before, raw, typ, previous)
        } else {
            self.unchanged_from(before)
        }
    }

    /// What the cells are after every component was detached from the
    /// entity `raw`, where `before` is the store before: the cell at the
    /// position that the entity had is stamped with the time of the first
    /// detachment, and so are the cells one step from it where the entity was
    /// solid. No other cell changes.
    pub open spec fn cells_drained_from(&self, before: &Self, raw: EntityIdRaw) -> bool {
        forall|c: Coord|
            c.spec_is_valid(before.grid_size()) ==> (if placing_stamps(
                before@.solid.contains(raw),
                before@.coord.get(raw),
                c,
            ) {
                (#[trigger] self.cell(c)).last_updated == next_clock(before.clock())
            } else {
                self.cell(c) == before.cell(c)
            })
    }

    /// Whether the counters of the neighbouring cells have room for the
    /// entity `id` once `value` is attached to it. A counter counts up to
    /// 255 solid entities at one position. There is always room where
    /// `value` is neither a position nor solidity.
    pub open spec fn spec_has_room(&self, id: EntityId, value: ComponentValue) -> bool {
        has_room(self@.insert(id.spec_raw(), value), self.grid_size(), id.spec_raw())
    }

    /// Attaching an opacity or making an entity a player always finds room,
    /// and so does attaching what the entity holds already.
    pub proof fn lemma_room(&self, id: EntityId, value: ComponentValue)
        requires
            self.wf(),
            value.spec_typ() == ComponentType::Opacity || value.spec_typ() == ComponentType::Player
                || self@.component(id.spec_raw(), value.spec_typ()) == Some(value),
        ensures
            self.spec_has_room(id, value),
    {
        self.spatial_hash.lemma_room(self.raw@, id.spec_raw());
        let v = self@.insert(id.spec_raw(), value);
        assert(v.coord =~= self@.coord);
        assert(v.solid =~= self@.solid);
    }

    /// A store with fewer than 255 solid entities has room for whatever is
    /// attached to whichever entity: no position can then hold more solid
    /// entities than a counter can count.
    pub proof fn lemma_room_for_few(&self, id: EntityId, value: ComponentValue)
        requires
            self.wf(),
            self@.solid.len() < u8::MAX,
        ensures
            self.spec_has_room(id, value),
    {
        let v = self@.insert(id.spec_raw(), value);
        let all = self@.solid.insert(id.spec_raw());
        assert(v.solid.subset_of(all));
        if v.solid.contains(id.spec_raw()) && v.coord.contains_key(id.spec_raw()) {
            let here = crate::aggregate::holders_at(v.coord, v.coord[id.spec_raw()], v.solid);
            assert(here.subset_of(all));
            vstd::set_lib::lemma_len_subset(here, all);
        }
    }

    /// Whether the counters of the neighbouring cells have room for the
    /// entity `id` once `value` is attached to it.
    pub fn has_room(&self, id: EntityId, value: &ComponentValue) -> (b: bool)
        requires
            self.wf(),
        ensures
            b == self.spec_has_room(id, *value),
    {
        let raw = id.raw();
        let ghost v = self.raw@;
        let ghost after = v.insert(raw, *value);
        let (position, counted) = match value {
            ComponentValue::Solid => {
                let position = match self.raw.coord.get(&raw) {
                    Some(p) => Some(*p),
                    None => None,
                };
                (position, self.raw.solid.contains(&raw))
            },
            ComponentValue::Coord(target) => {
                if !self.raw.solid.contains(&raw) {
                    return true;
                }
                let stays = match self.raw.coord.get(&raw) {
                    Some(p) => p.x == target.x && p.y == target.y,
                    None => false,
                };
                (Some(*target), stays)
            },
            _ => {
                proof {
                    self.lemma_room(id, *value);
                }
                return true;
            },
        };
        let p = match position {
            Some(p) => p,
            None => {
                return true;
            },
        };
        proof {
            assert(after.solid.contains(raw) && after.coord.contains_key(raw) && after.coord[raw]
                == p);
            match *value {
                ComponentValue::Solid => {
                    assert(after.solid.remove(raw) =~= v.solid.remove(raw));
                    lemma_member_step(v.coord, v.solid, after.solid, raw, p);
                },
                _ => {
                    lemma_placed_step(v, raw, p, p);
                    if v.coord.contains_key(raw) {
                        lemma_placed_step(v, raw, v.coord[raw], p);
                        assert(placed(v, raw, v.coord[raw]).coord =~= v.coord);
                    } else {
                        assert(unplaced(v, raw).coord =~= v.coord);
                    }
                },
            }
            assert(solid_count_at(after, p) == solid_count_at(v, p) + (if counted {
                0int
            } else {
                1
            }));
        }
        let mut k: usize = 0;
        while k < NUM_DIRECTIONS
            invariant
                self.wf(),
                v == self.raw@,
                raw == id.spec_raw(),
                after == v.insert(raw, *value),
                after.solid.contains(raw),
                after.coord.contains_key(raw),
                after.coord[raw] == p,
                solid_count_at(after, p) == solid_count_at(v, p) + (if counted {
                    0int
                } else {
                    1
                }),
                k <= NUM_DIRECTIONS,
                forall|d: Direction|
                    d.spec_index() < k ==> !((#[trigger] neighbour(p, d)) is Some && neighbour(
                        p,
                        d,
                    ).unwrap().spec_is_valid(self.grid_size())),
            decreases NUM_DIRECTIONS - k,
        {
            let d = Direction::from_index(k);
            if let Some(c) = step(p, d) {
                if let Some(cell) = self.spatial_hash.get(c) {
                    let n = cell.solid_neighbours(d.opposite());
                    proof {
                        lemma_steps(p, c, d, d);
                        assert(self.spatial_hash.cell(c).matches(v, c));
                        assert(n == crate::aggregate::solid_neighbours_at(
                            v,
                            c,
                            d.spec_opposite(),
                        ));
                        assert(n == solid_count_at(v, p));
                        assert(neighbour(p, d) is Some && neighbour(p, d).unwrap().spec_is_valid(
                            self.grid_size(),
                        ));
                    }
                    return if counted {
                        true
                    } else {
                        n < u8::MAX
                    };
                }
            }
            proof {
                assert forall|e: Direction|
                    e.spec_index() < k + 1 implies !((#[trigger] neighbour(p, e)) is Some
                    && neighbour(p, e).unwrap().spec_is_valid(self.grid_size())) by {
                    lemma_steps(p, p, d, e);
                }
            }
            k += 1;
        }
        true
    }

    /// Every cell summarises exactly the entities positioned at it: the sum
    /// of their opacities, the number of solid ones, and the set of players.
    pub proof fn lemma_aggregates(&self, c: Coord)
        requires
            self.wf(),
            c.spec_is_valid(self.grid_size()),
        ensures
            self.cell(c).matches(self@, c),
    {
    }

    /// Every store holds components of finitely many entities only.
    pub proof fn lemma_finite(&self)
        requires
            self.wf(),
        ensures
            self@.finite(),
    {
    }

    /// An empty store with a grid of the given size and the standard
    /// containers, and the token that goes with it.
    pub fn new(size: Size) -> (r: (Self, EntityWit))
        requires
            size.spec_fits_grid(),
        ensures
            r.0.wf(),
            r.0@ == StoreView::empty(),
            r.0.live_ids() == Set::<EntityIdRaw>::empty(),
            forall|raw: EntityIdRaw| r.0.generation(raw) == 0,
            r.0.clock() == 0,
            r.0.grid_size() == size,
            r.0.storage() == StorageConfig::spec_standard(),
            r.0.fresh_ids_left() == EntityIdRaw::MAX,
            r.0.freed_ids_waiting() == 0,
            forall|c: Coord| c.spec_is_valid(size) ==> (#[trigger] r.0.cell(c)).is_fresh(),
    {
        Self::with_storage(size, StorageConfig::standard())
    }

    /// An empty store with a grid of the given size and the containers that
    /// `config` names, and the token that goes with it.
    pub fn with_storage(size: Size, config: StorageConfig) -> (r: (Self, EntityWit))
        requires
            size.spec_fits_grid(),
        ensures
            r.0.wf(),
            r.0@ == StoreView::empty(),
            r.0.live_ids() == Set::<EntityIdRaw>::empty(),
            forall|raw: EntityIdRaw| r.0.generation(raw) == 0,
            r.0.clock() == 0,
            r.0.grid_size() == size,
            r.0.storage() == config,
            r.0.fresh_ids_left() == EntityIdRaw::MAX,
            r.0.freed_ids_waiting() == 0,
            forall|c: Coord| c.spec_is_valid(size) ==> (#[trigger] r.0.cell(c)).is_fresh(),
    {
        let store = EntityStore {
            raw: EntityStoreRaw::with_storage(config),
            spatial_hash: SpatialHashTable::new(size),
            id_allocator: pool_new(),
            id_free_count: FlatMap::new(),
            live: FlatSet::new(),
            num_free: 0,
            entity_component_table: EntityComponentTable::new(),
            time: 0,
        };
        proof {
            assert forall|id: EntityIdRaw| #[trigger]
                store.entity_component_table.kinds_of(id) == store.raw@.kinds_of(id) by {
                assert(store.raw@.kinds_of(id) =~= Set::<ComponentType>::empty());
            }
        }
        (store, EntityWit::new())
    }

    /// Whether an id is left to allocate.
    #[verifier::when_used_as_spec(spec_has_spare_id)]
    pub fn has_spare_id(&self) -> (b: bool)
        requires
            self.wf(),
        ensures
            b == self.spec_has_spare_id(),
    {
        self.num_free > 0 || pool_peek(&self.id_allocator) < EntityIdRaw::MAX
    }

    /// Allocates an entity: a raw id that was freed, or one never used.
    ///
    /// The id is not live before the call, so it is the id of no entity to
    /// which a valid reference exists.
    pub fn allocate_entity_id(&mut self, wit: &EntityWit) -> (id: EntityId)
        requires
            old(self).wf(),
            old(self).spec_has_spare_id(),
        ensures
            final(self).wf(),
            !old(self).live_ids().contains(id.spec_raw()),
            forall|reference: EntityIdRuntimeChecked|
                old(self).is_valid(reference) ==> reference.spec_raw() != id.spec_raw(),
            final(self).live_ids() == old(self).live_ids().insert(id.spec_raw()),
            final(self).one_id_taken_from(old(self)),
            forall|raw: EntityIdRaw| final(self).generation(raw) == old(self).generation(raw),
            final(self)@ == old(self)@,
            final(self).clock() == old(self).clock(),
            final(self).grid_size() == old(self).grid_size(),
            final(self).cells() == old(self).cells(),
            final(self).storage() == old(self).storage(),
    {
        let ghost free = pool_free_list(self.id_allocator);
        let ghost next = pool_next(self.id_allocator);
        let raw = pool_allocate(&mut self.id_allocator);
        if self.num_free > 0 {
            self.num_free = self.num_free - 1;
        }
        self.live.insert(raw);
        proof {
            let free1 = pool_free_list(self.id_allocator);
            if free.len() > 0 {
                assert(free.contains(free.last()));
                assert forall|e: EntityIdRaw| free1.contains(e) <==> (free.contains(e) && e
                    != raw) by {
                    if free1.contains(e) {
                        let i = choose|i: int| 0 <= i < free1.len() && free1[i] == e;
                        assert(free[i] == e);
                    }
                    if free.contains(e) && e != raw {
                        let i = choose|i: int| 0 <= i < free.len() && free[i] == e;
                        assert(free1[i] == e);
                    }
                }
            }
        }
        EntityId::from_raw(raw)
    }

    /// Allocates an entity where an id is left, and returns `None` where
    /// none is.
    pub fn try_allocate_entity_id(&mut self, wit: &EntityWit) -> (r: Option<EntityId>)
        requires
            old(self).wf(),
        ensures
            final(self).wf(),
            r is Some <==> old(self).spec_has_spare_id(),
            match r {
                Some(id) => {
                    &&& !old(self).live_ids().contains(id.spec_raw())
                    &&& final(self).live_ids() == old(self).live_ids().insert(id.spec_raw())
                    &&& final(self).one_id_taken_from(old(self))
                },
                None => {
                    &&& final(self).live_ids() == old(self).live_ids()
                    &&& final(self).fresh_ids_left() == 0
                    &&& final(self).freed_ids_waiting() == 0
                },
            },
            forall|raw: EntityIdRaw| final(self).generation(raw) == old(self).generation(raw),
            final(self)@ == old(self)@,
            final(self).clock() == old(self).clock(),
            final(self).grid_size() == old(self).grid_size(),
            final(self).cells() == old(self).cells(),
            final(self).storage() == old(self).storage(),
    {
        if self.has_spare_id() {
            Some(self.allocate_entity_id(wit))
        } else {
            None
        }
    }

    /// A reference to `id` that can be checked later: it holds the number of
    /// times the raw id has been freed so far.
    pub fn entity_id_to_store(&self, id: EntityId) -> (r: EntityIdToStore)
        ensures
            r.spec_raw() == id.spec_raw(),
            r.spec_free_count() == self.generation(id.spec_raw()),
    {
        let free_count = match self.id_free_count.get(&id.raw()) {
            Some(n) => *n,
            None => 0,
        };
        EntityIdRuntimeChecked::from_parts(id.raw(), free_count)
    }

    /// The entity that `id` refers to, if the reference is still valid.
    pub fn entity_id_from_stored(&self, wit: &EntityWit, id: EntityIdToStore) -> (r: Option<
        EntityId,
    >)
        requires
            self.wf(),
        ensures
            r is Some <==> self.is_valid(id),
            r is Some ==> r.unwrap().spec_raw() == id.spec_raw(),
    {
        let free_count = match self.id_free_count.get(&id.raw()) {
            Some(n) => *n,
            None => 0,
        };
        if free_count == id.free_count() && self.live.contains(&id.raw()) {
            Some(EntityId::from_raw(id.raw()))
        } else {
            None
        }
    }

    /// A reference to `id` with which the entity can be freed.
    pub fn entity_id_to_free(&self, id: EntityId) -> (r: EntityIdToFree)
        ensures
            r.spec_raw() == id.spec_raw(),
            r.spec_free_count() == self.generation(id.spec_raw()),
    {
        let free_count = match self.id_free_count.get(&id.raw()) {
            Some(n) => *n,
            None => 0,
        };
        EntityIdRuntimeChecked::from_parts(id.raw(), free_count)
    }

    /// Advances the clock, which stops at the largest value it can hold.
    fn tick(&mut self) -> (time: u64)
        ensures
            time == next_clock(old(self).time),
            *final(self) == (EntityStore { time, ..*old(self) }),
    {
        if self.time < u64::MAX {
            self.time = self.time + 1;
        }
        self.time
    }

    /// Attaches `value` to `id`, in place of any component of the same kind
    /// that `id` held, and returns that component.
    ///
    /// The cell at the entity's position is brought up to date, and for a
    /// change of position the cell that it left as well. No other cell changes.
    pub fn insert(&mut self, id: EntityId, value: ComponentValue) -> (r: Option<ComponentValue>)
        requires
            old(self).wf(),
            old(self).spec_has_room(id, value),
        ensures
            final(self).wf(),
            final(self)@ == old(self)@.insert(id.spec_raw(), value),
            r == old(self)@.component(id.spec_raw(), value.spec_typ()),
            final(self).changed_from(old(self), id.spec_raw(), value.spec_typ(), r),
    {
        let raw = id.raw();
        let previous = match value {
            ComponentValue::Coord(coord) => match self.raw.coord.insert(raw, coord) {
                Some(before) => Some(ComponentValue::Coord(before)),
                None => None,
            },
            ComponentValue::Opacity(opacity) => match self.raw.opacity.insert(raw, opacity) {
                Some(before) => Some(ComponentValue::Opacity(before)),
                None => None,
            },
            ComponentValue::Player => if self.raw.player.insert(raw) {
                Some(ComponentValue::Player)
            } else {
                None
            },
            ComponentValue::Solid => if self.raw.solid.insert(raw) {
                Some(ComponentValue::Solid)
            } else {
                None
            },
        };
        proof {
            assert(self.raw@ == old(self).raw@.insert(raw, value));
            old(self).raw@.lemma_restore(raw, value);
            assert forall|other: EntityIdRaw| #[trigger]
                old(self).entity_component_table.kinds_of(other) == old(self).raw@.kinds_of(
                    other,
                ) by {}
        }
        self.entity_component_table.insert(raw, value.typ());
        proof {
            assert forall|other: EntityIdRaw| #[trigger]
                self.entity_component_table.kinds_of(other) == self.raw@.kinds_of(other) by {
                old(self).raw@.lemma_kinds_step(raw, value, other);
                assert(old(self).entity_component_table.kinds_of(other) == old(self).raw@.kinds_of(
                    other,
                ));
            }
            old(self).raw@.lemma_kinds_step(raw, value, raw);
        }
        let time = self.tick();
        let change = EntityChange::Insert(id, value);
        self.spatial_hash.update(&self.raw, &change, previous, time);
        previous
    }

    /// Attaches `value` to `id` where the counters of the neighbouring cells
    /// have room for it, and returns the component of that kind that `id`
    /// held. Where they have no room, nothing changes and `value` comes back.
    pub fn try_insert(&mut self, id: EntityId, value: ComponentValue) -> (r: Result<
        Option<ComponentValue>,
        ComponentValue,
    >)
        requires
            old(self).wf(),
        ensures
            final(self).wf(),
            match r {
                Ok(previous) => {
                    &&& old(self).spec_has_room(id, value)
                    &&& final(self)@ == old(self)@.insert(id.spec_raw(), value)
                    &&& previous == old(self)@.component(id.spec_raw(), value.spec_typ())
                    &&& final(self).changed_from(
                        old(self),
                        id.spec_raw(),
                        value.spec_typ(),
                        previous,
                    )
                },
                Err(back) => {
                    &&& !old(self).spec_has_room(id, value)
                    &&& back == value
                    &&& final(self).unchanged_from(old(self))
                },
            },
    {
        if self.has_room(id, &value) {
            Ok(self.insert(id, value))
        } else {
            Err(value)
        }
    }

    fn raw_remove(&mut self, raw: EntityIdRaw, typ: ComponentType) -> (r: Option<ComponentValue>)
        requires
            old(self).wf(),
        ensures
            final(self).wf(),
            final(self)@ == old(self)@.remove(raw, typ),
            r == old(self)@.component(raw, typ),
            final(self).removed_from(old(self), raw, typ, r),
            final(self).id_allocator == old(self).id_allocator,
            final(self).id_free_count == old(self).id_free_count,
            final(self).live == old(self).live,
            final(self).num_free == old(self).num_free,
    {
        let previous = match typ {
            ComponentType::Coord => match self.raw.coord.remove(&raw) {
                Some(before) => Some(ComponentValue::Coord(before)),
                None => None,
            },
            ComponentType::Opacity => match self.raw.opacity.remove(&raw) {
                Some(before) => Some(ComponentValue::Opacity(before)),
                None => None,
            },
            ComponentType::Player => if self.raw.player.remove(&raw) {
                Some(ComponentValue::Player)
            } else {
                None
            },
            ComponentType::Solid => if self.raw.solid.remove(&raw) {
                Some(ComponentValue::Solid)
            } else {
                None
            },
        };
        if previous.is_none() {
            proof {
                crate::laws::lemma_remove_absent(old(self).raw@, raw, typ);
            }
            return None;
        }
        let ghost witness = match typ {
            ComponentType::Coord => ComponentValue::Coord(Coord { x: 0, y: 0 }),
            ComponentType::Opacity => ComponentValue::Opacity(0),
            ComponentType::Player => ComponentValue::Player,
            ComponentType::Solid => ComponentValue::Solid,
        };
        proof {
            assert(self.raw@ == old(self).raw@.remove(raw, typ));
            old(self).raw@.lemma_restore(raw, witness);
            assert forall|other: EntityIdRaw| #[trigger]
                old(self).entity_component_table.kinds_of(other) == old(self).raw@.kinds_of(
                    other,
                ) by {}
        }
        self.entity_component_table.remove_type(raw, typ);
        proof {
            assert forall|other: EntityIdRaw| #[trigger]
                self.entity_component_table.kinds_of(other) == self.raw@.kinds_of(other) by {
                old(self).raw@.lemma_kinds_step(raw, witness, other);
                assert(old(self).entity_component_table.kinds_of(other) == old(self).raw@.kinds_of(
                    other,
                ));
            }
            old(self).raw@.lemma_kinds_step(raw, witness, raw);
        }
        let time = self.tick();
        let change = EntityChange::Remove(EntityId::from_raw(raw), typ);
        proof {
            old(self).spatial_hash.lemma_room(old(self).raw@, raw);
            assert(has_room(self.raw@, self.spatial_hash.spec_size(), raw));
        }
        self.spatial_hash.update(&self.raw, &change, previous, time);
        previous
    }

    /// Detaches the component of kind `typ` from `id` and returns it. Where
    /// `id` holds none, nothing changes, and `None` is returned.
    pub fn remove(&mut self, id: EntityId, typ: ComponentType) -> (r: Option<ComponentValue>)
        requires
            old(self).wf(),
        ensures
            final(self).wf(),
            final(self)@ == old(self)@.remove(id.spec_raw(), typ),
            r == old(self)@.component(id.spec_raw(), typ),
            final(self).removed_from(old(self), id.spec_raw(), typ, r),
    {
        self.raw_remove(id.raw(), typ)
    }

    /// Detaches every component from the entity with the raw id `raw` and
    /// returns them in the order of the indices of their kinds.
    fn remove_components(&mut self, raw: EntityIdRaw) -> (out: Vec<ComponentValue>)
        requires
            old(self).wf(),
        ensures
            final(self).wf(),
            final(self)@ == old(self)@.remove_all(raw),
            out@ == old(self)@.components_of(raw),
            final(self).same_identities(old(self)),
            final(self).id_allocator == old(self).id_allocator,
            final(self).id_free_count == old(self).id_free_count,
            final(self).live == old(self).live,
            final(self).num_free == old(self).num_free,
            final(self).grid_size() == old(self).grid_size(),
            final(self).storage() == old(self).storage(),
            final(self).clock() == clock_after(old(self).clock(), out@.len()),
            final(self)@.kinds_of(raw) == Set::<ComponentType>::empty(),
            final(self).cells_drained_from(old(self), raw),
    {
        let mut out: Vec<ComponentValue> = Vec::new();
        let mut iter = self.entity_component_table.components(EntityId::from_raw(raw));
        let ghost start = old(self)@;
        proof {
            assert(self.entity_component_table.kinds_of(raw) == self.raw@.kinds_of(raw));
            assert(out@ =~= start.components_outside(raw, iter@));
        }
        loop
            invariant
                self.wf(),
                iter.wf(),
                start == old(self)@,
                iter@ == self@.kinds_of(raw),
                iter@.subset_of(start.kinds_of(raw)),
                forall|k: ComponentType|
                    iter@.contains(k) ==> self@.component(raw, k) == start.component(raw, k),
                forall|p: ComponentType, r: ComponentType|
                    start.kinds_of(raw).contains(p) && !iter@.contains(p) && iter@.contains(r)
                        ==> p.spec_index() < r.spec_index(),
                self@.remove_all(raw) == start.remove_all(raw),
                out@ == start.components_outside(raw, iter@),
                self.same_identities(old(self)),
                self.id_allocator == old(self).id_allocator,
                self.id_free_count == old(self).id_free_count,
                self.live == old(self).live,
                self.num_free == old(self).num_free,
                self.grid_size() == old(self).grid_size(),
                self.storage() == old(self).storage(),
                self.clock() == clock_after(old(self).clock(), out@.len()),
                self@.solid.contains(raw) ==> start.solid.contains(raw),
                iter@.contains(ComponentType::Coord) ==> out@.len() == 0 && self@.solid.contains(raw)
                    == start.solid.contains(raw) && forall|c: Coord|
                    c.spec_is_valid(old(self).grid_size()) ==> (#[trigger] self.cell(c)) == old(
                        self,
                    ).cell(c),
                !iter@.contains(ComponentType::Coord) ==> self@.coord.get(raw) is None
                    && self.cells_drained_from(old(self), raw),
            ensures
                iter@ == Set::<ComponentType>::empty(),
            decreases iter@.len(),
        {
            let ghost before = self@;
            let ghost entry = *self;
            let ghost remaining = iter@;
            proof {
                assert(remaining.finite()) by {
                    lemma_kinds_finite(remaining);
                }
            }
            match iter.next() {
                None => {
                    break ;
                },
                Some(typ) => {
                    let removed = self.raw_remove(raw, typ);
                    proof {
                        assert(self@.kinds_of(raw) =~= remaining.remove(typ));
                        assert(self@.remove_all(raw).coord =~= before.remove_all(raw).coord);
                        assert(self@.remove_all(raw).opacity =~= before.remove_all(raw).opacity);
                        assert(self@.remove_all(raw).player =~= before.remove_all(raw).player);
                        assert(self@.remove_all(raw).solid =~= before.remove_all(raw).solid);
                        assert(removed == start.component(raw, typ));
                        assert(removed is Some);
                        assert(start.components_outside(raw, remaining.remove(typ))
                            =~= start.components_outside(raw, remaining).push(removed.unwrap()));
                        assert forall|c: Coord|
                            c.spec_is_valid(old(self).grid_size()) implies (if placing_stamps(
                            start.solid.contains(raw),
                            start.coord.get(raw),
                            c,
                        ) {
                            (#[trigger] self.cell(c)).last_updated == next_clock(old(self).clock())
                        } else {
                            self.cell(c) == old(self).cell(c)
                        }) by {
                            if remaining.contains(ComponentType::Coord) {
                                assert(ComponentType::Coord.spec_index() == 0);
                                assert(typ == ComponentType::Coord);
                                assert(self@.solid.contains(raw) == start.solid.contains(raw));
                                assert(self@.coord.get(raw) is None);
                                assert(stamps(self@, raw, typ, removed, c) == placing_stamps(
                                    start.solid.contains(raw),
                                    start.coord.get(raw),
                                    c,
                                ));
                                assert(entry.cell(c) == old(self).cell(c));
                                assert(entry.clock() == old(self).clock());
                            } else {
                                assert(typ != ComponentType::Coord);
                                assert(entry@.coord.get(raw) is None);
                                assert(self@.coord.get(raw) is None);
                                assert(!stamps(self@, raw, typ, removed, c));
                                assert(self.cell(c) == entry.cell(c));
                                assert(entry.cells_drained_from(old(self), raw));
                            }
                        }
                    }
                    match removed {
                        Some(value) => {
                            out.push(value);
                        },
                        None => {},
                    }
                },
            }
        }
        proof {
            assert(self@.component(raw, ComponentType::Coord) is None) by {
                assert(!self@.kinds_of(raw).contains(ComponentType::Coord));
            }
            assert(self@.component(raw, ComponentType::Opacity) is None) by {
                assert(!self@.kinds_of(raw).contains(ComponentType::Opacity));
            }
            assert(self@.component(raw, ComponentType::Player) is None) by {
                assert(!self@.kinds_of(raw).contains(ComponentType::Player));
            }
            assert(self@.component(raw, ComponentType::Solid) is None) by {
                assert(!self@.kinds_of(raw).contains(ComponentType::Solid));
            }
            assert(self@.coord =~= self@.remove_all(raw).coord);
            assert(self@.opacity =~= self@.remove_all(raw).opacity);
            assert(self@.player =~= self@.remove_all(raw).player);
            assert(self@.solid =~= self@.remove_all(raw).solid);
            assert(out@ =~= start.components_of(raw));
        }
        out
    }

    /// Detaches every component from `id` and returns them, in the order of
    /// the indices of their kinds. Inserting them into another entity, of
    /// this store or another, gives that entity what `id` held.
    pub fn drain_entity_components(&mut self, id: EntityId) -> (out: Vec<ComponentValue>)
        requires
            old(self).wf(),
        ensures
            final(self).wf(),
            final(self)@ == old(self)@.remove_all(id.spec_raw()),
            out@ == old(self)@.components_of(id.spec_raw()),
            final(self).same_identities(old(self)),
            final(self).grid_size() == old(self).grid_size(),
            final(self).storage() == old(self).storage(),
            final(self).clock() == clock_after(old(self).clock(), out@.len()),
            final(self).cells_drained_from(old(self), id.spec_raw()),
    {
        let out = self.remove_components(id.raw());
        let ghost drained = *self;
        self.forget_entity(id.raw());
        proof {
            assert forall|c: Coord| c.spec_is_valid(old(self).grid_size()) implies (if placing_stamps(
                old(self)@.solid.contains(id.spec_raw()),
                old(self)@.coord.get(id.spec_raw()),
                c,
            ) {
                (#[trigger] self.cell(c)).last_updated == next_clock(old(self).clock())
            } else {
                self.cell(c) == old(self).cell(c)
            }) by {
                assert(drained.cell(c) == self.cell(c));
            }
        }
        out
    }

    /// Frees the entity that `id` refers to, with all its components.
    ///
    /// Where the reference is no longer valid, nothing happens. Else the
    /// generation of the raw id goes up by one, which makes every reference
    /// to the entity invalid, and only then does the raw id return to the pool.
    pub fn remove_entity(&mut self, wit: &mut EntityWit, id: EntityIdToFree)
        requires
            old(self).wf(),
            id.spec_free_count() < u64::MAX,
        ensures
            final(self).wf(),
            final(self).grid_size() == old(self).grid_size(),
            final(self).storage() == old(self).storage(),
            old(self).is_valid(id) ==> {
                &&& final(self)@ == old(self)@.remove_all(id.spec_raw())
                &&& forall|reference: EntityIdRuntimeChecked|
                    reference.spec_raw() == id.spec_raw() ==> !final(self).is_valid(reference)
                &&& final(self).live_ids() == old(self).live_ids().remove(id.spec_raw())
                &&& final(self).generation(id.spec_raw()) == old(self).generation(id.spec_raw())
                    + 1
                &&& forall|raw: EntityIdRaw|
                    raw != id.spec_raw() ==> final(self).generation(raw) == old(self).generation(
                        raw,
                    )
                &&& final(self).freed_ids_waiting() == old(self).freed_ids_waiting() + 1
                &&& final(self).fresh_ids_left() == old(self).fresh_ids_left()
                &&& final(self).clock() == clock_after(
                    old(self).clock(),
                    old(self)@.components_of(id.spec_raw()).len(),
                )
                &&& final(self).cells_drained_from(old(self), id.spec_raw())
            },
            !old(self).is_valid(id) ==> {
                &&& final(self)@ == old(self)@
                &&& final(self).same_identities(old(self))
                &&& final(self).clock() == old(self).clock()
                &&& final(self).cells() == old(self).cells()
            },
    {
        let raw = id.raw();
        let free_count = match self.id_free_count.get(&raw) {
            Some(n) => *n,
            None => 0,
        };
        if id.free_count() != free_count || !self.live.contains(&raw) {
            return ;
        }
        let ghost free = pool_free_list(self.id_allocator);
        proof {
            free.unique_seq_to_set();
            crate::aggregate::lemma_ids_bounded(free.to_set());
        }
        self.id_free_count.insert(raw, free_count + 1);
        pool_free(&mut self.id_allocator, raw);
        self.num_free = self.num_free + 1;
        self.live.remove(&raw);
        proof {
            let free1 = pool_free_list(self.id_allocator);
            assert forall|e: EntityIdRaw| free1.contains(e) <==> (free.contains(e) || e
                == raw) by {
                if free1.contains(e) {
                    let i = choose|i: int| 0 <= i < free1.len() && free1[i] == e;
                    if i < free.len() {
                        assert(free[i] == e);
                    }
                }
                if free.contains(e) {
                    let i = choose|i: int| 0 <= i < free.len() && free[i] == e;
                    assert(free1[i] == e);
                }
                if e == raw {
                    assert(free1[free.len() as int] == e);
                }
            }
            assert(free1.no_duplicates()) by {
                assert forall|i: int, j: int|
                    0 <= i < free1.len() && 0 <= j < free1.len() && i != j implies free1[i]
                    != free1[j] by {
                    if i < free.len() {
                        assert(free[i] == free1[i]);
                        assert(free.contains(free[i]));
                    }
                    if j < free.len() {
                        assert(free[j] == free1[j]);
                        assert(free.contains(free[j]));
                    }
                }
            }
            assert(free1.contains(raw));
        }
        let ghost mid = *self;
        let out = self.remove_components(raw);
        let ghost drained = *self;
        self.forget_entity(raw);
        proof {
            assert forall|c: Coord| c.spec_is_valid(old(self).grid_size()) implies (if placing_stamps(
                old(self)@.solid.contains(raw),
                old(self)@.coord.get(raw),
                c,
            ) {
                (#[trigger] self.cell(c)).last_updated == next_clock(old(self).clock())
            } else {
                self.cell(c) == old(self).cell(c)
            }) by {
                assert(mid.cell(c) == old(self).cell(c));
                assert(drained.cell(c) == self.cell(c));
            }
            assert(pool_free_list(self.id_allocator).len() > 0);
            assert(mid@ == old(self)@);
            assert(mid.clock() == old(self).clock());
            assert(self.clock() == clock_after(old(self).clock(), out@.len()));
            assert(self.live_ids() =~= old(self).live_ids().remove(raw));
            assert(self.generation(raw) == old(self).generation(raw) + 1);
        }
    }

    /// Drops the record that the table of kinds keeps for an entity that
    /// holds no component. Detaching the components one by one leaves a
    /// record that lists no kind; this takes it out, so that the table keeps
    /// records for entities only that have held something since they were
    /// last drained or freed. Nothing else of the store changes, and the
    /// table says of every entity what it said before.
    fn forget_entity(&mut self, raw: EntityIdRaw)
        requires
            old(self).wf(),
            old(self)@.kinds_of(raw) == Set::<ComponentType>::empty(),
        ensures
            final(self).wf(),
            *final(self) == (EntityStore {
                entity_component_table: final(self).entity_component_table,
                ..*old(self)
            }),
            !final(self).entity_component_table.has_record(raw),
            forall|other: EntityIdRaw|
                other != raw ==> final(self).entity_component_table.has_record(other) == old(
                    self,
                ).entity_component_table.has_record(other),
            forall|other: EntityIdRaw|
                final(self).entity_component_table.kinds_of(other) == old(
                    self,
                ).entity_component_table.kinds_of(other),
    {
        proof {
            assert(self.entity_component_table.kinds_of(raw) == self.raw@.kinds_of(raw));
        }
        let _ = self.entity_component_table.remove(raw);
        proof {
            assert forall|other: EntityIdRaw| #[trigger]
                self.entity_component_table.kinds_of(other) == self.raw@.kinds_of(other) by {
                assert(old(self).entity_component_table.kinds_of(other) == old(self).raw@.kinds_of(
                    other,
                ));
            }
        }
    }

    pub fn spatial_hash_width(&self) -> (w: u32)
        ensures
            w == self.grid_size().x,
    {
        self.spatial_hash.width()
    }

    pub fn spatial_hash_height(&self) -> (h: u32)
        ensures
            h == self.grid_size().y,
    {
        self.spatial_hash.height()
    }

    pub fn spatial_hash_size(&self) -> (s: Size)
        ensures
            s == self.grid_size(),
    {
        self.spatial_hash.size()
    }

    /// The cell at `coord`, which summarises the entities positioned there;
    /// `None` where `coord` lies outside the grid.
    pub fn spatial_hash_get(&self, coord: Coord) -> (r: Option<&SpatialHashCell>)
        requires
            self.wf(),
        ensures
            r is Some <==> coord.spec_is_valid(self.grid_size()),
            r is Some ==> *r.unwrap() == self.cell(coord) && r.unwrap().matches(self@, coord),
    {
        self.spatial_hash.get(coord)
    }

    /// Borrows of all cells in storage order: row after row, each from left to right.
    pub fn spatial_hash_iter(&self) -> (cells: Vec<&SpatialHashCell>)
        ensures
            cells@.len() == self.cells().len(),
            forall|i: int| 0 <= i < cells@.len() ==> *(#[trigger] cells@[i]) == self.cells()[i],
    {
        self.spatial_hash.iter()
    }

    /// The coordinates of all cells in storage order.
    pub fn spatial_hash_coords(&self) -> (coords: Vec<Coord>)
        requires
            self.wf(),
        ensures
            coords@.len() == self.grid_size().x * self.grid_size().y,
            forall|i: int|
                0 <= i < coords@.len() ==> (#[trigger] coords@[i]) == coord_at(
                    self.grid_size().x,
                    i,
                ),
    {
        self.spatial_hash.coords()
    }

    /// All cells in storage order, each with its coordinate.
    pub fn spatial_hash_enumerate(&self) -> (cells: Vec<(Coord, &SpatialHashCell)>)
        requires
            self.wf(),
        ensures
            cells@.len() == self.cells().len(),
            forall|i: int|
                0 <= i < cells@.len() ==> (#[trigger] cells@[i]).0 == coord_at(
                    self.grid_size().x,
                    i,
                ) && *cells@[i].1 == self.cells()[i],
    {
        self.spatial_hash.enumerate()
    }

    /// The cell at a valid coordinate is the one at its position in storage order.
    pub proof fn lemma_cell_position(&self, c: Coord)
        requires
            self.wf(),
            c.spec_is_valid(self.grid_size()),
        ensures
            0 <= cell_index(self.grid_size().x, c) < self.cells().len(),
            self.cells().len() == self.grid_size().x * self.grid_size().y,
            self.cell(c) == self.cells()[cell_index(self.grid_size().x, c)],
    {
        self.spatial_hash.lemma_cell_position(c);
    }

    pub fn is_empty_coord(&self) -> (b: bool)
        requires
            self.wf(),
        ensures
            b == (self@.coord == Map::<EntityIdRaw, Coord>::empty()),
    {
        self.raw.coord.is_empty()
    }

    pub fn len_coord(&self) -> (n: usize)
        requires
            self.wf(),
        ensures
            n == self@.coord.dom().len(),
    {
        self.raw.coord.len()
    }

    /// The coord of `id`, if it has one.
    pub fn get_coord(&self, id: EntityId) -> (r: Option<&Coord>)
        requires
            self.wf(),
        ensures
            match r {
                Some(v) => self@.coord.contains_key(id.spec_raw()) && *v == self@.coord[id.spec_raw()],
                None => !self@.coord.contains_key(id.spec_raw()),
            },
    {
        self.raw.coord.get(&id.raw())
    }

    pub fn contains_coord(&self, id: EntityId) -> (b: bool)
        requires
            self.wf(),
        ensures
            b == self@.coord.contains_key(id.spec_raw()),
    {
        self.raw.coord.contains_key(&id.raw())
    }

    /// The entities that have a coord, each once and with its value, in the
    /// order of the container.
    pub fn iter_coord(&self, wit: &EntityWit) -> (r: Vec<(EntityId, &Coord)>)
        requires
            self.wf(),
        ensures
            ids_of_entries(r@).no_duplicates(),
            ids_of_entries(r@).to_set() == self@.coord.dom(),
            ordered_storage(self.storage().coord) ==> ascending_ids(ids_of_entries(r@)),
            forall|i: int|
                0 <= i < r@.len() ==> *(#[trigger] r@[i]).1 == self@.coord[r@[i].0.spec_raw()],
    {
        entries_of(&self.raw.coord)
    }

    /// The entities that have a coord, each once, in the order of the container.
    pub fn ids_coord(&self, wit: &EntityWit) -> (r: Vec<EntityId>)
        requires
            self.wf(),
        ensures
            raw_ids(r@).no_duplicates(),
            raw_ids(r@).to_set() == self@.coord.dom(),
            ordered_storage(self.storage().coord) ==> ascending_ids(raw_ids(r@)),
    {
        wrap_ids(self.raw.coord.ids())
    }

    /// Some entity that has a coord, with the value; `None` where none has.
    pub fn any_coord(&self, wit: &EntityWit) -> (r: Option<(EntityId, &Coord)>)
        requires
            self.wf(),
        ensures
            match r {
                Some((id, v)) => self@.coord.contains_key(id.spec_raw()) && *v
                    == self@.coord[id.spec_raw()],
                None => self@.coord == Map::<EntityIdRaw, Coord>::empty(),
            },
    {
        match self.raw.coord.any() {
            Some((raw, v)) => Some((EntityId::from_raw(raw), v)),
            None => None,
        }
    }

    /// Some entity that has a coord; `None` where none has.
    pub fn any_id_coord(&self, wit: &EntityWit) -> (r: Option<EntityId>)
        requires
            self.wf(),
        ensures
            match r {
                Some(id) => self@.coord.contains_key(id.spec_raw()),
                None => self@.coord == Map::<EntityIdRaw, Coord>::empty(),
            },
    {
        match self.raw.coord.any() {
            Some((raw, _)) => Some(EntityId::from_raw(raw)),
            None => None,
        }
    }

    /// Gives `id` the coord `coord` and returns the one it had.
    pub fn insert_coord(&mut self, id: EntityId, coord: Coord) -> (r: Option<Coord>)
        requires
            old(self).wf(),
            old(self).spec_has_room(id, ComponentValue::Coord(coord)),
        ensures
            final(self).wf(),
            final(self)@ == old(self)@.insert(id.spec_raw(), ComponentValue::Coord(coord)),
            r == old(self)@.coord.get(id.spec_raw()),
            final(self).changed_from(
                old(self),
                id.spec_raw(),
                ComponentType::Coord,
                old(self)@.component(id.spec_raw(), ComponentType::Coord),
            ),
    {
        match self.insert(id, ComponentValue::Coord(coord)) {
            Some(ComponentValue::Coord(before)) => Some(before),
            _ => None,
        }
    }

    /// Takes the coord from `id` and returns it; `None` where it had none.
    pub fn remove_coord(&mut self, id: EntityId) -> (r: Option<Coord>)
        requires
            old(self).wf(),
        ensures
            final(self).wf(),
            final(self)@ == old(self)@.remove(id.spec_raw(), ComponentType::Coord),
            r == old(self)@.coord.get(id.spec_raw()),
            final(self).removed_from(
                old(self),
                id.spec_raw(),
                ComponentType::Coord,
                old(self)@.component(id.spec_raw(), ComponentType::Coord),
            ),
    {
        match self.raw_remove(id.raw(), ComponentType::Coord) {
            Some(ComponentValue::Coord(before)) => Some(before),
            _ => None,
        }
    }

    pub fn is_empty_opacity(&self) -> (b: bool)
        requires
            self.wf(),
        ensures
            b == (self@.opacity == Map::<EntityIdRaw, u8>::empty()),
    {
        self.raw.opacity.is_empty()
    }

    pub fn len_opacity(&self) -> (n: usize)
        requires
            self.wf(),
        ensures
            n == self@.opacity.dom().len(),
    {
        self.raw.opacity.len()
    }

    /// The opacity of `id`, if it has one.
    pub fn get_opacity(&self, id: EntityId) -> (r: Option<&u8>)
        requires
            self.wf(),
        ensures
            match r {
                Some(v) => self@.opacity.contains_key(id.spec_raw()) && *v == self@.opacity[id.spec_raw()],
                None => !self@.opacity.contains_key(id.spec_raw()),
            },
    {
        self.raw.opacity.get(&id.raw())
    }

    pub fn contains_opacity(&self, id: EntityId) -> (b: bool)
        requires
            self.wf(),
        ensures
            b == self@.opacity.contains_key(id.spec_raw()),
    {
        self.raw.opacity.contains_key(&id.raw())
    }

    /// The entities that have a opacity, each once and with its value, in the
    /// order of the container.
    pub fn iter_opacity(&self, wit: &EntityWit) -> (r: Vec<(EntityId, &u8)>)
        requires
            self.wf(),
        ensures
            ids_of_entries(r@).no_duplicates(),
            ids_of_entries(r@).to_set() == self@.opacity.dom(),
            ordered_storage(self.storage().opacity) ==> ascending_ids(ids_of_entries(r@)),
            forall|i: int|
                0 <= i < r@.len() ==> *(#[trigger] r@[i]).1 == self@.opacity[r@[i].0.spec_raw()],
    {
        entries_of(&self.raw.opacity)
    }

    /// The entities that have a opacity, each once, in the order of the container.
    pub fn ids_opacity(&self, wit: &EntityWit) -> (r: Vec<EntityId>)
        requires
            self.wf(),
        ensures
            raw_ids(r@).no_duplicates(),
            raw_ids(r@).to_set() == self@.opacity.dom(),
            ordered_storage(self.storage().opacity) ==> ascending_ids(raw_ids(r@)),
    {
        wrap_ids(self.raw.opacity.ids())
    }

    /// Some entity that has a opacity, with the value; `None` where none has.
    pub fn any_opacity(&self, wit: &EntityWit) -> (r: Option<(EntityId, &u8)>)
        requires
            self.wf(),
        ensures
            match r {
                Some((id, v)) => self@.opacity.contains_key(id.spec_raw()) && *v
                    == self@.opacity[id.spec_raw()],
                None => self@.opacity == Map::<EntityIdRaw, u8>::empty(),
            },
    {
        match self.raw.opacity.any() {
            Some((raw, v)) => Some((EntityId::from_raw(raw), v)),
            None => None,
        }
    }

    /// Some entity that has a opacity; `None` where none has.
    pub fn any_id_opacity(&self, wit: &EntityWit) -> (r: Option<EntityId>)
        requires
            self.wf(),
        ensures
            match r {
                Some(id) => self@.opacity.contains_key(id.spec_raw()),
                None => self@.opacity == Map::<EntityIdRaw, u8>::empty(),
            },
    {
        match self.raw.opacity.any() {
            Some((raw, _)) => Some(EntityId::from_raw(raw)),
            None => None,
        }
    }

    /// Gives `id` the opacity `opacity` and returns the one it had.
    pub fn insert_opacity(&mut self, id: EntityId, opacity: u8) -> (r: Option<u8>)
        requires
            old(self).wf(),
        ensures
            final(self).wf(),
            final(self)@ == old(self)@.insert(id.spec_raw(), ComponentValue::Opacity(opacity)),
            r == old(self)@.opacity.get(id.spec_raw()),
            final(self).changed_from(
                old(self),
                id.spec_raw(),
                ComponentType::Opacity,
                old(self)@.component(id.spec_raw(), ComponentType::Opacity),
            ),
    {
        proof {
            self.lemma_room(id, ComponentValue::Opacity(opacity));
        }
        match self.insert(id, ComponentValue::Opacity(opacity)) {
            Some(ComponentValue::Opacity(before)) => Some(before),
            _ => None,
        }
    }

    /// Takes the opacity from `id` and returns it; `None` where it had none.
    pub fn remove_opacity(&mut self, id: EntityId) -> (r: Option<u8>)
        requires
            old(self).wf(),
        ensures
            final(self).wf(),
            final(self)@ == old(self)@.remove(id.spec_raw(), ComponentType::Opacity),
            r == old(self)@.opacity.get(id.spec_raw()),
            final(self).removed_from(
                old(self),
                id.spec_raw(),
                ComponentType::Opacity,
                old(self)@.component(id.spec_raw(), ComponentType::Opacity),
            ),
    {
        match self.raw_remove(id.raw(), ComponentType::Opacity) {
            Some(ComponentValue::Opacity(before)) => Some(before),
            _ => None,
        }
    }

    pub fn is_empty_player(&self) -> (b: bool)
        requires
            self.wf(),
        ensures
            b == (self@.player == Set::<EntityIdRaw>::empty()),
    {
        self.raw.player.is_empty()
    }

    pub fn len_player(&self) -> (n: usize)
        requires
            self.wf(),
        ensures
            n == self@.player.len(),
    {
        self.raw.player.len()
    }

    /// Whether `id` is a player.
    pub fn contains_player(&self, id: EntityId) -> (b: bool)
        requires
            self.wf(),
        ensures
            b == self@.player.contains(id.spec_raw()),
    {
        self.raw.player.contains(&id.raw())
    }

    /// The entities that are player, each once, in the order of the container.
    pub fn iter_player(&self, wit: &EntityWit) -> (r: Vec<EntityId>)
        requires
            self.wf(),
        ensures
            raw_ids(r@).no_duplicates(),
            raw_ids(r@).to_set() == self@.player,
            ordered_storage(self.storage().player) ==> ascending_ids(raw_ids(r@)),
    {
        wrap_ids(self.raw.player.ids())
    }

    /// Some entity that is player; `None` where none is.
    pub fn any_player(&self, wit: &EntityWit) -> (r: Option<EntityId>)
        requires
            self.wf(),
        ensures
            match r {
                Some(id) => self@.player.contains(id.spec_raw()),
                None => self@.player == Set::<EntityIdRaw>::empty(),
            },
    {
        match self.raw.player.any() {
            Some(raw) => Some(EntityId::from_raw(raw)),
            None => None,
        }
    }

    /// Makes `id` a player; the result says whether it was already.
    pub fn insert_player(&mut self, id: EntityId) -> (r: bool)
        requires
            old(self).wf(),
        ensures
            final(self).wf(),
            final(self)@ == old(self)@.insert(id.spec_raw(), ComponentValue::Player),
            r == old(self)@.player.contains(id.spec_raw()),
            final(self).changed_from(
                old(self),
                id.spec_raw(),
                ComponentType::Player,
                old(self)@.component(id.spec_raw(), ComponentType::Player),
            ),
    {
        proof {
            self.lemma_room(id, ComponentValue::Player);
        }
        self.insert(id, ComponentValue::Player).is_some()
    }

    /// Makes `id` no longer a player; the result says whether it was.
    pub fn remove_player(&mut self, id: EntityId) -> (r: bool)
        requires
            old(self).wf(),
        ensures
            final(self).wf(),
            final(self)@ == old(self)@.remove(id.spec_raw(), ComponentType::Player),
            r == old(self)@.player.contains(id.spec_raw()),
            final(self).removed_from(
                old(self),
                id.spec_raw(),
                ComponentType::Player,
                old(self)@.component(id.spec_raw(), ComponentType::Player),
            ),
    {
        self.raw_remove(id.raw(), ComponentType::Player).is_some()
    }

    pub fn is_empty_solid(&self) -> (b: bool)
        requires
            self.wf(),
        ensures
            b == (self@.solid == Set::<EntityIdRaw>::empty()),
    {
        self.raw.solid.is_empty()
    }

    pub fn len_solid(&self) -> (n: usize)
        requires
            self.wf(),
        ensures
            n == self@.solid.len(),
    {
        self.raw.solid.len()
    }

    /// Whether `id` is solid.
    pub fn contains_solid(&self, id: EntityId) -> (b: bool)
        requires
            self.wf(),
        ensures
            b == self@.solid.contains(id.spec_raw()),
    {
        self.raw.solid.contains(&id.raw())
    }

    /// The entities that are solid, each once, in the order of the container.
    pub fn iter_solid(&self, wit: &EntityWit) -> (r: Vec<EntityId>)
        requires
            self.wf(),
        ensures
            raw_ids(r@).no_duplicates(),
            raw_ids(r@).to_set() == self@.solid,
            ordered_storage(self.storage().solid) ==> ascending_ids(raw_ids(r@)),
    {
        wrap_ids(self.raw.solid.ids())
    }

    /// Some entity that is solid; `None` where none is.
    pub fn any_solid(&self, wit: &EntityWit) -> (r: Option<EntityId>)
        requires
            self.wf(),
        ensures
            match r {
                Some(id) => self@.solid.contains(id.spec_raw()),
                None => self@.solid == Set::<EntityIdRaw>::empty(),
            },
    {
        match self.raw.solid.any() {
            Some(raw) => Some(EntityId::from_raw(raw)),
            None => None,
        }
    }

    /// Makes `id` solid; the result says whether it was already.
    pub fn insert_solid(&mut self, id: EntityId) -> (r: bool)
        requires
            old(self).wf(),
            old(self).spec_has_room(id, ComponentValue::Solid),
        ensures
            final(self).wf(),
            final(self)@ == old(self)@.insert(id.spec_raw(), ComponentValue::Solid),
            r == old(self)@.solid.contains(id.spec_raw()),
            final(self).changed_from(
                old(self),
                id.spec_raw(),
                ComponentType::Solid,
                old(self)@.component(id.spec_raw(), ComponentType::Solid),
            ),
    {
        self.insert(id, ComponentValue::Solid).is_some()
    }

    /// Makes `id` no longer solid; the result says whether it was.
    pub fn remove_solid(&mut self, id: EntityId) -> (r: bool)
        requires
            old(self).wf(),
        ensures
            final(self).wf(),
            final(self)@ == old(self)@.remove(id.spec_raw(), ComponentType::Solid),
            r == old(self)@.solid.contains(id.spec_raw()),
            final(self).removed_from(
                old(self),
                id.spec_raw(),
                ComponentType::Solid,
                old(self)@.component(id.spec_raw(), ComponentType::Solid),
            ),
    {
        self.raw_remove(id.raw(), ComponentType::Solid).is_some()
    }
}

/// Whether a container iterates in ascending order of the ids.
pub open spec fn ordered_storage(storage: StorageType) -> bool {
    storage == StorageType::BTree || storage == StorageType::Flat
}

/// The raw ids of a list of entity ids.
pub open spec fn raw_ids(ids: Seq<EntityId>) -> Seq<EntityIdRaw> {
    ids.map_values(|id: EntityId| id.spec_raw())
}

/// The raw ids of a list of entities with their values.
pub open spec fn ids_of_entries<T>(entries: Seq<(EntityId, &T)>) -> Seq<EntityIdRaw> {
    entries.map_values(|e: (EntityId, &T)| e.0.spec_raw())
}

fn wrap_ids(ids: Vec<EntityIdRaw>) -> (out: Vec<EntityId>)
    ensures
        raw_ids(out@) == ids@,
{
    let mut out: Vec<EntityId> = Vec::new();
    let mut i: usize = 0;
    while i < ids.len()
        invariant
            i <= ids@.len(),
            out@.len() == i,
            forall|j: int| 0 <= j < i ==> out@[j].spec_raw() == ids@[j],
        decreases ids@.len() - i,
    {
        out.push(EntityId::from_raw(ids[i]));
        i += 1;
    }
    assert(raw_ids(out@) =~= ids@);
    out
}

fn entries_of<T>(map: &ComponentMap<T>) -> (out: Vec<(EntityId, &T)>)
    requires
        map.wf(),
    ensures
        ids_of_entries(out@).no_duplicates(),
        ids_of_entries(out@).to_set() == map@.dom(),
        ordered_storage(map.spec_storage_type()) ==> ascending_ids(ids_of_entries(out@)),
        forall|i: int| 0 <= i < out@.len() ==> *(#[trigger] out@[i]).1 == map@[out@[i].0.spec_raw()],
{
    let ids = map.ids();
    let mut out: Vec<(EntityId, &T)> = Vec::new();
    let mut i: usize = 0;
    while i < ids.len()
        invariant
            map.wf(),
            i <= ids@.len(),
            out@.len() == i,
            ids@.to_set() == map@.dom(),
            ordered_storage(map.spec_storage_type()) ==> ascending_ids(ids@),
            forall|j: int| 0 <= j < i ==> (#[trigger] out@[j]).0.spec_raw() == ids@[j] && *out@[j].1
                == map@[ids@[j]],
        decreases ids@.len() - i,
    {
        assert(ids@.to_set().contains(ids@[i as int]));
        match map.get(&ids[i]) {
            Some(value) => {
                out.push((EntityId::from_raw(ids[i]), value));
            },
            None => {},
        }
        i += 1;
    }
    assert(ids_of_entries(out@) =~= ids@);
    out
}

/// There are only finitely many kinds of component.
proof fn lemma_kinds_finite(s: Set<ComponentType>)
    ensures
        s.finite(),
{
    let all = Set::<ComponentType>::empty().insert(ComponentType::Coord).insert(
        ComponentType::Opacity,
    ).insert(ComponentType::Player).insert(ComponentType::Solid);
    assert forall|t: ComponentType| s.contains(t) implies all.contains(t) by {
        match t {
            ComponentType::Coord => {},
            ComponentType::Opacity => {},
            ComponentType::Player => {},
            ComponentType::Solid => {},
        }
    }
    vstd::set_lib::lemma_len_subset(s, all);
}

/// The clock after `n` more mutations.
pub open spec fn clock_after(time: u64, n: nat) -> u64 {
    if time + n <= u64::MAX {
        (time + n) as u64
    } else {
        u64::MAX
    }
}

/// The clock after one more mutation: it stops at the largest value it can hold.
pub open spec fn next_clock(time: u64) -> u64 {
    if time < u64::MAX {
        (time + 1) as u64
    } else {
        time
    }
}

} // verus!
