use vstd::prelude::*;
use std::collections::HashSet;
use crate::aggregate::{
    holders_at, lemma_count_step, lemma_holders_finite, lemma_holders_member,
    lemma_holders_position, lemma_sum_agree, lemma_sum_bound, lemma_sum_empty, lemma_sum_step,
    opacity_total_at, player_set_at, solid_count_at, solid_neighbours_at,
};
use crate::component::{ComponentType, ComponentValue};
use crate::coord::{Coord, Size};
use crate::direction::{adjacent, lemma_steps, neighbour, step, Direction, NUM_DIRECTIONS};
use crate::entity_change::EntityChange;
use crate::entity_store_raw::{EntityStoreRaw, StoreView};
use crate::grid::{
    cell_index, coord_at, grid_cell_mut, grid_cells, grid_coords, grid_enumerate, grid_get,
    grid_height, grid_iter, grid_new, grid_size, grid_width, CellGrid,
};
use crate::id::EntityIdRaw;
use crate::neighbours::{counts_dec, counts_get, counts_inc, counts_new, neighbour_counts};
use entity_store_helper::NeighbourCount;

verus! {

/// What one cell of the grid knows of the entities positioned at it.
pub struct SpatialHashCell {
    /// Sum of the opacities of the entities at this cell.
    pub opacity_total: u64,
    /// Number of solid entities at this cell.
    pub solid_count: u64,
    /// The players at this cell.
    pub player_set: HashSet<EntityIdRaw>,
    /// For each direction, the number of solid entities at the neighbouring cell.
    pub solid_neighbours: NeighbourCount,
    /// The store's clock when this cell was last touched.
    pub last_updated: u64,
}

impl SpatialHashCell {
    /// A cell that no entity has touched yet.
    pub open spec fn is_fresh(self) -> bool {
        &&& self.opacity_total == 0
        &&& self.solid_count == 0
        &&& self.player_set@ == Set::<EntityIdRaw>::empty()
        &&& neighbour_counts(self.solid_neighbours).len() == NUM_DIRECTIONS
        &&& forall|d: Direction| 0 == #[trigger] self.spec_solid_neighbours(d)
        &&& self.last_updated == 0
    }

    /// The number of solid entities at the neighbouring cell in the direction `d`.
    pub open spec fn spec_solid_neighbours(self, d: Direction) -> u8 {
        neighbour_counts(self.solid_neighbours)[d.spec_index()]
    }

    /// The number of solid entities at the neighbouring cell in the direction `d`.
    pub fn solid_neighbours(&self, d: Direction) -> (n: u8)
        ensures
            n == self.spec_solid_neighbours(d),
    {
        counts_get(&self.solid_neighbours, d)
    }

    /// The cell summarises exactly the entities that `v` positions at `c`.
    pub open spec fn matches(self, v: StoreView, c: Coord) -> bool {
        &&& self.opacity_total == opacity_total_at(v, c)
        &&& self.solid_count == solid_count_at(v, c)
        &&& self.player_set@ == player_set_at(v, c)
        &&& neighbour_counts(self.solid_neighbours).len() == NUM_DIRECTIONS
        &&& forall|d: Direction| #[trigger]
            self.spec_solid_neighbours(d) == solid_neighbours_at(v, c, d)
    }

    pub fn new() -> (c: Self)
        ensures
            c.is_fresh(),
    {
        SpatialHashCell {
            opacity_total: 0,
            solid_count: 0,
            player_set: HashSet::new(),
            solid_neighbours: counts_new(),
            last_updated: 0,
        }
    }

    /// Adds to every summary what the entity `id` contributes, as `store` has it.
    pub fn insert(&mut self, id: EntityIdRaw, store: &EntityStoreRaw, time: u64)
        requires
            store.wf(),
            store@.opacity.contains_key(id) ==> old(self).opacity_total + store@.opacity[id]
                <= u64::MAX,
            store@.solid.contains(id) ==> old(self).solid_count < u64::MAX,
        ensures
            final(self).opacity_total == old(self).opacity_total + (if store@.opacity.contains_key(
                id,
            ) {
                store@.opacity[id] as int
            } else {
                0
            }),
            final(self).solid_count == old(self).solid_count + (if store@.solid.contains(id) {
                1int
            } else {
                0
            }),
            final(self).player_set@ == (if store@.player.contains(id) {
                old(self).player_set@.insert(id)
            } else {
                old(self).player_set@
            }),
            final(self).solid_neighbours == old(self).solid_neighbours,
            final(self).last_updated == time,
    {
        broadcast use vstd::std_specs::hash::group_hash_axioms;

        if let Some(current) = store.opacity.get(&id) {
            self.opacity_total = self.opacity_total + *current as u64;
        }
        if store.solid.contains(&id) {
            self.solid_count = self.solid_count + 1;
        }
        if store.player.contains(&id) {
            self.player_set.insert(id);
        }
        self.last_updated = time;
    }

    /// Takes from every summary what the entity `id` contributes, as `store` has it.
    pub fn remove(&mut self, id: EntityIdRaw, store: &EntityStoreRaw, time: u64)
        requires
            store.wf(),
            store@.opacity.contains_key(id) ==> old(self).opacity_total >= store@.opacity[id],
            store@.solid.contains(id) ==> old(self).solid_count > 0,
        ensures
            final(self).opacity_total == old(self).opacity_total - (if store@.opacity.contains_key(
                id,
            ) {
                store@.opacity[id] as int
            } else {
                0
            }),
            final(self).solid_count == old(self).solid_count - (if store@.solid.contains(id) {
                1int
            } else {
                0
            }),
            final(self).player_set@ == (if store@.player.contains(id) {
                old(self).player_set@.remove(id)
            } else {
                old(self).player_set@
            }),
            final(self).solid_neighbours == old(self).solid_neighbours,
            final(self).last_updated == time,
    {
        broadcast use vstd::std_specs::hash::group_hash_axioms;

        if let Some(current) = store.opacity.get(&id) {
            self.opacity_total = self.opacity_total - *current as u64;
        }
        if store.solid.contains(&id) {
            self.solid_count = self.solid_count - 1;
        }
        if store.player.contains(&id) {
            self.player_set.remove(&id);
        }
        self.last_updated = time;
    }
}

/// A valid coordinate has a position in storage order, and no other valid
/// coordinate has the same.
pub proof fn lemma_cell_index(size: Size, c1: Coord, c2: Coord)
    requires
        c1.spec_is_valid(size),
        c2.spec_is_valid(size),
    ensures
        0 <= cell_index(size.x, c1) < size.x * size.y,
        cell_index(size.x, c1) == cell_index(size.x, c2) ==> c1 == c2,
{
    let w = size.x as int;
    let h = size.y as int;
    let (x1, y1, x2, y2) = (c1.x as int, c1.y as int, c2.x as int, c2.y as int);
    assert(0 <= y1 * w + x1 < w * h) by (nonlinear_arith)
        requires
            0 <= x1 < w,
            0 <= y1 < h,
    ;
    assert(y1 * w + x1 == y2 * w + x2 ==> y1 == y2 && x1 == x2) by (nonlinear_arith)
        requires
            0 <= x1 < w,
            0 <= x2 < w,
            0 <= y1,
            0 <= y2,
    ;
}

/// What an entity at `p` adds to the counter that the cell at `c` keeps for
/// the direction `d`, once the neighbours of `p` in the first `k` directions
/// have been visited: one up or one down where `p` is one step from `c` in
/// that direction.
pub open spec fn shift_of(c: Coord, d: Direction, p: Coord, up: bool, k: int) -> int {
    if neighbour(c, d) == Some(p) && d.spec_opposite().spec_index() < k {
        if up {
            1
        } else {
            -1
        }
    } else {
        0
    }
}

/// Whether the cell at `c` is among the neighbours of `p` in the first `k` directions.
pub open spec fn reached(c: Coord, p: Coord, k: int) -> bool {
    exists|d: Direction| neighbour(c, d) == Some(p) && d.spec_opposite().spec_index() < k
}

/// The cell `b` at `c` is the cell `a` after the counters of the
/// neighbours of `p` in the first `k` directions were moved.
pub open spec fn shifted(
    a: SpatialHashCell,
    b: SpatialHashCell,
    c: Coord,
    p: Coord,
    up: bool,
    time: u64,
    k: int,
) -> bool {
    &&& b.opacity_total == a.opacity_total
    &&& b.solid_count == a.solid_count
    &&& b.player_set == a.player_set
    &&& neighbour_counts(b.solid_neighbours).len() == NUM_DIRECTIONS
    &&& forall|d: Direction|
        (#[trigger] b.spec_solid_neighbours(d)) == a.spec_solid_neighbours(d) + shift_of(
            c,
            d,
            p,
            up,
            k,
        )
    &&& if reached(c, p, k) {
        b.last_updated == time
    } else {
        b == a
    }
}

/// Whether the cell at `c` is reached in the step after the first `k`.
proof fn lemma_reached(c: Coord, p: Coord, d: Direction, k: int)
    requires
        d.spec_index() == k,
    ensures
        reached(c, p, k + 1) == (reached(c, p, k) || neighbour(p, d) == Some(c)),
{
    if reached(c, p, k + 1) && !reached(c, p, k) {
        let e = choose|e: Direction|
            neighbour(c, e) == Some(p) && e.spec_opposite().spec_index() < k + 1;
        lemma_steps(p, c, d, e.spec_opposite());
        lemma_steps(c, p, e, e);
    }
    if neighbour(p, d) == Some(c) {
        lemma_steps(p, c, d, d);
        assert(neighbour(c, d.spec_opposite()) == Some(p) && d.spec_opposite().spec_opposite().spec_index()
            < k + 1);
    }
    if reached(c, p, k) {
        let e = choose|e: Direction|
            neighbour(c, e) == Some(p) && e.spec_opposite().spec_index() < k;
        assert(neighbour(c, e) == Some(p) && e.spec_opposite().spec_index() < k + 1);
    }
}

/// Once all directions have been visited, the cells reached are those one
/// step from `p`, and `p` is not among them.
proof fn lemma_reached_all(p: Coord, c: Coord)
    ensures
        !reached(p, p, NUM_DIRECTIONS as int),
        reached(c, p, NUM_DIRECTIONS as int) == adjacent(p, c),
        !adjacent(p, p),
{
    if adjacent(p, c) {
        let d = choose|d: Direction| neighbour(p, d) == Some(c);
        lemma_steps(p, c, d, d);
        assert(neighbour(c, d.spec_opposite()) == Some(p) && d.spec_opposite().spec_opposite().spec_index()
            < NUM_DIRECTIONS);
    }
    if reached(c, p, NUM_DIRECTIONS as int) {
        let e = choose|e: Direction|
            neighbour(c, e) == Some(p) && e.spec_opposite().spec_index() < NUM_DIRECTIONS;
        lemma_steps(c, p, e, e);
        assert(neighbour(p, e.spec_opposite()) == Some(c));
    }
}

/// Whether taking an entity in at `at`, or out, stamps the cell at `c`: it
/// is the cell at `at`, or the entity is solid and the cell is one step away.
pub open spec fn placing_stamps(solid: bool, at: Option<Coord>, c: Coord) -> bool {
    match at {
        Some(p) => c == p || (solid && adjacent(p, c)),
        None => false,
    }
}

/// Whether the counters of the neighbours have room for the entity `id`:
/// where it is solid and has a position with a neighbour inside a grid of
/// the size `size`, no more solid entities stand at that position than a
/// counter can count.
pub open spec fn has_room(v: StoreView, size: Size, id: EntityIdRaw) -> bool {
    v.solid.contains(id) && v.coord.contains_key(id) ==> forall|d: Direction|
        (#[trigger] neighbour(v.coord[id], d)) is Some && neighbour(
            v.coord[id],
            d,
        ).unwrap().spec_is_valid(size) ==> solid_count_at(v, v.coord[id]) <= u8::MAX
}

/// The store `v` with the entity `id` positioned at `at`.
pub open spec fn placed(v: StoreView, id: EntityIdRaw, at: Coord) -> StoreView {
    StoreView { coord: v.coord.insert(id, at), ..v }
}

/// The store `v` with the entity `id` positioned nowhere.
pub open spec fn unplaced(v: StoreView, id: EntityIdRaw) -> StoreView {
    StoreView { coord: v.coord.remove(id), ..v }
}

/// A grid of cells, each of which summarises the entities positioned at it.
///
/// The size is fixed when the table is made. Every mutation of a component
/// that the summaries depend on is reported to [`SpatialHashTable::update`],
/// which adjusts the cells it concerns and leaves the others alone.
pub struct SpatialHashTable {
    grid: CellGrid,
}

impl SpatialHashTable {
    /// The size the table was made with.
    pub closed spec fn spec_size(&self) -> Size {
        grid_size(self.grid)
    }

    /// The cell at `c`, which must lie inside the grid.
    pub closed spec fn cell(&self, c: Coord) -> SpatialHashCell {
        grid_cells(self.grid)[cell_index(grid_size(self.grid).x, c)]
    }

    /// The cells in storage order: row after row, each from left to right.
    pub closed spec fn cells(&self) -> Seq<SpatialHashCell> {
        grid_cells(self.grid)
    }

    /// The invariant that every operation keeps.
    pub closed spec fn wf(&self) -> bool {
        &&& grid_size(self.grid).spec_fits_grid()
        &&& grid_cells(self.grid).len() == grid_size(self.grid).x * grid_size(self.grid).y
    }

    /// Every cell summarises exactly the entities that `v` positions at it.
    pub open spec fn matches(&self, v: StoreView) -> bool {
        forall|c: Coord| c.spec_is_valid(self.spec_size()) ==> (#[trigger] self.cell(c)).matches(v, c)
    }

    /// A table of the given size, all of whose cells are fresh.
    pub fn new(size: Size) -> (t: Self)
        requires
            size.spec_fits_grid(),
        ensures
            t.wf(),
            t.spec_size() == size,
            forall|c: Coord| c.spec_is_valid(size) ==> (#[trigger] t.cell(c)).is_fresh(),
            t.matches(StoreView::empty()),
    {
        let t = SpatialHashTable { grid: grid_new(size) };
        proof {
            assert forall|c: Coord| c.spec_is_valid(size) implies (#[trigger] t.cell(c)).is_fresh()
                && t.cell(c).matches(StoreView::empty(), c) by {
                lemma_cell_index(size, c, c);
                let v = StoreView::empty();
                assert(holders_at(v.coord, c, v.player) =~= Set::<EntityIdRaw>::empty());
                assert(holders_at(v.coord, c, v.solid) =~= Set::<EntityIdRaw>::empty());
                assert(holders_at(v.coord, c, v.opacity.dom()) =~= Set::<EntityIdRaw>::empty());
                lemma_sum_empty(v.opacity);
                assert forall|d: Direction| solid_neighbours_at(v, c, d) == 0 by {
                    if neighbour(c, d) is Some {
                        assert(holders_at(v.coord, neighbour(c, d).unwrap(), v.solid)
                            =~= Set::<EntityIdRaw>::empty());
                    }
                }
            }
        }
        t
    }

    pub fn width(&self) -> (w: u32)
        ensures
            w == self.spec_size().x,
    {
        grid_width(&self.grid)
    }

    pub fn height(&self) -> (h: u32)
        ensures
            h == self.spec_size().y,
    {
        grid_height(&self.grid)
    }

    pub fn size(&self) -> (s: Size)
        ensures
            s == self.spec_size(),
    {
        Size { x: grid_width(&self.grid), y: grid_height(&self.grid) }
    }

    /// The cell at `coord`; `None` where `coord` lies outside the grid.
    pub fn get(&self, coord: Coord) -> (r: Option<&SpatialHashCell>)
        ensures
            r is Some <==> coord.spec_is_valid(self.spec_size()),
            r is Some ==> *r.unwrap() == self.cell(coord),
    {
        grid_get(&self.grid, coord)
    }

    fn cell_mut(&mut self, coord: Coord) -> (r: &mut SpatialHashCell)
        requires
            old(self).wf(),
            coord.spec_is_valid(old(self).spec_size()),
        ensures
            *r == old(self).cell(coord),
            final(self).wf(),
            final(self).spec_size() == old(self).spec_size(),
            final(self).cell(coord) == *final(r),
            forall|c: Coord|
                c.spec_is_valid(old(self).spec_size()) && c != coord ==> final(self).cell(c) == old(
                    self,
                ).cell(c),
    {
        proof {
            let size = self.spec_size();
            assert forall|c: Coord| c.spec_is_valid(size) implies 0 <= cell_index(size.x, c)
                < size.x * size.y && (c != coord ==> cell_index(size.x, c) != cell_index(
                size.x,
                coord,
            )) by {
                lemma_cell_index(size, c, coord);
            }
        }
        grid_cell_mut(&mut self.grid, coord)
    }

    /// Adds one to the counter that every neighbour of `p` keeps for the
    /// direction of `p`, or takes one from it.
    fn shift_neighbours(&mut self, p: Coord, up: bool, time: u64)
        requires
            old(self).wf(),
            forall|c: Coord|
                c.spec_is_valid(old(self).spec_size()) ==> neighbour_counts(
                    (#[trigger] old(self).cell(c)).solid_neighbours,
                ).len() == NUM_DIRECTIONS,
            forall|c: Coord, d: Direction|
                c.spec_is_valid(old(self).spec_size()) && #[trigger] neighbour(c, d) == Some(p)
                    ==> (if up {
                    old(self).cell(c).spec_solid_neighbours(d) < u8::MAX
                } else {
                    old(self).cell(c).spec_solid_neighbours(d) > 0
                }),
        ensures
            final(self).wf(),
            final(self).spec_size() == old(self).spec_size(),
            forall|c: Coord|
                c.spec_is_valid(old(self).spec_size()) ==> shifted(
                    old(self).cell(c),
                    #[trigger] final(self).cell(c),
                    c,
                    p,
                    up,
                    time,
                    NUM_DIRECTIONS as int,
                ),
    {
        let ghost size = self.spec_size();
        let mut k: usize = 0;
        while k < NUM_DIRECTIONS
            invariant
                self.wf(),
                self.spec_size() == size,
                size == old(self).spec_size(),
                k <= NUM_DIRECTIONS,
                forall|c: Coord, d: Direction|
                    c.spec_is_valid(size) && #[trigger] neighbour(c, d) == Some(p) ==> (if up {
                        old(self).cell(c).spec_solid_neighbours(d) < u8::MAX
                    } else {
                        old(self).cell(c).spec_solid_neighbours(d) > 0
                    }),
                forall|c: Coord|
                    c.spec_is_valid(size) ==> shifted(
                        old(self).cell(c),
                        #[trigger] self.cell(c),
                        c,
                        p,
                        up,
                        time,
                        k as int,
                    ),
            decreases NUM_DIRECTIONS - k,
        {
            let d = Direction::from_index(k);
            let ghost before = *self;
            let ghost mut target: Option<Coord> = None;
            if let Some(c) = step(p, d) {
                if c.is_valid(self.size()) {
                    proof {
                        target = Some(c);
                        lemma_steps(p, c, d, d);
                        assert(neighbour(c, d.spec_opposite()) == Some(p));
                        assert(shifted(
                            old(self).cell(c),
                            self.cell(c),
                            c,
                            p,
                            up,
                            time,
                            k as int,
                        ));
                        assert(self.cell(c).spec_solid_neighbours(d.spec_opposite()) == old(
                            self,
                        ).cell(c).spec_solid_neighbours(d.spec_opposite()));
                    }
                    let cell = self.cell_mut(c);
                    if up {
                        counts_inc(&mut cell.solid_neighbours, d.opposite());
                    } else {
                        counts_dec(&mut cell.solid_neighbours, d.opposite());
                    }
                    cell.last_updated = time;
                }
            }
            proof {
                assert forall|c2: Coord| c2.spec_is_valid(size) implies shifted(
                    old(self).cell(c2),
                    #[trigger] self.cell(c2),
                    c2,
                    p,
                    up,
                    time,
                    k + 1,
                ) by {
                    let a = old(self).cell(c2);
                    let m = before.cell(c2);
                    let b = self.cell(c2);
                    assert(shifted(a, m, c2, p, up, time, k as int));
                    assert forall|d2: Direction|
                        (#[trigger] b.spec_solid_neighbours(d2)) == a.spec_solid_neighbours(d2)
                            + shift_of(c2, d2, p, up, k + 1) by {
                        lemma_steps(p, c2, d, d2);
                        lemma_steps(p, c2, d2.spec_opposite(), d);
                        lemma_steps(c2, p, d2, d.spec_opposite());
                        assert(m.spec_solid_neighbours(d2) == a.spec_solid_neighbours(d2)
                            + shift_of(c2, d2, p, up, k as int));
                    }
                    lemma_reached(c2, p, d, k as int);
                    if target == Some(c2) {
                        assert(neighbour(c2, d.spec_opposite()) == Some(p));
                        lemma_steps(p, c2, d, d);
                    }
                }
            }
            k += 1;
        }
    }

    /// Takes the contribution of `id` out of the cell at `at` and out of
    /// the counters of its neighbours.
    fn detach(&mut self, store: &EntityStoreRaw, id: EntityIdRaw, at: Coord, time: u64)
        requires
            old(self).wf(),
            store.wf(),
            old(self).matches(placed(store@, id, at)),
        ensures
            final(self).wf(),
            final(self).spec_size() == old(self).spec_size(),
            final(self).matches(unplaced(store@, id)),
            forall|c: Coord|
                c.spec_is_valid(old(self).spec_size()) && !placing_stamps(
                    store@.solid.contains(id),
                    Some(at),
                    c,
                ) ==> final(self).cell(c) == old(self).cell(c),
            forall|c: Coord|
                c.spec_is_valid(old(self).spec_size()) && placing_stamps(
                    store@.solid.contains(id),
                    Some(at),
                    c,
                ) ==> (#[trigger] final(self).cell(c)).last_updated == time,
    {
        let ghost v1 = placed(store@, id, at);
        let ghost v0 = unplaced(store@, id);
        let ghost size = self.spec_size();
        proof {
            lemma_placed_step(store@, id, at, at);
        }
        if at.is_valid(self.size()) {
            assert(self.cell(at).matches(v1, at));
            let cell = self.cell_mut(at);
            cell.remove(id, store, time);
        }
        let ghost mid = *self;
        proof {
            assert forall|c: Coord| c.spec_is_valid(size) implies neighbour_counts(
                (#[trigger] mid.cell(c)).solid_neighbours,
            ).len() == NUM_DIRECTIONS by {
                assert(old(self).cell(c).matches(v1, c));
            }
        }
        if store.solid.contains(&id) {
            proof {
                assert forall|c: Coord, d: Direction|
                    c.spec_is_valid(size) && #[trigger] neighbour(c, d) == Some(
                        at,
                    ) implies mid.cell(c).spec_solid_neighbours(d) > 0 by {
                    assert(old(self).cell(c).matches(v1, c));
                    assert(old(self).cell(c).spec_solid_neighbours(d) == solid_neighbours_at(
                        v1,
                        c,
                        d,
                    ));
                    lemma_placed_step(store@, id, at, at);
                }
            }
            self.shift_neighbours(at, false, time);
        }
        proof {
            assert forall|c: Coord| c.spec_is_valid(size) implies (#[trigger] self.cell(
                c,
            )).matches(v0, c) by {
                let a = old(self).cell(c);
                let b = self.cell(c);
                lemma_placed_step(store@, id, at, c);
                assert(a.matches(v1, c));
                if store@.solid.contains(id) {
                    assert(shifted(mid.cell(c), b, c, at, false, time, NUM_DIRECTIONS as int));
                }
                assert forall|d: Direction| #[trigger]
                    b.spec_solid_neighbours(d) == solid_neighbours_at(v0, c, d) by {
                    assert(a.spec_solid_neighbours(d) == solid_neighbours_at(v1, c, d));
                    assert(mid.cell(c).spec_solid_neighbours(d) == a.spec_solid_neighbours(d));
                    if neighbour(c, d) is Some {
                        lemma_placed_step(store@, id, at, neighbour(c, d).unwrap());
                    }
                }
            }
            assert forall|c: Coord| c.spec_is_valid(size) implies (if placing_stamps(
                store@.solid.contains(id),
                Some(at),
                c,
            ) {
                (#[trigger] self.cell(c)).last_updated == time
            } else {
                self.cell(c) == old(self).cell(c)
            }) by {
                lemma_reached_all(at, c);
                lemma_reached_all(at, at);
                if store@.solid.contains(id) {
                    assert(shifted(
                        mid.cell(c),
                        self.cell(c),
                        c,
                        at,
                        false,
                        time,
                        NUM_DIRECTIONS as int,
                    ));
                }
            }
        }
    }

    /// Adds the contribution of `id` to the cell at `at` and to the
    /// counters of its neighbours.
    fn attach(&mut self, store: &EntityStoreRaw, id: EntityIdRaw, at: Coord, time: u64)
        requires
            old(self).wf(),
            store.wf(),
            old(self).matches(unplaced(store@, id)),
            has_room(placed(store@, id, at), old(self).spec_size(), id),
        ensures
            final(self).wf(),
            final(self).spec_size() == old(self).spec_size(),
            final(self).matches(placed(store@, id, at)),
            forall|c: Coord|
                c.spec_is_valid(old(self).spec_size()) && !placing_stamps(
                    store@.solid.contains(id),
                    Some(at),
                    c,
                ) ==> final(self).cell(c) == old(self).cell(c),
            forall|c: Coord|
                c.spec_is_valid(old(self).spec_size()) && placing_stamps(
                    store@.solid.contains(id),
                    Some(at),
                    c,
                ) ==> (#[trigger] final(self).cell(c)).last_updated == time,
    {
        let ghost v1 = placed(store@, id, at);
        let ghost v0 = unplaced(store@, id);
        let ghost size = self.spec_size();
        proof {
            lemma_placed_step(store@, id, at, at);
        }
        if at.is_valid(self.size()) {
            assert(self.cell(at).matches(v0, at));
            let cell = self.cell_mut(at);
            cell.insert(id, store, time);
        }
        let ghost mid = *self;
        proof {
            assert forall|c: Coord| c.spec_is_valid(size) implies neighbour_counts(
                (#[trigger] mid.cell(c)).solid_neighbours,
            ).len() == NUM_DIRECTIONS by {
                assert(old(self).cell(c).matches(v0, c));
            }
        }
        if store.solid.contains(&id) {
            proof {
                assert forall|c: Coord, d: Direction|
                    c.spec_is_valid(size) && #[trigger] neighbour(c, d) == Some(
                        at,
                    ) implies mid.cell(c).spec_solid_neighbours(d) < u8::MAX by {
                    assert(old(self).cell(c).matches(v0, c));
                    assert(old(self).cell(c).spec_solid_neighbours(d) == solid_neighbours_at(
                        v0,
                        c,
                        d,
                    ));
                    lemma_placed_step(store@, id, at, at);
                    lemma_steps(at, c, d.spec_opposite(), d);
                    assert(neighbour(at, d.spec_opposite()) == Some(c));
                    assert(v1.coord[id] == at);
                }
            }
            self.shift_neighbours(at, true, time);
        }
        proof {
            assert forall|c: Coord| c.spec_is_valid(size) implies (#[trigger] self.cell(
                c,
            )).matches(v1, c) by {
                let a = old(self).cell(c);
                let b = self.cell(c);
                lemma_placed_step(store@, id, at, c);
                assert(a.matches(v0, c));
                if store@.solid.contains(id) {
                    assert(shifted(mid.cell(c), b, c, at, true, time, NUM_DIRECTIONS as int));
                }
                assert forall|d: Direction| #[trigger]
                    b.spec_solid_neighbours(d) == solid_neighbours_at(v1, c, d) by {
                    assert(a.spec_solid_neighbours(d) == solid_neighbours_at(v0, c, d));
                    assert(mid.cell(c).spec_solid_neighbours(d) == a.spec_solid_neighbours(d));
                    if neighbour(c, d) is Some {
                        lemma_placed_step(store@, id, at, neighbour(c, d).unwrap());
                    }
                }
            }
            assert forall|c: Coord| c.spec_is_valid(size) implies (if placing_stamps(
                store@.solid.contains(id),
                Some(at),
                c,
            ) {
                (#[trigger] self.cell(c)).last_updated == time
            } else {
                self.cell(c) == old(self).cell(c)
            }) by {
                lemma_reached_all(at, c);
                lemma_reached_all(at, at);
                if store@.solid.contains(id) {
                    assert(shifted(
                        mid.cell(c),
                        self.cell(c),
                        c,
                        at,
                        true,
                        time,
                        NUM_DIRECTIONS as int,
                    ));
                }
            }
        }
    }

    /// Brings the cells up to date after the position of `id` changed from
    /// `previous` to what `store` holds now.
    fn update_position(
        &mut self,
        store: &EntityStoreRaw,
        id: EntityIdRaw,
        previous: Option<Coord>,
        time: u64,
    )
        requires
            old(self).wf(),
            store.wf(),
            old(self).matches(
                match previous {
                    Some(at) => placed(store@, id, at),
                    None => unplaced(store@, id),
                },
            ),
            has_room(store@, old(self).spec_size(), id),
        ensures
            final(self).wf(),
            final(self).spec_size() == old(self).spec_size(),
            final(self).matches(store@),
            forall|c: Coord|
                c.spec_is_valid(old(self).spec_size()) && !placing_stamps(
                    store@.solid.contains(id),
                    previous,
                    c,
                ) && !placing_stamps(store@.solid.contains(id), store@.coord.get(id), c)
                    ==> final(self).cell(c) == old(self).cell(c),
            forall|c: Coord|
                c.spec_is_valid(old(self).spec_size()) && (placing_stamps(
                    store@.solid.contains(id),
                    previous,
                    c,
                ) || placing_stamps(store@.solid.contains(id), store@.coord.get(id), c)) ==> (
                #[trigger] final(self).cell(c)).last_updated == time,
    {
        if let Some(current) = previous {
            self.detach(store, id, current, time);
        }
        let ghost mid = *self;
        match store.coord.get(&id) {
            Some(position) => {
                assert(placed(store@, id, *position).coord =~= store@.coord);
                assert(placed(store@, id, *position) == store@);
                self.attach(store, id, *position, time);
            },
            None => {
                assert(unplaced(store@, id).coord =~= store@.coord);
            },
        }
        proof {
            let solid = store@.solid.contains(id);
            assert forall|c: Coord| c.spec_is_valid(old(self).spec_size()) implies (if placing_stamps(
                solid,
                previous,
                c,
            ) || placing_stamps(solid, store@.coord.get(id), c) {
                (#[trigger] self.cell(c)).last_updated == time
            } else {
                self.cell(c) == old(self).cell(c)
            }) by {
                if placing_stamps(solid, previous, c) {
                    assert(mid.cell(c).last_updated == time);
                } else {
                    assert(mid.cell(c) == old(self).cell(c));
                }
                if !placing_stamps(solid, store@.coord.get(id), c) {
                    assert(self.cell(c) == mid.cell(c));
                }
            }
        }
    }

    /// Brings the cells up to date after the opacity of `id` changed from
    /// `previous` to what `store` holds now.
    fn update_opacity(
        &mut self,
        store: &EntityStoreRaw,
        id: EntityIdRaw,
        previous: Option<u8>,
        time: u64,
    )
        requires
            old(self).wf(),
            store.wf(),
            old(self).matches(
                StoreView {
                    opacity: match previous {
                        Some(o) => store@.opacity.insert(id, o),
                        None => store@.opacity.remove(id),
                    },
                    ..store@
                },
            ),
        ensures
            final(self).wf(),
            final(self).spec_size() == old(self).spec_size(),
            final(self).matches(store@),
            forall|c: Coord|
                c.spec_is_valid(old(self).spec_size()) && store@.coord.get(id) != Some(c)
                    ==> final(self).cell(c) == old(self).cell(c),
            forall|c: Coord|
                c.spec_is_valid(old(self).spec_size()) && store@.coord.get(id) == Some(c)
                    ==> final(self).cell(c).last_updated == time,
    {
        let ghost before = StoreView {
            opacity: match previous {
                Some(o) => store@.opacity.insert(id, o),
                None => store@.opacity.remove(id),
            },
            ..store@
        };
        let ghost size = self.spec_size();
        proof {
            assert forall|c: Coord| c.spec_is_valid(size) implies {
                &&& opacity_total_at(store@, c) == opacity_total_at(before, c) - opacity_share(
                    before,
                    id,
                    c,
                ) + opacity_share(store@, id, c)
                &&& opacity_total_at(before, c) >= opacity_share(before, id, c)
                &&& opacity_total_at(store@, c) <= 255 * 0x1_0000_0000
                &&& solid_count_at(store@, c) == solid_count_at(before, c)
                &&& player_set_at(store@, c) == player_set_at(before, c)
            } by {
                assert(before.opacity.remove(id) =~= store@.opacity.remove(id));
                lemma_opacity_step(before, store@, id, c);
            }
        }
        if let Some(position) = store.coord.get(&id) {
            if position.is_valid(self.size()) {
                assert(self.cell(*position).matches(before, *position));
                let removed: u64 = match previous {
                    Some(o) => o as u64,
                    None => 0,
                };
                let added: u64 = match store.opacity.get(&id) {
                    Some(o) => *o as u64,
                    None => 0,
                };
                let cell = self.cell_mut(*position);
                cell.opacity_total = cell.opacity_total - removed + added;
                cell.last_updated = time;
            }
        }
        proof {
            assert forall|c: Coord| c.spec_is_valid(size) implies (#[trigger] self.cell(
                c,
            )).matches(store@, c) by {
                assert(old(self).cell(c).matches(before, c));
                assert forall|d: Direction| #[trigger]
                    self.cell(c).spec_solid_neighbours(d) == solid_neighbours_at(
                        store@,
                        c,
                        d,
                    ) by {
                    assert(old(self).cell(c).spec_solid_neighbours(d) == solid_neighbours_at(
                        before,
                        c,
                        d,
                    ));
                }
            }
        }
    }

    /// Brings the cells up to date after `id` became or ceased to be solid:
    /// `previous` says whether it was, `store` whether it is.
    fn update_solid(&mut self, store: &EntityStoreRaw, id: EntityIdRaw, previous: bool, time: u64)
        requires
            old(self).wf(),
            store.wf(),
            old(self).matches(
                StoreView {
                    solid: if previous {
                        store@.solid.insert(id)
                    } else {
                        store@.solid.remove(id)
                    },
                    ..store@
                },
            ),
            has_room(store@, old(self).spec_size(), id),
        ensures
            final(self).wf(),
            final(self).spec_size() == old(self).spec_size(),
            final(self).matches(store@),
            forall|c: Coord|
                c.spec_is_valid(old(self).spec_size()) && !placing_stamps(
                    previous != store@.solid.contains(id),
                    store@.coord.get(id),
                    c,
                ) ==> final(self).cell(c) == old(self).cell(c),
            forall|c: Coord|
                c.spec_is_valid(old(self).spec_size()) && placing_stamps(
                    previous != store@.solid.contains(id),
                    store@.coord.get(id),
                    c,
                ) ==> (#[trigger] final(self).cell(c)).last_updated == time,
    {
        let ghost before = StoreView {
            solid: if previous {
                store@.solid.insert(id)
            } else {
                store@.solid.remove(id)
            },
            ..store@
        };
        let ghost size = self.spec_size();
        proof {
            assert(before.solid.remove(id) =~= store@.solid.remove(id));
        }
        if let Some(position) = store.coord.get(&id) {
            let now = store.solid.contains(&id);
            proof {
                lemma_member_step(store@.coord, before.solid, store@.solid, id, *position);
            }
            if position.is_valid(self.size()) {
                assert(self.cell(*position).matches(before, *position));
                let cell = self.cell_mut(*position);
                if now && !previous {
                    cell.solid_count = cell.solid_count + 1;
                } else if previous && !now {
                    cell.solid_count = cell.solid_count - 1;
                }
                cell.last_updated = time;
            }
            let ghost mid = *self;
            proof {
                assert forall|c: Coord| c.spec_is_valid(size) implies neighbour_counts(
                    (#[trigger] mid.cell(c)).solid_neighbours,
                ).len() == NUM_DIRECTIONS by {
                    assert(old(self).cell(c).matches(before, c));
                }
            }
            if now != previous {
                proof {
                    assert forall|c: Coord, d: Direction|
                        c.spec_is_valid(size) && #[trigger] neighbour(c, d) == Some(
                            *position,
                        ) implies (if now {
                        mid.cell(c).spec_solid_neighbours(d) < u8::MAX
                    } else {
                        mid.cell(c).spec_solid_neighbours(d) > 0
                    }) by {
                        assert(old(self).cell(c).matches(before, c));
                        assert(old(self).cell(c).spec_solid_neighbours(d) == solid_neighbours_at(
                            before,
                            c,
                            d,
                        ));
                        lemma_steps(*position, c, d.spec_opposite(), d);
                        assert(neighbour(*position, d.spec_opposite()) == Some(c));
                    }
                }
                self.shift_neighbours(*position, now, time);
            }
            proof {
                assert forall|c: Coord| c.spec_is_valid(size) implies (#[trigger] self.cell(
                    c,
                )).matches(store@, c) by {
                    let a = old(self).cell(c);
                    let b = self.cell(c);
                    assert(a.matches(before, c));
                    lemma_member_step(store@.coord, before.solid, store@.solid, id, c);
                    if now != previous {
                        assert(shifted(
                            mid.cell(c),
                            b,
                            c,
                            *position,
                            now,
                            time,
                            NUM_DIRECTIONS as int,
                        ));
                    }
                    lemma_reached_all(*position, c);
                    assert forall|d: Direction| #[trigger]
                        b.spec_solid_neighbours(d) == solid_neighbours_at(store@, c, d) by {
                        assert(a.spec_solid_neighbours(d) == solid_neighbours_at(before, c, d));
                        assert(mid.cell(c).spec_solid_neighbours(d) == a.spec_solid_neighbours(d));
                        if neighbour(c, d) is Some {
                            lemma_member_step(
                                store@.coord,
                                before.solid,
                                store@.solid,
                                id,
                                neighbour(c, d).unwrap(),
                            );
                        }
                    }
                }
                assert forall|c: Coord| c.spec_is_valid(size) implies (if placing_stamps(
                    previous != now,
                    store@.coord.get(id),
                    c,
                ) {
                    (#[trigger] self.cell(c)).last_updated == time
                } else {
                    self.cell(c) == old(self).cell(c)
                }) by {
                    lemma_reached_all(*position, c);
                    lemma_reached_all(*position, *position);
                    if now != previous {
                        assert(shifted(
                            mid.cell(c),
                            self.cell(c),
                            c,
                            *position,
                            now,
                            time,
                            NUM_DIRECTIONS as int,
                        ));
                    }
                }
            }
        } else {
            proof {
                assert forall|c: Coord| c.spec_is_valid(size) implies (#[trigger] self.cell(
                    c,
                )).matches(store@, c) by {
                    assert(old(self).cell(c).matches(before, c));
                    lemma_member_step(store@.coord, before.solid, store@.solid, id, c);
                    assert forall|d: Direction| #[trigger]
                        self.cell(c).spec_solid_neighbours(d) == solid_neighbours_at(
                            store@,
                            c,
                            d,
                        ) by {
                        assert(old(self).cell(c).spec_solid_neighbours(d) == solid_neighbours_at(
                            before,
                            c,
                            d,
                        ));
                        if neighbour(c, d) is Some {
                            lemma_member_step(
                                store@.coord,
                                before.solid,
                                store@.solid,
                                id,
                                neighbour(c, d).unwrap(),
                            );
                        }
                    }
                }
            }
        }
    }

    /// Brings the cells up to date after `id` became or ceased to be a
    /// player: `previous` says whether it was, `store` whether it is.
    fn update_player(&mut self, store: &EntityStoreRaw, id: EntityIdRaw, previous: bool, time: u64)
        requires
            old(self).wf(),
            store.wf(),
            old(self).matches(
                StoreView {
                    player: if previous {
                        store@.player.insert(id)
                    } else {
                        store@.player.remove(id)
                    },
                    ..store@
                },
            ),
        ensures
            final(self).wf(),
            final(self).spec_size() == old(self).spec_size(),
            final(self).matches(store@),
            forall|c: Coord|
                c.spec_is_valid(old(self).spec_size()) && store@.coord.get(id) != Some(c)
                    ==> final(self).cell(c) == old(self).cell(c),
            forall|c: Coord|
                c.spec_is_valid(old(self).spec_size()) && store@.coord.get(id) == Some(c)
                    ==> final(self).cell(c).last_updated == time,
    {
        broadcast use vstd::std_specs::hash::group_hash_axioms;

        let ghost before = StoreView {
            player: if previous {
                store@.player.insert(id)
            } else {
                store@.player.remove(id)
            },
            ..store@
        };
        let ghost size = self.spec_size();
        proof {
            assert forall|c: Coord| c.spec_is_valid(size) implies {
                player_set_at(store@, c) == (if store@.coord.get(id) == Some(c) {
                    if store@.player.contains(id) {
                        player_set_at(before, c).insert(id)
                    } else {
                        player_set_at(before, c).remove(id)
                    }
                } else {
                    player_set_at(before, c)
                })
            } by {
                lemma_holders_member(store@.coord, c, before.player, id);
                lemma_holders_member(store@.coord, c, store@.player, id);
                if store@.player.contains(id) {
                    assert(before.player.insert(id) =~= store@.player);
                } else {
                    assert(before.player.remove(id) =~= store@.player);
                }
                if store@.coord.get(id) != Some(c) {
                    assert(player_set_at(store@, c) =~= player_set_at(before, c));
                }
            }
        }
        if let Some(position) = store.coord.get(&id) {
            if position.is_valid(self.size()) {
                assert(self.cell(*position).matches(before, *position));
                let now = store.player.contains(&id);
                let cell = self.cell_mut(*position);
                if now {
                    cell.player_set.insert(id);
                } else {
                    cell.player_set.remove(&id);
                }
                cell.last_updated = time;
            }
        }
        proof {
            assert forall|c: Coord| c.spec_is_valid(size) implies (#[trigger] self.cell(
                c,
            )).matches(store@, c) by {
                assert(old(self).cell(c).matches(before, c));
                assert forall|d: Direction| #[trigger]
                    self.cell(c).spec_solid_neighbours(d) == solid_neighbours_at(
                        store@,
                        c,
                        d,
                    ) by {
                    assert(old(self).cell(c).spec_solid_neighbours(d) == solid_neighbours_at(
                        before,
                        c,
                        d,
                    ));
                }
            }
        }
    }

    /// Brings the cells up to date after `change` was applied to `store`.
    ///
    /// `previous` is the component of the changed kind that the entity held
    /// before the change. The cells must summarise the store as it was then;
    /// afterwards they summarise it as it is. The cells that change are
    /// stamped with `time`, and no other cell changes; [`stamps`] says which
    /// they are. A position outside the grid has no cell, and nothing is done
    /// for it; its neighbours inside the grid count it all the same.
    pub fn update(
        &mut self,
        store: &EntityStoreRaw,
        change: &EntityChange,
        previous: Option<ComponentValue>,
        time: u64,
    )
        requires
            old(self).wf(),
            store.wf(),
            previous is Some ==> previous.unwrap().spec_typ() == change.spec_typ(),
            store@.component(change.spec_id().spec_raw(), change.spec_typ()) == (match *change {
                EntityChange::Insert(_, value) => Some(value),
                EntityChange::Remove(_, _) => None,
            }),
            old(self).matches(
                store@.with_component(change.spec_id().spec_raw(), change.spec_typ(), previous),
            ),
            has_room(store@, old(self).spec_size(), change.spec_id().spec_raw()),
        ensures
            final(self).wf(),
            final(self).spec_size() == old(self).spec_size(),
            final(self).matches(store@),
            forall|c: Coord|
                c.spec_is_valid(old(self).spec_size()) && !stamps(
                    store@,
                    change.spec_id().spec_raw(),
                    change.spec_typ(),
                    previous,
                    c,
                ) ==> final(self).cell(c) == old(self).cell(c),
            forall|c: Coord|
                c.spec_is_valid(old(self).spec_size()) && stamps(
                    store@,
                    change.spec_id().spec_raw(),
                    change.spec_typ(),
                    previous,
                    c,
                ) ==> (#[trigger] final(self).cell(c)).last_updated == time,
    {
        let id = change.id().raw();
        match change.typ() {
            ComponentType::Coord => {
                let before = match previous {
                    Some(ComponentValue::Coord(at)) => Some(at),
                    _ => None,
                };
                self.update_position(store, id, before, time);
            },
            ComponentType::Opacity => {
                let before = match previous {
                    Some(ComponentValue::Opacity(o)) => Some(o),
                    _ => None,
                };
                self.update_opacity(store, id, before, time);
            },
            ComponentType::Player => {
                self.update_player(store, id, previous.is_some(), time);
            },
            ComponentType::Solid => {
                self.update_solid(store, id, previous.is_some(), time);
            },
        }
    }

    /// Borrows of all cells in storage order: row after row, each from left to right.
    pub fn iter(&self) -> (cells: Vec<&SpatialHashCell>)
        ensures
            cells@.len() == self.cells().len(),
            forall|i: int| 0 <= i < cells@.len() ==> *(#[trigger] cells@[i]) == self.cells()[i],
    {
        grid_iter(&self.grid)
    }

    /// All cells in storage order, each with its coordinate.
    pub fn enumerate(&self) -> (cells: Vec<(Coord, &SpatialHashCell)>)
        requires
            self.wf(),
        ensures
            cells@.len() == self.cells().len(),
            forall|i: int|
                0 <= i < cells@.len() ==> (#[trigger] cells@[i]).0 == coord_at(
                    self.spec_size().x,
                    i,
                ) && *cells@[i].1 == self.cells()[i],
    {
        grid_enumerate(&self.grid)
    }

    /// Cells that summarise a store have room for each of its entities.
    pub proof fn lemma_room(&self, v: StoreView, id: EntityIdRaw)
        requires
            self.wf(),
            self.matches(v),
        ensures
            has_room(v, self.spec_size(), id),
    {
        if v.solid.contains(id) && v.coord.contains_key(id) {
            let p = v.coord[id];
            assert forall|d: Direction|
                (#[trigger] neighbour(p, d)) is Some && neighbour(p, d).unwrap().spec_is_valid(
                    self.spec_size(),
                ) implies solid_count_at(v, p) <= u8::MAX by {
                let c = neighbour(p, d).unwrap();
                lemma_steps(p, c, d, d);
                assert(self.cell(c).matches(v, c));
                assert(self.cell(c).spec_solid_neighbours(d.spec_opposite())
                    == solid_neighbours_at(v, c, d.spec_opposite()));
            }
        }
    }

    /// The cell at a valid coordinate is the one at its position in storage order.
    pub proof fn lemma_cell_position(&self, c: Coord)
        requires
            self.wf(),
            c.spec_is_valid(self.spec_size()),
        ensures
            0 <= cell_index(self.spec_size().x, c) < self.cells().len(),
            self.cells().len() == self.spec_size().x * self.spec_size().y,
            self.cell(c) == self.cells()[cell_index(self.spec_size().x, c)],
    {
        lemma_cell_index(self.spec_size(), c, c);
    }

    /// The coordinates of all cells in storage order.
    pub fn coords(&self) -> (coords: Vec<Coord>)
        requires
            self.wf(),
        ensures
            coords@.len() == self.spec_size().x * self.spec_size().y,
            forall|i: int|
                0 <= i < coords@.len() ==> (#[trigger] coords@[i]) == coord_at(
                    self.spec_size().x,
                    i,
                ),
    {
        grid_coords(&self.grid)
    }
}

/// Whether updating the cells for a change of the component of kind `typ`
/// of the entity `id` stamps the cell at `c`, where `v` is the store after
/// the change and `previous` the component that the entity held before.
///
/// The cell at the position of the entity is stamped, and for a change of
/// position the cell that it left. Where a solid entity changes position,
/// the cells one step from either position are stamped as well; where an
/// entity becomes solid or ceases to be, the cells one step from its position.
pub open spec fn stamps(
    v: StoreView,
    id: EntityIdRaw,
    typ: ComponentType,
    previous: Option<ComponentValue>,
    c: Coord,
) -> bool {
    match typ {
        ComponentType::Coord => placing_stamps(
            v.solid.contains(id),
            match previous {
                Some(ComponentValue::Coord(at)) => Some(at),
                _ => None,
            },
            c,
        ) || placing_stamps(v.solid.contains(id), v.coord.get(id), c),
        ComponentType::Solid => placing_stamps(
            (previous is Some) != v.solid.contains(id),
            v.coord.get(id),
            c,
        ),
        _ => v.coord.get(id) == Some(c),
    }
}

/// What the entity `id` adds to the opacity total of the cell at `c`.
pub open spec fn opacity_share(v: StoreView, id: EntityIdRaw, c: Coord) -> nat {
    if v.coord.get(id) == Some(c) && v.opacity.contains_key(id) {
        v.opacity[id] as nat
    } else {
        0
    }
}

/// What the entity `id` adds to the number of `holders` at the cell at `c`.
pub open spec fn member_share(
    coord: Map<EntityIdRaw, Coord>,
    holders: Set<EntityIdRaw>,
    id: EntityIdRaw,
    c: Coord,
) -> nat {
    if coord.get(id) == Some(c) && holders.contains(id) {
        1
    } else {
        0
    }
}

/// A change to the opacity of one entity changes the total of a cell by the
/// difference of that entity's shares, and nothing else.
proof fn lemma_opacity_step(before: StoreView, after: StoreView, id: EntityIdRaw, c: Coord)
    requires
        after.finite(),
        before.coord == after.coord,
        before.player == after.player,
        before.solid == after.solid,
        before.opacity.remove(id) == after.opacity.remove(id),
    ensures
        opacity_total_at(after, c) == opacity_total_at(before, c) - opacity_share(before, id, c)
            + opacity_share(after, id, c),
        opacity_total_at(before, c) >= opacity_share(before, id, c),
        opacity_total_at(after, c) <= 255 * 0x1_0000_0000,
        solid_count_at(after, c) == solid_count_at(before, c),
        player_set_at(after, c) == player_set_at(before, c),
{
    let coord = after.coord;
    let sb = holders_at(coord, c, before.opacity.dom());
    let sa = holders_at(coord, c, after.opacity.dom());
    lemma_holders_finite(coord, c, before.opacity.dom());
    lemma_holders_finite(coord, c, after.opacity.dom());
    lemma_holders_member(coord, c, before.opacity.dom(), id);
    lemma_holders_member(coord, c, after.opacity.dom(), id);
    assert(before.opacity.remove(id).dom() =~= before.opacity.dom().remove(id));
    assert(after.opacity.remove(id).dom() =~= after.opacity.dom().remove(id));
    assert(sb.remove(id) == sa.remove(id));
    lemma_sum_step(sb, before.opacity, id, 0);
    lemma_sum_step(sa, after.opacity, id, 0);
    assert forall|e: EntityIdRaw| sb.remove(id).contains(e) implies before.opacity[e]
        == after.opacity[e] by {
        assert(before.opacity.remove(id)[e] == before.opacity[e]);
        assert(after.opacity.remove(id)[e] == after.opacity[e]);
    }
    lemma_sum_agree(sb.remove(id), before.opacity, after.opacity);
    lemma_sum_bound(sa, after.opacity);
    assert(255 * sa.len() <= 255 * 0x1_0000_0000) by (nonlinear_arith)
        requires
            sa.len() <= 0x1_0000_0000,
    ;
}

/// A change to the membership of one entity changes the count of a cell by
/// the difference of that entity's shares.
pub(crate) proof fn lemma_member_step(
    coord: Map<EntityIdRaw, Coord>,
    before: Set<EntityIdRaw>,
    after: Set<EntityIdRaw>,
    id: EntityIdRaw,
    c: Coord,
)
    requires
        coord.dom().finite(),
        before.remove(id) == after.remove(id),
    ensures
        holders_at(coord, c, after).len() == holders_at(coord, c, before).len() - member_share(
            coord,
            before,
            id,
            c,
        ) + member_share(coord, after, id, c),
        holders_at(coord, c, before).len() >= member_share(coord, before, id, c),
        holders_at(coord, c, after).len() <= 0x1_0000_0000,
{
    let sb = holders_at(coord, c, before);
    let sa = holders_at(coord, c, after);
    lemma_holders_finite(coord, c, before);
    lemma_holders_finite(coord, c, after);
    lemma_holders_member(coord, c, before, id);
    lemma_holders_member(coord, c, after, id);
    assert(sb.remove(id) == sa.remove(id));
    lemma_count_step(sb, id);
    lemma_count_step(sa, id);
}

/// What the cell at `c` summarises with the entity `id` positioned at `at`,
/// against what it summarises with `id` positioned nowhere.
pub(crate) proof fn lemma_placed_step(v: StoreView, id: EntityIdRaw, at: Coord, c: Coord)
    requires
        v.finite(),
    ensures
        opacity_total_at(unplaced(v, id), c) == opacity_total_at(placed(v, id, at), c) - (if c
            == at && v.opacity.contains_key(id) {
            v.opacity[id] as int
        } else {
            0
        }),
        solid_count_at(unplaced(v, id), c) == solid_count_at(placed(v, id, at), c) - (if c == at
            && v.solid.contains(id) {
            1int
        } else {
            0
        }),
        player_set_at(unplaced(v, id), c) == (if c == at && v.player.contains(id) {
            player_set_at(placed(v, id, at), c).remove(id)
        } else {
            player_set_at(placed(v, id, at), c)
        }),
        player_set_at(placed(v, id, at), c) == (if c == at && v.player.contains(id) {
            player_set_at(unplaced(v, id), c).insert(id)
        } else {
            player_set_at(unplaced(v, id), c)
        }),
        opacity_total_at(placed(v, id, at), c) <= 255 * 0x1_0000_0000,
        solid_count_at(placed(v, id, at), c) <= 0x1_0000_0000,
{
    let v1 = placed(v, id, at);
    let v0 = unplaced(v, id);
    lemma_holders_position(v.coord, id, at, c, v.player);
    lemma_holders_position(v.coord, id, at, c, v.solid);
    lemma_holders_position(v.coord, id, at, c, v.opacity.dom());
    let solid1 = holders_at(v1.coord, c, v.solid);
    let opaque1 = holders_at(v1.coord, c, v.opacity.dom());
    lemma_holders_finite(v1.coord, c, v.solid);
    lemma_holders_finite(v1.coord, c, v.opacity.dom());
    lemma_count_step(solid1, id);
    lemma_sum_step(opaque1, v.opacity, id, 0);
    lemma_sum_bound(opaque1, v.opacity);
    if !(c == at && v.player.contains(id)) {
        assert(player_set_at(v1, c).remove(id) =~= player_set_at(v1, c));
    }
    assert(255 * opaque1.len() <= 255 * 0x1_0000_0000) by (nonlinear_arith)
        requires
            opaque1.len() <= 0x1_0000_0000,
    ;
}

} // verus!
