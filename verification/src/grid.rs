use vstd::prelude::*;
use entity_store_helper::grid_2d::Grid;
use crate::coord::{Coord, Size};
use crate::spatial_hash::SpatialHashCell;

verus! {

/// The cells of a spatial hash, held in an `entity_store_helper::grid_2d::Grid`.
#[verifier::external_body]
pub struct CellGrid {
    inner: Grid<SpatialHashCell>,
}

/// The cells of the grid in storage order: row after row, each from left to right.
pub uninterp spec fn grid_cells(g: CellGrid) -> Seq<SpatialHashCell>;

/// The size the grid was made with.
pub uninterp spec fn grid_size(g: CellGrid) -> Size;

/// Position in storage order of the cell at `coord` in a grid `width` cells wide.
pub open spec fn cell_index(width: u32, coord: Coord) -> int {
    coord.y * width + coord.x
}

/// The coordinate of the cell at position `i` in storage order in a grid
/// `width` cells wide.
pub open spec fn coord_at(width: u32, i: int) -> Coord {
    Coord { x: (i % width as int) as i32, y: (i / width as int) as i32 }
}

/// `Grid::new_fn` with a function that makes a fresh cell for every
/// coordinate: a grid of the given size, all of whose cells are fresh.
///
/// The sizes that the outside function cannot take are left out. It
/// multiplies width by height in 32 bits. Its size type refuses a side
/// above `MAX_SIZE_FIELD`. Its walk over the coordinates counts in `i32` and
/// steps once past the last column and the last row, which a side of
/// exactly `MAX_SIZE_FIELD` would carry beyond the largest `i32`. And on a
/// grid without columns but with rows the walk does not end.
#[verifier::external_body]
pub(crate) fn grid_new(size: Size) -> (g: CellGrid)
    requires
        size.spec_fits_grid(),
    ensures
        grid_size(g) == size,
        grid_cells(g).len() == size.x * size.y,
        forall|i: int| 0 <= i < grid_cells(g).len() ==> (#[trigger] grid_cells(g)[i]).is_fresh(),
{
    let size = entity_store_helper::grid_2d::Size::new(size.x, size.y);
    CellGrid { inner: Grid::new_fn(size, |_| SpatialHashCell::new()) }
}

/// `Grid::width`: the width the grid was made with.
#[verifier::external_body]
pub(crate) fn grid_width(g: &CellGrid) -> (w: u32)
    ensures
        w == grid_size(*g).x,
{
    g.inner.width()
}

/// `Grid::height`: the height the grid was made with.
#[verifier::external_body]
pub(crate) fn grid_height(g: &CellGrid) -> (h: u32)
    ensures
        h == grid_size(*g).y,
{
    g.inner.height()
}

/// `Grid::get`: the cell at `coord`, where `coord` lies inside the grid, and
/// `None` where it does not.
#[verifier::external_body]
pub(crate) fn grid_get(g: &CellGrid, coord: Coord) -> (cell: Option<&SpatialHashCell>)
    ensures
        cell is Some <==> coord.spec_is_valid(grid_size(*g)),
        cell is Some ==> *cell.unwrap() == grid_cells(*g)[cell_index(grid_size(*g).x, coord)],
{
    g.inner.get(entity_store_helper::grid_2d::Coord::new(coord.x, coord.y))
}

/// `Grid::get_checked_mut`: a mutable borrow of the cell at `coord`, which
/// must lie inside the grid. No other cell changes, nor does the size.
#[verifier::external_body]
pub(crate) fn grid_cell_mut(g: &mut CellGrid, coord: Coord) -> (cell: &mut SpatialHashCell)
    requires
        coord.spec_is_valid(grid_size(*old(g))),
    ensures
        *cell == grid_cells(*old(g))[cell_index(grid_size(*old(g)).x, coord)],
        grid_cells(*final(g)) == grid_cells(*old(g)).update(
            cell_index(grid_size(*old(g)).x, coord),
            *final(cell),
        ),
        grid_size(*final(g)) == grid_size(*old(g)),
{
    g.inner.get_checked_mut(entity_store_helper::grid_2d::Coord::new(coord.x, coord.y))
}

/// `Grid::iter`, collected: borrows of all cells in storage order.
#[verifier::external_body]
pub(crate) fn grid_iter(g: &CellGrid) -> (cells: Vec<&SpatialHashCell>)
    ensures
        cells@.len() == grid_cells(*g).len(),
        forall|i: int| 0 <= i < cells@.len() ==> *(#[trigger] cells@[i]) == grid_cells(*g)[i],
{
    g.inner.iter().collect()
}

/// `Grid::coord_iter`, collected: the coordinates of all cells in storage
/// order. The walk ends on every grid that `grid_new` makes.
#[verifier::external_body]
pub(crate) fn grid_coords(g: &CellGrid) -> (coords: Vec<Coord>)
    requires
        grid_size(*g).spec_fits_grid(),
    ensures
        coords@.len() == grid_size(*g).x * grid_size(*g).y,
        forall|i: int|
            0 <= i < coords@.len() ==> (#[trigger] coords@[i]) == coord_at(grid_size(*g).x, i),
{
    g.inner.coord_iter().map(|c| Coord { x: c.x, y: c.y }).collect()
}

/// `Grid::enumerate`, collected: all cells in storage order, each with its
/// coordinate. The walk ends on every grid that `grid_new` makes.
#[verifier::external_body]
pub(crate) fn grid_enumerate(g: &CellGrid) -> (cells: Vec<(Coord, &SpatialHashCell)>)
    requires
        grid_size(*g).spec_fits_grid(),
    ensures
        cells@.len() == grid_cells(*g).len(),
        forall|i: int|
            0 <= i < cells@.len() ==> (#[trigger] cells@[i]).0 == coord_at(grid_size(*g).x, i)
                && *cells@[i].1 == grid_cells(*g)[i],
{
    g.inner.enumerate().map(|(c, cell)| (Coord { x: c.x, y: c.y }, cell)).collect()
}

} // verus!
