use vstd::prelude::*;
use crate::coord::Coord;

verus! {

/// Number of directions.
pub const NUM_DIRECTIONS: usize = 8;

/// The eight directions from a cell of the grid to its neighbours. North is
/// the direction in which `y` falls, east the one in which `x` grows.
#[derive(Debug, Clone, Copy, PartialEq, Eq, Hash, Structural)]
pub enum Direction {
    North,
    NorthEast,
    East,
    SouthEast,
    South,
    SouthWest,
    West,
    NorthWest,
}

impl Direction {
    /// The position of the direction, clockwise from north.
    pub open spec fn spec_index(self) -> int {
        match self {
            Direction::North => 0,
            Direction::NorthEast => 1,
            Direction::East => 2,
            Direction::SouthEast => 3,
            Direction::South => 4,
            Direction::SouthWest => 5,
            Direction::West => 6,
            Direction::NorthWest => 7,
        }
    }

    pub fn index(self) -> (i: usize)
        ensures
            i == self.spec_index(),
            i < NUM_DIRECTIONS,
    {
        match self {
            Direction::North => 0,
            Direction::NorthEast => 1,
            Direction::East => 2,
            Direction::SouthEast => 3,
            Direction::South => 4,
            Direction::SouthWest => 5,
            Direction::West => 6,
            Direction::NorthWest => 7,
        }
    }

    /// The direction at position `i`, clockwise from north.
    pub fn from_index(i: usize) -> (d: Direction)
        requires
            i < NUM_DIRECTIONS,
        ensures
            d.spec_index() == i,
    {
        if i == 0 {
            Direction::North
        } else if i == 1 {
            Direction::NorthEast
        } else if i == 2 {
            Direction::East
        } else if i == 3 {
            Direction::SouthEast
        } else if i == 4 {
            Direction::South
        } else if i == 5 {
            Direction::SouthWest
        } else if i == 6 {
            Direction::West
        } else {
            Direction::NorthWest
        }
    }

    pub open spec fn spec_opposite(self) -> Direction {
        match self {
            Direction::North => Direction::South,
            Direction::NorthEast => Direction::SouthWest,
            Direction::East => Direction::West,
            Direction::SouthEast => Direction::NorthWest,
            Direction::South => Direction::North,
            Direction::SouthWest => Direction::NorthEast,
            Direction::West => Direction::East,
            Direction::NorthWest => Direction::SouthEast,
        }
    }

    /// The direction that leads back.
    #[verifier::when_used_as_spec(spec_opposite)]
    pub fn opposite(self) -> (d: Direction)
        ensures
            d == self.spec_opposite(),
    {
        match self {
            Direction::North => Direction::South,
            Direction::NorthEast => Direction::SouthWest,
            Direction::East => Direction::West,
            Direction::SouthEast => Direction::NorthWest,
            Direction::South => Direction::North,
            Direction::SouthWest => Direction::NorthEast,
            Direction::West => Direction::East,
            Direction::NorthWest => Direction::SouthEast,
        }
    }

    pub open spec fn spec_coord(self) -> Coord {
        match self {
            Direction::North => Coord { x: 0, y: -1i32 },
            Direction::NorthEast => Coord { x: 1, y: -1i32 },
            Direction::East => Coord { x: 1, y: 0 },
            Direction::SouthEast => Coord { x: 1, y: 1 },
            Direction::South => Coord { x: 0, y: 1 },
            Direction::SouthWest => Coord { x: -1i32, y: 1 },
            Direction::West => Coord { x: -1i32, y: 0 },
            Direction::NorthWest => Coord { x: -1i32, y: -1i32 },
        }
    }

    /// The step that the direction takes.
    #[verifier::when_used_as_spec(spec_coord)]
    pub fn coord(self) -> (c: Coord)
        ensures
            c == self.spec_coord(),
    {
        match self {
            Direction::North => Coord { x: 0, y: -1 },
            Direction::NorthEast => Coord { x: 1, y: -1 },
            Direction::East => Coord { x: 1, y: 0 },
            Direction::SouthEast => Coord { x: 1, y: 1 },
            Direction::South => Coord { x: 0, y: 1 },
            Direction::SouthWest => Coord { x: -1, y: 1 },
            Direction::West => Coord { x: -1, y: 0 },
            Direction::NorthWest => Coord { x: -1, y: -1 },
        }
    }
}

/// The coordinate one step from `c` in the direction `d`; `None` where no
/// coordinate can hold it.
pub open spec fn neighbour(c: Coord, d: Direction) -> Option<Coord> {
    let x = c.x + d.spec_coord().x;
    let y = c.y + d.spec_coord().y;
    if i32::MIN <= x <= i32::MAX && i32::MIN <= y <= i32::MAX {
        Some(Coord { x: x as i32, y: y as i32 })
    } else {
        None
    }
}

/// The coordinate one step from `c` in the direction `d`.
pub fn step(c: Coord, d: Direction) -> (r: Option<Coord>)
    ensures
        r == neighbour(c, d),
{
    let delta = d.coord();
    match (c.x.checked_add(delta.x), c.y.checked_add(delta.y)) {
        (Some(x), Some(y)) => Some(Coord { x, y }),
        _ => None,
    }
}

/// Whether `c` is one step from `p`.
pub open spec fn adjacent(p: Coord, c: Coord) -> bool {
    exists|d: Direction| neighbour(p, d) == Some(c)
}

/// A step leads from `p` to `c` just when the opposite step leads from `c`
/// to `p`, and steps in different directions lead to different coordinates.
pub proof fn lemma_steps(p: Coord, c: Coord, d: Direction, e: Direction)
    ensures
        neighbour(p, d) == Some(c) <==> neighbour(c, d.spec_opposite()) == Some(p),
        d.spec_opposite().spec_opposite() == d,
        neighbour(p, d) is Some && neighbour(p, d) == neighbour(p, e) ==> d == e,
        neighbour(p, d) != Some(p),
        d.spec_index() == e.spec_index() ==> d == e,
{
}

} // verus!
