use vstd::prelude::*;

verus! {

/// Largest width or height a [`Size`] may have.
pub const MAX_SIZE_FIELD: u32 = 0x8000_0000;

/// A signed grid coordinate.
#[derive(Debug, Clone, Copy, PartialEq, Eq, Structural)]
pub struct Coord {
    pub x: i32,
    pub y: i32,
}

impl Coord {
    pub fn new(x: i32, y: i32) -> (c: Coord)
        ensures
            c == (Coord { x, y }),
    {
        Coord { x, y }
    }

    /// Whether this coordinate addresses a cell of a grid of the given size.
    pub open spec fn spec_is_valid(self, size: Size) -> bool {
        0 <= self.x < size.x && 0 <= self.y < size.y
    }

    #[verifier::when_used_as_spec(spec_is_valid)]
    pub fn is_valid(self, size: Size) -> (b: bool)
        ensures
            b == self.spec_is_valid(size),
    {
        if self.x < 0 || self.y < 0 {
            return false;
        }
        (self.x as u32) < size.x && (self.y as u32) < size.y
    }
}

/// The dimensions of a grid.
#[derive(Debug, Clone, Copy, PartialEq, Eq, Structural)]
pub struct Size {
    pub x: u32,
    pub y: u32,
}

impl Size {
    /// Whether a grid can have this size: every side is shorter than
    /// `MAX_SIZE_FIELD`, so that the coordinate after the last of a row or
    /// column is still a coordinate; the number of cells fits in 32 bits; and
    /// a grid without columns has no rows either.
    pub open spec fn spec_fits_grid(self) -> bool {
        &&& self.x < MAX_SIZE_FIELD
        &&& self.y < MAX_SIZE_FIELD
        &&& self.x * self.y <= u32::MAX
        &&& (self.x > 0 || self.y == 0)
    }

    /// Whether a grid can have this size.
    #[verifier::when_used_as_spec(spec_fits_grid)]
    pub fn fits_grid(self) -> (b: bool)
        ensures
            b == self.spec_fits_grid(),
    {
        if self.x >= MAX_SIZE_FIELD || self.y >= MAX_SIZE_FIELD {
            return false;
        }
        if self.x == 0 {
            return self.y == 0;
        }
        assert(self.x * self.y <= u32::MAX <==> self.y <= u32::MAX / self.x) by (nonlinear_arith)
            requires
                self.x > 0,
        ;
        self.y <= u32::MAX / self.x
    }

    pub fn new(width: u32, height: u32) -> (s: Size)
        requires
            width <= MAX_SIZE_FIELD,
            height <= MAX_SIZE_FIELD,
        ensures
            s == (Size { x: width, y: height }),
    {
        Size { x: width, y: height }
    }
}

} // verus!
