use vstd::prelude::*;
use entity_store_helper::NeighbourCount;
use entity_store_helper::direction::Direction as Heading;
use crate::direction::Direction;

verus! {

#[verifier::external_type_specification]
#[verifier::external_body]
pub struct ExNeighbourCount(NeighbourCount);

/// The eight counters of an `entity_store_helper::NeighbourCount`, in the
/// order of the directions, clockwise from north.
pub uninterp spec fn neighbour_counts(counts: NeighbourCount) -> Seq<u8>;

/// `NeighbourCount::new`: eight counters at zero.
#[verifier::external_body]
pub(crate) fn counts_new() -> (counts: NeighbourCount)
    ensures
        neighbour_counts(counts).len() == 8,
        forall|i: int| 0 <= i < 8 ==> neighbour_counts(counts)[i] == 0,
{
    NeighbourCount::new()
}

/// `NeighbourCount::get`: the counter of one direction.
#[verifier::external_body]
pub(crate) fn counts_get(counts: &NeighbourCount, d: Direction) -> (n: u8)
    ensures
        n == neighbour_counts(*counts)[d.spec_index()],
{
    counts.get(match d {
        Direction::North => Heading::North,
        Direction::NorthEast => Heading::NorthEast,
        Direction::East => Heading::East,
        Direction::SouthEast => Heading::SouthEast,
        Direction::South => Heading::South,
        Direction::SouthWest => Heading::SouthWest,
        Direction::West => Heading::West,
        Direction::NorthWest => Heading::NorthWest,
    })
}

/// `NeighbourCount::inc`: adds one to the counter of one direction. The
/// outside function adds without a check, so the counter must not be full.
#[verifier::external_body]
pub(crate) fn counts_inc(counts: &mut NeighbourCount, d: Direction)
    requires
        neighbour_counts(*old(counts)).len() == 8,
        neighbour_counts(*old(counts))[d.spec_index()] < u8::MAX,
    ensures
        neighbour_counts(*final(counts)) == neighbour_counts(*old(counts)).update(
            d.spec_index(),
            (neighbour_counts(*old(counts))[d.spec_index()] + 1) as u8,
        ),
{
    counts.inc(match d {
        Direction::North => Heading::North,
        Direction::NorthEast => Heading::NorthEast,
        Direction::East => Heading::East,
        Direction::SouthEast => Heading::SouthEast,
        Direction::South => Heading::South,
        Direction::SouthWest => Heading::SouthWest,
        Direction::West => Heading::West,
        Direction::NorthWest => Heading::NorthWest,
    })
}

/// `NeighbourCount::dec`: takes one from the counter of one direction. The
/// outside function subtracts without a check, so the counter must not be zero.
#[verifier::external_body]
pub(crate) fn counts_dec(counts: &mut NeighbourCount, d: Direction)
    requires
        neighbour_counts(*old(counts)).len() == 8,
        neighbour_counts(*old(counts))[d.spec_index()] > 0,
    ensures
        neighbour_counts(*final(counts)) == neighbour_counts(*old(counts)).update(
            d.spec_index(),
            (neighbour_counts(*old(counts))[d.spec_index()] - 1) as u8,
        ),
{
    counts.dec(match d {
        Direction::North => Heading::North,
        Direction::NorthEast => Heading::NorthEast,
        Direction::East => Heading::East,
        Direction::SouthEast => Heading::SouthEast,
        Direction::South => Heading::South,
        Direction::SouthWest => Heading::SouthWest,
        Direction::West => Heading::West,
        Direction::NorthWest => Heading::NorthWest,
    })
}

} // verus!
