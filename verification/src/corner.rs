//! Pixels, their four corners, and the lattice of corner positions.

use vstd::prelude::*;

verus! {

/// A pixel of a raster, by column and row. Rows grow downwards.
#[derive(Clone, Copy, Debug, PartialEq, Eq, Structural)]
pub struct PixelPoint {
    pub x: u32,
    pub y: u32,
}

/// A point of the lattice on which pixel corners lie, in units of one pixel.
/// The pixel in column `x` and row `y` has its top-left corner at `(x, y)`.
#[derive(Clone, Copy, Debug, PartialEq, Eq, Structural)]
pub struct GridPoint {
    pub x: u64,
    pub y: u64,
}

/// One of the four corners of a pixel, as seen on screen.
#[derive(Clone, Copy, Debug, PartialEq, Eq, Structural)]
pub enum Corner {
    BottomRight,
    BottomLeft,
    TopLeft,
    TopRight,
}

impl Corner {
    /// The corner that follows `self` when the pixel is walked round clockwise.
    pub open spec fn spec_clockwise(self) -> Corner {
        match self {
            Corner::BottomRight => Corner::BottomLeft,
            Corner::BottomLeft => Corner::TopLeft,
            Corner::TopLeft => Corner::TopRight,
            Corner::TopRight => Corner::BottomRight,
        }
    }

    /// The corner that follows `self` when the pixel is walked round
    /// anticlockwise.
    pub open spec fn spec_anticlockwise(self) -> Corner {
        match self {
            Corner::BottomRight => Corner::TopRight,
            Corner::BottomLeft => Corner::BottomRight,
            Corner::TopLeft => Corner::BottomLeft,
            Corner::TopRight => Corner::TopLeft,
        }
    }

    /// How far right of the pixel's left edge the corner lies: 0 or 1.
    pub open spec fn dx(self) -> int {
        match self {
            Corner::BottomRight | Corner::TopRight => 1,
            Corner::BottomLeft | Corner::TopLeft => 0,
        }
    }

    /// How far below the pixel's top edge the corner lies: 0 or 1.
    pub open spec fn dy(self) -> int {
        match self {
            Corner::BottomRight | Corner::BottomLeft => 1,
            Corner::TopLeft | Corner::TopRight => 0,
        }
    }

    #[verifier::when_used_as_spec(spec_clockwise)]
    pub fn clockwise(self) -> (next: Corner)
        ensures
            next == self.spec_clockwise(),
    {
        match self {
            Corner::BottomRight => Corner::BottomLeft,
            Corner::BottomLeft => Corner::TopLeft,
            Corner::TopLeft => Corner::TopRight,
            Corner::TopRight => Corner::BottomRight,
        }
    }

    #[verifier::when_used_as_spec(spec_anticlockwise)]
    pub fn anticlockwise(self) -> (next: Corner)
        ensures
            next == self.spec_anticlockwise(),
    {
        match self {
            Corner::BottomRight => Corner::TopRight,
            Corner::BottomLeft => Corner::BottomRight,
            Corner::TopLeft => Corner::BottomLeft,
            Corner::TopRight => Corner::TopLeft,
        }
    }
}

/// The lattice point at which `corner` of `pixel` lies.
pub open spec fn corner_at(pixel: PixelPoint, corner: Corner) -> GridPoint {
    GridPoint { x: (pixel.x + corner.dx()) as u64, y: (pixel.y + corner.dy()) as u64 }
}

/// The lattice point at which `corner` of `point` lies.
pub fn corner_coord(point: &PixelPoint, corner: Corner) -> (vertex: GridPoint)
    ensures
        vertex == corner_at(*point, corner),
        vertex.x == point.x + corner.dx(),
        vertex.y == point.y + corner.dy(),
{
    let x: u64 = point.x as u64;
    let y: u64 = point.y as u64;
    match corner {
        Corner::BottomRight => GridPoint { x: x + 1, y: y + 1 },
        Corner::BottomLeft => GridPoint { x, y: y + 1 },
        Corner::TopLeft => GridPoint { x, y },
        Corner::TopRight => GridPoint { x: x + 1, y },
    }
}

/// The clockwise successor runs through all four corners and comes back:
/// the first three steps from a corner reach three other corners, each a
/// different one, and the fourth step returns to it.
pub proof fn lemma_clockwise_is_a_four_cycle(c: Corner)
    ensures
        c.clockwise() != c,
        c.clockwise().clockwise() != c,
        c.clockwise().clockwise().clockwise() != c,
        c.clockwise().clockwise().clockwise().clockwise() == c,
        c.clockwise() != c.clockwise().clockwise(),
        c.clockwise() != c.clockwise().clockwise().clockwise(),
        c.clockwise().clockwise() != c.clockwise().clockwise().clockwise(),
{
}

/// The anticlockwise successor runs through all four corners and comes back.
pub proof fn lemma_anticlockwise_is_a_four_cycle(c: Corner)
    ensures
        c.anticlockwise() != c,
        c.anticlockwise().anticlockwise() != c,
        c.anticlockwise().anticlockwise().anticlockwise() != c,
        c.anticlockwise().anticlockwise().anticlockwise().anticlockwise() == c,
        c.anticlockwise() != c.anticlockwise().anticlockwise(),
        c.anticlockwise() != c.anticlockwise().anticlockwise().anticlockwise(),
        c.anticlockwise().anticlockwise() != c.anticlockwise().anticlockwise().anticlockwise(),
{
}

/// The two successors undo each other: they walk the same cycle in opposite
/// senses.
pub proof fn lemma_turns_are_inverse(c: Corner)
    ensures
        c.clockwise().anticlockwise() == c,
        c.anticlockwise().clockwise() == c,
{
}

/// A step to the next corner, either way round, moves along one edge of the
/// pixel: exactly one of the two coordinates changes, by one.
pub proof fn lemma_turn_moves_along_an_edge(c: Corner)
    ensures
        (c.dx() != c.clockwise().dx()) != (c.dy() != c.clockwise().dy()),
        (c.dx() != c.anticlockwise().dx()) != (c.dy() != c.anticlockwise().dy()),
{
}

} // verus!
