//! The boundary walk: from a chain of border pixels to a path along pixel
//! edges.
//!
//! A contour names the pixels on the rim of a region, one after the other.
//! Joining their centres would cut the rim pixels in half. The walk instead
//! keeps a cursor on one corner of the current pixel and moves it round the
//! pixel, edge by edge, until it stands on the corner from which the rim
//! goes on towards the next pixel; every corner it steps on becomes a vertex
//! of the outline.

use crate::corner::{corner_at, corner_coord, Corner, GridPoint, PixelPoint};
use crate::outline_laws::lemma_outline_follows_pixels;
use vstd::prelude::*;

verus! {

/// The sense in which a contour runs round its region, as seen on screen.
#[derive(Clone, Copy, Debug, PartialEq, Eq, Structural)]
pub enum Winding {
    Clockwise,
    Anticlockwise,
}

/// Where the next pixel of a contour lies, as seen from the current one.
#[derive(Clone, Copy, Debug, PartialEq, Eq, Structural)]
pub enum Heading {
    UpLeft,
    Left,
    DownLeft,
    Down,
    DownRight,
    Right,
    UpRight,
    Up,
    /// The next pixel is the current one.
    Here,
}

/// What a heading asks of the cursor: the corner to walk to on the current
/// pixel, and the corner on which the cursor starts on the next pixel.
#[derive(Clone, Copy, Debug, PartialEq, Eq, Structural)]
pub struct CornerRule {
    pub target: Corner,
    pub carry: Corner,
}

/// Why a contour has no outline.
#[derive(Clone, Copy, Debug, PartialEq, Eq, Structural)]
pub enum OutlineError {
    /// The contour holds no pixel.
    EmptyContour,
}

/// The heading from `from` to `to`: each coordinate counts by its sign only.
pub open spec fn heading_of(from: PixelPoint, to: PixelPoint) -> Heading {
    if to.x < from.x {
        if to.y < from.y {
            Heading::UpLeft
        } else if to.y == from.y {
            Heading::Left
        } else {
            Heading::DownLeft
        }
    } else if to.x == from.x {
        if to.y < from.y {
            Heading::Up
        } else if to.y == from.y {
            Heading::Here
        } else {
            Heading::Down
        }
    } else {
        if to.y < from.y {
            Heading::UpRight
        } else if to.y == from.y {
            Heading::Right
        } else {
            Heading::DownRight
        }
    }
}

/// The heading from `from` to `to`.
pub fn heading(from: &PixelPoint, to: &PixelPoint) -> (h: Heading)
    ensures
        h == heading_of(*from, *to),
{
    if to.x < from.x {
        if to.y < from.y {
            Heading::UpLeft
        } else if to.y == from.y {
            Heading::Left
        } else {
            Heading::DownLeft
        }
    } else if to.x == from.x {
        if to.y < from.y {
            Heading::Up
        } else if to.y == from.y {
            Heading::Here
        } else {
            Heading::Down
        }
    } else {
        if to.y < from.y {
            Heading::UpRight
        } else if to.y == from.y {
            Heading::Right
        } else {
            Heading::DownRight
        }
    }
}

impl Winding {
    /// The corner on which the cursor stands before the first pixel, and to
    /// which it returns at the end.
    pub open spec fn spec_start(self) -> Corner {
        match self {
            Winding::Clockwise => Corner::BottomLeft,
            Winding::Anticlockwise => Corner::TopLeft,
        }
    }

    /// One step of the cursor round a pixel.
    pub open spec fn spec_turn(self, corner: Corner) -> Corner {
        match self {
            Winding::Clockwise => corner.clockwise(),
            Winding::Anticlockwise => corner.anticlockwise(),
        }
    }

    /// The table from headings to corners.
    ///
    /// Towards a pixel that touches by a corner only, the cursor walks to
    /// that corner and is handed over there, either way round. Towards a
    /// pixel that touches by a side the two ways differ. Anticlockwise the
    /// cursor walks to the far end of the side along which it goes on, and
    /// is handed over at that lattice point: every pixel of a straight run
    /// leaves a vertex. Clockwise the cursor walks to the near end of that
    /// side and is carried to the same corner of the next pixel: a straight
    /// run leaves no vertex, and the outline has its vertices where it
    /// turns.
    pub open spec fn spec_rule(self, heading: Heading) -> CornerRule {
        match self {
            Winding::Clockwise => match heading {
                Heading::UpLeft => CornerRule { target: Corner::TopLeft, carry: Corner::BottomRight },
                Heading::Left => CornerRule { target: Corner::BottomRight, carry: Corner::BottomRight },
                Heading::DownLeft => CornerRule { target: Corner::BottomLeft, carry: Corner::TopRight },
                Heading::Down => CornerRule { target: Corner::TopRight, carry: Corner::TopRight },
                Heading::DownRight => CornerRule { target: Corner::BottomRight, carry: Corner::TopLeft },
                Heading::Right => CornerRule { target: Corner::TopLeft, carry: Corner::TopLeft },
                Heading::UpRight => CornerRule { target: Corner::TopRight, carry: Corner::BottomLeft },
                Heading::Up => CornerRule { target: Corner::BottomLeft, carry: Corner::BottomLeft },
                Heading::Here => CornerRule { target: Corner::BottomLeft, carry: Corner::BottomLeft },
            },
            Winding::Anticlockwise => match heading {
                Heading::UpLeft => CornerRule { target: Corner::TopLeft, carry: Corner::BottomRight },
                Heading::Left => CornerRule { target: Corner::TopLeft, carry: Corner::TopRight },
                Heading::DownLeft => CornerRule { target: Corner::BottomLeft, carry: Corner::TopRight },
                Heading::Down => CornerRule { target: Corner::BottomLeft, carry: Corner::TopLeft },
                Heading::DownRight => CornerRule { target: Corner::BottomRight, carry: Corner::TopLeft },
                Heading::Right => CornerRule { target: Corner::BottomRight, carry: Corner::BottomLeft },
                Heading::UpRight => CornerRule { target: Corner::TopRight, carry: Corner::BottomLeft },
                Heading::Up => CornerRule { target: Corner::TopRight, carry: Corner::BottomRight },
                Heading::Here => CornerRule { target: Corner::TopLeft, carry: Corner::TopLeft },
            },
        }
    }

    /// How many steps take the cursor from `from` to `to`: 0 to 3.
    pub open spec fn turns_between(self, from: Corner, to: Corner) -> nat {
        if from == to {
            0
        } else if self.spec_turn(from) == to {
            1
        } else if self.spec_turn(self.spec_turn(from)) == to {
            2
        } else {
            3
        }
    }

    /// The corners on which the cursor steps on its way from `from` to `to`:
    /// `from` itself is left out, `to` comes last. Empty where the two are
    /// one corner.
    pub open spec fn arc(self, from: Corner, to: Corner) -> Seq<Corner>
        decreases self.turns_between(from, to),
    {
        if from == to {
            Seq::empty()
        } else {
            seq![self.spec_turn(from)] + self.arc(self.spec_turn(from), to)
        }
    }

    /// All four corners in the order of the walk, beginning with the start
    /// corner.
    pub open spec fn lap(self) -> Seq<Corner> {
        let a = self.spec_start();
        let b = self.spec_turn(a);
        let c = self.spec_turn(b);
        let d = self.spec_turn(c);
        seq![a, b, c, d]
    }

    #[verifier::when_used_as_spec(spec_start)]
    pub fn start(self) -> (corner: Corner)
        ensures
            corner == self.spec_start(),
    {
        match self {
            Winding::Clockwise => Corner::BottomLeft,
            Winding::Anticlockwise => Corner::TopLeft,
        }
    }

    #[verifier::when_used_as_spec(spec_turn)]
    pub fn turn(self, corner: Corner) -> (next: Corner)
        ensures
            next == self.spec_turn(corner),
    {
        match self {
            Winding::Clockwise => corner.clockwise(),
            Winding::Anticlockwise => corner.anticlockwise(),
        }
    }

    #[verifier::when_used_as_spec(spec_rule)]
    pub fn rule(self, heading: Heading) -> (rule: CornerRule)
        ensures
            rule == self.spec_rule(heading),
    {
        match self {
            Winding::Clockwise => match heading {
                Heading::UpLeft => CornerRule { target: Corner::TopLeft, carry: Corner::BottomRight },
                Heading::Left => CornerRule { target: Corner::BottomRight, carry: Corner::BottomRight },
                Heading::DownLeft => CornerRule { target: Corner::BottomLeft, carry: Corner::TopRight },
                Heading::Down => CornerRule { target: Corner::TopRight, carry: Corner::TopRight },
                Heading::DownRight => CornerRule { target: Corner::BottomRight, carry: Corner::TopLeft },
                Heading::Right => CornerRule { target: Corner::TopLeft, carry: Corner::TopLeft },
                Heading::UpRight => CornerRule { target: Corner::TopRight, carry: Corner::BottomLeft },
                Heading::Up => CornerRule { target: Corner::BottomLeft, carry: Corner::BottomLeft },
                Heading::Here => CornerRule { target: Corner::BottomLeft, carry: Corner::BottomLeft },
            },
            Winding::Anticlockwise => match heading {
                Heading::UpLeft => CornerRule { target: Corner::TopLeft, carry: Corner::BottomRight },
                Heading::Left => CornerRule { target: Corner::TopLeft, carry: Corner::TopRight },
                Heading::DownLeft => CornerRule { target: Corner::BottomLeft, carry: Corner::TopRight },
                Heading::Down => CornerRule { target: Corner::BottomLeft, carry: Corner::TopLeft },
                Heading::DownRight => CornerRule { target: Corner::BottomRight, carry: Corner::TopLeft },
                Heading::Right => CornerRule { target: Corner::BottomRight, carry: Corner::BottomLeft },
                Heading::UpRight => CornerRule { target: Corner::TopRight, carry: Corner::BottomLeft },
                Heading::Up => CornerRule { target: Corner::TopRight, carry: Corner::BottomRight },
                Heading::Here => CornerRule { target: Corner::TopLeft, carry: Corner::TopLeft },
            },
        }
    }
}

/// The pixel that follows the `i`-th of a contour. A contour is a ring: the
/// first pixel follows the last.
pub open spec fn successor(contour: Seq<PixelPoint>, i: int) -> PixelPoint {
    if i + 1 < contour.len() {
        contour[i + 1]
    } else {
        contour[0]
    }
}

/// The corner on which the cursor stands when the walk reaches the `i`-th
/// pixel. With `i` the contour's length: the corner on which it comes back to
/// the first pixel.
pub open spec fn cursor_before(contour: Seq<PixelPoint>, winding: Winding, i: int) -> Corner {
    if i <= 0 {
        winding.start()
    } else {
        winding.rule(heading_of(contour[i - 1], successor(contour, i - 1))).carry
    }
}

/// The corner of the `i`-th pixel to which the cursor walks.
pub open spec fn target_at(contour: Seq<PixelPoint>, winding: Winding, i: int) -> Corner {
    winding.rule(heading_of(contour[i], successor(contour, i))).target
}

/// The lattice points of the given corners of one pixel.
pub open spec fn corners_of(pixel: PixelPoint, corners: Seq<Corner>) -> Seq<GridPoint> {
    Seq::new(corners.len(), |k: int| corner_at(pixel, corners[k]))
}

/// The vertices that the walk leaves on the `i`-th pixel.
pub open spec fn leg(contour: Seq<PixelPoint>, winding: Winding, i: int) -> Seq<GridPoint> {
    corners_of(
        contour[i],
        winding.arc(cursor_before(contour, winding, i), target_at(contour, winding, i)),
    )
}

/// The vertices that the walk leaves on the first `n` pixels.
pub open spec fn trace(contour: Seq<PixelPoint>, winding: Winding, n: int) -> Seq<GridPoint>
    decreases n,
{
    if n <= 0 {
        Seq::empty()
    } else {
        trace(contour, winding, n - 1) + leg(contour, winding, n - 1)
    }
}

/// The vertices that close the ring, all of them on the first pixel. A
/// contour of one pixel is closed by a full lap round it; a longer one by the
/// way back from where the last pixel left the cursor to the start corner.
pub open spec fn closing(contour: Seq<PixelPoint>, winding: Winding) -> Seq<GridPoint> {
    if contour.len() == 1 {
        corners_of(contour[0], winding.lap())
    } else {
        corners_of(
            contour[0],
            winding.arc(cursor_before(contour, winding, contour.len() as int), winding.start()),
        )
    }
}

/// The outline of a contour: what the walk leaves on its pixels, in their
/// order, and then what closes the ring.
pub open spec fn outline(contour: Seq<PixelPoint>, winding: Winding) -> Seq<GridPoint> {
    trace(contour, winding, contour.len() as int) + closing(contour, winding)
}

/// Two pixels that touch, by an edge or by a corner, or are one pixel.
pub open spec fn touching(a: PixelPoint, b: PixelPoint) -> bool {
    &&& a.x - b.x <= 1
    &&& b.x - a.x <= 1
    &&& a.y - b.y <= 1
    &&& b.y - a.y <= 1
}

/// A contour in which every pixel touches the one that follows it, the last
/// one the first.
pub open spec fn connected(contour: Seq<PixelPoint>) -> bool {
    forall|i: int| 0 <= i < contour.len() ==> touching(#[trigger] contour[i], successor(contour, i))
}

/// Two lattice points that are the two ends of one pixel edge.
pub open spec fn unit_step(a: GridPoint, b: GridPoint) -> bool {
    ||| a.y == b.y && (a.x + 1 == b.x || b.x + 1 == a.x)
    ||| a.x == b.x && (a.y + 1 == b.y || b.y + 1 == a.y)
}

/// The index that follows `k` in a ring of `len` points.
pub open spec fn ring_next(k: int, len: int) -> int {
    if k + 1 < len {
        k + 1
    } else {
        0
    }
}

/// From `a` to `b` runs a side of one of the contour's pixels, in the sense
/// of the walk: the two are corners of one pixel, and `b` is the corner that
/// follows `a` on the way round it.
pub open spec fn side_of(
    contour: Seq<PixelPoint>,
    winding: Winding,
    a: GridPoint,
    b: GridPoint,
) -> bool {
    exists|i: int, c: Corner|
        0 <= i < contour.len() && a == corner_at(contour[i], c) && b == #[trigger] corner_at(
            contour[i],
            winding.turn(c),
        )
}

/// `path` is a ring of lattice points that takes a side of one of the
/// contour's pixels from each point to the next, and from the last to the
/// first.
pub open spec fn sides_walk(
    contour: Seq<PixelPoint>,
    winding: Winding,
    path: Seq<GridPoint>,
) -> bool {
    forall|k: int|
        0 <= k < path.len() ==> side_of(
            contour,
            winding,
            #[trigger] path[k],
            path[ring_next(k, path.len() as int)],
        )
}

/// The edge from `a` to `b` runs along a row of the lattice.
pub open spec fn level(a: GridPoint, b: GridPoint) -> bool {
    a.y == b.y
}

/// The edge from `a` to `b` runs along a column of the lattice.
pub open spec fn upright(a: GridPoint, b: GridPoint) -> bool {
    a.x == b.x
}

/// The way from `p` over `v` to `q` takes one edge along a row and one along
/// a column: it turns by a right angle at `v`.
pub open spec fn right_angle(p: GridPoint, v: GridPoint, q: GridPoint) -> bool {
    (level(p, v) && upright(v, q)) || (upright(p, v) && level(v, q))
}

/// `path` is a ring of lattice points whose edges run along rows and columns
/// in turn: it turns by a right angle at every vertex.
pub open spec fn turns_everywhere(path: Seq<GridPoint>) -> bool {
    forall|k: int|
        0 <= k < path.len() ==> right_angle(
            #[trigger] path[k],
            path[ring_next(k, path.len() as int)],
            path[ring_next(ring_next(k, path.len() as int), path.len() as int)],
        )
}

/// `v` lies on the straight line from `p` to `q`, between the two.
pub open spec fn strictly_between(p: GridPoint, v: GridPoint, q: GridPoint) -> bool {
    &&& v != p
    &&& v != q
    &&& (v.x - p.x) * (q.y - v.y) == (v.y - p.y) * (q.x - v.x)
    &&& (p.x <= v.x <= q.x || q.x <= v.x <= p.x)
    &&& (p.y <= v.y <= q.y || q.y <= v.y <= p.y)
}

/// `path` is a ring without a vertex on a straight run: no vertex lies on
/// the straight line between the vertex before it and the vertex after it.
pub open spec fn no_straight_run(path: Seq<GridPoint>) -> bool {
    forall|k: int|
        0 <= k < path.len() ==> !strictly_between(
            #[trigger] path[k],
            path[ring_next(k, path.len() as int)],
            path[ring_next(ring_next(k, path.len() as int), path.len() as int)],
        )
}

/// What holds of the outline of a connected contour. Walked anticlockwise,
/// it takes a side of one of the contour's pixels from every vertex to the
/// next. Walked clockwise, it turns by a right angle at every vertex, and so
/// has no vertex on a straight run.
pub open spec fn follows_pixels(
    contour: Seq<PixelPoint>,
    winding: Winding,
    path: Seq<GridPoint>,
) -> bool {
    match winding {
        Winding::Anticlockwise => sides_walk(contour, winding, path) && closed_walk(path),
        Winding::Clockwise => turns_everywhere(path) && no_straight_run(path),
    }
}

/// `path` is a ring of lattice points in which each point is one pixel edge
/// away from the next, and the last from the first.
pub open spec fn closed_walk(path: Seq<GridPoint>) -> bool {
    forall|k: int|
        0 <= k < path.len() ==> unit_step(#[trigger] path[k], path[ring_next(k, path.len() as int)])
}

/// Moves the cursor round `pixel` from `from` to `to` and appends each
/// corner it steps on.
fn walk(out: &mut Vec<GridPoint>, pixel: PixelPoint, winding: Winding, from: Corner, to: Corner)
    ensures
        final(out)@ == old(out)@ + corners_of(pixel, winding.arc(from, to)),
{
    let ghost before = out@;
    let mut cursor = from;
    proof {
        assert(before + corners_of(pixel, Seq::<Corner>::empty()) =~= before);
    }
    while cursor != to
        invariant
            out@ + corners_of(pixel, winding.arc(cursor, to)) == before + corners_of(
                pixel,
                winding.arc(from, to),
            ),
        decreases winding.turns_between(cursor, to),
    {
        let ghost rest = winding.arc(winding.turn(cursor), to);
        proof {
            assert(corners_of(pixel, winding.arc(cursor, to)) =~= seq![
                corner_at(pixel, winding.turn(cursor)),
            ] + corners_of(pixel, rest));
            assert(out@ + (seq![corner_at(pixel, winding.turn(cursor))] + corners_of(pixel, rest))
                =~= out@.push(corner_at(pixel, winding.turn(cursor))) + corners_of(pixel, rest));
        }
        cursor = winding.turn(cursor);
        out.push(corner_coord(&pixel, cursor));
    }
    proof {
        assert(out@ + corners_of(pixel, winding.arc(cursor, to)) =~= out@);
    }
}

/// Turns a contour into its outline.
///
/// The contour is a ring of pixels; the outline is the list of lattice
/// points on which the cursor steps on its way round them. An empty contour
/// has no outline and is refused.
///
/// Where every pixel of the contour touches the next, the outline keeps to
/// the lattice. Anticlockwise it goes from vertex to vertex by one side of
/// one pixel. Clockwise it has a vertex only where it turns, and turns by a
/// right angle at each: a block of pixels gives the corners of the block.
pub fn vectorize(contour: &Vec<PixelPoint>, winding: Winding) -> (result: Result<
    Vec<GridPoint>,
    OutlineError,
>)
    ensures
        contour@.len() == 0 <==> result is Err,
        result matches Ok(vertices) ==> vertices@ == outline(contour@, winding),
        result matches Ok(vertices) ==> connected(contour@) ==> follows_pixels(
            contour@,
            winding,
            vertices@,
        ),
        result matches Err(e) ==> e == OutlineError::EmptyContour,
{
    let n = contour.len();
    if n == 0 {
        return Err(OutlineError::EmptyContour);
    }
    let mut out: Vec<GridPoint> = Vec::new();
    let mut cursor = winding.start();
    let mut i: usize = 0;
    while i < n
        invariant
            n == contour@.len(),
            i <= n,
            out@ == trace(contour@, winding, i as int),
            cursor == cursor_before(contour@, winding, i as int),
        decreases n - i,
    {
        let pixel = contour[i];
        let next = if i + 1 < n {
            contour[i + 1]
        } else {
            contour[0]
        };
        let rule = winding.rule(heading(&pixel, &next));
        walk(&mut out, pixel, winding, cursor, rule.target);
        cursor = rule.carry;
        i = i + 1;
    }
    if n == 1 {
        let a = winding.start();
        let b = winding.turn(a);
        let c = winding.turn(b);
        let d = winding.turn(c);
        out.push(corner_coord(&contour[0], a));
        out.push(corner_coord(&contour[0], b));
        out.push(corner_coord(&contour[0], c));
        out.push(corner_coord(&contour[0], d));
        proof {
            assert(out@ =~= outline(contour@, winding));
        }
    } else {
        walk(&mut out, contour[0], winding, cursor, winding.start());
    }
    proof {
        if connected(contour@) {
            lemma_outline_follows_pixels(contour@, winding);
        }
    }
    Ok(out)
}

/// The outline of a contour that runs anticlockwise: a vertex at every
/// corner of a pixel that the rim of the region passes.
pub fn process_boundaries_anticlockwise(contour: &Vec<PixelPoint>) -> (result: Result<
    Vec<GridPoint>,
    OutlineError,
>)
    ensures
        contour@.len() == 0 <==> result is Err,
        result matches Ok(vertices) ==> vertices@ == outline(contour@, Winding::Anticlockwise),
        result matches Ok(vertices) ==> connected(contour@) ==> sides_walk(
            contour@,
            Winding::Anticlockwise,
            vertices@,
        ) && closed_walk(vertices@),
        result matches Err(e) ==> e == OutlineError::EmptyContour,
{
    vectorize(contour, Winding::Anticlockwise)
}

/// The outline of a contour that runs clockwise: the vertices at which the
/// rim of the region turns, and none on a straight run.
pub fn process_boundaries_clockwise(contour: &Vec<PixelPoint>) -> (result: Result<
    Vec<GridPoint>,
    OutlineError,
>)
    ensures
        contour@.len() == 0 <==> result is Err,
        result matches Ok(vertices) ==> vertices@ == outline(contour@, Winding::Clockwise),
        result matches Ok(vertices) ==> connected(contour@) ==> turns_everywhere(vertices@)
            && no_straight_run(vertices@),
        result matches Err(e) ==> e == OutlineError::EmptyContour,
{
    vectorize(contour, Winding::Clockwise)
}

} // verus!
