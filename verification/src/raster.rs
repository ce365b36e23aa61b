//! Which pixels of a grid lie under an annotation.
//!
//! The annotation lives in world space and only its owner can measure it. The
//! engine asks one question at a time, "how much of this rectangle of pixels
//! is covered?", and turns the answers into the list of covered pixels: a
//! rectangle that is covered whole is taken whole, one that is not touched is
//! dropped, and one that the rim of the annotation crosses is cut into
//! quadrants that are asked about in turn.

use vstd::prelude::*;

verus! {

/// A rectangle of pixels, half-open: columns `x0` up to but not including
/// `x1`, rows `y0` up to but not including `y1`.
#[derive(Clone, Copy, Debug, PartialEq, Eq, Structural)]
pub struct PixelRect {
    pub x0: u32,
    pub y0: u32,
    pub x1: u32,
    pub y1: u32,
}

impl PixelRect {
    /// The rectangle holds no pixel.
    pub open spec fn spec_is_empty(self) -> bool {
        self.x1 <= self.x0 || self.y1 <= self.y0
    }

    /// The rectangle is a single pixel.
    pub open spec fn spec_is_unit(self) -> bool {
        self.x1 == self.x0 + 1 && self.y1 == self.y0 + 1
    }

    /// The pixel in column `x` and row `y` lies in the rectangle.
    pub open spec fn contains(self, x: u32, y: u32) -> bool {
        self.x0 <= x < self.x1 && self.y0 <= y < self.y1
    }

    /// Every pixel of `other` lies in the rectangle.
    pub open spec fn encloses(self, other: PixelRect) -> bool {
        other.spec_is_empty() || (self.x0 <= other.x0 && other.x1 <= self.x1 && self.y0 <= other.y0
            && other.y1 <= self.y1)
    }

    /// The number of columns.
    pub open spec fn width(self) -> nat {
        if self.x1 > self.x0 {
            (self.x1 - self.x0) as nat
        } else {
            0
        }
    }

    /// The number of rows.
    pub open spec fn height(self) -> nat {
        if self.y1 > self.y0 {
            (self.y1 - self.y0) as nat
        } else {
            0
        }
    }

    /// The number of pixels.
    pub open spec fn area(self) -> nat {
        self.width() * self.height()
    }

    /// The column at which the rectangle is cut: the left part gets the
    /// smaller half.
    pub open spec fn mid_x(self) -> u32 {
        (self.x0 + self.width() / 2) as u32
    }

    /// The row at which the rectangle is cut: the upper part gets the smaller
    /// half.
    pub open spec fn mid_y(self) -> u32 {
        (self.y0 + self.height() / 2) as u32
    }

    pub open spec fn top_left(self) -> PixelRect {
        PixelRect { x0: self.x0, y0: self.y0, x1: self.mid_x(), y1: self.mid_y() }
    }

    pub open spec fn top_right(self) -> PixelRect {
        PixelRect { x0: self.mid_x(), y0: self.y0, x1: self.x1, y1: self.mid_y() }
    }

    pub open spec fn bottom_left(self) -> PixelRect {
        PixelRect { x0: self.x0, y0: self.mid_y(), x1: self.mid_x(), y1: self.y1 }
    }

    pub open spec fn bottom_right(self) -> PixelRect {
        PixelRect { x0: self.mid_x(), y0: self.mid_y(), x1: self.x1, y1: self.y1 }
    }

    /// The pixels of row `y`, from left to right.
    pub open spec fn row(self, y: u32) -> Seq<(u32, u32)> {
        Seq::new(self.width(), |i: int| ((self.x0 + i) as u32, y))
    }

    /// The pixels of the first `n` rows, row by row.
    pub open spec fn rows(self, n: nat) -> Seq<(u32, u32)>
        decreases n,
    {
        if n == 0 {
            Seq::empty()
        } else {
            self.rows((n - 1) as nat) + self.row((self.y0 + n - 1) as u32)
        }
    }

    /// All pixels of the rectangle: row by row from the top, each row from
    /// left to right.
    pub open spec fn pixels(self) -> Seq<(u32, u32)> {
        if self.spec_is_empty() {
            Seq::empty()
        } else {
            self.rows(self.height())
        }
    }

    /// The rectangle between two corners.
    pub fn new(from: (u32, u32), to: (u32, u32)) -> (rect: PixelRect)
        ensures
            rect == (PixelRect { x0: from.0, y0: from.1, x1: to.0, y1: to.1 }),
    {
        PixelRect { x0: from.0, y0: from.1, x1: to.0, y1: to.1 }
    }

    #[verifier::when_used_as_spec(spec_is_empty)]
    pub fn is_empty(self) -> (empty: bool)
        ensures
            empty == self.spec_is_empty(),
    {
        self.x1 <= self.x0 || self.y1 <= self.y0
    }

    #[verifier::when_used_as_spec(spec_is_unit)]
    pub fn is_unit(self) -> (unit: bool)
        ensures
            unit == self.spec_is_unit(),
    {
        !self.is_empty() && self.x1 - self.x0 == 1 && self.y1 - self.y0 == 1
    }

    /// The four quadrants, in reading order: top left, top right, bottom
    /// left, bottom right. Some are empty where the rectangle is one pixel
    /// wide or high; all are where the rectangle is.
    pub fn quadrants(self) -> (parts: (PixelRect, PixelRect, PixelRect, PixelRect))
        ensures
            parts.0 == self.top_left(),
            parts.1 == self.top_right(),
            parts.2 == self.bottom_left(),
            parts.3 == self.bottom_right(),
    {
        let mid_x: u32 = if self.x1 > self.x0 {
            self.x0 + (self.x1 - self.x0) / 2
        } else {
            self.x0
        };
        let mid_y: u32 = if self.y1 > self.y0 {
            self.y0 + (self.y1 - self.y0) / 2
        } else {
            self.y0
        };
        (
            PixelRect { x0: self.x0, y0: self.y0, x1: mid_x, y1: mid_y },
            PixelRect { x0: mid_x, y0: self.y0, x1: self.x1, y1: mid_y },
            PixelRect { x0: self.x0, y0: mid_y, x1: mid_x, y1: self.y1 },
            PixelRect { x0: mid_x, y0: mid_y, x1: self.x1, y1: self.y1 },
        )
    }

    /// Appends every pixel of the rectangle to `out`.
    pub fn append_pixels(self, out: &mut Vec<(u32, u32)>)
        ensures
            final(out)@ == old(out)@ + self.pixels(),
    {
        let ghost before = out@;
        if self.is_empty() {
            assert(before + self.pixels() =~= before);
            return ;
        }
        let mut y: u32 = self.y0;
        assert(before + self.rows(0) =~= before);
        while y < self.y1
            invariant
                !self.is_empty(),
                self.y0 <= y <= self.y1,
                out@ == before + self.rows((y - self.y0) as nat),
            decreases self.y1 - y,
        {
            let ghost upper = out@;
            let mut x: u32 = self.x0;
            assert(upper + self.row(y).take(0) =~= upper);
            while x < self.x1
                invariant
                    !self.is_empty(),
                    self.x0 <= x <= self.x1,
                    out@ == upper + self.row(y).take(x - self.x0),
                decreases self.x1 - x,
            {
                assert(self.row(y).take(x - self.x0 + 1) =~= self.row(y).take(x - self.x0).push(
                    (x, y),
                ));
                out.push((x, y));
                assert(out@ =~= upper + self.row(y).take(x - self.x0 + 1));
                x = x + 1;
            }
            assert(self.row(y).take(self.x1 - self.x0) =~= self.row(y));
            assert(self.rows((y + 1 - self.y0) as nat) == self.rows((y - self.y0) as nat) + self.row(y));
            assert(out@ =~= before + self.rows((y + 1 - self.y0) as nat));
            y = y + 1;
        }
    }
}

/// The grid of the image that a query is about.
#[derive(Clone, Copy, Debug, PartialEq, Eq, Structural)]
pub struct PixelAnnotationConf {
    pub width: u32,
    pub height: u32,
}

/// A point of pixel space as the map to world space takes it: measured from
/// the centre of the image, in half pixels, so that the centre of an image
/// with an odd number of columns is still a whole number.
#[derive(Clone, Copy, Debug, PartialEq, Eq, Structural)]
pub struct CentredPoint {
    pub twice_x: i64,
    pub twice_y: i64,
}

/// The four corners of a rectangle, in the order in which they are joined.
#[derive(Clone, Copy, Debug, PartialEq, Eq, Structural)]
pub struct Quad {
    pub top_left: CentredPoint,
    pub top_right: CentredPoint,
    pub bottom_right: CentredPoint,
    pub bottom_left: CentredPoint,
}

impl PixelAnnotationConf {
    /// The lattice point `(x, y)` as seen from the centre of the image.
    pub open spec fn centred(self, x: u32, y: u32) -> CentredPoint {
        CentredPoint { twice_x: (2 * x - self.width) as i64, twice_y: (2 * y - self.height) as i64 }
    }

    /// The corners of `rect` as seen from the centre of the image: the
    /// quadrilateral whose image in world space is held against the
    /// annotation.
    pub fn corners(&self, rect: &PixelRect) -> (quad: Quad)
        ensures
            quad.top_left == self.centred(rect.x0, rect.y0),
            quad.top_right == self.centred(rect.x1, rect.y0),
            quad.bottom_right == self.centred(rect.x1, rect.y1),
            quad.bottom_left == self.centred(rect.x0, rect.y1),
    {
        let w: i64 = self.width as i64;
        let h: i64 = self.height as i64;
        let left: i64 = 2 * (rect.x0 as i64) - w;
        let right: i64 = 2 * (rect.x1 as i64) - w;
        let top: i64 = 2 * (rect.y0 as i64) - h;
        let bottom: i64 = 2 * (rect.y1 as i64) - h;
        Quad {
            top_left: CentredPoint { twice_x: left, twice_y: top },
            top_right: CentredPoint { twice_x: right, twice_y: top },
            bottom_right: CentredPoint { twice_x: right, twice_y: bottom },
            bottom_left: CentredPoint { twice_x: left, twice_y: bottom },
        }
    }
}

/// How much of a rectangle of pixels an annotation covers.
#[derive(Clone, Copy, Debug, PartialEq, Eq, Structural)]
pub enum Coverage {
    /// The annotation covers the rectangle whole.
    Inside,
    /// The annotation does not reach into the rectangle.
    Outside,
    /// The rim of the annotation crosses the rectangle.
    Straddling,
}

/// The outline of one polygon, by its counts alone: the vertices of its outer
/// ring as they are stored, and the holes cut into it.
#[derive(Clone, Copy, Debug, PartialEq, Eq, Structural)]
pub struct PolygonShape {
    pub exterior_len: usize,
    pub holes: usize,
}

/// What remains of a rectangle once the annotation is taken away from it
/// tells how much of it was covered. Nothing remains: it was covered whole.
/// One polygon without holes remains, with as many vertices as the rectangle
/// had: it was not touched. Anything else: the rim crosses it.
pub open spec fn coverage_of(remainder: Seq<PolygonShape>, rectangle_len: usize) -> Coverage {
    if remainder.len() == 0 {
        Coverage::Inside
    } else if remainder.len() == 1 && remainder[0].holes == 0 && remainder[0].exterior_len
        == rectangle_len {
        Coverage::Outside
    } else {
        Coverage::Straddling
    }
}

/// Reads the coverage of a rectangle off what remains of it once the
/// annotation is taken away: `remainder` holds the polygons of that
/// difference, `rectangle_len` the number of vertices with which the
/// rectangle itself is stored.
///
/// The count of vertices is a sign that the rectangle was not touched, not a
/// proof of it: where the rim cuts the rectangle from one side to the side
/// opposite, what remains has as many vertices as the rectangle, and the
/// rectangle is taken to lie outside.
pub fn classify(remainder: &Vec<PolygonShape>, rectangle_len: usize) -> (coverage: Coverage)
    ensures
        coverage == coverage_of(remainder@, rectangle_len),
{
    if remainder.len() == 0 {
        Coverage::Inside
    } else if remainder.len() == 1 && remainder[0].holes == 0 && remainder[0].exterior_len
        == rectangle_len {
        Coverage::Outside
    } else {
        Coverage::Straddling
    }
}

/// The pixels that a query over `rect` selects, given the coverage of every
/// rectangle. A rectangle that lies inside gives all its pixels, one that
/// lies outside gives none, and one that straddles the rim gives what its
/// four quadrants give, top left, top right, bottom left, bottom right. A
/// single pixel that straddles the rim is not selected.
pub open spec fn membership(oracle: spec_fn(PixelRect) -> Coverage, rect: PixelRect) -> Seq<
    (u32, u32),
>
    decreases rect.width() + rect.height(),
{
    if rect.is_empty() {
        Seq::empty()
    } else {
        match oracle(rect) {
            Coverage::Inside => rect.pixels(),
            Coverage::Outside => Seq::empty(),
            Coverage::Straddling => if rect.is_unit() {
                Seq::empty()
            } else {
                membership(oracle, rect.top_left()) + membership(oracle, rect.top_right())
                    + membership(oracle, rect.bottom_left()) + membership(
                    oracle,
                    rect.bottom_right(),
                )
            },
        }
    }
}

/// The rectangles about which a query over `rect` asks, given the coverage
/// of every rectangle: `rect` itself where it holds a pixel, and, where it
/// straddles the rim and is more than a pixel, those about which the queries
/// over its quadrants ask.
pub open spec fn asked(
    oracle: spec_fn(PixelRect) -> Coverage,
    rect: PixelRect,
    part: PixelRect,
) -> bool
    decreases rect.width() + rect.height(),
{
    if rect.is_empty() {
        false
    } else if part == rect {
        true
    } else if oracle(rect) == Coverage::Straddling && !rect.is_unit() {
        asked(oracle, rect.top_left(), part) || asked(oracle, rect.top_right(), part) || asked(
            oracle,
            rect.bottom_left(),
            part,
        ) || asked(oracle, rect.bottom_right(), part)
    } else {
        false
    }
}

/// How deep a query over `rect` cuts: nothing where the rectangle is not
/// cut, and one more than the deepest of its quadrants where it is.
pub open spec fn depth(oracle: spec_fn(PixelRect) -> Coverage, rect: PixelRect) -> nat
    decreases rect.width() + rect.height(),
{
    if rect.is_empty() || rect.is_unit() || oracle(rect) != Coverage::Straddling {
        0
    } else {
        let upper = if depth(oracle, rect.top_left()) >= depth(oracle, rect.top_right()) {
            depth(oracle, rect.top_left())
        } else {
            depth(oracle, rect.top_right())
        };
        let lower = if depth(oracle, rect.bottom_left()) >= depth(oracle, rect.bottom_right()) {
            depth(oracle, rect.bottom_left())
        } else {
            depth(oracle, rect.bottom_right())
        };
        if upper >= lower {
            upper + 1
        } else {
            lower + 1
        }
    }
}

/// A rectangle as a stack entry: nothing where it is empty.
pub open spec fn entry(rect: PixelRect) -> Seq<PixelRect> {
    if rect.is_empty() {
        Seq::empty()
    } else {
        seq![rect]
    }
}

/// The rectangles that take the place of one that straddles the rim: its
/// quadrants that hold a pixel, the top left one last, so that a stack hands
/// it out first. A single pixel is not cut further.
pub open spec fn split(rect: PixelRect) -> Seq<PixelRect> {
    if rect.is_unit() {
        Seq::empty()
    } else {
        entry(rect.bottom_right()) + entry(rect.bottom_left()) + entry(rect.top_right()) + entry(
            rect.top_left(),
        )
    }
}

/// The pixels that a stack of rectangles will give, the last rectangle
/// first.
pub open spec fn flush(oracle: spec_fn(PixelRect) -> Coverage, stack: Seq<PixelRect>) -> Seq<
    (u32, u32),
>
    decreases stack.len(),
{
    if stack.len() == 0 {
        Seq::empty()
    } else {
        membership(oracle, stack.last()) + flush(oracle, stack.drop_last())
    }
}

/// The work that one rectangle can still cause, in questions: fewer than
/// twice its area.
pub open spec fn effort(rect: PixelRect) -> nat {
    if rect.is_empty() {
        0
    } else {
        (2 * rect.area() - 1) as nat
    }
}

/// The work that a stack of rectangles can still cause.
pub open spec fn backlog(stack: Seq<PixelRect>) -> nat
    decreases stack.len(),
{
    if stack.len() == 0 {
        0
    } else {
        effort(stack.last()) + backlog(stack.drop_last())
    }
}

/// The stack of rectangles after an answer. The answer is for the last
/// rectangle, which leaves the stack; where it straddles the rim, its
/// quadrants take its place. An empty stack stays empty.
pub open spec fn pending_after(pending: Seq<PixelRect>, coverage: Coverage) -> Seq<PixelRect> {
    if pending.len() == 0 {
        pending
    } else {
        match coverage {
            Coverage::Inside => pending.drop_last(),
            Coverage::Outside => pending.drop_last(),
            Coverage::Straddling => pending.drop_last() + split(pending.last()),
        }
    }
}

/// The pixels found after an answer: those of the last rectangle are added
/// where it lies inside.
pub open spec fn found_after(
    pending: Seq<PixelRect>,
    found: Seq<(u32, u32)>,
    coverage: Coverage,
) -> Seq<(u32, u32)> {
    if pending.len() > 0 && coverage == Coverage::Inside {
        found + pending.last().pixels()
    } else {
        found
    }
}

/// What is known of the map from pixels to world space before a query.
#[derive(Clone, Copy, Debug, PartialEq, Eq, Structural)]
pub enum TransformCheck {
    /// The map is invertible and takes the corners of the grid to finite
    /// points.
    Regular,
    /// The map flattens the grid onto a line or a point.
    Singular,
    /// The map takes a corner of the grid to a point that is not finite.
    NonFinite,
}

/// Why a query was refused.
#[derive(Clone, Copy, Debug, PartialEq, Eq, Structural)]
pub enum MembershipError {
    SingularTransform,
    NonFiniteTransform,
}

/// A query in progress: the rectangles that are still to be asked about, and
/// the pixels found so far.
pub struct PixelMembership {
    pending: Vec<PixelRect>,
    pixels: Vec<(u32, u32)>,
}

impl PixelMembership {
    /// The rectangles still to be asked about. The last one is next.
    pub closed spec fn pending(&self) -> Seq<PixelRect> {
        self.pending@
    }

    /// The pixels found so far.
    pub closed spec fn found(&self) -> Seq<(u32, u32)> {
        self.pixels@
    }

    /// No rectangle that holds no pixel waits to be asked about.
    pub open spec fn wf(&self) -> bool {
        forall|i: int| 0 <= i < self.pending().len() ==> !(#[trigger] self.pending()[i]).is_empty()
    }

    /// The pixels that the query ends with if every answer still to come is
    /// the one that `oracle` gives.
    pub open spec fn outcome(&self, oracle: spec_fn(PixelRect) -> Coverage) -> Seq<(u32, u32)> {
        self.found() + flush(oracle, self.pending())
    }

    /// An upper bound on the number of answers that the query still needs.
    pub open spec fn work_left(&self) -> nat {
        backlog(self.pending())
    }

    /// Begins a query over the pixels from `from` up to, not including, `to`.
    ///
    /// A map to world space that is singular or not finite is refused before
    /// any question is asked. Otherwise the whole rectangle is the first
    /// question, unless it holds no pixel: then the query is over at once.
    pub fn new(from: (u32, u32), to: (u32, u32), transform: TransformCheck) -> (result: Result<
        PixelMembership,
        MembershipError,
    >)
        ensures
            match transform {
                TransformCheck::Regular => result matches Ok(query) && query.wf()
                    && query.found() == Seq::<(u32, u32)>::empty() && query.pending() == entry(
                    PixelRect { x0: from.0, y0: from.1, x1: to.0, y1: to.1 },
                ),
                TransformCheck::Singular => result matches Err(e) && e
                    == MembershipError::SingularTransform,
                TransformCheck::NonFinite => result matches Err(e) && e
                    == MembershipError::NonFiniteTransform,
            },
    {
        match transform {
            TransformCheck::Singular => Err(MembershipError::SingularTransform),
            TransformCheck::NonFinite => Err(MembershipError::NonFiniteTransform),
            TransformCheck::Regular => {
                let rect = PixelRect::new(from, to);
                let mut pending: Vec<PixelRect> = Vec::new();
                if !rect.is_empty() {
                    pending.push(rect);
                }
                assert(pending@ =~= entry(rect));
                Ok(PixelMembership { pending, pixels: Vec::new() })
            },
        }
    }

    /// The rectangle to ask about next, or `None` when the query is over.
    pub fn next_rect(&self) -> (next: Option<PixelRect>)
        ensures
            self.pending().len() == 0 <==> next is None,
            next matches Some(rect) ==> rect == self.pending().last(),
    {
        if self.pending.len() == 0 {
            None
        } else {
            Some(self.pending[self.pending.len() - 1])
        }
    }

    /// Whether every question has been answered.
    pub fn is_done(&self) -> (done: bool)
        ensures
            done == (self.pending().len() == 0),
    {
        self.pending.len() == 0
    }

    /// The pixels found so far, in the order in which they were found.
    pub fn pixels(&self) -> (pixels: &Vec<(u32, u32)>)
        ensures
            pixels@ == self.found(),
    {
        &self.pixels
    }

    /// Ends the query and hands out the pixels found.
    pub fn into_pixels(self) -> (pixels: Vec<(u32, u32)>)
        ensures
            pixels@ == self.found(),
    {
        self.pixels
    }

    /// Takes the answer to the question that `next_rect` posed.
    ///
    /// `Inside` adds every pixel of the rectangle to those found, `Outside`
    /// adds none, and `Straddling` puts the quadrants of the rectangle in its
    /// place, or nothing where it is a single pixel. Without a question open,
    /// nothing changes.
    pub fn resolve(&mut self, coverage: Coverage)
        requires
            old(self).wf(),
        ensures
            final(self).wf(),
            final(self).pending() == pending_after(old(self).pending(), coverage),
            final(self).found() == found_after(old(self).pending(), old(self).found(), coverage),
            forall|oracle: spec_fn(PixelRect) -> Coverage|
                old(self).pending().len() > 0 && oracle(old(self).pending().last()) == coverage
                    ==> #[trigger] final(self).outcome(oracle) == old(self).outcome(oracle),
            old(self).pending().len() > 0 ==> final(self).work_left() < old(self).work_left(),
    {
        let ghost before = *self;
        let popped = self.pending.pop();
        let top = match popped {
            None => {
                return ;
            },
            Some(rect) => rect,
        };
        let ghost rest = self.pending@;
        assert(before.pending() =~= rest.push(top));
        assert(!top.is_empty());
        match coverage {
            Coverage::Inside => {
                top.append_pixels(&mut self.pixels);
            },
            Coverage::Outside => {},
            Coverage::Straddling => {
                if !top.is_unit() {
                    let (top_left, top_right, bottom_left, bottom_right) = top.quadrants();
                    if !bottom_right.is_empty() {
                        self.pending.push(bottom_right);
                    }
                    if !bottom_left.is_empty() {
                        self.pending.push(bottom_left);
                    }
                    if !top_right.is_empty() {
                        self.pending.push(top_right);
                    }
                    if !top_left.is_empty() {
                        self.pending.push(top_left);
                    }
                }
                assert(self.pending@ =~= rest + split(top));
            },
        }
        proof {
            lemma_split_effort(top);
            lemma_backlog_concat(rest, split(top));
            lemma_backlog_concat(rest, seq![top]);
            assert(backlog(seq![top]) == effort(top)) by {
                assert(seq![top].drop_last() =~= Seq::<PixelRect>::empty());
                reveal_with_fuel(backlog, 2);
            }
            assert(rest.push(top) =~= rest + seq![top]);
            assert(rest.push(top).drop_last() =~= rest);
            assert forall|oracle: spec_fn(PixelRect) -> Coverage|
                oracle(top) == coverage implies #[trigger] self.outcome(oracle) == before.outcome(
                oracle,
            ) by {
                lemma_flush_concat(oracle, rest, split(top));
                lemma_split_flush(oracle, top);
                assert(flush(oracle, rest.push(top)) == membership(oracle, top) + flush(
                    oracle,
                    rest,
                ));
                assert(self.outcome(oracle) =~= before.outcome(oracle));
            }
        }
    }
}

/// A stack gives what its upper part gives and then what its lower part
/// gives.
proof fn lemma_flush_concat(
    oracle: spec_fn(PixelRect) -> Coverage,
    lower: Seq<PixelRect>,
    upper: Seq<PixelRect>,
)
    ensures
        flush(oracle, lower + upper) == flush(oracle, upper) + flush(oracle, lower),
    decreases upper.len(),
{
    if upper.len() == 0 {
        assert(lower + upper =~= lower);
        assert(flush(oracle, upper) + flush(oracle, lower) =~= flush(oracle, lower));
    } else {
        assert((lower + upper).drop_last() =~= lower + upper.drop_last());
        assert((lower + upper).last() == upper.last());
        lemma_flush_concat(oracle, lower, upper.drop_last());
        assert(flush(oracle, lower + upper) =~= flush(oracle, upper) + flush(oracle, lower));
    }
}

proof fn lemma_flush_entry(oracle: spec_fn(PixelRect) -> Coverage, rect: PixelRect)
    ensures
        flush(oracle, entry(rect)) == membership(oracle, rect),
{
    if rect.is_empty() {
        assert(flush(oracle, entry(rect)) =~= membership(oracle, rect));
    } else {
        assert(entry(rect).drop_last() =~= Seq::<PixelRect>::empty());
        assert(flush(oracle, entry(rect).drop_last()) =~= Seq::<(u32, u32)>::empty());
        assert(flush(oracle, entry(rect)) =~= membership(oracle, rect));
    }
}

/// The quadrants of a rectangle, stacked, give what the rectangle gives where
/// it straddles the rim.
proof fn lemma_split_flush(oracle: spec_fn(PixelRect) -> Coverage, rect: PixelRect)
    requires
        !rect.is_empty(),
    ensures
        oracle(rect) == Coverage::Straddling ==> flush(oracle, split(rect)) == membership(
            oracle,
            rect,
        ),
{
    if oracle(rect) == Coverage::Straddling {
        if rect.is_unit() {
            assert(flush(oracle, split(rect)) =~= membership(oracle, rect));
        } else {
            let a = entry(rect.bottom_right());
            let b = entry(rect.bottom_left());
            let c = entry(rect.top_right());
            let d = entry(rect.top_left());
            lemma_flush_concat(oracle, a + b + c, d);
            lemma_flush_concat(oracle, a + b, c);
            lemma_flush_concat(oracle, a, b);
            lemma_flush_entry(oracle, rect.bottom_right());
            lemma_flush_entry(oracle, rect.bottom_left());
            lemma_flush_entry(oracle, rect.top_right());
            lemma_flush_entry(oracle, rect.top_left());
            assert(flush(oracle, split(rect)) =~= membership(oracle, rect));
        }
    }
}

proof fn lemma_backlog_concat(lower: Seq<PixelRect>, upper: Seq<PixelRect>)
    ensures
        backlog(lower + upper) == backlog(lower) + backlog(upper),
    decreases upper.len(),
{
    if upper.len() == 0 {
        assert(lower + upper =~= lower);
    } else {
        assert((lower + upper).drop_last() =~= lower + upper.drop_last());
        assert((lower + upper).last() == upper.last());
        lemma_backlog_concat(lower, upper.drop_last());
    }
}

proof fn lemma_backlog_entry(rect: PixelRect)
    ensures
        backlog(entry(rect)) == effort(rect),
{
    if !rect.is_empty() {
        assert(entry(rect).drop_last() =~= Seq::<PixelRect>::empty());
        reveal_with_fuel(backlog, 2);
    }
}

/// The quadrants of a rectangle hold its pixels between them.
pub proof fn lemma_quadrant_areas(rect: PixelRect)
    requires
        !rect.is_empty(),
    ensures
        rect.top_left().area() + rect.top_right().area() + rect.bottom_left().area()
            + rect.bottom_right().area() == rect.area(),
{
    let w = rect.width() as int;
    let h = rect.height() as int;
    let wl = w / 2;
    let hu = h / 2;
    assert(rect.top_left().width() == wl && rect.top_left().height() == hu);
    assert(rect.top_right().width() == w - wl && rect.top_right().height() == hu);
    assert(rect.bottom_left().width() == wl && rect.bottom_left().height() == h - hu);
    assert(rect.bottom_right().width() == w - wl && rect.bottom_right().height() == h - hu);
    assert(wl * hu + (w - wl) * hu + wl * (h - hu) + (w - wl) * (h - hu) == w * h)
        by (nonlinear_arith);
}

/// Cutting a rectangle leaves less work than the rectangle itself.
proof fn lemma_split_effort(rect: PixelRect)
    requires
        !rect.is_empty(),
    ensures
        backlog(split(rect)) < effort(rect),
{
    let w = rect.width() as int;
    let h = rect.height() as int;
    assert(w * h >= 1) by (nonlinear_arith)
        requires
            w >= 1,
            h >= 1,
    ;
    if rect.is_unit() {
        assert(w * h == 1) by (nonlinear_arith)
            requires
                w == 1,
                h == 1,
        ;
    } else {
        let a = entry(rect.bottom_right());
        let b = entry(rect.bottom_left());
        let c = entry(rect.top_right());
        let d = entry(rect.top_left());
        lemma_backlog_concat(a + b + c, d);
        lemma_backlog_concat(a + b, c);
        lemma_backlog_concat(a, b);
        lemma_backlog_entry(rect.bottom_right());
        lemma_backlog_entry(rect.bottom_left());
        lemma_backlog_entry(rect.top_right());
        lemma_backlog_entry(rect.top_left());
        lemma_quadrant_areas(rect);
        // The bottom right quadrant always holds a pixel; so does the top
        // right one or the bottom left one, as the rectangle is more than
        // one pixel.
        assert(!rect.bottom_right().is_empty());
        assert(!rect.top_right().is_empty() || !rect.bottom_left().is_empty());
        lemma_area_positive(rect.bottom_right());
        lemma_area_positive(rect.top_right());
        lemma_area_positive(rect.bottom_left());
        lemma_area_positive(rect.top_left());
    }
}

proof fn lemma_area_positive(rect: PixelRect)
    ensures
        rect.is_empty() ==> rect.area() == 0,
        !rect.is_empty() ==> rect.area() >= 1,
{
    let w = rect.width() as int;
    let h = rect.height() as int;
    if rect.is_empty() {
        assert(w * h == 0) by (nonlinear_arith)
            requires
                w == 0 || h == 0,
        ;
    } else {
        assert(w * h >= 1) by (nonlinear_arith)
            requires
                w >= 1,
                h >= 1,
        ;
    }
}

} // verus!
