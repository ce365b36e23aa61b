//! What an outline is good for: where its vertices lie, and how it runs
//! from each to the next.

use crate::corner::{corner_at, Corner, GridPoint, PixelPoint};
use crate::outline::{
    closed_walk, closing, connected, corners_of, cursor_before, follows_pixels, heading_of, leg,
    level, no_straight_run, outline, right_angle, ring_next, side_of, sides_walk,
    strictly_between, successor, target_at, touching, trace, turns_everywhere, unit_step, upright,
    Heading, Winding,
};
use vstd::prelude::*;

verus! {

/// `path` leads from `origin` to `end` along sides of the contour's pixels:
/// its first point is one side away from `origin`, each further point one
/// side from the point before it, and its last point is `end`. The empty
/// path leads from a point to itself.
spec fn leads(
    contour: Seq<PixelPoint>,
    winding: Winding,
    origin: GridPoint,
    path: Seq<GridPoint>,
    end: GridPoint,
) -> bool {
    if path.len() == 0 {
        end == origin
    } else {
        &&& side_of(contour, winding, origin, path[0])
        &&& forall|k: int|
            0 <= k < path.len() - 1 ==> side_of(contour, winding, #[trigger] path[k], path[k + 1])
        &&& path[path.len() - 1] == end
    }
}

/// `v` is a corner of one of the contour's pixels.
pub open spec fn on_contour(contour: Seq<PixelPoint>, v: GridPoint) -> bool {
    exists|i: int, c: Corner| 0 <= i < contour.len() && v == #[trigger] corner_at(contour[i], c)
}

/// A side of a pixel is one pixel long and parallel to an axis.
pub proof fn lemma_side_is_unit_step(
    contour: Seq<PixelPoint>,
    winding: Winding,
    a: GridPoint,
    b: GridPoint,
)
    requires
        side_of(contour, winding, a, b),
    ensures
        unit_step(a, b),
{
    let (i, c) = choose|i: int, c: Corner|
        0 <= i < contour.len() && a == corner_at(contour[i], c) && b == #[trigger] corner_at(
            contour[i],
            winding.turn(c),
        );
    assert(unit_step(corner_at(contour[i], c), corner_at(contour[i], winding.turn(c))));
}

/// A walk along sides of pixels is a closed walk along pixel edges.
pub proof fn lemma_sides_walk_is_closed_walk(
    contour: Seq<PixelPoint>,
    winding: Winding,
    path: Seq<GridPoint>,
)
    requires
        sides_walk(contour, winding, path),
    ensures
        closed_walk(path),
{
    assert forall|k: int| 0 <= k < path.len() implies unit_step(
        #[trigger] path[k],
        path[ring_next(k, path.len() as int)],
    ) by {
        lemma_side_is_unit_step(contour, winding, path[k], path[ring_next(k, path.len() as int)]);
    }
}

proof fn lemma_leads_concat(
    contour: Seq<PixelPoint>,
    winding: Winding,
    origin: GridPoint,
    a: Seq<GridPoint>,
    middle: GridPoint,
    b: Seq<GridPoint>,
    end: GridPoint,
)
    requires
        leads(contour, winding, origin, a, middle),
        leads(contour, winding, middle, b, end),
    ensures
        leads(contour, winding, origin, a + b, end),
{
    let path = a + b;
    if a.len() == 0 {
        assert(path =~= b);
    } else if b.len() == 0 {
        assert(path =~= a);
    } else {
        assert(path[0] == a[0]);
        assert forall|k: int| 0 <= k < path.len() - 1 implies side_of(
            contour,
            winding,
            #[trigger] path[k],
            path[k + 1],
        ) by {
            if k < a.len() - 1 {
                assert(path[k] == a[k] && path[k + 1] == a[k + 1]);
            } else if k == a.len() - 1 {
                assert(path[k] == middle && path[k + 1] == b[0]);
            } else {
                assert(path[k] == b[k - a.len()] && path[k + 1] == b[k - a.len() + 1]);
            }
        }
    }
}

proof fn lemma_arc_leads(
    contour: Seq<PixelPoint>,
    winding: Winding,
    i: int,
    from: Corner,
    to: Corner,
)
    requires
        0 <= i < contour.len(),
    ensures
        leads(
            contour,
            winding,
            corner_at(contour[i], from),
            corners_of(contour[i], winding.arc(from, to)),
            corner_at(contour[i], to),
        ),
    decreases winding.turns_between(from, to),
{
    if from != to {
        let pixel = contour[i];
        let next = winding.turn(from);
        lemma_arc_leads(contour, winding, i, next, to);
        let head = seq![corner_at(pixel, next)];
        assert(corners_of(pixel, winding.arc(from, to)) =~= head + corners_of(
            pixel,
            winding.arc(next, to),
        ));
        assert(side_of(contour, winding, corner_at(pixel, from), corner_at(pixel, next)));
        assert(leads(contour, winding, corner_at(pixel, from), head, corner_at(pixel, next)));
        lemma_leads_concat(
            contour,
            winding,
            corner_at(pixel, from),
            head,
            corner_at(pixel, next),
            corners_of(pixel, winding.arc(next, to)),
            corner_at(pixel, to),
        );
    }
}

/// Anticlockwise, where the walk leaves one pixel is where it enters the
/// next: the target corner on a pixel and the carried corner on a pixel that
/// touches it are one lattice point. Clockwise the same holds between pixels
/// that do not touch by a side.
pub proof fn lemma_rule_hands_over(winding: Winding, from: PixelPoint, to: PixelPoint)
    requires
        touching(from, to),
        winding == Winding::Anticlockwise || (from.x != to.x && from.y != to.y) || from == to,
    ensures
        corner_at(from, winding.rule(heading_of(from, to)).target) == corner_at(
            to,
            winding.rule(heading_of(from, to)).carry,
        ),
{
}

proof fn lemma_trace_leads(contour: Seq<PixelPoint>, winding: Winding, n: int)
    requires
        winding == Winding::Anticlockwise,
        connected(contour),
        0 <= n <= contour.len(),
        contour.len() > 0,
    ensures
        leads(
            contour,
            winding,
            corner_at(contour[0], winding.start()),
            trace(contour, winding, n),
            corner_at(
                if n < contour.len() {
                    contour[n]
                } else {
                    contour[0]
                },
                cursor_before(contour, winding, n),
            ),
        ),
    decreases n,
{
    if n > 0 {
        let i = n - 1;
        lemma_trace_leads(contour, winding, i);
        let from = cursor_before(contour, winding, i);
        let to = target_at(contour, winding, i);
        lemma_arc_leads(contour, winding, i, from, to);
        assert(touching(contour[i], successor(contour, i)));
        lemma_rule_hands_over(winding, contour[i], successor(contour, i));
        lemma_leads_concat(
            contour,
            winding,
            corner_at(contour[0], winding.start()),
            trace(contour, winding, i),
            corner_at(contour[i], from),
            leg(contour, winding, i),
            corner_at(contour[i], to),
        );
    }
}

proof fn lemma_round_trip_is_ring(
    contour: Seq<PixelPoint>,
    winding: Winding,
    origin: GridPoint,
    path: Seq<GridPoint>,
)
    requires
        leads(contour, winding, origin, path, origin),
    ensures
        sides_walk(contour, winding, path),
{
    assert forall|k: int| 0 <= k < path.len() implies side_of(
        contour,
        winding,
        #[trigger] path[k],
        path[ring_next(k, path.len() as int)],
    ) by {
        if k + 1 < path.len() {
            assert(side_of(contour, winding, path[k], path[k + 1]));
        } else {
            assert(path[k] == origin);
            assert(side_of(contour, winding, origin, path[0]));
        }
    }
}

proof fn lemma_single_pixel_walks_sides(contour: Seq<PixelPoint>, winding: Winding)
    requires
        contour.len() == 1,
    ensures
        sides_walk(contour, winding, outline(contour, winding)),
{
    let pixel = contour[0];
    assert(contour =~= seq![pixel]);
    lemma_single_pixel_outline(pixel, winding);
    let path = outline(contour, winding);
    let lap = winding.lap();
    assert(path.len() == 4);
    assert forall|k: int| 0 <= k < path.len() implies side_of(
        contour,
        winding,
        #[trigger] path[k],
        path[ring_next(k, path.len() as int)],
    ) by {
        assert(path[k] == corner_at(contour[0], lap[k]));
        assert(path[ring_next(k, 4)] == corner_at(contour[0], winding.turn(lap[k])));
    }
}

proof fn lemma_longer_contour_walks_sides(contour: Seq<PixelPoint>, winding: Winding)
    requires
        winding == Winding::Anticlockwise,
        contour.len() > 1,
        connected(contour),
    ensures
        sides_walk(contour, winding, outline(contour, winding)),
{
    let len = contour.len() as int;
    let origin = corner_at(contour[0], winding.start());
    lemma_trace_leads(contour, winding, len);
    lemma_arc_leads(contour, winding, 0, cursor_before(contour, winding, len), winding.start());
    lemma_leads_concat(
        contour,
        winding,
        origin,
        trace(contour, winding, len),
        corner_at(contour[0], cursor_before(contour, winding, len)),
        closing(contour, winding),
        origin,
    );
    lemma_round_trip_is_ring(contour, winding, origin, outline(contour, winding));
}

/// Walked anticlockwise, the outline of a connected contour runs along sides
/// of its pixels: from every vertex to the one that follows it, and from the
/// last to the first, it takes one side of one pixel of the contour, in the
/// sense of the walk. So it is a closed walk along pixel edges, each one
/// pixel long and parallel to an axis, and it never cuts through a pixel.
pub proof fn lemma_outline_walks_sides(contour: Seq<PixelPoint>)
    requires
        contour.len() > 0,
        connected(contour),
    ensures
        sides_walk(contour, Winding::Anticlockwise, outline(contour, Winding::Anticlockwise)),
        closed_walk(outline(contour, Winding::Anticlockwise)),
{
    let winding = Winding::Anticlockwise;
    if contour.len() == 1 {
        lemma_single_pixel_walks_sides(contour, winding);
    } else {
        lemma_longer_contour_walks_sides(contour, winding);
    }
    lemma_sides_walk_is_closed_walk(contour, winding, outline(contour, winding));
}

/// The cursor on `corner` goes on along a row: clockwise, the step from the
/// top left corner and the step from the bottom right one run along a row,
/// the other two along a column.
pub open spec fn moves_level(corner: Corner) -> bool {
    corner == Corner::TopLeft || corner == Corner::BottomRight
}

/// `a` and `b` lie on one line of the lattice, of the kind along which the
/// cursor on `corner` goes on.
spec fn aligned(a: GridPoint, b: GridPoint, corner: Corner) -> bool {
    if moves_level(corner) {
        level(a, b)
    } else {
        upright(a, b)
    }
}

/// `path` takes the cursor from `origin`, where it stands on the corner
/// `from`, to `end`, where it stands on the corner `to`, by rows and columns
/// in turn. `corners` names the corner on which each vertex lies. Every edge
/// runs along the line on which the cursor goes on from the vertex before,
/// and at every vertex the kind of line changes; where the cursor is carried
/// without a vertex, it keeps to its line.
spec fn glides(
    origin: GridPoint,
    from: Corner,
    path: Seq<GridPoint>,
    corners: Seq<Corner>,
    end: GridPoint,
    to: Corner,
) -> bool {
    &&& path.len() == corners.len()
    &&& if path.len() == 0 {
        aligned(origin, end, from) && moves_level(to) == moves_level(from)
    } else {
        &&& aligned(origin, path[0], from)
        &&& moves_level(corners[0]) != moves_level(from)
        &&& forall|k: int|
            0 <= k < path.len() - 1 ==> aligned(#[trigger] path[k], path[k + 1], corners[k])
                && moves_level(corners[k + 1]) != moves_level(corners[k])
        &&& aligned(path[path.len() - 1], end, corners[corners.len() - 1])
        &&& moves_level(to) == moves_level(corners[corners.len() - 1])
    }
}

proof fn lemma_glides_concat(
    origin: GridPoint,
    from: Corner,
    a: Seq<GridPoint>,
    a_corners: Seq<Corner>,
    middle: GridPoint,
    over: Corner,
    b: Seq<GridPoint>,
    b_corners: Seq<Corner>,
    end: GridPoint,
    to: Corner,
)
    requires
        glides(origin, from, a, a_corners, middle, over),
        glides(middle, over, b, b_corners, end, to),
    ensures
        glides(origin, from, a + b, a_corners + b_corners, end, to),
{
    let path = a + b;
    let corners = a_corners + b_corners;
    if a.len() == 0 {
        assert(path =~= b);
        assert(corners =~= b_corners);
    } else if b.len() == 0 {
        assert(path =~= a);
        assert(corners =~= a_corners);
    } else {
        assert(path[0] == a[0] && corners[0] == a_corners[0]);
        assert(path[path.len() - 1] == b[b.len() - 1]);
        assert(corners[corners.len() - 1] == b_corners[b_corners.len() - 1]);
        assert forall|k: int| 0 <= k < path.len() - 1 implies aligned(
            #[trigger] path[k],
            path[k + 1],
            corners[k],
        ) && moves_level(corners[k + 1]) != moves_level(corners[k]) by {
            if k < a.len() - 1 {
                assert(path[k] == a[k] && path[k + 1] == a[k + 1]);
                assert(corners[k] == a_corners[k] && corners[k + 1] == a_corners[k + 1]);
            } else if k == a.len() - 1 {
                assert(path[k] == a[a.len() - 1] && path[k + 1] == b[0]);
                assert(corners[k] == a_corners[a.len() - 1] && corners[k + 1] == b_corners[0]);
            } else {
                let j = k - a.len();
                assert(path[k] == b[j] && path[k + 1] == b[j + 1]);
                assert(corners[k] == b_corners[j] && corners[k + 1] == b_corners[j + 1]);
                assert(aligned(b[j], b[j + 1], b_corners[j]));
            }
        }
    }
}

proof fn lemma_arc_glides(pixel: PixelPoint, from: Corner, to: Corner)
    ensures
        glides(
            corner_at(pixel, from),
            from,
            corners_of(pixel, Winding::Clockwise.arc(from, to)),
            Winding::Clockwise.arc(from, to),
            corner_at(pixel, to),
            to,
        ),
    decreases Winding::Clockwise.turns_between(from, to),
{
    let winding = Winding::Clockwise;
    if from != to {
        let next = winding.turn(from);
        lemma_arc_glides(pixel, next, to);
        let head = seq![corner_at(pixel, next)];
        let head_corners = seq![next];
        assert(corners_of(pixel, winding.arc(from, to)) =~= head + corners_of(
            pixel,
            winding.arc(next, to),
        ));
        assert(winding.arc(from, to) =~= head_corners + winding.arc(next, to));
        assert(glides(
            corner_at(pixel, from),
            from,
            head,
            head_corners,
            corner_at(pixel, next),
            next,
        ));
        lemma_glides_concat(
            corner_at(pixel, from),
            from,
            head,
            head_corners,
            corner_at(pixel, next),
            next,
            corners_of(pixel, winding.arc(next, to)),
            winding.arc(next, to),
            corner_at(pixel, to),
            to,
        );
    }
}

/// Clockwise, the cursor is carried from one pixel to the next along the
/// line on which it goes on: the target corner on a pixel and the carried
/// corner on a pixel that touches it lie on one row where the cursor goes on
/// along a row, on one column where it goes on along a column; and it goes
/// on from the carried corner as it would from the target.
pub proof fn lemma_clockwise_rule_carries_along(from: PixelPoint, to: PixelPoint)
    requires
        touching(from, to),
    ensures
        ({
            let rule = Winding::Clockwise.rule(heading_of(from, to));
            &&& moves_level(rule.carry) == moves_level(rule.target)
            &&& moves_level(rule.target) ==> level(
                corner_at(from, rule.target),
                corner_at(to, rule.carry),
            )
            &&& !moves_level(rule.target) ==> upright(
                corner_at(from, rule.target),
                corner_at(to, rule.carry),
            )
        }),
{
}

/// The corners on which the vertices lie that the clockwise walk leaves on
/// the first `n` pixels.
spec fn trace_corners(contour: Seq<PixelPoint>, n: int) -> Seq<Corner>
    decreases n,
{
    if n <= 0 {
        Seq::empty()
    } else {
        trace_corners(contour, n - 1) + Winding::Clockwise.arc(
            cursor_before(contour, Winding::Clockwise, n - 1),
            target_at(contour, Winding::Clockwise, n - 1),
        )
    }
}

proof fn lemma_trace_glides(contour: Seq<PixelPoint>, n: int)
    requires
        connected(contour),
        0 <= n <= contour.len(),
        contour.len() > 0,
    ensures
        glides(
            corner_at(contour[0], Winding::Clockwise.start()),
            Winding::Clockwise.start(),
            trace(contour, Winding::Clockwise, n),
            trace_corners(contour, n),
            corner_at(
                if n < contour.len() {
                    contour[n]
                } else {
                    contour[0]
                },
                cursor_before(contour, Winding::Clockwise, n),
            ),
            cursor_before(contour, Winding::Clockwise, n),
        ),
    decreases n,
{
    let winding = Winding::Clockwise;
    let origin = corner_at(contour[0], winding.start());
    if n > 0 {
        let i = n - 1;
        lemma_trace_glides(contour, i);
        let from = cursor_before(contour, winding, i);
        let to = target_at(contour, winding, i);
        let next = successor(contour, i);
        let carry = cursor_before(contour, winding, n);
        lemma_arc_glides(contour[i], from, to);
        assert(touching(contour[i], next));
        lemma_clockwise_rule_carries_along(contour[i], next);
        lemma_glides_concat(
            origin,
            winding.start(),
            trace(contour, winding, i),
            trace_corners(contour, i),
            corner_at(contour[i], from),
            from,
            leg(contour, winding, i),
            winding.arc(from, to),
            corner_at(contour[i], to),
            to,
        );
        assert(glides(
            corner_at(contour[i], to),
            to,
            Seq::<GridPoint>::empty(),
            Seq::<Corner>::empty(),
            corner_at(next, carry),
            carry,
        ));
        lemma_glides_concat(
            origin,
            winding.start(),
            trace(contour, winding, n),
            trace_corners(contour, n),
            corner_at(contour[i], to),
            to,
            Seq::<GridPoint>::empty(),
            Seq::<Corner>::empty(),
            corner_at(next, carry),
            carry,
        );
        assert(trace(contour, winding, n) + Seq::<GridPoint>::empty() =~= trace(
            contour,
            winding,
            n,
        ));
        assert(trace_corners(contour, n) + Seq::<Corner>::empty() =~= trace_corners(contour, n));
    }
}

proof fn lemma_round_glide_turns_everywhere(
    origin: GridPoint,
    from: Corner,
    path: Seq<GridPoint>,
    corners: Seq<Corner>,
)
    requires
        glides(origin, from, path, corners, origin, from),
    ensures
        turns_everywhere(path),
{
    let len = path.len() as int;
    assert forall|k: int| 0 <= k < len implies aligned(
        path[k],
        path[ring_next(k, len)],
        corners[k],
    ) && moves_level(corners[ring_next(k, len)]) != moves_level(#[trigger] corners[k]) by {
        if k + 1 < len {
            assert(aligned(path[k], path[k + 1], corners[k]));
        }
    }
    assert forall|k: int| 0 <= k < len implies right_angle(
        #[trigger] path[k],
        path[ring_next(k, len)],
        path[ring_next(ring_next(k, len), len)],
    ) by {
        let k1 = ring_next(k, len);
        assert(aligned(path[k], path[k1], corners[k]) && moves_level(corners[k1]) != moves_level(
            corners[k],
        ));
        assert(aligned(path[k1], path[ring_next(k1, len)], corners[k1]));
    }
}

proof fn lemma_longer_contour_turns_everywhere(contour: Seq<PixelPoint>)
    requires
        contour.len() > 1,
        connected(contour),
    ensures
        turns_everywhere(outline(contour, Winding::Clockwise)),
{
    let winding = Winding::Clockwise;
    let len = contour.len() as int;
    let origin = corner_at(contour[0], winding.start());
    let back = cursor_before(contour, winding, len);
    lemma_trace_glides(contour, len);
    lemma_arc_glides(contour[0], back, winding.start());
    lemma_glides_concat(
        origin,
        winding.start(),
        trace(contour, winding, len),
        trace_corners(contour, len),
        corner_at(contour[0], back),
        back,
        closing(contour, winding),
        winding.arc(back, winding.start()),
        origin,
        winding.start(),
    );
    lemma_round_glide_turns_everywhere(
        origin,
        winding.start(),
        outline(contour, winding),
        trace_corners(contour, len) + winding.arc(back, winding.start()),
    );
}

proof fn lemma_single_pixel_turns_everywhere(contour: Seq<PixelPoint>)
    requires
        contour.len() == 1,
    ensures
        turns_everywhere(outline(contour, Winding::Clockwise)),
{
    let pixel = contour[0];
    assert(contour =~= seq![pixel]);
    lemma_single_pixel_outline(pixel, Winding::Clockwise);
    let path = outline(contour, Winding::Clockwise);
    assert(path.len() == 4);
    assert forall|k: int| 0 <= k < path.len() implies right_angle(
        #[trigger] path[k],
        path[ring_next(k, path.len() as int)],
        path[ring_next(ring_next(k, path.len() as int), path.len() as int)],
    ) by {
        if k == 0 {
        } else if k == 1 {
        } else if k == 2 {
        } else {
        }
    }
}

/// Walked clockwise, the outline of a connected contour turns by a right
/// angle at every vertex: its edges run along rows and columns of the
/// lattice in turn, and the edge from the last vertex to the first is one of
/// them.
pub proof fn lemma_clockwise_outline_turns_everywhere(contour: Seq<PixelPoint>)
    requires
        contour.len() > 0,
        connected(contour),
    ensures
        turns_everywhere(outline(contour, Winding::Clockwise)),
{
    if contour.len() == 1 {
        lemma_single_pixel_turns_everywhere(contour);
    } else {
        lemma_longer_contour_turns_everywhere(contour);
    }
}

/// What holds of the outline of a connected contour, either way round.
pub proof fn lemma_outline_follows_pixels(contour: Seq<PixelPoint>, winding: Winding)
    requires
        contour.len() > 0,
        connected(contour),
    ensures
        follows_pixels(contour, winding, outline(contour, winding)),
{
    match winding {
        Winding::Anticlockwise => lemma_outline_walks_sides(contour),
        Winding::Clockwise => {
            lemma_clockwise_outline_turns_everywhere(contour);
            lemma_no_vertex_on_a_straight_run(outline(contour, winding));
        },
    }
}

/// A ring that turns by a right angle at every vertex has no vertex on a
/// straight run: none of its vertices lies on the straight line between the
/// vertex before it and the vertex after it.
pub proof fn lemma_no_vertex_on_a_straight_run(path: Seq<GridPoint>)
    requires
        turns_everywhere(path),
    ensures
        no_straight_run(path),
{
    let len = path.len() as int;
    assert forall|k: int| 0 <= k < len implies !strictly_between(
        #[trigger] path[k],
        path[ring_next(k, len)],
        path[ring_next(ring_next(k, len), len)],
    ) by {
        let p = path[k];
        let v = path[ring_next(k, len)];
        let q = path[ring_next(ring_next(k, len), len)];
        assert(right_angle(p, v, q));
        if strictly_between(p, v, q) {
            let a = v.x - p.x;
            let b = q.y - v.y;
            let c = v.y - p.y;
            let d = q.x - v.x;
            assert(a * b == c * d);
            if level(p, v) && upright(v, q) {
                assert(a == 0 || b == 0) by (nonlinear_arith)
                    requires
                        a * b == c * d,
                        c == 0,
                        d == 0,
                ;
            } else {
                assert(c == 0 || d == 0) by (nonlinear_arith)
                    requires
                        a * b == c * d,
                        a == 0,
                        b == 0,
                ;
            }
        }
    }
}

/// Clockwise, a straight run leaves no vertex: a pixel that the contour
/// enters and leaves along one row, or along one column, in one direction
/// has no vertex of the outline on it.
pub proof fn lemma_straight_run_leaves_no_vertex(contour: Seq<PixelPoint>, i: int)
    requires
        0 < i < contour.len(),
        heading_of(contour[i - 1], contour[i]) == heading_of(contour[i], successor(contour, i)),
        contour[i - 1].x == contour[i].x || contour[i - 1].y == contour[i].y,
    ensures
        leg(contour, Winding::Clockwise, i) == Seq::<GridPoint>::empty(),
{
    let winding = Winding::Clockwise;
    assert(successor(contour, i - 1) == contour[i]);
    let from = cursor_before(contour, winding, i);
    let to = target_at(contour, winding, i);
    assert(from == to);
    assert(winding.arc(from, to) =~= Seq::<Corner>::empty());
    assert(leg(contour, winding, i) =~= Seq::<GridPoint>::empty());
}

/// Every vertex of an outline is a corner of one of the contour's pixels.
pub proof fn lemma_outline_on_pixel_corners(contour: Seq<PixelPoint>, winding: Winding, k: int)
    requires
        contour.len() > 0,
        0 <= k < outline(contour, winding).len(),
    ensures
        on_contour(contour, outline(contour, winding)[k]),
{
    let len = contour.len() as int;
    let body = trace(contour, winding, len);
    if k < body.len() {
        lemma_trace_on_pixel_corners(contour, winding, len, k);
    } else {
        let j = k - body.len();
        if len == 1 {
            assert(outline(contour, winding)[k] == corner_at(contour[0], winding.lap()[j]));
        } else {
            let arc = winding.arc(cursor_before(contour, winding, len), winding.start());
            assert(outline(contour, winding)[k] == corner_at(contour[0], arc[j]));
        }
    }
}

proof fn lemma_trace_on_pixel_corners(
    contour: Seq<PixelPoint>,
    winding: Winding,
    n: int,
    k: int,
)
    requires
        0 <= n <= contour.len(),
        0 <= k < trace(contour, winding, n).len(),
    ensures
        on_contour(contour, trace(contour, winding, n)[k]),
    decreases n,
{
    let before = trace(contour, winding, n - 1);
    if k < before.len() {
        lemma_trace_on_pixel_corners(contour, winding, n - 1, k);
    } else {
        let arc = winding.arc(
            cursor_before(contour, winding, n - 1),
            target_at(contour, winding, n - 1),
        );
        assert(trace(contour, winding, n)[k] == corner_at(contour[n - 1], arc[k - before.len()]));
    }
}

/// The outline of a single pixel is its four corners, in the order of the
/// walk: a square one pixel wide.
pub proof fn lemma_single_pixel_outline(pixel: PixelPoint, winding: Winding)
    ensures
        outline(seq![pixel], winding) == corners_of(pixel, winding.lap()),
        outline(seq![pixel], Winding::Anticlockwise) == seq![
            corner_at(pixel, Corner::TopLeft),
            corner_at(pixel, Corner::BottomLeft),
            corner_at(pixel, Corner::BottomRight),
            corner_at(pixel, Corner::TopRight),
        ],
        outline(seq![pixel], Winding::Clockwise) == seq![
            corner_at(pixel, Corner::BottomLeft),
            corner_at(pixel, Corner::TopLeft),
            corner_at(pixel, Corner::TopRight),
            corner_at(pixel, Corner::BottomRight),
        ],
{
    lemma_single_pixel_trace(pixel, Winding::Clockwise);
    lemma_single_pixel_trace(pixel, Winding::Anticlockwise);
    assert(outline(seq![pixel], winding) =~= corners_of(pixel, winding.lap()));
    assert(outline(seq![pixel], Winding::Anticlockwise) =~= seq![
        corner_at(pixel, Corner::TopLeft),
        corner_at(pixel, Corner::BottomLeft),
        corner_at(pixel, Corner::BottomRight),
        corner_at(pixel, Corner::TopRight),
    ]);
    assert(outline(seq![pixel], Winding::Clockwise) =~= seq![
        corner_at(pixel, Corner::BottomLeft),
        corner_at(pixel, Corner::TopLeft),
        corner_at(pixel, Corner::TopRight),
        corner_at(pixel, Corner::BottomRight),
    ]);
}

proof fn lemma_single_pixel_trace(pixel: PixelPoint, winding: Winding)
    ensures
        trace(seq![pixel], winding, 1) == Seq::<GridPoint>::empty(),
{
    let contour = seq![pixel];
    assert(trace(contour, winding, 0) =~= Seq::<GridPoint>::empty());
    assert(heading_of(contour[0], successor(contour, 0)) == Heading::Here);
    assert(winding.arc(winding.start(), winding.start()) =~= Seq::<Corner>::empty());
    assert(trace(contour, winding, 1) =~= Seq::<GridPoint>::empty());
}

} // verus!
