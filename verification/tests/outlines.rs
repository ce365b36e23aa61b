use annotation_geometry::corner::{corner_coord, Corner, GridPoint, PixelPoint};
use annotation_geometry::outline::{
    heading, process_boundaries_anticlockwise, process_boundaries_clockwise, vectorize, Heading,
    OutlineError, Winding,
};

fn pixels(points: &[(u32, u32)]) -> Vec<PixelPoint> {
    points.iter().map(|&(x, y)| PixelPoint { x, y }).collect()
}

fn grid(points: &[(u64, u64)]) -> Vec<GridPoint> {
    points.iter().map(|&(x, y)| GridPoint { x, y }).collect()
}

/// Twice the area that a ring encloses on screen, positive where the ring
/// runs clockwise as seen with rows growing downwards.
fn twice_signed_area(ring: &[GridPoint]) -> i64 {
    let mut sum = 0i64;
    for k in 0..ring.len() {
        let a = ring[k];
        let b = ring[(k + 1) % ring.len()];
        sum += a.x as i64 * b.y as i64 - b.x as i64 * a.y as i64;
    }
    sum
}

/// The ring without the vertices that lie on a straight run between their
/// neighbours.
fn without_straight_runs(ring: &[GridPoint]) -> Vec<GridPoint> {
    let n = ring.len();
    let mut kept = Vec::new();
    for k in 0..n {
        let before = ring[(k + n - 1) % n];
        let here = ring[k];
        let after = ring[(k + 1) % n];
        let cross = (here.x as i64 - before.x as i64) * (after.y as i64 - here.y as i64)
            - (here.y as i64 - before.y as i64) * (after.x as i64 - here.x as i64);
        if cross != 0 {
            kept.push(here);
        }
    }
    kept
}

/// Whether the ring turns by a right angle at every vertex: each edge runs
/// along a row or a column, and the next one along the other.
fn turns_everywhere(ring: &[GridPoint]) -> bool {
    let n = ring.len();
    (0..n).all(|k| {
        let p = ring[k];
        let v = ring[(k + 1) % n];
        let q = ring[(k + 2) % n];
        (p.y == v.y && v.x == q.x) || (p.x == v.x && v.y == q.y)
    })
}

/// The lengths of the edges of a ring whose edges run along rows and
/// columns.
fn edge_lengths(ring: &[GridPoint]) -> Vec<u64> {
    (0..ring.len())
        .map(|k| {
            let a = ring[k];
            let b = ring[(k + 1) % ring.len()];
            a.x.abs_diff(b.x) + a.y.abs_diff(b.y)
        })
        .collect()
}

fn is_closed_walk(ring: &[GridPoint]) -> bool {
    (0..ring.len()).all(|k| {
        let a = ring[k];
        let b = ring[(k + 1) % ring.len()];
        a.x.abs_diff(b.x) + a.y.abs_diff(b.y) == 1
    })
}

/// Whether the ring takes, from each vertex to the next, a side of one of
/// the contour's pixels in the sense of the walk.
fn walks_sides(contour: &[PixelPoint], winding: Winding, ring: &[GridPoint]) -> bool {
    let corners = [Corner::BottomRight, Corner::BottomLeft, Corner::TopLeft, Corner::TopRight];
    (0..ring.len()).all(|k| {
        let a = ring[k];
        let b = ring[(k + 1) % ring.len()];
        contour.iter().any(|pixel| {
            corners.iter().any(|&corner| {
                corner_coord(pixel, corner) == a && corner_coord(pixel, winding.turn(corner)) == b
            })
        })
    })
}

fn connected_contours() -> Vec<Vec<PixelPoint>> {
    vec![
        pixels(&[(0, 0), (1, 0), (1, 1), (0, 1)]),
        pixels(&[(0, 0), (0, 1), (1, 1), (1, 0)]),
        pixels(&[(3, 3)]),
        pixels(&[(0, 0), (1, 0), (2, 0), (1, 0)]),
        pixels(&[(2, 2), (3, 3), (4, 2), (3, 1)]),
        pixels(&[(5, 5), (6, 5), (7, 6), (7, 7), (6, 8), (5, 7), (5, 6)]),
        pixels(&[(0, 0), (0, 1), (1, 2), (2, 2), (1, 2), (0, 2), (0, 1)]),
        pixels(&[(1, 1), (2, 1), (2, 0), (3, 0), (3, 1), (2, 2)]),
    ]
}

#[test]
fn anticlockwise_outlines_run_along_sides_of_their_pixels() {
    for contour in &connected_contours() {
        let ring = vectorize(contour, Winding::Anticlockwise).unwrap();
        assert!(is_closed_walk(&ring));
        assert!(walks_sides(contour, Winding::Anticlockwise, &ring));
    }
}

#[test]
fn clockwise_outlines_turn_at_every_vertex() {
    for contour in &connected_contours() {
        let ring = vectorize(contour, Winding::Clockwise).unwrap();
        assert!(turns_everywhere(&ring), "{:?}", ring);
        // So no vertex lies on a straight run between its neighbours.
        assert_eq!(without_straight_runs(&ring), ring);
    }
}

#[test]
fn four_pixel_block_clockwise() {
    let contour = pixels(&[(0, 0), (1, 0), (1, 1), (0, 1)]);
    let ring = vectorize(&contour, Winding::Clockwise).unwrap();
    assert_eq!(ring, grid(&[(0, 0), (2, 0), (2, 2), (0, 2)]));
    assert_eq!(edge_lengths(&ring), vec![2, 2, 2, 2]);
    assert_eq!(twice_signed_area(&ring), 8);
    assert_eq!(process_boundaries_clockwise(&contour).unwrap(), ring);
}

#[test]
fn nine_pixel_block_clockwise() {
    let contour =
        pixels(&[(0, 0), (1, 0), (2, 0), (2, 1), (2, 2), (1, 2), (0, 2), (0, 1)]);
    let ring = process_boundaries_clockwise(&contour).unwrap();
    assert_eq!(ring, grid(&[(0, 0), (3, 0), (3, 3), (0, 3)]));
    assert_eq!(twice_signed_area(&ring), 18);
}

#[test]
fn bent_region_clockwise() {
    // A column of three pixels with a row of two more at its foot.
    let contour = pixels(&[(0, 0), (0, 1), (1, 2), (2, 2), (1, 2), (0, 2), (0, 1)]);
    let ring = process_boundaries_clockwise(&contour).unwrap();
    assert_eq!(ring, grid(&[(0, 0), (1, 0), (1, 2), (3, 2), (3, 3), (0, 3)]));
    assert_eq!(twice_signed_area(&ring), 10);
}

#[test]
fn pixels_that_touch_by_corners_clockwise() {
    let contour = pixels(&[(1, 0), (2, 1), (1, 2), (0, 1)]);
    let ring = process_boundaries_clockwise(&contour).unwrap();
    assert_eq!(
        ring,
        grid(&[
            (1, 0),
            (2, 0),
            (2, 1),
            (3, 1),
            (3, 2),
            (2, 2),
            (2, 3),
            (1, 3),
            (1, 2),
            (0, 2),
            (0, 1),
            (1, 1)
        ])
    );
    assert!(is_closed_walk(&ring));
}

#[test]
fn row_of_three_clockwise_there_and_back() {
    let contour = pixels(&[(0, 0), (1, 0), (2, 0), (1, 0)]);
    let ring = process_boundaries_clockwise(&contour).unwrap();
    assert_eq!(ring, grid(&[(0, 0), (3, 0), (3, 1), (0, 1)]));
    assert_eq!(twice_signed_area(&ring), 6);
}

#[test]
fn pair_of_pixels_stacked_clockwise() {
    let ring = process_boundaries_clockwise(&pixels(&[(4, 4), (4, 5)])).unwrap();
    assert_eq!(ring, grid(&[(4, 4), (5, 4), (5, 6), (4, 6)]));
    assert_eq!(twice_signed_area(&ring), 4);
}

#[test]
fn diagonal_pair_clockwise_walks_round_the_first_pixel_only() {
    let ring = process_boundaries_clockwise(&pixels(&[(0, 0), (1, 1)])).unwrap();
    assert_eq!(ring, grid(&[(0, 0), (1, 0), (1, 1), (0, 1)]));
}

#[test]
fn four_pixel_block_anticlockwise() {
    let contour = pixels(&[(0, 0), (0, 1), (1, 1), (1, 0)]);
    let ring = vectorize(&contour, Winding::Anticlockwise).unwrap();
    assert_eq!(
        ring,
        grid(&[(0, 1), (0, 2), (1, 2), (2, 2), (2, 1), (2, 0), (1, 0), (0, 0)])
    );
    assert!(is_closed_walk(&ring));
    assert_eq!(twice_signed_area(&ring), -8);
    assert_eq!(without_straight_runs(&ring), grid(&[(0, 2), (2, 2), (2, 0), (0, 0)]));
}

#[test]
fn single_pixel_anticlockwise() {
    let ring = vectorize(&pixels(&[(5, 9)]), Winding::Anticlockwise).unwrap();
    assert_eq!(ring, grid(&[(5, 9), (5, 10), (6, 10), (6, 9)]));
    assert_eq!(twice_signed_area(&ring), -2);
}

#[test]
fn single_pixel_clockwise() {
    let ring = vectorize(&pixels(&[(5, 9)]), Winding::Clockwise).unwrap();
    assert_eq!(ring, grid(&[(5, 10), (5, 9), (6, 9), (6, 10)]));
    assert_eq!(twice_signed_area(&ring), 2);
}

#[test]
fn single_pixel_at_the_far_end_of_the_grid() {
    let ring = vectorize(&pixels(&[(u32::MAX, u32::MAX)]), Winding::Anticlockwise).unwrap();
    let low = u32::MAX as u64;
    assert_eq!(
        ring,
        grid(&[(low, low), (low, low + 1), (low + 1, low + 1), (low + 1, low)])
    );
}

#[test]
fn empty_contour_is_refused() {
    let contour: Vec<PixelPoint> = Vec::new();
    assert_eq!(vectorize(&contour, Winding::Clockwise), Err(OutlineError::EmptyContour));
    assert_eq!(vectorize(&contour, Winding::Anticlockwise), Err(OutlineError::EmptyContour));
    assert_eq!(process_boundaries_clockwise(&contour), Err(OutlineError::EmptyContour));
    assert_eq!(process_boundaries_anticlockwise(&contour), Err(OutlineError::EmptyContour));
}

#[test]
fn pair_of_pixels_side_by_side_clockwise() {
    let ring = process_boundaries_clockwise(&pixels(&[(0, 0), (1, 0)])).unwrap();
    assert_eq!(ring, grid(&[(0, 0), (2, 0), (2, 1), (0, 1)]));
    assert_eq!(edge_lengths(&ring), vec![2, 1, 2, 1]);
    assert_eq!(twice_signed_area(&ring), 4);
}

#[test]
fn pair_of_pixels_stacked_anticlockwise() {
    let ring = process_boundaries_anticlockwise(&pixels(&[(4, 4), (4, 5)])).unwrap();
    assert_eq!(ring, grid(&[(4, 5), (4, 6), (5, 6), (5, 5), (5, 4), (4, 4)]));
    assert!(is_closed_walk(&ring));
    assert_eq!(twice_signed_area(&ring), -4);
}

#[test]
fn diagonal_pair_walks_round_the_first_pixel_only() {
    let ring = process_boundaries_anticlockwise(&pixels(&[(0, 0), (1, 1)])).unwrap();
    assert_eq!(ring, grid(&[(0, 1), (1, 1), (1, 0), (0, 0)]));
    assert!(is_closed_walk(&ring));
}

#[test]
fn row_of_three_anticlockwise_there_and_back() {
    // The tracer of a thin region names its inner pixels twice: once on the
    // way out and once on the way back.
    let contour = pixels(&[(0, 0), (1, 0), (2, 0), (1, 0)]);
    let ring = process_boundaries_anticlockwise(&contour).unwrap();
    assert_eq!(
        ring,
        grid(&[(0, 1), (1, 1), (2, 1), (3, 1), (3, 0), (2, 0), (1, 0), (0, 0)])
    );
    assert!(is_closed_walk(&ring));
    assert_eq!(twice_signed_area(&ring), -6);
}

#[test]
fn repeated_pixel_leaves_no_vertex() {
    let ring = process_boundaries_anticlockwise(&pixels(&[(2, 2), (2, 2)])).unwrap();
    assert_eq!(ring, grid(&[]));
    let ring = process_boundaries_clockwise(&pixels(&[(2, 2), (2, 2)])).unwrap();
    assert_eq!(ring, grid(&[]));
}

#[test]
fn named_walks_agree_with_vectorize() {
    let contour = pixels(&[(3, 3), (4, 3), (4, 4), (3, 4)]);
    assert_eq!(
        process_boundaries_clockwise(&contour),
        vectorize(&contour, Winding::Clockwise)
    );
    assert_eq!(
        process_boundaries_anticlockwise(&contour),
        vectorize(&contour, Winding::Anticlockwise)
    );
}

#[test]
fn headings_by_sign() {
    let here = PixelPoint { x: 5, y: 5 };
    let at = |x: u32, y: u32| PixelPoint { x, y };
    assert_eq!(heading(&here, &at(4, 4)), Heading::UpLeft);
    assert_eq!(heading(&here, &at(4, 5)), Heading::Left);
    assert_eq!(heading(&here, &at(4, 6)), Heading::DownLeft);
    assert_eq!(heading(&here, &at(5, 6)), Heading::Down);
    assert_eq!(heading(&here, &at(6, 6)), Heading::DownRight);
    assert_eq!(heading(&here, &at(6, 5)), Heading::Right);
    assert_eq!(heading(&here, &at(6, 4)), Heading::UpRight);
    assert_eq!(heading(&here, &at(5, 4)), Heading::Up);
    assert_eq!(heading(&here, &at(5, 5)), Heading::Here);
    assert_eq!(heading(&here, &at(0, 9)), Heading::DownLeft);
}

#[test]
fn anticlockwise_rules_hand_the_cursor_over_at_one_lattice_point() {
    let from = PixelPoint { x: 5, y: 5 };
    for dx in 0..3u32 {
        for dy in 0..3u32 {
            let to = PixelPoint { x: 4 + dx, y: 4 + dy };
            let rule = Winding::Anticlockwise.rule(heading(&from, &to));
            assert_eq!(corner_coord(&from, rule.target), corner_coord(&to, rule.carry));
        }
    }
}

#[test]
fn clockwise_rules_carry_the_cursor_along_a_side() {
    let from = PixelPoint { x: 5, y: 5 };
    for dx in 0..3u32 {
        for dy in 0..3u32 {
            let to = PixelPoint { x: 4 + dx, y: 4 + dy };
            let rule = Winding::Clockwise.rule(heading(&from, &to));
            let left = corner_coord(&from, rule.target);
            let taken_up = corner_coord(&to, rule.carry);
            if dx == 1 || dy == 1 {
                // Side by side, or one pixel: the cursor keeps its corner
                // and moves with the pixel.
                assert_eq!(rule.target, rule.carry);
                assert_eq!(taken_up.x + from.x as u64, left.x + to.x as u64);
                assert_eq!(taken_up.y + from.y as u64, left.y + to.y as u64);
            } else {
                assert_eq!(left, taken_up);
            }
        }
    }
}

#[test]
fn clockwise_table() {
    let rule = |h: Heading| {
        let r = Winding::Clockwise.rule(h);
        (r.target, r.carry)
    };
    assert_eq!(rule(Heading::Right), (Corner::TopLeft, Corner::TopLeft));
    assert_eq!(rule(Heading::Down), (Corner::TopRight, Corner::TopRight));
    assert_eq!(rule(Heading::Left), (Corner::BottomRight, Corner::BottomRight));
    assert_eq!(rule(Heading::Up), (Corner::BottomLeft, Corner::BottomLeft));
    assert_eq!(rule(Heading::UpLeft), (Corner::TopLeft, Corner::BottomRight));
    assert_eq!(rule(Heading::DownLeft), (Corner::BottomLeft, Corner::TopRight));
    assert_eq!(rule(Heading::DownRight), (Corner::BottomRight, Corner::TopLeft));
    assert_eq!(rule(Heading::UpRight), (Corner::TopRight, Corner::BottomLeft));
    assert_eq!(rule(Heading::Here), (Corner::BottomLeft, Corner::BottomLeft));
    assert_eq!(Winding::Clockwise.start(), Corner::BottomLeft);
}

#[test]
fn anticlockwise_table() {
    let rule = |h: Heading| {
        let r = Winding::Anticlockwise.rule(h);
        (r.target, r.carry)
    };
    assert_eq!(rule(Heading::UpLeft), (Corner::TopLeft, Corner::BottomRight));
    assert_eq!(rule(Heading::Left), (Corner::TopLeft, Corner::TopRight));
    assert_eq!(rule(Heading::DownLeft), (Corner::BottomLeft, Corner::TopRight));
    assert_eq!(rule(Heading::Down), (Corner::BottomLeft, Corner::TopLeft));
    assert_eq!(rule(Heading::DownRight), (Corner::BottomRight, Corner::TopLeft));
    assert_eq!(rule(Heading::Right), (Corner::BottomRight, Corner::BottomLeft));
    assert_eq!(rule(Heading::UpRight), (Corner::TopRight, Corner::BottomLeft));
    assert_eq!(rule(Heading::Up), (Corner::TopRight, Corner::BottomRight));
    assert_eq!(rule(Heading::Here), (Corner::TopLeft, Corner::TopLeft));
    assert_eq!(Winding::Anticlockwise.start(), Corner::TopLeft);
}
