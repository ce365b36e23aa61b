use annotation_geometry::query::pixel_annotation;
use annotation_geometry::raster::{
    classify, CentredPoint, Coverage, MembershipError, PixelAnnotationConf, PixelMembership,
    PixelRect, PolygonShape, TransformCheck,
};
use std::cell::Cell;

fn rect(x0: u32, y0: u32, x1: u32, y1: u32) -> PixelRect {
    PixelRect { x0, y0, x1, y1 }
}

/// The coverage of `part` by an annotation that is itself a rectangle of
/// whole pixels.
fn coverage_by_rect(annotation: PixelRect, part: PixelRect) -> Coverage {
    let inside = annotation.x0 <= part.x0
        && part.x1 <= annotation.x1
        && annotation.y0 <= part.y0
        && part.y1 <= annotation.y1;
    let apart = part.x1 <= annotation.x0
        || annotation.x1 <= part.x0
        || part.y1 <= annotation.y0
        || annotation.y1 <= part.y0;
    if inside {
        Coverage::Inside
    } else if apart {
        Coverage::Outside
    } else {
        Coverage::Straddling
    }
}

fn row_major(x0: u32, y0: u32, x1: u32, y1: u32) -> Vec<(u32, u32)> {
    let mut all = Vec::new();
    for y in y0..y1 {
        for x in x0..x1 {
            all.push((x, y));
        }
    }
    all
}

#[test]
fn pixels_of_a_rectangle_come_row_by_row() {
    let mut out = vec![(9, 9)];
    rect(2, 5, 4, 7).append_pixels(&mut out);
    assert_eq!(out, vec![(9, 9), (2, 5), (3, 5), (2, 6), (3, 6)]);
}

#[test]
fn empty_and_inverted_rectangles_have_no_pixels() {
    for r in [rect(3, 3, 3, 8), rect(3, 3, 8, 3), rect(5, 0, 2, 4), rect(0, 5, 4, 2)] {
        assert!(r.is_empty());
        let mut out = Vec::new();
        r.append_pixels(&mut out);
        assert!(out.is_empty());
    }
    assert!(!rect(3, 3, 4, 4).is_empty());
    assert!(rect(3, 3, 4, 4).is_unit());
    assert!(!rect(3, 3, 5, 4).is_unit());
    assert!(!rect(3, 3, 3, 4).is_unit());
}

#[test]
fn quadrants_cut_at_the_lower_middle() {
    let (tl, tr, bl, br) = rect(0, 0, 5, 3).quadrants();
    assert_eq!(tl, rect(0, 0, 2, 1));
    assert_eq!(tr, rect(2, 0, 5, 1));
    assert_eq!(bl, rect(0, 1, 2, 3));
    assert_eq!(br, rect(2, 1, 5, 3));
    let (tl, tr, bl, br) = rect(10, 20, 11, 24).quadrants();
    assert!(tl.is_empty());
    assert_eq!(tr, rect(10, 20, 11, 22));
    assert!(bl.is_empty());
    assert_eq!(br, rect(10, 22, 11, 24));
}

#[test]
fn quadrants_at_the_far_end_of_the_grid() {
    let (tl, tr, bl, br) = rect(0, 0, u32::MAX, u32::MAX).quadrants();
    let mid = u32::MAX / 2;
    assert_eq!(tl, rect(0, 0, mid, mid));
    assert_eq!(tr, rect(mid, 0, u32::MAX, mid));
    assert_eq!(bl, rect(0, mid, mid, u32::MAX));
    assert_eq!(br, rect(mid, mid, u32::MAX, u32::MAX));
}

#[test]
fn classify_reads_the_remainder() {
    let whole = PolygonShape { exterior_len: 5, holes: 0 };
    assert_eq!(classify(&vec![], 5), Coverage::Inside);
    assert_eq!(classify(&vec![whole], 5), Coverage::Outside);
    assert_eq!(classify(&vec![PolygonShape { exterior_len: 6, holes: 0 }], 5), Coverage::Straddling);
    assert_eq!(classify(&vec![PolygonShape { exterior_len: 4, holes: 0 }], 5), Coverage::Straddling);
    assert_eq!(classify(&vec![PolygonShape { exterior_len: 5, holes: 1 }], 5), Coverage::Straddling);
    assert_eq!(classify(&vec![whole, whole], 5), Coverage::Straddling);
}

#[test]
fn corners_are_measured_from_the_centre_in_half_pixels() {
    let conf = PixelAnnotationConf { width: 5, height: 4 };
    let quad = conf.corners(&rect(0, 0, 5, 4));
    assert_eq!(quad.top_left, CentredPoint { twice_x: -5, twice_y: -4 });
    assert_eq!(quad.top_right, CentredPoint { twice_x: 5, twice_y: -4 });
    assert_eq!(quad.bottom_right, CentredPoint { twice_x: 5, twice_y: 4 });
    assert_eq!(quad.bottom_left, CentredPoint { twice_x: -5, twice_y: 4 });
    let quad = conf.corners(&rect(1, 2, 3, 3));
    assert_eq!(quad.top_left, CentredPoint { twice_x: -3, twice_y: 0 });
    assert_eq!(quad.bottom_right, CentredPoint { twice_x: 1, twice_y: 2 });
}

#[test]
fn corners_at_the_far_end_of_the_grid() {
    let conf = PixelAnnotationConf { width: u32::MAX, height: 0 };
    let quad = conf.corners(&rect(0, 0, u32::MAX, u32::MAX));
    assert_eq!(quad.top_left, CentredPoint { twice_x: -4_294_967_295, twice_y: 0 });
    assert_eq!(quad.bottom_right, CentredPoint { twice_x: 4_294_967_295, twice_y: 8_589_934_590 });
}

#[test]
fn singular_and_non_finite_transforms_are_refused() {
    assert!(matches!(
        PixelMembership::new((0, 0), (4, 4), TransformCheck::Singular),
        Err(MembershipError::SingularTransform)
    ));
    assert!(matches!(
        PixelMembership::new((0, 0), (4, 4), TransformCheck::NonFinite),
        Err(MembershipError::NonFiniteTransform)
    ));
    let asked = Cell::new(0u32);
    let oracle = |_: PixelRect| {
        asked.set(asked.get() + 1);
        Coverage::Inside
    };
    assert_eq!(
        pixel_annotation((0, 0), (4, 4), TransformCheck::Singular, &oracle),
        Err(MembershipError::SingularTransform)
    );
    assert_eq!(
        pixel_annotation((0, 0), (4, 4), TransformCheck::NonFinite, &oracle),
        Err(MembershipError::NonFiniteTransform)
    );
    assert_eq!(asked.get(), 0);
}

#[test]
fn rectangle_inside_is_taken_whole_with_one_question() {
    let asked = Cell::new(0u32);
    let oracle = |part: PixelRect| {
        asked.set(asked.get() + 1);
        coverage_by_rect(rect(0, 0, 100, 100), part)
    };
    let pixels = pixel_annotation((10, 20), (14, 23), TransformCheck::Regular, &oracle).unwrap();
    assert_eq!(pixels, row_major(10, 20, 14, 23));
    assert_eq!(asked.get(), 1);
}

#[test]
fn rectangle_outside_gives_nothing_with_one_question() {
    let asked = Cell::new(0u32);
    let oracle = |part: PixelRect| {
        asked.set(asked.get() + 1);
        coverage_by_rect(rect(50, 50, 60, 60), part)
    };
    let pixels = pixel_annotation((0, 0), (16, 16), TransformCheck::Regular, &oracle).unwrap();
    assert!(pixels.is_empty());
    assert_eq!(asked.get(), 1);
}

#[test]
fn rectangle_without_pixels_asks_nothing() {
    let asked = Cell::new(0u32);
    let oracle = |_: PixelRect| {
        asked.set(asked.get() + 1);
        Coverage::Inside
    };
    for (from, to) in [((4, 4), (4, 9)), ((4, 4), (9, 4)), ((9, 9), (4, 4))] {
        let pixels = pixel_annotation(from, to, TransformCheck::Regular, &oracle).unwrap();
        assert!(pixels.is_empty());
    }
    assert_eq!(asked.get(), 0);
    let query = PixelMembership::new((4, 4), (4, 9), TransformCheck::Regular).unwrap();
    assert!(query.is_done());
    assert!(query.next_rect().is_none());
}

#[test]
fn straddling_rectangle_selects_exactly_the_covered_pixels() {
    let annotation = rect(3, 2, 11, 7);
    let pixels = pixel_annotation((0, 0), (16, 9), TransformCheck::Regular, |part: PixelRect| {
        coverage_by_rect(annotation, part)
    })
    .unwrap();
    let mut sorted = pixels.clone();
    sorted.sort_by_key(|&(x, y)| (y, x));
    assert_eq!(sorted, row_major(3, 2, 11, 7));
    let mut unique = pixels.clone();
    unique.sort();
    unique.dedup();
    assert_eq!(unique.len(), pixels.len());
}

#[test]
fn quadrants_are_asked_in_reading_order() {
    let asked = std::cell::RefCell::new(Vec::new());
    let oracle = |part: PixelRect| {
        asked.borrow_mut().push(part);
        if part == rect(0, 0, 4, 4) {
            Coverage::Straddling
        } else if part == rect(2, 0, 4, 2) || part == rect(0, 2, 2, 4) {
            Coverage::Inside
        } else {
            Coverage::Outside
        }
    };
    let pixels = pixel_annotation((0, 0), (4, 4), TransformCheck::Regular, &oracle).unwrap();
    assert_eq!(
        asked.into_inner(),
        vec![rect(0, 0, 4, 4), rect(0, 0, 2, 2), rect(2, 0, 4, 2), rect(0, 2, 2, 4), rect(2, 2, 4, 4)]
    );
    assert_eq!(
        pixels,
        vec![(2, 0), (3, 0), (2, 1), (3, 1), (0, 2), (1, 2), (0, 3), (1, 3)]
    );
}

#[test]
fn one_pixel_wide_strip_is_cut_in_two() {
    let asked = std::cell::RefCell::new(Vec::new());
    let oracle = |part: PixelRect| {
        asked.borrow_mut().push(part);
        coverage_by_rect(rect(0, 1, 9, 3), part)
    };
    let pixels = pixel_annotation((5, 0), (6, 4), TransformCheck::Regular, &oracle).unwrap();
    assert_eq!(pixels, vec![(5, 1), (5, 2)]);
    assert_eq!(
        asked.into_inner(),
        vec![
            rect(5, 0, 6, 4),
            rect(5, 0, 6, 2),
            rect(5, 0, 6, 1),
            rect(5, 1, 6, 2),
            rect(5, 2, 6, 4),
            rect(5, 2, 6, 3),
            rect(5, 3, 6, 4)
        ]
    );
}

#[test]
fn single_pixel_that_straddles_is_not_selected() {
    let asked = Cell::new(0u32);
    let oracle = |_: PixelRect| {
        asked.set(asked.get() + 1);
        Coverage::Straddling
    };
    let pixels = pixel_annotation((7, 7), (8, 8), TransformCheck::Regular, &oracle).unwrap();
    assert!(pixels.is_empty());
    assert_eq!(asked.get(), 1);
}

#[test]
fn always_straddling_asks_about_every_rectangle_once_and_ends() {
    let asked = Cell::new(0u32);
    let oracle = |_: PixelRect| {
        asked.set(asked.get() + 1);
        Coverage::Straddling
    };
    let pixels = pixel_annotation((0, 0), (8, 8), TransformCheck::Regular, &oracle).unwrap();
    assert!(pixels.is_empty());
    // 1 + 4 + 16 + 64 rectangles, down to single pixels.
    assert_eq!(asked.get(), 85);
    asked.set(0);
    let pixels = pixel_annotation((0, 0), (5, 3), TransformCheck::Regular, &oracle).unwrap();
    assert!(pixels.is_empty());
    // Fewer questions than twice the area.
    assert!(asked.get() < 30);
}

#[test]
fn machine_steps_by_hand() {
    let mut query = PixelMembership::new((0, 0), (2, 2), TransformCheck::Regular).unwrap();
    assert_eq!(query.next_rect(), Some(rect(0, 0, 2, 2)));
    query.resolve(Coverage::Straddling);
    assert_eq!(query.next_rect(), Some(rect(0, 0, 1, 1)));
    query.resolve(Coverage::Inside);
    assert_eq!(query.pixels(), &vec![(0, 0)]);
    assert_eq!(query.next_rect(), Some(rect(1, 0, 2, 1)));
    query.resolve(Coverage::Outside);
    assert_eq!(query.next_rect(), Some(rect(0, 1, 1, 2)));
    query.resolve(Coverage::Straddling);
    assert_eq!(query.next_rect(), Some(rect(1, 1, 2, 2)));
    assert!(!query.is_done());
    query.resolve(Coverage::Inside);
    assert!(query.is_done());
    assert!(query.next_rect().is_none());
    // An answer without a question changes nothing.
    query.resolve(Coverage::Inside);
    assert!(query.is_done());
    assert_eq!(query.into_pixels(), vec![(0, 0), (1, 1)]);
}
