use annotation_geometry::query::pixel_annotation;
use annotation_geometry::raster::{
    classify, CentredPoint, Coverage, PixelAnnotationConf, PixelRect, PolygonShape, TransformCheck,
};
use geo_booleanop::boolean::BooleanOp;
use geo_types::{LineString, MultiPolygon, Polygon};
use std::cell::Cell;

/// A regular polygon of 20 vertices for a disk, the first vertex at angle 0.
fn circle(center: (f64, f64), radius: f64) -> Polygon<f64> {
    let step = std::f64::consts::PI * 2.0 / 20.0;
    let ring: Vec<(f64, f64)> = (0..20)
        .map(|i| {
            let angle = step * i as f64;
            (center.0 + radius * angle.cos(), center.1 + radius * angle.sin())
        })
        .collect();
    Polygon::new(LineString::from(ring), vec![])
}

fn ring_area(ring: &LineString<f64>) -> f64 {
    let points = &ring.0;
    let mut twice = 0.0;
    for k in 0..points.len().saturating_sub(1) {
        twice += points[k].x * points[k + 1].y - points[k + 1].x * points[k].y;
    }
    (twice / 2.0).abs()
}

fn area(region: &MultiPolygon<f64>) -> f64 {
    region
        .0
        .iter()
        .map(|polygon| {
            ring_area(polygon.exterior())
                - polygon.interiors().iter().map(ring_area).sum::<f64>()
        })
        .sum()
}

/// The coverage of `part` by `annotation`, read off their difference. Pixel
/// space is world space moved so that the centre of the image is the origin.
fn coverage(annotation: &MultiPolygon<f64>, conf: &PixelAnnotationConf, part: PixelRect) -> Coverage {
    let quad = conf.corners(&part);
    let world = |p: CentredPoint| (p.twice_x as f64 / 2.0, p.twice_y as f64 / 2.0);
    let corners = vec![
        world(quad.top_left),
        world(quad.top_right),
        world(quad.bottom_right),
        world(quad.bottom_left),
    ];
    let area_to_check = MultiPolygon(vec![Polygon::new(LineString::from(corners), vec![])]);
    let remainder = area_to_check.difference(annotation);
    let shapes: Vec<PolygonShape> = remainder
        .0
        .iter()
        .map(|polygon| PolygonShape {
            exterior_len: polygon.exterior().0.len(),
            holes: polygon.interiors().len(),
        })
        .collect();
    classify(&shapes, area_to_check.0[0].exterior().0.len())
}

#[test]
fn union_with_a_shape_already_covered_keeps_the_area() {
    let big = MultiPolygon(vec![circle((0.0, 0.0), 10.0)]);
    let before = area(&big);
    let again = big.union(&circle((0.0, 0.0), 10.0));
    assert!((area(&again) - before).abs() < 1e-6);
    let with_small = big.union(&circle((1.0, -2.0), 3.0));
    assert!((area(&with_small) - before).abs() < 1e-6);
    assert_eq!(with_small.0.len(), 1);
}

#[test]
fn union_of_overlapping_dabs_is_one_region() {
    let first = MultiPolygon(vec![circle((0.0, 0.0), 5.0)]);
    let both = first.union(&circle((6.0, 0.0), 5.0));
    assert_eq!(both.0.len(), 1);
    let total = area(&both);
    let one = area(&first);
    assert!(total > one && total < 2.0 * one);
}

#[test]
fn rectangle_inside_a_dab_is_taken_whole_without_recursion() {
    let annotation = MultiPolygon(vec![circle((0.0, 0.0), 30.0)]);
    let conf = PixelAnnotationConf { width: 64, height: 64 };
    let asked = Cell::new(0u32);
    let oracle = |part: PixelRect| {
        asked.set(asked.get() + 1);
        coverage(&annotation, &conf, part)
    };
    let pixels = pixel_annotation((24, 24), (40, 40), TransformCheck::Regular, &oracle).unwrap();
    assert_eq!(pixels.len(), 16 * 16);
    assert_eq!(pixels[0], (24, 24));
    assert_eq!(pixels[1], (25, 24));
    assert_eq!(pixels[255], (39, 39));
    assert_eq!(asked.get(), 1);
}

#[test]
fn rectangle_outside_a_dab_gives_nothing() {
    let annotation = MultiPolygon(vec![circle((-20.0, -20.0), 5.0)]);
    let conf = PixelAnnotationConf { width: 64, height: 64 };
    let asked = Cell::new(0u32);
    let oracle = |part: PixelRect| {
        asked.set(asked.get() + 1);
        coverage(&annotation, &conf, part)
    };
    let pixels = pixel_annotation((40, 40), (64, 64), TransformCheck::Regular, &oracle).unwrap();
    assert!(pixels.is_empty());
    assert_eq!(asked.get(), 1);
}

#[test]
fn empty_annotation_covers_nothing() {
    let annotation: MultiPolygon<f64> = MultiPolygon(vec![]);
    let conf = PixelAnnotationConf { width: 8, height: 8 };
    let pixels = pixel_annotation((0, 0), (8, 8), TransformCheck::Regular, |part: PixelRect| {
        coverage(&annotation, &conf, part)
    })
    .unwrap();
    assert!(pixels.is_empty());
}

/// How far inside the rim of a disk round the centre of the image the
/// centre of a pixel can lie without the pixel being selected, and whether a
/// selected pixel lies outside the disk or is named twice.
fn worst_miss(radius: f64, size: u32) -> f64 {
    let annotation = MultiPolygon(vec![circle((0.0, 0.0), radius)]);
    let conf = PixelAnnotationConf { width: size, height: size };
    let pixels = pixel_annotation((0, 0), (size, size), TransformCheck::Regular, |part: PixelRect| {
        coverage(&annotation, &conf, part)
    })
    .unwrap();
    let half = size as f64 / 2.0;
    let centre_distance = |x: u32, y: u32| {
        let cx = x as f64 + 0.5 - half;
        let cy = y as f64 + 0.5 - half;
        (cx * cx + cy * cy).sqrt()
    };
    for &(x, y) in &pixels {
        assert!(centre_distance(x, y) < radius, "pixel {:?} lies outside", (x, y));
    }
    let mut unique = pixels.clone();
    unique.sort();
    unique.dedup();
    assert_eq!(unique.len(), pixels.len());
    assert!(!pixels.is_empty());
    let mut worst: f64 = 0.0;
    for y in 0..size {
        for x in 0..size {
            if !pixels.contains(&(x, y)) {
                worst = worst.max(radius - centre_distance(x, y));
            }
        }
    }
    worst
}

#[test]
fn small_dab_selects_the_pixels_within_its_radius() {
    // The sides of the polygon are shorter than two pixels: none of them can
    // cross a rectangle of the subdivision from one side to the side
    // opposite, so every rectangle on the rim is cut down to single pixels.
    let worst = worst_miss(5.0, 16);
    assert!(worst < 1.0, "a pixel {} inside the rim was missed", worst);
}

#[test]
fn large_dab_misses_no_more_than_a_rectangle_that_one_side_can_cross() {
    // A side of this polygon is a little over six pixels long. Where it
    // crosses a rectangle of four by four pixels from one side to the side
    // opposite, what remains of the rectangle has as many vertices as the
    // rectangle, and the rectangle is taken to lie outside.
    let worst = worst_miss(20.0, 64);
    assert!(worst < 4.0 * std::f64::consts::SQRT_2, "a pixel {} inside the rim was missed", worst);
}
