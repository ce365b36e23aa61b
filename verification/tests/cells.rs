use annotation_geometry::cells::{
    cell_outlines, foreground_mask, max_label, outline_contours, CellError,
};
use annotation_geometry::corner::{GridPoint, PixelPoint};
use annotation_geometry::outline::OutlineError;

fn grid(points: &[(u64, u64)]) -> Vec<GridPoint> {
    points.iter().map(|&(x, y)| GridPoint { x, y }).collect()
}

fn is_closed_walk(ring: &[GridPoint]) -> bool {
    (0..ring.len()).all(|k| {
        let a = ring[k];
        let b = ring[(k + 1) % ring.len()];
        a.x.abs_diff(b.x) + a.y.abs_diff(b.y) == 1
    })
}

#[test]
fn mask_marks_the_pixels_of_cells() {
    assert_eq!(foreground_mask(&vec![0, 1, 0, 7, 65535, 0]), vec![0, 255, 0, 255, 255, 0]);
    assert_eq!(foreground_mask(&vec![]), Vec::<u8>::new());
}

#[test]
fn max_label_is_the_largest() {
    assert_eq!(max_label(&vec![0, 3, 1, 3, 2]), 3);
    assert_eq!(max_label(&vec![0, 0]), 0);
    assert_eq!(max_label(&vec![]), 0);
    assert_eq!(max_label(&vec![65535, 1]), 65535);
}

#[test]
fn outline_of_a_single_cell_pixel() {
    let labels = vec![
        0, 0, 0,
        0, 4, 0,
        0, 0, 0,
    ];
    let outlines = cell_outlines(3, 3, &labels).unwrap();
    assert_eq!(outlines, vec![grid(&[(1, 1), (1, 2), (2, 2), (2, 1)])]);
}

#[test]
fn outline_of_a_block_is_a_walk_round_it() {
    let labels = vec![
        0, 0, 0, 0,
        0, 1, 1, 0,
        0, 1, 1, 0,
        0, 0, 0, 0,
    ];
    let outlines = cell_outlines(4, 4, &labels).unwrap();
    assert_eq!(outlines.len(), 1);
    let ring = &outlines[0];
    assert!(is_closed_walk(ring));
    assert_eq!(
        ring,
        &grid(&[(1, 2), (1, 3), (2, 3), (3, 3), (3, 2), (3, 1), (2, 1), (1, 1)])
    );
}

#[test]
fn two_cells_give_two_outlines() {
    let labels = vec![
        1, 0, 0, 0, 0,
        0, 0, 0, 2, 0,
        0, 0, 0, 0, 0,
    ];
    let outlines = cell_outlines(5, 3, &labels).unwrap();
    assert_eq!(
        outlines,
        vec![
            grid(&[(0, 0), (0, 1), (1, 1), (1, 0)]),
            grid(&[(3, 1), (3, 2), (4, 2), (4, 1)]),
        ]
    );
}

#[test]
fn segmentation_without_cells_has_no_outlines() {
    assert_eq!(cell_outlines(3, 2, &vec![0; 6]), Ok(vec![]));
    assert_eq!(cell_outlines(0, 0, &vec![]), Ok(vec![]));
    assert_eq!(cell_outlines(0, 7, &vec![]), Ok(vec![]));
}

#[test]
fn wrong_number_of_labels_is_refused() {
    assert_eq!(cell_outlines(3, 3, &vec![0; 8]), Err(CellError::SizeMismatch));
    assert_eq!(cell_outlines(3, 3, &vec![0; 10]), Err(CellError::SizeMismatch));
    assert_eq!(cell_outlines(0, 3, &vec![0; 1]), Err(CellError::SizeMismatch));
}

#[test]
fn image_too_large_to_trace_is_refused() {
    assert_eq!(cell_outlines(u32::MAX, u32::MAX, &vec![1; 4]), Err(CellError::TooLarge));
    assert_eq!(cell_outlines(65536, 32768, &vec![]), Err(CellError::TooLarge));
    // One pixel fewer than the limit allows, but no labels for it.
    assert_eq!(cell_outlines(2, 0x3fff_ffff, &vec![]), Err(CellError::SizeMismatch));
}

#[test]
fn list_with_an_empty_contour_is_refused() {
    let contours = vec![vec![PixelPoint { x: 0, y: 0 }], vec![]];
    assert_eq!(outline_contours(&contours), Err(OutlineError::EmptyContour));
    let contours = vec![vec![PixelPoint { x: 0, y: 0 }], vec![PixelPoint { x: 2, y: 0 }]];
    assert_eq!(
        outline_contours(&contours),
        Ok(vec![
            grid(&[(0, 0), (0, 1), (1, 1), (1, 0)]),
            grid(&[(2, 0), (2, 1), (3, 1), (3, 0)]),
        ])
    );
    assert_eq!(outline_contours(&vec![]), Ok(vec![]));
}

#[test]
fn every_outline_of_a_segmentation_is_a_closed_walk() {
    // A ring of cells round a hole, a cell that touches the ring by a corner
    // only, a thin bar, and a cell on the rim of the image.
    let rows = [
        "1110000002",
        "1010000000",
        "1110000000",
        "0003000000",
        "0000000000",
        "0444440000",
        "0000000005",
    ];
    let labels: Vec<u16> = rows
        .iter()
        .flat_map(|row| row.bytes().map(|b| (b - b'0') as u16))
        .collect();
    let outlines = cell_outlines(10, 7, &labels).unwrap();
    assert!(outlines.len() >= 5);
    for ring in &outlines {
        assert!(!ring.is_empty());
        assert!(is_closed_walk(ring), "{:?}", ring);
        for vertex in ring {
            assert!(vertex.x <= 10 && vertex.y <= 7);
        }
    }
}
