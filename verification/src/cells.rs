//! From a labelled segmentation of an image to the outlines of its regions.
//!
//! A segmentation gives every pixel the number of the cell that it belongs
//! to, or zero. Its foreground is traced into contours, and every contour is
//! walked into an outline along pixel edges.

use crate::corner::{GridPoint, PixelPoint};
use crate::outline::{
    closed_walk, connected, outline, sides_walk, vectorize, OutlineError, Winding,
};
use vstd::prelude::*;

verus! {

/// The value of a foreground pixel in a mask.
pub const FOREGROUND: u8 = 255;

/// The most pixels that an image may hold for its contours to be traced: one
/// fewer than the largest signed number of 32 bits, so that columns, rows,
/// and the borders counted from one, all fit in such a number.
pub const MAX_PIXELS: usize = 0x7fff_fffe;

/// Why a segmentation has no outlines.
#[derive(Clone, Copy, Debug, PartialEq, Eq, Structural)]
pub enum CellError {
    /// The image holds more pixels than a contour can be traced through.
    TooLarge,
    /// The number of labels is not the number of pixels of the image.
    SizeMismatch,
}

/// The mask of a segmentation: foreground where a pixel belongs to a cell.
pub open spec fn mask_of(labels: Seq<u16>) -> Seq<u8> {
    Seq::new(
        labels.len(),
        |i: int|
            if labels[i] > 0 {
                FOREGROUND
            } else {
                0u8
            },
    )
}

/// `max` is the largest label of a segmentation, or zero where there is
/// none.
pub open spec fn is_max_label(labels: Seq<u16>, max: u16) -> bool {
    &&& forall|i: int| 0 <= i < labels.len() ==> labels[i] <= max
    &&& max == 0 || exists|i: int| 0 <= i < labels.len() && labels[i] == max
}

/// The mask of a segmentation.
pub fn foreground_mask(labels: &Vec<u16>) -> (mask: Vec<u8>)
    ensures
        mask@ == mask_of(labels@),
{
    let mut mask: Vec<u8> = Vec::new();
    let mut i: usize = 0;
    while i < labels.len()
        invariant
            i <= labels.len(),
            mask@ == mask_of(labels@).take(i as int),
        decreases labels.len() - i,
    {
        let value: u8 = if labels[i] > 0 {
            FOREGROUND
        } else {
            0
        };
        mask.push(value);
        assert(mask@ =~= mask_of(labels@).take(i + 1));
        i = i + 1;
    }
    assert(mask@ =~= mask_of(labels@));
    mask
}

/// The largest label of a segmentation: the number of cells, where the cells
/// are numbered from one without a gap.
pub fn max_label(labels: &Vec<u16>) -> (max: u16)
    ensures
        is_max_label(labels@, max),
{
    let mut max: u16 = 0;
    let mut i: usize = 0;
    while i < labels.len()
        invariant
            i <= labels.len(),
            is_max_label(labels@.take(i as int), max),
        decreases labels.len() - i,
    {
        let ghost seen = labels@.take(i as int);
        let ghost next = labels@.take(i + 1);
        if labels[i] > max {
            max = labels[i];
            assert(next[i as int] == max);
        } else {
            assert(max == 0 || exists|k: int| 0 <= k < next.len() && next[k] == max) by {
                if max != 0 {
                    let k = choose|k: int| 0 <= k < seen.len() && seen[k] == max;
                    assert(next[k] == max);
                }
            }
        }
        assert forall|k: int| 0 <= k < next.len() implies next[k] <= max by {
            if k < i {
                assert(seen[k] == next[k]);
            }
        }
        i = i + 1;
    }
    assert(labels@.take(labels.len() as int) =~= labels@);
    max
}

/// The contours of the foreground of a mask, as the tracer returns them: for
/// each border of a foreground region the pixels along it, in the order in
/// which the tracer follows the border.
pub uninterp spec fn traced_contours(width: u32, height: u32, mask: Seq<u8>) -> Seq<Seq<PixelPoint>>;

/// The pixels of each contour in a list of contours.
pub open spec fn points_of(contours: Seq<Vec<PixelPoint>>) -> Seq<Seq<PixelPoint>> {
    Seq::new(contours.len(), |i: int| contours[i]@)
}

/// No contour of the list is empty.
pub open spec fn all_nonempty(contours: Seq<Seq<PixelPoint>>) -> bool {
    forall|i: int| 0 <= i < contours.len() ==> (#[trigger] contours[i]).len() > 0
}

/// In every contour of the list each pixel touches the one that follows it,
/// and the last one the first.
pub open spec fn all_connected(contours: Seq<Seq<PixelPoint>>) -> bool {
    forall|i: int| 0 <= i < contours.len() ==> connected(#[trigger] contours[i])
}

/// Traces the borders of the foreground of a mask with
/// `imageproc::contours::find_contours`, which takes every pixel that is not
/// zero for foreground. The mask is read row by row.
///
/// Nothing is proved of the tracing. The contract gives its result a name,
/// which claims that the result depends on the size and the content of the
/// mask alone, and states two things that the tracer's code shows of every
/// border that it follows. It begins each border with the pixel at which it
/// found the border, so that no contour is empty. And it goes on from each
/// pixel to one of the eight pixels round it, until the pixel that it
/// reaches next is the first one again, so that every pixel of a contour
/// touches the one that follows it, and the last one the first.
///
/// The tracer counts columns, rows and borders in signed
/// numbers of 32 bits and stops the program where one of them does not fit:
/// the bound on the number of pixels keeps all three in range. The mask has
/// to hold one value for each pixel for the image to be built from it.
#[verifier::external_body]
fn find_contours(width: u32, height: u32, mask: &Vec<u8>) -> (contours: Vec<Vec<PixelPoint>>)
    requires
        mask@.len() == width as nat * height as nat,
        mask@.len() <= MAX_PIXELS,
    ensures
        points_of(contours@) == traced_contours(width, height, mask@),
        all_nonempty(points_of(contours@)),
        all_connected(points_of(contours@)),
{
    let image = imageproc::image::GrayImage::from_raw(width, height, mask.clone()).unwrap();
    imageproc::contours::find_contours::<u32>(&image)
        .into_iter()
        .map(|contour| contour.points.into_iter().map(|p| PixelPoint { x: p.x, y: p.y }).collect())
        .collect()
}

/// The outline of each contour of a list, walked anticlockwise.
pub open spec fn outlines_of(contours: Seq<Seq<PixelPoint>>) -> Seq<Seq<GridPoint>> {
    Seq::new(contours.len(), |i: int| outline(contours[i], Winding::Anticlockwise))
}

/// The vertices of each outline in a list of outlines.
pub open spec fn vertices_of(outlines: Seq<Vec<GridPoint>>) -> Seq<Seq<GridPoint>> {
    Seq::new(outlines.len(), |i: int| outlines[i]@)
}

/// Each outline of the list runs along sides of the pixels of the contour
/// in the same place, anticlockwise: it is a closed walk along pixel edges.
pub open spec fn walk_sides(contours: Seq<Seq<PixelPoint>>, outlines: Seq<Seq<GridPoint>>) -> bool {
    &&& outlines.len() == contours.len()
    &&& forall|i: int|
        0 <= i < outlines.len() ==> sides_walk(
            contours[i],
            Winding::Anticlockwise,
            #[trigger] outlines[i],
        ) && closed_walk(outlines[i])
}

/// Walks each contour of a list into its outline, anticlockwise. The list is
/// refused if one of its contours is empty.
pub fn outline_contours(contours: &Vec<Vec<PixelPoint>>) -> (result: Result<
    Vec<Vec<GridPoint>>,
    OutlineError,
>)
    ensures
        all_nonempty(points_of(contours@)) <==> result is Ok,
        result matches Ok(outlines) ==> vertices_of(outlines@) == outlines_of(points_of(contours@)),
        result matches Ok(outlines) ==> all_connected(points_of(contours@)) ==> walk_sides(
            points_of(contours@),
            vertices_of(outlines@),
        ),
        result matches Err(e) ==> e == OutlineError::EmptyContour,
{
    let mut outlines: Vec<Vec<GridPoint>> = Vec::new();
    let mut i: usize = 0;
    while i < contours.len()
        invariant
            i <= contours.len(),
            outlines@.len() == i,
            forall|k: int| 0 <= k < i ==> (#[trigger] contours@[k])@.len() > 0,
            forall|k: int|
                0 <= k < i ==> (#[trigger] outlines@[k])@ == outline(
                    contours@[k]@,
                    Winding::Anticlockwise,
                ),
            forall|k: int|
                0 <= k < i && connected(contours@[k]@) ==> sides_walk(
                    contours@[k]@,
                    Winding::Anticlockwise,
                    (#[trigger] outlines@[k])@,
                ) && closed_walk(outlines@[k]@),
        decreases contours.len() - i,
    {
        match vectorize(&contours[i], Winding::Anticlockwise) {
            Ok(vertices) => {
                outlines.push(vertices);
            },
            Err(e) => {
                assert(points_of(contours@)[i as int].len() == 0);
                return Err(e);
            },
        }
        i = i + 1;
    }
    assert(vertices_of(outlines@) =~= outlines_of(points_of(contours@)));
    assert forall|k: int| 0 <= k < points_of(contours@).len() implies (#[trigger] points_of(
        contours@,
    )[k]).len() > 0 by {
        assert(contours@[k]@.len() > 0);
    }
    proof {
        if all_connected(points_of(contours@)) {
            assert forall|k: int| 0 <= k < vertices_of(outlines@).len() implies sides_walk(
                points_of(contours@)[k],
                Winding::Anticlockwise,
                #[trigger] vertices_of(outlines@)[k],
            ) && closed_walk(vertices_of(outlines@)[k]) by {
                assert(connected(points_of(contours@)[k]));
                assert(vertices_of(outlines@)[k] == outlines@[k]@);
            }
        }
    }
    Ok(outlines)
}

/// What `cell_outlines` returns for a segmentation.
pub open spec fn cell_outlines_of(width: u32, height: u32, labels: Seq<u16>) -> Result<
    Seq<Seq<GridPoint>>,
    CellError,
> {
    if width as nat * height as nat > MAX_PIXELS {
        Err(CellError::TooLarge)
    } else if labels.len() != width as nat * height as nat {
        Err(CellError::SizeMismatch)
    } else {
        Ok(outlines_of(traced_contours(width, height, mask_of(labels))))
    }
}

/// The outlines of the cells of a segmentation of `width` columns and
/// `height` rows, given row by row: the borders of its foreground, each
/// walked anticlockwise along the sides of its pixels.
pub fn cell_outlines(width: u32, height: u32, labels: &Vec<u16>) -> (result: Result<
    Vec<Vec<GridPoint>>,
    CellError,
>)
    ensures
        match cell_outlines_of(width, height, labels@) {
            Ok(expected) => result matches Ok(outlines) && vertices_of(outlines@) == expected
                && walk_sides(
                traced_contours(width, height, mask_of(labels@)),
                vertices_of(outlines@),
            ),
            Err(e) => result == Err::<Vec<Vec<GridPoint>>, CellError>(e),
        },
{
    assert(width as u64 * height as u64 <= u64::MAX) by (nonlinear_arith)
        requires
            width as u64 <= 0xffff_ffff,
            height as u64 <= 0xffff_ffff,
    ;
    let pixels: u64 = (width as u64) * (height as u64);
    if pixels > MAX_PIXELS as u64 {
        return Err(CellError::TooLarge);
    }
    if labels.len() as u64 != pixels {
        return Err(CellError::SizeMismatch);
    }
    let mask = foreground_mask(labels);
    let contours = find_contours(width, height, &mask);
    match outline_contours(&contours) {
        Ok(outlines) => Ok(outlines),
        Err(_) => {
            // No contour of the tracer is empty.
            assert(false);
            Ok(Vec::new())
        },
    }
}

} // verus!
