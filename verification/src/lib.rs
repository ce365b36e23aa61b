//! Geometry engine for painting annotations over large raster images.
//!
//! The crate holds the discrete half of the engine:
//!
//! - `corner`, `outline`: the corner cycle of a pixel, and the boundary walk
//!   that turns a chain of border pixels into a path along pixel edges;
//! - `cells`: from a labelled segmentation to the outlines of its regions;
//! - `raster`, `query`: the quadrant subdivision that selects the pixels
//!   under an annotation;
//! - `stroke`: the state machine of a brush stroke.
//!
//! Coordinates in world space, and the polygon algebra on them, belong to
//! the caller: the engine asks for them as answers and hands back what to do
//! next. The modules `outline_laws` and `raster_laws` hold what is proved of
//! outlines and queries beyond the contracts of the functions.

pub mod cells;
pub mod corner;
pub mod outline;
pub mod outline_laws;
pub mod query;
pub mod raster;
pub mod raster_laws;
pub mod stroke;
pub mod transform;
