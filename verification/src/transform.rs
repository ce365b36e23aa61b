//! Units of the spaces between which images are registered.

use vstd::prelude::*;

verus! {

/// The unit in which the coordinates of a space are measured.
#[derive(Clone, Copy, Debug, PartialEq, Eq, Structural)]
pub enum SpaceUnit {
    Pixels,
    Microns,
}

} // verus!
