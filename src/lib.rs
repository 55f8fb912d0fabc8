//! Sampling scalar fields into intensity rasters, and the frame protocol that
//! animates a sequence of rasters in place on a terminal.
use vstd::prelude::*;

pub mod raster;
pub mod render;
pub mod sampler;

verus! {

} // verus!
