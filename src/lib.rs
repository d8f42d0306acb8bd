//! Frame pipeline for a wall of 128x128 map displays: palette tables, tile-grid
//! geometry with centring, and partitioning of rendered frames into tiles.
use vstd::prelude::*;

pub mod palette;
pub mod renderer;
pub mod tiling;

verus! {

} // verus!
