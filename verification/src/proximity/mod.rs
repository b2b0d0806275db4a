//! Pre-computed proximity flags: the grid of cells that says whether a point
//! is near residential areas or inside a military area, and its byte format.

pub mod rasterized_grid;
