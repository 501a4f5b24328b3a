//! A software rasterizer on an integer pixel grid.
//!
//! Points, line segments and triangles, given in pixel coordinates with an
//! integer depth coordinate, are converted into colored pixels of a
//! fixed-size raster image that keeps one color and one depth per cell.

pub mod pixel;
pub mod types;
pub mod utils;
pub mod texture;
pub mod line;
pub mod scan;
pub mod renderer;
