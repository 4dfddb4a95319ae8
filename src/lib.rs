//! Pixel-sorting engine: interval detection by luminance, per-interval
//! sorting along rows, columns, diagonals and rays, and the hue-rotation and
//! tint effects that go with it.
use vstd::prelude::*;

pub mod pixel;
pub mod intervals;
pub mod line;
pub mod raster;
pub mod traverse;
pub mod radial;
pub mod hue;
pub mod sorter;
pub mod buttons;
pub mod ui_state;
pub mod config;
pub mod processor;

verus! {

} // verus!
