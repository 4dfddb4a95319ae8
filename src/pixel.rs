//! The RGB pixel and its integer luminance.
use vstd::prelude::*;

verus! {

/// One RGB pixel with three 8-bit channels.
#[derive(Clone, Copy, Debug, PartialEq, Eq, Structural)]
pub struct Pixel {
    pub r: u8,
    pub g: u8,
    pub b: u8,
}

/// BT.601 luminance `0.299 R + 0.587 G + 0.114 B`, scaled by 1000 so that it
/// is an exact integer in `0 ..= 255000`.
pub open spec fn luma(p: Pixel) -> int {
    299 * p.r + 587 * p.g + 114 * p.b
}

/// Largest value that `luma` takes (white).
pub const MAX_LUMA: u32 = 255000;

impl Pixel {
    pub fn new(r: u8, g: u8, b: u8) -> (p: Pixel)
        ensures
            p == (Pixel { r, g, b }),
    {
        Pixel { r, g, b }
    }

    /// Luminance in thousandths (see `luma`).
    pub fn luminance(&self) -> (l: u32)
        ensures
            l as int == luma(*self),
            l <= MAX_LUMA,
    {
        299 * (self.r as u32) + 587 * (self.g as u32) + 114 * (self.b as u32)
    }
}

} // verus!
