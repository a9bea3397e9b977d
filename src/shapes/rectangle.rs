use vstd::prelude::*;

use crate::pixel::Pixel;
use crate::set::PixelSet;
use super::{pixels_within, Shape};

verus! {

/// An axis-aligned rectangle of pixels: its top-left corner and its size.
///
/// Coordinates beyond `u16::MAX` hold no pixel, so a rectangle that reaches
/// past the coordinate range covers only its part inside it.
#[derive(Clone, Copy, PartialEq, Eq, Debug, Structural)]
pub struct Rectangle {
    /// The x-coordinate of the top-left corner.
    pub x: u16,
    /// The y-coordinate of the top-left corner.
    pub y: u16,
    /// The height in pixels.
    pub height: u16,
    /// The width in pixels.
    pub width: u16,
}

impl Rectangle {
    /// A rectangle that covers exactly `pixel`.
    pub fn at_pixel(pixel: Pixel) -> (r: Self)
        ensures
            r == (Rectangle { x: pixel.x, y: pixel.y, height: 1, width: 1 }),
    {
        Rectangle { x: pixel.x, y: pixel.y, height: 1, width: 1 }
    }
}

impl Shape for Rectangle {
    open spec fn spec_has(&self, pixel: Pixel) -> bool {
        &&& self.x <= pixel.x < self.x + self.width
        &&& self.y <= pixel.y < self.y + self.height
    }

    open spec fn spec_len(&self) -> int {
        self.width * self.height
    }

    fn set(&self) -> (r: PixelSet) {
        PixelSet::new_unchecked(self.iter_pixels())
    }

    fn iter_pixels(&self) -> (r: Vec<Pixel>) {
        let x1 = self.x as u32 + self.width as u32;
        let y1 = self.y as u32 + self.height as u32;
        let x1 = if x1 > 65536 { 65536 } else { x1 };
        let y1 = if y1 > 65536 { 65536 } else { y1 };
        let member = |p: Pixel| -> (b: bool)
            ensures
                b == self.spec_has(p),
            { self.has(p) };
        pixels_within(&member, Ghost(|p: Pixel| self.spec_has(p)), self.x as u32, x1, self.y as u32, y1)
    }

    fn len(&self) -> (r: usize) {
        let w = self.width as usize;
        let h = self.height as usize;
        assert(w * h <= 65535 * 65535) by (nonlinear_arith)
            requires
                w <= 65535,
                h <= 65535,
        ;
        w * h
    }

    fn has(&self, pixel: Pixel) -> (r: bool) {
        &&& self.x <= pixel.x
        &&& (pixel.x as u32) < self.x as u32 + self.width as u32
        &&& self.y <= pixel.y
        &&& (pixel.y as u32) < self.y as u32 + self.height as u32
    }
}

} // verus!
