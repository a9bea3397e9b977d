use vstd::prelude::*;

use crate::pixel::Pixel;
use crate::set::PixelSet;
use super::{pixels_within, Shape};

verus! {

/// A side length less twice the stroke, or zero when the stroke fills it.
pub open spec fn inner_extent(extent: u16, stroke: u16) -> int {
    if extent > 2 * stroke {
        extent - 2 * stroke
    } else {
        0
    }
}

/// The border of a rectangle, `stroke` pixels thick.
#[derive(Clone, Copy, PartialEq, Eq, Debug)]
pub struct RectangleOutline {
    /// The x-coordinate of the top-left corner.
    pub x: u16,
    /// The y-coordinate of the top-left corner.
    pub y: u16,
    /// The height in pixels.
    pub height: u16,
    /// The width in pixels.
    pub width: u16,
    /// The thickness of the border in pixels.
    pub stroke: u16,
}

/// `extent - 2 * stroke`, or zero when that is not positive.
fn inner(extent: u16, stroke: u16) -> (r: u32)
    ensures
        r == inner_extent(extent, stroke),
{
    let twice = 2 * stroke as u32;
    if extent as u32 > twice {
        extent as u32 - twice
    } else {
        0
    }
}

impl Shape for RectangleOutline {
    open spec fn spec_has(&self, pixel: Pixel) -> bool {
        let iw = inner_extent(self.width, self.stroke);
        let ih = inner_extent(self.height, self.stroke);
        &&& self.x <= pixel.x < self.x + self.width
        &&& self.y <= pixel.y < self.y + self.height
        &&& !(iw > 0 && ih > 0 && self.x + self.stroke <= pixel.x < self.x + self.stroke + iw
            && self.y + self.stroke <= pixel.y < self.y + self.stroke + ih)
    }

    open spec fn spec_len(&self) -> int {
        self.width * self.height - inner_extent(self.width, self.stroke) * inner_extent(
            self.height,
            self.stroke,
        )
    }

    fn set(&self) -> (r: PixelSet) {
        PixelSet::new_unchecked(self.iter_pixels())
    }

    fn iter_pixels(&self) -> (r: Vec<Pixel>) {
        let x1 = self.x as u32 + self.width as u32;
        let y1 = self.y as u32 + self.height as u32;
        let x1 = if x1 > 65536 { 65536 } else { x1 };
        let y1 = if y1 > 65536 { 65536 } else { y1 };
        let member = |p: Pixel| -> (b: bool)
            ensures
                b == self.spec_has(p),
            { self.has(p) };
        pixels_within(&member, Ghost(|p: Pixel| self.spec_has(p)), self.x as u32, x1, self.y as u32, y1)
    }

    fn len(&self) -> (r: usize) {
        let w = self.width as usize;
        let h = self.height as usize;
        let iw = inner(self.width, self.stroke) as usize;
        let ih = inner(self.height, self.stroke) as usize;
        assert(iw * ih <= w * h <= 65535 * 65535) by (nonlinear_arith)
            requires
                iw <= w <= 65535,
                ih <= h <= 65535,
        ;
        w * h - iw * ih
    }

    fn has(&self, pixel: Pixel) -> (r: bool) {
        let px = pixel.x as u32;
        let py = pixel.y as u32;
        let outer = self.x as u32 <= px && px < self.x as u32 + self.width as u32 && self.y as u32
            <= py && py < self.y as u32 + self.height as u32;
        if !outer {
            return false;
        }
        let inner_x = self.x as u32 + self.stroke as u32;
        let inner_y = self.y as u32 + self.stroke as u32;
        let inner_w = inner(self.width, self.stroke);
        let inner_h = inner(self.height, self.stroke);
        let in_inner = inner_w > 0 && inner_h > 0 && inner_x <= px && px < inner_x + inner_w
            && inner_y <= py && py < inner_y + inner_h;
        !in_inner
    }
}

} // verus!
