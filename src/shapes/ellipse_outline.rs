use vstd::prelude::*;

use crate::pixel::Pixel;
use crate::set::PixelSet;
use super::ellipse::{box_window, center_offset, in_box, in_ellipse, inside_ellipse, offset2};
use super::rectangle_outline::inner_extent;
use super::{pixels_within, Shape};

verus! {

/// The border of an ellipse inscribed in a bounding box, `stroke` pixels thick:
/// the pixels of the ellipse that are not in the ellipse, on the same center,
/// whose box is `2 * stroke` smaller on each axis.
#[derive(Clone, Copy, PartialEq, Eq, Debug)]
pub struct EllipseOutline {
    /// The x-coordinate of the bounding box's top-left corner.
    pub x: u16,
    /// The y-coordinate of the bounding box's top-left corner.
    pub y: u16,
    /// The height of the bounding box.
    pub height: u16,
    /// The width of the bounding box.
    pub width: u16,
    /// The thickness of the border in pixels.
    pub stroke: u16,
}

/// `extent - 2 * stroke`, or zero when that is not positive.
fn shrink(extent: u16, stroke: u16) -> (r: u32)
    ensures
        r == inner_extent(extent, stroke),
{
    let twice = 2 * stroke as u32;
    if extent as u32 > twice {
        extent as u32 - twice
    } else {
        0
    }
}

impl Shape for EllipseOutline {
    open spec fn spec_has(&self, pixel: Pixel) -> bool {
        let d = offset2(pixel.x, self.x, self.width);
        let e = offset2(pixel.y, self.y, self.height);
        let iw = inner_extent(self.width, self.stroke);
        let ih = inner_extent(self.height, self.stroke);
        &&& in_box(pixel, self.x, self.y, self.width, self.height)
        &&& in_ellipse(d, e, self.width as int, self.height as int)
        &&& (iw == 0 || ih == 0 || !in_ellipse(d, e, iw, ih))
    }

    /// A cheap bound: the bounding box's area less the inner box's area.
    open spec fn spec_len(&self) -> int {
        self.width * self.height - inner_extent(self.width, self.stroke) * inner_extent(
            self.height,
            self.stroke,
        )
    }

    fn set(&self) -> (r: PixelSet) {
        PixelSet::new_unchecked(self.iter_pixels())
    }

    fn iter_pixels(&self) -> (r: Vec<Pixel>) {
        let (x0, x1, y0, y1) = box_window(self.x, self.y, self.width, self.height);
        let member = |p: Pixel| -> (b: bool)
            ensures
                b == self.spec_has(p),
            { self.has(p) };
        pixels_within(&member, Ghost(|p: Pixel| self.spec_has(p)), x0, x1, y0, y1)
    }

    fn len(&self) -> (r: usize) {
        let w = self.width as usize;
        let h = self.height as usize;
        let iw = shrink(self.width, self.stroke) as usize;
        let ih = shrink(self.height, self.stroke) as usize;
        assert(iw * ih <= w * h <= 65535 * 65535) by (nonlinear_arith)
            requires
                iw <= w <= 65535,
                ih <= h <= 65535,
        ;
        w * h - iw * ih
    }

    fn has(&self, pixel: Pixel) -> (r: bool) {
        let px = pixel.x as u32;
        let py = pixel.y as u32;
        if px < self.x as u32 || px >= self.x as u32 + self.width as u32 || py < self.y as u32 || py
            >= self.y as u32 + self.height as u32 {
            return false;
        }
        let d = center_offset(pixel.x, self.x, self.width);
        let e = center_offset(pixel.y, self.y, self.height);
        if !inside_ellipse(d, e, self.width as u32, self.height as u32) {
            return false;
        }
        let inner_w = shrink(self.width, self.stroke);
        let inner_h = shrink(self.height, self.stroke);
        if inner_w == 0 || inner_h == 0 {
            return true;
        }
        !inside_ellipse(d, e, inner_w, inner_h)
    }
}

} // verus!
