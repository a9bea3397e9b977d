use vstd::prelude::*;

use crate::pixel::Pixel;
use crate::set::PixelSet;
use super::circle::{disc_window, dist2, saturate, saturating_usize, squared_distance};
use super::{pixels_within, Shape};

verus! {

/// The radius of the hole inside a ring: `radius - stroke`, or zero.
pub open spec fn hole_radius(radius: u16, stroke: u16) -> int {
    if radius > stroke {
        radius - stroke
    } else {
        0
    }
}

/// A ring: the pixels within `radius` of the center but not strictly within
/// `radius - stroke` of it.
#[derive(Clone, Copy, PartialEq, Eq, Debug)]
pub struct CircleOutline {
    /// The center's x-coordinate.
    pub cx: u16,
    /// The center's y-coordinate.
    pub cy: u16,
    /// The outer radius.
    pub radius: u16,
    /// The thickness of the ring in pixels.
    pub stroke: u16,
}

impl Shape for CircleOutline {
    open spec fn spec_has(&self, pixel: Pixel) -> bool {
        let h = hole_radius(self.radius, self.stroke);
        &&& dist2(pixel, self.cx, self.cy) <= self.radius * self.radius
        &&& !(dist2(pixel, self.cx, self.cy) < h * h)
    }

    /// A cheap estimate: the outer square's area less the hole's square.
    open spec fn spec_len(&self) -> int {
        saturate(
            self.radius * self.radius * 4 - hole_radius(self.radius, self.stroke) * hole_radius(
                self.radius,
                self.stroke,
            ) * 4,
        )
    }

    fn set(&self) -> (r: PixelSet) {
        PixelSet::new_unchecked(self.iter_pixels())
    }

    fn iter_pixels(&self) -> (r: Vec<Pixel>) {
        let (x0, x1, y0, y1) = disc_window(self.cx, self.cy, self.radius);
        let member = |p: Pixel| -> (b: bool)
            ensures
                b == self.spec_has(p),
            { self.has(p) };
        pixels_within(&member, Ghost(|p: Pixel| self.spec_has(p)), x0, x1, y0, y1)
    }

    fn len(&self) -> (r: usize) {
        let r = self.radius as u64;
        let h = if self.radius > self.stroke { (self.radius - self.stroke) as u64 } else { 0 };
        assert(h * h <= r * r <= 65535 * 65535) by (nonlinear_arith)
            requires
                h <= r <= 65535,
        ;
        saturating_usize(r * r * 4 - h * h * 4)
    }

    fn has(&self, pixel: Pixel) -> (r: bool) {
        let d = squared_distance(pixel, self.cx, self.cy);
        let r = self.radius as i64;
        let h = if self.radius > self.stroke { (self.radius - self.stroke) as i64 } else { 0 };
        assert(h * h <= r * r <= 65535 * 65535) by (nonlinear_arith)
            requires
                0 <= h <= r <= 65535,
        ;
        d <= r * r && !(d < h * h)
    }
}

} // verus!
