use vstd::prelude::*;

use crate::pixel::Pixel;
use crate::set::PixelSet;
use super::{pixels_within, Shape};

verus! {

/// The squared distance from `(cx, cy)` to a pixel.
pub open spec fn dist2(pixel: Pixel, cx: u16, cy: u16) -> int {
    (pixel.x - cx) * (pixel.x - cx) + (pixel.y - cy) * (pixel.y - cy)
}

/// `v`, or `usize::MAX` when `v` does not fit in a `usize`.
pub open spec fn saturate(v: int) -> int {
    if v <= usize::MAX {
        v
    } else {
        usize::MAX as int
    }
}

/// Converts `v` to a `usize`, saturating at `usize::MAX`.
pub(crate) fn saturating_usize(v: u64) -> (r: usize)
    ensures
        r == saturate(v as int),
{
    if v <= usize::MAX as u64 {
        v as usize
    } else {
        usize::MAX
    }
}

/// A square less than or equal to `r * r` has a root of size at most `r`.
pub(crate) proof fn lemma_square_bound(d: int, r: int)
    requires
        r >= 0,
        d * d <= r * r,
    ensures
        -r <= d <= r,
{
    if d > r {
        assert(d * d > r * r) by (nonlinear_arith)
            requires
                d > r,
                r >= 0,
        ;
    }
    if d < -r {
        assert(d * d > r * r) by (nonlinear_arith)
            requires
                d < -r,
                r >= 0,
        ;
    }
}

/// The squared distance from `(cx, cy)` to `pixel`, computed exactly.
pub(crate) fn squared_distance(pixel: Pixel, cx: u16, cy: u16) -> (r: i64)
    ensures
        r == dist2(pixel, cx, cy),
        0 <= r <= 2 * 65535 * 65535,
{
    let dx = pixel.x as i64 - cx as i64;
    let dy = pixel.y as i64 - cy as i64;
    assert(0 <= dx * dx <= 65535 * 65535 && 0 <= dy * dy <= 65535 * 65535) by (nonlinear_arith)
        requires
            -65535 <= dx <= 65535,
            -65535 <= dy <= 65535,
    ;
    dx * dx + dy * dy
}

/// The square window of half-side `radius` around `(cx, cy)`, clipped to the
/// coordinate range: `(x0, x1, y0, y1)`. It encloses every pixel within
/// distance `radius` of the center.
pub(crate) fn disc_window(cx: u16, cy: u16, radius: u16) -> (r: (u32, u32, u32, u32))
    ensures
        r.0 <= r.1 <= 65536,
        r.2 <= r.3 <= 65536,
        forall|p: Pixel|
            dist2(p, cx, cy) <= radius * radius ==> r.0 <= p.x < r.1 && r.2 <= p.y < r.3,
{
    let x0 = if cx >= radius { (cx - radius) as u32 } else { 0 };
    let y0 = if cy >= radius { (cy - radius) as u32 } else { 0 };
    let x1 = cx as u32 + radius as u32 + 1;
    let y1 = cy as u32 + radius as u32 + 1;
    let x1 = if x1 > 65536 { 65536 } else { x1 };
    let y1 = if y1 > 65536 { 65536 } else { y1 };
    assert forall|p: Pixel| dist2(p, cx, cy) <= radius * radius implies x0 <= p.x < x1 && y0
        <= p.y < y1 by {
        let dx = p.x - cx;
        let dy = p.y - cy;
        assert(dx * dx >= 0 && dy * dy >= 0) by (nonlinear_arith);
        lemma_square_bound(dx, radius as int);
        lemma_square_bound(dy, radius as int);
    }
    (x0, x1, y0, y1)
}

/// A filled circle: the pixels within `radius` of its center.
#[derive(Clone, Copy, PartialEq, Eq, Debug)]
pub struct Circle {
    /// The center's x-coordinate.
    pub cx: u16,
    /// The center's y-coordinate.
    pub cy: u16,
    /// The radius in pixels.
    pub radius: u16,
}

impl Shape for Circle {
    open spec fn spec_has(&self, pixel: Pixel) -> bool {
        dist2(pixel, self.cx, self.cy) <= self.radius * self.radius
    }

    /// A cheap estimate: the area of the enclosing square.
    open spec fn spec_len(&self) -> int {
        saturate(self.radius * self.radius * 4)
    }

    fn set(&self) -> (r: PixelSet) {
        PixelSet::new_unchecked(self.iter_pixels())
    }

    fn iter_pixels(&self) -> (r: Vec<Pixel>) {
        let (x0, x1, y0, y1) = disc_window(self.cx, self.cy, self.radius);
        let member = |p: Pixel| -> (b: bool)
            ensures
                b == self.spec_has(p),
            { self.has(p) };
        pixels_within(&member, Ghost(|p: Pixel| self.spec_has(p)), x0, x1, y0, y1)
    }

    fn len(&self) -> (r: usize) {
        let r = self.radius as u64;
        assert(r * r <= 65535 * 65535) by (nonlinear_arith)
            requires
                r <= 65535,
        ;
        saturating_usize(r * r * 4)
    }

    fn has(&self, pixel: Pixel) -> (r: bool) {
        let r = self.radius as i64;
        assert(r * r <= 65535 * 65535) by (nonlinear_arith)
            requires
                0 <= r <= 65535,
        ;
        squared_distance(pixel, self.cx, self.cy) <= r * r
    }
}

} // verus!
