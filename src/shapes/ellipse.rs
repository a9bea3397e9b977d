use vstd::prelude::*;

use crate::pixel::Pixel;
use crate::set::PixelSet;
use super::{pixels_within, Shape};

verus! {

/// Twice the offset of a pixel's center from the center of the span
/// `[start, start + extent)`: `2 * (p + 1/2) - (2 * start + extent)`.
pub open spec fn offset2(p: u16, start: u16, extent: u16) -> int {
    2 * p + 1 - 2 * start - extent
}

/// Whether a pixel whose doubled center offsets are `(d, e)` lies in the ellipse
/// inscribed in a `w` by `h` box: `(d/w)^2 + (e/h)^2 <= 1`, in integers.
pub open spec fn in_ellipse(d: int, e: int, w: int, h: int) -> bool {
    w > 0 && h > 0 && (d * d) * (h * h) + (e * e) * (w * w) <= (w * w) * (h * h)
}

/// Whether the pixel lies in the box `[x, x + width) x [y, y + height)`.
pub open spec fn in_box(pixel: Pixel, x: u16, y: u16, width: u16, height: u16) -> bool {
    x <= pixel.x < x + width && y <= pixel.y < y + height
}

proof fn lemma_mul_le(a: int, b: int, c: int, d: int)
    requires
        0 <= a <= c,
        0 <= b <= d,
    ensures
        0 <= a * b <= c * d,
{
    assert(0 <= a * b <= c * d) by (nonlinear_arith)
        requires
            0 <= a <= c,
            0 <= b <= d,
    ;
}

/// Decides `in_ellipse(d, e, w, h)` for offsets inside the `w` by `h` box.
pub(crate) fn inside_ellipse(d: i64, e: i64, w: u32, h: u32) -> (r: bool)
    requires
        -65536 <= d <= 65536,
        -65536 <= e <= 65536,
        w <= 65536,
        h <= 65536,
    ensures
        r == in_ellipse(d as int, e as int, w as int, h as int),
{
    if w == 0 || h == 0 {
        return false;
    }
    assert(0 <= d * d <= 65536 * 65536 && 0 <= e * e <= 65536 * 65536) by (nonlinear_arith)
        requires
            -65536 <= d <= 65536,
            -65536 <= e <= 65536,
    ;
    proof {
        lemma_mul_le(w as int, w as int, 65536, 65536);
        lemma_mul_le(h as int, h as int, 65536, 65536);
    }
    let dd = d * d;
    let ee = e * e;
    let ww = w as u64 * w as u64;
    let hh = h as u64 * h as u64;
    proof {
        lemma_mul_le(dd as int, hh as int, 0x1_0000_0000, 0x1_0000_0000);
        lemma_mul_le(ee as int, ww as int, 0x1_0000_0000, 0x1_0000_0000);
        lemma_mul_le(ww as int, hh as int, 0x1_0000_0000, 0x1_0000_0000);
    }
    let lhs = (dd as u128) * (hh as u128) + (ee as u128) * (ww as u128);
    lhs <= (ww as u128) * (hh as u128)
}

/// The doubled offset of `p` in the span `[start, start + extent)`.
pub(crate) fn center_offset(p: u16, start: u16, extent: u16) -> (r: i64)
    ensures
        r == offset2(p, start, extent),
        -65536 * 3 <= r <= 65536 * 3,
{
    2 * p as i64 + 1 - 2 * start as i64 - extent as i64
}

/// The box `[x, x + width) x [y, y + height)` clipped to the coordinate range,
/// as a window `(x0, x1, y0, y1)`.
pub(crate) fn box_window(x: u16, y: u16, width: u16, height: u16) -> (r: (u32, u32, u32, u32))
    ensures
        r.0 <= r.1 <= 65536,
        r.2 <= r.3 <= 65536,
        forall|p: Pixel| in_box(p, x, y, width, height) ==> r.0 <= p.x < r.1 && r.2 <= p.y < r.3,
{
    let x1 = x as u32 + width as u32;
    let y1 = y as u32 + height as u32;
    let x1 = if x1 > 65536 { 65536 } else { x1 };
    let y1 = if y1 > 65536 { 65536 } else { y1 };
    (x as u32, x1, y as u32, y1)
}

/// A filled ellipse inscribed in a bounding box.
#[derive(Clone, Copy, PartialEq, Eq, Debug)]
pub struct Ellipse {
    /// The x-coordinate of the bounding box's top-left corner.
    pub x: u16,
    /// The y-coordinate of the bounding box's top-left corner.
    pub y: u16,
    /// The height of the bounding box.
    pub height: u16,
    /// The width of the bounding box.
    pub width: u16,
}

impl Shape for Ellipse {
    open spec fn spec_has(&self, pixel: Pixel) -> bool {
        &&& in_box(pixel, self.x, self.y, self.width, self.height)
        &&& in_ellipse(
            offset2(pixel.x, self.x, self.width),
            offset2(pixel.y, self.y, self.height),
            self.width as int,
            self.height as int,
        )
    }

    /// A cheap bound: the area of the bounding box.
    open spec fn spec_len(&self) -> int {
        self.width * self.height
    }

    fn set(&self) -> (r: PixelSet) {
        PixelSet::new_unchecked(self.iter_pixels())
    }

    fn iter_pixels(&self) -> (r: Vec<Pixel>) {
        let (x0, x1, y0, y1) = box_window(self.x, self.y, self.width, self.height);
        let member = |p: Pixel| -> (b: bool)
            ensures
                b == self.spec_has(p),
            { self.has(p) };
        pixels_within(&member, Ghost(|p: Pixel| self.spec_has(p)), x0, x1, y0, y1)
    }

    fn len(&self) -> (r: usize) {
        let w = self.width as usize;
        let h = self.height as usize;
        assert(w * h <= 65535 * 65535) by (nonlinear_arith)
            requires
                w <= 65535,
                h <= 65535,
        ;
        w * h
    }

    fn has(&self, pixel: Pixel) -> (r: bool) {
        let px = pixel.x as u32;
        let py = pixel.y as u32;
        if px < self.x as u32 || px >= self.x as u32 + self.width as u32 || py < self.y as u32 || py
            >= self.y as u32 + self.height as u32 {
            return false;
        }
        let d = center_offset(pixel.x, self.x, self.width);
        let e = center_offset(pixel.y, self.y, self.height);
        inside_ellipse(d, e, self.width as u32, self.height as u32)
    }
}

} // verus!
