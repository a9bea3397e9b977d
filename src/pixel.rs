use vstd::prelude::*;

use crate::set::PixelSet;
use crate::shapes::pixels_within;

verus! {

/// A single 2D pixel coordinate.
///
/// Fields are declared `y` first so that the derived ordering is row-major:
/// by `y`, then by `x`.
#[derive(Clone, Copy, Debug, PartialEq, Eq, PartialOrd, Ord, Hash, Structural)]
pub struct Pixel {
    /// The vertical coordinate.
    pub y: u16,
    /// The horizontal coordinate.
    pub x: u16,
}

/// The size of an image: the pixels with `x < width` and `y < height`.
#[derive(Clone, Copy, Debug, PartialEq, Eq, Hash, Structural)]
pub struct Bounds {
    /// The number of columns.
    pub width: u32,
    /// The number of rows.
    pub height: u32,
}

/// Whether `p` lies inside an image of size `image`.
pub open spec fn in_bounds(p: Pixel, image: Bounds) -> bool {
    p.x < image.width && p.y < image.height
}

/// Whether `q` is one of the eight pixels around `p`.
pub open spec fn adjacent(p: Pixel, q: Pixel) -> bool {
    &&& p != q
    &&& -1 <= q.x - p.x <= 1
    &&& -1 <= q.y - p.y <= 1
}

/// The row-major ordering key of a pixel: `y` in the high half, `x` in the low.
pub open spec fn key_of(p: Pixel) -> int {
    p.y as int * 65536 + p.x as int
}

/// Two pixels with the same key are the same pixel.
pub proof fn lemma_key_injective(p: Pixel, q: Pixel)
    ensures
        key_of(p) == key_of(q) <==> p == q,
{
}

impl Pixel {
    /// Creates a pixel at `(x, y)`.
    pub fn new(x: u16, y: u16) -> (r: Self)
        ensures
            r.x == x,
            r.y == y,
    {
        Pixel { x, y }
    }

    /// A compact key for this pixel whose integer order is row-major order.
    pub fn key(&self) -> (r: u32)
        ensures
            r == key_of(*self),
    {
        let y = self.y as u32;
        let x = self.x as u32;
        let r = (y << 16u32) | x;
        assert(r == y * 65536 + x) by (bit_vector)
            requires
                y < 65536,
                x < 65536,
                r == (y << 16u32) | x,
        ;
        r
    }

    /// The pixels around this one, of the eight, that lie inside `image`.
    pub fn neighbors(self, image: Bounds) -> (r: PixelSet)
        ensures
            r.wf(),
            forall|q: Pixel| r@.contains(q) <==> adjacent(self, q) && in_bounds(q, image),
    {
        let width = if image.width < 65536 { image.width } else { 65536 };
        let height = if image.height < 65536 { image.height } else { 65536 };
        let x0 = if self.x > 0 { self.x as u32 - 1 } else { 0 };
        let y0 = if self.y > 0 { self.y as u32 - 1 } else { 0 };
        let x1 = if self.x as u32 + 2 < width { self.x as u32 + 2 } else { width };
        let y1 = if self.y as u32 + 2 < height { self.y as u32 + 2 } else { height };
        let x1 = if x1 < x0 { x0 } else { x1 };
        let y1 = if y1 < y0 { y0 } else { y1 };
        let member = |q: Pixel| -> (b: bool)
            ensures
                b == (adjacent(self, q) && in_bounds(q, image)),
            {
                &&& q != self
                &&& q.x as u32 + 1 >= self.x as u32
                &&& q.x as u32 <= self.x as u32 + 1
                &&& q.y as u32 + 1 >= self.y as u32
                &&& q.y as u32 <= self.y as u32 + 1
                &&& (q.x as u32) < image.width
                &&& (q.y as u32) < image.height
            };
        let pixels = pixels_within(
            &member,
            Ghost(|q: Pixel| adjacent(self, q) && in_bounds(q, image)),
            x0,
            x1,
            y0,
            y1,
        );
        PixelSet::new_unchecked(pixels)
    }
}

} // verus!
