use vstd::prelude::*;

use crate::pixel::Pixel;
use crate::set::{sorted, PixelSet};

pub use self::circle::Circle;
pub use self::circle_outline::CircleOutline;
pub use self::ellipse::Ellipse;
pub use self::ellipse_outline::EllipseOutline;
pub use self::rectangle::Rectangle;
pub use self::rectangle_outline::RectangleOutline;

mod circle;
mod circle_outline;
mod ellipse;
mod ellipse_outline;
mod rectangle;
mod rectangle_outline;

verus! {

/// A geometric shape that can be listed as a set of pixels.
///
/// Every shape is a closed-form membership test; its pixels are the pixel
/// coordinates for which the test holds.
pub trait Shape {
    /// Whether the shape covers `pixel`.
    spec fn spec_has(&self, pixel: Pixel) -> bool;

    /// The pixel count the shape reports (exact for rectangles, an estimate
    /// for the curved shapes).
    spec fn spec_len(&self) -> int;

    /// The shape's pixels as a set.
    fn set(&self) -> (r: PixelSet)
        ensures
            r.wf(),
            forall|p: Pixel| r@.contains(p) <==> self.spec_has(p),
    ;

    /// The shape's pixels in row-major order.
    fn iter_pixels(&self) -> (r: Vec<Pixel>)
        ensures
            sorted(r@),
            forall|p: Pixel| r@.contains(p) <==> self.spec_has(p),
    ;

    /// The pixel count the shape reports.
    fn len(&self) -> (r: usize)
        ensures
            r == self.spec_len(),
    ;

    /// Whether the shape covers `pixel`.
    fn has(&self, pixel: Pixel) -> (r: bool)
        ensures
            r == self.spec_has(pixel),
    ;
}

/// Lists, in row-major order, the pixels for which `member` holds inside the
/// window `[x0, x1) x [y0, y1)`, which must enclose all of them. `member`
/// decides `covered`.
pub(crate) fn pixels_within<F: Fn(Pixel) -> bool>(
    member: &F,
    covered: Ghost<spec_fn(Pixel) -> bool>,
    x0: u32,
    x1: u32,
    y0: u32,
    y1: u32,
) -> (r: Vec<Pixel>)
    requires
        x0 <= x1 <= 65536,
        y0 <= y1 <= 65536,
        forall|p: Pixel| member.requires((p,)),
        forall|p: Pixel, b: bool| member.ensures((p,), b) ==> b == covered@(p),
        forall|p: Pixel| #[trigger] covered@(p) ==> x0 <= p.x < x1 && y0 <= p.y < y1,
    ensures
        sorted(r@),
        forall|p: Pixel| r@.contains(p) <==> covered@(p),
{
    let mut out: Vec<Pixel> = Vec::new();
    let mut y: u32 = y0;
    while y < y1
        invariant
            x0 <= x1 <= 65536,
            y0 <= y <= y1 <= 65536,
            forall|p: Pixel| member.requires((p,)),
            forall|p: Pixel, b: bool| member.ensures((p,), b) ==> b == covered@(p),
            forall|p: Pixel| #[trigger] covered@(p) ==> x0 <= p.x < x1 && y0 <= p.y < y1,
            sorted(out@),
            forall|p: Pixel| out@.contains(p) <==> (covered@(p) && p.y < y),
            forall|k: int| 0 <= k < out@.len() ==> out@[k].y < y,
        decreases y1 - y,
    {
        let mut x: u32 = x0;
        while x < x1
            invariant
                x0 <= x <= x1 <= 65536,
                y0 <= y < y1 <= 65536,
                forall|p: Pixel| member.requires((p,)),
                forall|p: Pixel, b: bool| member.ensures((p,), b) ==> b == covered@(p),
                forall|p: Pixel| #[trigger] covered@(p) ==> x0 <= p.x < x1 && y0 <= p.y < y1,
                sorted(out@),
                forall|p: Pixel|
                    out@.contains(p) <==> (covered@(p) && (p.y < y || (p.y == y && p.x
                        < x))),
                forall|k: int|
                    0 <= k < out@.len() ==> (out@[k].y < y || (out@[k].y == y && out@[k].x < x)),
            decreases x1 - x,
        {
            let p = Pixel::new(x as u16, y as u16);
            let ghost before = out@;
            if member(p) {
                out.push(p);
                assert forall|q: Pixel| out@.contains(q) <==> (covered@(q) && (q.y < y || (
                q.y == y && q.x < x + 1))) by {
                    if before.contains(q) {
                        let k = choose|k: int| 0 <= k < before.len() && before[k] == q;
                        assert(out@[k] == q);
                    }
                    if out@.contains(q) && q != p {
                        let k = choose|k: int| 0 <= k < out@.len() && out@[k] == q;
                        assert(before[k] == q);
                    }
                    if q == p {
                        assert(out@[before.len() as int] == p);
                    }
                }
            } else {
                assert forall|q: Pixel| out@.contains(q) <==> (covered@(q) && (q.y < y || (
                q.y == y && q.x < x + 1))) by {
                    if q.y == y && q.x == x {
                        assert(q == p);
                    }
                }
            }
            x = x + 1;
        }
        y = y + 1;
    }
    out
}

} // verus!
