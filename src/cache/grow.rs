use vstd::prelude::*;

use crate::pixel::Pixel;
use crate::set::PixelSet;
use crate::shapes::{Rectangle, Shape};

verus! {

/// The rectangle lies inside the coordinate range and covers at least a pixel.
pub open spec fn fits(b: Rectangle) -> bool {
    &&& b.width >= 1
    &&& b.height >= 1
    &&& b.x + b.width <= 65536
    &&& b.y + b.height <= 65536
}

/// Every pixel of the rectangle is in `s`.
pub open spec fn inside(b: Rectangle, s: Seq<Pixel>) -> bool {
    forall|p: Pixel| #[trigger] b.spec_has(p) ==> s.contains(p)
}

/// The column just right of the rectangle.
pub open spec fn right_strip(b: Rectangle, p: Pixel) -> bool {
    p.x == b.x + b.width && b.y <= p.y < b.y + b.height
}

/// The column just left of the rectangle.
pub open spec fn left_strip(b: Rectangle, p: Pixel) -> bool {
    p.x + 1 == b.x && b.y <= p.y < b.y + b.height
}

/// The row just below the rectangle.
pub open spec fn down_strip(b: Rectangle, p: Pixel) -> bool {
    p.y == b.y + b.height && b.x <= p.x < b.x + b.width
}

/// The row just above the rectangle.
pub open spec fn up_strip(b: Rectangle, p: Pixel) -> bool {
    p.y + 1 == b.y && b.x <= p.x < b.x + b.width
}

/// The rectangle cannot gain a column on the right: the column or the wider
/// rectangle would leave the coordinate range, or a pixel of it is not in `s`.
pub open spec fn blocked_right(b: Rectangle, s: Seq<Pixel>) -> bool {
    b.x + b.width > 65535 || b.width >= 65535 || exists|p: Pixel|
        #[trigger] right_strip(b, p) && !s.contains(p)
}

/// The rectangle cannot gain a column on the left.
pub open spec fn blocked_left(b: Rectangle, s: Seq<Pixel>) -> bool {
    b.x == 0 || b.width >= 65535 || exists|p: Pixel| #[trigger] left_strip(b, p) && !s.contains(p)
}

/// The rectangle cannot gain a row below.
pub open spec fn blocked_down(b: Rectangle, s: Seq<Pixel>) -> bool {
    b.y + b.height > 65535 || b.height >= 65535 || exists|p: Pixel|
        #[trigger] down_strip(b, p) && !s.contains(p)
}

/// The rectangle cannot gain a row above.
pub open spec fn blocked_up(b: Rectangle, s: Seq<Pixel>) -> bool {
    b.y == 0 || b.height >= 65535 || exists|p: Pixel| #[trigger] up_strip(b, p) && !s.contains(p)
}

/// A rectangle grown from `a` keeps each blocked side whose edge did not move.
proof fn lemma_blocked_kept(a: Rectangle, b: Rectangle, s: Seq<Pixel>)
    requires
        b.x <= a.x,
        b.y <= a.y,
        a.x + a.width <= b.x + b.width,
        a.y + a.height <= b.y + b.height,
        a.width <= b.width,
        a.height <= b.height,
    ensures
        b.x + b.width == a.x + a.width && blocked_right(a, s) ==> blocked_right(b, s),
        b.x == a.x && blocked_left(a, s) ==> blocked_left(b, s),
        b.y + b.height == a.y + a.height && blocked_down(a, s) ==> blocked_down(b, s),
        b.y == a.y && blocked_up(a, s) ==> blocked_up(b, s),
{
    if exists|p: Pixel| #[trigger] right_strip(a, p) && !s.contains(p) {
        let p = choose|p: Pixel| #[trigger] right_strip(a, p) && !s.contains(p);
        if b.x + b.width == a.x + a.width {
            assert(right_strip(b, p));
        }
    }
    if exists|p: Pixel| #[trigger] left_strip(a, p) && !s.contains(p) {
        let p = choose|p: Pixel| #[trigger] left_strip(a, p) && !s.contains(p);
        if b.x == a.x {
            assert(left_strip(b, p));
        }
    }
    if exists|p: Pixel| #[trigger] down_strip(a, p) && !s.contains(p) {
        let p = choose|p: Pixel| #[trigger] down_strip(a, p) && !s.contains(p);
        if b.y + b.height == a.y + a.height {
            assert(down_strip(b, p));
        }
    }
    if exists|p: Pixel| #[trigger] up_strip(a, p) && !s.contains(p) {
        let p = choose|p: Pixel| #[trigger] up_strip(a, p) && !s.contains(p);
        if b.y == a.y {
            assert(up_strip(b, p));
        }
    }
}

/// The one-pixel strips just outside a rectangle.
struct Stretch;

impl Stretch {
    /// The column right of `rectangle`, if the grown rectangle stays in range.
    fn right(rectangle: &Rectangle) -> (r: Option<Rectangle>)
        ensures
            r is Some <==> !(rectangle.x + rectangle.width > 65535 || rectangle.width >= 65535),
            r is Some ==> forall|p: Pixel| r->0.spec_has(p) <==> right_strip(*rectangle, p),
    {
        if (rectangle.x as u32) + (rectangle.width as u32) <= 65535 && rectangle.width < 65535 {
            Some(
                Rectangle {
                    x: rectangle.x + rectangle.width,
                    y: rectangle.y,
                    height: rectangle.height,
                    width: 1,
                },
            )
        } else {
            None
        }
    }

    /// The column left of `rectangle`, if the grown rectangle stays in range.
    fn left(rectangle: &Rectangle) -> (r: Option<Rectangle>)
        ensures
            r is Some <==> !(rectangle.x == 0 || rectangle.width >= 65535),
            r is Some ==> forall|p: Pixel| r->0.spec_has(p) <==> left_strip(*rectangle, p),
    {
        if rectangle.x > 0 && rectangle.width < 65535 {
            Some(
                Rectangle {
                    x: rectangle.x - 1,
                    y: rectangle.y,
                    height: rectangle.height,
                    width: 1,
                },
            )
        } else {
            None
        }
    }

    /// The row above `rectangle`, if the grown rectangle stays in range.
    fn up(rectangle: &Rectangle) -> (r: Option<Rectangle>)
        ensures
            r is Some <==> !(rectangle.y == 0 || rectangle.height >= 65535),
            r is Some ==> forall|p: Pixel| r->0.spec_has(p) <==> up_strip(*rectangle, p),
    {
        if rectangle.y > 0 && rectangle.height < 65535 {
            Some(
                Rectangle {
                    x: rectangle.x,
                    y: rectangle.y - 1,
                    height: 1,
                    width: rectangle.width,
                },
            )
        } else {
            None
        }
    }

    /// The row below `rectangle`, if the grown rectangle stays in range.
    fn down(rectangle: &Rectangle) -> (r: Option<Rectangle>)
        ensures
            r is Some <==> !(rectangle.y + rectangle.height > 65535 || rectangle.height >= 65535),
            r is Some ==> forall|p: Pixel| r->0.spec_has(p) <==> down_strip(*rectangle, p),
    {
        if (rectangle.y as u32) + (rectangle.height as u32) <= 65535 && rectangle.height < 65535 {
            Some(
                Rectangle {
                    x: rectangle.x,
                    y: rectangle.y + rectangle.height,
                    height: 1,
                    width: rectangle.width,
                },
            )
        } else {
            None
        }
    }
}

/// Whether `strip` exists and all its pixels are in `set`.
fn strip_inside(strip: Option<Rectangle>, set: &PixelSet) -> (r: bool)
    requires
        set.wf(),
    ensures
        r == (strip is Some && forall|p: Pixel| strip->0.spec_has(p) ==> set@.contains(p)),
{
    match strip {
        Some(s) => {
            let pixels = s.set();
            let r = pixels.is_subset(set);
            assert(r == (forall|p: Pixel| s.spec_has(p) ==> set@.contains(p))) by {
                if r {
                    assert forall|p: Pixel| s.spec_has(p) implies set@.contains(p) by {
                        assert(pixels@.to_set().contains(p));
                        assert(set@.to_set().contains(p));
                    }
                } else {
                    let q = choose|q: Pixel| pixels@.to_set().contains(q) && !set@.to_set().contains(q);
                    assert(s.spec_has(q) && !set@.contains(q));
                }
            }
            r
        },
        None => false,
    }
}

/// Grows the largest box the greedy policy reaches from `pixel` inside `set`.
///
/// Starting from the unit box at `pixel`, each round tries, in the order
/// right, left, down, up, to add the one-pixel strip on that side; a side
/// whose strip is not wholly in `set`, or lies outside the coordinate range,
/// is closed for good. Growth stops when all four sides are closed. The
/// result lies in `set`, holds `pixel`, and cannot be extended on any side.
pub fn grow_pixel_into_box(pixel: Pixel, set: &PixelSet) -> (r: Rectangle)
    requires
        set.wf(),
        set@.contains(pixel),
    ensures
        fits(r),
        r.spec_has(pixel),
        inside(r, set@),
        blocked_right(r, set@),
        blocked_left(r, set@),
        blocked_down(r, set@),
        blocked_up(r, set@),
{
    let mut rectangle = Rectangle::at_pixel(pixel);
    let mut can_go_right = true;
    let mut can_go_left = true;
    let mut can_go_down = true;
    let mut can_go_up = true;
    while can_go_right || can_go_left || can_go_down || can_go_up
        invariant
            set.wf(),
            fits(rectangle),
            rectangle.spec_has(pixel),
            inside(rectangle, set@),
            !can_go_right ==> blocked_right(rectangle, set@),
            !can_go_left ==> blocked_left(rectangle, set@),
            !can_go_down ==> blocked_down(rectangle, set@),
            !can_go_up ==> blocked_up(rectangle, set@),
        decreases 5 * (131070 - rectangle.width - rectangle.height) + (can_go_right as int) + (
        can_go_left as int) + (can_go_down as int) + (can_go_up as int),
    {
        if can_go_right {
            let before = rectangle;
            let strip = Stretch::right(&rectangle);
            if strip_inside(strip, set) {
                rectangle.width = rectangle.width + 1;
                proof {
                    lemma_blocked_kept(before, rectangle, set@);
                    assert forall|p: Pixel| #[trigger] rectangle.spec_has(p) implies set@.contains(
                        p,
                    ) by {
                        if !before.spec_has(p) {
                            assert(right_strip(before, p));
                        }
                    }
                }
            } else {
                proof {
                    if strip is Some {
                        let q = choose|q: Pixel| strip->0.spec_has(q) && !set@.contains(q);
                        assert(right_strip(rectangle, q));
                    }
                }
                can_go_right = false;
            }
        }
        if can_go_left {
            let before = rectangle;
            let strip = Stretch::left(&rectangle);
            if strip_inside(strip, set) {
                rectangle.width = rectangle.width + 1;
                rectangle.x = rectangle.x - 1;
                proof {
                    lemma_blocked_kept(before, rectangle, set@);
                    assert forall|p: Pixel| #[trigger] rectangle.spec_has(p) implies set@.contains(
                        p,
                    ) by {
                        if !before.spec_has(p) {
                            assert(left_strip(before, p));
                        }
                    }
                }
            } else {
                proof {
                    if strip is Some {
                        let q = choose|q: Pixel| strip->0.spec_has(q) && !set@.contains(q);
                        assert(left_strip(rectangle, q));
                    }
                }
                can_go_left = false;
            }
        }
        if can_go_down {
            let before = rectangle;
            let strip = Stretch::down(&rectangle);
            if strip_inside(strip, set) {
                rectangle.height = rectangle.height + 1;
                proof {
                    lemma_blocked_kept(before, rectangle, set@);
                    assert forall|p: Pixel| #[trigger] rectangle.spec_has(p) implies set@.contains(
                        p,
                    ) by {
                        if !before.spec_has(p) {
                            assert(down_strip(before, p));
                        }
                    }
                }
            } else {
                proof {
                    if strip is Some {
                        let q = choose|q: Pixel| strip->0.spec_has(q) && !set@.contains(q);
                        assert(down_strip(rectangle, q));
                    }
                }
                can_go_down = false;
            }
        }
        if can_go_up {
            let before = rectangle;
            let strip = Stretch::up(&rectangle);
            if strip_inside(strip, set) {
                rectangle.y = rectangle.y - 1;
                rectangle.height = rectangle.height + 1;
                proof {
                    lemma_blocked_kept(before, rectangle, set@);
                    assert forall|p: Pixel| #[trigger] rectangle.spec_has(p) implies set@.contains(
                        p,
                    ) by {
                        if !before.spec_has(p) {
                            assert(up_strip(before, p));
                        }
                    }
                }
            } else {
                proof {
                    if strip is Some {
                        let q = choose|q: Pixel| strip->0.spec_has(q) && !set@.contains(q);
                        assert(up_strip(rectangle, q));
                    }
                }
                can_go_up = false;
            }
        }
    }
    rectangle
}

} // verus!
