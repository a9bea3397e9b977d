use pixelset::shapes::{Circle, CircleOutline, Ellipse, EllipseOutline, Rectangle, RectangleOutline, Shape};
use pixelset::{Pixel, PixelBox};

fn coords(v: &[Pixel]) -> Vec<(u16, u16)> {
    v.iter().map(|p| (p.x, p.y)).collect()
}

#[test]
fn rectangle_lists_row_major() {
    let r = Rectangle { x: 1, y: 2, width: 2, height: 2 };
    assert_eq!(coords(&r.iter_pixels()), vec![(1, 2), (2, 2), (1, 3), (2, 3)]);
    assert_eq!(r.len(), 4);
    assert!(r.has(Pixel::new(2, 3)));
    assert!(!r.has(Pixel::new(3, 3)));
    assert_eq!(r.set().len(), 4);
}

#[test]
fn rectangle_at_pixel_is_unit() {
    let r = Rectangle::at_pixel(Pixel::new(7, 9));
    assert_eq!(r, Rectangle { x: 7, y: 9, width: 1, height: 1 });
    let b: PixelBox = PixelBox::at_pixel(Pixel::new(7, 9));
    assert_eq!(b, r);
}

#[test]
fn rectangle_past_the_edge_is_clipped() {
    let r = Rectangle { x: 65534, y: 0, width: 5, height: 1 };
    assert_eq!(coords(&r.iter_pixels()), vec![(65534, 0), (65535, 0)]);
    assert_eq!(r.len(), 5);
    let big = Rectangle { x: 0, y: 0, width: 65535, height: 65535 };
    assert_eq!(big.len(), 65535 * 65535);
}

#[test]
fn rectangle_outline_has_a_hole() {
    let r = RectangleOutline { x: 0, y: 0, width: 4, height: 4, stroke: 1 };
    assert_eq!(r.set().len(), 12);
    assert!(!r.has(Pixel::new(1, 1)));
    assert!(r.has(Pixel::new(0, 2)));
    assert_eq!(r.len(), 12);
    let solid = RectangleOutline { x: 0, y: 0, width: 2, height: 2, stroke: 1 };
    assert_eq!(solid.set().len(), 4);
}

#[test]
fn circle_membership_and_pixels() {
    let c = Circle { cx: 5, cy: 5, radius: 1 };
    assert_eq!(coords(&c.iter_pixels()), vec![(5, 4), (4, 5), (5, 5), (6, 5), (5, 6)]);
    assert_eq!(c.len(), 4);
    let edge = Circle { cx: 0, cy: 0, radius: 2 };
    assert_eq!(edge.set().len(), 6);
    let huge = Circle { cx: 65535, cy: 65535, radius: 65535 };
    assert!(huge.has(Pixel::new(0, 65535)));
    assert!(!huge.has(Pixel::new(0, 0)));
}

#[test]
fn circle_outline_excludes_inside() {
    let c = CircleOutline { cx: 5, cy: 5, radius: 2, stroke: 1 };
    assert!(!c.has(Pixel::new(5, 5)));
    assert!(c.has(Pixel::new(5, 4)));
    assert!(c.has(Pixel::new(7, 5)));
    assert!(!c.has(Pixel::new(7, 7)));
    assert_eq!(c.set().len(), 12);
    assert_eq!(c.len(), 12);
}

#[test]
fn ellipse_in_its_box() {
    let e = Ellipse { x: 0, y: 0, width: 4, height: 2 };
    assert_eq!(e.set().len(), 8);
    let e = Ellipse { x: 10, y: 10, width: 5, height: 3 };
    assert!(e.has(Pixel::new(12, 11)));
    assert!(!e.has(Pixel::new(10, 10)));
    assert!(!e.has(Pixel::new(15, 11)));
    assert_eq!(e.len(), 15);
    let flat = Ellipse { x: 0, y: 0, width: 0, height: 3 };
    assert!(flat.set().is_empty());
}

#[test]
fn ellipse_outline_ring() {
    let e = EllipseOutline { x: 0, y: 0, width: 9, height: 9, stroke: 2 };
    assert!(!e.has(Pixel::new(4, 4)));
    assert!(e.has(Pixel::new(4, 0)));
    assert!(!e.has(Pixel::new(0, 0)));
    assert_eq!(e.len(), 81 - 25);
    let thick = EllipseOutline { x: 0, y: 0, width: 4, height: 4, stroke: 2 };
    assert_eq!(thick.set().len(), Ellipse { x: 0, y: 0, width: 4, height: 4 }.set().len());
}
