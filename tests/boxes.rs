use pixelset::shapes::{Rectangle, Shape};
use pixelset::{grow_pixel_into_box, Pixel, PixelCache, PixelSet};

fn set_of(points: &[(u16, u16)]) -> PixelSet {
    PixelSet::new(points.iter().map(|&(x, y)| Pixel::new(x, y)).collect())
}

fn points(set: &PixelSet) -> Vec<(u16, u16)> {
    set.iter().map(|p| (p.x, p.y)).collect()
}

fn block(x0: u16, y0: u16, w: u16, h: u16) -> Vec<(u16, u16)> {
    let mut v = vec![];
    for y in y0..y0 + h {
        for x in x0..x0 + w {
            v.push((x, y));
        }
    }
    v
}

fn assert_disjoint(cache: &PixelCache) {
    for (i, a) in cache.boxes.iter().enumerate() {
        for b in cache.boxes.iter().skip(i + 1) {
            assert!(!a.set().intersects(&b.set()), "{:?} overlaps {:?}", a, b);
        }
    }
}

#[test]
fn grow_fills_a_full_block_from_its_center() {
    let s = set_of(&block(0, 0, 3, 3));
    let r = grow_pixel_into_box(Pixel::new(1, 1), &s);
    assert_eq!(r, Rectangle { x: 0, y: 0, width: 3, height: 3 });
}

#[test]
fn grow_stops_at_once_on_a_lone_pixel() {
    let s = set_of(&[(5, 5)]);
    let r = grow_pixel_into_box(Pixel::new(5, 5), &s);
    assert_eq!(r, Rectangle { x: 5, y: 5, width: 1, height: 1 });
}

#[test]
fn grow_result_is_inside_and_maximal() {
    let mut pts = block(2, 2, 4, 3);
    pts.push((6, 3));
    pts.push((1, 2));
    let s = set_of(&pts);
    let r = grow_pixel_into_box(Pixel::new(3, 3), &s);
    assert!(r.set().is_subset(&s));
    assert!(r.has(Pixel::new(3, 3)));
    let grown = [
        Rectangle { x: r.x, y: r.y, width: r.width + 1, height: r.height },
        Rectangle { x: r.x - 1, y: r.y, width: r.width + 1, height: r.height },
        Rectangle { x: r.x, y: r.y, width: r.width, height: r.height + 1 },
        Rectangle { x: r.x, y: r.y - 1, width: r.width, height: r.height + 1 },
    ];
    for g in grown {
        assert!(!g.set().is_subset(&s));
    }
}

#[test]
fn grow_at_the_coordinate_edge() {
    let s = set_of(&[(65534, 65535), (65535, 65535), (65535, 65534)]);
    let r = grow_pixel_into_box(Pixel::new(65535, 65535), &s);
    assert!(r.set().is_subset(&s));
    assert!(r.has(Pixel::new(65535, 65535)));
    assert_eq!(r.len(), 2);
}

#[test]
fn cache_of_l_shape_round_trips() {
    let s = set_of(&[(0, 0), (1, 0), (0, 1)]);
    for _ in 0..20 {
        let cache = PixelCache::generate_from_set(&s);
        assert_eq!(points(&cache.group()), points(&s));
        assert_disjoint(&cache);
        assert_eq!(cache.len(), 3);
    }
}

#[test]
fn cache_with_picks_is_deterministic() {
    let s = set_of(&[(0, 0), (1, 0), (0, 1)]);
    let cache = PixelCache::generate_with_picks(&s, &vec![0]);
    assert_eq!(cache.boxes, vec![
        Rectangle { x: 0, y: 0, width: 2, height: 1 },
        Rectangle { x: 0, y: 1, width: 1, height: 1 },
    ]);
    let cache = PixelCache::generate_with_picks(&s, &vec![2]);
    assert_eq!(cache.boxes[0], Rectangle { x: 0, y: 0, width: 1, height: 2 });
    assert_eq!(points(&cache.group()), points(&s));
    assert_disjoint(&cache);
}

#[test]
fn cache_round_trips_irregular_region() {
    let mut pts = block(0, 0, 5, 4);
    pts.extend(block(7, 2, 3, 6));
    pts.extend([(20, 20), (21, 21), (4, 9), (5, 9), (6, 9)]);
    let s = set_of(&pts);
    for picks in [vec![], vec![3, 1, 4, 1, 5], vec![usize::MAX]] {
        let cache = PixelCache::generate_with_picks(&s, &picks);
        assert_eq!(points(&cache.group()), points(&s));
        assert_disjoint(&cache);
        assert_eq!(cache.len(), s.len());
    }
    let cache = PixelCache::generate_from_set(&s);
    assert_eq!(points(&cache.group()), points(&s));
    assert_disjoint(&cache);
}

#[test]
fn empty_cache() {
    let cache = PixelCache::new();
    assert!(cache.is_empty());
    assert_eq!(cache.len(), 0);
    assert!(cache.group().is_empty());
    let built = PixelCache::generate_from_set(&PixelSet::empty());
    assert!(built.boxes.is_empty());
}

#[test]
fn cache_leaves_input_unchanged() {
    let s = set_of(&block(3, 3, 2, 2));
    let _ = PixelCache::generate_from_set(&s);
    assert_eq!(points(&s), block(3, 3, 2, 2));
}

#[test]
fn cache_group_sorts_across_boxes() {
    let cache = PixelCache {
        boxes: vec![
            Rectangle { x: 2, y: 0, width: 1, height: 2 },
            Rectangle { x: 0, y: 0, width: 2, height: 1 },
        ],
    };
    assert_eq!(points(&cache.group()), vec![(0, 0), (1, 0), (2, 0), (2, 1)]);
    assert_eq!(cache.len(), 4);
}
