use pixelset::{Pixel, PixelSet};

fn set_of(points: &[(u16, u16)]) -> PixelSet {
    PixelSet::new(points.iter().map(|&(x, y)| Pixel::new(x, y)).collect())
}

fn points(set: &PixelSet) -> Vec<(u16, u16)> {
    set.iter().map(|p| (p.x, p.y)).collect()
}

#[test]
fn new_sorts_row_major_and_drops_duplicates() {
    let s = set_of(&[(3, 1), (0, 0), (2, 0), (3, 1), (1, 1), (0, 0)]);
    assert_eq!(points(&s), vec![(0, 0), (2, 0), (1, 1), (3, 1)]);
    assert_eq!(s.len(), 4);
}

#[test]
fn empty_set_is_empty() {
    let e = PixelSet::empty();
    assert!(e.is_empty());
    assert_eq!(e.len(), 0);
    assert!(!e.has(Pixel::new(0, 0)));
}

#[test]
fn has_finds_members_only() {
    let s = set_of(&[(0, 0), (5, 2), (7, 9), (65535, 65535)]);
    assert!(s.has(Pixel::new(5, 2)));
    assert!(s.has(Pixel::new(65535, 65535)));
    assert!(!s.has(Pixel::new(2, 5)));
    assert!(!s.has(Pixel::new(8, 9)));
}

#[test]
fn key_packs_row_then_column() {
    assert_eq!(Pixel::new(3, 2).key(), (2 << 16) | 3);
    assert!(Pixel::new(65535, 0).key() < Pixel::new(0, 1).key());
    assert!(Pixel::new(65535, 0) < Pixel::new(0, 1));
}

#[test]
fn symmetric_difference_scenario() {
    let a = set_of(&[(0, 0), (2, 2)]);
    let b = set_of(&[(2, 2), (3, 3)]);
    assert_eq!(points(&a.xor(&b)), vec![(0, 0), (3, 3)]);
}

#[test]
fn union_merges_in_order() {
    let a = set_of(&[(0, 0), (4, 0), (1, 3)]);
    let b = set_of(&[(2, 0), (4, 0), (0, 5)]);
    assert_eq!(points(&a.or(&b)), vec![(0, 0), (2, 0), (4, 0), (1, 3), (0, 5)]);
    assert_eq!(points(&a.or(&b)), points(&b.or(&a)));
}

#[test]
fn intersection_keeps_common_pixels() {
    let a = set_of(&[(0, 0), (4, 0), (1, 3), (9, 9)]);
    let b = set_of(&[(2, 0), (4, 0), (9, 9)]);
    assert_eq!(points(&a.and(&b)), vec![(4, 0), (9, 9)]);
    assert_eq!(points(&a.and(&b)), points(&b.and(&a)));
}

#[test]
fn difference_drops_matches() {
    let a = set_of(&[(0, 0), (4, 0), (1, 3), (9, 9)]);
    let b = set_of(&[(2, 0), (4, 0), (9, 9), (10, 10)]);
    assert_eq!(points(&a.difference(&b)), vec![(0, 0), (1, 3)]);
    assert!(!a.difference(&b).intersects(&b));
}

#[test]
fn empty_operand_identities() {
    let s = set_of(&[(1, 1), (2, 1), (0, 7)]);
    let e = PixelSet::empty();
    assert_eq!(points(&s.or(&e)), points(&s));
    assert_eq!(points(&e.or(&s)), points(&s));
    assert!(s.and(&e).is_empty());
    assert_eq!(points(&s.difference(&e)), points(&s));
    assert_eq!(points(&s.xor(&e)), points(&s));
}

#[test]
fn symmetric_difference_is_union_less_intersection() {
    let a = set_of(&[(0, 0), (1, 0), (5, 5), (6, 6)]);
    let b = set_of(&[(1, 0), (2, 0), (6, 6), (7, 7)]);
    let lhs = a.xor(&b);
    let rhs = a.or(&b).difference(&a.and(&b));
    assert_eq!(points(&lhs), points(&rhs));
    assert_eq!(points(&lhs), vec![(0, 0), (2, 0), (5, 5), (7, 7)]);
}

#[test]
fn subset_of_union_and_intersects() {
    let a = set_of(&[(0, 0), (3, 4)]);
    let b = set_of(&[(3, 4), (8, 1)]);
    assert!(a.is_subset(&a.or(&b)));
    assert!(!a.is_subset(&b));
    assert!(a.intersects(&b));
    assert!(!a.intersects(&set_of(&[(1, 1)])));
    assert!(PixelSet::empty().is_subset(&a));
}

#[test]
fn add_and_discard_keep_order() {
    let mut s = set_of(&[(0, 0), (5, 0), (0, 2)]);
    s.add(Pixel::new(3, 0));
    s.add(Pixel::new(9, 9));
    s.add(Pixel::new(0, 1));
    assert_eq!(points(&s), vec![(0, 0), (3, 0), (5, 0), (0, 1), (0, 2), (9, 9)]);
    s.discard(Pixel::new(5, 0));
    s.discard(Pixel::new(0, 0));
    assert_eq!(points(&s), vec![(3, 0), (0, 1), (0, 2), (9, 9)]);
}

#[test]
fn add_present_and_discard_absent_change_nothing() {
    let mut s = set_of(&[(0, 0), (5, 0), (0, 2)]);
    s.add(Pixel::new(5, 0));
    assert_eq!(points(&s), vec![(0, 0), (5, 0), (0, 2)]);
    assert_eq!(s.len(), 3);
    s.discard(Pixel::new(4, 4));
    assert_eq!(points(&s), vec![(0, 0), (5, 0), (0, 2)]);
    assert_eq!(s.len(), 3);
}

#[test]
fn filter_keeps_matching_pixels() {
    let s = set_of(&[(0, 0), (1, 0), (2, 0), (3, 1)]);
    let even = s.filter(|p| p.x % 2 == 0);
    assert_eq!(points(&even), vec![(0, 0), (2, 0)]);
}

#[test]
fn new_unchecked_keeps_the_given_order() {
    let s = PixelSet::new_unchecked(vec![Pixel::new(1, 0), Pixel::new(0, 1)]);
    assert_eq!(points(&s), vec![(1, 0), (0, 1)]);
}
