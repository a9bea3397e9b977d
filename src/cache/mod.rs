use vstd::prelude::*;

use crate::cache::grow::{fits, grow_pixel_into_box, inside};
use crate::pixel::Pixel;
use crate::random::random_below;
use crate::set::{lemma_sorted_len, lemma_sorted_of, sorted_of, PixelSet};
use crate::shapes::{Rectangle, Shape};

pub mod grow;

verus! {

broadcast use vstd::seq_lib::group_seq_properties;

/// The pixels that a list of boxes covers.
pub open spec fn covered(boxes: Seq<Rectangle>) -> Set<Pixel> {
    Set::new(|p: Pixel| exists|i: int| 0 <= i < boxes.len() && #[trigger] boxes[i].spec_has(p))
}

/// No pixel is in two of the boxes.
pub open spec fn pairwise_disjoint(boxes: Seq<Rectangle>) -> bool {
    forall|i: int, j: int, p: Pixel|
        0 <= i < boxes.len() && 0 <= j < boxes.len() && i != j && #[trigger] boxes[i].spec_has(p)
            ==> !#[trigger] boxes[j].spec_has(p)
}

/// The boxes lie in the coordinate range, share no pixel, and together cover
/// exactly the pixels of `s`.
pub open spec fn decomposes(boxes: Seq<Rectangle>, s: Seq<Pixel>) -> bool {
    &&& forall|i: int| 0 <= i < boxes.len() ==> fits(#[trigger] boxes[i])
    &&& pairwise_disjoint(boxes)
    &&& covered(boxes) == s.to_set()
}

/// The sum of the boxes' areas.
pub open spec fn total_area(boxes: Seq<Rectangle>) -> int
    decreases boxes.len(),
{
    if boxes.len() == 0 {
        0
    } else {
        total_area(boxes.drop_last()) + boxes.last().spec_len()
    }
}

proof fn lemma_total_area_prefix(boxes: Seq<Rectangle>, k: int)
    requires
        0 <= k <= boxes.len(),
    ensures
        0 <= total_area(boxes.take(k)) <= total_area(boxes),
    decreases boxes.len(),
{
    if boxes.len() > 0 {
        assert(boxes.last().width * boxes.last().height >= 0) by (nonlinear_arith);
        if k == boxes.len() {
            assert(boxes.take(k) =~= boxes);
            lemma_total_area_prefix(boxes.drop_last(), k - 1);
            assert(boxes.drop_last().take(k - 1) =~= boxes.drop_last());
        } else {
            lemma_total_area_prefix(boxes.drop_last(), k);
            assert(boxes.drop_last().take(k) =~= boxes.take(k));
        }
    }
}

/// An axis-aligned box of pixels, as the cache stores them.
pub type PixelBox = Rectangle;

/// A set of pixels stored as disjoint, axis-aligned boxes.
///
/// A cache is built once from a `PixelSet` and is then read only: it is quick
/// to walk and to turn back into a `PixelSet`, but cannot be edited pixel by
/// pixel.
#[derive(Clone)]
pub struct PixelCache {
    pub boxes: Vec<Rectangle>,
}

/// One step of a decomposition: grows a box from the pixel at `seed` in
/// `remaining`, and returns it with what is left once its pixels are removed.
fn carve(remaining: &PixelSet, seed: usize) -> (r: (Rectangle, PixelSet))
    requires
        remaining.wf(),
        seed < remaining@.len(),
    ensures
        fits(r.0),
        inside(r.0, remaining@),
        r.1.wf(),
        r.1@.len() < remaining@.len(),
        forall|p: Pixel| #[trigger] r.1@.contains(p) <==> remaining@.contains(p) && !r.0.spec_has(p),
{
    let pixel = remaining.at(seed);
    let rectangle = grow_pixel_into_box(pixel, remaining);
    let pixels = rectangle.set();
    let rest = remaining.difference(&pixels);
    proof {
        assert forall|p: Pixel| #[trigger] rest@.contains(p) <==> remaining@.contains(p)
            && !rectangle.spec_has(p) by {
            assert(rest@.to_set().contains(p) == remaining@.to_set().difference(
                pixels@.to_set(),
            ).contains(p));
        }
        lemma_sorted_len(rest@);
        lemma_sorted_len(remaining@);
        assert(rest@.to_set().subset_of(remaining@.to_set()));
        assert(!rest@.to_set().contains(pixel));
        rest@.to_set().lemma_subset_not_in_lt(remaining@.to_set(), pixel);
    }
    (rectangle, rest)
}

impl PixelCache {
    /// An empty cache.
    pub fn new() -> (r: Self)
        ensures
            r.boxes@ == Seq::<Rectangle>::empty(),
    {
        PixelCache { boxes: Vec::new() }
    }

    /// Decomposes `set` into boxes. Each box grows from one of the pixels not
    /// yet covered: the next of `picks` in turn, cycling, taken modulo their
    /// count (the first of them when `picks` is empty), or a random one when
    /// there are no `picks`.
    fn decompose(set: &PixelSet, picks: Option<&Vec<usize>>) -> (r: Self)
        requires
            set.wf(),
        ensures
            decomposes(r.boxes@, set@),
    {
        let mut remaining = set.duplicate();
        let mut boxes: Vec<Rectangle> = Vec::new();
        let mut turn: usize = 0;
        while !remaining.is_empty()
            invariant
                picks is Some && picks->0@.len() > 0 ==> turn < picks->0@.len(),
                remaining.wf(),
                set.wf(),
                forall|i: int| 0 <= i < boxes@.len() ==> fits(#[trigger] boxes@[i]),
                pairwise_disjoint(boxes@),
                forall|p: Pixel|
                    set@.contains(p) <==> (#[trigger] remaining@.contains(p) || covered(
                        boxes@,
                    ).contains(p)),
                forall|p: Pixel| remaining@.contains(p) ==> !#[trigger] covered(boxes@).contains(p),
            decreases remaining@.len(),
        {
            let count = remaining.len();
            let seed = match picks {
                Some(list) => {
                    if list.len() == 0 {
                        0
                    } else {
                        let pick = list[turn] % count;
                        turn = if turn + 1 < list.len() { turn + 1 } else { 0 };
                        pick
                    }
                },
                None => random_below(count),
            };
            let (rectangle, rest) = carve(&remaining, seed);
            let ghost before = boxes@;
            let ghost old_remaining = remaining@;
            boxes.push(rectangle);
            remaining = rest;
            proof {
                assert forall|p: Pixel| #[trigger] covered(boxes@).contains(p) <==> (covered(
                    before,
                ).contains(p) || rectangle.spec_has(p)) by {
                    if covered(boxes@).contains(p) {
                        let i = choose|i: int| 0 <= i < boxes@.len() && #[trigger] boxes@[i].spec_has(
                            p,
                        );
                        if i < before.len() {
                            assert(before[i] == boxes@[i]);
                        }
                    }
                    if covered(before).contains(p) {
                        let i = choose|i: int| 0 <= i < before.len() && #[trigger] before[i].spec_has(
                            p,
                        );
                        assert(boxes@[i] == before[i]);
                    }
                    if rectangle.spec_has(p) {
                        assert(boxes@[before.len() as int] == rectangle);
                    }
                }
                assert forall|i: int, j: int, p: Pixel|
                    0 <= i < boxes@.len() && 0 <= j < boxes@.len() && i != j
                        && #[trigger] boxes@[i].spec_has(p) implies !#[trigger] boxes@[j].spec_has(
                    p,
                ) by {
                    if i == before.len() {
                        assert(old_remaining.contains(p));
                        assert(boxes@[j] == before[j]);
                        if before[j].spec_has(p) {
                            assert(covered(before).contains(p));
                        }
                    } else if j == before.len() {
                        assert(boxes@[i] == before[i]);
                        if boxes@[j].spec_has(p) {
                            assert(old_remaining.contains(p));
                            assert(covered(before).contains(p));
                        }
                    } else {
                        assert(boxes@[i] == before[i]);
                        assert(boxes@[j] == before[j]);
                    }
                }
            }
        }
        proof {
            assert forall|p: Pixel| covered(boxes@).contains(p) <==> set@.to_set().contains(p) by {
                assert(!remaining@.contains(p));
            }
            assert(covered(boxes@) =~= set@.to_set());
        }
        PixelCache { boxes }
    }

    /// Decomposes `set` into disjoint boxes: while pixels remain, one of them
    /// is drawn uniformly at random, grown into a box inside what remains, and
    /// the box's pixels are removed. The caller's set is not changed.
    pub fn generate_from_set(set: &PixelSet) -> (r: Self)
        requires
            set.wf(),
        ensures
            decomposes(r.boxes@, set@),
    {
        Self::decompose(set, None)
    }

    /// Decomposes `set` as `generate_from_set` does, with the seeds chosen by
    /// `picks` instead of at random: the k-th box grows from the pixel at index
    /// `picks[k % picks.len()] % n` of the `n` pixels that remain, or from the
    /// first remaining pixel when `picks` is empty.
    pub fn generate_with_picks(set: &PixelSet, picks: &Vec<usize>) -> (r: Self)
        requires
            set.wf(),
        ensures
            decomposes(r.boxes@, set@),
    {
        Self::decompose(set, Some(picks))
    }

    /// All cached pixels, as one sorted set.
    pub fn group(&self) -> (r: PixelSet)
        ensures
            r.wf(),
            r@.to_set() == covered(self.boxes@),
            r@ == sorted_of(covered(self.boxes@)),
    {
        let mut pixels: Vec<Pixel> = Vec::new();
        let mut k: usize = 0;
        while k < self.boxes.len()
            invariant
                0 <= k <= self.boxes@.len(),
                forall|p: Pixel|
                    #[trigger] pixels@.contains(p) <==> exists|m: int|
                        0 <= m < k && #[trigger] self.boxes@[m].spec_has(p),
            decreases self.boxes@.len() - k,
        {
            let mut more = self.boxes[k].iter_pixels();
            let ghost before = pixels@;
            let ghost added = more@;
            pixels.append(&mut more);
            proof {
                let boxes = self.boxes@;
                assert(pixels@ == before + added);
                assert forall|p: Pixel| #[trigger] pixels@.contains(p) <==> exists|m: int|
                    0 <= m < k + 1 && #[trigger] boxes[m].spec_has(p) by {
                    if pixels@.contains(p) {
                        let i = choose|i: int| 0 <= i < pixels@.len() && pixels@[i] == p;
                        if i < before.len() {
                            assert(before[i] == p);
                            assert(before.contains(p));
                        } else {
                            assert(added[i - before.len()] == p);
                            assert(added.contains(p));
                            assert(boxes[k as int].spec_has(p));
                        }
                    }
                    if exists|m: int| 0 <= m < k + 1 && #[trigger] boxes[m].spec_has(p) {
                        let m = choose|m: int| 0 <= m < k + 1 && #[trigger] boxes[m].spec_has(p);
                        if m < k {
                            assert(before.contains(p));
                            let i = choose|i: int| 0 <= i < before.len() && before[i] == p;
                            assert(pixels@[i] == p);
                        } else {
                            assert(added.contains(p));
                            let i = choose|i: int| 0 <= i < added.len() && added[i] == p;
                            assert(pixels@[before.len() + i] == p);
                        }
                    }
                }
            }
            k = k + 1;
        }
        assert(pixels@.to_set() =~= covered(self.boxes@));
        PixelSet::new(pixels)
    }

    /// The total number of pixels across all boxes.
    pub fn len(&self) -> (r: usize)
        requires
            total_area(self.boxes@) <= usize::MAX,
        ensures
            r == total_area(self.boxes@),
    {
        let mut total: usize = 0;
        let mut k: usize = 0;
        while k < self.boxes.len()
            invariant
                0 <= k <= self.boxes@.len(),
                total_area(self.boxes@) <= usize::MAX,
                total == total_area(self.boxes@.take(k as int)),
            decreases self.boxes@.len() - k,
        {
            proof {
                lemma_total_area_prefix(self.boxes@, k + 1);
                assert(self.boxes@.take(k + 1).drop_last() =~= self.boxes@.take(k as int));
            }
            total = total + self.boxes[k].len();
            k = k + 1;
        }
        assert(self.boxes@.take(k as int) =~= self.boxes@);
        total
    }

    /// Whether the boxes hold no pixel at all.
    pub fn is_empty(&self) -> (r: bool)
        requires
            total_area(self.boxes@) <= usize::MAX,
        ensures
            r == (total_area(self.boxes@) == 0),
    {
        self.len() == 0
    }
}

} // verus!
