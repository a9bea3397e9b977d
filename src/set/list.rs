use vstd::prelude::*;

use vstd::std_specs::iter::IteratorSpec;

use crate::pixel::{adjacent, in_bounds, key_of, Bounds, Pixel};
use crate::shapes::pixels_within;
use super::{intersection_of, sorted, PixelSet};

verus! {

broadcast use vstd::seq_lib::group_seq_properties;

impl PixelSet {
    /// An iterator over the pixels in row-major order.
    pub fn iter(&self) -> (r: std::slice::Iter<'_, Pixel>)
        ensures
            r.remaining() == self@.as_ref(),
    {
        self.pixels.as_slice().iter()
    }

    /// The pixels of this set for which `predicate` holds, in a new set.
    pub fn filter(&self, predicate: impl Fn(Pixel) -> bool) -> (r: Self)
        requires
            self.wf(),
            forall|p: Pixel| predicate.requires((p,)),
        ensures
            r.wf(),
            forall|p: Pixel|
                #[trigger] r@.contains(p) ==> self@.contains(p) && predicate.ensures((p,), true),
            forall|p: Pixel|
                #[trigger] self@.contains(p) && !r@.contains(p) ==> predicate.ensures((p,), false),
    {
        let mut out: Vec<Pixel> = Vec::new();
        let mut i: usize = 0;
        while i < self.pixels.len()
            invariant
                self.wf(),
                forall|p: Pixel| predicate.requires((p,)),
                0 <= i <= self@.len(),
                sorted(out@),
                out@.len() > 0 ==> i > 0 && key_of(out@.last()) <= key_of(self@[i - 1]),
                forall|p: Pixel|
                    #[trigger] out@.contains(p) ==> self@.take(i as int).contains(p)
                        && predicate.ensures((p,), true),
                forall|k: int|
                    0 <= k < i && !out@.contains(#[trigger] self@[k]) ==> predicate.ensures(
                        (self@[k],),
                        false,
                    ),
            decreases self@.len() - i,
        {
            let p = self.pixels[i];
            let ghost before = out@;
            let keep = predicate(p);
            if keep {
                out.push(p);
                proof {
                    assert forall|k: int| 0 <= k < out@.len() - 1 implies key_of(out@[k]) < key_of(
                        p,
                    ) by {
                        if k < before.len() - 1 {
                            assert(key_of(before[k]) < key_of(before.last()));
                        }
                    }
                }
            }
            assert forall|q: Pixel| #[trigger] out@.contains(q) implies self@.take(i + 1).contains(q)
                && predicate.ensures((q,), true) by {
                if before.contains(q) {
                    let k = choose|k: int| 0 <= k < i && self@.take(i as int)[k] == q;
                    assert(self@.take(i + 1)[k] == q);
                } else {
                    assert(q == p);
                    assert(self@.take(i + 1)[i as int] == q);
                }
            }
            assert forall|k: int|
                0 <= k < i + 1 && !out@.contains(#[trigger] self@[k]) implies predicate.ensures(
                (self@[k],),
                false,
            ) by {
                if k < i {
                    if before.contains(self@[k]) {
                        let m = choose|m: int| 0 <= m < before.len() && before[m] == self@[k];
                        assert(out@[m] == self@[k]);
                    }
                } else if keep {
                    assert(out@[out@.len() - 1] == p);
                }
            }
            i = i + 1;
        }
        proof {
            assert(self@.take(i as int) =~= self@);
            assert forall|p: Pixel|
                #[trigger] self@.contains(p) && !out@.contains(p) implies predicate.ensures(
                (p,),
                false,
            ) by {
                let k = choose|k: int| 0 <= k < self@.len() && self@[k] == p;
            }
        }
        PixelSet { pixels: out }
    }
}

/// Whether `q` lies inside `image` next to some pixel of `s`.
pub open spec fn next_to(s: Seq<Pixel>, q: Pixel, image: Bounds) -> bool {
    in_bounds(q, image) && exists|p: Pixel| #[trigger] s.contains(p) && adjacent(p, q)
}

impl PixelSet {
    /// Every pixel of an image of size `image`.
    pub fn from_image(image: Bounds) -> (r: Self)
        ensures
            r.wf(),
            forall|q: Pixel| r@.contains(q) <==> in_bounds(q, image),
    {
        let width = if image.width < 65536 { image.width } else { 65536 };
        let height = if image.height < 65536 { image.height } else { 65536 };
        let member = |q: Pixel| -> (b: bool)
            ensures
                b == in_bounds(q, image),
            { (q.x as u32) < image.width && (q.y as u32) < image.height };
        let pixels = pixels_within(
            &member,
            Ghost(|q: Pixel| in_bounds(q, image)),
            0,
            width,
            0,
            height,
        );
        PixelSet::new_unchecked(pixels)
    }

    /// The pixels inside `image` that touch, among their eight surrounding
    /// pixels, some pixel of this set.
    pub fn neighbors(&self, image: Bounds) -> (r: Self)
        ensures
            r.wf(),
            forall|q: Pixel| r@.contains(q) <==> next_to(self@, q, image),
    {
        let mut all: Vec<Pixel> = Vec::new();
        let mut i: usize = 0;
        while i < self.pixels.len()
            invariant
                0 <= i <= self@.len(),
                forall|q: Pixel|
                    #[trigger] all@.contains(q) <==> in_bounds(q, image) && exists|k: int|
                        0 <= k < i && adjacent(#[trigger] self@[k], q),
            decreases self@.len() - i,
        {
            let around = self.pixels[i].neighbors(image);
            let mut more = around.pixels;
            let ghost before = all@;
            let ghost added = more@;
            all.append(&mut more);
            proof {
                assert forall|q: Pixel| #[trigger] all@.contains(q) <==> in_bounds(q, image)
                    && exists|k: int| 0 <= k < i + 1 && adjacent(#[trigger] self@[k], q) by {
                    if all@.contains(q) {
                        let m = choose|m: int| 0 <= m < all@.len() && all@[m] == q;
                        if m < before.len() {
                            assert(before[m] == q);
                            assert(before.contains(q));
                        } else {
                            assert(added[m - before.len()] == q);
                            assert(added.contains(q));
                        }
                    }
                    if in_bounds(q, image) && exists|k: int|
                        0 <= k < i + 1 && adjacent(#[trigger] self@[k], q) {
                        let k = choose|k: int| 0 <= k < i + 1 && adjacent(#[trigger] self@[k], q);
                        if k < i {
                            assert(before.contains(q));
                            let m = choose|m: int| 0 <= m < before.len() && before[m] == q;
                            assert(all@[m] == q);
                        } else {
                            assert(added.contains(q));
                            let m = choose|m: int| 0 <= m < added.len() && added[m] == q;
                            assert(all@[before.len() + m] == q);
                        }
                    }
                }
            }
            i = i + 1;
        }
        let r = PixelSet::new(all);
        proof {
            assert forall|q: Pixel| r@.contains(q) <==> next_to(self@, q, image) by {
                assert(r@.to_set().contains(q) == all@.to_set().contains(q));
                if next_to(self@, q, image) {
                    let p = choose|p: Pixel| #[trigger] self@.contains(p) && adjacent(p, q);
                    let k = choose|k: int| 0 <= k < self@.len() && self@[k] == p;
                    assert(adjacent(self@[k], q));
                }
                if all@.contains(q) {
                    let k = choose|k: int| 0 <= k < i && adjacent(#[trigger] self@[k], q);
                    assert(self@.contains(self@[k]));
                }
            }
        }
        r
    }

    /// The pixels of this set that lie next to some pixel of `other`.
    pub fn touching(&self, other: &Self, image: Bounds) -> (r: Self)
        requires
            self.wf(),
        ensures
            r.wf(),
            forall|q: Pixel| r@.contains(q) <==> self@.contains(q) && next_to(other@, q, image),
    {
        let around = other.neighbors(image);
        let r = self.and(&around);
        assert forall|q: Pixel| r@.contains(q) <==> self@.contains(q) && next_to(other@, q, image) by {
            assert(r@.to_set().contains(q) == (self@.to_set().contains(q) && around@.to_set().contains(q)));
        }
        r
    }
}

} // verus!
