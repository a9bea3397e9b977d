use vstd::prelude::*;

use crate::pixel::{key_of, lemma_key_injective, Pixel};
use super::{lemma_sorted_of, sorted, sorted_of, PixelSet};

verus! {

broadcast use vstd::seq_lib::group_seq_properties, vstd::seq_lib::group_to_multiset_ensures;

/// Relies on `radsort::sort_by_key`: a stable radix sort of the slice by the
/// given key, here the row-major key of each pixel. The result holds the same
/// pixels, in ascending key order.
#[verifier::external_body]
fn sort_by_pixel_key(pixels: &mut Vec<Pixel>)
    ensures
        final(pixels)@.to_multiset() == old(pixels)@.to_multiset(),
        forall|i: int, j: int|
            0 <= i <= j < final(pixels)@.len() ==> key_of(final(pixels)@[i]) <= key_of(
                final(pixels)@[j],
            ),
{
    radsort::sort_by_key(pixels.as_mut_slice(), |p: &Pixel| p.key());
}

impl PixelSet {
    /// Builds a set from pixels in any order, with duplicates allowed: they
    /// are radix-sorted by key, and repeats are dropped.
    pub fn new(pixels: Vec<Pixel>) -> (r: Self)
        ensures
            r.wf(),
            r@.to_set() == pixels@.to_set(),
            r@ == sorted_of(pixels@.to_set()),
    {
        let mut v = pixels;
        sort_by_pixel_key(&mut v);
        assert forall|p: Pixel| v@.contains(p) <==> pixels@.contains(p) by {
            assert(v@.contains(p) <==> v@.to_multiset().count(p) > 0);
            assert(pixels@.contains(p) <==> pixels@.to_multiset().count(p) > 0);
        }
        let mut out: Vec<Pixel> = Vec::new();
        let mut i: usize = 0;
        while i < v.len()
            invariant
                0 <= i <= v@.len(),
                forall|p: int, q: int| 0 <= p <= q < v@.len() ==> key_of(v@[p]) <= key_of(v@[q]),
                sorted(out@),
                out@.to_set() == v@.take(i as int).to_set(),
                i > 0 ==> out@.len() > 0 && out@.last() == v@[i - 1],
                i == 0 ==> out@.len() == 0,
            decreases v@.len() - i,
        {
            let p = v[i];
            let ghost before = out@;
            assert(v@.take(i + 1) =~= v@.take(i as int).push(p));
            assert(v@.take(i + 1).to_set() =~= v@.take(i as int).to_set().insert(p));
            if out.len() == 0 || out[out.len() - 1].key() != p.key() {
                out.push(p);
                proof {
                    if i > 0 {
                        assert(key_of(v@[i - 1]) <= key_of(p));
                        assert forall|k: int| 0 <= k < before.len() implies key_of(before[k])
                            < key_of(p) by {
                            if k < before.len() - 1 {
                                assert(key_of(before[k]) < key_of(before.last()));
                            }
                        }
                    }
                    assert(out@.to_set() =~= before.to_set().insert(p));
                }
            } else {
                proof {
                    lemma_key_injective(before.last(), p);
                    assert(before.to_set().contains(p));
                    assert(out@.to_set() =~= before.to_set().insert(p));
                }
            }
            i = i + 1;
        }
        proof {
            assert(v@.take(v@.len() as int) =~= v@);
            assert(out@.to_set() =~= pixels@.to_set());
            lemma_sorted_of(out@);
        }
        PixelSet { pixels: out }
    }
}

} // verus!
