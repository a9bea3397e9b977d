//! Laws that relate the set operations and the cache to one another.

use vstd::prelude::*;

use crate::cache::{covered, decomposes};
use crate::pixel::Pixel;
use crate::set::{
    difference_of, intersection_of, lemma_sorted_of, lemma_sorted_of_finite, sorted, sorted_of,
    symmetric_difference_of, union_of,
};
use crate::shapes::Rectangle;

verus! {

broadcast use vstd::seq_lib::group_seq_properties;

/// The empty set is neutral for union and difference, and absorbing for
/// intersection: `s | {} == s`, `s & {} == {}`, `s - {} == s`.
pub proof fn lemma_empty_identities(s: Seq<Pixel>)
    requires
        sorted(s),
    ensures
        union_of(s, Seq::empty()) == s,
        intersection_of(s, Seq::empty()) == Seq::<Pixel>::empty(),
        difference_of(s, Seq::empty()) == s,
{
    let e = Seq::<Pixel>::empty();
    assert(s.to_set() + e.to_set() =~= s.to_set());
    assert(s.to_set().intersect(e.to_set()) =~= e.to_set());
    assert(s.to_set().difference(e.to_set()) =~= s.to_set());
    lemma_sorted_of(s);
    lemma_sorted_of(e);
}

/// Union and intersection do not depend on the order of their operands, and
/// the symmetric difference is the union less the intersection.
pub proof fn lemma_commutative(a: Seq<Pixel>, b: Seq<Pixel>)
    requires
        sorted(a),
        sorted(b),
    ensures
        union_of(a, b) == union_of(b, a),
        intersection_of(a, b) == intersection_of(b, a),
        symmetric_difference_of(a, b) == difference_of(union_of(a, b), intersection_of(a, b)),
{
    assert(a.to_set() + b.to_set() =~= b.to_set() + a.to_set());
    assert(a.to_set().intersect(b.to_set()) =~= b.to_set().intersect(a.to_set()));
    lemma_sorted_of_finite(a.to_set() + b.to_set());
    lemma_sorted_of_finite(a.to_set().intersect(b.to_set()));
    let u = union_of(a, b);
    let i = intersection_of(a, b);
    assert(a.to_set().difference(b.to_set()) + b.to_set().difference(a.to_set()) =~= u.to_set().difference(
        i.to_set(),
    ));
}

/// A set is a subset of its union with any other, and what is left of a set
/// after removing another shares no pixel with that other.
pub proof fn lemma_subset_and_disjoint(a: Seq<Pixel>, b: Seq<Pixel>)
    requires
        sorted(a),
        sorted(b),
    ensures
        a.to_set().subset_of(union_of(a, b).to_set()),
        difference_of(a, b).to_set().disjoint(b.to_set()),
{
    lemma_sorted_of_finite(a.to_set() + b.to_set());
    lemma_sorted_of_finite(a.to_set().difference(b.to_set()));
}

/// Flattening a decomposition of a set gives back the set itself, whatever
/// boxes the decomposition chose.
pub proof fn lemma_round_trip(s: Seq<Pixel>, boxes: Seq<Rectangle>)
    requires
        sorted(s),
        decomposes(boxes, s),
    ensures
        sorted_of(covered(boxes)) == s,
{
    lemma_sorted_of(s);
}

} // verus!
