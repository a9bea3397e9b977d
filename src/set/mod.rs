use vstd::prelude::*;

use crate::pixel::{key_of, lemma_key_injective, Pixel};

mod list;
mod new;
mod ops;

verus! {

broadcast use vstd::seq_lib::group_seq_properties;

/// A sequence whose keys strictly ascend: row-major order, no duplicates.
pub open spec fn sorted(s: Seq<Pixel>) -> bool {
    forall|i: int, j: int| 0 <= i < j < s.len() ==> key_of(s[i]) < key_of(s[j])
}

/// The members of a finite set of pixels, listed in row-major order.
pub open spec fn sorted_of(m: Set<Pixel>) -> Seq<Pixel> {
    choose|s: Seq<Pixel>| sorted(s) && s.to_set() == m
}

/// The sorted listing of the pixels in `a` or in `b`.
pub open spec fn union_of(a: Seq<Pixel>, b: Seq<Pixel>) -> Seq<Pixel> {
    sorted_of(a.to_set() + b.to_set())
}

/// The sorted listing of the pixels in both `a` and `b`.
pub open spec fn intersection_of(a: Seq<Pixel>, b: Seq<Pixel>) -> Seq<Pixel> {
    sorted_of(a.to_set().intersect(b.to_set()))
}

/// The sorted listing of the pixels in `a` but not in `b`.
pub open spec fn difference_of(a: Seq<Pixel>, b: Seq<Pixel>) -> Seq<Pixel> {
    sorted_of(a.to_set().difference(b.to_set()))
}

/// The sorted listing of the pixels in exactly one of `a` and `b`.
pub open spec fn symmetric_difference_of(a: Seq<Pixel>, b: Seq<Pixel>) -> Seq<Pixel> {
    sorted_of(a.to_set().difference(b.to_set()) + b.to_set().difference(a.to_set()))
}

/// A compact, sorted collection of pixels.
///
/// The pixels are kept in strictly ascending row-major order, which gives
/// binary-search membership and linear-time merges for the set operations.
#[derive(Clone)]
pub struct PixelSet {
    pixels: Vec<Pixel>,
}

impl View for PixelSet {
    type V = Seq<Pixel>;

    closed spec fn view(&self) -> Seq<Pixel> {
        self.pixels@
    }
}

impl PixelSet {
    /// The set's pixels are in strictly ascending row-major order.
    pub open spec fn wf(&self) -> bool {
        sorted(self@)
    }

    /// Constructs a set from pixels already in strictly ascending row-major
    /// order. Nothing is checked: this order is the caller's obligation.
    pub fn new_unchecked(pixels: Vec<Pixel>) -> (r: Self)
        requires
            sorted(pixels@),
        ensures
            r@ == pixels@,
            r.wf(),
    {
        PixelSet { pixels }
    }

    /// The empty set.
    pub fn empty() -> (r: Self)
        ensures
            r@ == Seq::<Pixel>::empty(),
            r.wf(),
    {
        PixelSet { pixels: Vec::new() }
    }

    /// Whether the set holds no pixel.
    pub fn is_empty(&self) -> (r: bool)
        ensures
            r == (self@.len() == 0),
    {
        self.pixels.len() == 0
    }

    /// The number of pixels in the set.
    pub fn len(&self) -> (r: usize)
        ensures
            r == self@.len(),
    {
        self.pixels.len()
    }

    /// The pixel at position `index` in row-major order.
    pub(crate) fn at(&self, index: usize) -> (r: Pixel)
        requires
            index < self@.len(),
        ensures
            r == self@[index as int],
    {
        self.pixels[index]
    }

    /// An independent copy of this set.
    pub(crate) fn duplicate(&self) -> (r: Self)
        ensures
            r@ == self@,
    {
        let pixels = self.pixels.clone();
        assert(pixels@ =~= self.pixels@);
        PixelSet { pixels }
    }
}

/// Two sorted sequences with the same members are the same sequence.
pub proof fn lemma_sorted_unique(a: Seq<Pixel>, b: Seq<Pixel>)
    requires
        sorted(a),
        sorted(b),
        a.to_set() == b.to_set(),
    ensures
        a == b,
    decreases a.len(),
{
    if a.len() == 0 {
        if b.len() > 0 {
            assert(a.to_set().contains(b[0]));
        }
        assert(a =~= b);
    } else {
        assert(b.to_set().contains(a[0]));
        assert(b.len() > 0);
        assert(a.to_set().contains(b[0]));
        let k = choose|k: int| 0 <= k < b.len() && b[k] == a[0];
        let m = choose|m: int| 0 <= m < a.len() && a[m] == b[0];
        assert(key_of(a[0]) <= key_of(a[m]));
        assert(key_of(b[0]) <= key_of(b[k]));
        lemma_key_injective(a[0], b[0]);
        let a1 = a.drop_first();
        let b1 = b.drop_first();
        assert forall|x: Pixel| a1.to_set().contains(x) implies b1.to_set().contains(x) by {
            let i = choose|i: int| 0 <= i < a1.len() && a1[i] == x;
            assert(a.to_set().contains(x));
            let j = choose|j: int| 0 <= j < b.len() && b[j] == x;
            assert(key_of(a[0]) < key_of(a[i + 1]));
            if j == 0 {
                assert(false);
            }
            assert(b1[j - 1] == x);
        }
        assert forall|x: Pixel| b1.to_set().contains(x) implies a1.to_set().contains(x) by {
            let i = choose|i: int| 0 <= i < b1.len() && b1[i] == x;
            assert(b.to_set().contains(x));
            let j = choose|j: int| 0 <= j < a.len() && a[j] == x;
            assert(key_of(b[0]) < key_of(b[i + 1]));
            if j == 0 {
                assert(false);
            }
            assert(a1[j - 1] == x);
        }
        assert(a1.to_set() =~= b1.to_set());
        lemma_sorted_unique(a1, b1);
        assert(a1.len() == a.len() - 1);
        assert(b1.len() == b.len() - 1);
        assert(a.len() == b.len());
        assert forall|i: int| 0 <= i < a.len() implies a[i] == b[i] by {
            if i > 0 {
                assert(a[i] == a1[i - 1]);
                assert(b[i] == b1[i - 1]);
            }
        }
        assert(a =~= b);
    }
}

/// A sorted sequence has as many entries as members.
pub proof fn lemma_sorted_len(s: Seq<Pixel>)
    requires
        sorted(s),
    ensures
        s.len() == s.to_set().len(),
{
    assert forall|i: int, j: int| 0 <= i < s.len() && 0 <= j < s.len() && i != j implies s[i]
        != s[j] by {
        if i < j {
            assert(key_of(s[i]) < key_of(s[j]));
        } else {
            assert(key_of(s[j]) < key_of(s[i]));
        }
    }
    s.unique_seq_to_set();
}

/// A sorted sequence is the sorted listing of its own members.
pub proof fn lemma_sorted_of(s: Seq<Pixel>)
    requires
        sorted(s),
    ensures
        sorted_of(s.to_set()) == s,
{
    let t = sorted_of(s.to_set());
    assert(sorted(t) && t.to_set() == s.to_set());
    lemma_sorted_unique(t, s);
}

/// `s` with `x` placed at its row-major position.
spec fn insert_sorted(s: Seq<Pixel>, x: Pixel) -> Seq<Pixel>
    decreases s.len(),
{
    if s.len() == 0 {
        seq![x]
    } else if key_of(x) < key_of(s[0]) {
        seq![x] + s
    } else {
        seq![s[0]] + insert_sorted(s.drop_first(), x)
    }
}

proof fn lemma_insert_sorted_members(s: Seq<Pixel>, x: Pixel)
    ensures
        insert_sorted(s, x).to_set() == s.to_set().insert(x),
        forall|i: int|
            0 <= i < insert_sorted(s, x).len() ==> #[trigger] insert_sorted(s, x)[i] == x
                || s.contains(insert_sorted(s, x)[i]),
    decreases s.len(),
{
    let r = insert_sorted(s, x);
    if s.len() == 0 {
        assert(r.to_set() =~= s.to_set().insert(x));
    } else if key_of(x) < key_of(s[0]) {
        assert(r.to_set() =~= s.to_set().insert(x));
    } else {
        let s1 = s.drop_first();
        lemma_insert_sorted_members(s1, x);
        let t = insert_sorted(s1, x);
        assert(r == seq![s[0]] + t);
        assert forall|y: Pixel| #[trigger] r.contains(y) <==> s.to_set().insert(x).contains(y) by {
            if r.contains(y) {
                let k = choose|k: int| 0 <= k < r.len() && r[k] == y;
                if k > 0 {
                    assert(t[k - 1] == y);
                    assert(t.to_set().contains(y));
                    if y != x {
                        let m = choose|m: int| 0 <= m < s1.len() && s1[m] == y;
                        assert(s[m + 1] == y);
                    }
                }
            }
            if s.contains(y) && y != s[0] {
                let k = choose|k: int| 0 <= k < s.len() && s[k] == y;
                assert(s1[k - 1] == y);
                assert(t.to_set().contains(y));
                let m = choose|m: int| 0 <= m < t.len() && t[m] == y;
                assert(r[m + 1] == y);
            }
            if y == s[0] {
                assert(r[0] == y);
            }
            if y == x {
                assert(t.to_set().contains(x));
                let m = choose|m: int| 0 <= m < t.len() && t[m] == x;
                assert(r[m + 1] == x);
            }
        }
        assert(r.to_set() =~= s.to_set().insert(x));
        assert forall|i: int| 0 <= i < r.len() implies r[i] == x || s.contains(r[i]) by {
            if i > 0 {
                assert(r[i] == t[i - 1]);
            }
        }
    }
}

proof fn lemma_insert_sorted(s: Seq<Pixel>, x: Pixel)
    requires
        sorted(s),
        !s.contains(x),
    ensures
        sorted(insert_sorted(s, x)),
        insert_sorted(s, x).to_set() == s.to_set().insert(x),
    decreases s.len(),
{
    lemma_insert_sorted_members(s, x);
    let r = insert_sorted(s, x);
    if s.len() == 0 {
    } else if key_of(x) < key_of(s[0]) {
        assert forall|i: int, j: int| 0 <= i < j < r.len() implies key_of(r[i]) < key_of(
            r[j],
        ) by {
            if i > 0 {
                assert(r[i] == s[i - 1]);
            }
            assert(r[j] == s[j - 1]);
        }
    } else {
        let s1 = s.drop_first();
        lemma_key_injective(x, s[0]);
        assert(!s1.contains(x)) by {
            if s1.contains(x) {
                let k = choose|k: int| 0 <= k < s1.len() && s1[k] == x;
                assert(s[k + 1] == x);
            }
        }
        lemma_insert_sorted(s1, x);
        lemma_insert_sorted_members(s1, x);
        let t = insert_sorted(s1, x);
        assert(r == seq![s[0]] + t);
        assert forall|i: int| 0 <= i < t.len() implies key_of(s[0]) < key_of(t[i]) by {
            if t[i] != x {
                assert(s1.contains(t[i]));
                let k = choose|k: int| 0 <= k < s1.len() && s1[k] == t[i];
                assert(s[k + 1] == t[i]);
            }
        }
        assert forall|i: int, j: int| 0 <= i < j < r.len() implies key_of(r[i]) < key_of(
            r[j],
        ) by {
            assert(r[j] == t[j - 1]);
            if i > 0 {
                assert(r[i] == t[i - 1]);
            }
        }
    }
}

/// Every finite set of pixels has a sorted listing, so `sorted_of` lists it.
pub proof fn lemma_sorted_of_finite(m: Set<Pixel>)
    requires
        m.finite(),
    ensures
        sorted(sorted_of(m)),
        sorted_of(m).to_set() == m,
    decreases m.len(),
{
    if m.len() == 0 {
        let e = Seq::<Pixel>::empty();
        assert(e.to_set() =~= m);
        assert(sorted(e));
    } else {
        let x = m.choose();
        let rest = m.remove(x);
        lemma_sorted_of_finite(rest);
        let s = sorted_of(rest);
        assert(!s.contains(x)) by {
            if s.contains(x) {
                assert(s.to_set().contains(x));
            }
        }
        lemma_insert_sorted(s, x);
        assert(insert_sorted(s, x).to_set() =~= m);
    }
}

} // verus!
