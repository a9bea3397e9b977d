use vstd::prelude::*;

use crate::pixel::{key_of, lemma_key_injective, Pixel};
use super::{
    difference_of, intersection_of, lemma_sorted_of, sorted, sorted_of, symmetric_difference_of,
    union_of, PixelSet,
};

verus! {

broadcast use vstd::seq_lib::group_seq_properties;

/// Every pixel of `out` comes before `s[i]`, when `s[i]` exists.
spec fn below(out: Seq<Pixel>, s: Seq<Pixel>, i: int) -> bool {
    i < s.len() ==> forall|k: int| 0 <= k < out.len() ==> key_of(out[k]) < key_of(s[i])
}

/// The consumed prefixes of a merge each come before the other's next pixel.
spec fn frontier(a: Seq<Pixel>, b: Seq<Pixel>, i: int, j: int) -> bool {
    &&& (j < b.len() ==> forall|k: int| 0 <= k < i ==> key_of(a[k]) < key_of(b[j]))
    &&& (i < a.len() ==> forall|k: int| 0 <= k < j ==> key_of(b[k]) < key_of(a[i]))
}

proof fn lemma_take_next(s: Seq<Pixel>, i: int)
    requires
        0 <= i < s.len(),
    ensures
        s.take(i + 1).to_set() == s.take(i).to_set().insert(s[i]),
{
    assert(s.take(i + 1) =~= s.take(i).push(s[i]));
    assert(s.take(i + 1).to_set() =~= s.take(i).to_set().insert(s[i]));
}

proof fn lemma_push_set(s: Seq<Pixel>, x: Pixel)
    ensures
        s.push(x).to_set() == s.to_set().insert(x),
{
    assert(s.push(x).to_set() =~= s.to_set().insert(x));
}

proof fn lemma_not_in_prefix(s: Seq<Pixel>, i: int, x: Pixel)
    requires
        0 <= i <= s.len(),
        forall|k: int| 0 <= k < i ==> key_of(s[k]) < key_of(x),
    ensures
        !s.take(i).to_set().contains(x),
{
    if s.take(i).contains(x) {
        let k = choose|k: int| 0 <= k < i && s.take(i)[k] == x;
        assert(s[k] == x);
    }
}

proof fn lemma_split(s: Seq<Pixel>, i: int)
    requires
        0 <= i <= s.len(),
    ensures
        s.to_set() == s.take(i).to_set() + s.skip(i).to_set(),
        s.take(s.len() as int) == s,
{
    assert(s =~= s.take(i) + s.skip(i));
    assert(s.take(s.len() as int) =~= s);
    assert(s.to_set() =~= s.take(i).to_set() + s.skip(i).to_set());
}

/// What is left of `s` from `i` on shares nothing with the prefix of `t` that
/// comes before `s[i]`.
proof fn lemma_skip_above(s: Seq<Pixel>, i: int, t: Seq<Pixel>, j: int)
    requires
        sorted(s),
        0 <= i <= s.len(),
        0 <= j <= t.len(),
        i < s.len() ==> forall|k: int| 0 <= k < j ==> key_of(t[k]) < key_of(s[i]),
    ensures
        s.skip(i).to_set().disjoint(t.take(j).to_set()),
{
    assert forall|y: Pixel| s.skip(i).to_set().contains(y) implies !t.take(j).to_set().contains(
        y,
    ) by {
        let m = choose|m: int| 0 <= m < s.len() - i && s.skip(i)[m] == y;
        assert(s[i + m] == y);
        if t.take(j).contains(y) {
            let k = choose|k: int| 0 <= k < j && t.take(j)[k] == y;
            assert(t[k] == y);
            assert(key_of(s[i]) <= key_of(s[i + m]));
        }
    }
}

/// Appending the rest of a sorted `s` to a sorted `out` that comes before it.
proof fn lemma_append_rest(out: Seq<Pixel>, s: Seq<Pixel>, i: int)
    requires
        sorted(out),
        sorted(s),
        0 <= i <= s.len(),
        below(out, s, i),
    ensures
        sorted(out + s.skip(i)),
        (out + s.skip(i)).to_set() == out.to_set() + s.skip(i).to_set(),
{
    let r = out + s.skip(i);
    assert forall|p: int, q: int| 0 <= p < q < r.len() implies key_of(r[p]) < key_of(r[q]) by {
        if q >= out.len() {
            assert(r[q] == s[i + q - out.len()]);
            if p >= out.len() {
                assert(r[p] == s[i + p - out.len()]);
            } else {
                assert(key_of(s[i]) <= key_of(s[i + q - out.len()]));
            }
        }
    }
    assert(r.to_set() =~= out.to_set() + s.skip(i).to_set());
}

/// Copies `src[from..]` onto the end of `out`.
fn push_rest(out: &mut Vec<Pixel>, src: &Vec<Pixel>, from: usize)
    requires
        from <= src@.len(),
    ensures
        final(out)@ == old(out)@ + src@.skip(from as int),
{
    let mut k: usize = from;
    while k < src.len()
        invariant
            from <= k <= src@.len(),
            out@ == old(out)@ + src@.subrange(from as int, k as int),
        decreases src@.len() - k,
    {
        out.push(src[k]);
        proof {
            assert(src@.subrange(from as int, k + 1) =~= src@.subrange(from as int, k as int).push(
                src@[k as int],
            ));
        }
        k = k + 1;
    }
    assert(src@.subrange(from as int, k as int) =~= src@.skip(from as int));
}

impl PixelSet {
    /// Binary search for `pixel`: `Ok` with its index, or `Err` with the index
    /// at which it would be inserted.
    fn search(&self, pixel: Pixel) -> (r: Result<usize, usize>)
        requires
            self.wf(),
        ensures
            match r {
                Ok(i) => i < self@.len() && self@[i as int] == pixel,
                Err(i) => {
                    &&& i <= self@.len()
                    &&& !self@.contains(pixel)
                    &&& forall|k: int| 0 <= k < i ==> key_of(self@[k]) < key_of(pixel)
                    &&& forall|k: int| i <= k < self@.len() ==> key_of(pixel) < key_of(self@[k])
                },
            },
    {
        let key = pixel.key();
        let mut lo: usize = 0;
        let mut hi: usize = self.pixels.len();
        while lo < hi
            invariant
                self.wf(),
                0 <= lo <= hi <= self@.len(),
                key == key_of(pixel),
                forall|k: int| 0 <= k < lo ==> key_of(self@[k]) < key,
                forall|k: int| hi <= k < self@.len() ==> key < key_of(self@[k]),
            decreases hi - lo,
        {
            let mid = lo + (hi - lo) / 2;
            let mid_key = self.pixels[mid].key();
            if mid_key < key {
                lo = mid + 1;
            } else if key < mid_key {
                hi = mid;
            } else {
                proof {
                    lemma_key_injective(self@[mid as int], pixel);
                }
                return Ok(mid);
            }
        }
        Err(lo)
    }

    /// Whether the set holds `pixel`, by binary search.
    pub fn has(&self, pixel: Pixel) -> (r: bool)
        requires
            self.wf(),
        ensures
            r == self@.contains(pixel),
    {
        match self.search(pixel) {
            Ok(_) => true,
            Err(_) => false,
        }
    }

    /// Whether every pixel of this set is also in `other`.
    pub fn is_subset(&self, other: &PixelSet) -> (r: bool)
        requires
            other.wf(),
        ensures
            r == self@.to_set().subset_of(other@.to_set()),
    {
        let mut i: usize = 0;
        while i < self.pixels.len()
            invariant
                other.wf(),
                0 <= i <= self@.len(),
                forall|k: int| 0 <= k < i ==> other@.contains(#[trigger] self@[k]),
            decreases self@.len() - i,
        {
            if !other.has(self.pixels[i]) {
                assert(self@.to_set().contains(self@[i as int]));
                return false;
            }
            i = i + 1;
        }
        true
    }

    /// Whether this set shares at least one pixel with `other`.
    pub fn intersects(&self, other: &Self) -> (r: bool)
        requires
            other.wf(),
        ensures
            r == !self@.to_set().disjoint(other@.to_set()),
    {
        let mut i: usize = 0;
        while i < self.pixels.len()
            invariant
                other.wf(),
                0 <= i <= self@.len(),
                forall|k: int| 0 <= k < i ==> !other@.contains(#[trigger] self@[k]),
            decreases self@.len() - i,
        {
            if other.has(self.pixels[i]) {
                assert(self@.to_set().contains(self@[i as int]));
                assert(other@.to_set().contains(self@[i as int]));
                return true;
            }
            i = i + 1;
        }
        false
    }
}

impl PixelSet {
    /// Inserts `pixel` at its sorted position; does nothing if it is present.
    pub fn add(&mut self, pixel: Pixel)
        requires
            old(self).wf(),
        ensures
            final(self).wf(),
            final(self)@.to_set() == old(self)@.to_set().insert(pixel),
            final(self)@ == sorted_of(old(self)@.to_set().insert(pixel)),
            old(self)@.contains(pixel) ==> final(self)@ == old(self)@,
    {
        match self.search(pixel) {
            Ok(_) => {
                assert(old(self)@.to_set().insert(pixel) =~= old(self)@.to_set());
            },
            Err(idx) => {
                self.pixels.insert(idx, pixel);
                let ghost s = old(self)@;
                let ghost r = self@;
                assert(r == s.insert(idx as int, pixel));
                assert forall|p: int, q: int| 0 <= p < q < r.len() implies key_of(r[p]) < key_of(
                    r[q],
                ) by {
                    if p < idx && q > idx {
                        assert(r[q] == s[q - 1]);
                    } else if p > idx {
                        assert(r[p] == s[p - 1]);
                        assert(r[q] == s[q - 1]);
                    } else if q < idx {
                    } else if p == idx {
                        assert(r[q] == s[q - 1]);
                    }
                }
                assert forall|y: Pixel| r.contains(y) <==> s.to_set().insert(pixel).contains(y) by {
                    if r.contains(y) {
                        let k = choose|k: int| 0 <= k < r.len() && r[k] == y;
                        if k < idx {
                            assert(s[k] == y);
                        } else if k > idx {
                            assert(s[k - 1] == y);
                        }
                    }
                    if s.contains(y) {
                        let k = choose|k: int| 0 <= k < s.len() && s[k] == y;
                        if k < idx {
                            assert(r[k] == y);
                        } else {
                            assert(r[k + 1] == y);
                        }
                    }
                    if y == pixel {
                        assert(r[idx as int] == y);
                    }
                }
                assert(r.to_set() =~= s.to_set().insert(pixel));
            },
        }
        proof {
            lemma_sorted_of(self@);
        }
    }

    /// Removes `pixel`; does nothing if it is absent.
    pub fn discard(&mut self, pixel: Pixel)
        requires
            old(self).wf(),
        ensures
            final(self).wf(),
            final(self)@.to_set() == old(self)@.to_set().remove(pixel),
            final(self)@ == sorted_of(old(self)@.to_set().remove(pixel)),
            !old(self)@.contains(pixel) ==> final(self)@ == old(self)@,
    {
        match self.search(pixel) {
            Ok(idx) => {
                self.pixels.remove(idx);
                let ghost s = old(self)@;
                let ghost r = self@;
                assert(r == s.remove(idx as int));
                assert forall|p: int, q: int| 0 <= p < q < r.len() implies key_of(r[p]) < key_of(
                    r[q],
                ) by {
                    if p >= idx {
                        assert(r[p] == s[p + 1]);
                    }
                    if q >= idx {
                        assert(r[q] == s[q + 1]);
                    }
                }
                assert forall|y: Pixel| r.contains(y) <==> s.to_set().remove(pixel).contains(y) by {
                    if r.contains(y) {
                        let k = choose|k: int| 0 <= k < r.len() && r[k] == y;
                        if k < idx {
                            assert(s[k] == y);
                            assert(key_of(s[k]) < key_of(s[idx as int]));
                        } else {
                            assert(s[k + 1] == y);
                            assert(key_of(s[idx as int]) < key_of(s[k + 1]));
                        }
                    }
                    if s.contains(y) && y != pixel {
                        let k = choose|k: int| 0 <= k < s.len() && s[k] == y;
                        if k < idx {
                            assert(r[k] == y);
                        } else {
                            assert(r[k - 1] == y);
                        }
                    }
                }
                assert(r.to_set() =~= s.to_set().remove(pixel));
            },
            Err(_) => {
                assert(old(self)@.to_set().remove(pixel) =~= old(self)@.to_set());
            },
        }
        proof {
            lemma_sorted_of(self@);
        }
    }
}

impl PixelSet {
    /// The union of the two sets, by one forward merge of both.
    pub fn or(&self, other: &Self) -> (r: Self)
        requires
            self.wf(),
            other.wf(),
        ensures
            r.wf(),
            r@.to_set() == self@.to_set() + other@.to_set(),
            r@ == union_of(self@, other@),
    {
        if self.is_empty() {
            assert(self@.to_set() + other@.to_set() =~= other@.to_set());
            proof {
                lemma_sorted_of(other@);
            }
            return other.duplicate();
        }
        let a = &self.pixels;
        let b = &other.pixels;
        let mut out: Vec<Pixel> = Vec::new();
        let mut i: usize = 0;
        let mut j: usize = 0;
        while i < a.len() && j < b.len()
            invariant
                sorted(a@),
                sorted(b@),
                i <= a@.len(),
                j <= b@.len(),
                sorted(out@),
                below(out@, a@, i as int),
                below(out@, b@, j as int),
                frontier(a@, b@, i as int, j as int),
                out@.to_set() == a@.take(i as int).to_set() + b@.take(j as int).to_set(),
            decreases a@.len() - i + b@.len() - j,
        {
            let pa = a[i];
            let pb = b[j];
            proof {
                lemma_take_next(a@, i as int);
                lemma_take_next(b@, j as int);
                lemma_push_set(out@, pa);
                lemma_push_set(out@, pb);
            }
            if pa.key() < pb.key() {
                out.push(pa);
                i = i + 1;
            } else if pb.key() < pa.key() {
                out.push(pb);
                j = j + 1;
            } else {
                proof {
                    lemma_key_injective(pa, pb);
                }
                out.push(pa);
                i = i + 1;
                j = j + 1;
            }
            assert(out@.to_set() =~= a@.take(i as int).to_set() + b@.take(j as int).to_set());
        }
        let ghost mid = out@;
        proof {
            lemma_append_rest(mid, a@, i as int);
        }
        push_rest(&mut out, a, i);
        proof {
            if j < b@.len() {
                assert(a@.skip(i as int) =~= Seq::<Pixel>::empty());
                assert(out@ =~= mid);
            }
            lemma_append_rest(out@, b@, j as int);
        }
        push_rest(&mut out, b, j);
        proof {
            lemma_split(a@, i as int);
            lemma_split(b@, j as int);
            assert(out@.to_set() =~= self@.to_set() + other@.to_set());
            lemma_sorted_of(out@);
        }
        PixelSet { pixels: out }
    }
}

impl PixelSet {
    /// The intersection of the two sets, by one forward merge of both.
    pub fn and(&self, other: &Self) -> (r: Self)
        requires
            self.wf(),
            other.wf(),
        ensures
            r.wf(),
            r@.to_set() == self@.to_set().intersect(other@.to_set()),
            r@ == intersection_of(self@, other@),
    {
        let a = &self.pixels;
        let b = &other.pixels;
        let mut out: Vec<Pixel> = Vec::new();
        let mut i: usize = 0;
        let mut j: usize = 0;
        while i < a.len() && j < b.len()
            invariant
                sorted(a@),
                sorted(b@),
                i <= a@.len(),
                j <= b@.len(),
                sorted(out@),
                below(out@, a@, i as int),
                below(out@, b@, j as int),
                frontier(a@, b@, i as int, j as int),
                out@.to_set() == a@.take(i as int).to_set().intersect(b@.take(j as int).to_set()),
            decreases a@.len() - i + b@.len() - j,
        {
            let pa = a[i];
            let pb = b[j];
            proof {
                lemma_take_next(a@, i as int);
                lemma_take_next(b@, j as int);
                lemma_push_set(out@, pa);
                lemma_push_set(out@, pb);
                lemma_not_in_prefix(a@, i as int, pa);
                lemma_not_in_prefix(b@, j as int, pb);
                if key_of(pa) < key_of(pb) {
                    lemma_not_in_prefix(b@, j as int, pa);
                }
                if key_of(pb) < key_of(pa) {
                    lemma_not_in_prefix(a@, i as int, pb);
                }
            }
            if pa.key() < pb.key() {
                i = i + 1;
            } else if pb.key() < pa.key() {
                j = j + 1;
            } else {
                proof {
                    lemma_key_injective(pa, pb);
                }
                out.push(pa);
                i = i + 1;
                j = j + 1;
            }
            assert(out@.to_set() =~= a@.take(i as int).to_set().intersect(b@.take(j as int).to_set()));
        }
        proof {
            lemma_split(a@, i as int);
            lemma_split(b@, j as int);
            lemma_skip_above(a@, i as int, b@, j as int);
            lemma_skip_above(b@, j as int, a@, i as int);
            if i == a@.len() {
                assert(a@.skip(i as int).to_set() =~= Set::<Pixel>::empty());
            } else {
                assert(b@.skip(j as int).to_set() =~= Set::<Pixel>::empty());
            }
        }
        proof {
            assert(out@.to_set() =~= self@.to_set().intersect(other@.to_set()));
            lemma_sorted_of(out@);
        }
        PixelSet { pixels: out }
    }

    /// The pixels in exactly one of the two sets, by one forward merge of both.
    pub fn xor(&self, other: &Self) -> (r: Self)
        requires
            self.wf(),
            other.wf(),
        ensures
            r.wf(),
            r@.to_set() == self@.to_set().difference(other@.to_set()) + other@.to_set().difference(
                self@.to_set(),
            ),
            r@ == symmetric_difference_of(self@, other@),
    {
        let a = &self.pixels;
        let b = &other.pixels;
        let mut out: Vec<Pixel> = Vec::new();
        let mut i: usize = 0;
        let mut j: usize = 0;
        while i < a.len() && j < b.len()
            invariant
                sorted(a@),
                sorted(b@),
                i <= a@.len(),
                j <= b@.len(),
                sorted(out@),
                below(out@, a@, i as int),
                below(out@, b@, j as int),
                frontier(a@, b@, i as int, j as int),
                out@.to_set() == a@.take(i as int).to_set().difference(b@.take(j as int).to_set()) + b@.take(j as int).to_set().difference(a@.take(i as int).to_set()),
            decreases a@.len() - i + b@.len() - j,
        {
            let pa = a[i];
            let pb = b[j];
            proof {
                lemma_take_next(a@, i as int);
                lemma_take_next(b@, j as int);
                lemma_push_set(out@, pa);
                lemma_push_set(out@, pb);
                lemma_not_in_prefix(a@, i as int, pa);
                lemma_not_in_prefix(b@, j as int, pb);
                if key_of(pa) < key_of(pb) {
                    lemma_not_in_prefix(b@, j as int, pa);
                }
                if key_of(pb) < key_of(pa) {
                    lemma_not_in_prefix(a@, i as int, pb);
                }
            }
            if pa.key() < pb.key() {
                out.push(pa);
                i = i + 1;
            } else if pb.key() < pa.key() {
                out.push(pb);
                j = j + 1;
            } else {
                proof {
                    lemma_key_injective(pa, pb);
                }
                i = i + 1;
                j = j + 1;
            }
            assert(out@.to_set() =~= a@.take(i as int).to_set().difference(b@.take(j as int).to_set()) + b@.take(j as int).to_set().difference(a@.take(i as int).to_set()));
        }
        let ghost mid = out@;
        proof {
            lemma_append_rest(mid, a@, i as int);
        }
        push_rest(&mut out, a, i);
        proof {
            if j < b@.len() {
                assert(a@.skip(i as int) =~= Seq::<Pixel>::empty());
                assert(out@ =~= mid);
            }
            lemma_append_rest(out@, b@, j as int);
        }
        push_rest(&mut out, b, j);
        proof {
            lemma_split(a@, i as int);
            lemma_split(b@, j as int);
            lemma_skip_above(a@, i as int, b@, j as int);
            lemma_skip_above(b@, j as int, a@, i as int);
            if i == a@.len() {
                assert(a@.skip(i as int).to_set() =~= Set::<Pixel>::empty());
            } else {
                assert(b@.skip(j as int).to_set() =~= Set::<Pixel>::empty());
            }
        }
        proof {
            assert(out@.to_set() =~= self@.to_set().difference(other@.to_set())
                + other@.to_set().difference(self@.to_set()));
            lemma_sorted_of(out@);
        }
        PixelSet { pixels: out }
    }

    /// The pixels of this set that are not in `other`, by one forward merge.
    pub fn difference(&self, other: &Self) -> (r: Self)
        requires
            self.wf(),
            other.wf(),
        ensures
            r.wf(),
            r@.to_set() == self@.to_set().difference(other@.to_set()),
            r@ == difference_of(self@, other@),
    {
        let a = &self.pixels;
        let b = &other.pixels;
        let mut out: Vec<Pixel> = Vec::new();
        let mut i: usize = 0;
        let mut j: usize = 0;
        while i < a.len() && j < b.len()
            invariant
                sorted(a@),
                sorted(b@),
                i <= a@.len(),
                j <= b@.len(),
                sorted(out@),
                below(out@, a@, i as int),
                below(out@, b@, j as int),
                frontier(a@, b@, i as int, j as int),
                out@.to_set() == a@.take(i as int).to_set().difference(b@.take(j as int).to_set()),
            decreases a@.len() - i + b@.len() - j,
        {
            let pa = a[i];
            let pb = b[j];
            proof {
                lemma_take_next(a@, i as int);
                lemma_take_next(b@, j as int);
                lemma_push_set(out@, pa);
                lemma_push_set(out@, pb);
                lemma_not_in_prefix(a@, i as int, pa);
                lemma_not_in_prefix(b@, j as int, pb);
                if key_of(pa) < key_of(pb) {
                    lemma_not_in_prefix(b@, j as int, pa);
                }
                if key_of(pb) < key_of(pa) {
                    lemma_not_in_prefix(a@, i as int, pb);
                }
            }
            if pa.key() < pb.key() {
                out.push(pa);
                i = i + 1;
            } else if pb.key() < pa.key() {
                j = j + 1;
            } else {
                proof {
                    lemma_key_injective(pa, pb);
                }
                i = i + 1;
                j = j + 1;
            }
            assert(out@.to_set() =~= a@.take(i as int).to_set().difference(b@.take(j as int).to_set()));
        }
        let ghost mid = out@;
        proof {
            lemma_append_rest(mid, a@, i as int);
        }
        push_rest(&mut out, a, i);
        proof {
            lemma_split(a@, i as int);
            lemma_split(b@, j as int);
            lemma_skip_above(a@, i as int, b@, j as int);
            lemma_skip_above(b@, j as int, a@, i as int);
            if i == a@.len() {
                assert(a@.skip(i as int).to_set() =~= Set::<Pixel>::empty());
            } else {
                assert(b@.skip(j as int).to_set() =~= Set::<Pixel>::empty());
            }
        }
        proof {
            assert(out@.to_set() =~= self@.to_set().difference(other@.to_set()));
            lemma_sorted_of(out@);
        }
        PixelSet { pixels: out }
    }
}

} // verus!
