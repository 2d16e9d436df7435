//! Comparators, the order they induce, and facts about sorted and
//! stably permuted sequences.
use std::cmp::Ordering;
use vstd::prelude::*;

verus! {

/// A three-way comparison over `T` that is a strict weak ordering.
///
/// `ord` is the comparison as a mathematical function; `compare` computes it,
/// and `lemma_laws` proves that it is consistent under swapping the arguments
/// and that "not greater" is transitive.
pub trait Comparator<T> {
    spec fn ord(&self, a: T, b: T) -> Ordering;

    proof fn lemma_laws(&self, a: T, b: T, c: T)
        ensures
            self.ord(a, b) == Ordering::Less <==> self.ord(b, a) == Ordering::Greater,
            self.ord(a, b) != Ordering::Greater && self.ord(b, c) != Ordering::Greater
                ==> self.ord(a, c) != Ordering::Greater,
    ;

    fn compare(&self, a: &T, b: &T) -> (r: Ordering)
        ensures
            r == self.ord(*a, *b),
    ;
}

/// The natural order of an integer type.
pub struct NaturalOrder;

impl Comparator<i32> for NaturalOrder {
    open spec fn ord(&self, a: i32, b: i32) -> Ordering {
        int_ord(a as int, b as int)
    }

    proof fn lemma_laws(&self, a: i32, b: i32, c: i32) {
    }

    fn compare(&self, a: &i32, b: &i32) -> (r: Ordering) {
        if *a < *b {
            Ordering::Less
        } else if *a > *b {
            Ordering::Greater
        } else {
            Ordering::Equal
        }
    }
}

impl Comparator<i64> for NaturalOrder {
    open spec fn ord(&self, a: i64, b: i64) -> Ordering {
        int_ord(a as int, b as int)
    }

    proof fn lemma_laws(&self, a: i64, b: i64, c: i64) {
    }

    fn compare(&self, a: &i64, b: &i64) -> (r: Ordering) {
        if *a < *b {
            Ordering::Less
        } else if *a > *b {
            Ordering::Greater
        } else {
            Ordering::Equal
        }
    }
}

impl Comparator<u64> for NaturalOrder {
    open spec fn ord(&self, a: u64, b: u64) -> Ordering {
        int_ord(a as int, b as int)
    }

    proof fn lemma_laws(&self, a: u64, b: u64, c: u64) {
    }

    fn compare(&self, a: &u64, b: &u64) -> (r: Ordering) {
        if *a < *b {
            Ordering::Less
        } else if *a > *b {
            Ordering::Greater
        } else {
            Ordering::Equal
        }
    }
}

impl Comparator<usize> for NaturalOrder {
    open spec fn ord(&self, a: usize, b: usize) -> Ordering {
        int_ord(a as int, b as int)
    }

    proof fn lemma_laws(&self, a: usize, b: usize, c: usize) {
    }

    fn compare(&self, a: &usize, b: &usize) -> (r: Ordering) {
        if *a < *b {
            Ordering::Less
        } else if *a > *b {
            Ordering::Greater
        } else {
            Ordering::Equal
        }
    }
}

/// Orders `(key, payload)` pairs by their key alone, so that pairs with equal
/// keys compare equal.
pub struct KeyOrder;

impl Comparator<(i32, i32)> for KeyOrder {
    open spec fn ord(&self, a: (i32, i32), b: (i32, i32)) -> Ordering {
        int_ord(a.0 as int, b.0 as int)
    }

    proof fn lemma_laws(&self, a: (i32, i32), b: (i32, i32), c: (i32, i32)) {
    }

    fn compare(&self, a: &(i32, i32), b: &(i32, i32)) -> (r: Ordering) {
        if a.0 < b.0 {
            Ordering::Less
        } else if a.0 > b.0 {
            Ordering::Greater
        } else {
            Ordering::Equal
        }
    }
}

/// Three-way comparison of mathematical integers.
pub open spec fn int_ord(a: int, b: int) -> Ordering {
    if a < b {
        Ordering::Less
    } else if a > b {
        Ordering::Greater
    } else {
        Ordering::Equal
    }
}

/// `a` is not greater than `b`.
pub open spec fn le<T, C: Comparator<T>>(c: &C, a: T, b: T) -> bool {
    c.ord(a, b) != Ordering::Greater
}

/// `a` is strictly less than `b`.
pub open spec fn lt<T, C: Comparator<T>>(c: &C, a: T, b: T) -> bool {
    c.ord(a, b) == Ordering::Less
}

/// `a` and `b` compare equal.
pub open spec fn equiv<T, C: Comparator<T>>(c: &C, a: T, b: T) -> bool {
    c.ord(a, b) == Ordering::Equal
}

/// Every pair of positions `i < j` in `[lo, hi)` is in order.
pub open spec fn sorted_between<T, C: Comparator<T>>(c: &C, s: Seq<T>, lo: int, hi: int) -> bool {
    forall|i: int, j: int| #![trigger s[i], s[j]] lo <= i < j < hi ==> le(c, s[i], s[j])
}

/// The elements that compare equal to `k`.
pub open spec fn class_of<T, C: Comparator<T>>(c: &C, k: T) -> spec_fn(T) -> bool {
    |x: T| c.ord(x, k) == Ordering::Equal
}

/// For every equivalence class, the elements of that class occur in `s1` and
/// in `s2` as the same sequence.  This says at once that `s2` is a
/// permutation of `s1` and that elements comparing equal kept their relative
/// order.
pub open spec fn same_classes<T, C: Comparator<T>>(c: &C, s1: Seq<T>, s2: Seq<T>) -> bool {
    forall|k: T| #[trigger] s1.filter(class_of(c, k)) == s2.filter(class_of(c, k))
}

/// `s2` agrees with `s1` outside `[lo, hi)` (both have the same length).
pub open spec fn unchanged_outside<T>(s1: Seq<T>, s2: Seq<T>, lo: int, hi: int) -> bool {
    &&& s1.len() == s2.len()
    &&& forall|i: int| 0 <= i < s1.len() && !(lo <= i < hi) ==> s2[i] == s1[i]
}

/// The laws of a comparator, stated for all elements.
pub proof fn lemma_order<T, C: Comparator<T>>(c: &C)
    ensures
        forall|a: T, b: T| #[trigger] lt(c, a, b) <==> c.ord(b, a) == Ordering::Greater,
        forall|a: T, b: T| #[trigger] equiv(c, a, b) <==> equiv(c, b, a),
        forall|a: T| #[trigger] equiv(c, a, a),
        forall|a: T, b: T| #[trigger] le(c, a, b) <==> !lt(c, b, a),
        forall|a: T, b: T, d: T| #[trigger] le(c, a, b) && #[trigger] le(c, b, d) ==> le(c, a, d),
        forall|a: T, b: T, d: T| #[trigger] le(c, a, b) && #[trigger] lt(c, b, d) ==> lt(c, a, d),
        forall|a: T, b: T, d: T| #[trigger] lt(c, a, b) && #[trigger] le(c, b, d) ==> lt(c, a, d),
{
    assert forall|a: T, b: T| #[trigger] lt(c, a, b) <==> c.ord(b, a) == Ordering::Greater by {
        c.lemma_laws(a, b, a);
    }
    assert forall|a: T, b: T| #[trigger] equiv(c, a, b) <==> equiv(c, b, a) by {
        c.lemma_laws(a, b, a);
        c.lemma_laws(b, a, b);
    }
    assert forall|a: T| #[trigger] equiv(c, a, a) by {
        c.lemma_laws(a, a, a);
    }
    assert forall|a: T, b: T| #[trigger] le(c, a, b) <==> !lt(c, b, a) by {
        c.lemma_laws(b, a, b);
    }
    assert forall|a: T, b: T, d: T| #[trigger] le(c, a, b) && #[trigger] le(c, b, d) implies le(c, a, d) by {
        c.lemma_laws(a, b, d);
    }
    assert forall|a: T, b: T, d: T| #[trigger] le(c, a, b) && #[trigger] lt(c, b, d) implies lt(c, a, d) by {
        c.lemma_laws(d, a, b);
        c.lemma_laws(b, d, b);
        c.lemma_laws(a, d, a);
    }
    assert forall|a: T, b: T, d: T| #[trigger] lt(c, a, b) && #[trigger] le(c, b, d) implies lt(c, a, d) by {
        c.lemma_laws(b, d, a);
        c.lemma_laws(a, b, a);
        c.lemma_laws(a, d, a);
    }
}

/// Exchanging two adjacent blocks keeps every class's subsequence when no
/// element of one block compares equal to an element of the other.
pub proof fn lemma_swap_blocks<T, C: Comparator<T>>(c: &C, x: Seq<T>, y: Seq<T>, k: T)
    requires
        forall|i: int, j: int|
            0 <= i < x.len() && 0 <= j < y.len() ==> !equiv(c, #[trigger] x[i], #[trigger] y[j]),
    ensures
        (x + y).filter(class_of(c, k)) == (y + x).filter(class_of(c, k)),
{
    broadcast use Seq::filter_distributes_over_add;
    lemma_order(c);
    let p = class_of(c, k);
    if exists|i: int| 0 <= i < x.len() && p(x[i]) {
        let i = choose|i: int| 0 <= i < x.len() && p(x[i]);
        assert forall|j: int| 0 <= j < y.len() implies !p(y[j]) by {
            if p(y[j]) {
                assert(equiv(c, x[i], k) && equiv(c, y[j], k));
                assert(equiv(c, k, x[i]) && equiv(c, k, y[j]));
                assert(le(c, x[i], k) && le(c, k, y[j]));
                assert(le(c, y[j], k) && le(c, k, x[i]));
                assert(equiv(c, x[i], y[j]));
            }
        }
        lemma_filter_none(y, p);
        assert(x.filter(p) + y.filter(p) =~= y.filter(p) + x.filter(p));
    } else {
        lemma_filter_none(x, p);
        assert(x.filter(p) + y.filter(p) =~= y.filter(p) + x.filter(p));
    }
}

proof fn lemma_filter_none<T>(s: Seq<T>, p: spec_fn(T) -> bool)
    requires
        forall|i: int| 0 <= i < s.len() ==> !p(#[trigger] s[i]),
    ensures
        s.filter(p).len() == 0,
    decreases s.len(),
{
    reveal(Seq::filter);
    if s.len() > 0 {
        lemma_filter_none(s.drop_last(), p);
    }
}

/// Where `s2` holds the two blocks `[lo, mid)` and `[mid, hi)` of `s1` in
/// exchanged order, and no element of one compares equal to one of the
/// other, the window keeps its classes.
pub proof fn lemma_rotated_classes<T, C: Comparator<T>>(
    c: &C,
    s1: Seq<T>,
    s2: Seq<T>,
    lo: int,
    mid: int,
    hi: int,
)
    requires
        0 <= lo <= mid <= hi <= s1.len(),
        s2.subrange(lo, hi) == s1.subrange(mid, hi) + s1.subrange(lo, mid),
        forall|i: int, j: int|
            lo <= i < mid && mid <= j < hi ==> !equiv(c, #[trigger] s1[i], #[trigger] s1[j]),
    ensures
        same_classes(c, s1.subrange(lo, hi), s2.subrange(lo, hi)),
{
    let x = s1.subrange(lo, mid);
    let y = s1.subrange(mid, hi);
    assert(s1.subrange(lo, hi) =~= x + y);
    assert forall|i: int, j: int|
        0 <= i < x.len() && 0 <= j < y.len() implies !equiv(c, #[trigger] x[i], #[trigger] y[j]) by {
        assert(x[i] == s1[lo + i] && y[j] == s1[mid + j]);
    }
    assert forall|k: T| #[trigger] s1.subrange(lo, hi).filter(class_of(c, k)) == s2.subrange(
        lo,
        hi,
    ).filter(class_of(c, k)) by {
        lemma_swap_blocks(c, x, y, k);
    }
}

/// Keeping the classes of a window, and everything outside it, keeps the
/// classes of every range around the window.
pub proof fn lemma_classes_widen<T, C: Comparator<T>>(
    c: &C,
    s1: Seq<T>,
    s2: Seq<T>,
    lo: int,
    hi: int,
    start: int,
    end: int,
)
    requires
        0 <= start <= lo <= hi <= end <= s1.len(),
        unchanged_outside(s1, s2, lo, hi),
        same_classes(c, s1.subrange(lo, hi), s2.subrange(lo, hi)),
    ensures
        same_classes(c, s1.subrange(start, end), s2.subrange(start, end)),
{
    broadcast use Seq::filter_distributes_over_add;

    assert(s1.subrange(start, end) =~= s1.subrange(start, lo) + s1.subrange(lo, hi) + s1.subrange(
        hi,
        end,
    ));
    assert(s2.subrange(start, end) =~= s2.subrange(start, lo) + s2.subrange(lo, hi) + s2.subrange(
        hi,
        end,
    ));
    assert(s1.subrange(start, lo) =~= s2.subrange(start, lo));
    assert(s1.subrange(hi, end) =~= s2.subrange(hi, end));
    assert forall|k: T| #[trigger] s1.subrange(start, end).filter(class_of(c, k)) == s2.subrange(
        start,
        end,
    ).filter(class_of(c, k)) by {
        assert(s1.subrange(lo, hi).filter(class_of(c, k)) == s2.subrange(lo, hi).filter(
            class_of(c, k),
        ));
    }
}

/// Keeping the classes is transitive.
pub proof fn lemma_classes_trans<T, C: Comparator<T>>(c: &C, s1: Seq<T>, s2: Seq<T>, s3: Seq<T>)
    requires
        same_classes(c, s1, s2),
        same_classes(c, s2, s3),
    ensures
        same_classes(c, s1, s3),
{
    assert forall|k: T| #[trigger] s1.filter(class_of(c, k)) == s3.filter(class_of(c, k)) by {
        assert(s2.filter(class_of(c, k)) == s3.filter(class_of(c, k)));
    }
}

proof fn lemma_filter_count<T>(s: Seq<T>, p: spec_fn(T) -> bool, x: T)
    requires
        p(x),
    ensures
        s.filter(p).to_multiset().count(x) == s.to_multiset().count(x),
    decreases s.len(),
{
    broadcast use vstd::seq_lib::group_to_multiset_ensures;
    broadcast use vstd::multiset::group_multiset_axioms;

    reveal(Seq::filter);
    if s.len() > 0 {
        lemma_filter_count(s.drop_last(), p, x);
        assert(s =~= s.drop_last().push(s.last()));
    }
}

/// Two sequences with the same classes hold the same multiset of elements.
pub proof fn lemma_classes_multiset<T, C: Comparator<T>>(c: &C, s1: Seq<T>, s2: Seq<T>)
    requires
        same_classes(c, s1, s2),
    ensures
        s1.to_multiset() == s2.to_multiset(),
{
    lemma_order(c);
    assert forall|x: T| s1.to_multiset().count(x) == s2.to_multiset().count(x) by {
        assert(equiv(c, x, x));
        lemma_filter_count(s1, class_of(c, x), x);
        lemma_filter_count(s2, class_of(c, x), x);
        assert(s1.filter(class_of(c, x)) == s2.filter(class_of(c, x)));
    }
    assert(s1.to_multiset() =~= s2.to_multiset());
}

} // verus!
