//! Stable in-place sorting: insertion sort for short ranges, and a merge sort
//! whose merge step interleaves two sorted runs by rotations.
use crate::order::{
    equiv, lemma_classes_multiset, lemma_classes_trans, lemma_classes_widen, lemma_order,
    lemma_rotated_classes, le, lt, same_classes, sorted_between, unchanged_outside, Comparator,
    NaturalOrder,
};
use crate::range_ops::{rotate_at, rotated, swap_at};
use crate::search::{binary_first, binary_last};
use std::cmp::Ordering;
use std::ops::Range;
use vstd::prelude::*;

verus! {

/// `s2` is `s1` with `[lo, hi)` sorted stably: everything outside the range is
/// unchanged, the range is in order, every class of equal elements keeps its
/// order, and a range that was already in order is left as it was.
pub open spec fn sorts_range<T, C: Comparator<T>>(c: &C, s1: Seq<T>, s2: Seq<T>, lo: int, hi: int) -> bool {
    &&& unchanged_outside(s1, s2, lo, hi)
    &&& sorted_between(c, s2, lo, hi)
    &&& same_classes(c, s1.subrange(lo, hi), s2.subrange(lo, hi))
    &&& sorted_between(c, s1, lo, hi) ==> s2 == s1
}

/// Sorts the non-empty `range` by insertion: each element moves back past the
/// elements before it that are strictly greater.
pub fn insertion_sort_helper<T, C: Comparator<T>>(array: &mut [T], range: Range<usize>, compare: &C)
    requires
        range.start < range.end <= old(array)@.len(),
    ensures
        sorts_range(compare, old(array)@, final(array)@, range.start as int, range.end as int),
{
    let ghost s = array@;
    let start = range.start;
    let len = range.end;
    let mut i: usize = start + 1;
    while i < len
        invariant
            start < i <= len <= s.len(),
            unchanged_outside(s, array@, start as int, len as int),
            sorted_between(compare, array@, start as int, i as int),
            same_classes(compare, s.subrange(start as int, len as int), array@.subrange(start as int, len as int)),
            sorted_between(compare, s, start as int, len as int) ==> array@ == s,
        decreases len - i,
    {
        let mut j: usize = i;
        let mut moving = true;
        while moving && j > start
            invariant
                start <= j <= i < len <= s.len(),
                unchanged_outside(s, array@, start as int, len as int),
                sorted_between(compare, array@, start as int, j as int),
                sorted_between(compare, array@, j + 1, i + 1),
                forall|a: int, b: int|
                    #![trigger array@[a], array@[b]]
                    start <= a < j < b <= i ==> le(compare, array@[a], array@[b]),
                forall|b: int| j < b <= i ==> #[trigger] lt(compare, array@[j as int], array@[b]),
                !moving ==> j == start || le(compare, array@[j - 1], array@[j as int]),
                same_classes(compare, s.subrange(start as int, len as int), array@.subrange(start as int, len as int)),
                sorted_between(compare, s, start as int, len as int) ==> array@ == s && j == i,
            decreases j + if moving { 1int } else { 0int },
        {
            proof {
                lemma_order(compare);
            }
            let o = compare.compare(&array[j - 1], &array[j]);
            if matches!(o, Ordering::Greater) {
                let ghost before = array@;
                assert(!equiv(compare, before[j - 1], before[j as int]));
                assert(sorted_between(compare, s, start as int, len as int) ==> le(compare, s[j - 1], s[j as int]));
                swap_at(array, j, j - 1);
                proof {
                    assert(array@.subrange(j - 1, j + 1) =~= before.subrange(j as int, j + 1) + before.subrange(j - 1, j as int));
                    lemma_rotated_classes(compare, before, array@, j - 1, j as int, j + 1);
                    lemma_classes_widen(compare, before, array@, j - 1, j + 1, start as int, len as int);
                    lemma_classes_trans(
                        compare,
                        s.subrange(start as int, len as int),
                        before.subrange(start as int, len as int),
                        array@.subrange(start as int, len as int),
                    );
                }
                j -= 1;
            } else {
                moving = false;
            }
        }
        proof {
            lemma_order(compare);
            assert forall|a: int, b: int| start <= a < b < i + 1 implies le(compare, array@[a], array@[b]) by {
                if b == j && a < j - 1 {
                    assert(le(compare, array@[a], array@[j - 1]));
                    assert(le(compare, array@[j - 1], array@[b]));
                } else if a == j {
                    assert(lt(compare, array@[a], array@[b]));
                } else if a < j && j < b {
                    assert(le(compare, array@[a], array@[b]));
                }
            }
        }
        i += 1;
    }
}

/// Sorts `range` stably by insertion under `compare`.
pub fn insertion_sort_by<T, C: Comparator<T>>(array: &mut [T], range: Range<usize>, compare: &C)
    requires
        range.start <= range.end <= old(array)@.len(),
    ensures
        sorts_range(compare, old(array)@, final(array)@, range.start as int, range.end as int),
{
    if array.len() <= 1 || range.start >= range.end {
        return;
    }
    insertion_sort_helper(array, range, compare);
}

/// Sorts `range` stably by insertion in natural order.
pub fn insertion_sort<T>(array: &mut [T], range: Range<usize>)
    where NaturalOrder: Comparator<T>,
    requires
        range.start <= range.end <= old(array)@.len(),
    ensures
        sorts_range(&NaturalOrder, old(array)@, final(array)@, range.start as int, range.end as int),
{
    insertion_sort_by(array, range, &NaturalOrder);
}

/// Merges the adjacent sorted runs `a` and `b` into one sorted run over both,
/// in place and stably: among equal elements those of `a` come first.
///
/// Elements of `a` that are not greater than the first remaining element of
/// `b` stay where they are; otherwise the run of `b` elements that are less
/// than the next element of `a` is rotated in front of it.
pub fn merge<T, C: Comparator<T>>(array: &mut [T], a: Range<usize>, b: Range<usize>, compare: &C)
    requires
        a.start <= a.end,
        a.end == b.start,
        b.start <= b.end <= old(array)@.len(),
        sorted_between(compare, old(array)@, a.start as int, a.end as int),
        sorted_between(compare, old(array)@, b.start as int, b.end as int),
    ensures
        sorts_range(compare, old(array)@, final(array)@, a.start as int, b.end as int),
{
    let ghost s = array@;
    let a0 = a.start;
    let b0 = b.end;
    let mut mid = a.end;
    proof {
        lemma_order(compare);
    }
    if a0 == mid || mid == b0 {
        return;
    }
    let o = compare.compare(&array[mid - 1], &array[mid]);
    if !matches!(o, Ordering::Greater) {
        assert forall|x: int, y: int| a0 <= x < y < b0 implies le(compare, s[x], s[y]) by {
            if x < mid && mid <= y {
                if x < mid - 1 {
                    assert(le(compare, s[x], s[mid - 1]));
                }
                if y > mid {
                    assert(le(compare, s[mid as int], s[y]));
                }
            }
        }
        return;
    }
    assert(!sorted_between(compare, s, a0 as int, b0 as int)) by {
        assert(le(compare, s[mid - 1], s[mid as int]) ==> false);
    }
    let hi = binary_first(array, mid..b0, &array[mid - 1], compare);
    assert forall|x: int, y: int| a0 <= x < mid && hi <= y < b0 implies #[trigger] le(compare, s[x], s[y]) by {
        if x < mid - 1 {
            assert(le(compare, s[x], s[mid - 1]));
        }
    }
    let mut lo = a0;
    while lo < mid && mid < hi
        invariant
            a0 <= lo <= mid <= hi <= b0 <= s.len(),
            unchanged_outside(s, array@, a0 as int, b0 as int),
            same_classes(compare, s.subrange(a0 as int, b0 as int), array@.subrange(a0 as int, b0 as int)),
            sorted_between(compare, array@, a0 as int, lo as int),
            sorted_between(compare, array@, lo as int, mid as int),
            sorted_between(compare, array@, mid as int, b0 as int),
            forall|x: int, y: int|
                #![trigger array@[x], array@[y]]
                a0 <= x < lo <= y < b0 ==> le(compare, array@[x], array@[y]),
            forall|x: int, y: int|
                #![trigger array@[x], array@[y]]
                lo <= x < mid && hi <= y < b0 ==> le(compare, array@[x], array@[y]),
            !sorted_between(compare, s, a0 as int, b0 as int),
        decreases b0 - lo,
    {
        proof {
            lemma_order(compare);
        }
        let ghost before = array@;
        let keep = binary_last(array, lo..mid, &array[mid], compare);
        assert forall|x: int, y: int| a0 <= x < keep <= y < b0 implies #[trigger] le(compare, array@[x], array@[y]) by {
            if lo <= x && mid < y {
                assert(le(compare, array@[mid as int], array@[y]));
            }
        }
        if keep < mid {
            let p = binary_first(array, mid..hi, &array[keep], compare);
            assert(lt(compare, array@[mid as int], array@[keep as int]));
            assert(p > mid);
            let ghost next = array@[keep as int];
            let ghost cut = (keep + (p - mid)) as int;
            assert forall|x: int, y: int| keep <= x < mid && mid <= y < p implies !equiv(compare, #[trigger] before[x], #[trigger] before[y]) by {
                if x > keep {
                    assert(le(compare, before[keep as int], before[x]));
                }
                assert(lt(compare, before[y], before[x]));
            }
            rotate_at(array, keep, mid, p);
            let ghost after = array@;
            assert forall|t: int| keep <= t < cut implies #[trigger] after[t] == before[t - keep + mid] by {
                assert(after == rotated(before, keep as int, p as int, mid - keep));
            }
            assert forall|t: int| cut <= t < p implies #[trigger] after[t] == before[t - cut + keep] by {
                assert(after == rotated(before, keep as int, p as int, mid - keep));
            }
            assert forall|t: int| 0 <= t < after.len() && !(keep <= t < p) implies #[trigger] after[t] == before[t] by {
                assert(after == rotated(before, keep as int, p as int, mid - keep));
            }
            proof {
                assert(after.subrange(keep as int, p as int) =~= before.subrange(mid as int, p as int) + before.subrange(keep as int, mid as int));
                lemma_rotated_classes(compare, before, after, keep as int, mid as int, p as int);
                lemma_classes_widen(compare, before, after, keep as int, p as int, a0 as int, b0 as int);
                lemma_classes_trans(
                    compare,
                    s.subrange(a0 as int, b0 as int),
                    before.subrange(a0 as int, b0 as int),
                    after.subrange(a0 as int, b0 as int),
                );
            }
            lo = keep + (p - mid) + 1;
            mid = p;
        } else {
            lo = keep;
        }
    }
}

/// Sorting a range permutes it: the multiset of its elements is unchanged.
pub proof fn lemma_sort_permutes<T, C: Comparator<T>>(c: &C, s1: Seq<T>, s2: Seq<T>, lo: int, hi: int)
    requires
        0 <= lo <= hi <= s1.len(),
        sorts_range(c, s1, s2, lo, hi),
    ensures
        s1.subrange(lo, hi).to_multiset() == s2.subrange(lo, hi).to_multiset(),
{
    lemma_classes_multiset(c, s1.subrange(lo, hi), s2.subrange(lo, hi));
}

/// Ranges of at most this many elements are sorted by insertion.
pub const INSERTION_THRESHOLD: usize = 16;

/// Sorts `range` stably under `compare`: short ranges by insertion, longer
/// ones by sorting both halves and merging them in place.
pub fn merge_sort_by<T, C: Comparator<T>>(array: &mut [T], range: Range<usize>, compare: &C)
    requires
        range.start <= range.end <= old(array)@.len(),
    ensures
        sorts_range(compare, old(array)@, final(array)@, range.start as int, range.end as int),
    decreases range.end - range.start,
{
    let start = range.start;
    let end = range.end;
    if end - start <= INSERTION_THRESHOLD {
        insertion_sort_by(array, range, compare);
        return;
    }
    let ghost s = array@;
    let mid = start + (end - start) / 2;
    merge_sort_by(array, start..mid, compare);
    let ghost s1 = array@;
    merge_sort_by(array, mid..end, compare);
    let ghost s2 = array@;
    assert(s2.subrange(start as int, mid as int) =~= s1.subrange(start as int, mid as int));
    assert forall|i: int, j: int| start <= i < j < mid implies le(compare, s2[i], s2[j]) by {
        assert(s2[i] == s1[i] && s2[j] == s1[j]);
    }
    merge(array, start..mid, mid..end, compare);
    proof {
        lemma_classes_widen(compare, s, s1, start as int, mid as int, start as int, end as int);
        lemma_classes_widen(compare, s1, s2, mid as int, end as int, start as int, end as int);
        lemma_classes_trans(
            compare,
            s.subrange(start as int, end as int),
            s1.subrange(start as int, end as int),
            s2.subrange(start as int, end as int),
        );
        lemma_classes_trans(
            compare,
            s.subrange(start as int, end as int),
            s2.subrange(start as int, end as int),
            array@.subrange(start as int, end as int),
        );
        if sorted_between(compare, s, start as int, end as int) {
            assert(sorted_between(compare, s, start as int, mid as int));
            assert(s1 == s);
            assert(sorted_between(compare, s1, mid as int, end as int));
            assert(s2 == s1);
        }
    }
}

/// Sorts `range` stably in natural order.
pub fn merge_sort<T>(array: &mut [T], range: Range<usize>)
    where NaturalOrder: Comparator<T>,
    requires
        range.start <= range.end <= old(array)@.len(),
    ensures
        sorts_range(&NaturalOrder, old(array)@, final(array)@, range.start as int, range.end as int),
{
    merge_sort_by(array, range, &NaturalOrder);
}

} // verus!
