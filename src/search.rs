//! Searches over index ranges of a slice.
use crate::order::{lemma_order, le, lt, sorted_between, Comparator};
use std::ops::Range;
use vstd::std_specs::cmp::PartialEqSpec;
use vstd::prelude::*;

verus! {

/// Returns the first index in `range` whose element equals `needle`, or
/// `None` when there is none.
pub fn linear_search<T: PartialEq>(array: &[T], range: Range<usize>, needle: T) -> (r: Option<usize>)
    requires
        T::obeys_eq_spec(),
        range.start <= range.end <= array@.len(),
    ensures
        match r {
            Some(i) => {
                &&& range.start <= i < range.end
                &&& array@[i as int].eq_spec(&needle)
                &&& forall|j: int| range.start <= j < i ==> !(#[trigger] array@[j]).eq_spec(&needle)
            },
            None => forall|j: int|
                range.start <= j < range.end ==> !(#[trigger] array@[j]).eq_spec(&needle),
        },
{
    let mut index = range.start;
    while index < range.end
        invariant
            T::obeys_eq_spec(),
            range.start <= index <= range.end <= array@.len(),
            forall|j: int| range.start <= j < index ==> !(#[trigger] array@[j]).eq_spec(&needle),
        decreases range.end - index,
    {
        if array[index] == needle {
            return Some(index);
        }
        index += 1;
    }
    None
}

/// Lower bound: in the sorted `range`, the index that splits the elements
/// less than `value` (before it) from the rest (from it on).
pub fn binary_first<T, C: Comparator<T>>(array: &[T], range: Range<usize>, value: &T, compare: &C) -> (r: usize)
    requires
        range.start <= range.end <= array@.len(),
        sorted_between(compare, array@, range.start as int, range.end as int),
    ensures
        range.start <= r <= range.end,
        forall|i: int| range.start <= i < r ==> lt(compare, #[trigger] array@[i], *value),
        forall|i: int| r <= i < range.end ==> !lt(compare, #[trigger] array@[i], *value),
{
    let mut start = range.start;
    let mut end = range.end;
    while start < end
        invariant
            range.start <= start <= end <= range.end <= array@.len(),
            sorted_between(compare, array@, range.start as int, range.end as int),
            forall|i: int| range.start <= i < start ==> lt(compare, #[trigger] array@[i], *value),
            forall|i: int| end <= i < range.end ==> !lt(compare, #[trigger] array@[i], *value),
        decreases end - start,
    {
        proof {
            lemma_order(compare);
        }
        let mid = start + (end - start) / 2;
        let o = compare.compare(&array[mid], value);
        if matches!(o, std::cmp::Ordering::Less) {
            assert(lt(compare, array@[mid as int], *value));
            assert forall|i: int| range.start <= i <= mid implies lt(compare, #[trigger] array@[i], *value) by {
                if i < mid {
                    assert(le(compare, array@[i], array@[mid as int]));
                }
            }
            start = mid + 1;
        } else {
            assert forall|i: int| mid <= i < range.end implies !lt(compare, #[trigger] array@[i], *value) by {
                if i > mid {
                    assert(le(compare, array@[mid as int], array@[i]));
                }
            }
            end = mid;
        }
    }
    start
}

/// Upper bound: in the sorted `range`, the index that splits the elements
/// not greater than `value` (before it) from those greater (from it on).
pub fn binary_last<T, C: Comparator<T>>(array: &[T], range: Range<usize>, value: &T, compare: &C) -> (r: usize)
    requires
        range.start <= range.end <= array@.len(),
        sorted_between(compare, array@, range.start as int, range.end as int),
    ensures
        range.start <= r <= range.end,
        forall|i: int| range.start <= i < r ==> le(compare, #[trigger] array@[i], *value),
        forall|i: int| r <= i < range.end ==> lt(compare, *value, #[trigger] array@[i]),
{
    let mut start = range.start;
    let mut end = range.end;
    while start < end
        invariant
            range.start <= start <= end <= range.end <= array@.len(),
            sorted_between(compare, array@, range.start as int, range.end as int),
            forall|i: int| range.start <= i < start ==> le(compare, #[trigger] array@[i], *value),
            forall|i: int| end <= i < range.end ==> lt(compare, *value, #[trigger] array@[i]),
        decreases end - start,
    {
        proof {
            lemma_order(compare);
        }
        let mid = start + (end - start) / 2;
        let o = compare.compare(&array[mid], value);
        if !matches!(o, std::cmp::Ordering::Greater) {
            assert forall|i: int| range.start <= i <= mid implies le(compare, #[trigger] array@[i], *value) by {
                if i < mid {
                    assert(le(compare, array@[i], array@[mid as int]));
                }
            }
            start = mid + 1;
        } else {
            assert(lt(compare, *value, array@[mid as int]));
            assert forall|i: int| mid <= i < range.end implies lt(compare, *value, #[trigger] array@[i]) by {
                if i > mid {
                    assert(le(compare, array@[mid as int], array@[i]));
                }
            }
            end = mid;
        }
    }
    start
}

} // verus!
