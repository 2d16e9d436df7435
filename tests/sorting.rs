use inplace_sort::order::{KeyOrder, NaturalOrder};
use inplace_sort::range_ops::{array_copy, block_swap, reverse, rotate};
use inplace_sort::search::{binary_first, binary_last, linear_search};
use inplace_sort::sort::{
    insertion_sort, insertion_sort_by, insertion_sort_helper, merge, merge_sort, merge_sort_by,
};
use inplace_sort::floor_power_of_two;
use std::ops::Range;

fn bin_first(array: &[i32], range: Range<usize>, value: i32) -> usize {
    binary_first(array, range, &value, &NaturalOrder)
}

fn bin_last(array: &[i32], range: Range<usize>, value: i32) -> usize {
    binary_last(array, range, &value, &NaturalOrder)
}

#[test]
fn test_blockswap() {
    let mut arr = [0, 1, 2, 3, 4, 5, 6, 7, 8, 9, 10, 11, 12, 13, 14];
    block_swap(&mut arr, 0, 10, 5);
    let swaped = [10, 11, 12, 13, 14, 5, 6, 7, 8, 9, 0, 1, 2, 3, 4];
    assert_eq!(arr, swaped);
}

#[test]
fn test_reverse() {
    let mut arr1 = [0, 1, 2, 3, 4, 5, 6, 7, 8, 9, 10, 11, 12, 13, 14];
    reverse(&mut arr1, 0..5);
    let swaped1 = [4, 3, 2, 1, 0, 5, 6, 7, 8, 9, 10, 11, 12, 13, 14];
    assert_eq!(arr1, swaped1);

    let mut arr2 = [0, 1, 2, 3, 4, 5, 6, 7, 8, 9, 10, 11, 12, 13, 14];
    reverse(&mut arr2, 4..8);
    let swaped2 = [0, 1, 2, 3, 7, 6, 5, 4, 8, 9, 10, 11, 12, 13, 14];
    assert_eq!(arr2, swaped2);
}

#[test]
fn test_rotate() {
    let mut arr1 = [0, 1, 2, 3, 4];
    rotate(&mut arr1, 0..5, 2);
    let swaped1 = [2, 3, 4, 0, 1];
    assert_eq!(arr1, swaped1);

    let mut arr2 = [0, 1, 2, 3, 4, 5, 6];
    rotate(&mut arr2, 2..5, 1);
    let swaped2 = [0, 1, 3, 4, 2, 5, 6];
    assert_eq!(arr2, swaped2);

    let mut arr2 = [0, 1, 2, 3, 4, 5, 6];
    rotate(&mut arr2, 2..5, -1);
    let swaped2 = [0, 1, 4, 2, 3, 5, 6];
    assert_eq!(arr2, swaped2);
}

#[test]
fn test_bin_first() {
    let find = [0, 1, 2, 3, 4];
    assert_eq!(bin_first(&find, 1..4, 2), 2);
    let multiple = [0, 2, 2, 3, 4];
    assert_eq!(bin_first(&multiple, 1..4, 2), 1);
    assert_eq!(bin_first(&multiple, 1..4, -3), 1);
}

#[test]
fn test_bin_last() {
    let find = [0, 1, 2, 3, 4];
    assert_eq!(bin_last(&find, 1..4, 2), 3);
    let multiple = [0, 2, 2, 3, 4];
    assert_eq!(bin_last(&multiple, 1..4, 2), 3);
    assert_eq!(bin_last(&multiple, 1..4, -3), 1);
}

#[test]
fn test_floor() {
    assert_eq!(floor_power_of_two(1), 1);
    assert_eq!(floor_power_of_two(2), 2);
    assert_eq!(floor_power_of_two(3), 2);
    assert_eq!(floor_power_of_two(5), 4);
    assert_eq!(floor_power_of_two(63), 32);
    assert_eq!(floor_power_of_two(64), 64);
}

#[test]
fn floor_of_zero_and_large_values() {
    assert_eq!(floor_power_of_two(0), 0);
    assert_eq!(floor_power_of_two((1usize << 40) + 7), 1usize << 40);
    assert_eq!(floor_power_of_two(usize::MAX), 1usize << (usize::BITS - 1));
}

#[test]
fn bounds_at_range_end() {
    let arr = [0, 1, 2, 3, 4];
    assert_eq!(bin_first(&arr, 1..4, 9), 4);
    assert_eq!(bin_last(&arr, 1..4, 3), 4);
    assert_eq!(bin_first(&arr, 2..2, 1), 2);
    assert_eq!(bin_last(&arr, 2..2, 1), 2);
}

#[test]
fn bounds_on_duplicates() {
    let arr = [0, 2, 2, 3, 4];
    assert_eq!(bin_first(&arr, 1..4, 2), 1);
    assert_eq!(bin_last(&arr, 1..4, 2), 3);
}

#[test]
fn linear_search_finds_first_match() {
    let arr = [5, 7, 7, 9];
    assert_eq!(linear_search(&arr, 0..4, 7), Some(1));
    assert_eq!(linear_search(&arr, 2..4, 7), Some(2));
    assert_eq!(linear_search(&arr, 0..4, 8), None);
    assert_eq!(linear_search(&arr, 3..3, 9), None);
}

#[test]
fn array_copy_copies_a_span() {
    let src = [1, 2, 3, 4, 5];
    let mut dst = [0, 0, 0, 0, 0, 0];
    array_copy(&src, 1, &mut dst, 2, 3);
    assert_eq!(dst, [0, 0, 2, 3, 4, 0]);
}

#[test]
fn short_ranges_are_left_alone() {
    let mut arr = [3, 1, 2];
    reverse(&mut arr, 1..2);
    assert_eq!(arr, [3, 1, 2]);
    reverse(&mut arr, 2..2);
    assert_eq!(arr, [3, 1, 2]);
    rotate(&mut arr, 0..3, 0);
    assert_eq!(arr, [3, 1, 2]);
    rotate(&mut arr, 0..3, 3);
    assert_eq!(arr, [3, 1, 2]);
    rotate(&mut arr, 0..3, -3);
    assert_eq!(arr, [3, 1, 2]);
}

#[test]
fn rotation_round_trip() {
    let start_order = [0, 1, 2, 3, 4, 5, 6, 7];
    for k in 1..6isize {
        let mut arr = start_order;
        rotate(&mut arr, 1..7, k);
        assert_ne!(arr, start_order);
        rotate(&mut arr, 1..7, 6 - k);
        assert_eq!(arr, start_order);
    }
}

#[test]
fn merge_two_runs() {
    let mut arr = [1, 3, 5, 2, 2, 4];
    merge(&mut arr, 0..3, 3..6, &NaturalOrder);
    assert_eq!(arr, [1, 2, 2, 3, 4, 5]);
}

#[test]
fn merge_keeps_left_run_first_among_equals() {
    let mut arr = [(1, 0), (2, 1), (3, 2), (5, 3), (2, 10), (2, 11), (4, 12), (5, 13)];
    merge(&mut arr, 0..4, 4..8, &KeyOrder);
    assert_eq!(arr, [(1, 0), (2, 1), (2, 10), (2, 11), (3, 2), (4, 12), (5, 3), (5, 13)]);
}

#[test]
fn merge_with_an_empty_run() {
    let mut arr = [4, 1, 2];
    merge(&mut arr, 0..0, 0..3, &NaturalOrder);
    assert_eq!(arr, [4, 1, 2]);
    merge(&mut arr, 1..3, 3..3, &NaturalOrder);
    assert_eq!(arr, [4, 1, 2]);
}

#[test]
fn sort_only_touches_the_range() {
    let mut arr = [6, 2, 5, 4, 3, 1, 0];
    merge_sort(&mut arr, 0..3);
    assert_eq!(arr, [2, 5, 6, 4, 3, 1, 0]);

    let mut arr = [6, 2, 5, 4, 3, 1, 0];
    insertion_sort(&mut arr, 0..3);
    assert_eq!(arr, [2, 5, 6, 4, 3, 1, 0]);
}

#[test]
fn insertion_sort_variants() {
    let mut arr = [9, 8, 7, 1, 2];
    insertion_sort_helper(&mut arr, 1..5, &NaturalOrder);
    assert_eq!(arr, [9, 1, 2, 7, 8]);

    let mut arr = [3, 2, 1];
    insertion_sort_by(&mut arr, 0..0, &NaturalOrder);
    assert_eq!(arr, [3, 2, 1]);
    insertion_sort_by(&mut arr, 0..3, &NaturalOrder);
    assert_eq!(arr, [1, 2, 3]);
}

fn scrambled(n: usize) -> Vec<i32> {
    let mut v = Vec::new();
    let mut x: i64 = 17;
    for _ in 0..n {
        x = (x * 1103515245 + 12345) % 2147483648;
        v.push((x % 50) as i32);
    }
    v
}

#[test]
fn merge_sort_long_input() {
    let mut v = scrambled(200);
    let mut expected = v.clone();
    expected.sort();
    merge_sort(&mut v, 0..200);
    assert_eq!(v, expected);
}

#[test]
fn merge_sort_reversed_input() {
    let mut v: Vec<i32> = (0..100).rev().collect();
    merge_sort_by(&mut v, 0..100, &NaturalOrder);
    let expected: Vec<i32> = (0..100).collect();
    assert_eq!(v, expected);
}

#[test]
fn merge_sort_is_stable() {
    let keys = scrambled(150);
    let mut v: Vec<(i32, i32)> = keys.iter().enumerate().map(|(i, k)| (*k % 7, i as i32)).collect();
    let mut expected = v.clone();
    expected.sort_by_key(|p| p.0);
    merge_sort_by(&mut v, 0..150, &KeyOrder);
    assert_eq!(v, expected);
}

#[test]
fn merge_sort_of_sorted_range_is_unchanged() {
    let mut v: Vec<(i32, i32)> = (0..60).map(|i| (i / 4, 60 - i)).collect();
    let before = v.clone();
    merge_sort_by(&mut v, 0..60, &KeyOrder);
    assert_eq!(v, before);
}

#[test]
fn merge_sort_keeps_the_elements() {
    let mut v = scrambled(90);
    let mut before = v.clone();
    merge_sort(&mut v, 10..80);
    assert_eq!(v[..10], before[..10]);
    assert_eq!(v[80..], before[80..]);
    let mut inside = v[10..80].to_vec();
    inside.sort();
    before[10..80].sort();
    assert_eq!(inside, before[10..80].to_vec());
    assert!(v[10..80].windows(2).all(|w| w[0] <= w[1]));
}

#[test]
fn merge_sort_empty_and_single() {
    let mut v: Vec<i32> = Vec::new();
    merge_sort(&mut v, 0..0);
    assert!(v.is_empty());
    let mut one = [5];
    merge_sort(&mut one, 0..1);
    assert_eq!(one, [5]);
}
