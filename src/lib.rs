//! In-place stable sorting of a slice under a comparator: block operations,
//! boundary searches, insertion sort and a rotation-based merge sort.
use vstd::prelude::*;

pub mod order;
pub mod range_ops;
pub mod search;
pub mod sort;

verus! {

/// `n` is a power of two.
pub open spec fn is_power_of_two(n: nat) -> bool
    decreases n,
{
    if n == 1 {
        true
    } else if n >= 2 && n % 2 == 0 {
        is_power_of_two(n / 2)
    } else {
        false
    }
}

/// The largest power of two not greater than `value`, or `0` for `0`.
pub fn floor_power_of_two(value: usize) -> (r: usize)
    ensures
        value == 0 ==> r == 0,
        value > 0 ==> is_power_of_two(r as nat) && r <= value < 2 * r,
{
    if value == 0 {
        return 0;
    }
    let mut r: usize = 1;
    while r <= value / 2
        invariant
            1 <= r <= value,
            is_power_of_two(r as nat),
        decreases value - r,
    {
        assert(is_power_of_two((2 * r) as nat)) by {
            assert((2 * r) as nat / 2 == r as nat);
        }
        r = r * 2;
    }
    r
}

} // verus!
