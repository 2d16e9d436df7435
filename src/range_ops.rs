//! Block exchange, reversal and rotation over index ranges of a slice.
use std::ops::Range;
use vstd::prelude::*;

verus! {

/// Relies on `<[T]>::swap`: exchanges the elements at the two positions and
/// panics when either is out of bounds.
#[verifier::external_body]
pub(crate) fn swap_at<T>(array: &mut [T], a: usize, b: usize)
    requires
        a < old(array)@.len(),
        b < old(array)@.len(),
    ensures
        final(array)@ == old(array)@.update(a as int, old(array)@[b as int]).update(
            b as int,
            old(array)@[a as int],
        ),
{
    array.swap(a, b)
}

/// `s` with the blocks of `count` elements at `i` and at `j` exchanged.
pub open spec fn block_swapped<T>(s: Seq<T>, i: int, j: int, count: int) -> Seq<T> {
    Seq::new(
        s.len(),
        |x: int|
            if i <= x < i + count {
                s[x - i + j]
            } else if j <= x < j + count {
                s[x - j + i]
            } else {
                s[x]
            },
    )
}

/// `s` with the order of `[lo, hi)` reversed.
pub open spec fn reversed_range<T>(s: Seq<T>, lo: int, hi: int) -> Seq<T> {
    Seq::new(s.len(), |x: int| if lo <= x < hi { s[lo + hi - 1 - x] } else { s[x] })
}

/// `s` with `[lo, hi)` rotated left by `k`: its first `k` elements move to its
/// end.
pub open spec fn rotated<T>(s: Seq<T>, lo: int, hi: int, k: int) -> Seq<T> {
    s.subrange(0, lo) + s.subrange(lo + k, hi) + s.subrange(lo, lo + k) + s.subrange(hi, s.len() as int)
}

/// Where `rotate` splits `range` for a signed amount: a non-negative amount
/// counts from the start, a negative one from the end.
pub open spec fn split_point(range: Range<usize>, amount: isize) -> int {
    if amount >= 0 {
        range.start + amount
    } else {
        range.end + amount
    }
}

/// Exchanges the `count` elements starting at `index1` with the `count`
/// elements starting at `index2`; the two blocks must not overlap.
pub fn block_swap<T>(array: &mut [T], index1: usize, index2: usize, count: usize)
    requires
        index1 + count <= old(array)@.len(),
        index2 + count <= old(array)@.len(),
        index1 + count <= index2 || index2 + count <= index1,
    ensures
        final(array)@ == block_swapped(old(array)@, index1 as int, index2 as int, count as int),
{
    let ghost s = array@;
    let n = array.len();
    let mut ind: usize = 0;
    while ind < count
        invariant
            n == s.len(),
            ind <= count,
            index1 + count <= s.len(),
            index2 + count <= s.len(),
            index1 + count <= index2 || index2 + count <= index1,
            array@ == block_swapped(s, index1 as int, index2 as int, ind as int),
        decreases count - ind,
    {
        swap_at(array, index1 + ind, index2 + ind);
        ind += 1;
        assert(array@ =~= block_swapped(s, index1 as int, index2 as int, ind as int));
    }
}

/// Copies `len` elements of `src` from `src_pos` on into `dst` from `dst_pos`
/// on.
pub fn array_copy<T: Copy>(src: &[T], src_pos: usize, dst: &mut [T], dst_pos: usize, len: usize)
    requires
        src_pos + len <= src@.len(),
        dst_pos + len <= old(dst)@.len(),
    ensures
        final(dst)@.len() == old(dst)@.len(),
        forall|x: int|
            0 <= x < old(dst)@.len() ==> #[trigger] final(dst)@[x] == if dst_pos <= x < dst_pos + len {
                src@[x - dst_pos + src_pos]
            } else {
                old(dst)@[x]
            },
{
    let ghost d = dst@;
    let n = dst.len();
    let m = src.len();
    let mut ind: usize = 0;
    while ind < len
        invariant
            n == d.len(),
            m == src@.len(),
            ind <= len,
            src_pos + len <= src@.len(),
            dst_pos + len <= d.len(),
            dst@.len() == d.len(),
            forall|x: int|
                0 <= x < d.len() ==> #[trigger] dst@[x] == if dst_pos <= x < dst_pos + ind {
                    src@[x - dst_pos + src_pos]
                } else {
                    d[x]
                },
        decreases len - ind,
    {
        dst[dst_pos + ind] = src[src_pos + ind];
        ind += 1;
    }
}

/// Reverses the order of the elements in `range`; a range of fewer than two
/// elements is left as it is.
pub fn reverse<T>(array: &mut [T], range: Range<usize>)
    requires
        range.start <= range.end <= old(array)@.len(),
    ensures
        final(array)@ == reversed_range(old(array)@, range.start as int, range.end as int),
{
    let ghost s = array@;
    let lo = range.start;
    let hi = range.end;
    if hi - lo < 2 {
        assert(array@ =~= reversed_range(s, lo as int, hi as int));
        return;
    }
    let half = (hi - lo) / 2;
    let mut ind: usize = 0;
    while ind < half
        invariant
            lo <= hi <= s.len(),
            half == (hi - lo) / 2,
            ind <= half,
            array@.len() == s.len(),
            forall|x: int|
                0 <= x < s.len() ==> #[trigger] array@[x] == if (lo <= x < lo + ind) || (hi - ind
                    <= x < hi) {
                    s[lo + hi - 1 - x]
                } else {
                    s[x]
                },
        decreases half - ind,
    {
        let ind_a = lo + ind;
        let ind_b = hi - ind - 1;
        swap_at(array, ind_a, ind_b);
        ind += 1;
    }
    assert(array@ =~= reversed_range(s, lo as int, hi as int));
}

/// Rotates `range` cyclically at the split point of `amount`: the elements
/// before the split move to the end of the range.  A split at either end of
/// the range leaves the slice as it is.
pub fn rotate<T>(array: &mut [T], range: Range<usize>, amount: isize)
    requires
        range.start <= range.end <= old(array)@.len(),
        range.start <= split_point(range, amount) <= range.end,
    ensures
        final(array)@ == rotated(
            old(array)@,
            range.start as int,
            range.end as int,
            split_point(range, amount) - range.start,
        ),
{
    let split: usize = if amount >= 0 {
        range.start + (amount as usize)
    } else {
        range.end - ((-(amount + 1)) as usize + 1)
    };
    rotate_at(array, range.start, split, range.end);
}

/// Rotates `[lo, hi)` so that the element at `split` comes first, by three
/// reversals.
pub(crate) fn rotate_at<T>(array: &mut [T], lo: usize, split: usize, hi: usize)
    requires
        lo <= split <= hi <= old(array)@.len(),
    ensures
        final(array)@ == rotated(old(array)@, lo as int, hi as int, split - lo),
{
    let ghost s = array@;
    if split == lo || split == hi {
        assert(array@ =~= rotated(s, lo as int, hi as int, split - lo));
        return;
    }
    reverse(array, lo..split);
    reverse(array, split..hi);
    reverse(array, lo..hi);
    assert(array@ =~= rotated(s, lo as int, hi as int, split - lo));
}

/// Rotating a range left by `k` and then by the rest of its length restores
/// it.
pub proof fn lemma_rotate_round_trip<T>(s: Seq<T>, lo: int, hi: int, k: int)
    requires
        0 <= lo <= hi <= s.len(),
        0 <= k <= hi - lo,
    ensures
        rotated(rotated(s, lo, hi, k), lo, hi, hi - lo - k) == s,
{
    assert(rotated(rotated(s, lo, hi, k), lo, hi, hi - lo - k) =~= s);
}

} // verus!
