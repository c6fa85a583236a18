//! Sorting of `i32` arrays in place, built on the merge of sorted runs.

use crate::merge_two_sorted::merge_two_sorted_rs;
use crate::search::sorted;
use vstd::prelude::*;
use vstd::slice::slice_subrange;

verus! {

broadcast use vstd::seq_lib::group_to_multiset_ensures;

/// Merges the sorted runs `array[..split]` and `array[split..]` in place;
/// the split must lie within the array.
pub fn merge_two_sorted_array(array: &mut [i32], split: usize)
    requires
        split <= old(array)@.len(),
        sorted(old(array)@.subrange(0, split as int)),
        sorted(old(array)@.subrange(split as int, old(array)@.len() as int)),
    ensures
        sorted(final(array)@),
        final(array)@.to_multiset() == old(array)@.to_multiset(),
        final(array)@.len() == old(array)@.len(),
{
    let n = array.len();
    let mut left: Vec<i32> = Vec::new();
    let mut right: Vec<i32> = Vec::new();
    let mut k: usize = 0;
    while k < n
        invariant
            n == array@.len(),
            split <= n,
            k <= n,
            k <= split ==> left@ == array@.subrange(0, k as int) && right@.len() == 0,
            k > split ==> left@ == array@.subrange(0, split as int) && right@ == array@.subrange(
                split as int,
                k as int,
            ),
        decreases n - k,
    {
        if k < split {
            left.push(array[k]);
            proof {
                assert(array@.subrange(0, k + 1) =~= array@.subrange(0, k as int).push(array@[k as int]));
            }
        } else {
            right.push(array[k]);
            proof {
                assert(array@.subrange(split as int, k + 1) =~= array@.subrange(split as int, k as int).push(
                    array@[k as int],
                ));
                assert(array@.subrange(split as int, split as int) =~= Seq::<i32>::empty());
            }
        }
        k += 1;
    }
    proof {
        if split == n {
            assert(array@.subrange(split as int, n as int) =~= Seq::<i32>::empty());
        }
        assert(array@ =~= left@ + right@);
        vstd::seq_lib::lemma_multiset_commutative(left@, right@);
    }
    let merged = merge_two_sorted_rs(left.as_slice(), right.as_slice());
    let mut k: usize = 0;
    while k < n
        invariant
            n == array@.len(),
            merged@.len() == n,
            k <= n,
            forall|q: int| 0 <= q < k ==> array@[q] == merged@[q],
        decreases n - k,
    {
        array[k] = merged[k];
        k += 1;
    }
    proof {
        assert(array@ =~= merged@);
    }
}

/// A sorted copy of `slice`: sorts both halves, then merges them.
fn merge_sorted_copy(slice: &[i32]) -> (r: Vec<i32>)
    ensures
        sorted(r@),
        r@.to_multiset() == slice@.to_multiset(),
        r@.len() == slice@.len(),
    decreases slice@.len(),
{
    let n = slice.len();
    if n <= 1 {
        let mut out: Vec<i32> = Vec::new();
        if n == 1 {
            out.push(slice[0]);
            proof {
                assert(out@ =~= slice@);
            }
        } else {
            proof {
                assert(out@ =~= slice@);
            }
        }
        return out;
    }
    let mid = n / 2;
    let left = merge_sorted_copy(slice_subrange(slice, 0, mid));
    let right = merge_sorted_copy(slice_subrange(slice, mid, n));
    proof {
        assert(slice@ =~= slice@.subrange(0, mid as int) + slice@.subrange(mid as int, n as int));
        vstd::seq_lib::lemma_multiset_commutative(
            slice@.subrange(0, mid as int),
            slice@.subrange(mid as int, n as int),
        );
    }
    merge_two_sorted_rs(left.as_slice(), right.as_slice())
}

/// Sorts `array` in non-decreasing order by merging sorted halves.
pub fn merge_sort(array: &mut [i32])
    ensures
        sorted(final(array)@),
        final(array)@.to_multiset() == old(array)@.to_multiset(),
        final(array)@.len() == old(array)@.len(),
{
    let n = array.len();
    let merged = merge_sorted_copy(array);
    let mut k: usize = 0;
    while k < n
        invariant
            n == array@.len(),
            merged@.len() == n,
            k <= n,
            forall|q: int| 0 <= q < k ==> array@[q] == merged@[q],
        decreases n - k,
    {
        array[k] = merged[k];
        k += 1;
    }
    proof {
        assert(array@ =~= merged@);
    }
}

} // verus!
