//! Comparisons of a sorting solution with the standard library's own slice
//! sorts.

use crate::search::sorted;
use crate::sorted::{
    compare_callable, key_callable, lemma_natural_is_strict_weak_order,
    lemma_sorted_arrangement_unique, sorted_by_rule, strict_total_order, strict_weak_order,
    ByCompare, ByKey, Natural, Solution,
};
use std::cmp::Ordering;
use vstd::prelude::*;
use vstd::slice::slice_to_vec;

verus! {

broadcast use vstd::seq_lib::group_to_multiset_ensures;

/// Relies on `<[i32]>::sort`: the slice ends up in non-decreasing order and
/// keeps its elements.
#[verifier::external_body]
fn std_sort(v: &mut Vec<i32>)
    ensures
        sorted(final(v)@),
        final(v)@.to_multiset() == old(v)@.to_multiset(),
{
    v.sort();
}

/// The comparison is a total order: its "less" is a strict weak order and
/// it answers `Greater` for `(a, b)` exactly when it answers `Less` for
/// `(b, a)`.
pub open spec fn total_comparison<C: Fn(&i32, &i32) -> Ordering>(compare: C) -> bool {
    &&& strict_weak_order(ByCompare { compare })
    &&& forall|a: &i32, b: &i32, o: Ordering| #[trigger]
        compare.ensures((a, b), o) ==> (o == Ordering::Greater <==> compare.ensures(
            (b, a),
            Ordering::Less,
        ))
}

/// Relies on `<[i32]>::sort_by`: the slice keeps its elements, and under a
/// comparison that is a total order no element is followed by one that
/// compares `Less` to it. It may panic on a comparison that is no total
/// order, so that is required of all but the shortest slices.
#[verifier::external_body]
fn std_sort_by<C: Fn(&i32, &i32) -> Ordering>(v: &mut Vec<i32>, compare: &C)
    requires
        compare_callable(*compare),
        old(v)@.len() <= 1 || total_comparison(*compare),
    ensures
        final(v)@.to_multiset() == old(v)@.to_multiset(),
        strict_weak_order(ByCompare { compare: *compare }) ==> sorted_by_rule(
            final(v)@,
            ByCompare { compare: *compare },
        ),
{
    v.sort_by(compare);
}

/// Relies on `<[i32]>::sort_by_key`: the slice keeps its elements and ends
/// up with non-decreasing keys.
#[verifier::external_body]
fn std_sort_by_key<K: Fn(&i32) -> i32>(v: &mut Vec<i32>, key: &K)
    requires
        key_callable(*key),
    ensures
        final(v)@.to_multiset() == old(v)@.to_multiset(),
        strict_weak_order(ByKey { key: *key }) ==> sorted_by_rule(final(v)@, ByKey { key: *key }),
{
    v.sort_by_key(key);
}

/// Whether two vectors hold the same elements in the same order.
pub fn same_elements(a: &Vec<i32>, b: &Vec<i32>) -> (r: bool)
    ensures
        r == (a@ == b@),
{
    if a.len() != b.len() {
        return false;
    }
    let mut i: usize = 0;
    while i < a.len()
        invariant
            a@.len() == b@.len(),
            i <= a@.len(),
            forall|k: int| 0 <= k < i ==> a@[k] == b@[k],
        decreases a@.len() - i,
    {
        if a[i] != b[i] {
            return false;
        }
        i += 1;
    }
    proof {
        assert(a@ =~= b@);
    }
    true
}

/// Whether `S::sort` gives what the standard library's sort gives.
pub fn test_sort<S: Solution>(_solution: S, array: Vec<i32>) -> (r: bool)
    ensures
        r,
{
    let sorted_array = S::sort(slice_to_vec(array.as_slice())).take();
    let mut expected = array;
    std_sort(&mut expected);
    proof {
        assert(sorted_by_rule(expected@, Natural));
        lemma_natural_is_strict_weak_order();
        assert(strict_total_order(Natural));
        lemma_sorted_arrangement_unique(sorted_array@, expected@, Natural);
    }
    same_elements(&sorted_array, &expected)
}

/// Whether `S::sort_by` gives what the standard library's `sort_by` gives.
/// The two agree wherever the comparison is a strict total order.
pub fn test_sort_by<S: Solution, C: Fn(&i32, &i32) -> Ordering + Copy>(
    _solution: S,
    array: Vec<i32>,
    cmp: C,
) -> (r: bool)
    requires
        compare_callable(cmp),
        array@.len() <= 1 || total_comparison(cmp),
    ensures
        strict_total_order(ByCompare { compare: cmp }) ==> r,
        array@.len() == 0 ==> r,
{
    let sorted_array = S::sort_by(slice_to_vec(array.as_slice()), cmp).take();
    let ghost input = array@;
    let mut expected = array;
    std_sort_by(&mut expected, &cmp);
    proof {
        if strict_total_order(ByCompare { compare: cmp }) {
            lemma_sorted_arrangement_unique(sorted_array@, expected@, ByCompare { compare: cmp });
        }
        if input.len() == 0 {
            vstd::seq_lib::to_multiset_len(input);
            vstd::seq_lib::to_multiset_len(expected@);
            assert(sorted_array@ =~= expected@);
        }
    }
    same_elements(&sorted_array, &expected)
}

/// Whether `S::sort_by_key` gives what the standard library's
/// `sort_by_key` gives. The two agree wherever distinct values have
/// distinct keys.
pub fn test_sort_by_key<S: Solution, K: Fn(&i32) -> i32 + Copy>(
    _solution: S,
    array: Vec<i32>,
    f: K,
) -> (r: bool)
    requires
        key_callable(f),
    ensures
        strict_total_order(ByKey { key: f }) ==> r,
        array@.len() == 0 ==> r,
{
    let sorted_array = S::sort_by_key(slice_to_vec(array.as_slice()), f).take();
    let ghost input = array@;
    let mut expected = array;
    std_sort_by_key(&mut expected, &f);
    proof {
        if strict_total_order(ByKey { key: f }) {
            lemma_sorted_arrangement_unique(sorted_array@, expected@, ByKey { key: f });
        }
        if input.len() == 0 {
            vstd::seq_lib::to_multiset_len(input);
            vstd::seq_lib::to_multiset_len(expected@);
            assert(sorted_array@ =~= expected@);
        }
    }
    same_elements(&sorted_array, &expected)
}

/// The three-way comparison of the natural order.
pub open spec fn natural_ordering(a: i32, b: i32) -> Ordering {
    if a < b {
        Ordering::Less
    } else if a == b {
        Ordering::Equal
    } else {
        Ordering::Greater
    }
}

/// A solution sorts the empty array in all three ways.
pub fn test_empty<S: Solution>(solution: S) -> (r: bool)
    ensures
        r,
{
    let compare = |a: &i32, b: &i32| -> (o: Ordering)
        ensures
            o == natural_ordering(*a, *b),
        {
            if *a < *b {
                Ordering::Less
            } else if *a == *b {
                Ordering::Equal
            } else {
                Ordering::Greater
            }
        };
    let key = |i: &i32| -> (k: i32)
        ensures
            k == *i,
        { *i };
    proof {
        assert forall|a: &i32, b: &i32| #[trigger] compare.requires((a, b)) by {}
        assert forall|a: &i32| #[trigger] key.requires((a,)) by {}
        assert forall|a: &i32, b: &i32, o1: Ordering, o2: Ordering|
            #[trigger] compare.ensures((a, b), o1) && #[trigger] compare.ensures(
                (a, b),
                o2,
            ) implies o1 == o2 by {}
        assert forall|a: &i32, k1: i32, k2: i32|
            #[trigger] key.ensures((a,), k1) && #[trigger] key.ensures((a,), k2) implies k1
                == k2 by {}
    }
    let by_natural = test_sort(solution, Vec::new());
    let by_compare = test_sort_by(solution, Vec::new(), compare);
    let by_key = test_sort_by_key(solution, Vec::new(), key);
    by_natural && by_compare && by_key
}

} // verus!
