//! Searching a slice of integers: by scanning, by bisection and by
//! interpolation.

use rayon::iter::{IndexedParallelIterator, IntoParallelRefIterator, ParallelIterator};
use vstd::prelude::*;
use vstd::slice::slice_subrange;

verus! {

/// An element type that the searches can compare: each value has an
/// integer key, equal exactly when the values are equal.
pub trait SearchKey: Copy + Sized {
    spec fn key(self) -> int;

    proof fn lemma_key_injective(a: Self, b: Self)
        ensures
            a.key() == b.key() <==> a == b,
    ;

    fn less(&self, other: &Self) -> (r: bool)
        ensures
            r == (self.key() < other.key()),
    ;

    fn same(&self, other: &Self) -> (r: bool)
        ensures
            r == (self.key() == other.key()),
    ;
}

impl SearchKey for usize {
    open spec fn key(self) -> int {
        self as int
    }

    proof fn lemma_key_injective(a: Self, b: Self) {
    }

    fn less(&self, other: &Self) -> (r: bool) {
        *self < *other
    }

    fn same(&self, other: &Self) -> (r: bool) {
        *self == *other
    }
}

impl SearchKey for i32 {
    open spec fn key(self) -> int {
        self as int
    }

    proof fn lemma_key_injective(a: Self, b: Self) {
    }

    fn less(&self, other: &Self) -> (r: bool) {
        *self < *other
    }

    fn same(&self, other: &Self) -> (r: bool) {
        *self == *other
    }
}

/// The slice is in non-decreasing order.
pub open spec fn sorted<T: SearchKey>(s: Seq<T>) -> bool {
    forall|i: int, j: int| 0 <= i < j < s.len() ==> s[i].key() <= s[j].key()
}

/// What a search promises: a returned index holds the target, and on a
/// sorted slice "not found" is returned exactly when the target is absent.
pub open spec fn search_result<T: SearchKey>(s: Seq<T>, t: T, r: Option<usize>) -> bool {
    &&& r matches Some(i) ==> i < s.len() && s[i as int] == t
    &&& sorted(s) ==> (r is None <==> !s.contains(t))
}

/// Splits `slice` into the part before `index`, the element at `index` and
/// the part after it; three empty parts when `index` is out of bounds.
pub fn split_at<T>(slice: &[T], index: usize) -> (r: (&[T], Option<&T>, &[T]))
    ensures
        index >= slice@.len() ==> r.0@ == Seq::<T>::empty() && r.1 is None && r.2@ == Seq::<
            T,
        >::empty(),
        index < slice@.len() ==> r.0@ == slice@.subrange(0, index as int) && r.1 == Some(
            &slice@[index as int],
        ) && r.2@ == slice@.subrange(index + 1, slice@.len() as int),
{
    if index >= slice.len() {
        let empty = slice_subrange(slice, 0, 0);
        return (empty, None, empty);
    }
    (
        slice_subrange(slice, 0, index),
        Some(&slice[index]),
        slice_subrange(slice, index + 1, slice.len()),
    )
}

/// Splits `slice` at `slice.len() / 2`: the middle element, what comes
/// before it and what comes after it.
pub fn split_at_middle<T>(slice: &[T]) -> (r: (&[T], Option<&T>, &[T]))
    ensures
        slice@.len() == 0 ==> r.0@ == Seq::<T>::empty() && r.1 is None && r.2@ == Seq::<
            T,
        >::empty(),
        slice@.len() > 0 ==> r.0@ == slice@.subrange(0, (slice@.len() / 2) as int) && r.1 == Some(
            &slice@[(slice@.len() / 2) as int],
        ) && r.2@ == slice@.subrange((slice@.len() / 2) as int + 1, slice@.len() as int),
{
    let mid = slice.len() / 2;
    split_at(slice, mid)
}

/// Searches `slice` by bisection: compares with the middle element and
/// goes on in the half that can still hold `target`.
pub fn binary_search<T: SearchKey>(target: &T, slice: &[T]) -> (r: Option<usize>)
    ensures
        search_result(slice@, *target, r),
        slice@.len() == 0 ==> r is None,
    decreases slice@.len(),
{
    let n = slice.len();
    let (left, middle, right) = split_at_middle(slice);
    let middle = match middle {
        Some(m) => *m,
        None => return None,
    };
    let mid = left.len();
    proof {
        assert(left@ == slice@.subrange(0, mid as int));
        assert(right@ == slice@.subrange(mid + 1, slice@.len() as int));
    }
    proof {
        T::lemma_key_injective(*target, middle);
    }
    if target.less(&middle) {
        let r = binary_search(target, left);
        proof {
            if sorted(slice@) {
                assert(sorted(left@));
                if slice@.contains(*target) {
                    let k = choose|k: int| 0 <= k < slice@.len() && slice@[k] == *target;
                    assert(left@[k] == *target);
                    assert(left@.contains(*target));
                }
            }
            if r is None {
            } else {
                assert(slice@.contains(*target));
            }
        }
        r
    } else if target.same(&middle) {
        proof {
            assert(slice@.contains(*target));
        }
        Some(mid)
    } else {
        match binary_search(target, right) {
            Some(i) => {
                proof {
                    assert(right@.len() == n - mid - 1);
                    assert(slice@[mid + 1 + i] == right@[i as int]);
                }
                Some(mid + 1 + i)
            },
            None => {
                proof {
                    if sorted(slice@) {
                        assert(sorted(right@));
                        if slice@.contains(*target) {
                            let k = choose|k: int|
                                0 <= k < slice@.len() && slice@[k] == *target;
                            assert(right@[k - mid - 1] == *target);
                            assert(right@.contains(*target));
                        }
                    }
                }
                None
            },
        }
    }
}

/// Scans `slice` from the front and returns the first index that holds
/// `target`.
pub fn sequential_search<T: SearchKey>(target: &T, slice: &[T]) -> (r: Option<usize>)
    ensures
        search_result(slice@, *target, r),
        r is None <==> !slice@.contains(*target),
        r matches Some(i) ==> forall|j: int| 0 <= j < i ==> slice@[j] != *target,
{
    let mut i: usize = 0;
    while i < slice.len()
        invariant
            i <= slice@.len(),
            forall|j: int| 0 <= j < i ==> slice@[j] != *target,
        decreases slice@.len() - i,
    {
        proof {
            T::lemma_key_injective(slice@[i as int], *target);
        }
        if slice[i].same(target) {
            return Some(i);
        }
        i += 1;
    }
    None
}

/// The index that linear interpolation between the first value `f` and the
/// last value `l` of a slice of length `n` gives for the value `t`,
/// truncated toward zero, with a negative estimate taken as zero.
pub open spec fn interpolated_index(t: int, f: int, l: int, n: int) -> int {
    let num = (t - f) * (n - 1);
    let den = l - f;
    if num >= 0 && den > 0 {
        num / den
    } else if num <= 0 && den < 0 {
        (-num) / (-den)
    } else {
        0
    }
}

proof fn lemma_estimate_past_end(t: int, f: int, l: int, n: int)
    requires
        f < l,
        n >= 2,
        interpolated_index(t, f, l, n) >= n,
    ensures
        t > l,
{
    let num = (t - f) * (n - 1);
    let den = l - f;
    if num >= 0 {
        assert(num / den >= n);
        assert(num >= n * den) by (nonlinear_arith)
            requires
                num / den >= n,
                den > 0,
        ;
        if t <= l {
            assert((t - f) * (n - 1) <= (l - f) * (n - 1)) by (nonlinear_arith)
                requires
                    t <= l,
                    n >= 2,
            ;
            assert((l - f) * (n - 1) < n * (l - f)) by (nonlinear_arith)
                requires
                    l - f > 0,
            ;
        }
    }
}

/// The probe index of one interpolation step, `None` when it lies past
/// the end of the slice.
fn estimate_index(target: i32, first: i32, last: i32, n: usize) -> (r: Option<usize>)
    requires
        first != last,
        n >= 2,
    ensures
        interpolated_index(target as int, first as int, last as int, n as int) < n ==> r == Some(
            interpolated_index(target as int, first as int, last as int, n as int) as usize,
        ),
        interpolated_index(target as int, first as int, last as int, n as int) >= n ==> r is None,
{
    let d = target as i64 - first as i64;
    let den = last as i64 - first as i64;
    let m = (n - 1) as u128;
    let ghost num = (target as int - first as int) * (n as int - 1);
    let q: u128;
    if d >= 0 && den > 0 {
        let a = d as u128;
        assert(a * m < 0x1_0000_0000_0000_0000_0000_0000_0000) by (nonlinear_arith)
            requires
                a < 0x1_0000_0000,
                m < 0x1_0000_0000_0000_0000,
        ;
        assert(a * m == num);
        q = (a * m) / (den as u128);
    } else if d <= 0 && den < 0 {
        let a = (-d) as u128;
        assert(a * m < 0x1_0000_0000_0000_0000_0000_0000_0000) by (nonlinear_arith)
            requires
                a <= 0x1_0000_0000,
                m < 0x1_0000_0000_0000_0000,
        ;
        assert(a * m == -num) by (nonlinear_arith)
            requires
                a == -(target as int - first as int),
                m == n as int - 1,
                num == (target as int - first as int) * (n as int - 1),
        ;
        q = (a * m) / ((-den) as u128);
    } else {
        proof {
            if d > 0 {
                assert(num > 0) by (nonlinear_arith)
                    requires
                        num == d * (n as int - 1),
                        d > 0,
                        n >= 2,
                ;
            } else if d < 0 {
                assert(num < 0) by (nonlinear_arith)
                    requires
                        num == d * (n as int - 1),
                        d < 0,
                        n >= 2,
                ;
            } else {
                assert(num == 0);
            }
        }
        q = 0;
    }
    if q < n as u128 {
        Some(q as usize)
    } else {
        None
    }
}

/// Interpolation search: estimates where `target` should lie from the
/// first and last values, probes there and goes on before or after the
/// probe.
pub fn linear_search(target: &i32, slice: &[i32]) -> (r: Option<usize>)
    ensures
        search_result(slice@, *target, r),
    decreases slice@.len(),
{
    let n = slice.len();
    if n == 0 {
        return None;
    }
    let first = slice[0];
    let last = slice[n - 1];
    if first == last {
        proof {
            if sorted(slice@) && slice@.contains(*target) {
                let k = choose|k: int| 0 <= k < slice@.len() && slice@[k] == *target;
                assert(slice@[0] <= slice@[k] <= slice@[n - 1]);
            }
        }
        if first == *target {
            return Some(0);
        } else {
            return None;
        }
    }
    let e = match estimate_index(*target, first, last, n) {
        Some(e) => e,
        None => {
            proof {
                if sorted(slice@) {
                    assert(first <= last);
                    lemma_estimate_past_end(*target as int, first as int, last as int, n as int);
                    if slice@.contains(*target) {
                        let k = choose|k: int| 0 <= k < slice@.len() && slice@[k] == *target;
                        assert(slice@[k] <= slice@[n - 1]);
                    }
                }
            }
            return None;
        },
    };
    let probe = slice[e];
    if *target < probe {
        let left = slice_subrange(slice, 0, e);
        let r = linear_search(target, left);
        proof {
            if sorted(slice@) {
                assert(sorted(left@));
                if slice@.contains(*target) {
                    let k = choose|k: int| 0 <= k < slice@.len() && slice@[k] == *target;
                    assert(k < e);
                    assert(left@[k] == *target);
                }
            }
            if r is Some {
                assert(slice@.contains(*target));
            }
        }
        r
    } else if *target == probe {
        Some(e)
    } else {
        let right = slice_subrange(slice, e + 1, n);
        match linear_search(target, right) {
            Some(i) => {
                proof {
                    assert(slice@[e + 1 + i] == right@[i as int]);
                }
                Some(e + 1 + i)
            },
            None => {
                proof {
                    if sorted(slice@) {
                        assert(sorted(right@));
                        if slice@.contains(*target) {
                            let k = choose|k: int|
                                0 <= k < slice@.len() && slice@[k] == *target;
                            assert(k > e);
                            assert(right@[k - e - 1] == *target);
                        }
                    }
                }
                None
            },
        }
    }
}

/// `Some(i)` when `x` is the target, else `None`.
fn index_if_equal(i: usize, x: &usize, target: &usize) -> (r: Option<usize>)
    ensures
        r == (if *x == *target {
            Some(i)
        } else {
            None
        }),
{
    if *x == *target {
        Some(i)
    } else {
        None
    }
}

/// Relies on rayon's `find_map_any` over `par_iter().enumerate()`: it
/// returns the non-`None` result of the map for some item, and `None` only
/// when the map gives `None` for every item.
#[verifier::external_body]
fn par_find_map_index(target: &usize, slice: &[usize]) -> (r: Option<usize>)
    ensures
        r matches Some(i) ==> i < slice@.len() && slice@[i as int] == *target,
        r is None ==> !slice@.contains(*target),
{
    slice.par_iter().enumerate().find_map_any(|(i, x)| index_if_equal(i, x, target))
}

/// Scans `slice` on several workers at once; which matching index comes back
/// when the target occurs more than once is left open.
pub fn parallel_search(target: &usize, slice: &[usize]) -> (r: Option<usize>)
    ensures
        search_result(slice@, *target, r),
        r is None <==> !slice@.contains(*target),
{
    let r = par_find_map_index(target, slice);
    proof {
        if r matches Some(i) {
            assert(slice@.contains(*target));
        }
    }
    r
}

/// Relies on `<[usize]>::binary_search`: on a sorted slice, `Ok` holds an
/// index of a matching element and `Err` means that no element matches.
#[verifier::external_body]
fn slice_binary_search(slice: &[usize], target: &usize) -> (r: Result<usize, usize>)
    requires
        sorted(slice@),
    ensures
        r matches Ok(i) ==> i < slice@.len() && slice@[i as int] == *target,
        r is Err ==> !slice@.contains(*target),
{
    slice.binary_search(target)
}

/// Bisection by the standard library's slice search.
pub fn std_binary_search(target: &usize, slice: &[usize]) -> (r: Option<usize>)
    requires
        sorted(slice@),
    ensures
        search_result(slice@, *target, r),
{
    match slice_binary_search(slice, target) {
        Ok(index) => Some(index),
        Err(_) => None,
    }
}

/// On a sorted slice, interpolation search and bisection give the same
/// verdict on whether the target is there; they may name different indices
/// only when the target occurs more than once.
pub proof fn lemma_interpolation_agrees_with_bisection(
    s: Seq<i32>,
    t: i32,
    by_bisection: Option<usize>,
    by_interpolation: Option<usize>,
)
    requires
        sorted(s),
        search_result(s, t, by_bisection),
        search_result(s, t, by_interpolation),
    ensures
        by_bisection is Some <==> by_interpolation is Some,
        by_bisection matches Some(i) ==> s[i as int] == t,
        by_interpolation matches Some(i) ==> s[i as int] == t,
{
}

/// On a sorted slice that holds distinct values, bisection and interpolation
/// find the same index.
pub proof fn lemma_distinct_same_index(
    s: Seq<i32>,
    t: i32,
    by_bisection: Option<usize>,
    by_interpolation: Option<usize>,
)
    requires
        forall|i: int, j: int| 0 <= i < j < s.len() ==> s[i] < s[j],
        search_result(s, t, by_bisection),
        search_result(s, t, by_interpolation),
    ensures
        by_bisection == by_interpolation,
{
    assert(sorted(s));
}

} // verus!
