//! A stable sorting solution: insertion by adjacent swaps, which never moves
//! an element past an equal one.

use crate::sorted::{sorted_between, strict_weak_order, LessThan, Solution, Sorted};
use vstd::prelude::*;

verus! {

broadcast use vstd::seq_lib::group_to_multiset_ensures;

/// Sorts stably: elements that neither goes before the other keep their
/// relative order.
#[derive(Clone, Copy)]
pub struct Stable;

proof fn lemma_swap_multiset(s: Seq<i32>, i: int, j: int)
    requires
        0 <= i < s.len(),
        0 <= j < s.len(),
    ensures
        s.update(i, s[j]).update(j, s[i]).to_multiset() == s.to_multiset(),
{
    let t = s.update(i, s[j]);
    assert(t.to_multiset() == s.to_multiset().insert(s[j]).remove(s[i]));
    assert(t.update(j, s[i]).to_multiset() == t.to_multiset().insert(s[i]).remove(t[j]));
    if i == j {
        assert(t.update(j, s[i]) =~= s);
    } else {
        assert(t[j] == s[j]);
        assert(t.update(j, s[i]).to_multiset() =~= s.to_multiset());
    }
}

impl Solution for Stable {
    fn sort_method<R: LessThan>(array: Vec<i32>, is_less: R) -> (r: Sorted<R>) {
        let ghost swo = strict_weak_order(is_less);
        let mut v = array;
        let n = v.len();
        let mut i: usize = 1;
        while i < n
            invariant
                n == v@.len(),
                1 <= i,
                is_less.callable(),
                swo == strict_weak_order(is_less),
                swo ==> sorted_between(v@, is_less, 0, if i <= n { i as int } else { n as int }),
                v@.to_multiset() == array@.to_multiset(),
            decreases n - i,
        {
            let mut j: usize = i;
            while j > 0 && is_less.is_less(&v[j], &v[j - 1])
                invariant
                    n == v@.len(),
                    0 <= j <= i < n,
                    is_less.callable(),
                    swo == strict_weak_order(is_less),
                    swo ==> sorted_between(v@, is_less, 0, j as int),
                    swo ==> sorted_between(v@, is_less, j + 1, i + 1),
                    swo ==> forall|p: int, q: int|
                        0 <= p < j < q <= i ==> !is_less.less(#[trigger] v@[q], #[trigger] v@[p]),
                    swo ==> forall|q: int| j < q <= i ==> is_less.less(v@[j as int], #[trigger] v@[q]),
                    v@.to_multiset() == array@.to_multiset(),
                decreases j,
            {
                let ghost before = v@;
                let x = v[j];
                let y = v[j - 1];
                v.set(j - 1, x);
                v.set(j, y);
                proof {
                    lemma_swap_multiset(before, j as int, j - 1);
                    assert(v@ =~= before.update(j as int, before[j - 1]).update(
                        j - 1,
                        before[j as int],
                    ));
                    if swo {
                    assert(is_less.less(x, y));
                    assert forall|p: int, q: int|
                        j <= p < q < i + 1 implies !is_less.less(
                        #[trigger] v@[q],
                        #[trigger] v@[p],
                    ) by {
                        if p == j {
                            assert(v@[p] == y);
                            assert(!is_less.less(before[q], before[j - 1]));
                        }
                    }
                    assert forall|p: int, q: int|
                        0 <= p < j - 1 < q <= i implies !is_less.less(
                        #[trigger] v@[q],
                        #[trigger] v@[p],
                    ) by {
                        if q == j {
                            assert(v@[q] == y);
                        }
                    }
                    assert forall|q: int| j - 1 < q <= i implies is_less.less(
                        v@[j - 1],
                        #[trigger] v@[q],
                    ) by {
                        if q > j {
                            assert(v@[q] == before[q]);
                            assert(is_less.less(before[j as int], before[q]));
                        }
                    }
                    }
                }
                j -= 1;
            }
            proof {
                if swo {
                let x = v@[j as int];
                assert forall|p: int, q: int|
                    0 <= p < q < i + 1 implies !is_less.less(
                    #[trigger] v@[q],
                    #[trigger] v@[p],
                ) by {
                    if q == j {
                        assert(!is_less.less(x, v@[j - 1]));
                        if p < j - 1 {
                            assert(!is_less.less(v@[j - 1], v@[p]));
                        }
                    } else if p == j {
                        assert(is_less.less(x, v@[q]));
                        if is_less.less(v@[q], x) {
                            assert(is_less.less(x, x));
                        }
                    }
                }
                }
            }
            i += 1;
        }
        proof {
            if n == 0 {
                assert(sorted_between(v@, is_less, 0, 0));
            }
        }
        Sorted::uncheck_from_array(v, is_less)
    }
}

} // verus!
