//! Building arrays of test data.

use vstd::prelude::*;

verus! {

/// Adds `rhs` to `lhs` element by element.
pub fn merge_array<const N: usize>(lhs: [isize; N], rhs: [isize; N]) -> (r: [isize; N])
    requires
        forall|i: int|
            0 <= i < N ==> isize::MIN <= #[trigger] lhs@[i] + rhs@[i] <= isize::MAX,
    ensures
        r@.len() == N,
        forall|i: int| 0 <= i < N ==> #[trigger] r@[i] == lhs@[i] + rhs@[i],
{
    let mut out = lhs;
    let mut i: usize = 0;
    while i < N
        invariant
            i <= N,
            out@.len() == N,
            lhs@.len() == N,
            rhs@.len() == N,
            forall|k: int|
                0 <= k < N ==> isize::MIN <= #[trigger] lhs@[k] + rhs@[k] <= isize::MAX,
            forall|k: int| 0 <= k < i ==> #[trigger] out@[k] == lhs@[k] + rhs@[k],
            forall|k: int| i <= k < N ==> #[trigger] out@[k] == lhs@[k],
        decreases N - i,
    {
        let sum = out[i] + rhs[i];
        out[i] = sum;
        i += 1;
    }
    out
}

/// The value at position `i` of a walk that starts at `start` and then
/// moves by `steps[1]`, `steps[2]`, ... (`steps[0]` is ignored).
pub open spec fn walk_at(start: int, steps: Seq<isize>, i: int) -> int
    decreases i,
{
    if i <= 0 {
        start
    } else {
        walk_at(start, steps, i - 1) + steps[i]
    }
}

/// Every position of the walk up to `n` fits in an `isize`.
pub open spec fn walk_fits(start: int, steps: Seq<isize>, n: int) -> bool {
    forall|i: int| 0 <= i < n ==> isize::MIN <= #[trigger] walk_at(start, steps, i) <= isize::MAX
}

/// A walk from `start` that moves by `steps[i]` at each position after the
/// first; `None` when a position would not fit in an `isize`.
pub fn stroll<const N: usize>(start: isize, steps: [isize; N]) -> (r: Option<[isize; N]>)
    ensures
        N > 0 && walk_fits(start as int, steps@, N as int) ==> (r matches Some(a) && forall|i: int|
            0 <= i < N ==> #[trigger] a@[i] == walk_at(start as int, steps@, i)),
        N > 0 && !walk_fits(start as int, steps@, N as int) ==> r is None,
        N == 0 ==> (r matches Some(a) && a@ == steps@),
{
    let mut array = steps;
    if N == 0 {
        return Some(array);
    }
    array[0] = start;
    let mut i: usize = 1;
    while i < N
        invariant
            1 <= i <= N,
            array@.len() == N,
            steps@.len() == N,
            forall|k: int| 0 <= k < i ==> #[trigger] array@[k] == walk_at(start as int, steps@, k),
            forall|k: int| i <= k < N ==> #[trigger] array@[k] == steps@[k],
            walk_fits(start as int, steps@, i as int),
        decreases N - i,
    {
        let prev = array[i - 1];
        let step = array[i];
        match prev.checked_add(step) {
            Some(v) => {
                array[i] = v;
                proof {
                    assert(walk_at(start as int, steps@, i as int) == prev + step);
                }
            },
            None => {
                proof {
                    assert(walk_at(start as int, steps@, i as int) == prev + step);
                    assert(!walk_fits(start as int, steps@, N as int));
                }
                return None;
            },
        }
        i += 1;
    }
    Some(array)
}

} // verus!
