//! A fixed-capacity stack and the merge of two sorted sequences that is
//! built on it.

use crate::csort::merge_two_sorted_array;
use crate::search::{sorted, SearchKey};
use vstd::multiset::Multiset;
use vstd::prelude::*;

verus! {

broadcast use vstd::seq_lib::group_to_multiset_ensures;

/// A last-in-first-out buffer that never holds more than its capacity.
pub struct Stack<T> {
    data: Vec<T>,
    cap: usize,
}

impl<T> View for Stack<T> {
    type V = Seq<T>;

    /// The elements, oldest first.
    closed spec fn view(&self) -> Seq<T> {
        self.data@
    }
}

impl<T> Stack<T> {
    /// The most elements the stack may hold.
    pub closed spec fn capacity(&self) -> nat {
        self.cap as nat
    }

    /// The stack holds no more than its capacity.
    pub closed spec fn wf(&self) -> bool {
        self.data@.len() <= self.cap
    }

    /// An empty stack that can hold `capacity` elements.
    pub fn new(capacity: usize) -> (r: Self)
        ensures
            r.wf(),
            r@ == Seq::<T>::empty(),
            r.capacity() == capacity,
    {
        Stack { data: Vec::with_capacity(capacity), cap: capacity }
    }

    /// The number of elements held.
    pub fn len(&self) -> (r: usize)
        requires
            self.wf(),
        ensures
            r == self@.len(),
    {
        self.data.len()
    }

    /// Puts `element` on top; the stack must not be full.
    pub fn push(&mut self, element: T)
        requires
            old(self).wf(),
            old(self)@.len() < old(self).capacity(),
        ensures
            final(self).wf(),
            final(self)@ == old(self)@.push(element),
            final(self).capacity() == old(self).capacity(),
    {
        self.data.push(element);
    }

    /// Takes the top element off, or gives `None` on an empty stack.
    pub fn pop(&mut self) -> (r: Option<T>)
        requires
            old(self).wf(),
        ensures
            final(self).wf(),
            final(self).capacity() == old(self).capacity(),
            old(self)@.len() == 0 ==> r is None && final(self)@ == old(self)@,
            old(self)@.len() > 0 ==> r == Some(old(self)@.last()) && final(self)@ == old(
                self,
            )@.drop_last(),
    {
        self.data.pop()
    }

    /// The elements, provided the stack is exactly full.
    pub fn take_if_full(self) -> (r: Option<Vec<T>>)
        requires
            self.wf(),
        ensures
            self@.len() == self.capacity() ==> (r matches Some(v) && v@ == self@),
            self@.len() != self.capacity() ==> r is None,
    {
        if self.data.len() == self.cap {
            Some(self.data)
        } else {
            None
        }
    }

    /// The elements of a stack that is known to be full.
    pub fn take_no_check(self) -> (r: Vec<T>)
        requires
            self.wf(),
            self@.len() == self.capacity(),
        ensures
            r@ == self@,
    {
        self.data
    }
}

/// Every element of `s` is at most `bound`.
pub open spec fn all_at_most<T: SearchKey>(s: Seq<T>, bound: T) -> bool {
    forall|k: int| 0 <= k < s.len() ==> s[k].key() <= bound.key()
}

/// What the merge keeps between steps: the output is sorted, holds exactly
/// the first `i` elements of `a` and the first `j` of `b`, and stays below
/// whatever is left of either.
pub open spec fn merge_inv<T: SearchKey>(out: Seq<T>, a: Seq<T>, b: Seq<T>, i: int, j: int) -> bool {
    &&& 0 <= i <= a.len()
    &&& 0 <= j <= b.len()
    &&& out.len() == i + j
    &&& sorted(out)
    &&& out.to_multiset() == a.subrange(0, i).to_multiset().add(b.subrange(0, j).to_multiset())
    &&& i < a.len() ==> all_at_most(out, a[i])
    &&& j < b.len() ==> all_at_most(out, b[j])
}

proof fn lemma_merge_step<T: SearchKey>(
    out: Seq<T>,
    a: Seq<T>,
    b: Seq<T>,
    i: int,
    j: int,
    from_a: bool,
)
    requires
        sorted(a),
        sorted(b),
        merge_inv(out, a, b, i, j),
        from_a ==> i < a.len() && (j < b.len() ==> a[i].key() <= b[j].key()),
        !from_a ==> j < b.len() && (i < a.len() ==> b[j].key() <= a[i].key()),
    ensures
        from_a ==> merge_inv(out.push(a[i]), a, b, i + 1, j),
        !from_a ==> merge_inv(out.push(b[j]), a, b, i, j + 1),
{
    if from_a {
        assert(a.subrange(0, i + 1) =~= a.subrange(0, i).push(a[i]));
        let o = out.push(a[i]);
        assert(o.to_multiset() =~= a.subrange(0, i + 1).to_multiset().add(
            b.subrange(0, j).to_multiset(),
        ));
        if i + 1 < a.len() {
            assert(all_at_most(o, a[i + 1]));
        }
    } else {
        assert(b.subrange(0, j + 1) =~= b.subrange(0, j).push(b[j]));
        let o = out.push(b[j]);
        assert(o.to_multiset() =~= a.subrange(0, i).to_multiset().add(
            b.subrange(0, j + 1).to_multiset(),
        ));
        if j + 1 < b.len() {
            assert(all_at_most(o, b[j + 1]));
        }
    }
}

/// Merges two sorted slices into one sorted vector of all their elements.
/// On equal keys the element of `a` comes first.
pub fn merge_two_sorted_rs<T: SearchKey>(a: &[T], b: &[T]) -> (r: Vec<T>)
    requires
        sorted(a@),
        sorted(b@),
        a@.len() + b@.len() <= usize::MAX,
    ensures
        r@.len() == a@.len() + b@.len(),
        sorted(r@),
        r@.to_multiset() == a@.to_multiset().add(b@.to_multiset()),
{
    let n = a.len();
    let m = b.len();
    let mut stack: Stack<T> = Stack::new(n + m);
    let mut i: usize = 0;
    let mut j: usize = 0;
    proof {
        assert(a@.subrange(0, 0) =~= Seq::<T>::empty());
        assert(b@.subrange(0, 0) =~= Seq::<T>::empty());
        assert(Seq::<T>::empty().to_multiset() =~= Multiset::empty());
        assert(stack@.to_multiset() =~= a@.subrange(0, 0).to_multiset().add(
            b@.subrange(0, 0).to_multiset(),
        ));
    }
    while i < n && j < m
        invariant
            n == a@.len(),
            m == b@.len(),
            n + m <= usize::MAX,
            sorted(a@),
            sorted(b@),
            stack.wf(),
            stack.capacity() == n + m,
            merge_inv(stack@, a@, b@, i as int, j as int),
        decreases n + m - i - j,
    {
        let x = b[j];
        let ghost i0 = i;
        while i < n && !x.less(&a[i])
            invariant
                i0 <= i,
                n == a@.len(),
                m == b@.len(),
                n + m <= usize::MAX,
                j < m,
                x == b@[j as int],
                sorted(a@),
                sorted(b@),
                stack.wf(),
                stack.capacity() == n + m,
                merge_inv(stack@, a@, b@, i as int, j as int),
            decreases n - i,
        {
            proof {
                lemma_merge_step(stack@, a@, b@, i as int, j as int, true);
            }
            stack.push(a[i]);
            i += 1;
        }
        proof {
            lemma_merge_step(stack@, a@, b@, i as int, j as int, false);
        }
        stack.push(x);
        j += 1;
    }
    while i < n
        invariant
            i < n ==> j == m,
            n == a@.len(),
            m == b@.len(),
            n + m <= usize::MAX,
            sorted(a@),
            sorted(b@),
            stack.wf(),
            stack.capacity() == n + m,
            merge_inv(stack@, a@, b@, i as int, j as int),
        decreases n - i,
    {
        proof {
            lemma_merge_step(stack@, a@, b@, i as int, j as int, true);
        }
        stack.push(a[i]);
        i += 1;
    }
    while j < m
        invariant
            n == a@.len(),
            m == b@.len(),
            n + m <= usize::MAX,
            i == n,
            sorted(a@),
            sorted(b@),
            stack.wf(),
            stack.capacity() == n + m,
            merge_inv(stack@, a@, b@, i as int, j as int),
        decreases m - j,
    {
        proof {
            lemma_merge_step(stack@, a@, b@, i as int, j as int, false);
        }
        stack.push(b[j]);
        j += 1;
    }
    proof {
        assert(a@.subrange(0, n as int) =~= a@);
        assert(b@.subrange(0, m as int) =~= b@);
    }
    stack.take_no_check()
}

/// Two sequences sorted by key that hold the same elements are equal: the
/// merge of `a` and `b` is the one sorted arrangement of their elements.
pub proof fn lemma_sorted_arrangement_unique<T: SearchKey>(x: Seq<T>, y: Seq<T>)
    requires
        sorted(x),
        sorted(y),
        x.to_multiset() == y.to_multiset(),
    ensures
        x == y,
{
    let leq = |a: T, b: T| a.key() <= b.key();
    assert(vstd::relations::total_ordering(leq)) by {
        assert forall|a: T, b: T| #[trigger] leq(a, b) && #[trigger] leq(b, a) implies a == b by {
            T::lemma_key_injective(a, b);
        }
    }
    assert(vstd::relations::sorted_by(x, leq));
    assert(vstd::relations::sorted_by(y, leq));
    vstd::seq_lib::lemma_sorted_unique(x, y, leq);
}

/// Why an in-place merge was refused.
#[derive(Debug, Clone, Copy, PartialEq, Eq, Structural)]
pub enum MergeError {
    /// The split index lies past the end of the array.
    SplitOutOfRange,
}

/// Merges the sorted runs `array[..split]` and `array[split..]` in place, so
/// that the whole array ends up sorted. A split past the end is refused and
/// leaves the array as it was.
pub fn merge_two_sorted(array: &mut [i32], split: usize) -> (r: Result<(), MergeError>)
    requires
        split <= old(array)@.len() ==> sorted(old(array)@.subrange(0, split as int)),
        split <= old(array)@.len() ==> sorted(
            old(array)@.subrange(split as int, old(array)@.len() as int),
        ),
    ensures
        split > old(array)@.len() ==> r == Err::<(), MergeError>(MergeError::SplitOutOfRange)
            && final(array)@ == old(array)@,
        split <= old(array)@.len() ==> r is Ok && sorted(final(array)@),
        final(array)@.to_multiset() == old(array)@.to_multiset(),
        final(array)@.len() == old(array)@.len(),
{
    if split > array.len() {
        return Err(MergeError::SplitOutOfRange);
    }
    merge_two_sorted_array(array, split);
    Ok(())
}

} // verus!
