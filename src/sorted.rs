//! Ordering rules, the sorted-result wrapper and the contract that every
//! sorting solution meets.

use std::cmp::Ordering;
use vstd::prelude::*;

verus! {

/// A rule that decides whether one value goes strictly before another.
pub trait LessThan: Sized {
    /// `a` goes strictly before `b`.
    spec fn less(&self, a: i32, b: i32) -> bool;

    /// The rule can be asked about any two values and always answers the
    /// same.
    spec fn callable(&self) -> bool;

    fn is_less(&self, a: &i32, b: &i32) -> (r: bool)
        requires
            self.callable(),
        ensures
            r == self.less(*a, *b),
    ;
}

/// The rule is a strict weak order: irreflexive, transitive, and "neither
/// goes before the other" is transitive too.
pub open spec fn strict_weak_order<R: LessThan>(rule: R) -> bool {
    &&& rule.callable()
    &&& forall|a: i32| !#[trigger] rule.less(a, a)
    &&& forall|a: i32, b: i32, c: i32|
        #[trigger] rule.less(a, b) && #[trigger] rule.less(b, c) ==> rule.less(a, c)
    &&& forall|a: i32, b: i32, c: i32|
        !#[trigger] rule.less(a, b) && !#[trigger] rule.less(b, c) ==> !rule.less(a, c)
}

/// No later element of `s[lo..hi]` goes strictly before an earlier one.
pub open spec fn sorted_between<R: LessThan>(s: Seq<i32>, rule: R, lo: int, hi: int) -> bool {
    forall|p: int, q: int| lo <= p < q < hi ==> !rule.less(#[trigger] s[q], #[trigger] s[p])
}

/// The whole sequence is in order under `rule`.
pub open spec fn sorted_by_rule<R: LessThan>(s: Seq<i32>, rule: R) -> bool {
    sorted_between(s, rule, 0, s.len() as int)
}

/// No element goes strictly before its left neighbour.
pub open spec fn adjacent_in_order<R: LessThan>(s: Seq<i32>, rule: R) -> bool {
    forall|i: int| 0 <= i < s.len() - 1 ==> !rule.less(#[trigger] s[i + 1], s[i])
}

/// The natural order of integers.
#[derive(Clone, Copy)]
pub struct Natural;

impl LessThan for Natural {
    open spec fn less(&self, a: i32, b: i32) -> bool {
        a < b
    }

    open spec fn callable(&self) -> bool {
        true
    }

    fn is_less(&self, a: &i32, b: &i32) -> (r: bool) {
        *a < *b
    }
}

/// Any closure that answers "does `a` go before `b`".
impl<F: Fn(&i32, &i32) -> bool> LessThan for F {
    open spec fn less(&self, a: i32, b: i32) -> bool {
        self.ensures((&a, &b), true)
    }

    open spec fn callable(&self) -> bool {
        &&& forall|a: &i32, b: &i32| #[trigger] self.requires((a, b))
        &&& forall|a: &i32, b: &i32, r: bool| #[trigger]
            self.ensures((a, b), r) ==> (r <==> self.ensures((a, b), true))
    }

    fn is_less(&self, a: &i32, b: &i32) -> (r: bool) {
        self(a, b)
    }
}

/// The comparison can be called on any two values and always gives the
/// same answer for them.
pub open spec fn compare_callable<C: Fn(&i32, &i32) -> Ordering>(compare: C) -> bool {
    &&& forall|a: &i32, b: &i32| #[trigger] compare.requires((a, b))
    &&& forall|a: &i32, b: &i32, o1: Ordering, o2: Ordering|
        #[trigger] compare.ensures((a, b), o1) && #[trigger] compare.ensures((a, b), o2) ==> o1
            == o2
}

/// The key function can be called on any value and always gives the same
/// key for it.
pub open spec fn key_callable<K: Fn(&i32) -> i32>(key: K) -> bool {
    &&& forall|a: &i32| #[trigger] key.requires((a,))
    &&& forall|a: &i32, k1: i32, k2: i32|
        #[trigger] key.ensures((a,), k1) && #[trigger] key.ensures((a,), k2) ==> k1 == k2
}

/// The order that a three-way comparison gives: `a` goes first when the
/// comparison answers `Less`.
pub struct ByCompare<C> {
    pub compare: C,
}

impl<C: Fn(&i32, &i32) -> Ordering> LessThan for ByCompare<C> {
    open spec fn less(&self, a: i32, b: i32) -> bool {
        self.compare.ensures((&a, &b), Ordering::Less)
    }

    open spec fn callable(&self) -> bool {
        compare_callable(self.compare)
    }

    fn is_less(&self, a: &i32, b: &i32) -> (r: bool) {
        let o = (self.compare)(a, b);
        match o {
            Ordering::Less => true,
            _ => false,
        }
    }
}

/// The order of keys that a function extracts: `a` goes first when its key
/// is smaller. Keys are computed anew for each comparison.
pub struct ByKey<K> {
    pub key: K,
}

impl<K: Fn(&i32) -> i32> LessThan for ByKey<K> {
    open spec fn less(&self, a: i32, b: i32) -> bool {
        forall|ka: i32, kb: i32|
            #[trigger] self.key.ensures((&a,), ka) && #[trigger] self.key.ensures((&b,), kb) ==> ka
                < kb
    }

    open spec fn callable(&self) -> bool {
        key_callable(self.key)
    }

    fn is_less(&self, a: &i32, b: &i32) -> (r: bool) {
        let ka = (self.key)(a);
        let kb = (self.key)(b);
        ka < kb
    }
}

/// The natural order is a strict weak order.
pub proof fn lemma_natural_is_strict_weak_order()
    ensures
        strict_weak_order(Natural),
{
}

/// The key function gives some key for `a`.
pub open spec fn has_key<K: Fn(&i32) -> i32>(key: K, a: i32) -> bool {
    exists|k: i32| key.ensures((&a,), k)
}

/// A key-extraction rule whose key function can be called on every value
/// and always gives the same key is a strict weak order.
pub proof fn lemma_by_key_is_strict_weak_order<K: Fn(&i32) -> i32>(rule: ByKey<K>)
    requires
        key_callable(rule.key),
        forall|a: i32| #[trigger] has_key(rule.key, a),
    ensures
        strict_weak_order(rule),
{
    assert forall|a: i32| !#[trigger] rule.less(a, a) by {
        assert(has_key(rule.key, a));
        let ka = choose|k: i32| rule.key.ensures((&a,), k);
    }
    assert forall|a: i32, b: i32, c: i32|
        #[trigger] rule.less(a, b) && #[trigger] rule.less(b, c) implies rule.less(a, c) by {
        assert(has_key(rule.key, a));
        assert(has_key(rule.key, b));
        assert(has_key(rule.key, c));
        let ka = choose|k: i32| rule.key.ensures((&a,), k);
        let kb = choose|k: i32| rule.key.ensures((&b,), k);
        let kc = choose|k: i32| rule.key.ensures((&c,), k);
        assert(ka < kb);
        assert(kb < kc);
    }
    assert forall|a: i32, b: i32, c: i32|
        !#[trigger] rule.less(a, b) && !#[trigger] rule.less(b, c) implies !rule.less(a, c) by {
        assert(has_key(rule.key, a));
        assert(has_key(rule.key, b));
        assert(has_key(rule.key, c));
        let ka = choose|k: i32| rule.key.ensures((&a,), k);
        let kb = choose|k: i32| rule.key.ensures((&b,), k);
        let kc = choose|k: i32| rule.key.ensures((&c,), k);
        assert(!(ka < kb));
        assert(!(kb < kc));
    }
}

/// An array together with the rule that it is sorted under.
pub struct Sorted<R> {
    array: Vec<i32>,
    rule_is_less: R,
}

impl<R: LessThan> View for Sorted<R> {
    type V = Seq<i32>;

    closed spec fn view(&self) -> Seq<i32> {
        self.array@
    }
}

impl<R: LessThan> Sorted<R> {
    /// The rule the array is sorted under.
    pub closed spec fn rule(&self) -> R {
        self.rule_is_less
    }

    /// The array is in order under its rule, whenever that rule is a strict
    /// weak order (under any other rule "in order" means nothing).
    pub open spec fn wf(&self) -> bool {
        strict_weak_order(self.rule()) ==> sorted_by_rule(self@, self.rule())
    }

    /// Gives back the array, dropping the rule.
    pub fn take(self) -> (r: Vec<i32>)
        ensures
            r@ == self@,
    {
        self.array
    }

    /// Wraps an array that the caller has just put in order under `rule`;
    /// only sorting solutions of this crate build a `Sorted`.
    pub(crate) fn uncheck_from_array(array: Vec<i32>, rule_is_less: R) -> (r: Self)
        requires
            strict_weak_order(rule_is_less) ==> sorted_by_rule(array@, rule_is_less),
        ensures
            r@ == array@,
            r.rule() == rule_is_less,
            r.wf(),
    {
        Sorted { array, rule_is_less }
    }

    /// Walks the array again and tells whether no element goes strictly
    /// before its left neighbour under the stored rule.
    pub fn force_check(&self) -> (r: bool)
        requires
            self.rule().callable(),
        ensures
            r == adjacent_in_order(self@, self.rule()),
            self.wf() && strict_weak_order(self.rule()) ==> r,
    {
        let n = self.array.len();
        let mut i: usize = 1;
        while i < n
            invariant
                n == self@.len(),
                1 <= i,
                self.rule().callable(),
                forall|k: int| 0 <= k < i - 1 && k < n - 1 ==> !self.rule().less(#[trigger] self@[k + 1], self@[k]),
            decreases n - i,
        {
            if self.rule_is_less.is_less(&self.array[i], &self.array[i - 1]) {
                proof {
                    let k = i - 1;
                    assert(self.rule().less(self@[k + 1], self@[k]));
                }
                return false;
            }
            i += 1;
        }
        true
    }

    /// Read access to the array.
    pub fn as_slice(&self) -> (r: &[i32])
        ensures
            r@ == self@,
    {
        self.array.as_slice()
    }
}

/// A sorting algorithm. An implementation supplies `sort_method`, which
/// puts an array in order under any strict weak order; the natural order,
/// a three-way comparison and a key extraction come on top of it.
pub trait Solution: Copy + Clone {
    fn sort_method<R: LessThan>(array: Vec<i32>, is_less: R) -> (r: Sorted<R>)
        requires
            is_less.callable(),
        ensures
            r.wf(),
            r.rule() == is_less,
            r@.to_multiset() == array@.to_multiset(),
            r@.len() == array@.len(),
    ;

    /// Sorts in the natural order of integers.
    fn sort(array: Vec<i32>) -> (r: Sorted<Natural>)
        ensures
            r.wf(),
            sorted_by_rule(r@, Natural),
            r.rule() == Natural,
            r@.to_multiset() == array@.to_multiset(),
            r@.len() == array@.len(),
    {
        proof {
            lemma_natural_is_strict_weak_order();
        }
        Self::sort_method(array, Natural)
    }

    /// Sorts so that `a` comes before `b` where `compare(a, b)` is `Less`.
    fn sort_by<C: Fn(&i32, &i32) -> Ordering>(array: Vec<i32>, compare: C) -> (r: Sorted<
        ByCompare<C>,
    >)
        requires
            compare_callable(compare),
        ensures
            r.wf(),
            r.rule() == (ByCompare { compare }),
            r@.to_multiset() == array@.to_multiset(),
            r@.len() == array@.len(),
    {
        Self::sort_method(array, ByCompare { compare })
    }

    /// Sorts by the keys that `key` extracts, smaller keys first.
    fn sort_by_key<K: Fn(&i32) -> i32>(array: Vec<i32>, key: K) -> (r: Sorted<ByKey<K>>)
        requires
            key_callable(key),
        ensures
            r.wf(),
            r.rule() == (ByKey { key }),
            r@.to_multiset() == array@.to_multiset(),
            r@.len() == array@.len(),
    {
        Self::sort_method(array, ByKey { key })
    }
}

/// A strict weak order under which no two distinct values are tied.
pub open spec fn strict_total_order<R: LessThan>(rule: R) -> bool {
    &&& strict_weak_order(rule)
    &&& forall|a: i32, b: i32| a != b ==> #[trigger] rule.less(a, b) || #[trigger] rule.less(b, a)
}

/// A result of a sorting solution under a strict weak order passes
/// `force_check`: pairwise order implies that every neighbour is in order.
pub proof fn lemma_sorted_result_passes_check<R: LessThan>(s: Sorted<R>)
    requires
        s.wf(),
        strict_weak_order(s.rule()),
    ensures
        sorted_by_rule(s@, s.rule()),
        adjacent_in_order(s@, s.rule()),
{
    assert forall|i: int| 0 <= i < s@.len() - 1 implies !s.rule().less(
        #[trigger] s@[i + 1],
        s@[i],
    ) by {
        assert(!s.rule().less(s@[i + 1], s@[i]));
    }
}

/// Under a strict total order there is only one sorted arrangement of a
/// given collection of values.
pub proof fn lemma_sorted_arrangement_unique<R: LessThan>(x: Seq<i32>, y: Seq<i32>, rule: R)
    requires
        strict_total_order(rule),
        sorted_by_rule(x, rule),
        sorted_by_rule(y, rule),
        x.to_multiset() == y.to_multiset(),
    ensures
        x == y,
{
    let leq = |a: i32, b: i32| !rule.less(b, a);
    assert(vstd::relations::total_ordering(leq)) by {
        assert forall|a: i32, b: i32, c: i32| #[trigger] leq(a, b) && #[trigger] leq(b, c) implies leq(
            a,
            c,
        ) by {
            assert(!rule.less(b, a) && !rule.less(c, b));
        }
        assert forall|a: i32, b: i32| #[trigger] leq(a, b) && #[trigger] leq(b, a) implies a == b by {
            if a != b {
                assert(rule.less(a, b) || rule.less(b, a));
            }
        }
        assert forall|a: i32, b: i32| #[trigger] leq(a, b) || #[trigger] leq(b, a) by {
            if rule.less(b, a) && rule.less(a, b) {
                assert(rule.less(a, a));
            }
        }
    }
    assert(vstd::relations::sorted_by(x, leq));
    assert(vstd::relations::sorted_by(y, leq));
    vstd::seq_lib::lemma_sorted_unique(x, y, leq);
}

} // verus!
