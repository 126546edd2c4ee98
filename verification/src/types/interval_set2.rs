//! A set held in an `IntervalSet` of the `interval_set` crate: sorted
//! closed intervals of `u32`, merged when they overlap or touch.

use vstd::prelude::*;
use interval_set::{Interval, ToIntervalSet};
use crate::count::lemma_push_to_set;
use crate::set_int::{increasing, sym_diff, SetInt, SetIntConstruct};
use crate::types::narrow::{below_u32, lemma_narrow_u32_len, narrow_u32};

verus! {

/// An interval set of the `interval_set` crate, held whole behind this
/// struct: its name is the same as this library's own `IntervalSet`, so the
/// type is reached only through the functions below.
#[verifier::external_body]
pub struct IntervalList {
    inner: interval_set::IntervalSet,
}

/// The integers that an interval set of the `interval_set` crate holds.
pub uninterp spec fn list_elems(s: IntervalList) -> Set<u32>;

/// Every integer of the set leaves room for the crate's arithmetic on
/// interval ends (`end + 1`, and one more for the sweep's sentinel).
pub open spec fn list_in_range(s: Set<u32>) -> bool {
    forall|x: u32| #[trigger] s.contains(x) ==> x < u32::MAX - 1
}

/// The integers of a list of closed intervals given by their bounds.
pub open spec fn bounds_union(b: Seq<(u32, u32)>) -> Set<u32> {
    Set::new(|x: u32| exists|k: int| 0 <= k < b.len() && #[trigger] b[k].0 <= x <= b[k].1)
}

/// `IntervalSet::empty`: no interval.
#[verifier::external_body]
fn list_empty() -> (s: IntervalList)
    ensures
        list_elems(s) == Set::<u32>::empty(),
{
    IntervalList { inner: interval_set::IntervalSet::empty() }
}

/// `IntervalSet::insert` of the interval `[n, n]`: adds `n`, merging it
/// with the intervals it touches.
#[verifier::external_body]
fn list_insert_point(s: &mut IntervalList, n: u32)
    requires
        n < u32::MAX,
        list_in_range(list_elems(*old(s))),
    ensures
        list_elems(*final(s)) == list_elems(*old(s)).insert(n),
{
    s.inner.insert(Interval::new(n, n))
}

/// `ToIntervalSet::to_interval_set` of the interval `[n, n]`: the set of
/// `n` alone.
#[verifier::external_body]
fn list_point(n: u32) -> (s: IntervalList)
    ensures
        list_elems(s) == Set::<u32>::empty().insert(n),
{
    IntervalList { inner: Interval::new(n, n).to_interval_set() }
}

/// `IntervalSet::union`, on copies of both sets.
#[verifier::external_body]
fn list_union(a: &IntervalList, b: &IntervalList) -> (r: IntervalList)
    requires
        list_in_range(list_elems(*a)),
        list_in_range(list_elems(*b)),
    ensures
        list_elems(r) == list_elems(*a).union(list_elems(*b)),
{
    IntervalList { inner: a.inner.clone().union(b.inner.clone()) }
}

/// `IntervalSet::intersection`, on copies of both sets.
#[verifier::external_body]
fn list_intersection(a: &IntervalList, b: &IntervalList) -> (r: IntervalList)
    requires
        list_in_range(list_elems(*a)),
        list_in_range(list_elems(*b)),
    ensures
        list_elems(r) == list_elems(*a).intersect(list_elems(*b)),
{
    IntervalList { inner: a.inner.clone().intersection(b.inner.clone()) }
}

/// `IntervalSet::difference`, on copies of both sets.
#[verifier::external_body]
fn list_difference(a: &IntervalList, b: &IntervalList) -> (r: IntervalList)
    requires
        list_in_range(list_elems(*a)),
        list_in_range(list_elems(*b)),
    ensures
        list_elems(r) == list_elems(*a).difference(list_elems(*b)),
{
    IntervalList { inner: a.inner.clone().difference(b.inner.clone()) }
}

/// `IntervalSet::symetric_difference`, on copies of both sets.
#[verifier::external_body]
fn list_symmetric_difference(a: &IntervalList, b: &IntervalList) -> (r: IntervalList)
    requires
        list_in_range(list_elems(*a)),
        list_in_range(list_elems(*b)),
    ensures
        list_elems(r) == list_elems(*a).difference(list_elems(*b)).union(
            list_elems(*b).difference(list_elems(*a)),
        ),
{
    IntervalList { inner: a.inner.clone().symetric_difference(b.inner.clone()) }
}

/// `IntervalSet::size`: the sum of the interval lengths, which is the
/// number of integers held since the intervals of a set never overlap.
#[verifier::external_body]
fn list_size(s: &IntervalList) -> (count: u32)
    requires
        forall|x: u32| #[trigger] list_elems(*s).contains(x) ==> x < 65536,
    ensures
        count == list_elems(*s).len(),
{
    s.inner.size()
}

/// `IntervalSet::iter` with `Interval::as_tuple`: the bounds of the
/// intervals, in increasing order and apart.
#[verifier::external_body]
fn list_bounds(s: &IntervalList) -> (bounds: Vec<(u32, u32)>)
    ensures
        bounds_union(bounds@) == list_elems(*s),
        forall|k: int| 0 <= k < bounds@.len() ==> #[trigger] bounds@[k].0 <= bounds@[k].1,
        forall|k: int, l: int| 0 <= k < l < bounds@.len() ==> #[trigger] bounds@[k].1 < #[trigger] bounds@[l].0,
{
    s.inner.iter().map(|i| i.as_tuple()).collect()
}

/// The elements, as sorted intervals of 32-bit integers.
pub struct IntervalSet2 {
    interval_set: IntervalList,
}

impl SetInt for IntervalSet2 {
    closed spec fn view(&self) -> Set<u16> {
        narrow_u32(list_elems(self.interval_set))
    }

    closed spec fn wf(&self) -> bool {
        below_u32(list_elems(self.interval_set))
    }

    fn clear(&mut self) {
        self.interval_set = list_empty();
        assert(self@ =~= Set::<u16>::empty());
    }

    fn insert(&mut self, n: u16) {
        list_insert_point(&mut self.interval_set, n as u32);
        assert(self@ =~= old(self)@.insert(n));
    }

    fn remove(&mut self, n: u16) -> (was_present: bool) {
        let prev = self.contains(n);
        let to_remove = list_point(n as u32);
        self.interval_set = list_difference(&self.interval_set, &to_remove);
        assert(self@ =~= old(self)@.remove(n));
        prev
    }

    fn contains(&self, n: u16) -> (present: bool) {
        let bounds = list_bounds(&self.interval_set);
        let v = n as u32;
        let mut k: usize = 0;
        while k < bounds.len()
            invariant
                k <= bounds@.len(),
                v == n as u32,
                bounds_union(bounds@) == list_elems(self.interval_set),
                forall|j: int| 0 <= j < k ==> !(#[trigger] bounds@[j].0 <= v && v <= bounds@[j].1),
            decreases bounds@.len() - k,
        {
            let (lo, hi) = bounds[k];
            if lo <= v && hi >= v {
                assert(bounds@[k as int].0 <= v <= bounds@[k as int].1);
                assert(bounds_union(bounds@).contains(v));
                return true;
            }
            k = k + 1;
        }
        false
    }

    fn len(&self) -> (count: usize) {
        proof {
            lemma_narrow_u32_len(list_elems(self.interval_set));
        }
        list_size(&self.interval_set) as usize
    }

    fn iter(&self) -> (elems: Vec<u16>)
        ensures
            increasing(elems@),
    {
        let bounds = list_bounds(&self.interval_set);
        let mut elems: Vec<u16> = Vec::new();
        let mut k: usize = 0;
        while k < bounds.len()
            invariant
                k <= bounds@.len(),
                below_u32(list_elems(self.interval_set)),
                bounds_union(bounds@) == list_elems(self.interval_set),
                forall|j: int| 0 <= j < bounds@.len() ==> #[trigger] bounds@[j].0 <= bounds@[j].1,
                forall|j: int, l: int| 0 <= j < l < bounds@.len() ==> #[trigger] bounds@[j].1 < #[trigger] bounds@[l].0,
                increasing(elems@),
                forall|a: int| 0 <= a < elems@.len() ==> (k < bounds@.len() ==> (#[trigger] elems@[a] as u32) < bounds@[k as int].0),
                elems@.to_set() == narrow_u32(bounds_union(bounds@.take(k as int))),
            decreases bounds@.len() - k,
        {
            let (lo, hi) = bounds[k];
            proof {
                assert(bounds_union(bounds@).contains(hi));
                assert(hi < 65536);
            }
            let mut x: u32 = lo;
            while x <= hi
                invariant
                    k < bounds@.len(),
                    lo == bounds@[k as int].0,
                    hi == bounds@[k as int].1,
                    lo <= x <= hi + 1,
                    hi < 65536,
                    increasing(elems@),
                    forall|a: int| 0 <= a < elems@.len() ==> (#[trigger] elems@[a] as u32) < x,
                    elems@.to_set() == narrow_u32(bounds_union(bounds@.take(k as int))).union(
                        Set::new(|m: u16| lo <= m && (m as u32) < x),
                    ),
                decreases hi + 1 - x,
            {
                let ghost before = elems@;
                elems.push(x as u16);
                proof {
                    lemma_push_to_set(before, x as u16);
                    assert(elems@.to_set() =~= narrow_u32(bounds_union(bounds@.take(k as int))).union(
                        Set::new(|m: u16| lo <= m && (m as u32) < x + 1),
                    ));
                }
                x = x + 1;
            }
            proof {
                assert forall|m: u16| #[trigger] elems@.to_set().contains(m) == narrow_u32(bounds_union(bounds@.take(k + 1))).contains(m) by {
                    let t = bounds@.take(k + 1);
                    if lo <= m <= hi {
                        assert(t[k as int].0 <= m as u32 <= t[k as int].1);
                    }
                    if narrow_u32(bounds_union(bounds@.take(k as int))).contains(m) {
                        let j = choose|j: int| 0 <= j < k && #[trigger] bounds@.take(k as int)[j].0 <= m as u32 <= bounds@.take(k as int)[j].1;
                        assert(t[j].0 <= m as u32 <= t[j].1);
                    }
                    if bounds_union(t).contains(m as u32) {
                        let j = choose|j: int| 0 <= j < t.len() && #[trigger] t[j].0 <= m as u32 <= t[j].1;
                        if j < k {
                            assert(bounds@.take(k as int)[j].0 <= m as u32 <= bounds@.take(k as int)[j].1);
                        }
                    }
                }
                assert(elems@.to_set() =~= narrow_u32(bounds_union(bounds@.take(k + 1))));
            }
            k = k + 1;
        }
        proof {
            assert(bounds@.take(bounds@.len() as int) =~= bounds@);
            assert(elems@.to_set() =~= self@);
            crate::count::lemma_increasing_no_dup(elems@);
        }
        elems
    }

    fn union_with(&mut self, other: &Self) {
        self.interval_set = list_union(&self.interval_set, &other.interval_set);
        assert(self@ =~= old(self)@.union(other@));
    }

    fn intersection_with(&mut self, other: &Self) {
        self.interval_set = list_intersection(&self.interval_set, &other.interval_set);
        assert(self@ =~= old(self)@.intersect(other@));
    }

    fn difference_with(&mut self, other: &Self) {
        self.interval_set = list_difference(&self.interval_set, &other.interval_set);
        assert(self@ =~= old(self)@.difference(other@));
    }

    fn symmetric_difference_with(&mut self, other: &Self) {
        self.interval_set = list_symmetric_difference(&self.interval_set, &other.interval_set);
        assert(self@ =~= sym_diff(old(self)@, other@));
    }
}

impl SetIntConstruct for IntervalSet2 {
    fn new() -> (s: Self) {
        let s = IntervalSet2 { interval_set: list_empty() };
        assert(s@ =~= Set::<u16>::empty());
        s
    }

    fn with_capacity(_capacity: usize) -> (s: Self) {
        Self::new()
    }
}

} // verus!
