//! A set held as an interval set of the `rust_intervals` crate, which joins
//! intervals that touch.

use vstd::prelude::*;
use vstd::seq_lib::lemma_no_dup_in_concat;
use crate::count::{lemma_no_dup_len, lemma_push_to_set};
use crate::set_int::{increasing, sym_diff, SetInt, SetIntConstruct};
use crate::types::std_tree_set::vec_contains;

verus! {

/// An interval of `u16` of the `rust_intervals` crate, held whole behind
/// this struct: its name is the same as this library's own `Interval`, so
/// the type is reached only through the functions below.
#[verifier::external_body]
pub struct Span {
    inner: rust_intervals::Interval<u16>,
}

/// An interval set of `u16` of the `rust_intervals` crate, joining touching
/// intervals, which Verus sees only through the functions below (Verus does
/// not take a declaration of it with the crate's policy trait as a bound).
#[verifier::external_body]
pub struct JoinedIntervals {
    inner: rust_intervals::IntervalSet<u16>,
}

/// The integers that an interval set holds.
pub uninterp spec fn joined_elems(s: JoinedIntervals) -> Set<u16>;

/// The integers of an interval.
pub uninterp spec fn interval_elems(i: Span) -> Set<u16>;

/// The integers of a list of intervals.
pub open spec fn intervals_union(list: Seq<Span>) -> Set<u16>
    decreases list.len(),
{
    if list.len() == 0 {
        Set::empty()
    } else {
        intervals_union(list.drop_last()).union(interval_elems(list.last()))
    }
}

/// `IntervalSet::empty`: no interval.
#[verifier::external_body]
fn joined_empty() -> (s: JoinedIntervals)
    ensures
        joined_elems(s) == Set::<u16>::empty(),
{
    JoinedIntervals { inner: rust_intervals::IntervalSet::empty() }
}

/// `IntervalSet::clear`: removes every interval.
#[verifier::external_body]
fn joined_clear(s: &mut JoinedIntervals)
    ensures
        joined_elems(*final(s)) == Set::<u16>::empty(),
{
    s.inner.clear()
}

/// `Interval::new_single`: the interval of `value` alone.
#[verifier::external_body]
fn interval_single(value: u16) -> (i: Span)
    ensures
        interval_elems(i) == Set::<u16>::empty().insert(value),
{
    Span { inner: rust_intervals::Interval::new_single(value) }
}

/// `IntervalSet::add`: adds the integers of `i`.
#[verifier::external_body]
fn joined_add(s: &mut JoinedIntervals, i: &Span)
    ensures
        joined_elems(*final(s)) == joined_elems(*old(s)).union(interval_elems(*i)),
{
    s.inner.add(i.inner)
}

/// `IntervalSet::remove`: takes `value` out.
#[verifier::external_body]
fn joined_remove(s: &mut JoinedIntervals, value: u16)
    ensures
        joined_elems(*final(s)) == joined_elems(*old(s)).remove(value),
{
    s.inner.remove(value)
}

/// `IntervalSet::remove_interval`: takes the integers of `i` out.
#[verifier::external_body]
fn joined_remove_interval(s: &mut JoinedIntervals, i: &Span)
    ensures
        joined_elems(*final(s)) == joined_elems(*old(s)).difference(interval_elems(*i)),
{
    s.inner.remove_interval(i.inner)
}

/// `IntervalSet::contains`: whether `value` lies in one of the intervals.
#[verifier::external_body]
fn joined_contains(s: &JoinedIntervals, value: u16) -> (present: bool)
    ensures
        present == joined_elems(*s).contains(value),
{
    s.inner.contains(value)
}

/// `IntervalSet::iter`, copied: the intervals, which cover the set, in
/// increasing order and without overlap (the set is a sorted list of
/// non-overlapping intervals, and touching intervals are joined).
#[verifier::external_body]
fn joined_intervals(s: &JoinedIntervals) -> (list: Vec<Span>)
    ensures
        intervals_union(list@) == joined_elems(*s),
        forall|i: int, j: int|
            0 <= i < j < list@.len() ==> interval_elems(list@[i]).disjoint(
                interval_elems(list@[j]),
            ),
        forall|i: int, j: int, x: u16, y: u16|
            0 <= i < j < list@.len() && #[trigger] interval_elems(list@[i]).contains(x)
                && #[trigger] interval_elems(list@[j]).contains(y) ==> x < y,
{
    s.inner.iter().map(|i| Span { inner: *i }).collect()
}

/// `IntervalSet::intersection_set`: the integers both sets hold.
#[verifier::external_body]
fn joined_intersection_set(a: &JoinedIntervals, b: &JoinedIntervals) -> (r: JoinedIntervals)
    ensures
        joined_elems(r) == joined_elems(*a).intersect(joined_elems(*b)),
{
    JoinedIntervals { inner: a.inner.intersection_set(&b.inner) }
}

/// `Interval::iter`, collected: the integers of `i` in increasing order.
#[verifier::external_body]
fn interval_values(i: &Span) -> (values: Vec<u16>)
    ensures
        values@.to_set() == interval_elems(*i),
        values@.no_duplicates(),
        increasing(values@),
{
    i.inner.iter().collect()
}

proof fn lemma_union_take(list: Seq<Span>, k: int)
    requires
        0 <= k < list.len(),
    ensures
        intervals_union(list.take(k + 1)) == intervals_union(list.take(k)).union(
            interval_elems(list[k]),
        ),
{
    assert(list.take(k + 1).drop_last() =~= list.take(k));
}

proof fn lemma_union_member(list: Seq<Span>, x: u16)
    requires
        intervals_union(list).contains(x),
    ensures
        exists|k: int| 0 <= k < list.len() && interval_elems(#[trigger] list[k]).contains(x),
    decreases list.len(),
{
    if interval_elems(list.last()).contains(x) {
        assert(interval_elems(list[list.len() - 1]).contains(x));
    } else {
        lemma_union_member(list.drop_last(), x);
        let k = choose|k: int| 0 <= k < list.drop_last().len() && interval_elems(#[trigger] list.drop_last()[k]).contains(x);
        assert(list[k] == list.drop_last()[k]);
    }
}

/// The elements, as intervals that touch no other.
pub struct LibInterval {
    interval_set: JoinedIntervals,
}

impl SetInt for LibInterval {
    closed spec fn view(&self) -> Set<u16> {
        joined_elems(self.interval_set)
    }

    closed spec fn wf(&self) -> bool {
        true
    }

    fn clear(&mut self) {
        joined_clear(&mut self.interval_set);
    }

    fn insert(&mut self, n: u16) {
        let single = interval_single(n);
        joined_add(&mut self.interval_set, &single);
        assert(self@ =~= old(self)@.insert(n));
    }

    fn remove(&mut self, n: u16) -> (was_present: bool) {
        let was_present = self.contains(n);
        joined_remove(&mut self.interval_set, n);
        was_present
    }

    fn contains(&self, n: u16) -> (present: bool) {
        joined_contains(&self.interval_set, n)
    }

    fn len(&self) -> (count: usize) {
        let elems = self.iter();
        proof {
            lemma_no_dup_len(elems@);
        }
        elems.len()
    }

    fn iter(&self) -> (elems: Vec<u16>)
        ensures
            increasing(elems@),
    {
        let list = joined_intervals(&self.interval_set);
        let mut elems: Vec<u16> = Vec::new();
        let mut k: usize = 0;
        while k < list.len()
            invariant
                k <= list@.len(),
                forall|i: int, j: int|
                    0 <= i < j < list@.len() ==> interval_elems(list@[i]).disjoint(
                        interval_elems(list@[j]),
                    ),
                forall|i: int, j: int, x: u16, y: u16|
                    0 <= i < j < list@.len() && #[trigger] interval_elems(list@[i]).contains(x)
                        && #[trigger] interval_elems(list@[j]).contains(y) ==> x < y,
                elems@.to_set() == intervals_union(list@.take(k as int)),
                elems@.no_duplicates(),
                increasing(elems@),
                forall|a: int, j: int, y: u16|
                    0 <= a < elems@.len() && k <= j < list@.len()
                        && #[trigger] interval_elems(list@[j]).contains(y) ==> #[trigger] elems@[a] < y,
            decreases list@.len() - k,
        {
            let mut values = interval_values(&list[k]);
            let ghost before = elems@;
            let ghost added = values@;
            proof {
                lemma_union_take(list@, k as int);
                assert forall|a: int, b: int| 0 <= a < before.len() && 0 <= b < added.len() implies before[a] != added[b] by {
                    assert(before.to_set().contains(before[a]));
                    assert(added.to_set().contains(added[b]));
                    if before[a] == added[b] {
                        lemma_union_member(list@.take(k as int), before[a]);
                        let m = choose|m: int| 0 <= m < k && interval_elems(#[trigger] list@.take(k as int)[m]).contains(before[a]);
                        assert(list@.take(k as int)[m] == list@[m]);
                        assert(interval_elems(list@[m]).disjoint(interval_elems(list@[k as int])));
                    }
                }
                lemma_no_dup_in_concat(before, added);
            }
            elems.append(&mut values);
            proof {
                assert(elems@ == before + added);
                assert forall|x: u16| #[trigger] elems@.to_set().contains(x) == (before.to_set().contains(x) || added.to_set().contains(x)) by {
                    if elems@.to_set().contains(x) {
                        let i = choose|i: int| 0 <= i < elems@.len() && elems@[i] == x;
                        if i < before.len() {
                            assert(before[i] == x);
                        } else {
                            assert(added[i - before.len()] == x);
                        }
                    }
                    if before.to_set().contains(x) {
                        let i = choose|i: int| 0 <= i < before.len() && before[i] == x;
                        assert(elems@[i] == x);
                    }
                    if added.to_set().contains(x) {
                        let i = choose|i: int| 0 <= i < added.len() && added[i] == x;
                        assert(elems@[before.len() + i] == x);
                    }
                }
                assert(elems@.to_set() =~= intervals_union(list@.take(k + 1)));
                assert forall|a: int, b: int| 0 <= a < b < elems@.len() implies elems@[a] < elems@[b] by {
                    if b < before.len() {
                        assert(before[a] < before[b]);
                    } else if a < before.len() {
                        assert(added.to_set().contains(added[b - before.len()]));
                        assert(interval_elems(list@[k as int]).contains(elems@[b]));
                    } else {
                        assert(added[a - before.len()] < added[b - before.len()]);
                    }
                }
                assert forall|a: int, j: int, y: u16|
                    0 <= a < elems@.len() && k + 1 <= j < list@.len()
                        && #[trigger] interval_elems(list@[j]).contains(y) implies #[trigger] elems@[a] < y by {
                    if a < before.len() {
                        assert(before[a] == elems@[a]);
                    } else {
                        assert(added.to_set().contains(added[a - before.len()]));
                        assert(interval_elems(list@[k as int]).contains(elems@[a]));
                    }
                }
            }
            k = k + 1;
        }
        assert(list@.take(list@.len() as int) =~= list@);
        elems
    }

    fn union_with(&mut self, other: &Self) {
        let list = joined_intervals(&other.interval_set);
        let mut k: usize = 0;
        while k < list.len()
            invariant
                k <= list@.len(),
                self@ == old(self)@.union(intervals_union(list@.take(k as int))),
            decreases list@.len() - k,
        {
            proof {
                lemma_union_take(list@, k as int);
            }
            joined_add(&mut self.interval_set, &list[k]);
            k = k + 1;
            assert(self@ =~= old(self)@.union(intervals_union(list@.take(k as int))));
        }
        assert(list@.take(list@.len() as int) =~= list@);
    }

    fn intersection_with(&mut self, other: &Self) {
        self.interval_set = joined_intersection_set(&self.interval_set, &other.interval_set);
    }

    fn difference_with(&mut self, other: &Self) {
        let list = joined_intervals(&other.interval_set);
        let mut k: usize = 0;
        while k < list.len()
            invariant
                k <= list@.len(),
                self@ == old(self)@.difference(intervals_union(list@.take(k as int))),
            decreases list@.len() - k,
        {
            proof {
                lemma_union_take(list@, k as int);
            }
            joined_remove_interval(&mut self.interval_set, &list[k]);
            k = k + 1;
            assert(self@ =~= old(self)@.difference(intervals_union(list@.take(k as int))));
        }
        assert(list@.take(list@.len() as int) =~= list@);
    }

    fn symmetric_difference_with(&mut self, other: &Self) {
        let self_items = self.iter();
        let other_items = other.iter();
        self.clear();
        let mut i: usize = 0;
        while i < self_items.len()
            invariant
                i <= self_items@.len(),
                self_items@.to_set() == old(self)@,
                self@ == self_items@.take(i as int).to_set().difference(other@),
            decreases self_items@.len() - i,
        {
            let item = self_items[i];
            if !other.contains(item) {
                self.insert(item);
            }
            proof {
                assert(self_items@.take(i + 1) =~= self_items@.take(i as int).push(item));
                lemma_push_to_set(self_items@.take(i as int), item);
            }
            i = i + 1;
            assert(self@ =~= self_items@.take(i as int).to_set().difference(other@));
        }
        assert(self_items@.take(self_items@.len() as int) =~= self_items@);
        let mut j: usize = 0;
        while j < other_items.len()
            invariant
                j <= other_items@.len(),
                self_items@.to_set() == old(self)@,
                other_items@.to_set() == other@,
                self@ == old(self)@.difference(other@).union(
                    other_items@.take(j as int).to_set().difference(old(self)@),
                ),
            decreases other_items@.len() - j,
        {
            let item = other_items[j];
            if !vec_contains(&self_items, item) {
                self.insert(item);
            }
            proof {
                assert(other_items@.take(j + 1) =~= other_items@.take(j as int).push(item));
                lemma_push_to_set(other_items@.take(j as int), item);
            }
            j = j + 1;
            assert(self@ =~= old(self)@.difference(other@).union(
                other_items@.take(j as int).to_set().difference(old(self)@),
            ));
        }
        assert(other_items@.take(other_items@.len() as int) =~= other_items@);
        assert(self@ =~= sym_diff(old(self)@, other@));
    }
}

impl SetIntConstruct for LibInterval {
    fn new() -> (s: Self) {
        LibInterval { interval_set: joined_empty() }
    }

    fn with_capacity(_capacity: usize) -> (s: Self) {
        LibInterval { interval_set: joined_empty() }
    }
}

} // verus!
