//! A set held as disjoint ranges in a `RangeSetBlaze` of the
//! `range-set-blaze` crate.

use range_set_blaze::RangeSetBlaze;
use vstd::prelude::*;
use crate::count::lemma_u16_set_len_bound;
use crate::set_int::{increasing, sym_diff, SetInt, SetIntConstruct};

verus! {

/// A range set of `u16` of the `range-set-blaze` crate, which Verus sees
/// only through the functions below (Verus does not take a declaration of
/// it with the crate's integer trait as a bound).
#[verifier::external_body]
pub struct BlazeSet {
    inner: RangeSetBlaze<u16>,
}

/// The integers that a range set holds.
pub uninterp spec fn blaze_elems(s: BlazeSet) -> Set<u16>;

/// `RangeSetBlaze::new`: an empty set.
#[verifier::external_body]
fn blaze_new() -> (s: BlazeSet)
    ensures
        blaze_elems(s) == Set::<u16>::empty(),
{
    BlazeSet { inner: RangeSetBlaze::new() }
}

/// `RangeSetBlaze::clear`: takes every integer out.
#[verifier::external_body]
fn blaze_clear(s: &mut BlazeSet)
    ensures
        blaze_elems(*final(s)) == Set::<u16>::empty(),
{
    s.inner.clear()
}

/// `RangeSetBlaze::insert`: adds `value`; tells whether it was absent.
#[verifier::external_body]
fn blaze_insert(s: &mut BlazeSet, value: u16) -> (absent: bool)
    ensures
        blaze_elems(*final(s)) == blaze_elems(*old(s)).insert(value),
        absent == !blaze_elems(*old(s)).contains(value),
{
    s.inner.insert(value)
}

/// `RangeSetBlaze::remove`: takes `value` out; tells whether it was there.
#[verifier::external_body]
fn blaze_remove(s: &mut BlazeSet, value: u16) -> (present: bool)
    ensures
        blaze_elems(*final(s)) == blaze_elems(*old(s)).remove(value),
        present == blaze_elems(*old(s)).contains(value),
{
    s.inner.remove(value)
}

/// `RangeSetBlaze::contains`: whether `value` belongs to the set.
#[verifier::external_body]
fn blaze_contains(s: &BlazeSet, value: u16) -> (present: bool)
    ensures
        present == blaze_elems(*s).contains(value),
{
    s.inner.contains(value)
}

/// `RangeSetBlaze::len`: the number of integers held.
#[verifier::external_body]
fn blaze_len(s: &BlazeSet) -> (count: u32)
    ensures
        count == blaze_elems(*s).len(),
{
    s.inner.len()
}

/// `RangeSetBlaze::iter`, collected: every integer held, in increasing
/// order.
#[verifier::external_body]
fn blaze_values(s: &BlazeSet) -> (values: Vec<u16>)
    ensures
        values@.to_set() == blaze_elems(*s),
        forall|i: int, j: int| 0 <= i < j < values@.len() ==> values@[i] < values@[j],
{
    s.inner.iter().collect()
}

/// `&RangeSetBlaze | &RangeSetBlaze`: the union.
#[verifier::external_body]
fn blaze_union(a: &BlazeSet, b: &BlazeSet) -> (r: BlazeSet)
    ensures
        blaze_elems(r) == blaze_elems(*a).union(blaze_elems(*b)),
{
    BlazeSet { inner: &a.inner | &b.inner }
}

/// `&RangeSetBlaze & &RangeSetBlaze`: the intersection.
#[verifier::external_body]
fn blaze_intersection(a: &BlazeSet, b: &BlazeSet) -> (r: BlazeSet)
    ensures
        blaze_elems(r) == blaze_elems(*a).intersect(blaze_elems(*b)),
{
    BlazeSet { inner: &a.inner & &b.inner }
}

/// `&RangeSetBlaze - &RangeSetBlaze`: the difference.
#[verifier::external_body]
fn blaze_difference(a: &BlazeSet, b: &BlazeSet) -> (r: BlazeSet)
    ensures
        blaze_elems(r) == blaze_elems(*a).difference(blaze_elems(*b)),
{
    BlazeSet { inner: &a.inner - &b.inner }
}

/// `&RangeSetBlaze ^ &RangeSetBlaze`: the symmetric difference.
#[verifier::external_body]
fn blaze_symmetric_difference(a: &BlazeSet, b: &BlazeSet) -> (r: BlazeSet)
    ensures
        blaze_elems(r) == blaze_elems(*a).difference(blaze_elems(*b)).union(
            blaze_elems(*b).difference(blaze_elems(*a)),
        ),
{
    BlazeSet { inner: &a.inner ^ &b.inner }
}

/// The elements, as disjoint ranges in a range set.
pub struct LibRangeSetBlaze {
    set: BlazeSet,
}

impl SetInt for LibRangeSetBlaze {
    closed spec fn view(&self) -> Set<u16> {
        blaze_elems(self.set)
    }

    closed spec fn wf(&self) -> bool {
        true
    }

    fn clear(&mut self) {
        blaze_clear(&mut self.set);
    }

    fn insert(&mut self, n: u16) {
        blaze_insert(&mut self.set, n);
    }

    fn remove(&mut self, n: u16) -> (was_present: bool) {
        blaze_remove(&mut self.set, n)
    }

    fn contains(&self, n: u16) -> (present: bool) {
        blaze_contains(&self.set, n)
    }

    fn len(&self) -> (count: usize) {
        let c = blaze_len(&self.set);
        proof {
            lemma_u16_set_len_bound(self@);
        }
        c as usize
    }

    fn iter(&self) -> (elems: Vec<u16>)
        ensures
            increasing(elems@),
    {
        let v = blaze_values(&self.set);
        proof {
            crate::count::lemma_increasing_no_dup(v@);
        }
        v
    }

    fn union_with(&mut self, other: &Self) {
        self.set = blaze_union(&self.set, &other.set);
    }

    fn intersection_with(&mut self, other: &Self) {
        self.set = blaze_intersection(&self.set, &other.set);
    }

    fn difference_with(&mut self, other: &Self) {
        self.set = blaze_difference(&self.set, &other.set);
    }

    fn symmetric_difference_with(&mut self, other: &Self) {
        self.set = blaze_symmetric_difference(&self.set, &other.set);
    }
}

impl SetIntConstruct for LibRangeSetBlaze {
    fn new() -> (s: Self) {
        LibRangeSetBlaze { set: blaze_new() }
    }

    fn with_capacity(_capacity: usize) -> (s: Self) {
        Self::new()
    }
}

} // verus!
