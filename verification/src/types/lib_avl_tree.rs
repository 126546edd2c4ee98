//! A set held in an `AvlTreeSet` of the `avl` crate, a balanced binary
//! search tree.

use avl::AvlTreeSet;
use vstd::prelude::*;
use crate::set_int::{increasing, sym_diff, SetInt, SetIntConstruct};

verus! {

#[verifier::external_type_specification]
#[verifier::external_body]
#[verifier::reject_recursive_types(T)]
pub struct ExAvlTreeSet<T>(AvlTreeSet<T>);

/// The integers that an AVL tree set holds.
pub uninterp spec fn avl_elems(s: AvlTreeSet<u16>) -> Set<u16>;

/// `AvlTreeSet::new`: an empty set.
#[verifier::external_body]
fn avl_new() -> (s: AvlTreeSet<u16>)
    ensures
        avl_elems(s) == Set::<u16>::empty(),
{
    AvlTreeSet::new()
}

/// `AvlTreeSet::clear`: takes every integer out.
#[verifier::external_body]
fn avl_clear(s: &mut AvlTreeSet<u16>)
    ensures
        avl_elems(*final(s)) == Set::<u16>::empty(),
{
    s.clear()
}

/// `AvlTreeSet::insert`: adds `value`; tells whether it was absent.
#[verifier::external_body]
fn avl_insert(s: &mut AvlTreeSet<u16>, value: u16) -> (absent: bool)
    ensures
        avl_elems(*final(s)) == avl_elems(*old(s)).insert(value),
        absent == !avl_elems(*old(s)).contains(value),
{
    s.insert(value)
}

/// `AvlTreeSet::remove`: takes `value` out; tells whether it was there.
#[verifier::external_body]
fn avl_remove(s: &mut AvlTreeSet<u16>, value: u16) -> (present: bool)
    ensures
        avl_elems(*final(s)) == avl_elems(*old(s)).remove(value),
        present == avl_elems(*old(s)).contains(value),
{
    s.remove(&value)
}

/// `AvlTreeSet::contains`: whether `value` belongs to the set.
#[verifier::external_body]
fn avl_contains(s: &AvlTreeSet<u16>, value: u16) -> (present: bool)
    ensures
        present == avl_elems(*s).contains(value),
{
    s.contains(&value)
}

/// `AvlTreeSet::len`: the number of integers held.
#[verifier::external_body]
fn avl_len(s: &AvlTreeSet<u16>) -> (count: usize)
    ensures
        count == avl_elems(*s).len(),
{
    s.len()
}

/// `AvlTreeSet::iter`, collected: every integer held, in increasing
/// order.
#[verifier::external_body]
fn avl_values(s: &AvlTreeSet<u16>) -> (values: Vec<u16>)
    ensures
        values@.to_set() == avl_elems(*s),
        forall|i: int, j: int| 0 <= i < j < values@.len() ==> values@[i] < values@[j],
{
    s.iter().copied().collect()
}

/// `AvlTreeSet::union`, collected into a new set.
#[verifier::external_body]
fn avl_union(a: &AvlTreeSet<u16>, b: &AvlTreeSet<u16>) -> (r: AvlTreeSet<u16>)
    ensures
        avl_elems(r) == avl_elems(*a).union(avl_elems(*b)),
{
    a.union(b).copied().collect()
}

/// `AvlTreeSet::intersection`, collected into a new set.
#[verifier::external_body]
fn avl_intersection(a: &AvlTreeSet<u16>, b: &AvlTreeSet<u16>) -> (r: AvlTreeSet<u16>)
    ensures
        avl_elems(r) == avl_elems(*a).intersect(avl_elems(*b)),
{
    a.intersection(b).copied().collect()
}

/// `AvlTreeSet::difference`, collected into a new set.
#[verifier::external_body]
fn avl_difference(a: &AvlTreeSet<u16>, b: &AvlTreeSet<u16>) -> (r: AvlTreeSet<u16>)
    ensures
        avl_elems(r) == avl_elems(*a).difference(avl_elems(*b)),
{
    a.difference(b).copied().collect()
}

/// `AvlTreeSet::symmetric_difference`, collected into a new set.
#[verifier::external_body]
fn avl_symmetric_difference(a: &AvlTreeSet<u16>, b: &AvlTreeSet<u16>) -> (r: AvlTreeSet<u16>)
    ensures
        avl_elems(r) == avl_elems(*a).difference(avl_elems(*b)).union(
            avl_elems(*b).difference(avl_elems(*a)),
        ),
{
    a.symmetric_difference(b).copied().collect()
}

/// The elements, in an AVL tree.
pub struct LibAvlTree {
    tree_set: AvlTreeSet<u16>,
}

impl SetInt for LibAvlTree {
    closed spec fn view(&self) -> Set<u16> {
        avl_elems(self.tree_set)
    }

    closed spec fn wf(&self) -> bool {
        true
    }

    fn clear(&mut self) {
        avl_clear(&mut self.tree_set);
    }

    fn insert(&mut self, n: u16) {
        avl_insert(&mut self.tree_set, n);
    }

    fn remove(&mut self, n: u16) -> (was_present: bool) {
        avl_remove(&mut self.tree_set, n)
    }

    fn contains(&self, n: u16) -> (present: bool) {
        avl_contains(&self.tree_set, n)
    }

    fn len(&self) -> (count: usize) {
        avl_len(&self.tree_set)
    }

    fn iter(&self) -> (elems: Vec<u16>)
        ensures
            increasing(elems@),
    {
        let v = avl_values(&self.tree_set);
        proof {
            crate::count::lemma_increasing_no_dup(v@);
        }
        v
    }

    fn union_with(&mut self, other: &Self) {
        self.tree_set = avl_union(&self.tree_set, &other.tree_set);
    }

    fn intersection_with(&mut self, other: &Self) {
        self.tree_set = avl_intersection(&self.tree_set, &other.tree_set);
    }

    fn difference_with(&mut self, other: &Self) {
        self.tree_set = avl_difference(&self.tree_set, &other.tree_set);
    }

    fn symmetric_difference_with(&mut self, other: &Self) {
        self.tree_set = avl_symmetric_difference(&self.tree_set, &other.tree_set);
    }
}

impl SetIntConstruct for LibAvlTree {
    fn new() -> (s: Self) {
        LibAvlTree { tree_set: avl_new() }
    }

    fn with_capacity(_capacity: usize) -> (s: Self) {
        Self::new()
    }
}

} // verus!
