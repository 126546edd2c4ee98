//! Sets held in the hash set of the `rustc-hash` crate: the standard
//! library's `HashSet` with the Fx hasher.

use rustc_hash::{FxBuildHasher, FxHashSet};
use std::collections::HashSet;
use vstd::prelude::*;
use crate::count::lemma_push_to_set;
use crate::set_int::{sym_diff, SetInt, SetIntConstruct};
use crate::types::std_tree_set::vec_contains;

verus! {

#[verifier::external_type_specification]
#[verifier::external_body]
pub struct ExFxBuildHasher(FxBuildHasher);

/// `FxHashSet::default`: an empty set.
#[verifier::external_body]
fn fx_new() -> (s: HashSet<u16, FxBuildHasher>)
    ensures
        s@ == Set::<u16>::empty(),
{
    FxHashSet::default()
}

/// `HashSet::clear`: takes every element out.
#[verifier::external_body]
fn fx_clear(s: &mut HashSet<u16, FxBuildHasher>)
    ensures
        final(s)@ == Set::<u16>::empty(),
{
    s.clear()
}

/// `HashSet::insert`: adds `n`; tells whether it was absent.
#[verifier::external_body]
fn fx_insert(s: &mut HashSet<u16, FxBuildHasher>, n: u16) -> (absent: bool)
    ensures
        final(s)@ == old(s)@.insert(n),
        absent == !old(s)@.contains(n),
{
    s.insert(n)
}

/// `HashSet::remove`: takes `n` out; tells whether it was there.
#[verifier::external_body]
fn fx_remove(s: &mut HashSet<u16, FxBuildHasher>, n: u16) -> (present: bool)
    ensures
        final(s)@ == old(s)@.remove(n),
        present == old(s)@.contains(n),
{
    s.remove(&n)
}

/// `HashSet::contains`: whether `n` belongs to the set.
#[verifier::external_body]
fn fx_contains(s: &HashSet<u16, FxBuildHasher>, n: u16) -> (present: bool)
    ensures
        present == s@.contains(n),
{
    s.contains(&n)
}

/// `HashSet::len`: the number of elements.
#[verifier::external_body]
fn fx_len(s: &HashSet<u16, FxBuildHasher>) -> (count: usize)
    ensures
        count == s@.len(),
{
    s.len()
}

/// `HashSet::iter`, collected: each element once, in the order of the
/// table.
#[verifier::external_body]
fn fx_elems(s: &HashSet<u16, FxBuildHasher>) -> (v: Vec<u16>)
    ensures
        v@.to_set() == s@,
        v@.no_duplicates(),
{
    s.iter().copied().collect()
}

/// `HashSet::union`, collected into a new set.
#[verifier::external_body]
fn fx_union(a: &HashSet<u16, FxBuildHasher>, b: &HashSet<u16, FxBuildHasher>) -> (r: HashSet<u16, FxBuildHasher>)
    ensures
        r@ == a@.union(b@),
{
    a.union(b).copied().collect()
}

/// `HashSet::intersection`, collected into a new set.
#[verifier::external_body]
fn fx_intersection(a: &HashSet<u16, FxBuildHasher>, b: &HashSet<u16, FxBuildHasher>) -> (r: HashSet<u16, FxBuildHasher>)
    ensures
        r@ == a@.intersect(b@),
{
    a.intersection(b).copied().collect()
}

/// `HashSet::difference`, collected into a new set.
#[verifier::external_body]
fn fx_difference(a: &HashSet<u16, FxBuildHasher>, b: &HashSet<u16, FxBuildHasher>) -> (r: HashSet<u16, FxBuildHasher>)
    ensures
        r@ == a@.difference(b@),
{
    a.difference(b).copied().collect()
}

/// `HashSet::symmetric_difference`, collected into a new set.
#[verifier::external_body]
fn fx_symmetric_difference(a: &HashSet<u16, FxBuildHasher>, b: &HashSet<u16, FxBuildHasher>) -> (r: HashSet<u16, FxBuildHasher>)
    ensures
        r@ == a@.difference(b@).union(b@.difference(a@)),
{
    a.symmetric_difference(b).copied().collect()
}

/// The elements, in an Fx hash set, combined element by element.
pub struct LibFxHashSet {
    hash_set: HashSet<u16, FxBuildHasher>,
}

impl SetInt for LibFxHashSet {
    closed spec fn view(&self) -> Set<u16> {
        self.hash_set@
    }

    closed spec fn wf(&self) -> bool {
        true
    }

    fn clear(&mut self) {
        fx_clear(&mut self.hash_set);
    }

    fn insert(&mut self, n: u16) {
        fx_insert(&mut self.hash_set, n);
    }

    fn remove(&mut self, n: u16) -> (was_present: bool) {
        fx_remove(&mut self.hash_set, n)
    }

    fn contains(&self, n: u16) -> (present: bool) {
        fx_contains(&self.hash_set, n)
    }

    fn len(&self) -> (count: usize) {
        fx_len(&self.hash_set)
    }

    fn iter(&self) -> (elems: Vec<u16>) {
        fx_elems(&self.hash_set)
    }

    fn union_with(&mut self, other: &Self) {
        let items = other.iter();
        let mut i: usize = 0;
        while i < items.len()
            invariant
                i <= items@.len(),
                self@ == old(self)@.union(items@.take(i as int).to_set()),
            decreases items@.len() - i,
        {
            let item = items[i];
            self.insert(item);
            proof {
                assert(items@.take(i + 1) =~= items@.take(i as int).push(item));
                lemma_push_to_set(items@.take(i as int), item);
            }
            i = i + 1;
            assert(self@ =~= old(self)@.union(items@.take(i as int).to_set()));
        }
        assert(items@.take(items@.len() as int) =~= items@);
    }

    fn intersection_with(&mut self, other: &Self) {
        let items = self.iter();
        let mut i: usize = 0;
        while i < items.len()
            invariant
                i <= items@.len(),
                items@.to_set() == old(self)@,
                self@ == old(self)@.difference(items@.take(i as int).to_set().difference(other@)),
            decreases items@.len() - i,
        {
            let item = items[i];
            if !other.contains(item) {
                self.remove(item);
            }
            proof {
                assert(items@.take(i + 1) =~= items@.take(i as int).push(item));
                lemma_push_to_set(items@.take(i as int), item);
            }
            i = i + 1;
            assert(self@ =~= old(self)@.difference(items@.take(i as int).to_set().difference(other@)));
        }
        assert(items@.take(items@.len() as int) =~= items@);
        assert(self@ =~= old(self)@.intersect(other@));
    }

    fn difference_with(&mut self, other: &Self) {
        let items = other.iter();
        let mut i: usize = 0;
        while i < items.len()
            invariant
                i <= items@.len(),
                self@ == old(self)@.difference(items@.take(i as int).to_set()),
            decreases items@.len() - i,
        {
            let item = items[i];
            self.remove(item);
            proof {
                assert(items@.take(i + 1) =~= items@.take(i as int).push(item));
                lemma_push_to_set(items@.take(i as int), item);
            }
            i = i + 1;
            assert(self@ =~= old(self)@.difference(items@.take(i as int).to_set()));
        }
        assert(items@.take(items@.len() as int) =~= items@);
    }

    fn symmetric_difference_with(&mut self, other: &Self) {
        let self_items = self.iter();
        let other_items = other.iter();
        let mut i: usize = 0;
        while i < self_items.len()
            invariant
                i <= self_items@.len(),
                self_items@.to_set() == old(self)@,
                self@ == old(self)@.difference(self_items@.take(i as int).to_set().intersect(other@)),
            decreases self_items@.len() - i,
        {
            let item = self_items[i];
            if other.contains(item) {
                self.remove(item);
            }
            proof {
                assert(self_items@.take(i + 1) =~= self_items@.take(i as int).push(item));
                lemma_push_to_set(self_items@.take(i as int), item);
            }
            i = i + 1;
            assert(self@ =~= old(self)@.difference(self_items@.take(i as int).to_set().intersect(other@)));
        }
        assert(self_items@.take(self_items@.len() as int) =~= self_items@);
        let mut j: usize = 0;
        while j < other_items.len()
            invariant
                j <= other_items@.len(),
                self_items@.to_set() == old(self)@,
                other_items@.to_set() == other@,
                self@ == old(self)@.difference(other@).union(other_items@.take(j as int).to_set().difference(old(self)@)),
            decreases other_items@.len() - j,
        {
            let item = other_items[j];
            if !vec_contains(&self_items, item) {
                self.insert(item);
            }
            proof {
                assert(other_items@.take(j + 1) =~= other_items@.take(j as int).push(item));
                lemma_push_to_set(other_items@.take(j as int), item);
            }
            j = j + 1;
            assert(self@ =~= old(self)@.difference(other@).union(other_items@.take(j as int).to_set().difference(old(self)@)));
        }
        assert(other_items@.take(other_items@.len() as int) =~= other_items@);
        assert(self@ =~= sym_diff(old(self)@, other@));
    }
}

impl SetIntConstruct for LibFxHashSet {
    fn new() -> (s: Self) {
        LibFxHashSet { hash_set: fx_new() }
    }

    fn with_capacity(_capacity: usize) -> (s: Self) {
        LibFxHashSet { hash_set: fx_new() }
    }
}

/// The elements, in an Fx hash set, combined by the set operations of the
/// standard library.
pub struct LibFxHashSetDefaultFunc {
    hash_set: HashSet<u16, FxBuildHasher>,
}

impl SetInt for LibFxHashSetDefaultFunc {
    closed spec fn view(&self) -> Set<u16> {
        self.hash_set@
    }

    closed spec fn wf(&self) -> bool {
        true
    }

    fn clear(&mut self) {
        fx_clear(&mut self.hash_set);
    }

    fn insert(&mut self, n: u16) {
        fx_insert(&mut self.hash_set, n);
    }

    fn remove(&mut self, n: u16) -> (was_present: bool) {
        fx_remove(&mut self.hash_set, n)
    }

    fn contains(&self, n: u16) -> (present: bool) {
        fx_contains(&self.hash_set, n)
    }

    fn len(&self) -> (count: usize) {
        fx_len(&self.hash_set)
    }

    fn iter(&self) -> (elems: Vec<u16>) {
        fx_elems(&self.hash_set)
    }

    fn union_with(&mut self, other: &Self) {
        self.hash_set = fx_union(&self.hash_set, &other.hash_set);
    }

    fn intersection_with(&mut self, other: &Self) {
        self.hash_set = fx_intersection(&self.hash_set, &other.hash_set);
    }

    fn difference_with(&mut self, other: &Self) {
        self.hash_set = fx_difference(&self.hash_set, &other.hash_set);
    }

    fn symmetric_difference_with(&mut self, other: &Self) {
        self.hash_set = fx_symmetric_difference(&self.hash_set, &other.hash_set);
    }
}

impl SetIntConstruct for LibFxHashSetDefaultFunc {
    fn new() -> (s: Self) {
        LibFxHashSetDefaultFunc { hash_set: fx_new() }
    }

    fn with_capacity(_capacity: usize) -> (s: Self) {
        LibFxHashSetDefaultFunc { hash_set: fx_new() }
    }
}

} // verus!
