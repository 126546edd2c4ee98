//! A set held in the standard library's ordered tree set.

use std::collections::BTreeSet;
use vstd::prelude::*;
use vstd::std_specs::iter::IteratorSpec;
use vstd::std_specs::cmp::OrdSpec;
use crate::count::lemma_push_to_set;
use crate::set_int::{increasing, sym_diff, SetInt, SetIntConstruct};

verus! {

broadcast use vstd::std_specs::btree::group_btree_axioms, vstd::laws_cmp::group_laws_cmp;

/// The elements, in a `BTreeSet`.
pub struct StdTreeSet {
    tree_set: BTreeSet<u16>,
}

/// The elements of a tree set.
fn tree_elems(t: &BTreeSet<u16>) -> (v: Vec<u16>)
    ensures
        v@.to_set() == t@,
        v@.no_duplicates(),
        increasing(v@),
{
    let ghost keys = vstd::std_specs::btree::spec_btree_keys_iter(t).remaining();
    let mut v: Vec<u16> = Vec::new();
    for x in it: t.iter()
        invariant
            it.seq() == keys,
            v@ == keys.unref().take(it.index()),
    {
        v.push(*x);
        assert(v@ =~= keys.unref().take(it.index() + 1));
    }
    proof {
        assert(v@ =~= keys.unref());
        assert(vstd::laws_cmp::obeys_cmp::<&u16>());
        assert forall|a: int, b: int| 0 <= a < b < v@.len() implies v@[a] < v@[b] by {
            assert(OrdSpec::cmp_spec(&keys[a], &keys[b]) is Less);
        }
    }
    v
}

impl SetInt for StdTreeSet {
    closed spec fn view(&self) -> Set<u16> {
        self.tree_set@
    }

    closed spec fn wf(&self) -> bool {
        true
    }

    fn clear(&mut self) {
        self.tree_set.clear();
    }

    fn insert(&mut self, n: u16) {
        self.tree_set.insert(n);
    }

    fn remove(&mut self, n: u16) -> (was_present: bool) {
        self.tree_set.remove(&n)
    }

    fn contains(&self, n: u16) -> (present: bool) {
        self.tree_set.contains(&n)
    }

    fn len(&self) -> (count: usize) {
        self.tree_set.len()
    }

    fn iter(&self) -> (elems: Vec<u16>)
        ensures
            increasing(elems@),
    {
        tree_elems(&self.tree_set)
    }

    fn union_with(&mut self, other: &Self) {
        let items = other.iter();
        let mut i: usize = 0;
        while i < items.len()
            invariant
                i <= items@.len(),
                self@ == old(self)@.union(items@.take(i as int).to_set()),
            decreases items@.len() - i,
        {
            let item = items[i];
            self.insert(item);
            proof {
                assert(items@.take(i + 1) =~= items@.take(i as int).push(item));
                lemma_push_to_set(items@.take(i as int), item);
            }
            i = i + 1;
            assert(self@ =~= old(self)@.union(items@.take(i as int).to_set()));
        }
        assert(items@.take(items@.len() as int) =~= items@);
    }

    fn intersection_with(&mut self, other: &Self) {
        let items = self.iter();
        let mut i: usize = 0;
        while i < items.len()
            invariant
                i <= items@.len(),
                items@.to_set() == old(self)@,
                self@ == old(self)@.difference(items@.take(i as int).to_set().difference(other@)),
            decreases items@.len() - i,
        {
            let item = items[i];
            if !other.contains(item) {
                self.remove(item);
            }
            proof {
                assert(items@.take(i + 1) =~= items@.take(i as int).push(item));
                lemma_push_to_set(items@.take(i as int), item);
            }
            i = i + 1;
            assert(self@ =~= old(self)@.difference(items@.take(i as int).to_set().difference(other@)));
        }
        assert(items@.take(items@.len() as int) =~= items@);
        assert(self@ =~= old(self)@.intersect(other@));
    }

    fn difference_with(&mut self, other: &Self) {
        let items = other.iter();
        let mut i: usize = 0;
        while i < items.len()
            invariant
                i <= items@.len(),
                self@ == old(self)@.difference(items@.take(i as int).to_set()),
            decreases items@.len() - i,
        {
            let item = items[i];
            self.remove(item);
            proof {
                assert(items@.take(i + 1) =~= items@.take(i as int).push(item));
                lemma_push_to_set(items@.take(i as int), item);
            }
            i = i + 1;
            assert(self@ =~= old(self)@.difference(items@.take(i as int).to_set()));
        }
        assert(items@.take(items@.len() as int) =~= items@);
    }

    fn symmetric_difference_with(&mut self, other: &Self) {
        let self_items = self.iter();
        let other_items = other.iter();
        let mut i: usize = 0;
        while i < self_items.len()
            invariant
                i <= self_items@.len(),
                self_items@.to_set() == old(self)@,
                self@ == old(self)@.difference(self_items@.take(i as int).to_set().intersect(other@)),
            decreases self_items@.len() - i,
        {
            let item = self_items[i];
            if other.contains(item) {
                self.remove(item);
            }
            proof {
                assert(self_items@.take(i + 1) =~= self_items@.take(i as int).push(item));
                lemma_push_to_set(self_items@.take(i as int), item);
            }
            i = i + 1;
            assert(self@ =~= old(self)@.difference(self_items@.take(i as int).to_set().intersect(other@)));
        }
        assert(self_items@.take(self_items@.len() as int) =~= self_items@);
        let mut j: usize = 0;
        while j < other_items.len()
            invariant
                j <= other_items@.len(),
                self_items@.to_set() == old(self)@,
                other_items@.to_set() == other@,
                self@ == old(self)@.difference(other@).union(other_items@.take(j as int).to_set().difference(old(self)@)),
            decreases other_items@.len() - j,
        {
            let item = other_items[j];
            if !vec_contains(&self_items, item) {
                self.insert(item);
            }
            proof {
                assert(other_items@.take(j + 1) =~= other_items@.take(j as int).push(item));
                lemma_push_to_set(other_items@.take(j as int), item);
            }
            j = j + 1;
            assert(self@ =~= old(self)@.difference(other@).union(other_items@.take(j as int).to_set().difference(old(self)@)));
        }
        assert(other_items@.take(other_items@.len() as int) =~= other_items@);
        assert(self@ =~= sym_diff(old(self)@, other@));
    }
}

/// Whether `x` occurs in `v`.
pub(crate) fn vec_contains(v: &Vec<u16>, x: u16) -> (present: bool)
    ensures
        present == v@.to_set().contains(x),
{
    let mut i: usize = 0;
    while i < v.len()
        invariant
            i <= v@.len(),
            forall|k: int| 0 <= k < i ==> v@[k] != x,
        decreases v@.len() - i,
    {
        if v[i] == x {
            assert(v@[i as int] == x);
            return true;
        }
        i = i + 1;
    }
    false
}

impl SetIntConstruct for StdTreeSet {
    fn new() -> (s: Self) {
        StdTreeSet { tree_set: BTreeSet::new() }
    }

    fn with_capacity(_capacity: usize) -> (s: Self) {
        StdTreeSet { tree_set: BTreeSet::new() }
    }
}

} // verus!
