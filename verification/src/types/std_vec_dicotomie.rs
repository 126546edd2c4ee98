//! A set held as a strictly increasing vector, searched by halving.

use vstd::prelude::*;
use crate::count::{lemma_increasing_no_dup, lemma_no_dup_len};
use crate::set_int::{increasing, SetInt, SetIntConstruct};
use crate::types::sorted_seq::{
    lemma_insert_at, lemma_remove_at, merge_difference, merge_intersection, merge_sym_diff,
    merge_union, search, sorted, vec_copy,
};

verus! {

/// The elements, in strictly increasing order.
pub struct StdVecDicotomie {
    elements: Vec<u16>,
}

impl SetInt for StdVecDicotomie {
    closed spec fn view(&self) -> Set<u16> {
        self.elements@.to_set()
    }

    closed spec fn wf(&self) -> bool {
        sorted(self.elements@)
    }

    fn clear(&mut self) {
        self.elements.clear();
        assert(self@ =~= Set::<u16>::empty());
    }

    fn insert(&mut self, n: u16) {
        match search(&self.elements, n) {
            Ok(_) => {
                assert(self@ =~= old(self)@.insert(n));
            },
            Err(pos) => {
                proof {
                    lemma_insert_at(self.elements@, pos as int, n);
                }
                self.elements.insert(pos, n);
            },
        }
    }

    fn remove(&mut self, n: u16) -> (was_present: bool) {
        match search(&self.elements, n) {
            Ok(pos) => {
                proof {
                    lemma_remove_at(self.elements@, pos as int);
                }
                self.elements.remove(pos);
                assert(old(self)@.contains(n));
                true
            },
            Err(_) => {
                assert(self@ =~= old(self)@.remove(n));
                false
            },
        }
    }

    fn contains(&self, n: u16) -> (present: bool) {
        search(&self.elements, n).is_ok()
    }

    fn len(&self) -> (count: usize) {
        proof {
            lemma_increasing_no_dup(self.elements@);
            lemma_no_dup_len(self.elements@);
        }
        self.elements.len()
    }

    fn iter(&self) -> (elems: Vec<u16>)
        ensures
            increasing(elems@),
    {
        proof {
            lemma_increasing_no_dup(self.elements@);
        }
        vec_copy(&self.elements)
    }

    fn union_with(&mut self, other: &Self) {
        self.elements = merge_union(&self.elements, &other.elements);
    }

    fn intersection_with(&mut self, other: &Self) {
        self.elements = merge_intersection(&self.elements, &other.elements);
    }

    fn difference_with(&mut self, other: &Self) {
        self.elements = merge_difference(&self.elements, &other.elements);
    }

    fn symmetric_difference_with(&mut self, other: &Self) {
        self.elements = merge_sym_diff(&self.elements, &other.elements);
    }
}

impl SetIntConstruct for StdVecDicotomie {
    fn new() -> (s: Self) {
        let s = StdVecDicotomie { elements: Vec::new() };
        assert(s@ =~= Set::<u16>::empty());
        s
    }

    fn with_capacity(capacity: usize) -> (s: Self) {
        let s = StdVecDicotomie { elements: Vec::with_capacity(capacity) };
        assert(s@ =~= Set::<u16>::empty());
        s
    }
}

} // verus!
