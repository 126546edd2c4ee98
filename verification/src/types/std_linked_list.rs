//! A set held as a sorted list, rebuilt front to back by each insertion or
//! removal.

use std::collections::VecDeque;
use vstd::prelude::*;
use crate::count::{lemma_increasing_no_dup, lemma_no_dup_len};
use crate::set_int::{increasing, SetInt, SetIntConstruct};
use crate::types::sorted_seq::{
    lemma_insert_at, lemma_remove_at, merge_difference, merge_intersection, merge_sym_diff,
    merge_union, sorted,
};

verus! {

/// The elements, in strictly increasing order, from the front.
pub struct StdLinkedList {
    elements: VecDeque<u16>,
}

/// The elements of a list, front first, in a vector.
fn list_to_vec(list: &VecDeque<u16>) -> (v: Vec<u16>)
    ensures
        v@ == list@,
{
    let mut v: Vec<u16> = Vec::new();
    let mut i: usize = 0;
    while i < list.len()
        invariant
            i <= list@.len(),
            v@ == list@.take(i as int),
        decreases list@.len() - i,
    {
        v.push(list[i]);
        i = i + 1;
        assert(v@ =~= list@.take(i as int));
    }
    assert(list@.take(list@.len() as int) =~= list@);
    v
}

/// A list of the elements of a vector, in order.
fn vec_to_list(v: &Vec<u16>) -> (list: VecDeque<u16>)
    ensures
        list@ == v@,
{
    let mut list: VecDeque<u16> = VecDeque::new();
    let mut i: usize = 0;
    while i < v.len()
        invariant
            i <= v@.len(),
            list@ == v@.take(i as int),
        decreases v@.len() - i,
    {
        list.push_back(v[i]);
        i = i + 1;
        assert(list@ =~= v@.take(i as int));
    }
    assert(v@.take(v@.len() as int) =~= v@);
    list
}

impl SetInt for StdLinkedList {
    closed spec fn view(&self) -> Set<u16> {
        self.elements@.to_set()
    }

    closed spec fn wf(&self) -> bool {
        sorted(self.elements@)
    }

    fn clear(&mut self) {
        self.elements.clear();
        assert(self@ =~= Set::<u16>::empty());
    }

    fn insert(&mut self, n: u16) {
        if self.contains(n) {
            assert(self@ =~= old(self)@.insert(n));
            return;
        }
        let ghost orig = self.elements@;
        let ghost mut p: int = 0;
        let mut pushed = false;
        let mut temp: VecDeque<u16> = VecDeque::new();
        loop
            invariant
                sorted(orig),
                !orig.to_set().contains(n),
                self.elements@.len() <= orig.len(),
                self.elements@ == orig.subrange(orig.len() - self.elements@.len(), orig.len() as int),
                pushed ==> 0 <= p <= orig.len() - self.elements@.len(),
                pushed ==> temp@ == orig.take(orig.len() - self.elements@.len()).insert(p, n),
                pushed ==> forall|i: int| 0 <= i < p ==> orig[i] < n,
                pushed ==> p < orig.len() && orig[p] > n,
                !pushed ==> temp@ == orig.take(orig.len() - self.elements@.len()),
                !pushed ==> forall|i: int| 0 <= i < orig.len() - self.elements@.len() ==> orig[i] < n,
            ensures
                self.elements@.len() == 0,
                pushed ==> 0 <= p <= orig.len(),
                pushed ==> temp@ == orig.insert(p, n),
                pushed ==> forall|i: int| 0 <= i < p ==> orig[i] < n,
                pushed ==> p < orig.len() && orig[p] > n,
                !pushed ==> temp@ == orig,
                !pushed ==> forall|i: int| 0 <= i < orig.len() ==> orig[i] < n,
            decreases self.elements@.len(),
        {
            let ghost k = orig.len() - self.elements@.len();
            match self.elements.pop_front() {
                Some(val) => {
                    assert(val == orig[k]);
                    if !pushed && n < val {
                        temp.push_back(n);
                        proof {
                            p = k;
                        }
                        pushed = true;
                    }
                    temp.push_back(val);
                    proof {
                        if val != n {
                            assert(orig.to_set().contains(val) ==> val != n);
                        }
                        assert(orig.to_set().contains(orig[k]));
                        assert(orig.take(k + 1) =~= orig.take(k).push(val));
                        if pushed {
                            assert(temp@ =~= orig.take(k + 1).insert(p, n));
                        }
                        assert(self.elements@ =~= orig.subrange(
                            orig.len() - self.elements@.len(),
                            orig.len() as int,
                        ));
                    }
                },
                None => {
                    proof {
                        assert(orig.take(orig.len() as int) =~= orig);
                    }
                    break;
                },
            }
        }
        if !pushed {
            proof {
                p = orig.len() as int;
                assert(orig.insert(p, n) =~= orig.push(n));
            }
            temp.push_back(n);
        }
        proof {
            lemma_insert_at(orig, p, n);
        }
        self.elements = temp;
    }

    fn remove(&mut self, n: u16) -> (was_present: bool) {
        let ghost orig = self.elements@;
        let ghost mut pos: int = 0;
        let mut found = false;
        let mut temp: VecDeque<u16> = VecDeque::new();
        loop
            invariant
                sorted(orig),
                self.elements@.len() <= orig.len(),
                self.elements@ == orig.subrange(orig.len() - self.elements@.len(), orig.len() as int),
                found ==> 0 <= pos < orig.len() - self.elements@.len() && orig[pos] == n
                    && temp@ == orig.take(orig.len() - self.elements@.len()).remove(pos),
                !found ==> temp@ == orig.take(orig.len() - self.elements@.len()) && forall|i: int|
                    0 <= i < orig.len() - self.elements@.len() ==> orig[i] != n,
            ensures
                found ==> 0 <= pos < orig.len() && orig[pos] == n && temp@ == orig.remove(pos),
                !found ==> temp@ == orig && forall|i: int| 0 <= i < orig.len() ==> orig[i] != n,
            decreases self.elements@.len(),
        {
            let ghost k = orig.len() - self.elements@.len();
            match self.elements.pop_front() {
                Some(val) => {
                    assert(val == orig[k]);
                    if val == n && !found {
                        proof {
                            pos = k;
                        }
                        found = true;
                    } else {
                        temp.push_back(val);
                    }
                    proof {
                        assert(orig.take(k + 1) =~= orig.take(k).push(val));
                        if found {
                            assert(temp@ =~= orig.take(k + 1).remove(pos));
                        }
                        assert(self.elements@ =~= orig.subrange(
                            orig.len() - self.elements@.len(),
                            orig.len() as int,
                        ));
                    }
                },
                None => {
                    proof {
                        assert(orig.take(orig.len() as int) =~= orig);
                    }
                    break;
                },
            }
        }
        proof {
            if found {
                lemma_remove_at(orig, pos);
                assert(orig.to_set().contains(n));
            } else {
                assert(!orig.to_set().contains(n));
                assert(temp@.to_set() =~= orig.to_set().remove(n));
            }
        }
        self.elements = temp;
        found
    }

    fn contains(&self, n: u16) -> (present: bool) {
        let mut i: usize = 0;
        while i < self.elements.len()
            invariant
                i <= self.elements@.len(),
                forall|k: int| 0 <= k < i ==> self.elements@[k] != n,
            decreases self.elements@.len() - i,
        {
            if self.elements[i] == n {
                assert(self.elements@[i as int] == n);
                return true;
            }
            i = i + 1;
        }
        false
    }

    fn len(&self) -> (count: usize) {
        proof {
            lemma_increasing_no_dup(self.elements@);
            lemma_no_dup_len(self.elements@);
        }
        self.elements.len()
    }

    fn iter(&self) -> (elems: Vec<u16>)
        ensures
            increasing(elems@),
    {
        proof {
            lemma_increasing_no_dup(self.elements@);
        }
        list_to_vec(&self.elements)
    }

    fn union_with(&mut self, other: &Self) {
        let self_vec = list_to_vec(&self.elements);
        let other_vec = list_to_vec(&other.elements);
        let result = merge_union(&self_vec, &other_vec);
        self.elements = vec_to_list(&result);
    }

    fn intersection_with(&mut self, other: &Self) {
        let self_vec = list_to_vec(&self.elements);
        let other_vec = list_to_vec(&other.elements);
        let result = merge_intersection(&self_vec, &other_vec);
        self.elements = vec_to_list(&result);
    }

    fn difference_with(&mut self, other: &Self) {
        let self_vec = list_to_vec(&self.elements);
        let other_vec = list_to_vec(&other.elements);
        let result = merge_difference(&self_vec, &other_vec);
        self.elements = vec_to_list(&result);
    }

    fn symmetric_difference_with(&mut self, other: &Self) {
        let self_vec = list_to_vec(&self.elements);
        let other_vec = list_to_vec(&other.elements);
        let result = merge_sym_diff(&self_vec, &other_vec);
        self.elements = vec_to_list(&result);
    }
}

impl SetIntConstruct for StdLinkedList {
    fn new() -> (s: Self) {
        let s = StdLinkedList { elements: VecDeque::new() };
        assert(s@ =~= Set::<u16>::empty());
        s
    }

    fn with_capacity(_capacity: usize) -> (s: Self) {
        Self::new()
    }
}

} // verus!
