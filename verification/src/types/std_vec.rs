//! A set held as a vector without repeats, in no particular order.

use vstd::prelude::*;
use crate::count::{lemma_no_dup_len, lemma_push_to_set};
use crate::set_int::{sym_diff, SetInt, SetIntConstruct};
use crate::types::sorted_seq::vec_copy;

verus! {

/// The elements, each once.
pub struct StdVec {
    elements: Vec<u16>,
}

/// The elements of `v` that `keep` says, from the vector `other`'s
/// membership: those it holds when `want` is true, those it lacks otherwise.
fn retain_by(v: &Vec<u16>, other: &StdVec, want: bool) -> (r: Vec<u16>)
    requires
        v@.no_duplicates(),
        other.wf(),
    ensures
        r@.no_duplicates(),
        r@.to_set() == v@.to_set().filter(|x: u16| other@.contains(x) == want),
{
    let mut r: Vec<u16> = Vec::new();
    let mut i: usize = 0;
    while i < v.len()
        invariant
            i <= v@.len(),
            v@.no_duplicates(),
            other.wf(),
            r@.no_duplicates(),
            forall|k: int| 0 <= k < r@.len() ==> v@.take(i as int).contains(#[trigger] r@[k]),
            r@.to_set() == v@.take(i as int).to_set().filter(|x: u16| other@.contains(x) == want),
        decreases v@.len() - i,
    {
        let x = v[i];
        let ghost before = r@;
        proof {
            assert(v@.take(i + 1) =~= v@.take(i as int).push(x));
            lemma_push_to_set(v@.take(i as int), x);
            assert(!v@.take(i as int).contains(x)) by {
                if v@.take(i as int).contains(x) {
                    let k = choose|k: int| 0 <= k < i && v@.take(i as int)[k] == x;
                    assert(v@[k] == v@[i as int]);
                }
            }
        }
        if other.contains(x) == want {
            r.push(x);
            proof {
                lemma_push_to_set(before, x);
                assert forall|k: int| 0 <= k < r@.len() implies v@.take(i + 1).contains(#[trigger] r@[k]) by {
                    if k < before.len() {
                        let q = choose|q: int| 0 <= q < i && v@.take(i as int)[q] == before[k];
                        assert(v@.take(i + 1)[q] == r@[k]);
                    } else {
                        assert(v@.take(i + 1)[i as int] == x);
                    }
                }
            }
        } else {
            proof {
                assert forall|k: int| 0 <= k < r@.len() implies v@.take(i + 1).contains(#[trigger] r@[k]) by {
                    let q = choose|q: int| 0 <= q < i && v@.take(i as int)[q] == r@[k];
                    assert(v@.take(i + 1)[q] == r@[k]);
                }
            }
        }
        i = i + 1;
        assert(r@.to_set() =~= v@.take(i as int).to_set().filter(|x: u16| other@.contains(x) == want));
    }
    assert(v@.take(v@.len() as int) =~= v@);
    r
}

impl SetInt for StdVec {
    closed spec fn view(&self) -> Set<u16> {
        self.elements@.to_set()
    }

    closed spec fn wf(&self) -> bool {
        self.elements@.no_duplicates()
    }

    fn clear(&mut self) {
        self.elements.clear();
        assert(self@ =~= Set::<u16>::empty());
    }

    fn insert(&mut self, n: u16) {
        if !self.contains(n) {
            let ghost before = self.elements@;
            self.elements.push(n);
            proof {
                lemma_push_to_set(before, n);
                assert(!before.contains(n));
            }
        } else {
            assert(self@ =~= old(self)@.insert(n));
        }
    }

    fn remove(&mut self, n: u16) -> (was_present: bool) {
        let mut pos: usize = 0;
        while pos < self.elements.len()
            invariant
                pos <= self.elements@.len(),
                forall|k: int| 0 <= k < pos ==> self.elements@[k] != n,
            ensures
                pos <= self.elements@.len(),
                forall|k: int| 0 <= k < pos ==> self.elements@[k] != n,
                pos < self.elements@.len() ==> self.elements@[pos as int] == n,
            decreases self.elements@.len() - pos,
        {
            if self.elements[pos] == n {
                break;
            }
            pos = pos + 1;
        }
        if pos < self.elements.len() {
            let ghost s = self.elements@;
            self.elements.swap_remove(pos);
            proof {
                let t = self.elements@;
                assert(t =~= s.update(pos as int, s.last()).drop_last());
                assert forall|m: u16| #[trigger] t.to_set().contains(m) == s.to_set().remove(n).contains(m) by {
                    if t.to_set().contains(m) {
                        let k = choose|k: int| 0 <= k < t.len() && t[k] == m;
                        if k == pos {
                            assert(s[s.len() - 1] == m);
                            assert(s.len() - 1 != pos);
                        } else {
                            assert(s[k] == m);
                        }
                    }
                    if s.to_set().contains(m) && m != n {
                        let k = choose|k: int| 0 <= k < s.len() && s[k] == m;
                        if k == s.len() - 1 {
                            assert(t[pos as int] == m);
                        } else {
                            assert(t[k] == m);
                        }
                    }
                }
                assert(t.to_set() =~= s.to_set().remove(n));
                assert(s[pos as int] == n);
            }
            true
        } else {
            assert(self@ =~= old(self)@.remove(n));
            false
        }
    }

    fn contains(&self, n: u16) -> (present: bool) {
        let mut i: usize = 0;
        while i < self.elements.len()
            invariant
                i <= self.elements@.len(),
                forall|k: int| 0 <= k < i ==> self.elements@[k] != n,
            decreases self.elements@.len() - i,
        {
            if self.elements[i] == n {
                assert(self.elements@[i as int] == n);
                return true;
            }
            i = i + 1;
        }
        false
    }

    fn len(&self) -> (count: usize) {
        proof {
            lemma_no_dup_len(self.elements@);
        }
        self.elements.len()
    }

    fn iter(&self) -> (elems: Vec<u16>) {
        vec_copy(&self.elements)
    }

    fn union_with(&mut self, other: &Self) {
        let mut i: usize = 0;
        while i < other.elements.len()
            invariant
                self.wf(),
                other.wf(),
                i <= other.elements@.len(),
                self@ == old(self)@.union(other.elements@.take(i as int).to_set()),
            decreases other.elements@.len() - i,
        {
            let v = other.elements[i];
            self.insert(v);
            proof {
                assert(other.elements@.take(i + 1) =~= other.elements@.take(i as int).push(v));
                lemma_push_to_set(other.elements@.take(i as int), v);
            }
            i = i + 1;
            assert(self@ =~= old(self)@.union(other.elements@.take(i as int).to_set()));
        }
        assert(other.elements@.take(other.elements@.len() as int) =~= other.elements@);
    }

    fn intersection_with(&mut self, other: &Self) {
        self.elements = retain_by(&self.elements, other, true);
        assert(self@ =~= old(self)@.intersect(other@));
    }

    fn difference_with(&mut self, other: &Self) {
        self.elements = retain_by(&self.elements, other, false);
        assert(self@ =~= old(self)@.difference(other@));
    }

    fn symmetric_difference_with(&mut self, other: &Self) {
        let only_self = retain_by(&self.elements, other, false);
        let only_other = retain_by(&other.elements, self, false);
        let mut result = only_self;
        let mut i: usize = 0;
        while i < only_other.len()
            invariant
                i <= only_other@.len(),
                only_other@.no_duplicates(),
                result@.no_duplicates(),
                only_other@.to_set() == other@.filter(|x: u16| old(self)@.contains(x) == false),
                result@.to_set() == old(self)@.filter(|x: u16| other@.contains(x) == false).union(
                    only_other@.take(i as int).to_set(),
                ),
            decreases only_other@.len() - i,
        {
            let x = only_other[i];
            let ghost before = result@;
            proof {
                assert(only_other@.take(i + 1) =~= only_other@.take(i as int).push(x));
                lemma_push_to_set(only_other@.take(i as int), x);
                lemma_push_to_set(before, x);
                assert(only_other@.to_set().contains(x));
                assert(!before.contains(x)) by {
                    if before.contains(x) {
                        assert(before.to_set().contains(x));
                        if !old(self)@.contains(x) {
                            let k = choose|k: int| 0 <= k < i && only_other@.take(i as int)[k] == x;
                            assert(only_other@[k] == only_other@[i as int]);
                        }
                    }
                }
            }
            result.push(x);
            i = i + 1;
            assert(result@.to_set() =~= old(self)@.filter(|x: u16| other@.contains(x) == false).union(
                only_other@.take(i as int).to_set(),
            ));
        }
        assert(only_other@.take(only_other@.len() as int) =~= only_other@);
        self.elements = result;
        assert(self@ =~= sym_diff(old(self)@, other@));
    }
}

impl SetIntConstruct for StdVec {
    fn new() -> (s: Self) {
        let s = StdVec { elements: Vec::new() };
        assert(s@ =~= Set::<u16>::empty());
        s
    }

    fn with_capacity(capacity: usize) -> (s: Self) {
        let s = StdVec { elements: Vec::with_capacity(capacity) };
        assert(s@ =~= Set::<u16>::empty());
        s
    }
}

} // verus!
