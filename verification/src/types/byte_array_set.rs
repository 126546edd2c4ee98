//! A set held as one byte per possible element.

use vstd::prelude::*;
use crate::bits::lemma_flag_ops;
use crate::count::{count_true, lemma_count_step, lemma_increasing_no_dup, lemma_push_to_set, lemma_true_set_len, true_set};
use crate::set_int::{increasing, sym_diff, SetInt, SetIntConstruct};

verus! {

/// One byte for each `u16`: 1 when the integer belongs to the set, else 0.
pub struct ByteArraySet {
    bytes: [u8; 65536],
}

impl ByteArraySet {
    /// The flags of the set, one for each integer.
    pub closed spec fn flags(&self) -> Seq<bool> {
        Seq::new(65536, |i: int| self.bytes[i] != 0)
    }

    /// Applies a byte operation to every pair of bytes; `op` says which.
    fn combine(&mut self, other: &Self, op: u8)
        requires
            old(self).wf(),
            other.wf(),
            op < 4,
        ensures
            final(self).wf(),
            forall|i: int|
                0 <= i < 65536 ==> #[trigger] final(self).bytes[i] == if op == 0 {
                    old(self).bytes[i] | other.bytes[i]
                } else if op == 1 {
                    old(self).bytes[i] & other.bytes[i]
                } else if op == 2 {
                    old(self).bytes[i] & !other.bytes[i]
                } else {
                    old(self).bytes[i] ^ other.bytes[i]
                },
    {
        let mut i: usize = 0;
        while i < 65536
            invariant
                i <= 65536,
                op < 4,
                other.wf(),
                old(self).wf(),
                forall|j: int| 0 <= j < 65536 ==> self.bytes[j] <= 1,
                forall|j: int|
                    0 <= j < i ==> #[trigger] self.bytes[j] == if op == 0 {
                        old(self).bytes[j] | other.bytes[j]
                    } else if op == 1 {
                        old(self).bytes[j] & other.bytes[j]
                    } else if op == 2 {
                        old(self).bytes[j] & !other.bytes[j]
                    } else {
                        old(self).bytes[j] ^ other.bytes[j]
                    },
                forall|j: int| i <= j < 65536 ==> #[trigger] self.bytes[j] == old(self).bytes[j],
            decreases 65536 - i,
        {
            let a = self.bytes[i];
            let b = other.bytes[i];
            proof {
                lemma_flag_ops(a, b);
            }
            let c = if op == 0 {
                a | b
            } else if op == 1 {
                a & b
            } else if op == 2 {
                a & !b
            } else {
                a ^ b
            };
            self.bytes[i] = c;
            i = i + 1;
        }
    }
}

impl SetInt for ByteArraySet {
    closed spec fn view(&self) -> Set<u16> {
        Set::new(|n: u16| self.bytes[n as int] != 0)
    }

    closed spec fn wf(&self) -> bool {
        forall|i: int| 0 <= i < 65536 ==> self.bytes[i] <= 1
    }

    fn clear(&mut self) {
        let mut i: usize = 0;
        while i < 65536
            invariant
                i <= 65536,
                forall|j: int| 0 <= j < i ==> self.bytes[j] == 0,
            decreases 65536 - i,
        {
            self.bytes[i] = 0;
            i = i + 1;
        }
        assert(self@ =~= Set::<u16>::empty());
    }

    fn insert(&mut self, n: u16) {
        self.bytes[n as usize] = 1;
        assert(self@ =~= old(self)@.insert(n));
    }

    fn remove(&mut self, n: u16) -> (was_present: bool) {
        let old_byte = self.bytes[n as usize];
        self.bytes[n as usize] = 0;
        assert(self@ =~= old(self)@.remove(n));
        old_byte != 0
    }

    fn contains(&self, n: u16) -> (present: bool) {
        self.bytes[n as usize] != 0
    }

    fn len(&self) -> (count: usize) {
        let mut count: usize = 0;
        let mut i: usize = 0;
        while i < 65536
            invariant
                i <= 65536,
                count <= i,
                count == count_true(self.flags().take(i as int)),
            decreases 65536 - i,
        {
            proof {
                lemma_count_step(self.flags(), i as int);
            }
            if self.bytes[i] != 0 {
                count = count + 1;
            }
            i = i + 1;
        }
        proof {
            assert(self.flags().take(65536) =~= self.flags());
            lemma_true_set_len(self.flags());
            assert(true_set(self.flags()) =~= self@);
        }
        count
    }

    fn iter(&self) -> (elems: Vec<u16>)
        ensures
            increasing(elems@),
    {
        let mut elems: Vec<u16> = Vec::new();
        let mut i: usize = 0;
        while i < 65536
            invariant
                i <= 65536,
                forall|a: int, b: int| 0 <= a < b < elems@.len() ==> elems@[a] < elems@[b],
                forall|a: int| 0 <= a < elems@.len() ==> elems@[a] < i,
                elems@.to_set() == self@.filter(|m: u16| (m as int) < i),
            decreases 65536 - i,
        {
            let ghost before = elems@;
            if self.bytes[i] != 0 {
                elems.push(i as u16);
                proof {
                    lemma_push_to_set(before, i as u16);
                }
            }
            assert(elems@.to_set() =~= self@.filter(|m: u16| (m as int) < i + 1));
            i = i + 1;
        }
        proof {
            lemma_increasing_no_dup(elems@);
            assert(self@.filter(|m: u16| (m as int) < 65536) =~= self@);
        }
        elems
    }

    fn union_with(&mut self, other: &Self) {
        self.combine(other, 0);
        proof {
            assert forall|n: u16| #[trigger] self@.contains(n) == old(self)@.union(other@).contains(n) by {
                lemma_flag_ops(old(self).bytes[n as int], other.bytes[n as int]);
            }
            assert(self@ =~= old(self)@.union(other@));
        }
    }

    fn intersection_with(&mut self, other: &Self) {
        self.combine(other, 1);
        proof {
            assert forall|n: u16| #[trigger] self@.contains(n) == old(self)@.intersect(other@).contains(n) by {
                lemma_flag_ops(old(self).bytes[n as int], other.bytes[n as int]);
            }
            assert(self@ =~= old(self)@.intersect(other@));
        }
    }

    fn difference_with(&mut self, other: &Self) {
        self.combine(other, 2);
        proof {
            assert forall|n: u16| #[trigger] self@.contains(n) == old(self)@.difference(other@).contains(n) by {
                lemma_flag_ops(old(self).bytes[n as int], other.bytes[n as int]);
            }
            assert(self@ =~= old(self)@.difference(other@));
        }
    }

    fn symmetric_difference_with(&mut self, other: &Self) {
        self.combine(other, 3);
        proof {
            assert forall|n: u16| #[trigger] self@.contains(n) == sym_diff(old(self)@, other@).contains(n) by {
                lemma_flag_ops(old(self).bytes[n as int], other.bytes[n as int]);
            }
            assert(self@ =~= sym_diff(old(self)@, other@));
        }
    }
}

impl SetIntConstruct for ByteArraySet {
    fn new() -> (s: Self) {
        let s = ByteArraySet { bytes: [0u8; 65536] };
        assert(s@ =~= Set::<u16>::empty());
        s
    }

    fn with_capacity(_capacity: usize) -> (s: Self) {
        Self::new()
    }
}

} // verus!
