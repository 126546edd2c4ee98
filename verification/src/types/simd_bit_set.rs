//! A bitmap set held as 128 lanes of 8 words of 64 bits.

use vstd::prelude::*;
use crate::bits::{lemma_u16_lane_index, word_bit};
use crate::count::{count_true, lemma_increasing_no_dup, lemma_true_set_len, true_set};
use crate::set_int::{increasing, SetInt, SetIntConstruct};
use crate::types::word_bitmap::{
    combined, combined_set, count_word, lemma_view_clear, lemma_view_combine, lemma_view_set,
    lemma_view_zero, push_word_elems, words_flags, words_view,
};

verus! {

/// Lane `n / 512`, word `(n / 64) % 8` of the lane, bit `n % 64` of the word
/// is set when `n` belongs to the set.
pub struct SimdBitSet {
    bits: [[u64; 8]; 128],
}

/// The words of the lanes, in order.
pub open spec fn lane_words(bits: [[u64; 8]; 128]) -> Seq<u64> {
    Seq::new(1024, |i: int| bits[i / 8][i % 8])
}

proof fn lemma_lane_index(v: int, u: int)
    requires
        0 <= v < 128,
        0 <= u < 8,
    ensures
        (8 * v + u) / 8 == v,
        (8 * v + u) % 8 == u,
        0 <= 8 * v + u < 1024,
{
    vstd::arithmetic::div_mod::lemma_fundamental_div_mod_converse(8 * v + u, 8, v, u);
}

proof fn lemma_lane_split(i: int)
    requires
        0 <= i < 1024,
    ensures
        0 <= i / 8 < 128,
        0 <= i % 8 < 8,
        i == 8 * (i / 8) + i % 8,
{
}

impl SimdBitSet {
    /// Combines `other` into `self`, lane by lane, with the operation `op`.
    fn combine(&mut self, other: &Self, op: u8)
        requires
            op < 4,
        ensures
            final(self)@ == combined_set(old(self)@, other@, op),
    {
        let mut v: usize = 0;
        while v < 128
            invariant
                v <= 128,
                op < 4,
                forall|i: int| 0 <= i < 8 * v ==> #[trigger] lane_words(self.bits)[i] == combined(
                    lane_words(old(self).bits)[i],
                    lane_words(other.bits)[i],
                    op,
                ),
                forall|i: int| 8 * v <= i < 1024 ==> #[trigger] lane_words(self.bits)[i]
                    == lane_words(old(self).bits)[i],
            decreases 128 - v,
        {
            let mut lane = self.bits[v];
            let o = other.bits[v];
            let ghost start = self.bits;
            let mut u: usize = 0;
            while u < 8
                invariant
                    u <= 8,
                    v < 128,
                    op < 4,
                    o == other.bits[v as int],
                    forall|k: int| 0 <= k < u ==> #[trigger] lane[k] == combined(start[v as int][k], o[k], op),
                    forall|k: int| u <= k < 8 ==> #[trigger] lane[k] == start[v as int][k],
                decreases 8 - u,
            {
                let a = lane[u];
                let b = o[u];
                lane[u] = if op == 0 {
                    a | b
                } else if op == 1 {
                    a & b
                } else if op == 2 {
                    a & !b
                } else {
                    a ^ b
                };
                u = u + 1;
            }
            let ghost prev = self.bits;
            self.bits[v] = lane;
            proof {
                assert forall|i: int| 0 <= i < 8 * (v + 1) implies #[trigger] lane_words(self.bits)[i]
                    == combined(lane_words(old(self).bits)[i], lane_words(other.bits)[i], op) by {
                    lemma_lane_split(i);
                    if i / 8 != v {
                        assert(lane_words(prev)[i] == lane_words(self.bits)[i]);
                    } else {
                        assert(lane_words(prev)[i] == lane_words(old(self).bits)[i]);
                        assert(prev == start);
                    }
                }
                assert forall|i: int| 8 * (v + 1) <= i < 1024 implies #[trigger] lane_words(
                    self.bits,
                )[i] == lane_words(old(self).bits)[i] by {
                    lemma_lane_split(i);
                    assert(lane_words(prev)[i] == lane_words(self.bits)[i]);
                }
            }
            v = v + 1;
        }
        proof {
            lemma_view_combine(lane_words(old(self).bits), lane_words(other.bits), lane_words(self.bits), op);
        }
    }
}

impl SetInt for SimdBitSet {
    closed spec fn view(&self) -> Set<u16> {
        words_view(lane_words(self.bits))
    }

    closed spec fn wf(&self) -> bool {
        true
    }

    fn clear(&mut self) {
        let mut v: usize = 0;
        while v < 128
            invariant
                v <= 128,
                forall|i: int| 0 <= i < 8 * v ==> #[trigger] lane_words(self.bits)[i] == 0u64,
            decreases 128 - v,
        {
            let zero_lane: [u64; 8] = [0u64; 8];
            assert(zero_lane == vstd::array::spec_array_fill_for_copy_type::<u64, 8>(0u64));
            let ghost prev = self.bits;
            self.bits[v] = zero_lane;
            proof {
                assert forall|i: int| 0 <= i < 8 * (v + 1) implies #[trigger] lane_words(self.bits)[i] == 0u64 by {
                    lemma_lane_split(i);
                    if i / 8 != v {
                        assert(lane_words(prev)[i] == lane_words(self.bits)[i]);
                    }
                }
            }
            v = v + 1;
        }
        proof {
            lemma_view_zero(lane_words(self.bits));
        }
    }

    fn insert(&mut self, n: u16) {
        proof {
            lemma_u16_lane_index(n);
        }
        let vec_idx = (n >> 9u16) as usize;
        let u64_idx = ((n >> 6u16) & 7u16) as usize;
        let t = (n & 63u16) as u64;
        let mut lane = self.bits[vec_idx];
        lane[u64_idx] = lane[u64_idx] | (1u64 << t);
        self.bits[vec_idx] = lane;
        proof {
            let s = lane_words(old(self).bits);
            let k = (n / 64) as int;
            assert(lane_words(self.bits) =~= s.update(k, s[k] | (1u64 << t))) by {
                assert forall|i: int| 0 <= i < 1024 implies lane_words(self.bits)[i] == s.update(k, s[k] | (1u64 << t))[i] by {
                    lemma_lane_index(i / 8, i % 8);
                }
            }
            lemma_view_set(s, n, t);
        }
    }

    fn remove(&mut self, n: u16) -> (was_present: bool) {
        proof {
            lemma_u16_lane_index(n);
        }
        let vec_idx = (n >> 9u16) as usize;
        let u64_idx = ((n >> 6u16) & 7u16) as usize;
        let t = (n & 63u16) as u64;
        let mask = 1u64 << t;
        let mut lane = self.bits[vec_idx];
        let word = lane[u64_idx];
        lane[u64_idx] = word & !mask;
        self.bits[vec_idx] = lane;
        proof {
            let s = lane_words(old(self).bits);
            let k = (n / 64) as int;
            assert(lane_words(self.bits) =~= s.update(k, s[k] & !(1u64 << t))) by {
                assert forall|i: int| 0 <= i < 1024 implies lane_words(self.bits)[i] == s.update(k, s[k] & !(1u64 << t))[i] by {
                    lemma_lane_index(i / 8, i % 8);
                }
            }
            lemma_view_clear(s, n, t);
        }
        (word & mask) != 0
    }

    fn contains(&self, n: u16) -> (present: bool) {
        proof {
            lemma_u16_lane_index(n);
            lemma_view_clear(lane_words(self.bits), n, (n % 64) as u64);
        }
        let vec_idx = (n >> 9u16) as usize;
        let u64_idx = ((n >> 6u16) & 7u16) as usize;
        let t = (n & 63u16) as u64;
        (self.bits[vec_idx][u64_idx] & (1u64 << t)) != 0
    }

    fn len(&self) -> (count: usize) {
        let ghost words = lane_words(self.bits);
        let ghost flags = words_flags(words);
        let mut count: usize = 0;
        let mut v: usize = 0;
        while v < 128
            invariant
                v <= 128,
                words == lane_words(self.bits),
                flags == words_flags(words),
                count <= 512 * v,
                count == count_true(flags.take(512 * v)),
            decreases 128 - v,
        {
            let lane = self.bits[v];
            let mut u: usize = 0;
            while u < 8
                invariant
                    u <= 8,
                    v < 128,
                    lane == self.bits[v as int],
                    words == lane_words(self.bits),
                    flags == words_flags(words),
                    count <= 512 * v + 64 * u,
                    count == count_true(flags.take(512 * v + 64 * u)),
                decreases 8 - u,
            {
                let w = lane[u];
                proof {
                    lemma_lane_index(v as int, u as int);
                    assert(words[8 * v + u] == w);
                    assert forall|j: u64| j < 64 implies flags[512 * v + 64 * u + j] == #[trigger] word_bit(w, j) by {
                        let k = 512 * v + 64 * u + j;
                        assert(k == 64 * (8 * v + u) + j);
                        vstd::arithmetic::div_mod::lemma_fundamental_div_mod_converse(k, 64, 8 * v + u, j as int);
                    }
                }
                count = count_word(w, count, Ghost(flags), Ghost(512 * v + 64 * u));
                u = u + 1;
            }
            v = v + 1;
        }
        proof {
            assert(flags.take(65536) =~= flags);
            lemma_true_set_len(flags);
            assert(true_set(flags) =~= self@);
        }
        count
    }

    fn iter(&self) -> (elems: Vec<u16>)
        ensures
            increasing(elems@),
    {
        let ghost words = lane_words(self.bits);
        let mut elems: Vec<u16> = Vec::new();
        let mut v: usize = 0;
        while v < 128
            invariant
                v <= 128,
                words == lane_words(self.bits),
                forall|a: int, b: int| 0 <= a < b < elems@.len() ==> elems@[a] < elems@[b],
                forall|a: int| 0 <= a < elems@.len() ==> elems@[a] < 512 * v,
                elems@.to_set() == self@.filter(|m: u16| (m as int) < 512 * v),
            decreases 128 - v,
        {
            let lane = self.bits[v];
            let mut u: usize = 0;
            while u < 8
                invariant
                    u <= 8,
                    v < 128,
                    lane == self.bits[v as int],
                    words == lane_words(self.bits),
                    forall|a: int, b: int| 0 <= a < b < elems@.len() ==> elems@[a] < elems@[b],
                    forall|a: int| 0 <= a < elems@.len() ==> elems@[a] < 512 * v + 64 * u,
                    elems@.to_set() == self@.filter(|m: u16| (m as int) < 512 * v + 64 * u),
                decreases 8 - u,
            {
                let w = lane[u];
                proof {
                    lemma_lane_index(v as int, u as int);
                    assert(words[8 * v + u] == w);
                    assert forall|j: u64| j < 64 implies self@.contains((512 * v + 64 * u + j) as u16) == #[trigger] word_bit(w, j) by {
                        let k = 512 * v + 64 * u + j;
                        assert(k == 64 * (8 * v + u) + j);
                        vstd::arithmetic::div_mod::lemma_fundamental_div_mod_converse(k, 64, 8 * v + u, j as int);
                    }
                }
                push_word_elems(&mut elems, w, 512 * v + 64 * u, Ghost(self@));
                u = u + 1;
            }
            v = v + 1;
        }
        proof {
            lemma_increasing_no_dup(elems@);
            assert(self@.filter(|m: u16| (m as int) < 512 * 128) =~= self@);
        }
        elems
    }

    fn union_with(&mut self, other: &Self) {
        self.combine(other, 0);
    }

    fn intersection_with(&mut self, other: &Self) {
        self.combine(other, 1);
    }

    fn difference_with(&mut self, other: &Self) {
        self.combine(other, 2);
    }

    fn symmetric_difference_with(&mut self, other: &Self) {
        self.combine(other, 3);
    }
}

impl SetIntConstruct for SimdBitSet {
    fn new() -> (s: Self) {
        let zero_lane: [u64; 8] = [0u64; 8];
        assert(zero_lane == vstd::array::spec_array_fill_for_copy_type::<u64, 8>(0u64));
        let bits: [[u64; 8]; 128] = [zero_lane; 128];
        assert(bits == vstd::array::spec_array_fill_for_copy_type::<[u64; 8], 128>(zero_lane));
        let s = SimdBitSet { bits };
        proof {
            assert forall|i: int| 0 <= i < 1024 implies lane_words(s.bits)[i] == 0u64 by {
                lemma_lane_index(i / 8, i % 8);
            }
            lemma_view_zero(lane_words(s.bits));
        }
        s
    }

    fn with_capacity(_capacity: usize) -> (s: Self) {
        Self::new()
    }
}

} // verus!
