//! A set held as a bitmap of 1024 words of 64 bits, laid out as C lays out an array, whose operations each go once over the words.

use vstd::prelude::*;
use crate::set_int::{increasing, SetInt, SetIntConstruct};
use crate::types::word_bitmap::{
    words_clear, words_combine, words_contains, words_count, words_elems, words_insert,
    words_remove, words_view, words_zero,
};

verus! {

/// Bit `n % 64` of word `n / 64` is set when `n` belongs to the set.
pub struct AsmCustomBitSet {
    bits: [u64; 1024],
}

impl SetInt for AsmCustomBitSet {
    closed spec fn view(&self) -> Set<u16> {
        words_view(self.bits@)
    }

    closed spec fn wf(&self) -> bool {
        true
    }

    fn clear(&mut self) {
        words_clear(&mut self.bits);
    }

    fn insert(&mut self, n: u16) {
        words_insert(&mut self.bits, n);
    }

    fn remove(&mut self, n: u16) -> (was_present: bool) {
        words_remove(&mut self.bits, n)
    }

    fn contains(&self, n: u16) -> (present: bool) {
        words_contains(&self.bits, n)
    }

    fn len(&self) -> (count: usize) {
        words_count(&self.bits)
    }

    fn iter(&self) -> (elems: Vec<u16>)
        ensures
            increasing(elems@),
    {
        words_elems(&self.bits)
    }

    fn union_with(&mut self, other: &Self) {
        words_combine(&mut self.bits, &other.bits, 0);
    }

    fn intersection_with(&mut self, other: &Self) {
        words_combine(&mut self.bits, &other.bits, 1);
    }

    fn difference_with(&mut self, other: &Self) {
        words_combine(&mut self.bits, &other.bits, 2);
    }

    fn symmetric_difference_with(&mut self, other: &Self) {
        words_combine(&mut self.bits, &other.bits, 3);
    }
}

impl SetIntConstruct for AsmCustomBitSet {
    fn new() -> (s: Self) {
        AsmCustomBitSet { bits: words_zero() }
    }

    fn with_capacity(_capacity: usize) -> (s: Self) {
        Self::new()
    }
}

} // verus!
