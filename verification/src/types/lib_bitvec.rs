//! A set held as the set bits of a `BitVec` of the `bitvec` crate, with at
//! least one bit for every `u16`.

use bitvec::order::Lsb0;
use bitvec::vec::BitVec;
use vstd::prelude::*;
use crate::set_int::{increasing, sym_diff, SetInt, SetIntConstruct};
use crate::types::narrow::{below_usize, lemma_narrow_usize_len, narrow_usize, narrow_vec_usize};

verus! {

/// A bit vector of the `bitvec` crate over `usize` words, least significant
/// bit first, which Verus sees only through the functions below (Verus does
/// not take a declaration of it with the crate's storage traits as bounds).
#[verifier::external_body]
pub struct WordBits {
    inner: BitVec<usize, Lsb0>,
}

/// The indices of the set bits of a bit vector.
pub uninterp spec fn bv_elems(b: WordBits) -> Set<usize>;

/// The number of bits of a bit vector.
pub uninterp spec fn bv_len(b: WordBits) -> nat;

/// `BitVec::repeat(false, len)`: `len` clear bits; it panics when `len`
/// is past the bits that a bit vector can address, `usize::MAX / 8`.
#[verifier::external_body]
fn bv_zeros(len: usize) -> (b: WordBits)
    requires
        len <= usize::MAX / 8,
    ensures
        bv_elems(b) == Set::<usize>::empty(),
        bv_len(b) == len,
{
    WordBits { inner: BitVec::repeat(false, len) }
}

/// `BitSlice::fill(false)`: clears every bit.
#[verifier::external_body]
fn bv_clear_all(b: &mut WordBits)
    ensures
        bv_elems(*final(b)) == Set::<usize>::empty(),
        bv_len(*final(b)) == bv_len(*old(b)),
{
    b.inner.fill(false)
}

/// `BitSlice::set`: sets bit `index` to `value`; it must be in bounds (it
/// panics otherwise).
#[verifier::external_body]
fn bv_set(b: &mut WordBits, index: usize, value: bool)
    requires
        index < bv_len(*old(b)),
    ensures
        bv_elems(*final(b)) == if value {
            bv_elems(*old(b)).insert(index)
        } else {
            bv_elems(*old(b)).remove(index)
        },
        bv_len(*final(b)) == bv_len(*old(b)),
{
    b.inner.set(index, value)
}

/// Indexing a bit vector: bit `index`, which must be in bounds (it panics
/// otherwise).
#[verifier::external_body]
fn bv_get(b: &WordBits, index: usize) -> (bit: bool)
    requires
        index < bv_len(*b),
    ensures
        bit == bv_elems(*b).contains(index),
{
    b.inner[index]
}

/// `BitSlice::count_ones`: the number of set bits.
#[verifier::external_body]
fn bv_count_ones(b: &WordBits) -> (count: usize)
    ensures
        count == bv_elems(*b).len(),
{
    b.inner.count_ones()
}

/// `BitSlice::iter_ones`, collected: the index of each set bit, once, in
/// increasing order (each search resumes past the bit last found).
#[verifier::external_body]
fn bv_iter_ones(b: &WordBits) -> (values: Vec<usize>)
    ensures
        values@.to_set() == bv_elems(*b),
        values@.no_duplicates(),
        forall|a: int, c: int| 0 <= a < c < values@.len() ==> #[trigger] values@[a] < #[trigger] values@[c],
{
    b.inner.iter_ones().collect()
}

/// `BitVec |= &BitVec`: or-s in the bits of `b` that fall within `a`.
#[verifier::external_body]
fn bv_or_assign(a: &mut WordBits, b: &WordBits)
    ensures
        bv_elems(*final(a)) == bv_elems(*old(a)).union(
            bv_elems(*b).filter(|i: usize| (i as int) < bv_len(*old(a))),
        ),
        bv_len(*final(a)) == bv_len(*old(a)),
{
    a.inner |= &b.inner;
}

/// `BitVec &= &BitVec`: and-s with the bits of `b`; bits past the end of
/// `b` are cleared.
#[verifier::external_body]
fn bv_and_assign(a: &mut WordBits, b: &WordBits)
    ensures
        bv_elems(*final(a)) == bv_elems(*old(a)).intersect(bv_elems(*b)),
        bv_len(*final(a)) == bv_len(*old(a)),
{
    a.inner &= &b.inner;
}

/// `BitVec ^= &BitVec`: xor-s in the bits of `b` that fall within `a`.
#[verifier::external_body]
fn bv_xor_assign(a: &mut WordBits, b: &WordBits)
    ensures
        ({
            let o = bv_elems(*b).filter(|i: usize| (i as int) < bv_len(*old(a)));
            bv_elems(*final(a)) == bv_elems(*old(a)).difference(o).union(o.difference(bv_elems(*old(a))))
        }),
        bv_len(*final(a)) == bv_len(*old(a)),
{
    a.inner ^= &b.inner;
}

/// `BitVec::clone`: the same bits.
#[verifier::external_body]
fn bv_clone(b: &WordBits) -> (c: WordBits)
    ensures
        bv_elems(c) == bv_elems(*b),
        bv_len(c) == bv_len(*b),
{
    WordBits { inner: b.inner.clone() }
}

/// `!BitVec`: every bit flipped.
#[verifier::external_body]
fn bv_not(b: WordBits) -> (c: WordBits)
    ensures
        bv_elems(c) == Set::new(|i: usize| (i as int) < bv_len(b) && !bv_elems(b).contains(i)),
        bv_len(c) == bv_len(b),
{
    WordBits { inner: !b.inner }
}

/// The elements, as the set bits of a bit vector of at least 2^16 bits.
pub struct LibBitVec {
    set: WordBits,
}

impl SetInt for LibBitVec {
    closed spec fn view(&self) -> Set<u16> {
        narrow_usize(bv_elems(self.set))
    }

    closed spec fn wf(&self) -> bool {
        &&& below_usize(bv_elems(self.set))
        &&& bv_len(self.set) >= 65536
    }

    fn clear(&mut self) {
        bv_clear_all(&mut self.set);
        assert(self@ =~= Set::<u16>::empty());
    }

    fn insert(&mut self, n: u16) {
        bv_set(&mut self.set, n as usize, true);
        assert(self@ =~= old(self)@.insert(n));
    }

    fn remove(&mut self, n: u16) -> (was_present: bool) {
        let prev = bv_get(&self.set, n as usize);
        bv_set(&mut self.set, n as usize, false);
        assert(self@ =~= old(self)@.remove(n));
        prev
    }

    fn contains(&self, n: u16) -> (present: bool) {
        bv_get(&self.set, n as usize)
    }

    fn len(&self) -> (count: usize) {
        proof {
            lemma_narrow_usize_len(bv_elems(self.set));
        }
        bv_count_ones(&self.set)
    }

    fn iter(&self) -> (elems: Vec<u16>)
        ensures
            increasing(elems@),
    {
        let values = bv_iter_ones(&self.set);
        proof {
            assert forall|k: int| 0 <= k < values@.len() implies #[trigger] values@[k] < 65536 by {
                assert(values@.to_set().contains(values@[k]));
            }
        }
        let elems = narrow_vec_usize(&values);
        assert forall|a: int, b: int| 0 <= a < b < elems@.len() implies elems@[a] < elems@[b] by {
            assert(elems@[a] as usize == values@[a] && elems@[b] as usize == values@[b]);
        }
        elems
    }

    fn union_with(&mut self, other: &Self) {
        bv_or_assign(&mut self.set, &other.set);
        assert(self@ =~= old(self)@.union(other@));
    }

    fn intersection_with(&mut self, other: &Self) {
        bv_and_assign(&mut self.set, &other.set);
        assert(self@ =~= old(self)@.intersect(other@));
    }

    fn difference_with(&mut self, other: &Self) {
        let mut tmp = bv_clone(&other.set);
        tmp = bv_not(tmp);
        bv_and_assign(&mut self.set, &tmp);
        assert(self@ =~= old(self)@.difference(other@));
    }

    fn symmetric_difference_with(&mut self, other: &Self) {
        bv_xor_assign(&mut self.set, &other.set);
        assert(self@ =~= sym_diff(old(self)@, other@));
    }
}

impl LibBitVec {
    /// The number of bits of the underlying bit vector: every index below it
    /// can be set.
    pub closed spec fn bit_len(&self) -> nat {
        bv_len(self.set)
    }
}

impl SetIntConstruct for LibBitVec {
    fn new() -> (s: Self)
        ensures
            s.bit_len() == 65536,
    {
        let s = LibBitVec { set: bv_zeros(65536) };
        assert(s@ =~= Set::<u16>::empty());
        s
    }

    fn with_capacity(capacity: usize) -> (s: Self)
        ensures
            s.bit_len() == if capacity < 65536 { 65536 } else { capacity as nat },
    {
        let bits: usize = if capacity < 65536 {
            65536
        } else {
            capacity
        };
        let s = LibBitVec { set: bv_zeros(bits) };
        assert(s@ =~= Set::<u16>::empty());
        s
    }
}

} // verus!
