//! A set held in a `FixedBitSet` of the `fixedbitset` crate, with room for
//! every `u16`.

use fixedbitset::FixedBitSet;
use vstd::prelude::*;
use crate::set_int::{increasing, sym_diff, SetInt, SetIntConstruct};
use crate::types::narrow::{below_usize, lemma_narrow_usize_len, narrow_usize, narrow_vec_usize};

verus! {

#[verifier::external_type_specification]
#[verifier::external_body]
pub struct ExFixedBitSet(FixedBitSet);

/// The indices of the set bits of a fixed bit set.
pub uninterp spec fn fixed_elems(s: FixedBitSet) -> Set<usize>;

/// The number of bits of a fixed bit set.
pub uninterp spec fn fixed_len(s: FixedBitSet) -> nat;

/// `FixedBitSet::with_capacity`: `bits` bits, all clear.
#[verifier::external_body]
fn fixed_with_capacity(bits: usize) -> (s: FixedBitSet)
    ensures
        fixed_elems(s) == Set::<usize>::empty(),
        fixed_len(s) == bits,
{
    FixedBitSet::with_capacity(bits)
}

/// `FixedBitSet::clear`: clears every bit; the length stays.
#[verifier::external_body]
fn fixed_clear(s: &mut FixedBitSet)
    ensures
        fixed_elems(*final(s)) == Set::<usize>::empty(),
        fixed_len(*final(s)) == fixed_len(*old(s)),
{
    s.clear()
}

/// `FixedBitSet::insert`: sets bit `bit`, which must be in bounds (it
/// panics otherwise).
#[verifier::external_body]
fn fixed_insert(s: &mut FixedBitSet, bit: usize)
    requires
        bit < fixed_len(*old(s)),
    ensures
        fixed_elems(*final(s)) == fixed_elems(*old(s)).insert(bit),
        fixed_len(*final(s)) == fixed_len(*old(s)),
{
    s.insert(bit)
}

/// `FixedBitSet::set(bit, false)`: clears bit `bit`, which must be in
/// bounds (it panics otherwise).
#[verifier::external_body]
fn fixed_unset(s: &mut FixedBitSet, bit: usize)
    requires
        bit < fixed_len(*old(s)),
    ensures
        fixed_elems(*final(s)) == fixed_elems(*old(s)).remove(bit),
        fixed_len(*final(s)) == fixed_len(*old(s)),
{
    s.set(bit, false)
}

/// `FixedBitSet::contains`: whether bit `bit` is set (false out of bounds).
#[verifier::external_body]
fn fixed_contains(s: &FixedBitSet, bit: usize) -> (present: bool)
    ensures
        present == fixed_elems(*s).contains(bit),
{
    s.contains(bit)
}

/// `FixedBitSet::count_ones(..)`: the number of set bits.
#[verifier::external_body]
fn fixed_count_ones(s: &FixedBitSet) -> (count: usize)
    ensures
        count == fixed_elems(*s).len(),
{
    s.count_ones(..)
}

/// `FixedBitSet::ones`, collected: the index of each set bit, once, in
/// increasing order (blocks from the front, each from its lowest set bit).
#[verifier::external_body]
fn fixed_ones(s: &FixedBitSet) -> (values: Vec<usize>)
    ensures
        values@.to_set() == fixed_elems(*s),
        values@.no_duplicates(),
        forall|a: int, b: int| 0 <= a < b < values@.len() ==> #[trigger] values@[a] < #[trigger] values@[b],
{
    s.ones().collect()
}

/// `FixedBitSet::union_with`: the union, in place; the length grows to
/// that of `b` when it is longer.
#[verifier::external_body]
fn fixed_union_with(a: &mut FixedBitSet, b: &FixedBitSet)
    ensures
        fixed_elems(*final(a)) == fixed_elems(*old(a)).union(fixed_elems(*b)),
        fixed_len(*final(a)) >= fixed_len(*old(a)),
{
    a.union_with(b)
}

/// `FixedBitSet::intersect_with`: the intersection, in place; the length
/// stays.
#[verifier::external_body]
fn fixed_intersect_with(a: &mut FixedBitSet, b: &FixedBitSet)
    ensures
        fixed_elems(*final(a)) == fixed_elems(*old(a)).intersect(fixed_elems(*b)),
        fixed_len(*final(a)) == fixed_len(*old(a)),
{
    a.intersect_with(b)
}

/// `FixedBitSet::difference_with`: the difference, in place; the length
/// stays.
#[verifier::external_body]
fn fixed_difference_with(a: &mut FixedBitSet, b: &FixedBitSet)
    ensures
        fixed_elems(*final(a)) == fixed_elems(*old(a)).difference(fixed_elems(*b)),
        fixed_len(*final(a)) == fixed_len(*old(a)),
{
    a.difference_with(b)
}

/// `FixedBitSet::symmetric_difference_with`: the symmetric difference, in
/// place; the length grows to that of `b` when it is longer.
#[verifier::external_body]
fn fixed_symmetric_difference_with(a: &mut FixedBitSet, b: &FixedBitSet)
    ensures
        fixed_elems(*final(a)) == fixed_elems(*old(a)).difference(fixed_elems(*b)).union(
            fixed_elems(*b).difference(fixed_elems(*old(a))),
        ),
        fixed_len(*final(a)) >= fixed_len(*old(a)),
{
    a.symmetric_difference_with(b)
}

/// The elements, as the set bits of a fixed bit set of at least 2^16 bits.
pub struct LibFixedBitSet {
    set: FixedBitSet,
}

impl SetInt for LibFixedBitSet {
    closed spec fn view(&self) -> Set<u16> {
        narrow_usize(fixed_elems(self.set))
    }

    closed spec fn wf(&self) -> bool {
        &&& below_usize(fixed_elems(self.set))
        &&& fixed_len(self.set) >= 65536
    }

    fn clear(&mut self) {
        fixed_clear(&mut self.set);
        assert(self@ =~= Set::<u16>::empty());
    }

    fn insert(&mut self, n: u16) {
        fixed_insert(&mut self.set, n as usize);
        assert(self@ =~= old(self)@.insert(n));
    }

    fn remove(&mut self, n: u16) -> (was_present: bool) {
        let prev = fixed_contains(&self.set, n as usize);
        fixed_unset(&mut self.set, n as usize);
        assert(self@ =~= old(self)@.remove(n));
        prev
    }

    fn contains(&self, n: u16) -> (present: bool) {
        fixed_contains(&self.set, n as usize)
    }

    fn len(&self) -> (count: usize) {
        proof {
            lemma_narrow_usize_len(fixed_elems(self.set));
        }
        fixed_count_ones(&self.set)
    }

    fn iter(&self) -> (elems: Vec<u16>)
        ensures
            increasing(elems@),
    {
        let values = fixed_ones(&self.set);
        proof {
            assert forall|k: int| 0 <= k < values@.len() implies #[trigger] values@[k] < 65536 by {
                assert(values@.to_set().contains(values@[k]));
            }
        }
        let elems = narrow_vec_usize(&values);
        assert forall|a: int, b: int| 0 <= a < b < elems@.len() implies elems@[a] < elems@[b] by {
            assert(elems@[a] as usize == values@[a] && elems@[b] as usize == values@[b]);
        }
        elems
    }

    fn union_with(&mut self, other: &Self) {
        fixed_union_with(&mut self.set, &other.set);
        assert(self@ =~= old(self)@.union(other@));
    }

    fn intersection_with(&mut self, other: &Self) {
        fixed_intersect_with(&mut self.set, &other.set);
        assert(self@ =~= old(self)@.intersect(other@));
    }

    fn difference_with(&mut self, other: &Self) {
        fixed_difference_with(&mut self.set, &other.set);
        assert(self@ =~= old(self)@.difference(other@));
    }

    fn symmetric_difference_with(&mut self, other: &Self) {
        fixed_symmetric_difference_with(&mut self.set, &other.set);
        assert(self@ =~= sym_diff(old(self)@, other@));
    }
}

impl LibFixedBitSet {
    /// The number of bits of the underlying bit vector: every index below it
    /// can be set.
    pub closed spec fn bit_len(&self) -> nat {
        fixed_len(self.set)
    }
}

impl SetIntConstruct for LibFixedBitSet {
    fn new() -> (s: Self)
        ensures
            s.bit_len() == 65536,
    {
        let s = LibFixedBitSet { set: fixed_with_capacity(65536) };
        assert(s@ =~= Set::<u16>::empty());
        s
    }

    fn with_capacity(capacity: usize) -> (s: Self)
        ensures
            s.bit_len() == if capacity < 65536 { 65536 } else { capacity as nat },
    {
        let bits: usize = if capacity < 65536 {
            65536
        } else {
            capacity
        };
        let s = LibFixedBitSet { set: fixed_with_capacity(bits) };
        assert(s@ =~= Set::<u16>::empty());
        s
    }
}

} // verus!
