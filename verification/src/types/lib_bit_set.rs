//! A set held in a `BitSet` of the `bit-set` crate, over blocks of 16 bits.

use vstd::prelude::*;
use crate::count::lemma_push_to_set;
use crate::set_int::{increasing, sym_diff, SetInt, SetIntConstruct};
use crate::types::narrow::{below_usize, lemma_narrow_usize_len, narrow_usize, narrow_vec_usize};

verus! {

/// A bit set of the `bit-set` crate over blocks of 16 bits, which Verus
/// sees only through the functions below (Verus does not take a declaration
/// of it with the crate's block trait as a bound).
#[verifier::external_body]
pub struct BlockBits {
    inner: bit_set::BitSet<u16>,
}

/// The integers that a bit set of the `bit-set` crate holds.
pub uninterp spec fn bit_set_elems(s: BlockBits) -> Set<usize>;

/// `BitSet::new_general`: an empty bit set.
#[verifier::external_body]
fn bit_set_new() -> (s: BlockBits)
    ensures
        bit_set_elems(s) == Set::<usize>::empty(),
{
    BlockBits { inner: bit_set::BitSet::<u16>::new_general() }
}

/// `BitSet::with_capacity_general`: an empty bit set with room for `nbits`
/// bits.
#[verifier::external_body]
fn bit_set_with_capacity(nbits: usize) -> (s: BlockBits)
    ensures
        bit_set_elems(s) == Set::<usize>::empty(),
{
    BlockBits { inner: bit_set::BitSet::<u16>::with_capacity_general(nbits) }
}

/// `BitSet::make_empty`: clears every bit.
#[verifier::external_body]
fn bit_set_make_empty(s: &mut BlockBits)
    ensures
        bit_set_elems(*final(s)) == Set::<usize>::empty(),
{
    s.inner.make_empty()
}

/// `BitSet::insert`: adds `value`, growing the bits as needed (to
/// `value + 1` bits, which must fit in a `usize`); tells whether it was
/// absent.
#[verifier::external_body]
fn bit_set_insert(s: &mut BlockBits, value: usize) -> (absent: bool)
    requires
        value < usize::MAX,
    ensures
        bit_set_elems(*final(s)) == bit_set_elems(*old(s)).insert(value),
        absent == !bit_set_elems(*old(s)).contains(value),
{
    s.inner.insert(value)
}

/// `BitSet::remove`: takes `value` out; tells whether it was there.
#[verifier::external_body]
fn bit_set_remove(s: &mut BlockBits, value: usize) -> (present: bool)
    ensures
        bit_set_elems(*final(s)) == bit_set_elems(*old(s)).remove(value),
        present == bit_set_elems(*old(s)).contains(value),
{
    s.inner.remove(value)
}

/// `BitSet::contains`: whether `value` belongs to the set.
#[verifier::external_body]
fn bit_set_contains(s: &BlockBits, value: usize) -> (present: bool)
    ensures
        present == bit_set_elems(*s).contains(value),
{
    s.inner.contains(value)
}

/// `BitSet::count`: the number of set bits.
#[verifier::external_body]
fn bit_set_count(s: &BlockBits) -> (count: usize)
    ensures
        count == bit_set_elems(*s).len(),
{
    s.inner.count()
}

/// `BitSet::iter`, collected: each integer held, once, in increasing
/// order (the iterator walks the blocks from the first, and each block
/// from its lowest set bit).
#[verifier::external_body]
fn bit_set_values(s: &BlockBits) -> (values: Vec<usize>)
    ensures
        values@.to_set() == bit_set_elems(*s),
        values@.no_duplicates(),
        forall|a: int, b: int| 0 <= a < b < values@.len() ==> #[trigger] values@[a] < #[trigger] values@[b],
{
    s.inner.iter().collect()
}

/// `BitSet::intersect_with`: the intersection, in place.
#[verifier::external_body]
fn bit_set_intersect_with(a: &mut BlockBits, b: &BlockBits)
    ensures
        bit_set_elems(*final(a)) == bit_set_elems(*old(a)).intersect(bit_set_elems(*b)),
{
    a.inner.intersect_with(&b.inner)
}

/// `BitSet::difference_with`: the difference, in place.
#[verifier::external_body]
fn bit_set_difference_with(a: &mut BlockBits, b: &BlockBits)
    ensures
        bit_set_elems(*final(a)) == bit_set_elems(*old(a)).difference(bit_set_elems(*b)),
{
    a.inner.difference_with(&b.inner)
}

/// `BitSet::symmetric_difference_with`: the symmetric difference, in place.
#[verifier::external_body]
fn bit_set_symmetric_difference_with(a: &mut BlockBits, b: &BlockBits)
    ensures
        bit_set_elems(*final(a)) == bit_set_elems(*old(a)).difference(bit_set_elems(*b)).union(
            bit_set_elems(*b).difference(bit_set_elems(*old(a))),
        ),
{
    a.inner.symmetric_difference_with(&b.inner)
}

/// The elements, as the set bits of a `bit-set` bit set.
pub struct BitSet {
    bit_set: BlockBits,
}

impl SetInt for BitSet {
    closed spec fn view(&self) -> Set<u16> {
        narrow_usize(bit_set_elems(self.bit_set))
    }

    closed spec fn wf(&self) -> bool {
        below_usize(bit_set_elems(self.bit_set))
    }

    fn clear(&mut self) {
        bit_set_make_empty(&mut self.bit_set);
        assert(self@ =~= Set::<u16>::empty());
    }

    fn insert(&mut self, n: u16) {
        bit_set_insert(&mut self.bit_set, n as usize);
        assert(self@ =~= old(self)@.insert(n));
    }

    fn remove(&mut self, n: u16) -> (was_present: bool) {
        let r = bit_set_remove(&mut self.bit_set, n as usize);
        assert(self@ =~= old(self)@.remove(n));
        r
    }

    fn contains(&self, n: u16) -> (present: bool) {
        bit_set_contains(&self.bit_set, n as usize)
    }

    fn len(&self) -> (count: usize) {
        proof {
            lemma_narrow_usize_len(bit_set_elems(self.bit_set));
        }
        bit_set_count(&self.bit_set)
    }

    fn iter(&self) -> (elems: Vec<u16>)
        ensures
            increasing(elems@),
    {
        let values = bit_set_values(&self.bit_set);
        proof {
            assert forall|k: int| 0 <= k < values@.len() implies #[trigger] values@[k] < 65536 by {
                assert(values@.to_set().contains(values@[k]));
            }
        }
        let elems = narrow_vec_usize(&values);
        assert forall|a: int, b: int| 0 <= a < b < elems@.len() implies elems@[a] < elems@[b] by {
            assert(elems@[a] as usize == values@[a] && elems@[b] as usize == values@[b]);
        }
        elems
    }

    fn union_with(&mut self, other: &Self) {
        let items = other.iter();
        let mut i: usize = 0;
        while i < items.len()
            invariant
                self.wf(),
                i <= items@.len(),
                self@ == old(self)@.union(items@.take(i as int).to_set()),
            decreases items@.len() - i,
        {
            let item = items[i];
            self.insert(item);
            proof {
                assert(items@.take(i + 1) =~= items@.take(i as int).push(item));
                lemma_push_to_set(items@.take(i as int), item);
            }
            i = i + 1;
            assert(self@ =~= old(self)@.union(items@.take(i as int).to_set()));
        }
        assert(items@.take(items@.len() as int) =~= items@);
    }

    fn intersection_with(&mut self, other: &Self) {
        bit_set_intersect_with(&mut self.bit_set, &other.bit_set);
        assert(self@ =~= old(self)@.intersect(other@));
    }

    fn difference_with(&mut self, other: &Self) {
        bit_set_difference_with(&mut self.bit_set, &other.bit_set);
        assert(self@ =~= old(self)@.difference(other@));
    }

    fn symmetric_difference_with(&mut self, other: &Self) {
        bit_set_symmetric_difference_with(&mut self.bit_set, &other.bit_set);
        assert(self@ =~= sym_diff(old(self)@, other@));
    }
}

impl SetIntConstruct for BitSet {
    fn new() -> (s: Self) {
        let s = BitSet { bit_set: bit_set_new() };
        assert(s@ =~= Set::<u16>::empty());
        s
    }

    fn with_capacity(capacity: usize) -> (s: Self) {
        let s = BitSet { bit_set: bit_set_with_capacity(capacity) };
        assert(s@ =~= Set::<u16>::empty());
        s
    }
}

} // verus!
