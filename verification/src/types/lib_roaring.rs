//! A set held in a roaring bitmap of the `roaring` crate.

use roaring::RoaringBitmap;
use vstd::prelude::*;
use crate::set_int::{increasing, sym_diff, SetInt, SetIntConstruct};
use crate::types::narrow::{below_u32, lemma_narrow_u32_len, narrow_u32, narrow_vec_u32};

verus! {

#[verifier::external_type_specification]
#[verifier::external_body]
pub struct ExRoaringBitmap(RoaringBitmap);

/// The integers that a roaring bitmap holds.
pub uninterp spec fn roaring_elems(b: RoaringBitmap) -> Set<u32>;

/// `RoaringBitmap::new`: an empty bitmap.
#[verifier::external_body]
fn roaring_new() -> (b: RoaringBitmap)
    ensures
        roaring_elems(b) == Set::<u32>::empty(),
{
    RoaringBitmap::new()
}

/// `RoaringBitmap::clear`: takes every integer out.
#[verifier::external_body]
fn roaring_clear(b: &mut RoaringBitmap)
    ensures
        roaring_elems(*final(b)) == Set::<u32>::empty(),
{
    b.clear()
}

/// `RoaringBitmap::insert`: adds `value`; tells whether it was absent.
#[verifier::external_body]
fn roaring_insert(b: &mut RoaringBitmap, value: u32) -> (absent: bool)
    ensures
        roaring_elems(*final(b)) == roaring_elems(*old(b)).insert(value),
        absent == !roaring_elems(*old(b)).contains(value),
{
    b.insert(value)
}

/// `RoaringBitmap::remove`: takes `value` out; tells whether it was there.
#[verifier::external_body]
fn roaring_remove(b: &mut RoaringBitmap, value: u32) -> (present: bool)
    ensures
        roaring_elems(*final(b)) == roaring_elems(*old(b)).remove(value),
        present == roaring_elems(*old(b)).contains(value),
{
    b.remove(value)
}

/// `RoaringBitmap::contains`: whether `value` belongs to the bitmap.
#[verifier::external_body]
fn roaring_contains(b: &RoaringBitmap, value: u32) -> (present: bool)
    ensures
        present == roaring_elems(*b).contains(value),
{
    b.contains(value)
}

/// `RoaringBitmap::len`: the number of distinct integers held.
#[verifier::external_body]
fn roaring_len(b: &RoaringBitmap) -> (count: u64)
    ensures
        count == roaring_elems(*b).len(),
{
    b.len()
}

/// `RoaringBitmap::iter`, collected: every integer held, in increasing
/// order.
#[verifier::external_body]
fn roaring_values(b: &RoaringBitmap) -> (values: Vec<u32>)
    ensures
        values@.to_set() == roaring_elems(*b),
        forall|i: int, j: int| 0 <= i < j < values@.len() ==> values@[i] < values@[j],
{
    b.iter().collect()
}

/// `RoaringBitmap |= &RoaringBitmap`: the union, in place.
#[verifier::external_body]
fn roaring_or_assign(a: &mut RoaringBitmap, b: &RoaringBitmap)
    ensures
        roaring_elems(*final(a)) == roaring_elems(*old(a)).union(roaring_elems(*b)),
{
    *a |= b;
}

/// `RoaringBitmap &= &RoaringBitmap`: the intersection, in place.
#[verifier::external_body]
fn roaring_and_assign(a: &mut RoaringBitmap, b: &RoaringBitmap)
    ensures
        roaring_elems(*final(a)) == roaring_elems(*old(a)).intersect(roaring_elems(*b)),
{
    *a &= b;
}

/// `RoaringBitmap -= &RoaringBitmap`: the difference, in place.
#[verifier::external_body]
fn roaring_sub_assign(a: &mut RoaringBitmap, b: &RoaringBitmap)
    ensures
        roaring_elems(*final(a)) == roaring_elems(*old(a)).difference(roaring_elems(*b)),
{
    *a -= b;
}

/// `RoaringBitmap ^= &RoaringBitmap`: the symmetric difference, in place.
#[verifier::external_body]
fn roaring_xor_assign(a: &mut RoaringBitmap, b: &RoaringBitmap)
    ensures
        roaring_elems(*final(a)) == roaring_elems(*old(a)).difference(roaring_elems(*b)).union(
            roaring_elems(*b).difference(roaring_elems(*old(a))),
        ),
{
    *a ^= b;
}

/// The elements, in a roaring bitmap of 32-bit integers.
pub struct LibRoaring {
    bitmap: RoaringBitmap,
}

impl SetInt for LibRoaring {
    closed spec fn view(&self) -> Set<u16> {
        narrow_u32(roaring_elems(self.bitmap))
    }

    closed spec fn wf(&self) -> bool {
        below_u32(roaring_elems(self.bitmap))
    }

    fn clear(&mut self) {
        roaring_clear(&mut self.bitmap);
        assert(self@ =~= Set::<u16>::empty());
    }

    fn insert(&mut self, n: u16) {
        roaring_insert(&mut self.bitmap, n as u32);
        assert(self@ =~= old(self)@.insert(n));
    }

    fn remove(&mut self, n: u16) -> (was_present: bool) {
        let r = roaring_remove(&mut self.bitmap, n as u32);
        assert(self@ =~= old(self)@.remove(n));
        r
    }

    fn contains(&self, n: u16) -> (present: bool) {
        roaring_contains(&self.bitmap, n as u32)
    }

    fn len(&self) -> (count: usize) {
        let c = roaring_len(&self.bitmap);
        proof {
            lemma_narrow_u32_len(roaring_elems(self.bitmap));
        }
        c as usize
    }

    fn iter(&self) -> (elems: Vec<u16>)
        ensures
            increasing(elems@),
    {
        let values = roaring_values(&self.bitmap);
        proof {
            assert forall|k: int| 0 <= k < values@.len() implies #[trigger] values@[k] < 65536 by {
                assert(values@.to_set().contains(values@[k]));
            }
        }
        narrow_vec_u32(&values)
    }

    fn union_with(&mut self, other: &Self) {
        roaring_or_assign(&mut self.bitmap, &other.bitmap);
        assert(self@ =~= old(self)@.union(other@));
    }

    fn intersection_with(&mut self, other: &Self) {
        roaring_and_assign(&mut self.bitmap, &other.bitmap);
        assert(self@ =~= old(self)@.intersect(other@));
    }

    fn difference_with(&mut self, other: &Self) {
        roaring_sub_assign(&mut self.bitmap, &other.bitmap);
        assert(self@ =~= old(self)@.difference(other@));
    }

    fn symmetric_difference_with(&mut self, other: &Self) {
        roaring_xor_assign(&mut self.bitmap, &other.bitmap);
        assert(self@ =~= sym_diff(old(self)@, other@));
    }
}

impl SetIntConstruct for LibRoaring {
    fn new() -> (s: Self) {
        let s = LibRoaring { bitmap: roaring_new() };
        assert(s@ =~= Set::<u16>::empty());
        s
    }

    fn with_capacity(_capacity: usize) -> (s: Self) {
        Self::new()
    }
}

} // verus!
