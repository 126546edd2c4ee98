//! A set held in a roaring bitmap of the `croaring` crate, the binding to
//! the C library CRoaring.

use croaring::Bitmap;
use vstd::prelude::*;
use crate::set_int::{increasing, sym_diff, SetInt, SetIntConstruct};
use crate::types::narrow::{below_u32, lemma_narrow_u32_len, narrow_u32, narrow_vec_u32};

verus! {

#[verifier::external_type_specification]
#[verifier::external_body]
pub struct ExCBitmap(Bitmap);

/// The integers that a CRoaring bitmap holds.
pub uninterp spec fn croaring_elems(b: Bitmap) -> Set<u32>;

/// `Bitmap::new`: an empty bitmap.
#[verifier::external_body]
fn croaring_new() -> (b: Bitmap)
    ensures
        croaring_elems(b) == Set::<u32>::empty(),
{
    Bitmap::new()
}

/// `Bitmap::clear`: takes every integer out.
#[verifier::external_body]
fn croaring_clear(b: &mut Bitmap)
    ensures
        croaring_elems(*final(b)) == Set::<u32>::empty(),
{
    b.clear()
}

/// `Bitmap::add`: adds `value`.
#[verifier::external_body]
fn croaring_add(b: &mut Bitmap, value: u32)
    ensures
        croaring_elems(*final(b)) == croaring_elems(*old(b)).insert(value),
{
    b.add(value)
}

/// `Bitmap::remove`: takes `value` out.
#[verifier::external_body]
fn croaring_remove(b: &mut Bitmap, value: u32)
    ensures
        croaring_elems(*final(b)) == croaring_elems(*old(b)).remove(value),
{
    b.remove(value)
}

/// `Bitmap::contains`: whether `value` belongs to the bitmap.
#[verifier::external_body]
fn croaring_contains(b: &Bitmap, value: u32) -> (present: bool)
    ensures
        present == croaring_elems(*b).contains(value),
{
    b.contains(value)
}

/// `Bitmap::cardinality`: the number of integers held.
#[verifier::external_body]
fn croaring_cardinality(b: &Bitmap) -> (count: u64)
    ensures
        count == croaring_elems(*b).len(),
{
    b.cardinality()
}

/// `Bitmap::iter`, collected: every integer held, in ascending order.
#[verifier::external_body]
fn croaring_values(b: &Bitmap) -> (values: Vec<u32>)
    ensures
        values@.to_set() == croaring_elems(*b),
        forall|i: int, j: int| 0 <= i < j < values@.len() ==> values@[i] < values@[j],
{
    b.iter().collect()
}

/// `Bitmap::or_inplace`: the union, in place.
#[verifier::external_body]
fn croaring_or_inplace(a: &mut Bitmap, b: &Bitmap)
    ensures
        croaring_elems(*final(a)) == croaring_elems(*old(a)).union(croaring_elems(*b)),
{
    a.or_inplace(b)
}

/// `Bitmap::and_inplace`: the intersection, in place.
#[verifier::external_body]
fn croaring_and_inplace(a: &mut Bitmap, b: &Bitmap)
    ensures
        croaring_elems(*final(a)) == croaring_elems(*old(a)).intersect(croaring_elems(*b)),
{
    a.and_inplace(b)
}

/// `Bitmap::andnot_inplace`: the difference, in place.
#[verifier::external_body]
fn croaring_andnot_inplace(a: &mut Bitmap, b: &Bitmap)
    ensures
        croaring_elems(*final(a)) == croaring_elems(*old(a)).difference(croaring_elems(*b)),
{
    a.andnot_inplace(b)
}

/// `Bitmap::xor_inplace`: the symmetric difference, in place.
#[verifier::external_body]
fn croaring_xor_inplace(a: &mut Bitmap, b: &Bitmap)
    ensures
        croaring_elems(*final(a)) == croaring_elems(*old(a)).difference(croaring_elems(*b)).union(
            croaring_elems(*b).difference(croaring_elems(*old(a))),
        ),
{
    a.xor_inplace(b)
}

/// The elements, in a CRoaring bitmap of 32-bit integers.
pub struct LibCRoaring {
    bitmap: Bitmap,
}

impl SetInt for LibCRoaring {
    closed spec fn view(&self) -> Set<u16> {
        narrow_u32(croaring_elems(self.bitmap))
    }

    closed spec fn wf(&self) -> bool {
        below_u32(croaring_elems(self.bitmap))
    }

    fn clear(&mut self) {
        croaring_clear(&mut self.bitmap);
        assert(self@ =~= Set::<u16>::empty());
    }

    fn insert(&mut self, n: u16) {
        croaring_add(&mut self.bitmap, n as u32);
        assert(self@ =~= old(self)@.insert(n));
    }

    fn remove(&mut self, n: u16) -> (was_present: bool) {
        let res = croaring_contains(&self.bitmap, n as u32);
        croaring_remove(&mut self.bitmap, n as u32);
        assert(self@ =~= old(self)@.remove(n));
        res
    }

    fn contains(&self, n: u16) -> (present: bool) {
        croaring_contains(&self.bitmap, n as u32)
    }

    fn len(&self) -> (count: usize) {
        let c = croaring_cardinality(&self.bitmap);
        proof {
            lemma_narrow_u32_len(croaring_elems(self.bitmap));
        }
        c as usize
    }

    fn iter(&self) -> (elems: Vec<u16>)
        ensures
            increasing(elems@),
    {
        let values = croaring_values(&self.bitmap);
        proof {
            assert forall|k: int| 0 <= k < values@.len() implies #[trigger] values@[k] < 65536 by {
                assert(values@.to_set().contains(values@[k]));
            }
        }
        narrow_vec_u32(&values)
    }

    fn union_with(&mut self, other: &Self) {
        croaring_or_inplace(&mut self.bitmap, &other.bitmap);
        assert(self@ =~= old(self)@.union(other@));
    }

    fn intersection_with(&mut self, other: &Self) {
        croaring_and_inplace(&mut self.bitmap, &other.bitmap);
        assert(self@ =~= old(self)@.intersect(other@));
    }

    fn difference_with(&mut self, other: &Self) {
        croaring_andnot_inplace(&mut self.bitmap, &other.bitmap);
        assert(self@ =~= old(self)@.difference(other@));
    }

    fn symmetric_difference_with(&mut self, other: &Self) {
        croaring_xor_inplace(&mut self.bitmap, &other.bitmap);
        assert(self@ =~= sym_diff(old(self)@, other@));
    }
}

impl SetIntConstruct for LibCRoaring {
    fn new() -> (s: Self) {
        let s = LibCRoaring { bitmap: croaring_new() };
        assert(s@ =~= Set::<u16>::empty());
        s
    }

    fn with_capacity(_capacity: usize) -> (s: Self) {
        Self::new()
    }
}

} // verus!
