//! A set held in an `IDLBitRange` of the `idlset` crate (its second
//! version), a sorted list of ids or of 64-bit masks.

use idlset::v2::IDLBitRange;
use idlset::AndNot;
use vstd::prelude::*;
use crate::set_int::{increasing, sym_diff, SetInt, SetIntConstruct};
use crate::types::narrow::{below_u64, lemma_narrow_u64_len, narrow_u64, narrow_vec_u64};

verus! {

#[verifier::external_type_specification]
#[verifier::external_body]
pub struct ExIDLBitRange(IDLBitRange);

/// The ids that an id list holds.
pub uninterp spec fn idl_elems(s: IDLBitRange) -> Set<u64>;

/// `IDLBitRange::new`: an empty list.
#[verifier::external_body]
fn idl_new() -> (s: IDLBitRange)
    ensures
        idl_elems(s) == Set::<u64>::empty(),
{
    IDLBitRange::new()
}

/// `IDLBitRange::insert_id`: adds `id`.
#[verifier::external_body]
fn idl_insert_id(s: &mut IDLBitRange, id: u64)
    ensures
        idl_elems(*final(s)) == idl_elems(*old(s)).insert(id),
{
    s.insert_id(id)
}

/// `IDLBitRange::remove_id`: takes `id` out (nothing happens when it is
/// absent).
#[verifier::external_body]
fn idl_remove_id(s: &mut IDLBitRange, id: u64)
    ensures
        idl_elems(*final(s)) == idl_elems(*old(s)).remove(id),
{
    s.remove_id(id)
}

/// `IDLBitRange::contains`: whether `id` belongs to the list.
#[verifier::external_body]
fn idl_contains(s: &IDLBitRange, id: u64) -> (present: bool)
    ensures
        present == idl_elems(*s).contains(id),
{
    s.contains(id)
}

/// `IDLBitRange::len`: the number of ids.
#[verifier::external_body]
fn idl_len(s: &IDLBitRange) -> (count: usize)
    ensures
        count == idl_elems(*s).len(),
{
    s.len()
}

/// Iterating `&IDLBitRange`, collected: each id once, in increasing order
/// (the sparse list and the compressed ranges are kept sorted).
#[verifier::external_body]
fn idl_values(s: &IDLBitRange) -> (values: Vec<u64>)
    ensures
        values@.to_set() == idl_elems(*s),
        values@.no_duplicates(),
        forall|a: int, b: int| 0 <= a < b < values@.len() ==> #[trigger] values@[a] < #[trigger] values@[b],
{
    s.into_iter().collect()
}

/// `&IDLBitRange | &IDLBitRange`: the union.
#[verifier::external_body]
fn idl_or(a: &IDLBitRange, b: &IDLBitRange) -> (r: IDLBitRange)
    ensures
        idl_elems(r) == idl_elems(*a).union(idl_elems(*b)),
{
    a | b
}

/// `&IDLBitRange & &IDLBitRange`: the intersection.
#[verifier::external_body]
fn idl_and(a: &IDLBitRange, b: &IDLBitRange) -> (r: IDLBitRange)
    ensures
        idl_elems(r) == idl_elems(*a).intersect(idl_elems(*b)),
{
    a & b
}

/// `AndNot::andnot` on `&IDLBitRange`: the ids of `a` that `b` lacks.
#[verifier::external_body]
fn idl_andnot(a: &IDLBitRange, b: &IDLBitRange) -> (r: IDLBitRange)
    ensures
        idl_elems(r) == idl_elems(*a).difference(idl_elems(*b)),
{
    a.andnot(b)
}

/// The elements, as ids in an id list.
pub struct LibIdlset {
    set: IDLBitRange,
}

impl SetInt for LibIdlset {
    closed spec fn view(&self) -> Set<u16> {
        narrow_u64(idl_elems(self.set))
    }

    closed spec fn wf(&self) -> bool {
        below_u64(idl_elems(self.set))
    }

    fn clear(&mut self) {
        self.set = idl_new();
        assert(self@ =~= Set::<u16>::empty());
    }

    fn insert(&mut self, n: u16) {
        idl_insert_id(&mut self.set, n as u64);
        assert(self@ =~= old(self)@.insert(n));
    }

    fn remove(&mut self, n: u16) -> (was_present: bool) {
        let has = idl_contains(&self.set, n as u64);
        if has {
            idl_remove_id(&mut self.set, n as u64);
        }
        assert(self@ =~= old(self)@.remove(n));
        has
    }

    fn contains(&self, n: u16) -> (present: bool) {
        idl_contains(&self.set, n as u64)
    }

    fn len(&self) -> (count: usize) {
        proof {
            lemma_narrow_u64_len(idl_elems(self.set));
        }
        idl_len(&self.set)
    }

    fn iter(&self) -> (elems: Vec<u16>)
        ensures
            increasing(elems@),
    {
        let values = idl_values(&self.set);
        proof {
            assert forall|k: int| 0 <= k < values@.len() implies #[trigger] values@[k] < 65536 by {
                assert(values@.to_set().contains(values@[k]));
            }
        }
        let elems = narrow_vec_u64(&values);
        assert forall|a: int, b: int| 0 <= a < b < elems@.len() implies elems@[a] < elems@[b] by {
            assert(elems@[a] as u64 == values@[a] && elems@[b] as u64 == values@[b]);
        }
        elems
    }

    fn union_with(&mut self, other: &Self) {
        self.set = idl_or(&self.set, &other.set);
        assert(self@ =~= old(self)@.union(other@));
    }

    fn intersection_with(&mut self, other: &Self) {
        self.set = idl_and(&self.set, &other.set);
        assert(self@ =~= old(self)@.intersect(other@));
    }

    fn difference_with(&mut self, other: &Self) {
        self.set = idl_andnot(&self.set, &other.set);
        assert(self@ =~= old(self)@.difference(other@));
    }

    fn symmetric_difference_with(&mut self, other: &Self) {
        let a_min_b = idl_andnot(&self.set, &other.set);
        let b_min_a = idl_andnot(&other.set, &self.set);
        self.set = idl_or(&a_min_b, &b_min_a);
        assert(self@ =~= sym_diff(old(self)@, other@));
    }
}

impl SetIntConstruct for LibIdlset {
    fn new() -> (s: Self) {
        let s = LibIdlset { set: idl_new() };
        assert(s@ =~= Set::<u16>::empty());
        s
    }

    fn with_capacity(_capacity: usize) -> (s: Self) {
        Self::new()
    }
}

} // verus!
