//! The interface that every integer set of this library offers, with the
//! meaning of each operation stated over the mathematical set it holds.

use vstd::prelude::*;
use crate::count::lemma_push_to_set;
use crate::bits::{byte_bit, lemma_byte_set_bit, lemma_byte_zero, lemma_u16_div_mod_8};

verus! {

/// Number of bytes in the serialised form of a set: one bit for each `u16`.
pub const BYTES_LEN: usize = 8192;

/// The set that a byte string encodes: `n` belongs to it when bit `n % 8`
/// of byte `n / 8` is set. Bytes past the string stand for zero bits.
pub open spec fn decode_bytes(bytes: Seq<u8>) -> Set<u16> {
    Set::new(
        |n: u16| (n / 8) < bytes.len() && byte_bit(bytes[(n / 8) as int], (n % 8) as u8),
    )
}

/// A bitmap with no bit set.
fn zero_bytes() -> (bytes: [u8; 8192])
    ensures
        forall|k: int| 0 <= k < 8192 ==> bytes@[k] == 0u8,
{
    let bytes: [u8; 8192] = [0u8; 8192];
    assert(bytes == vstd::array::spec_array_fill_for_copy_type::<u8, 8192>(0u8));
    bytes
}

/// Each element of `v` is below the next.
pub open spec fn increasing(v: Seq<u16>) -> bool {
    forall|a: int, b: int| 0 <= a < b < v.len() ==> v[a] < v[b]
}

/// The symmetric difference of two sets.
pub open spec fn sym_diff(a: Set<u16>, b: Set<u16>) -> Set<u16> {
    a.difference(b).union(b.difference(a))
}

/// A set of 16-bit integers. `view` is the set that a value holds; `wf` is
/// the invariant of the representation, which every operation keeps.
pub trait SetInt: Sized {
    spec fn view(&self) -> Set<u16>;

    spec fn wf(&self) -> bool;

    /// Removes every element.
    fn clear(&mut self)
        requires
            old(self).wf(),
        ensures
            final(self).wf(),
            final(self)@ == Set::<u16>::empty(),
    ;

    /// Adds `n`.
    fn insert(&mut self, n: u16)
        requires
            old(self).wf(),
        ensures
            final(self).wf(),
            final(self)@ == old(self)@.insert(n),
    ;

    /// Takes `n` out; tells whether it was there.
    fn remove(&mut self, n: u16) -> (was_present: bool)
        requires
            old(self).wf(),
        ensures
            final(self).wf(),
            final(self)@ == old(self)@.remove(n),
            was_present == old(self)@.contains(n),
    ;

    /// Whether `n` belongs to the set.
    fn contains(&self, n: u16) -> (present: bool)
        requires
            self.wf(),
        ensures
            present == self@.contains(n),
    ;

    /// The number of elements.
    fn len(&self) -> (count: usize)
        requires
            self.wf(),
        ensures
            count == self@.len(),
    ;

    /// Every element once.
    fn iter(&self) -> (elems: Vec<u16>)
        requires
            self.wf(),
        ensures
            elems@.to_set() == self@,
            elems@.no_duplicates(),
    ;

    /// Adds every element of `other`.
    fn union_with(&mut self, other: &Self)
        requires
            old(self).wf(),
            other.wf(),
        ensures
            final(self).wf(),
            final(self)@ == old(self)@.union(other@),
    ;

    /// Keeps only the elements that `other` holds too.
    fn intersection_with(&mut self, other: &Self)
        requires
            old(self).wf(),
            other.wf(),
        ensures
            final(self).wf(),
            final(self)@ == old(self)@.intersect(other@),
    ;

    /// Takes out every element of `other`.
    fn difference_with(&mut self, other: &Self)
        requires
            old(self).wf(),
            other.wf(),
        ensures
            final(self).wf(),
            final(self)@ == old(self)@.difference(other@),
    ;

    /// Keeps the elements that exactly one of the two sets holds.
    fn symmetric_difference_with(&mut self, other: &Self)
        requires
            old(self).wf(),
            other.wf(),
        ensures
            final(self).wf(),
            final(self)@ == sym_diff(old(self)@, other@),
    ;

    /// The set as a bitmap of `BYTES_LEN` bytes.
    fn to_bytes(&self) -> (bytes: [u8; 8192])
        requires
            self.wf(),
        ensures
            decode_bytes(bytes@) == self@,
    {
        let elems = self.iter();
        let mut bytes = zero_bytes();
        proof {
            assert forall|n: u16| !#[trigger] decode_bytes(bytes@).contains(n) by {
                assert(bytes[(n / 8) as int] == 0u8);
                lemma_byte_zero((n % 8) as u8);
            }
            assert(decode_bytes(bytes@) =~= elems@.take(0).to_set());
        }
        let mut i: usize = 0;
        while i < elems.len()
            invariant
                i <= elems@.len(),
                bytes@.len() == 8192,
                decode_bytes(bytes@) == elems@.take(i as int).to_set(),
            decreases elems@.len() - i,
        {
            let n = elems[i];
            let k = (n >> 3u16) as usize;
            let t = (n & 7u16) as u8;
            let ghost before = bytes@;
            proof {
                lemma_u16_div_mod_8(n);
            }
            let b = bytes[k];
            bytes[k] = b | (1u8 << t);
            proof {
                assert(elems@.take(i + 1) =~= elems@.take(i as int).push(n));
                lemma_push_to_set(elems@.take(i as int), n);
                assert forall|m: u16| #[trigger]
                    decode_bytes(bytes@).contains(m) == elems@.take(i + 1).to_set().contains(m) by {
                    if m / 8 == n / 8 {
                        lemma_byte_set_bit(b, t, (m % 8) as u8);
                    }
                }
                assert(decode_bytes(bytes@) =~= elems@.take(i + 1).to_set());
            }
            i = i + 1;
        }
        proof {
            assert(elems@.take(elems@.len() as int) =~= elems@);
        }
        bytes
    }

    /// Makes the set hold exactly what `bytes` encodes (bytes past
    /// `BYTES_LEN` stand for no integer and are ignored).
    fn from_bytes(&mut self, bytes: &[u8])
        requires
            old(self).wf(),
        ensures
            final(self).wf(),
            final(self)@ == decode_bytes(bytes@),
    {
        self.clear();
        let lim: usize = if bytes.len() < BYTES_LEN {
            bytes.len()
        } else {
            BYTES_LEN
        };
        let mut i: usize = 0;
        while i < lim
            invariant
                self.wf(),
                lim <= bytes@.len(),
                lim <= 8192,
                lim == bytes@.len() || lim == 8192,
                i <= lim,
                self@ == decode_bytes(bytes@).filter(|n: u16| (n as int) < 8 * i),
            decreases lim - i,
        {
            let b = bytes[i];
            let mut j: u8 = 0;
            while j < 8
                invariant
                    self.wf(),
                    i < lim,
                    lim <= bytes@.len(),
                    lim <= 8192,
                    j <= 8,
                    b == bytes@[i as int],
                    self@ == decode_bytes(bytes@).filter(|n: u16| (n as int) < 8 * i + j),
                decreases 8 - j,
            {
                let n: u16 = (i * 8 + j as usize) as u16;
                let ghost before = self@;
                if (b >> j) & 1u8 == 1u8 {
                    self.insert(n);
                }
                proof {
                    assert(n / 8 == i && n % 8 == j);
                    assert(self@ =~= decode_bytes(bytes@).filter(
                        |m: u16| (m as int) < 8 * i + j + 1,
                    ));
                }
                j = j + 1;
            }
            proof {
                assert(self@ =~= decode_bytes(bytes@).filter(|m: u16| (m as int) < 8 * (i + 1)));
            }
            i = i + 1;
        }
        proof {
            assert(self@ =~= decode_bytes(bytes@));
        }
    }
}

/// A set that can be made empty.
pub trait SetIntConstruct: SetInt {
    /// An empty set.
    fn new() -> (s: Self)
        ensures
            s.wf(),
            s@ == Set::<u16>::empty(),
    ;

    /// An empty set, with room reserved for about `capacity` elements where
    /// the representation makes use of it. A capacity is at most the number
    /// of bits that one allocation can address.
    fn with_capacity(capacity: usize) -> (s: Self)
        requires
            capacity <= usize::MAX / 8,
        ensures
            s.wf(),
            s@ == Set::<u16>::empty(),
    ;
}

/// Inserts each of `items` into `s`.
pub fn insert_all<S: SetInt>(s: &mut S, items: &Vec<u16>)
    requires
        old(s).wf(),
    ensures
        final(s).wf(),
        final(s)@ == old(s)@.union(items@.to_set()),
{
    let mut i: usize = 0;
    while i < items.len()
        invariant
            s.wf(),
            i <= items@.len(),
            s@ == old(s)@.union(items@.take(i as int).to_set()),
        decreases items@.len() - i,
    {
        let x = items[i];
        s.insert(x);
        proof {
            assert(items@.take(i + 1) =~= items@.take(i as int).push(x));
            lemma_push_to_set(items@.take(i as int), x);
        }
        i = i + 1;
        assert(s@ =~= old(s)@.union(items@.take(i as int).to_set()));
    }
    assert(items@.take(items@.len() as int) =~= items@);
}

/// Removes each of `items` from `s`.
pub fn remove_all<S: SetInt>(s: &mut S, items: &Vec<u16>)
    requires
        old(s).wf(),
    ensures
        final(s).wf(),
        final(s)@ == old(s)@.difference(items@.to_set()),
{
    let mut i: usize = 0;
    while i < items.len()
        invariant
            s.wf(),
            i <= items@.len(),
            s@ == old(s)@.difference(items@.take(i as int).to_set()),
        decreases items@.len() - i,
    {
        let x = items[i];
        s.remove(x);
        proof {
            assert(items@.take(i + 1) =~= items@.take(i as int).push(x));
            lemma_push_to_set(items@.take(i as int), x);
        }
        i = i + 1;
        assert(s@ =~= old(s)@.difference(items@.take(i as int).to_set()));
    }
    assert(items@.take(items@.len() as int) =~= items@);
}

/// After `insert(n)`, `contains(n)` holds; a `remove(n)` then reports that
/// `n` was there, and `contains(n)` no longer holds.
pub proof fn law_insert_then_remove(s: Set<u16>, n: u16)
    ensures
        s.insert(n).contains(n),
        !s.insert(n).remove(n).contains(n),
{
}

/// A new set has no element; after one `insert` it has one, and none again
/// after removing it; inserting the same integer twice counts once; after
/// `clear`, nothing is there.
pub proof fn law_len_of_single_element(n: u16)
    ensures
        Set::<u16>::empty().len() == 0,
        Set::<u16>::empty().insert(n).len() == 1,
        Set::<u16>::empty().insert(n).insert(n).len() == 1,
        Set::<u16>::empty().insert(n).remove(n).len() == 0,
        !Set::<u16>::empty().contains(n),
{
    assert(Set::<u16>::empty().insert(n).insert(n) =~= Set::<u16>::empty().insert(n));
    assert(Set::<u16>::empty().insert(n).remove(n) =~= Set::<u16>::empty());
}

/// Inserting each integer of a list into a new set gives the set of the
/// list: as many elements as the list has distinct integers.
pub proof fn law_inserts_make_the_set_of_the_list(refs: Seq<u16>)
    ensures
        Set::<u16>::empty().union(refs.to_set()) == refs.to_set(),
        refs.to_set().len() <= refs.len(),
{
    assert(Set::<u16>::empty().union(refs.to_set()) =~= refs.to_set());
    refs.lemma_cardinality_of_set();
}

/// The symmetric difference keeps what only one side holds and drops what
/// both hold; taken twice with the same set it gives the first set back.
pub proof fn law_symmetric_difference(a: Set<u16>, b: Set<u16>, v: u16)
    ensures
        (a.contains(v) && !b.contains(v)) ==> sym_diff(a, b).contains(v),
        (!a.contains(v) && b.contains(v)) ==> sym_diff(a, b).contains(v),
        (a.contains(v) && b.contains(v)) ==> !sym_diff(a, b).contains(v),
        sym_diff(sym_diff(a, b), b) == a,
        sym_diff(a, b) == sym_diff(b, a),
{
    assert(sym_diff(sym_diff(a, b), b) =~= a);
    assert(sym_diff(a, b) =~= sym_diff(b, a));
}

/// Union, intersection and difference, element by element: the union holds
/// what either holds, the intersection what both hold, the difference what
/// the first holds and the second lacks.
pub proof fn law_set_operations(a: Set<u16>, b: Set<u16>, v: u16)
    ensures
        a.union(b).contains(v) == (a.contains(v) || b.contains(v)),
        a.intersect(b).contains(v) == (a.contains(v) && b.contains(v)),
        a.difference(b).contains(v) == (a.contains(v) && !b.contains(v)),
        a == a.difference(b).union(a.intersect(b)),
{
    assert(a =~= a.difference(b).union(a.intersect(b)));
}

/// Iterating a set gives as many integers as its length.
pub proof fn law_iter_len(elems: Seq<u16>, s: Set<u16>)
    requires
        elems.to_set() == s,
        elems.no_duplicates(),
    ensures
        elems.len() == s.len(),
{
    crate::count::lemma_no_dup_len(elems);
}

/// Reading back the bytes that a set was written to gives the same set:
/// `from_bytes` makes a set hold `decode_bytes` of the bytes, and
/// `to_bytes` writes bytes whose `decode_bytes` is the set.
pub proof fn law_bytes_round_trip(written: Set<u16>, bytes: Seq<u8>, read: Set<u16>)
    requires
        decode_bytes(bytes) == written,
        read == decode_bytes(bytes),
    ensures
        read == written,
{
}

} // verus!
