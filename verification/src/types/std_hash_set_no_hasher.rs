//! A hasher that hands back the integer it is fed, and a set held in a hash
//! set of the standard library that hashes with it.

use std::collections::HashSet;
use std::hash::BuildHasherDefault;
use vstd::prelude::*;
use vstd::bytes::spec_u64_from_le_bytes;
use crate::count::lemma_push_to_set;
use crate::set_int::{sym_diff, SetInt, SetIntConstruct};

verus! {

broadcast use vstd::std_specs::hash::group_hash_axioms;

/// A hasher whose digest is the last integer written to it.
pub struct NoOpHasher {
    state: u64,
}

/// `u64::from_ne_bytes`: the integer that the eight bytes spell in the
/// byte order of the machine, which is little-endian or big-endian.
#[verifier::external_body]
fn u64_from_native_bytes(buf: [u8; 8]) -> (r: u64)
    ensures
        r == spec_u64_from_le_bytes(buf@) || r == spec_u64_from_le_bytes(buf@.reverse()),
{
    u64::from_ne_bytes(buf)
}

impl NoOpHasher {
    /// The digest: the state itself.
    pub closed spec fn digest(&self) -> u64 {
        self.state
    }

    pub fn finish(&self) -> (r: u64)
        ensures
            r == self.digest(),
    {
        self.state
    }

    /// Reads the first eight bytes of `bytes` (fewer, padded with zeros,
    /// when it is shorter) as a native-endian integer.
    pub fn write(&mut self, bytes: &[u8])
        ensures
            ({
                let buf = Seq::new(
                    8,
                    |k: int|
                        if k < bytes@.len() {
                            bytes@[k]
                        } else {
                            0u8
                        },
                );
                final(self).digest() == spec_u64_from_le_bytes(buf) || final(self).digest()
                    == spec_u64_from_le_bytes(buf.reverse())
            }),
    {
        let mut buf: [u8; 8] = [0u8; 8];
        let len: usize = if bytes.len() < 8 {
            bytes.len()
        } else {
            8
        };
        let mut k: usize = 0;
        while k < 8
            invariant
                len == if bytes@.len() < 8 {
                    bytes@.len()
                } else {
                    8
                },
                k <= 8,
                buf@.len() == 8,
                forall|j: int|
                    0 <= j < k ==> buf@[j] == if j < bytes@.len() {
                        bytes@[j]
                    } else {
                        0u8
                    },
            decreases 8 - k,
        {
            if k < len {
                buf[k] = bytes[k];
            } else {
                buf[k] = 0u8;
            }
            k = k + 1;
        }
        let ghost want = Seq::new(
            8,
            |k: int|
                if k < bytes@.len() {
                    bytes@[k]
                } else {
                    0u8
                },
        );
        assert(buf@ =~= want);
        self.state = u64_from_native_bytes(buf);
    }

    pub fn write_u16(&mut self, i: u16)
        ensures
            final(self).digest() == i as u64,
    {
        self.state = i as u64;
    }

    pub fn write_u32(&mut self, i: u32)
        ensures
            final(self).digest() == i as u64,
    {
        self.state = i as u64;
    }

    pub fn write_u64(&mut self, i: u64)
        ensures
            final(self).digest() == i,
    {
        self.state = i;
    }

    pub fn write_usize(&mut self, i: usize)
        ensures
            final(self).digest() == i as u64,
    {
        self.state = i as u64;
    }
}

impl std::hash::Hasher for NoOpHasher {
    fn finish(&self) -> u64 {
        NoOpHasher::finish(self)
    }

    fn write(&mut self, bytes: &[u8]) {
        NoOpHasher::write(self, bytes)
    }

    fn write_u16(&mut self, i: u16) {
        NoOpHasher::write_u16(self, i)
    }

    fn write_u32(&mut self, i: u32) {
        NoOpHasher::write_u32(self, i)
    }

    fn write_u64(&mut self, i: u64) {
        NoOpHasher::write_u64(self, i)
    }

    fn write_usize(&mut self, i: usize) {
        NoOpHasher::write_usize(self, i)
    }
}

#[verifier::external_type_specification]
#[verifier::external_body]
#[verifier::reject_recursive_types(H)]
pub struct ExBuildHasherDefault<H>(std::hash::BuildHasherDefault<H>);

impl Default for NoOpHasher {
    fn default() -> (h: Self)
        ensures
            h.digest() == 0,
    {
        NoOpHasher { state: 0 }
    }
}

/// `HashSet::default`: an empty set hashing with `NoOpHasher`.
#[verifier::external_body]
fn no_hash_new() -> (s: HashSet<u16, BuildHasherDefault<NoOpHasher>>)
    ensures
        s@ == Set::<u16>::empty(),
{
    HashSet::default()
}

/// `HashSet::with_capacity_and_hasher`: an empty set hashing with
/// `NoOpHasher`, with room for `capacity` elements.
#[verifier::external_body]
fn no_hash_with_capacity(capacity: usize) -> (s: HashSet<u16, BuildHasherDefault<NoOpHasher>>)
    ensures
        s@ == Set::<u16>::empty(),
{
    HashSet::with_capacity_and_hasher(capacity, BuildHasherDefault::default())
}

/// `HashSet::clear`: takes every element out.
#[verifier::external_body]
fn no_hash_clear(s: &mut HashSet<u16, BuildHasherDefault<NoOpHasher>>)
    ensures
        final(s)@ == Set::<u16>::empty(),
{
    s.clear()
}

/// `HashSet::insert`: adds `n`; tells whether it was absent. The hasher
/// gives every value the same digest each time, so a value is found again.
#[verifier::external_body]
fn no_hash_insert(s: &mut HashSet<u16, BuildHasherDefault<NoOpHasher>>, n: u16) -> (absent: bool)
    ensures
        final(s)@ == old(s)@.insert(n),
        absent == !old(s)@.contains(n),
{
    s.insert(n)
}

/// `HashSet::remove`: takes `n` out; tells whether it was there.
#[verifier::external_body]
fn no_hash_remove(s: &mut HashSet<u16, BuildHasherDefault<NoOpHasher>>, n: u16) -> (present: bool)
    ensures
        final(s)@ == old(s)@.remove(n),
        present == old(s)@.contains(n),
{
    s.remove(&n)
}

/// `HashSet::contains`: whether `n` belongs to the set.
#[verifier::external_body]
fn no_hash_contains(s: &HashSet<u16, BuildHasherDefault<NoOpHasher>>, n: u16) -> (present: bool)
    ensures
        present == s@.contains(n),
{
    s.contains(&n)
}

/// `HashSet::len`: the number of elements.
#[verifier::external_body]
fn no_hash_len(s: &HashSet<u16, BuildHasherDefault<NoOpHasher>>) -> (count: usize)
    ensures
        count == s@.len(),
{
    s.len()
}

/// `HashSet::iter`, copied and collected: each element once, in the order
/// of the table.
#[verifier::external_body]
fn no_hash_elems(s: &HashSet<u16, BuildHasherDefault<NoOpHasher>>) -> (v: Vec<u16>)
    ensures
        v@.to_set() == s@,
        v@.no_duplicates(),
{
    s.iter().copied().collect()
}

/// The elements in a hash set of the standard library that hashes with
/// `NoOpHasher`: each value is its own digest.
pub struct StdHashSetNoHasher {
    set: HashSet<u16, BuildHasherDefault<NoOpHasher>>,
}

impl SetInt for StdHashSetNoHasher {
    closed spec fn view(&self) -> Set<u16> {
        self.set@
    }

    closed spec fn wf(&self) -> bool {
        true
    }

    fn clear(&mut self) {
        no_hash_clear(&mut self.set);
    }

    fn insert(&mut self, n: u16) {
        no_hash_insert(&mut self.set, n);
    }

    fn remove(&mut self, n: u16) -> (was_present: bool) {
        no_hash_remove(&mut self.set, n)
    }

    fn contains(&self, n: u16) -> (present: bool) {
        no_hash_contains(&self.set, n)
    }

    fn len(&self) -> (count: usize) {
        no_hash_len(&self.set)
    }

    fn iter(&self) -> (elems: Vec<u16>) {
        no_hash_elems(&self.set)
    }

    fn union_with(&mut self, other: &Self) {
        let items = other.iter();
        let mut i: usize = 0;
        while i < items.len()
            invariant
                i <= items@.len(),
                self@ == old(self)@.union(items@.take(i as int).to_set()),
            decreases items@.len() - i,
        {
            let item = items[i];
            self.insert(item);
            proof {
                assert(items@.take(i + 1) =~= items@.take(i as int).push(item));
                lemma_push_to_set(items@.take(i as int), item);
            }
            i = i + 1;
            assert(self@ =~= old(self)@.union(items@.take(i as int).to_set()));
        }
        assert(items@.take(items@.len() as int) =~= items@);
    }

    fn intersection_with(&mut self, other: &Self) {
        let items = self.iter();
        let mut i: usize = 0;
        while i < items.len()
            invariant
                i <= items@.len(),
                self@ == old(self)@.difference(items@.take(i as int).to_set().difference(other@)),
            decreases items@.len() - i,
        {
            let item = items[i];
            if !other.contains(item) {
                self.remove(item);
            }
            proof {
                assert(items@.take(i + 1) =~= items@.take(i as int).push(item));
                lemma_push_to_set(items@.take(i as int), item);
            }
            i = i + 1;
            assert(self@ =~= old(self)@.difference(items@.take(i as int).to_set().difference(other@)));
        }
        assert(items@.take(items@.len() as int) =~= items@);
        assert(self@ =~= old(self)@.intersect(other@));
    }

    fn difference_with(&mut self, other: &Self) {
        let items = other.iter();
        let mut i: usize = 0;
        while i < items.len()
            invariant
                i <= items@.len(),
                self@ == old(self)@.difference(items@.take(i as int).to_set()),
            decreases items@.len() - i,
        {
            let item = items[i];
            self.remove(item);
            proof {
                assert(items@.take(i + 1) =~= items@.take(i as int).push(item));
                lemma_push_to_set(items@.take(i as int), item);
            }
            i = i + 1;
            assert(self@ =~= old(self)@.difference(items@.take(i as int).to_set()));
        }
        assert(items@.take(items@.len() as int) =~= items@);
    }

    fn symmetric_difference_with(&mut self, other: &Self) {
        let items = other.iter();
        let mut j: usize = 0;
        while j < items.len()
            invariant
                items@.no_duplicates(),
                j <= items@.len(),
                self@ == sym_diff(old(self)@, items@.take(j as int).to_set()),
            decreases items@.len() - j,
        {
            let v = items[j];
            proof {
                assert(items@.take(j + 1) =~= items@.take(j as int).push(v));
                lemma_push_to_set(items@.take(j as int), v);
                assert(!items@.take(j as int).to_set().contains(v)) by {
                    if items@.take(j as int).to_set().contains(v) {
                        let k = choose|k: int| 0 <= k < j && items@.take(j as int)[k] == v;
                        assert(items@[k] == items@[j as int]);
                    }
                }
            }
            if self.contains(v) {
                self.remove(v);
            } else {
                self.insert(v);
            }
            j = j + 1;
            assert(self@ =~= sym_diff(old(self)@, items@.take(j as int).to_set()));
        }
        assert(items@.take(items@.len() as int) =~= items@);
    }
}

impl SetIntConstruct for StdHashSetNoHasher {
    fn new() -> (s: Self) {
        StdHashSetNoHasher { set: no_hash_new() }
    }

    fn with_capacity(capacity: usize) -> (s: Self) {
        StdHashSetNoHasher { set: no_hash_with_capacity(capacity) }
    }
}

} // verus!
