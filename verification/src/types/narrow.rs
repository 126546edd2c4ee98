//! Sets of wider integers that hold only values below 2^16, seen as sets of
//! `u16`: the view of the representations kept by outside crates.

use vstd::prelude::*;
use vstd::relations::injective_on;
use vstd::set_lib::lemma_map_size;
use crate::count::lemma_u16_set_finite;

verus! {

/// The `u16` values of a set of `u32`.
pub open spec fn narrow_u32(s: Set<u32>) -> Set<u16> {
    Set::new(|n: u16| s.contains(n as u32))
}

/// Every value of `s` fits in a `u16`.
pub open spec fn below_u32(s: Set<u32>) -> bool {
    forall|x: u32| #[trigger] s.contains(x) ==> x < 65536
}

/// The `u16` values of a set of `usize`.
pub open spec fn narrow_usize(s: Set<usize>) -> Set<u16> {
    Set::new(|n: u16| s.contains(n as usize))
}

/// Every value of `s` fits in a `u16`.
pub open spec fn below_usize(s: Set<usize>) -> bool {
    forall|x: usize| #[trigger] s.contains(x) ==> x < 65536
}

/// The `u16` values of a set of `u64`.
pub open spec fn narrow_u64(s: Set<u64>) -> Set<u16> {
    Set::new(|n: u16| s.contains(n as u64))
}

/// Every value of `s` fits in a `u16`.
pub open spec fn below_u64(s: Set<u64>) -> bool {
    forall|x: u64| #[trigger] s.contains(x) ==> x < 65536
}

/// A set of `u32` below 2^16 has as many elements as its `u16` view.
pub proof fn lemma_narrow_u32_len(s: Set<u32>)
    requires
        below_u32(s),
    ensures
        s.finite(),
        s.len() == narrow_u32(s).len(),
        narrow_u32(s).len() <= 65536,
{
    let v = narrow_u32(s);
    let f = |n: u16| n as u32;
    lemma_u16_set_finite(v);
    crate::count::lemma_u16_set_len_bound(v);
    assert(injective_on(f, v));
    assert forall|x: u32| #[trigger] s.contains(x) == v.map(f).contains(x) by {
        if s.contains(x) {
            let n = x as u16;
            assert(v.contains(n) && f(n) == x);
        }
    }
    assert(v.map(f) =~= s);
    lemma_map_size(v, s, f);
}

/// A set of `usize` below 2^16 has as many elements as its `u16` view.
pub proof fn lemma_narrow_usize_len(s: Set<usize>)
    requires
        below_usize(s),
    ensures
        s.finite(),
        s.len() == narrow_usize(s).len(),
        narrow_usize(s).len() <= 65536,
{
    let v = narrow_usize(s);
    let f = |n: u16| n as usize;
    lemma_u16_set_finite(v);
    crate::count::lemma_u16_set_len_bound(v);
    assert(injective_on(f, v));
    assert forall|x: usize| #[trigger] s.contains(x) == v.map(f).contains(x) by {
        if s.contains(x) {
            let n = x as u16;
            assert(v.contains(n) && f(n) == x);
        }
    }
    assert(v.map(f) =~= s);
    lemma_map_size(v, s, f);
}

/// A set of `u64` below 2^16 has as many elements as its `u16` view.
pub proof fn lemma_narrow_u64_len(s: Set<u64>)
    requires
        below_u64(s),
    ensures
        s.finite(),
        s.len() == narrow_u64(s).len(),
        narrow_u64(s).len() <= 65536,
{
    let v = narrow_u64(s);
    let f = |n: u16| n as u64;
    lemma_u16_set_finite(v);
    crate::count::lemma_u16_set_len_bound(v);
    assert(injective_on(f, v));
    assert forall|x: u64| #[trigger] s.contains(x) == v.map(f).contains(x) by {
        if s.contains(x) {
            let n = x as u16;
            assert(v.contains(n) && f(n) == x);
        }
    }
    assert(v.map(f) =~= s);
    lemma_map_size(v, s, f);
}

/// The `u16` values of a list of `u32` below 2^16, in the same order.
pub fn narrow_vec_u32(v: &Vec<u32>) -> (w: Vec<u16>)
    requires
        forall|k: int| 0 <= k < v@.len() ==> #[trigger] v@[k] < 65536,
    ensures
        w@.len() == v@.len(),
        forall|k: int| 0 <= k < v@.len() ==> #[trigger] w@[k] as u32 == v@[k],
        v@.no_duplicates() ==> w@.no_duplicates(),
        w@.to_set() == narrow_u32(v@.to_set()),
{
    let mut w: Vec<u16> = Vec::with_capacity(v.len());
    let mut i: usize = 0;
    while i < v.len()
        invariant
            i <= v@.len(),
            w@.len() == i,
            forall|k: int| 0 <= k < v@.len() ==> #[trigger] v@[k] < 65536,
            forall|k: int| 0 <= k < i ==> #[trigger] w@[k] as u32 == v@[k],
        decreases v@.len() - i,
    {
        w.push(v[i] as u16);
        i = i + 1;
    }
    proof {
        assert forall|n: u16| #[trigger] w@.to_set().contains(n) == narrow_u32(v@.to_set()).contains(n) by {
            if w@.to_set().contains(n) {
                let k = choose|k: int| 0 <= k < w@.len() && w@[k] == n;
                assert(v@[k] == n as u32);
            }
            if v@.to_set().contains(n as u32) {
                let k = choose|k: int| 0 <= k < v@.len() && v@[k] == n as u32;
                assert(w@[k] as u32 == n as u32);
            }
        }
        assert(w@.to_set() =~= narrow_u32(v@.to_set()));
        if v@.no_duplicates() {
            assert forall|a: int, b: int| 0 <= a < w@.len() && 0 <= b < w@.len() && a != b implies w@[a] != w@[b] by {
                assert(w@[a] as u32 == v@[a] && w@[b] as u32 == v@[b]);
            }
        }
    }
    w
}

/// The `u16` values of a list of `usize` below 2^16, in the same order.
pub fn narrow_vec_usize(v: &Vec<usize>) -> (w: Vec<u16>)
    requires
        forall|k: int| 0 <= k < v@.len() ==> #[trigger] v@[k] < 65536,
    ensures
        w@.len() == v@.len(),
        forall|k: int| 0 <= k < v@.len() ==> #[trigger] w@[k] as usize == v@[k],
        v@.no_duplicates() ==> w@.no_duplicates(),
        w@.to_set() == narrow_usize(v@.to_set()),
{
    let mut w: Vec<u16> = Vec::with_capacity(v.len());
    let mut i: usize = 0;
    while i < v.len()
        invariant
            i <= v@.len(),
            w@.len() == i,
            forall|k: int| 0 <= k < v@.len() ==> #[trigger] v@[k] < 65536,
            forall|k: int| 0 <= k < i ==> #[trigger] w@[k] as usize == v@[k],
        decreases v@.len() - i,
    {
        w.push(v[i] as u16);
        i = i + 1;
    }
    proof {
        assert forall|n: u16| #[trigger] w@.to_set().contains(n) == narrow_usize(v@.to_set()).contains(n) by {
            if w@.to_set().contains(n) {
                let k = choose|k: int| 0 <= k < w@.len() && w@[k] == n;
                assert(v@[k] == n as usize);
            }
            if v@.to_set().contains(n as usize) {
                let k = choose|k: int| 0 <= k < v@.len() && v@[k] == n as usize;
                assert(w@[k] as usize == n as usize);
            }
        }
        assert(w@.to_set() =~= narrow_usize(v@.to_set()));
        if v@.no_duplicates() {
            assert forall|a: int, b: int| 0 <= a < w@.len() && 0 <= b < w@.len() && a != b implies w@[a] != w@[b] by {
                assert(w@[a] as usize == v@[a] && w@[b] as usize == v@[b]);
            }
        }
    }
    w
}

/// The `u16` values of a list of `u64` below 2^16, in the same order.
pub fn narrow_vec_u64(v: &Vec<u64>) -> (w: Vec<u16>)
    requires
        forall|k: int| 0 <= k < v@.len() ==> #[trigger] v@[k] < 65536,
    ensures
        w@.len() == v@.len(),
        forall|k: int| 0 <= k < v@.len() ==> #[trigger] w@[k] as u64 == v@[k],
        v@.no_duplicates() ==> w@.no_duplicates(),
        w@.to_set() == narrow_u64(v@.to_set()),
{
    let mut w: Vec<u16> = Vec::with_capacity(v.len());
    let mut i: usize = 0;
    while i < v.len()
        invariant
            i <= v@.len(),
            w@.len() == i,
            forall|k: int| 0 <= k < v@.len() ==> #[trigger] v@[k] < 65536,
            forall|k: int| 0 <= k < i ==> #[trigger] w@[k] as u64 == v@[k],
        decreases v@.len() - i,
    {
        w.push(v[i] as u16);
        i = i + 1;
    }
    proof {
        assert forall|n: u16| #[trigger] w@.to_set().contains(n) == narrow_u64(v@.to_set()).contains(n) by {
            if w@.to_set().contains(n) {
                let k = choose|k: int| 0 <= k < w@.len() && w@[k] == n;
                assert(v@[k] == n as u64);
            }
            if v@.to_set().contains(n as u64) {
                let k = choose|k: int| 0 <= k < v@.len() && v@[k] == n as u64;
                assert(w@[k] as u64 == n as u64);
            }
        }
        assert(w@.to_set() =~= narrow_u64(v@.to_set()));
        if v@.no_duplicates() {
            assert forall|a: int, b: int| 0 <= a < w@.len() && 0 <= b < w@.len() && a != b implies w@[a] != w@[b] by {
                assert(w@[a] as u64 == v@[a] && w@[b] as u64 == v@[b]);
            }
        }
    }
    w
}

} // verus!
