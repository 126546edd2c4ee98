//! Strictly increasing sequences of `u16` as sets: search and the four
//! merges, shared by the sorted list representations.

use vstd::prelude::*;
use crate::count::lemma_push_to_set;
use crate::set_int::sym_diff;

verus! {

/// Strictly increasing.
pub open spec fn sorted(s: Seq<u16>) -> bool {
    forall|i: int, j: int| 0 <= i < j < s.len() ==> s[i] < s[j]
}

/// The element at `i`, or one past every `u16` at the end.
pub open spec fn bound(s: Seq<u16>, i: int) -> int {
    if i < s.len() {
        s[i] as int
    } else {
        65536
    }
}

/// The first `i` elements of a sequence, as a set, grow by the element at `i`.
pub proof fn lemma_take_step(s: Seq<u16>, i: int)
    requires
        0 <= i < s.len(),
    ensures
        s.take(i + 1).to_set() == s.take(i).to_set().insert(s[i]),
{
    assert(s.take(i + 1) =~= s.take(i).push(s[i]));
    lemma_push_to_set(s.take(i), s[i]);
}

/// In a sorted sequence, the elements before `i` are those below `bound(s, i)`.
pub proof fn lemma_sorted_prefix(s: Seq<u16>, i: int, x: u16)
    requires
        sorted(s),
        0 <= i <= s.len(),
    ensures
        s.take(i).to_set().contains(x) ==> x < bound(s, i),
        s.take(i).to_set().contains(x) ==> s.to_set().contains(x),
        (s.to_set().contains(x) && x < bound(s, i)) ==> s.take(i).to_set().contains(x),
{
    if s.take(i).to_set().contains(x) {
        let p = choose|p: int| 0 <= p < s.take(i).len() && s.take(i)[p] == x;
        assert(s[p] == x);
    }
    if s.to_set().contains(x) && x < bound(s, i) {
        let p = choose|p: int| 0 <= p < s.len() && s[p] == x;
        if p >= i {
            assert(s[p] >= bound(s, i));
        }
        assert(s.take(i)[p] == x);
    }
}

pub proof fn lemma_take_full(s: Seq<u16>)
    ensures
        s.take(s.len() as int) == s,
{
    assert(s.take(s.len() as int) =~= s);
}

/// Binary search: `Ok(i)` where `s[i] == x`, else `Err(i)`, the place where
/// `x` would go.
pub fn search(s: &Vec<u16>, x: u16) -> (r: Result<usize, usize>)
    requires
        sorted(s@),
    ensures
        match r {
            Ok(i) => i < s@.len() && s@[i as int] == x,
            Err(i) => i <= s@.len() && (forall|k: int| 0 <= k < i ==> s@[k] < x) && (forall|k: int|
                i <= k < s@.len() ==> s@[k] > x),
        },
        r is Ok == s@.contains(x),
{
    let mut lo: usize = 0;
    let mut hi: usize = s.len();
    while lo < hi
        invariant
            sorted(s@),
            lo <= hi <= s@.len(),
            forall|k: int| 0 <= k < lo ==> s@[k] < x,
            forall|k: int| hi <= k < s@.len() ==> s@[k] > x,
        decreases hi - lo,
    {
        let mid = lo + (hi - lo) / 2;
        if s[mid] < x {
            lo = mid + 1;
        } else if s[mid] > x {
            hi = mid;
        } else {
            assert(s@.contains(x)) by {
                assert(s@[mid as int] == x);
            }
            return Ok(mid);
        }
    }
    assert(!s@.contains(x)) by {
        if s@.contains(x) {
            let k = choose|k: int| 0 <= k < s@.len() && s@[k] == x;
        }
    }
    Err(lo)
}

/// The sorted union of two sorted sequences.
pub fn merge_union(a: &Vec<u16>, b: &Vec<u16>) -> (r: Vec<u16>)
    requires
        sorted(a@),
        sorted(b@),
    ensures
        sorted(r@),
        r@.to_set() == a@.to_set().union(b@.to_set()),
{
    let mut result: Vec<u16> = Vec::new();
    let mut i: usize = 0;
    let mut j: usize = 0;
    while i < a.len() && j < b.len()
        invariant
            sorted(a@),
            sorted(b@),
            sorted(result@),
            i <= a@.len(),
            j <= b@.len(),
            forall|k: int| 0 <= k < result@.len() ==> result@[k] < bound(a@, i as int) && result@[k]
                < bound(b@, j as int),
            forall|p: int| 0 <= p < i ==> a@[p] < bound(b@, j as int),
            forall|q: int| 0 <= q < j ==> b@[q] < bound(a@, i as int),
            result@.to_set() == a@.take(i as int).to_set().union(b@.take(j as int).to_set()),
        decreases a@.len() + b@.len() - i - j,
    {
        let x = a[i];
        let y = b[j];
        let ghost before = result@;
        if x < y {
            result.push(x);
            proof {
                lemma_push_to_set(before, x);
                lemma_take_step(a@, i as int);
            }
            i = i + 1;
        } else if y < x {
            result.push(y);
            proof {
                lemma_push_to_set(before, y);
                lemma_take_step(b@, j as int);
            }
            j = j + 1;
        } else {
            result.push(x);
            proof {
                lemma_push_to_set(before, x);
                lemma_take_step(a@, i as int);
                lemma_take_step(b@, j as int);
            }
            i = i + 1;
            j = j + 1;
        }
        assert(result@.to_set() =~= a@.take(i as int).to_set().union(b@.take(j as int).to_set()));
    }
    while i < a.len()
        invariant
            sorted(a@),
            sorted(b@),
            sorted(result@),
            i <= a@.len(),
            j <= b@.len(),
            i == a@.len() || j == b@.len(),
            forall|k: int| 0 <= k < result@.len() ==> result@[k] < bound(a@, i as int) && result@[k]
                < bound(b@, j as int),
            forall|p: int| 0 <= p < i ==> a@[p] < bound(b@, j as int),
            forall|q: int| 0 <= q < j ==> b@[q] < bound(a@, i as int),
            result@.to_set() == a@.take(i as int).to_set().union(b@.take(j as int).to_set()),
        decreases a@.len() - i,
    {
        let x = a[i];
        let ghost before = result@;
        result.push(x);
        proof {
            lemma_push_to_set(before, x);
            lemma_take_step(a@, i as int);
        }
        i = i + 1;
        assert(result@.to_set() =~= a@.take(i as int).to_set().union(b@.take(j as int).to_set()));
    }
    while j < b.len()
        invariant
            sorted(a@),
            sorted(b@),
            sorted(result@),
            i == a@.len(),
            j <= b@.len(),
            forall|k: int| 0 <= k < result@.len() ==> result@[k] < bound(a@, i as int) && result@[k]
                < bound(b@, j as int),
            result@.to_set() == a@.take(i as int).to_set().union(b@.take(j as int).to_set()),
        decreases b@.len() - j,
    {
        let y = b[j];
        let ghost before = result@;
        result.push(y);
        proof {
            lemma_push_to_set(before, y);
            lemma_take_step(b@, j as int);
        }
        j = j + 1;
        assert(result@.to_set() =~= a@.take(i as int).to_set().union(b@.take(j as int).to_set()));
    }
    proof {
        lemma_take_full(a@);
        lemma_take_full(b@);
    }
    result
}

/// The sorted intersection of two sorted sequences.
pub fn merge_intersection(a: &Vec<u16>, b: &Vec<u16>) -> (r: Vec<u16>)
    requires
        sorted(a@),
        sorted(b@),
    ensures
        sorted(r@),
        r@.to_set() == a@.to_set().intersect(b@.to_set()),
{
    let mut result: Vec<u16> = Vec::new();
    let mut i: usize = 0;
    let mut j: usize = 0;
    while i < a.len() && j < b.len()
        invariant
            sorted(a@),
            sorted(b@),
            sorted(result@),
            i <= a@.len(),
            j <= b@.len(),
            forall|k: int| 0 <= k < result@.len() ==> result@[k] < bound(a@, i as int),
            forall|p: int| 0 <= p < i ==> a@[p] < bound(b@, j as int),
            forall|q: int| 0 <= q < j ==> b@[q] < bound(a@, i as int),
            result@.to_set() == a@.take(i as int).to_set().intersect(b@.take(j as int).to_set()),
        decreases a@.len() + b@.len() - i - j,
    {
        let x = a[i];
        let y = b[j];
        let ghost before = result@;
        if x < y {
            proof {
                lemma_take_step(a@, i as int);
                lemma_sorted_prefix(b@, j as int, x);
            }
            i = i + 1;
        } else if y < x {
            proof {
                lemma_take_step(b@, j as int);
                lemma_sorted_prefix(a@, i as int, y);
            }
            j = j + 1;
        } else {
            result.push(x);
            proof {
                lemma_push_to_set(before, x);
                lemma_take_step(a@, i as int);
                lemma_take_step(b@, j as int);
            }
            i = i + 1;
            j = j + 1;
        }
        assert(result@.to_set() =~= a@.take(i as int).to_set().intersect(b@.take(j as int).to_set()));
    }
    proof {
        assert forall|x: u16| #[trigger] result@.to_set().contains(x) == a@.to_set().intersect(b@.to_set()).contains(x) by {
            lemma_sorted_prefix(a@, i as int, x);
            lemma_sorted_prefix(b@, j as int, x);
            lemma_sorted_prefix(a@, a@.len() as int, x);
            lemma_sorted_prefix(b@, b@.len() as int, x);
            lemma_take_full(a@);
            lemma_take_full(b@);
            if a@.to_set().contains(x) && b@.to_set().contains(x) {
                let p = choose|p: int| 0 <= p < a@.len() && a@[p] == x;
                let q = choose|q: int| 0 <= q < b@.len() && b@[q] == x;
                if p >= i {
                    assert(q >= j);
                }
            }
        }
        assert(result@.to_set() =~= a@.to_set().intersect(b@.to_set()));
    }
    result
}

/// The elements of the sorted sequence `a` that the sorted sequence `b`
/// lacks, in order.
pub fn merge_difference(a: &Vec<u16>, b: &Vec<u16>) -> (r: Vec<u16>)
    requires
        sorted(a@),
        sorted(b@),
    ensures
        sorted(r@),
        r@.to_set() == a@.to_set().difference(b@.to_set()),
{
    let mut result: Vec<u16> = Vec::new();
    let mut j: usize = 0;
    let mut i: usize = 0;
    while i < a.len()
        invariant
            sorted(a@),
            sorted(b@),
            sorted(result@),
            i <= a@.len(),
            j <= b@.len(),
            forall|k: int| 0 <= k < result@.len() ==> result@[k] < bound(a@, i as int),
            forall|q: int| 0 <= q < j ==> b@[q] < bound(a@, i as int),
            result@.to_set() == a@.take(i as int).to_set().difference(b@.to_set()),
        decreases a@.len() - i,
    {
        let x = a[i];
        while j < b.len() && b[j] < x
            invariant
                sorted(b@),
                i < a@.len(),
                x == a@[i as int],
                j <= b@.len(),
                forall|q: int| 0 <= q < j ==> b@[q] < x,
            decreases b@.len() - j,
        {
            j = j + 1;
        }
        let ghost before = result@;
        if j >= b.len() || b[j] > x {
            result.push(x);
            proof {
                lemma_push_to_set(before, x);
                assert(!b@.to_set().contains(x)) by {
                    if b@.to_set().contains(x) {
                        let q = choose|q: int| 0 <= q < b@.len() && b@[q] == x;
                        if q >= j {
                            assert(b@[q] >= b@[j as int]);
                        }
                    }
                }
            }
        } else {
            assert(b@.to_set().contains(x)) by {
                assert(b@[j as int] == x);
            }
        }
        proof {
            lemma_take_step(a@, i as int);
        }
        i = i + 1;
        assert(result@.to_set() =~= a@.take(i as int).to_set().difference(b@.to_set()));
    }
    proof {
        lemma_take_full(a@);
    }
    result
}

/// The sorted symmetric difference of two sorted sequences.
pub fn merge_sym_diff(a: &Vec<u16>, b: &Vec<u16>) -> (r: Vec<u16>)
    requires
        sorted(a@),
        sorted(b@),
    ensures
        sorted(r@),
        r@.to_set() == sym_diff(a@.to_set(), b@.to_set()),
{
    let mut result: Vec<u16> = Vec::new();
    let mut i: usize = 0;
    let mut j: usize = 0;
    while i < a.len() && j < b.len()
        invariant
            sorted(a@),
            sorted(b@),
            sorted(result@),
            i <= a@.len(),
            j <= b@.len(),
            forall|k: int| 0 <= k < result@.len() ==> result@[k] < bound(a@, i as int) && result@[k]
                < bound(b@, j as int),
            forall|p: int| 0 <= p < i ==> a@[p] < bound(b@, j as int),
            forall|q: int| 0 <= q < j ==> b@[q] < bound(a@, i as int),
            result@.to_set() == sym_diff(a@.take(i as int).to_set(), b@.take(j as int).to_set()),
        decreases a@.len() + b@.len() - i - j,
    {
        let x = a[i];
        let y = b[j];
        let ghost before = result@;
        proof {
            lemma_sorted_prefix(a@, i as int, x);
            lemma_sorted_prefix(b@, j as int, x);
            lemma_sorted_prefix(a@, i as int, y);
            lemma_sorted_prefix(b@, j as int, y);
        }
        if x < y {
            result.push(x);
            proof {
                lemma_push_to_set(before, x);
                lemma_take_step(a@, i as int);
            }
            i = i + 1;
        } else if y < x {
            result.push(y);
            proof {
                lemma_push_to_set(before, y);
                lemma_take_step(b@, j as int);
            }
            j = j + 1;
        } else {
            proof {
                lemma_take_step(a@, i as int);
                lemma_take_step(b@, j as int);
            }
            i = i + 1;
            j = j + 1;
        }
        assert(result@.to_set() =~= sym_diff(a@.take(i as int).to_set(), b@.take(j as int).to_set()));
    }
    while i < a.len()
        invariant
            sorted(a@),
            sorted(b@),
            sorted(result@),
            i <= a@.len(),
            j <= b@.len(),
            i == a@.len() || j == b@.len(),
            forall|k: int| 0 <= k < result@.len() ==> result@[k] < bound(a@, i as int) && result@[k]
                < bound(b@, j as int),
            forall|p: int| 0 <= p < i ==> a@[p] < bound(b@, j as int),
            forall|q: int| 0 <= q < j ==> b@[q] < bound(a@, i as int),
            result@.to_set() == sym_diff(a@.take(i as int).to_set(), b@.take(j as int).to_set()),
        decreases a@.len() - i,
    {
        let x = a[i];
        let ghost before = result@;
        proof {
            lemma_sorted_prefix(a@, i as int, x);
            lemma_sorted_prefix(b@, j as int, x);
        }
        result.push(x);
        proof {
            lemma_push_to_set(before, x);
            lemma_take_step(a@, i as int);
        }
        i = i + 1;
        assert(result@.to_set() =~= sym_diff(a@.take(i as int).to_set(), b@.take(j as int).to_set()));
    }
    while j < b.len()
        invariant
            sorted(a@),
            sorted(b@),
            sorted(result@),
            i == a@.len(),
            j <= b@.len(),
            forall|k: int| 0 <= k < result@.len() ==> result@[k] < bound(a@, i as int) && result@[k]
                < bound(b@, j as int),
            forall|p: int| 0 <= p < i ==> a@[p] < bound(b@, j as int),
            forall|q: int| 0 <= q < j ==> b@[q] < bound(a@, i as int),
            result@.to_set() == sym_diff(a@.take(i as int).to_set(), b@.take(j as int).to_set()),
        decreases b@.len() - j,
    {
        let y = b[j];
        let ghost before = result@;
        proof {
            lemma_sorted_prefix(a@, i as int, y);
            lemma_sorted_prefix(b@, j as int, y);
        }
        result.push(y);
        proof {
            lemma_push_to_set(before, y);
            lemma_take_step(b@, j as int);
        }
        j = j + 1;
        assert(result@.to_set() =~= sym_diff(a@.take(i as int).to_set(), b@.take(j as int).to_set()));
    }
    proof {
        lemma_take_full(a@);
        lemma_take_full(b@);
    }
    result
}

/// Putting `x` at its place keeps a sequence sorted and adds `x` to its set.
pub proof fn lemma_insert_at(s: Seq<u16>, pos: int, x: u16)
    requires
        sorted(s),
        0 <= pos <= s.len(),
        forall|k: int| 0 <= k < pos ==> s[k] < x,
        forall|k: int| pos <= k < s.len() ==> s[k] > x,
    ensures
        sorted(s.insert(pos, x)),
        s.insert(pos, x).to_set() == s.to_set().insert(x),
{
    let t = s.insert(pos, x);
    assert forall|m: u16| #[trigger] t.to_set().contains(m) == s.to_set().insert(x).contains(m) by {
        if t.to_set().contains(m) {
            let k = choose|k: int| 0 <= k < t.len() && t[k] == m;
            if k < pos {
                assert(s[k] == m);
            } else if k > pos {
                assert(s[k - 1] == m);
            }
        }
        if s.to_set().contains(m) {
            let k = choose|k: int| 0 <= k < s.len() && s[k] == m;
            if k < pos {
                assert(t[k] == m);
            } else {
                assert(t[k + 1] == m);
            }
        }
        if m == x {
            assert(t[pos] == x);
        }
    }
    assert(t.to_set() =~= s.to_set().insert(x));
}

/// Taking out the element at `pos` keeps a sequence sorted and takes that
/// element out of its set.
pub proof fn lemma_remove_at(s: Seq<u16>, pos: int)
    requires
        sorted(s),
        0 <= pos < s.len(),
    ensures
        sorted(s.remove(pos)),
        s.remove(pos).to_set() == s.to_set().remove(s[pos]),
{
    let t = s.remove(pos);
    assert forall|m: u16| #[trigger] t.to_set().contains(m) == s.to_set().remove(s[pos]).contains(m) by {
        if t.to_set().contains(m) {
            let k = choose|k: int| 0 <= k < t.len() && t[k] == m;
            if k < pos {
                assert(s[k] == m);
            } else {
                assert(s[k + 1] == m);
            }
        }
        if s.to_set().contains(m) && m != s[pos] {
            let k = choose|k: int| 0 <= k < s.len() && s[k] == m;
            if k < pos {
                assert(t[k] == m);
            } else {
                assert(t[k - 1] == m);
            }
        }
    }
    assert(t.to_set() =~= s.to_set().remove(s[pos]));
}

/// A copy of a vector.
pub fn vec_copy(v: &Vec<u16>) -> (r: Vec<u16>)
    ensures
        r@ == v@,
{
    let mut r: Vec<u16> = Vec::new();
    let mut i: usize = 0;
    while i < v.len()
        invariant
            i <= v@.len(),
            r@ == v@.take(i as int),
        decreases v@.len() - i,
    {
        r.push(v[i]);
        i = i + 1;
        assert(r@ =~= v@.take(i as int));
    }
    assert(v@.take(v@.len() as int) =~= v@);
    r
}

} // verus!
