//! A set held as one sorted list of interval bounds: the bounds at even
//! places open a half-open interval, those at odd places close it.

use vstd::prelude::*;
use crate::count::{lemma_increasing_no_dup, lemma_push_to_set, lemma_range_len, lemma_u16_set_finite, lemma_u16_set_len_bound};
use crate::set_int::{increasing, sym_diff, SetInt, SetIntConstruct};

verus! {

/// The bounds: `inner[2k] .. inner[2k + 1]` is the `k`-th interval, its
/// end excluded. The bounds strictly increase, so no interval is empty and
/// touching intervals are one, and they never pass 65536.
#[derive(Clone, Debug)]
pub struct FlatIntervalSet {
    inner: Vec<u32>,
}

/// Never decreasing.
pub open spec fn sorted_le(s: Seq<u32>) -> bool {
    forall|a: int, b: int| 0 <= a < b < s.len() ==> s[a] <= s[b]
}

/// The integers of the intervals that the bounds describe.
pub open spec fn flat_view(s: Seq<u32>) -> Set<u16> {
    Set::new(|n: u16| exists|k: int| 0 <= k && 2 * k + 1 < s.len() && #[trigger] s[2 * k] <= n < s[2 * k + 1])
}

/// Strictly increasing.
pub open spec fn sorted_lt(s: Seq<u32>) -> bool {
    forall|a: int, b: int| 0 <= a < b < s.len() ==> s[a] < s[b]
}

/// Bounds that a `FlatIntervalSet` can hold: an even number of them,
/// strictly increasing (as a binary search for the interval holding a value
/// needs), none past 65536.
pub open spec fn flat_wf(s: Seq<u32>) -> bool {
    &&& s.len() % 2 == 0
    &&& sorted_lt(s)
    &&& forall|k: int| 0 <= k < s.len() ==> #[trigger] s[k] <= 65536
}

/// `i` bounds of `s` lie at or below `n`, the others above it.
pub open spec fn is_cut(s: Seq<u32>, n: int, i: int) -> bool {
    &&& 0 <= i <= s.len()
    &&& (i == 0 || s[i - 1] <= n)
    &&& (i == s.len() || n < s[i])
}

/// An odd number of bounds of `s` lie at or below `n`: `n` lies inside.
pub open spec fn odd_at(s: Seq<u32>, n: int) -> bool {
    exists|i: int| is_cut(s, n, i) && i % 2 == 1
}

proof fn lemma_cut_unique(s: Seq<u32>, n: int, i: int, i2: int)
    requires
        sorted_le(s),
        is_cut(s, n, i),
        is_cut(s, n, i2),
    ensures
        i == i2,
{
    if i < i2 {
        assert(s[i] <= s[i2 - 1]);
    } else if i2 < i {
        assert(s[i2] <= s[i - 1]);
    }
}

/// With a cut at `i`, `n` lies inside exactly when `i` is odd.
proof fn lemma_odd_cut(s: Seq<u32>, n: int, i: int)
    requires
        sorted_le(s),
        is_cut(s, n, i),
    ensures
        odd_at(s, n) == (i % 2 == 1),
{
    if odd_at(s, n) {
        let i2 = choose|i2: int| is_cut(s, n, i2) && i2 % 2 == 1;
        lemma_cut_unique(s, n, i, i2);
    }
}

/// Every integer cuts a sorted list somewhere.
proof fn lemma_cut_exists(s: Seq<u32>, n: int) -> (i: int)
    requires
        sorted_le(s),
    ensures
        is_cut(s, n, i),
    decreases s.len(),
{
    if s.len() == 0 {
        0
    } else {
        let t = s.drop_last();
        let i = lemma_cut_exists(t, n);
        if i < t.len() {
            assert(n < s[i]);
            i
        } else if n < s.last() {
            (s.len() - 1) as int
        } else {
            s.len() as int
        }
    }
}

/// For well-formed bounds, lying in an interval is lying past an odd
/// number of bounds.
proof fn lemma_flat_odd(s: Seq<u32>, n: u16)
    requires
        sorted_le(s),
        s.len() % 2 == 0,
    ensures
        flat_view(s).contains(n) == odd_at(s, n as int),
{
    let i = lemma_cut_exists(s, n as int);
    lemma_odd_cut(s, n as int, i);
    if flat_view(s).contains(n) {
        let k = choose|k: int| 0 <= k && 2 * k + 1 < s.len() && #[trigger] s[2 * k] <= n < s[2 * k + 1];
        assert(is_cut(s, n as int, 2 * k + 1));
        lemma_cut_unique(s, n as int, i, 2 * k + 1);
    }
    if i % 2 == 1 {
        let k = (i - 1) / 2;
        assert(s[2 * k] <= n < s[2 * k + 1]);
    }
}

/// The bounds with one more interval, placed after all the others.
proof fn lemma_flat_push(s: Seq<u32>, a: u32, b: u32)
    requires
        s.len() % 2 == 0,
        sorted_le(s),
        s.len() > 0 ==> s.last() <= a,
        a <= b,
    ensures
        flat_view(s.push(a).push(b)) == flat_view(s).union(Set::new(|n: u16| a <= n < b)),
        flat_view(s).disjoint(Set::new(|n: u16| a <= n < b)),
{
    let t = s.push(a).push(b);
    assert forall|n: u16| #[trigger] flat_view(t).contains(n) == flat_view(s).union(Set::new(|m: u16| a <= m < b)).contains(n) by {
        if flat_view(t).contains(n) {
            let k = choose|k: int| 0 <= k && 2 * k + 1 < t.len() && #[trigger] t[2 * k] <= n < t[2 * k + 1];
            if 2 * k + 1 < s.len() {
                assert(s[2 * k] <= n < s[2 * k + 1]);
            } else {
                assert(2 * k == s.len());
            }
        }
        if flat_view(s).contains(n) {
            let k = choose|k: int| 0 <= k && 2 * k + 1 < s.len() && #[trigger] s[2 * k] <= n < s[2 * k + 1];
            assert(t[2 * k] <= n < t[2 * k + 1]);
        }
        if a <= n < b {
            let k: int = (s.len() / 2) as int;
            assert(t[2 * k] <= n < t[2 * k + 1]);
        }
    }
    assert(flat_view(t) =~= flat_view(s).union(Set::new(|n: u16| a <= n < b)));
    assert forall|n: u16| flat_view(s).contains(n) implies !Set::new(|m: u16| a <= m < b).contains(n) by {
        let k = choose|k: int| 0 <= k && 2 * k + 1 < s.len() && #[trigger] s[2 * k] <= n < s[2 * k + 1];
        assert(s[2 * k + 1] <= s[s.len() - 1]);
    }
}

/// The number of integers that the intervals cover, counted interval by
/// interval.
pub open spec fn flat_size(s: Seq<u32>) -> nat
    decreases s.len(),
{
    if s.len() < 2 {
        0
    } else {
        flat_size(s.drop_last().drop_last()) + (s.last() - s[s.len() - 2]) as nat
    }
}

proof fn lemma_flat_size(s: Seq<u32>)
    requires
        flat_wf(s),
    ensures
        flat_view(s).len() == flat_size(s),
        flat_size(s) <= 65536,
    decreases s.len(),
{
    lemma_u16_set_len_bound(flat_view(s));
    if s.len() == 0 {
        assert(flat_view(s) =~= Set::empty());
    } else {
        let t = s.drop_last().drop_last();
        let a = s[s.len() - 2];
        let b = s.last();
        assert(s =~= t.push(a).push(b));
        assert(flat_wf(t));
        lemma_flat_size(t);
        if t.len() > 0 {
            assert(t.last() <= a);
        }
        lemma_flat_push(t, a, b);
        let r = Set::new(|n: u16| a <= n < b);
        lemma_u16_set_finite(r);
        lemma_u16_set_finite(flat_view(t));
        if a < b {
            lemma_range_len(a as u16, (b - 1) as u16);
            assert(r =~= Set::new(|n: u16| (a as u16) <= n <= ((b - 1) as u16)));
        } else {
            assert(r =~= Set::empty());
        }
        vstd::set_lib::lemma_set_disjoint_lens(flat_view(t), r);
    }
}

/// The set operation that a sweep with selector `op` computes, from whether
/// an integer lies in the first and in the second set.
pub open spec fn sweep_pred(op: u8, in_a: bool, in_b: bool) -> bool {
    if op == 0 {
        in_a || in_b
    } else if op == 1 {
        in_a && in_b
    } else if op == 2 {
        in_a && !in_b
    } else {
        in_a != in_b
    }
}

/// The next bound to visit: the lower of the two heads, or 65537 once both
/// lists are read.
pub open spec fn head_key(a: Seq<u32>, i: int, b: Seq<u32>, j: int) -> int {
    let ka = if i < a.len() { a[i] as int } else { 65537 };
    let kb = if j < b.len() { b[j] as int } else { 65537 };
    if ka <= kb { ka } else { kb }
}

/// Sweeps the bounds of both lists in increasing order, all bounds at the
/// same place at once, tracking whether each list covers the current point,
/// and records a bound each time the selected set operation switches on or
/// off; so the recorded bounds strictly increase and touching intervals of
/// the result are merged.
fn sweep(a: &Vec<u32>, b: &Vec<u32>, op: u8) -> (out: Vec<u32>)
    requires
        flat_wf(a@),
        flat_wf(b@),
        op < 4,
    ensures
        flat_wf(out@),
        forall|n: u16| #[trigger] flat_view(out@).contains(n) == sweep_pred(op, flat_view(a@).contains(n), flat_view(b@).contains(n)),
{
    let mut temp: Vec<u32> = Vec::new();
    let mut i: usize = 0;
    let mut j: usize = 0;
    let mut self_cov: i32 = 0;
    let mut other_cov: i32 = 0;
    while i < a.len() || j < b.len()
        invariant
            flat_wf(a@),
            flat_wf(b@),
            op < 4,
            i <= a@.len(),
            j <= b@.len(),
            self_cov == (i % 2) as i32,
            other_cov == (j % 2) as i32,
            sorted_lt(temp@),
            forall|k: int| 0 <= k < temp@.len() ==> #[trigger] temp@[k] < head_key(a@, i as int, b@, j as int),
            forall|k: int| 0 <= k < temp@.len() ==> #[trigger] temp@[k] <= 65536,
            i > 0 ==> a@[i - 1] < head_key(a@, i as int, b@, j as int),
            j > 0 ==> b@[j - 1] < head_key(a@, i as int, b@, j as int),
            (temp@.len() % 2 == 1) == sweep_pred(op, i % 2 == 1, j % 2 == 1),
            forall|n: u16| (n as int) < head_key(a@, i as int, b@, j as int) ==>
                (#[trigger] odd_at(temp@, n as int) == sweep_pred(op, odd_at(a@, n as int), odd_at(b@, n as int))),
        decreases a@.len() + b@.len() - i - j,
    {
        let ghost key = head_key(a@, i as int, b@, j as int);
        let ghost (i0, j0) = (i as int, j as int);
        let ghost before = temp@;
        let ka: u32 = if i < a.len() { a[i] } else { 65537 };
        let kb: u32 = if j < b.len() { b[j] } else { 65537 };
        let e: u32 = if ka <= kb { ka } else { kb };
        let was_active = if op == 0 {
            self_cov + other_cov > 0
        } else if op == 1 {
            self_cov + other_cov == 2
        } else if op == 2 {
            self_cov > 0 && other_cov == 0
        } else {
            (self_cov > 0) != (other_cov > 0)
        };
        if ka == e {
            self_cov = if i % 2 == 0 { self_cov + 1 } else { self_cov - 1 };
            i = i + 1;
        }
        if kb == e {
            other_cov = if j % 2 == 0 { other_cov + 1 } else { other_cov - 1 };
            j = j + 1;
        }
        let is_active = if op == 0 {
            self_cov + other_cov > 0
        } else if op == 1 {
            self_cov + other_cov == 2
        } else if op == 2 {
            self_cov > 0 && other_cov == 0
        } else {
            (self_cov > 0) != (other_cov > 0)
        };
        if was_active != is_active {
            temp.push(e);
        }
        proof {
            let key2 = head_key(a@, i as int, b@, j as int);
            assert(e == key);
            if i < a@.len() && i > i0 {
                assert(a@[i0] < a@[i as int]);
            }
            if j < b@.len() && j > j0 {
                assert(b@[j0] < b@[j as int]);
            }
            assert(key < key2);
            assert forall|n: u16| (n as int) < key2 implies (#[trigger] odd_at(temp@, n as int) == sweep_pred(op, odd_at(a@, n as int), odd_at(b@, n as int))) by {
                if (n as int) < key {
                    let c = lemma_cut_exists(before, n as int);
                    lemma_odd_cut(before, n as int, c);
                    if temp@.len() > before.len() {
                        assert(is_cut(temp@, n as int, c));
                    } else {
                        assert(temp@ == before);
                    }
                    lemma_odd_cut(temp@, n as int, c);
                } else {
                    assert(is_cut(temp@, n as int, temp@.len() as int));
                    lemma_odd_cut(temp@, n as int, temp@.len() as int);
                    assert(is_cut(a@, n as int, i as int));
                    lemma_odd_cut(a@, n as int, i as int);
                    assert(is_cut(b@, n as int, j as int));
                    lemma_odd_cut(b@, n as int, j as int);
                }
            }
        }
    }
    proof {
        assert forall|n: u16| #[trigger] flat_view(temp@).contains(n) == sweep_pred(op, flat_view(a@).contains(n), flat_view(b@).contains(n)) by {
            lemma_flat_odd(temp@, n);
            lemma_flat_odd(a@, n);
            lemma_flat_odd(b@, n);
        }
    }
    temp
}

impl FlatIntervalSet {
    /// The stored bounds, in order: each pair opens and closes a half-open
    /// interval.
    pub closed spec fn bounds(&self) -> Seq<u32> {
        self.inner@
    }

    /// An empty set.
    pub fn new() -> (s: Self)
        ensures
            s.wf(),
            s@ == Set::<u16>::empty(),
            s.bounds() == Seq::<u32>::empty(),
    {
        let s = FlatIntervalSet { inner: Vec::new() };
        assert(s@ =~= Set::<u16>::empty());
        s
    }

    /// The set holding `e` alone.
    pub fn singleton(e: u16) -> (s: Self)
        ensures
            s.wf(),
            s@ == Set::<u16>::empty().insert(e),
            s.bounds() == seq![e as u32, (e + 1) as u32],
    {
        let e = e as u32;
        let s = FlatIntervalSet { inner: vec![e, e + 1] };
        proof {
            assert(s.inner@[0] == e && s.inner@[1] == e + 1);
            assert forall|n: u16| #[trigger] s@.contains(n) == (n == e) by {
                if n == e {
                    assert(s.inner@[2 * 0int] <= n < s.inner@[2 * 0int + 1]);
                }
            }
            assert(s@ =~= Set::<u16>::empty().insert(e as u16));
            assert(s.inner@ =~= seq![e, (e + 1) as u32]);
        }
        s
    }
}

impl SetInt for FlatIntervalSet {
    closed spec fn view(&self) -> Set<u16> {
        flat_view(self.inner@)
    }

    closed spec fn wf(&self) -> bool {
        flat_wf(self.inner@)
    }

    fn clear(&mut self) {
        self.inner.clear();
        assert(self@ =~= Set::<u16>::empty());
    }

    fn contains(&self, elem: u16) -> (present: bool) {
        let elem = elem as u32;
        let mut lo: usize = 0;
        let mut hi: usize = self.inner.len();
        while lo < hi
            invariant
                flat_wf(self.inner@),
                lo <= hi <= self.inner@.len(),
                lo == 0 || self.inner@[lo - 1] <= elem,
                hi == self.inner@.len() || elem < self.inner@[hi as int],
            decreases hi - lo,
        {
            let mid = lo + (hi - lo) / 2;
            if self.inner[mid] <= elem {
                lo = mid + 1;
            } else {
                hi = mid;
            }
        }
        proof {
            assert(is_cut(self.inner@, elem as int, lo as int));
            lemma_odd_cut(self.inner@, elem as int, lo as int);
            lemma_flat_odd(self.inner@, elem as u16);
        }
        if lo > 0 && self.inner[lo - 1] == elem {
            (lo - 1) % 2 == 0
        } else {
            lo % 2 == 1
        }
    }

    fn insert(&mut self, n: u16) {
        if self.contains(n) {
            assert(self@ =~= old(self)@.insert(n));
            return;
        }
        let singleton = FlatIntervalSet::singleton(n);
        self.union_with(&singleton);
        assert(self@ =~= old(self)@.insert(n));
    }

    fn remove(&mut self, n: u16) -> (was_present: bool) {
        if !self.contains(n) {
            assert(self@ =~= old(self)@.remove(n));
            return false;
        }
        let singleton = FlatIntervalSet::singleton(n);
        self.difference_with(&singleton);
        assert(self@ =~= old(self)@.remove(n));
        true
    }

    fn len(&self) -> (count: usize) {
        let mut total: usize = 0;
        let mut k: usize = 0;
        while k + 1 < self.inner.len()
            invariant
                flat_wf(self.inner@),
                k % 2 == 0,
                k <= self.inner@.len(),
                total == flat_size(self.inner@.take(k as int)),
            decreases self.inner@.len() - k,
        {
            proof {
                let t = self.inner@.take(k + 2);
                assert(t.drop_last().drop_last() =~= self.inner@.take(k as int));
                assert(flat_wf(t));
                lemma_flat_size(t);
            }
            total = total + (self.inner[k + 1] - self.inner[k]) as usize;
            k = k + 2;
        }
        proof {
            assert(self.inner@.take(k as int) =~= self.inner@);
            lemma_flat_size(self.inner@);
        }
        total
    }

    fn iter(&self) -> (elems: Vec<u16>)
        ensures
            increasing(elems@),
    {
        let mut elems: Vec<u16> = Vec::new();
        let mut k: usize = 0;
        while k + 1 < self.inner.len()
            invariant
                flat_wf(self.inner@),
                k % 2 == 0,
                k <= self.inner@.len(),
                forall|a: int, b: int| 0 <= a < b < elems@.len() ==> elems@[a] < elems@[b],
                forall|a: int| 0 <= a < elems@.len() ==> (k < self.inner@.len() ==> elems@[a] < self.inner@[k as int]),
                elems@.to_set() == flat_view(self.inner@.take(k as int)),
            decreases self.inner@.len() - k,
        {
            let start = self.inner[k];
            let end = self.inner[k + 1];
            proof {
                let t = self.inner@.take(k as int);
                assert(self.inner@.take(k + 2) =~= t.push(start).push(end));
                if t.len() > 0 {
                    assert(t.last() <= start);
                }
                lemma_flat_push(t, start, end);
                assert(start <= end);
            }
            let mut x: u32 = start;
            while x < end
                invariant
                    start <= x <= end,
                    start <= end <= 65536,
                    forall|a: int, b: int| 0 <= a < b < elems@.len() ==> elems@[a] < elems@[b],
                    forall|a: int| 0 <= a < elems@.len() ==> elems@[a] < x,
                    elems@.to_set() == flat_view(self.inner@.take(k as int)).union(Set::new(|m: u16| start <= m < x)),
                decreases end - x,
            {
                let ghost before = elems@;
                elems.push(x as u16);
                proof {
                    lemma_push_to_set(before, x as u16);
                }
                x = x + 1;
                assert(elems@.to_set() =~= flat_view(self.inner@.take(k as int)).union(Set::new(|m: u16| start <= m < x)));
            }
            proof {
                assert(Set::new(|m: u16| start <= m < x) =~= Set::new(|m: u16| start <= m < end));
                if k + 2 < self.inner@.len() {
                    assert(self.inner@[k + 1] <= self.inner@[k + 2]);
                }
            }
            k = k + 2;
        }
        proof {
            assert(self.inner@.take(k as int) =~= self.inner@);
            lemma_increasing_no_dup(elems@);
        }
        elems
    }

    fn union_with(&mut self, other: &Self)
        ensures
            flat_wf(final(self).bounds()),
    {
        self.inner = sweep(&self.inner, &other.inner, 0);
        assert(self@ =~= old(self)@.union(other@));
    }

    fn intersection_with(&mut self, other: &Self) {
        self.inner = sweep(&self.inner, &other.inner, 1);
        assert(self@ =~= old(self)@.intersect(other@));
    }

    fn difference_with(&mut self, other: &Self) {
        self.inner = sweep(&self.inner, &other.inner, 2);
        assert(self@ =~= old(self)@.difference(other@));
    }

    fn symmetric_difference_with(&mut self, other: &Self) {
        self.inner = sweep(&self.inner, &other.inner, 3);
        assert(self@ =~= sym_diff(old(self)@, other@));
    }
}

impl SetIntConstruct for FlatIntervalSet {
    fn new() -> (s: Self) {
        FlatIntervalSet::new()
    }

    fn with_capacity(capacity: usize) -> (s: Self) {
        let s = FlatIntervalSet { inner: Vec::with_capacity(capacity) };
        assert(s@ =~= Set::<u16>::empty());
        s
    }
}

} // verus!
