//! A set held as a sorted list of disjoint closed intervals, and the
//! relations between two intervals.

use vstd::prelude::*;
use crate::count::{lemma_increasing_no_dup, lemma_push_to_set, lemma_range_len, lemma_u16_set_len_bound};
use crate::set_int::{increasing, sym_diff, SetInt, SetIntConstruct};

verus! {

/// The integers from `start` to `end`, both included.
#[derive(Clone, Copy, Debug)]
pub struct Interval {
    pub start: u16,
    pub end: u16,
}

/// The integers of an interval.
pub open spec fn iv_set(iv: Interval) -> Set<u16> {
    Set::new(|n: u16| iv.start <= n <= iv.end)
}

/// The integers of a list of intervals.
pub open spec fn ivs_view(s: Seq<Interval>) -> Set<u16> {
    Set::new(|n: u16| exists|k: int| 0 <= k < s.len() && #[trigger] s[k].start <= n <= s[k].end)
}

/// Each interval is non-empty, and each ends before the next begins.
pub open spec fn ivs_wf(s: Seq<Interval>) -> bool {
    &&& forall|k: int| 0 <= k < s.len() ==> #[trigger] s[k].start <= s[k].end
    &&& forall|k: int, l: int| 0 <= k < l < s.len() ==> #[trigger] s[k].end < #[trigger] s[l].start
}

/// The number of integers that the intervals cover, counted interval by
/// interval.
pub open spec fn ivs_size(s: Seq<Interval>) -> nat
    decreases s.len(),
{
    if s.len() == 0 {
        0
    } else {
        ivs_size(s.drop_last()) + (s.last().end - s.last().start + 1) as nat
    }
}

/// The set of the intervals before `i`, or of one more.
pub proof fn lemma_view_push(s: Seq<Interval>, iv: Interval)
    ensures
        ivs_view(s.push(iv)) == ivs_view(s).union(iv_set(iv)),
{
    let t = s.push(iv);
    assert forall|n: u16| #[trigger] ivs_view(t).contains(n) == ivs_view(s).union(iv_set(iv)).contains(n) by {
        if ivs_view(t).contains(n) {
            let k = choose|k: int| 0 <= k < t.len() && #[trigger] t[k].start <= n <= t[k].end;
            if k < s.len() {
                assert(s[k].start <= n <= s[k].end);
            }
        }
        if ivs_view(s).contains(n) {
            let k = choose|k: int| 0 <= k < s.len() && #[trigger] s[k].start <= n <= s[k].end;
            assert(t[k].start <= n <= t[k].end);
        }
        if iv_set(iv).contains(n) {
            assert(t[s.len() as int].start <= n <= t[s.len() as int].end);
        }
    }
    assert(ivs_view(t) =~= ivs_view(s).union(iv_set(iv)));
}

/// Disjoint intervals cover as many integers as their lengths add up to.
pub proof fn lemma_ivs_size(s: Seq<Interval>)
    requires
        ivs_wf(s),
    ensures
        ivs_view(s).len() == ivs_size(s),
        ivs_size(s) <= 65536,
    decreases s.len(),
{
    lemma_u16_set_len_bound(ivs_view(s));
    if s.len() == 0 {
        assert(ivs_view(s) =~= Set::empty());
    } else {
        let r = s.drop_last();
        let iv = s.last();
        assert(ivs_wf(r));
        lemma_ivs_size(r);
        assert(s =~= r.push(iv));
        lemma_view_push(r, iv);
        lemma_range_len(iv.start, iv.end);
        lemma_u16_set_len_bound(ivs_view(r));
        assert(ivs_view(r).disjoint(iv_set(iv))) by {
            assert forall|n: u16| ivs_view(r).contains(n) implies !iv_set(iv).contains(n) by {
                let k = choose|k: int| 0 <= k < r.len() && #[trigger] r[k].start <= n <= r[k].end;
                assert(s[k].end < s[s.len() - 1].start);
            }
        }
        vstd::set_lib::lemma_set_disjoint_lens(ivs_view(r), iv_set(iv));
    }
}

/// Allen's relation: `a` ends before `b` starts.
pub open spec fn iv_before(a: Interval, b: Interval) -> bool {
    a.end < b.start
}

/// Allen's relation: both are proper and `a` ends where `b` starts.
pub open spec fn iv_meets(a: Interval, b: Interval) -> bool {
    a.start < a.end && a.end == b.start && b.start < b.end
}

/// Allen's relation: `a` starts first and ends inside `b`.
pub open spec fn iv_overlaps(a: Interval, b: Interval) -> bool {
    a.start < b.start && a.end > b.start && a.end < b.end
}

/// Allen's relation: same start, `a` ends first.
pub open spec fn iv_starts(a: Interval, b: Interval) -> bool {
    a.start == b.start && a.end < b.end
}

/// Allen's relation: `a` lies strictly inside `b`.
pub open spec fn iv_during(a: Interval, b: Interval) -> bool {
    a.start > b.start && a.end < b.end
}

/// Allen's relation: same end, `a` starts later.
pub open spec fn iv_finishes(a: Interval, b: Interval) -> bool {
    a.start > b.start && a.end == b.end
}

/// Allen's relation: same start and end.
pub open spec fn iv_equal(a: Interval, b: Interval) -> bool {
    a.start == b.start && a.end == b.end
}

/// Allen's relation: same end, `a` starts first.
pub open spec fn iv_finished_by(a: Interval, b: Interval) -> bool {
    a.start < b.start && a.end == b.end
}

/// Allen's relation: `b` lies strictly inside `a`.
pub open spec fn iv_contains(a: Interval, b: Interval) -> bool {
    a.start < b.start && a.end > b.end
}

/// Allen's relation: same start, `a` ends later.
pub open spec fn iv_started_by(a: Interval, b: Interval) -> bool {
    a.start == b.start && a.end > b.end
}

/// Allen's relation: `b` starts first and ends inside `a`.
pub open spec fn iv_overlapped_by(a: Interval, b: Interval) -> bool {
    a.start > b.start && a.start < b.end && a.end > b.end
}

/// Allen's relation: both are proper and `a` starts where `b` ends.
pub open spec fn iv_met_by(a: Interval, b: Interval) -> bool {
    a.start == b.end && b.start < b.end && a.end > a.start
}

/// Allen's relation: `a` starts after `b` ends.
pub open spec fn iv_after(a: Interval, b: Interval) -> bool {
    a.start > b.end
}

#[allow(non_snake_case)]
impl Interval {
    /// The interval from `start` to `end`.
    pub fn new(start: u16, end: u16) -> (iv: Self)
        ensures
            iv.start == start,
            iv.end == end,
    {
        Interval { start, end }
    }

    /// Whether `n` lies in the interval.
    pub fn contains(&self, n: u16) -> (r: bool)
        ensures
            r == (self.start <= n <= self.end),
    {
        n >= self.start && n <= self.end
    }

    /// Allen's "overlaps": `self` starts first and ends inside `other`.
    pub fn overlaps(&self, other: &Interval) -> (r: bool)
        ensures
            r == iv_overlaps(*self, *other),
    {
        self.start < other.start && self.end > other.start && self.end < other.end
    }

    /// The smallest interval that holds both.
    pub fn merge(&self, other: &Interval) -> (r: Interval)
        ensures
            r.start == if self.start <= other.start {
                self.start
            } else {
                other.start
            },
            r.end == if self.end >= other.end {
                self.end
            } else {
                other.end
            },
    {
        let start = if self.start <= other.start {
            self.start
        } else {
            other.start
        };
        let end = if self.end >= other.end {
            self.end
        } else {
            other.end
        };
        Interval::new(start, end)
    }

    /// Allen's "before": `self` ends before `other` starts.
    pub fn beforeP(&self, other: &Interval) -> (r: bool)
        ensures
            r == iv_before(*self, *other),
    {
        self.end < other.start
    }

    /// Allen's "meets": both are proper and `self` ends where `other` starts.
    pub fn meets(&self, other: &Interval) -> (r: bool)
        ensures
            r == iv_meets(*self, *other),
    {
        self.start < self.end && self.end == other.start && other.start < other.end
    }

    /// Allen's "starts": same start, `self` ends first.
    pub fn starts(&self, other: &Interval) -> (r: bool)
        ensures
            r == iv_starts(*self, *other),
    {
        self.start == other.start && self.end < other.end
    }

    /// Allen's "during": `self` lies strictly inside `other`.
    pub fn containedByP(&self, other: &Interval) -> (r: bool)
        ensures
            r == iv_during(*self, *other),
    {
        self.start > other.start && self.end < other.end
    }

    /// Allen's "finishes": same end, `self` starts later.
    pub fn finishes(&self, other: &Interval) -> (r: bool)
        ensures
            r == iv_finishes(*self, *other),
    {
        self.start > other.start && self.end == other.end
    }

    /// Allen's "equals".
    pub fn equalP(&self, other: &Interval) -> (r: bool)
        ensures
            r == iv_equal(*self, *other),
    {
        self.start == other.start && self.end == other.end
    }

    /// Allen's "finished by": same end, `self` starts first.
    pub fn finishedBy(&self, other: &Interval) -> (r: bool)
        ensures
            r == iv_finished_by(*self, *other),
    {
        self.start < other.start && self.end == other.end
    }

    /// Allen's "contains": `other` lies strictly inside `self`.
    pub fn containsP(&self, other: &Interval) -> (r: bool)
        ensures
            r == iv_contains(*self, *other),
    {
        self.start < other.start && self.end > other.end
    }

    /// Allen's "started by": same start, `self` ends later.
    pub fn startedBy(&self, other: &Interval) -> (r: bool)
        ensures
            r == iv_started_by(*self, *other),
    {
        self.start == other.start && self.end > other.end
    }

    /// Allen's "overlapped by": `other` starts first and ends inside `self`.
    pub fn overlappedBy(&self, other: &Interval) -> (r: bool)
        ensures
            r == iv_overlapped_by(*self, *other),
    {
        self.start > other.start && self.start < other.end && self.end > other.end
    }

    /// Allen's "met by": both are proper and `self` starts where `other` ends.
    pub fn metBy(&self, other: &Interval) -> (r: bool)
        ensures
            r == iv_met_by(*self, *other),
    {
        self.start == other.end && other.start < other.end && self.end > self.start
    }

    /// Allen's "after": `self` starts after `other` ends.
    pub fn afterP(&self, other: &Interval) -> (r: bool)
        ensures
            r == iv_after(*self, *other),
    {
        self.start > other.end
    }

    /// Whether the first interval is empty: an interval here always holds
    /// its start, so never.
    pub fn fstEmpty(&self, _other: &Interval) -> (r: bool)
        ensures
            r == false,
    {
        false
    }
}

/// Each relation of Allen's algebra read from the second interval is its
/// converse read from the first: `a` is before `b` exactly when `b` is
/// after `a`, and so on for meets / met by, overlaps / overlapped by,
/// starts / started by, during / contains, finishes / finished by; equality
/// is symmetric.
pub proof fn law_allen_converses(a: Interval, b: Interval)
    ensures
        iv_before(a, b) == iv_after(b, a),
        iv_meets(a, b) == iv_met_by(b, a),
        iv_overlaps(a, b) == iv_overlapped_by(b, a),
        iv_starts(a, b) == iv_started_by(b, a),
        iv_during(a, b) == iv_contains(b, a),
        iv_finishes(a, b) == iv_finished_by(b, a),
        iv_equal(a, b) == iv_equal(b, a),
{
}

/// How many of the thirteen relations hold between `a` and `b`.
pub open spec fn allen_count(a: Interval, b: Interval) -> int {
    (if iv_before(a, b) { 1int } else { 0int }) + (if iv_meets(a, b) { 1int } else { 0int })
        + (if iv_overlaps(a, b) { 1int } else { 0int }) + (if iv_starts(a, b) { 1int } else { 0int })
        + (if iv_during(a, b) { 1int } else { 0int }) + (if iv_finishes(a, b) { 1int } else { 0int })
        + (if iv_equal(a, b) { 1int } else { 0int }) + (if iv_finished_by(a, b) { 1int } else { 0int })
        + (if iv_contains(a, b) { 1int } else { 0int }) + (if iv_started_by(a, b) {
        1int
    } else {
        0int
    }) + (if iv_overlapped_by(a, b) { 1int } else { 0int }) + (if iv_met_by(a, b) {
        1int
    } else {
        0int
    }) + (if iv_after(a, b) { 1int } else { 0int })
}

/// Between two intervals whose start is not past their end, exactly one of
/// the thirteen relations holds.
pub proof fn law_allen_exactly_one(a: Interval, b: Interval)
    requires
        a.start <= a.end,
        b.start <= b.end,
    ensures
        allen_count(a, b) == 1,
{
}

/// The intervals, in increasing order, disjoint.
#[derive(Clone, Debug)]
pub struct IntervalSet {
    intervals: Vec<Interval>,
}

impl IntervalSet {
    /// The stored intervals, in order.
    pub closed spec fn intervals(&self) -> Seq<Interval> {
        self.intervals@
    }

    /// A set made of the given intervals, if they are non-empty, in
    /// increasing order and disjoint; `None` otherwise.
    pub fn from_intervals(intervals: Vec<Interval>) -> (r: Option<IntervalSet>)
        ensures
            r is Some <==> ivs_wf(intervals@),
            r matches Some(s) ==> s.wf() && s@ == ivs_view(intervals@),
    {
        let mut k: usize = 0;
        while k < intervals.len()
            invariant
                k <= intervals@.len(),
                forall|a: int| 0 <= a < k ==> #[trigger] intervals@[a].start <= intervals@[a].end,
                forall|a: int, b: int| 0 <= a < b < k ==> #[trigger] intervals@[a].end < #[trigger] intervals@[b].start,
            decreases intervals@.len() - k,
        {
            if intervals[k].start > intervals[k].end {
                return None;
            }
            if k > 0 && intervals[k - 1].end >= intervals[k].start {
                return None;
            }
            proof {
                assert forall|a: int, b: int| 0 <= a < b < k + 1 implies #[trigger] intervals@[a].end < #[trigger] intervals@[b].start by {
                    if b == k && a < k - 1 {
                        assert(intervals@[a].end < intervals@[k - 1].start);
                    }
                }
            }
            k = k + 1;
        }
        Some(IntervalSet { intervals })
    }
}

impl SetInt for IntervalSet {
    closed spec fn view(&self) -> Set<u16> {
        ivs_view(self.intervals@)
    }

    closed spec fn wf(&self) -> bool {
        ivs_wf(self.intervals@)
    }

    fn clear(&mut self) {
        self.intervals.clear();
        assert(self@ =~= Set::<u16>::empty());
    }

    fn insert(&mut self, n: u16) {
        if self.contains(n) {
            assert(self@ =~= old(self)@.insert(n));
            return;
        }
        let mut pos: usize = 0;
        while pos < self.intervals.len() && self.intervals[pos].start < n
            invariant
                pos <= self.intervals@.len(),
                forall|k: int| 0 <= k < pos ==> #[trigger] self.intervals@[k].start < n,
            decreases self.intervals@.len() - pos,
        {
            pos = pos + 1;
        }
        let ghost s = self.intervals@;
        self.intervals.insert(pos, Interval::new(n, n));
        proof {
            let t = self.intervals@;
            assert forall|k: int| 0 <= k < pos implies #[trigger] s[k].end < n by {
                assert(s[k].start < n);
                assert(!(s[k].start <= n <= s[k].end));
            }
            assert forall|k: int| pos <= k < s.len() implies #[trigger] s[k].start > n by {
                assert(s[k].start >= n);
                assert(!(s[k].start <= n <= s[k].end));
            }
            assert forall|k: int, l: int| 0 <= k < l < t.len() implies #[trigger] t[k].end < #[trigger] t[l].start by {
                if l < pos {
                } else if l == pos {
                    assert(t[k] == s[k]);
                } else if k == pos {
                    assert(t[l] == s[l - 1]);
                } else if k < pos {
                    assert(t[k] == s[k] && t[l] == s[l - 1]);
                } else {
                    assert(t[k] == s[k - 1] && t[l] == s[l - 1]);
                }
            }
            assert forall|m: u16| #[trigger] ivs_view(t).contains(m) == ivs_view(s).insert(n).contains(m) by {
                if ivs_view(t).contains(m) {
                    let k = choose|k: int| 0 <= k < t.len() && #[trigger] t[k].start <= m <= t[k].end;
                    if k < pos {
                        assert(s[k].start <= m <= s[k].end);
                    } else if k > pos {
                        assert(s[k - 1].start <= m <= s[k - 1].end);
                    }
                }
                if ivs_view(s).contains(m) {
                    let k = choose|k: int| 0 <= k < s.len() && #[trigger] s[k].start <= m <= s[k].end;
                    if k < pos {
                        assert(t[k].start <= m <= t[k].end);
                    } else {
                        assert(t[k + 1].start <= m <= t[k + 1].end);
                    }
                }
                if m == n {
                    assert(t[pos as int].start <= m <= t[pos as int].end);
                }
            }
            assert(ivs_view(t) =~= ivs_view(s).insert(n));
        }
    }

    fn remove(&mut self, n: u16) -> (was_present: bool) {
        let mut found = false;
        let mut new_intervals: Vec<Interval> = Vec::new();
        let mut i: usize = 0;
        while i < self.intervals.len()
            invariant
                self.intervals@ == old(self).intervals@,
                ivs_wf(self.intervals@),
                i <= self.intervals@.len(),
                ivs_wf(new_intervals@),
                forall|k: int| 0 <= k < new_intervals@.len() ==> #[trigger] new_intervals@[k].end < bound_start(self.intervals@, i as int),
                ivs_view(new_intervals@) == ivs_view(self.intervals@.take(i as int)).remove(n),
                found == ivs_view(self.intervals@.take(i as int)).contains(n),
            decreases self.intervals@.len() - i,
        {
            let iv = self.intervals[i];
            let ghost before = new_intervals@;
            proof {
                lemma_take_push(self.intervals@, i as int);
                lemma_bound_next(self.intervals@, i as int);
            }
            if iv.contains(n) {
                found = true;
                if iv.start < n {
                    new_intervals.push(Interval::new(iv.start, n - 1));
                    proof {
                        lemma_view_push(before, Interval { start: iv.start, end: (n - 1) as u16 });
                    }
                }
                let ghost mid = new_intervals@;
                if iv.end > n {
                    new_intervals.push(Interval::new(n + 1, iv.end));
                    proof {
                        lemma_view_push(mid, Interval { start: (n + 1) as u16, end: iv.end });
                    }
                }
                proof {
                    assert(ivs_view(new_intervals@) =~= ivs_view(self.intervals@.take(i + 1)).remove(n));
                }
            } else {
                new_intervals.push(iv);
                proof {
                    lemma_view_push(before, iv);
                    assert(ivs_view(new_intervals@) =~= ivs_view(self.intervals@.take(i + 1)).remove(n));
                }
            }
            i = i + 1;
        }
        proof {
            assert(self.intervals@.take(self.intervals@.len() as int) =~= self.intervals@);
        }
        self.intervals = new_intervals;
        found
    }

    fn contains(&self, n: u16) -> (present: bool) {
        let mut i: usize = 0;
        while i < self.intervals.len()
            invariant
                i <= self.intervals@.len(),
                forall|k: int| 0 <= k < i ==> !(#[trigger] self.intervals@[k].start <= n <= self.intervals@[k].end),
            decreases self.intervals@.len() - i,
        {
            if self.intervals[i].contains(n) {
                assert(self.intervals@[i as int].start <= n <= self.intervals@[i as int].end);
                return true;
            }
            i = i + 1;
        }
        false
    }

    fn len(&self) -> (count: usize) {
        let mut total: usize = 0;
        let mut i: usize = 0;
        while i < self.intervals.len()
            invariant
                ivs_wf(self.intervals@),
                i <= self.intervals@.len(),
                total == ivs_size(self.intervals@.take(i as int)),
            decreases self.intervals@.len() - i,
        {
            let iv = self.intervals[i];
            proof {
                assert(self.intervals@.take(i + 1).drop_last() =~= self.intervals@.take(i as int));
                assert(ivs_wf(self.intervals@.take(i + 1)));
                lemma_ivs_size(self.intervals@.take(i + 1));
            }
            total = total + (iv.end as usize - iv.start as usize + 1);
            i = i + 1;
        }
        proof {
            assert(self.intervals@.take(self.intervals@.len() as int) =~= self.intervals@);
            lemma_ivs_size(self.intervals@);
        }
        total
    }

    fn iter(&self) -> (elems: Vec<u16>)
        ensures
            increasing(elems@),
    {
        let mut elems: Vec<u16> = Vec::new();
        let mut i: usize = 0;
        while i < self.intervals.len()
            invariant
                ivs_wf(self.intervals@),
                i <= self.intervals@.len(),
                forall|a: int, b: int| 0 <= a < b < elems@.len() ==> elems@[a] < elems@[b],
                forall|a: int| 0 <= a < elems@.len() ==> elems@[a] < bound_start(self.intervals@, i as int),
                elems@.to_set() == ivs_view(self.intervals@.take(i as int)),
            decreases self.intervals@.len() - i,
        {
            let iv = self.intervals[i];
            proof {
                lemma_take_push(self.intervals@, i as int);
                lemma_bound_next(self.intervals@, i as int);
                lemma_view_push(self.intervals@.take(i as int), iv);
            }
            let mut n: u32 = iv.start as u32;
            while n <= iv.end as u32
                invariant
                    iv.start <= n <= iv.end + 1,
                    iv.start <= iv.end,
                    forall|a: int, b: int| 0 <= a < b < elems@.len() ==> elems@[a] < elems@[b],
                    forall|a: int| 0 <= a < elems@.len() ==> elems@[a] < n,
                    elems@.to_set() == ivs_view(self.intervals@.take(i as int)).union(
                        Set::new(|m: u16| iv.start <= m < n),
                    ),
                decreases iv.end + 1 - n,
            {
                let ghost before = elems@;
                elems.push(n as u16);
                proof {
                    lemma_push_to_set(before, n as u16);
                }
                n = n + 1;
                assert(elems@.to_set() =~= ivs_view(self.intervals@.take(i as int)).union(
                    Set::new(|m: u16| iv.start <= m < n),
                ));
            }
            assert(Set::new(|m: u16| iv.start <= m < n) =~= iv_set(iv));
            i = i + 1;
        }
        proof {
            assert(self.intervals@.take(self.intervals@.len() as int) =~= self.intervals@);
            lemma_increasing_no_dup(elems@);
        }
        elems
    }

    fn union_with(&mut self, other: &Self)
        ensures
            ivs_gap_wf(final(self).intervals()),
    {
        proof {
            lemma_ivs_count(self.intervals@);
            lemma_ivs_count(other.intervals@);
        }
        let mut merged: Vec<Interval> = Vec::with_capacity(self.intervals.len() + other.intervals.len());
        let mut i: usize = 0;
        let mut j: usize = 0;
        while i < self.intervals.len() && j < other.intervals.len()
            invariant
                ivs_wf(self.intervals@),
                ivs_wf(other.intervals@),
                i <= self.intervals@.len(),
                j <= other.intervals@.len(),
                ivs_gap_wf(merged@),
                merged@.len() > 0 ==> merged@.last().start <= bound_start(self.intervals@, i as int)
                    && merged@.last().start <= bound_start(other.intervals@, j as int),
                ivs_view(merged@) == ivs_view(self.intervals@.take(i as int)).union(
                    ivs_view(other.intervals@.take(j as int)),
                ),
            decreases self.intervals@.len() + other.intervals@.len() - i - j,
        {
            let a = self.intervals[i];
            let b = other.intervals[j];
            let next = if a.start <= b.start {
                proof {
                    lemma_take_push(self.intervals@, i as int);
                    lemma_bound_next(self.intervals@, i as int);
                    lemma_bound_grows(self.intervals@, i as int);
                }
                i = i + 1;
                a
            } else {
                proof {
                    lemma_take_push(other.intervals@, j as int);
                    lemma_bound_next(other.intervals@, j as int);
                    lemma_bound_grows(other.intervals@, j as int);
                }
                j = j + 1;
                b
            };
            push_coalesce(&mut merged, next);
        }
        while i < self.intervals.len()
            invariant
                ivs_wf(self.intervals@),
                ivs_wf(other.intervals@),
                i <= self.intervals@.len(),
                j <= other.intervals@.len(),
                ivs_gap_wf(merged@),
                i == self.intervals@.len() || j == other.intervals@.len(),
                merged@.len() > 0 ==> merged@.last().start <= bound_start(self.intervals@, i as int)
                    && merged@.last().start <= bound_start(other.intervals@, j as int),
                ivs_view(merged@) == ivs_view(self.intervals@.take(i as int)).union(
                    ivs_view(other.intervals@.take(j as int)),
                ),
            decreases self.intervals@.len() - i,
        {
            let next = self.intervals[i];
            proof {
                lemma_take_push(self.intervals@, i as int);
                lemma_bound_next(self.intervals@, i as int);
                lemma_bound_grows(self.intervals@, i as int);
            }
            i = i + 1;
            push_coalesce(&mut merged, next);
        }
        while j < other.intervals.len()
            invariant
                ivs_wf(self.intervals@),
                ivs_wf(other.intervals@),
                i <= self.intervals@.len(),
                j <= other.intervals@.len(),
                ivs_gap_wf(merged@),
                merged@.len() > 0 ==> merged@.last().start <= bound_start(other.intervals@, j as int),
                ivs_view(merged@) == ivs_view(self.intervals@.take(i as int)).union(
                    ivs_view(other.intervals@.take(j as int)),
                ),
            decreases other.intervals@.len() - j,
        {
            let next = other.intervals[j];
            proof {
                lemma_take_push(other.intervals@, j as int);
                lemma_bound_next(other.intervals@, j as int);
                lemma_bound_grows(other.intervals@, j as int);
            }
            j = j + 1;
            push_coalesce(&mut merged, next);
        }
        proof {
            assert(self.intervals@.take(self.intervals@.len() as int) =~= self.intervals@);
            assert(other.intervals@.take(other.intervals@.len() as int) =~= other.intervals@);
            lemma_gap_wf(merged@);
        }
        self.intervals = merged;
    }

    fn intersection_with(&mut self, other: &Self) {
        let ghost bv = ivs_view(other.intervals@);
        let mut result: Vec<Interval> = Vec::new();
        let mut j: usize = 0;
        let mut i: usize = 0;
        while i < self.intervals.len()
            invariant
                ivs_wf(self.intervals@),
                ivs_wf(other.intervals@),
                bv == ivs_view(other.intervals@),
                i <= self.intervals@.len(),
                j <= other.intervals@.len(),
                ivs_wf(result@),
                forall|r: int| 0 <= r < result@.len() ==> #[trigger] result@[r].end < bound_start(self.intervals@, i as int),
                forall|q: int| 0 <= q < j ==> #[trigger] other.intervals@[q].end < bound_start(self.intervals@, i as int),
                ivs_view(result@) == ivs_view(self.intervals@.take(i as int)).intersect(bv),
            decreases self.intervals@.len() - i,
        {
            let a = self.intervals[i];
            proof {
                lemma_take_push(self.intervals@, i as int);
                lemma_bound_next(self.intervals@, i as int);
            }
            while j < other.intervals.len() && other.intervals[j].end < a.start
                invariant
                    ivs_wf(other.intervals@),
                    j <= other.intervals@.len(),
                    forall|q: int| 0 <= q < j ==> #[trigger] other.intervals@[q].end < a.start,
                decreases other.intervals@.len() - j,
            {
                j = j + 1;
            }
            let ghost base = ivs_view(result@);
            assert(base == ivs_view(self.intervals@.take(i as int)).intersect(bv));
            let mut k: usize = j;
            while k < other.intervals.len() && other.intervals[k].start <= a.end
                invariant
                    ivs_wf(self.intervals@),
                    ivs_wf(other.intervals@),
                    i < self.intervals@.len(),
                    a == self.intervals@[i as int],
                    a.start <= a.end,
                    a.end < bound_start(self.intervals@, i + 1),
                    j <= k <= other.intervals@.len(),
                    forall|q: int| 0 <= q < j ==> #[trigger] other.intervals@[q].end < a.start,
                    ivs_wf(result@),
                    forall|r: int| 0 <= r < result@.len() ==> #[trigger] result@[r].end < bound_start(self.intervals@, i + 1)
                        && result@[r].end < if a.start >= bound_start(other.intervals@, k as int) { a.start as int } else { bound_start(other.intervals@, k as int) },
                    ivs_view(result@) == base.union(iv_set(a).intersect(ivs_view(other.intervals@.take(k as int)))),
                    base == ivs_view(self.intervals@.take(i as int)).intersect(ivs_view(other.intervals@)),
                decreases other.intervals@.len() - k,
            {
                let b = other.intervals[k];
                proof {
                    lemma_take_push(other.intervals@, k as int);
                    lemma_bound_next(other.intervals@, k as int);
                }
                let overlap_start = if a.start >= b.start { a.start } else { b.start };
                let overlap_end = if a.end <= b.end { a.end } else { b.end };
                let ghost before = result@;
                if overlap_start <= overlap_end {
                    result.push(Interval::new(overlap_start, overlap_end));
                    proof {
                        let piece = Interval { start: overlap_start, end: overlap_end };
                        lemma_view_push(before, piece);
                        assert(iv_set(piece) =~= iv_set(a).intersect(iv_set(b)));
                    }
                } else {
                    assert(iv_set(a).intersect(iv_set(b)) =~= Set::empty());
                }
                k = k + 1;
                assert(ivs_view(result@) =~= base.union(iv_set(a).intersect(ivs_view(other.intervals@.take(k as int)))));
            }
            proof {
                assert forall|x: u16| #[trigger] iv_set(a).intersect(bv).contains(x)
                    == iv_set(a).intersect(ivs_view(other.intervals@.take(k as int))).contains(x) by {
                    lemma_view_prefix(other.intervals@, k as int, x);
                    lemma_view_prefix(other.intervals@, j as int, x);
                }
                assert(ivs_view(self.intervals@.take(i + 1)) == ivs_view(self.intervals@.take(i as int)).union(iv_set(a)));
                assert(iv_set(a).intersect(bv) =~= iv_set(a).intersect(ivs_view(other.intervals@.take(k as int))));
                assert(ivs_view(result@) == base.union(iv_set(a).intersect(bv)));
                assert(ivs_view(result@) =~= ivs_view(self.intervals@.take(i + 1)).intersect(bv));
            }
            i = i + 1;
        }
        proof {
            assert(self.intervals@.take(self.intervals@.len() as int) =~= self.intervals@);
        }
        self.intervals = result;
    }

    fn difference_with(&mut self, other: &Self) {
        let ghost bv = ivs_view(other.intervals@);
        let mut result: Vec<Interval> = Vec::new();
        let mut j: usize = 0;
        let mut i: usize = 0;
        while i < self.intervals.len()
            invariant
                ivs_wf(self.intervals@),
                ivs_wf(other.intervals@),
                bv == ivs_view(other.intervals@),
                i <= self.intervals@.len(),
                j <= other.intervals@.len(),
                ivs_wf(result@),
                forall|r: int| 0 <= r < result@.len() ==> #[trigger] result@[r].end < bound_start(self.intervals@, i as int),
                forall|q: int| 0 <= q < j ==> #[trigger] other.intervals@[q].end < bound_start(self.intervals@, i as int),
                ivs_view(result@) == ivs_view(self.intervals@.take(i as int)).difference(bv),
            decreases self.intervals@.len() - i,
        {
            let a = self.intervals[i];
            proof {
                lemma_take_push(self.intervals@, i as int);
                lemma_bound_next(self.intervals@, i as int);
            }
            let mut cur_start: u32 = a.start as u32;
            let cur_end: u32 = a.end as u32;
            while j < other.intervals.len() && (other.intervals[j].end as u32) < cur_start
                invariant
                    ivs_wf(other.intervals@),
                    j <= other.intervals@.len(),
                    cur_start == a.start,
                    forall|q: int| 0 <= q < j ==> #[trigger] other.intervals@[q].end < a.start,
                decreases other.intervals@.len() - j,
            {
                j = j + 1;
            }
            let ghost base = ivs_view(result@);
            let mut k: usize = j;
            while k < other.intervals.len() && (other.intervals[k].start as u32) <= cur_end
                invariant_except_break
                    k < other.intervals@.len() ==> other.intervals@[k as int].end >= cur_start,
                invariant
                    ivs_wf(self.intervals@),
                    ivs_wf(other.intervals@),
                    bv == ivs_view(other.intervals@),
                    i < self.intervals@.len(),
                    a == self.intervals@[i as int],
                    a.start <= a.end,
                    cur_end == a.end,
                    a.end < bound_start(self.intervals@, i + 1),
                    a.start <= cur_start <= cur_end + 1,
                    j <= k <= other.intervals@.len(),
                    forall|q: int| 0 <= q < k ==> #[trigger] other.intervals@[q].end < cur_start,
                    ivs_wf(result@),
                    forall|r: int| 0 <= r < result@.len() ==> #[trigger] result@[r].end < cur_start,
                    ivs_view(result@) == base.union(iv_set(a).filter(|x: u16| (x as int) < cur_start).difference(bv)),
                ensures
                    a.start <= cur_start <= cur_end + 1,
                    j <= k <= other.intervals@.len(),
                    ivs_wf(result@),
                    forall|r: int| 0 <= r < result@.len() ==> #[trigger] result@[r].end < cur_start,
                    ivs_view(result@) == base.union(iv_set(a).filter(|x: u16| (x as int) < cur_start).difference(bv)),
                    cur_start <= cur_end ==> forall|x: u16| cur_start <= x <= cur_end ==> !bv.contains(x),
                decreases other.intervals@.len() - k,
            {
                let b = other.intervals[k];
                proof {
                    lemma_take_push(other.intervals@, k as int);
                    lemma_bound_next(other.intervals@, k as int);
                }
                let ghost before = result@;
                let ghost old_cur = cur_start;
                if b.start as u32 > cur_start {
                    result.push(Interval::new(cur_start as u16, (b.start - 1) as u16));
                    proof {
                        let piece = Interval { start: cur_start as u16, end: (b.start - 1) as u16 };
                        lemma_view_push(before, piece);
                        assert forall|x: u16| piece.start <= x <= piece.end implies !bv.contains(x) by {
                            lemma_view_gap(other.intervals@, k as int, x);
                        }
                    }
                }
                if b.end as u32 >= cur_end {
                    cur_start = cur_end + 1;
                    proof {
                        assert forall|x: u16| #[trigger] ivs_view(result@).contains(x) == base.union(iv_set(a).filter(|y: u16| (y as int) < cur_start).difference(bv)).contains(x) by {
                            if old_cur <= x <= a.end && !(x < b.start) {
                                assert(iv_set(b).contains(x));
                                lemma_view_member(other.intervals@, k as int, x);
                            }
                        }
                        assert(ivs_view(result@) =~= base.union(iv_set(a).filter(|x: u16| (x as int) < cur_start).difference(bv)));
                    }
                    break;
                } else {
                    cur_start = b.end as u32 + 1;
                }
                k = k + 1;
                proof {
                    assert forall|x: u16| #[trigger] ivs_view(result@).contains(x) == base.union(iv_set(a).filter(|y: u16| (y as int) < cur_start).difference(bv)).contains(x) by {
                        if old_cur <= x && x < cur_start && !(x < b.start) {
                            assert(iv_set(b).contains(x));
                            lemma_view_member(other.intervals@, (k - 1) as int, x);
                        }
                    }
                    assert(ivs_view(result@) =~= base.union(iv_set(a).filter(|x: u16| (x as int) < cur_start).difference(bv)));
                }
            }
            if cur_start <= cur_end {
                let ghost before = result@;
                result.push(Interval::new(cur_start as u16, cur_end as u16));
                proof {
                    lemma_view_push(before, Interval { start: cur_start as u16, end: cur_end as u16 });
                }
            }
            proof {
                assert(ivs_view(result@) =~= ivs_view(self.intervals@.take(i + 1)).difference(bv));
            }
            i = i + 1;
        }
        proof {
            assert(self.intervals@.take(self.intervals@.len() as int) =~= self.intervals@);
        }
        self.intervals = result;
    }

    fn symmetric_difference_with(&mut self, other: &Self) {
        let ghost av = ivs_view(self.intervals@);
        let ghost bv = ivs_view(other.intervals@);
        let ghost sd = sym_diff(av, bv);
        proof {
            lemma_ivs_count(self.intervals@);
            lemma_ivs_count(other.intervals@);
        }
        let la = self.intervals.len();
        let lb = other.intervals.len();
        let mut result: Vec<Interval> = Vec::with_capacity(la + lb);
        let mut i: usize = 0;
        let mut j: usize = 0;
        let mut a_lo: u16 = if la > 0 {
            self.intervals[0].start
        } else {
            0
        };
        let mut b_lo: u16 = if lb > 0 {
            other.intervals[0].start
        } else {
            0
        };
        proof {
            let m0 = sd_min(self.intervals@, 0, a_lo, other.intervals@, 0, b_lo);
            assert forall|x: u16| (x as int) < m0 implies !#[trigger] sd.contains(x) by {
                lemma_view_gap(self.intervals@, 0, x);
                lemma_view_gap(other.intervals@, 0, x);
            }
            assert(sd.filter(|x: u16| (x as int) < m0) =~= Set::empty());
            assert(ivs_view(result@) =~= Set::empty());
            assert forall|x: u16| av.contains(x) && (x as int) < cursor(self.intervals@, 0, a_lo) implies (x as int) < sd_min(self.intervals@, 0, a_lo, other.intervals@, 0, b_lo) by {
                lemma_view_gap(self.intervals@, 0, x);
            }
            assert forall|x: u16| bv.contains(x) && (x as int) < cursor(other.intervals@, 0, b_lo) implies (x as int) < sd_min(self.intervals@, 0, a_lo, other.intervals@, 0, b_lo) by {
                lemma_view_gap(other.intervals@, 0, x);
            }
        }
        while i < la || j < lb
            invariant
                ivs_wf(self.intervals@),
                ivs_wf(other.intervals@),
                la == self.intervals@.len(),
                lb == other.intervals@.len(),
                av == ivs_view(self.intervals@),
                bv == ivs_view(other.intervals@),
                sd == sym_diff(av, bv),
                i <= la,
                j <= lb,
                i < la ==> self.intervals@[i as int].start <= a_lo <= self.intervals@[i as int].end,
                j < lb ==> other.intervals@[j as int].start <= b_lo <= other.intervals@[j as int].end,
                forall|x: u16| av.contains(x) && (x as int) < cursor(self.intervals@, i as int, a_lo)
                    ==> (x as int) < sd_min(self.intervals@, i as int, a_lo, other.intervals@, j as int, b_lo),
                forall|x: u16| bv.contains(x) && (x as int) < cursor(other.intervals@, j as int, b_lo)
                    ==> (x as int) < sd_min(self.intervals@, i as int, a_lo, other.intervals@, j as int, b_lo),
                ivs_wf(result@),
                forall|r: int| 0 <= r < result@.len() ==> (#[trigger] result@[r].end as int) < sd_min(
                    self.intervals@, i as int, a_lo, other.intervals@, j as int, b_lo),
                ivs_view(result@) == sd.filter(|x: u16| (x as int) < sd_min(
                    self.intervals@, i as int, a_lo, other.intervals@, j as int, b_lo)),
            decreases la + lb - i - j,
        {
            let ghost m = sd_min(self.intervals@, i as int, a_lo, other.intervals@, j as int, b_lo);
            let ghost before = result@;
            let ghost (i0, j0, a0, b0) = (i as int, j as int, a_lo, b_lo);
            if i < la && j < lb {
                let ea = self.intervals[i].end;
                let eb = other.intervals[j].end;
                proof {
                    lemma_bound_next(self.intervals@, i as int);
                    lemma_bound_next(other.intervals@, j as int);
                }
                if ea < b_lo {
                    result.push(Interval::new(a_lo, ea));
                    i = i + 1;
                    if i < la {
                        a_lo = self.intervals[i].start;
                    }
                    proof {
                        let piece = Interval { start: a0, end: ea };
                        lemma_view_push(before, piece);
                        let m2 = sd_min(self.intervals@, i as int, a_lo, other.intervals@, j as int, b_lo);
                        assert forall|x: u16| m <= x < m2 implies (sd.contains(x) <==> iv_set(piece).contains(x)) by {
                            lemma_side_facts(self.intervals@, i0, a0, x);
                        }
                        lemma_sd_extend(ivs_view(before), sd, m, m2, iv_set(piece));
                        lemma_side_advance(self.intervals@, i0, i as int, a_lo, av);
                    }
                } else if eb < a_lo {
                    result.push(Interval::new(b_lo, eb));
                    j = j + 1;
                    if j < lb {
                        b_lo = other.intervals[j].start;
                    }
                    proof {
                        let piece = Interval { start: b0, end: eb };
                        lemma_view_push(before, piece);
                        let m2 = sd_min(self.intervals@, i as int, a_lo, other.intervals@, j as int, b_lo);
                        assert forall|x: u16| m <= x < m2 implies (sd.contains(x) <==> iv_set(piece).contains(x)) by {
                            lemma_side_facts(other.intervals@, j0, b0, x);
                        }
                        lemma_sd_extend(ivs_view(before), sd, m, m2, iv_set(piece));
                        lemma_side_advance(other.intervals@, j0, j as int, b_lo, bv);
                    }
                } else {
                    let overlap_start = if a_lo >= b_lo {
                        a_lo
                    } else {
                        b_lo
                    };
                    let overlap_end = if ea <= eb {
                        ea
                    } else {
                        eb
                    };
                    if a_lo < overlap_start {
                        result.push(Interval::new(a_lo, overlap_start - 1));
                    }
                    if b_lo < overlap_start {
                        result.push(Interval::new(b_lo, overlap_start - 1));
                    }
                    let ghost piece = Interval { start: if a0 < b0 { a0 } else { b0 }, end: (overlap_start - 1) as u16 };
                    proof {
                        if a0 != b0 {
                            lemma_view_push(before, piece);
                        } else {
                            assert(result@ == before);
                        }
                    }
                    let a_remaining = overlap_end < ea;
                    let b_remaining = overlap_end < eb;
                    if a_remaining {
                        a_lo = overlap_end + 1;
                        j = j + 1;
                        if j < lb {
                            b_lo = other.intervals[j].start;
                        }
                    } else if b_remaining {
                        b_lo = overlap_end + 1;
                        i = i + 1;
                        if i < la {
                            a_lo = self.intervals[i].start;
                        }
                    } else {
                        i = i + 1;
                        j = j + 1;
                        if i < la {
                            a_lo = self.intervals[i].start;
                        }
                        if j < lb {
                            b_lo = other.intervals[j].start;
                        }
                    }
                    proof {
                        let m2 = sd_min(self.intervals@, i as int, a_lo, other.intervals@, j as int, b_lo);
                        let add = if a0 != b0 { iv_set(piece) } else { Set::empty() };
                        assert forall|x: u16| m <= x < m2 implies (sd.contains(x) <==> add.contains(x)) by {
                            lemma_side_facts(self.intervals@, i0, a0, x);
                            lemma_side_facts(other.intervals@, j0, b0, x);
                        }
                        assert(ivs_view(result@) == ivs_view(before).union(add));
                        lemma_sd_extend(ivs_view(before), sd, m, m2, add);
                        if a_remaining {
                            lemma_side_advance(other.intervals@, j0, j as int, b_lo, bv);
                            assert forall|x: u16| av.contains(x) && (x as int) < cursor(self.intervals@, i as int, a_lo) implies (x as int) < m2 by {
                                lemma_side_facts(self.intervals@, i0, a0, x);
                            }
                        } else if b_remaining {
                            lemma_side_advance(self.intervals@, i0, i as int, a_lo, av);
                            assert forall|x: u16| bv.contains(x) && (x as int) < cursor(other.intervals@, j as int, b_lo) implies (x as int) < m2 by {
                                lemma_side_facts(other.intervals@, j0, b0, x);
                            }
                        } else {
                            lemma_side_advance(self.intervals@, i0, i as int, a_lo, av);
                            lemma_side_advance(other.intervals@, j0, j as int, b_lo, bv);
                        }
                    }
                }
            } else if i < la {
                let ea = self.intervals[i].end;
                proof {
                    lemma_bound_next(self.intervals@, i as int);
                }
                result.push(Interval::new(a_lo, ea));
                i = i + 1;
                if i < la {
                    a_lo = self.intervals[i].start;
                }
                proof {
                    let piece = Interval { start: a0, end: ea };
                    lemma_view_push(before, piece);
                    let m2 = sd_min(self.intervals@, i as int, a_lo, other.intervals@, j as int, b_lo);
                    assert forall|x: u16| m <= x < m2 implies (sd.contains(x) <==> iv_set(piece).contains(x)) by {
                        lemma_side_facts(self.intervals@, i0, a0, x);
                    }
                    lemma_sd_extend(ivs_view(before), sd, m, m2, iv_set(piece));
                    lemma_side_advance(self.intervals@, i0, i as int, a_lo, av);
                }
            } else {
                let eb = other.intervals[j].end;
                proof {
                    lemma_bound_next(other.intervals@, j as int);
                }
                result.push(Interval::new(b_lo, eb));
                j = j + 1;
                if j < lb {
                    b_lo = other.intervals[j].start;
                }
                proof {
                    let piece = Interval { start: b0, end: eb };
                    lemma_view_push(before, piece);
                    let m2 = sd_min(self.intervals@, i as int, a_lo, other.intervals@, j as int, b_lo);
                    assert forall|x: u16| m <= x < m2 implies (sd.contains(x) <==> iv_set(piece).contains(x)) by {
                        lemma_side_facts(other.intervals@, j0, b0, x);
                    }
                    lemma_sd_extend(ivs_view(before), sd, m, m2, iv_set(piece));
                    lemma_side_advance(other.intervals@, j0, j as int, b_lo, bv);
                }
            }
        }
        proof {
            assert(ivs_view(result@) =~= sd);
        }
        self.intervals = result;
    }
}

/// Where the unread part of a list starts: `lo` inside the interval at `i`,
/// or past every `u16` once the list is read.
pub open spec fn cursor(s: Seq<Interval>, i: int, lo: u16) -> int {
    if i < s.len() {
        lo as int
    } else {
        65536
    }
}

/// The lower of the two cursors: everything below it has been decided.
pub open spec fn sd_min(a: Seq<Interval>, i: int, a_lo: u16, b: Seq<Interval>, j: int, b_lo: u16) -> int {
    if cursor(a, i, a_lo) <= cursor(b, j, b_lo) {
        cursor(a, i, a_lo)
    } else {
        cursor(b, j, b_lo)
    }
}

/// What the cursor inside the interval at `i` tells of an integer.
proof fn lemma_side_facts(s: Seq<Interval>, i: int, lo: u16, x: u16)
    requires
        ivs_wf(s),
        0 <= i < s.len(),
        s[i].start <= lo <= s[i].end,
    ensures
        lo <= x <= s[i].end ==> ivs_view(s).contains(x),
        (ivs_view(s).contains(x) && lo <= x && (x as int) < bound_start(s, i + 1)) ==> x <= s[i].end,
{
    if lo <= x <= s[i].end {
        lemma_view_member(s, i, x);
    }
    if ivs_view(s).contains(x) && lo <= x && (x as int) < bound_start(s, i + 1) && x > s[i].end {
        assert forall|q: int| 0 <= q < i + 1 implies #[trigger] s[q].end < x by {
            if q < i {
                assert(s[q].end < s[i].start);
            }
        }
        lemma_view_gap(s, i + 1, x);
    }
}

/// Moving a cursor past the interval at `i0` to the start of the next one.
proof fn lemma_side_advance(s: Seq<Interval>, i0: int, i: int, lo: u16, v: Set<u16>)
    requires
        ivs_wf(s),
        0 <= i0 < s.len(),
        i == i0 + 1,
        v == ivs_view(s),
        i < s.len() ==> lo == s[i].start,
    ensures
        i < s.len() ==> s[i].start <= lo <= s[i].end,
        cursor(s, i, lo) == bound_start(s, i),
{
    if i < s.len() {
        assert(s[i].start <= s[i].end);
    }
}

/// Deciding the integers from `m` up to `m2`: `add` holds exactly those of
/// them that belong to `sd`.
proof fn lemma_sd_extend(rv: Set<u16>, sd: Set<u16>, m: int, m2: int, add: Set<u16>)
    requires
        rv == sd.filter(|x: u16| (x as int) < m),
        m <= m2,
        forall|x: u16| m <= x < m2 ==> (sd.contains(x) <==> add.contains(x)),
        forall|x: u16| add.contains(x) ==> m <= x < m2,
    ensures
        rv.union(add) == sd.filter(|x: u16| (x as int) < m2),
{
    assert(rv.union(add) =~= sd.filter(|x: u16| (x as int) < m2));
}

/// A well-formed list holds at most as many intervals as there are `u16`.
pub proof fn lemma_ivs_count(s: Seq<Interval>)
    requires
        ivs_wf(s),
    ensures
        s.len() <= 65536,
{
    lemma_ivs_size_len(s);
    lemma_ivs_size(s);
}

proof fn lemma_ivs_size_len(s: Seq<Interval>)
    requires
        ivs_wf(s),
    ensures
        ivs_size(s) >= s.len(),
    decreases s.len(),
{
    if s.len() > 0 {
        assert(ivs_wf(s.drop_last()));
        lemma_ivs_size_len(s.drop_last());
        assert(s.last().start <= s.last().end);
    }
}

/// An integer below the start of the interval at `k` lies in the list
/// exactly when it lies in the intervals before `k`.
pub proof fn lemma_view_prefix(s: Seq<Interval>, k: int, x: u16)
    requires
        ivs_wf(s),
        0 <= k <= s.len(),
    ensures
        ivs_view(s.take(k)).contains(x) ==> ivs_view(s).contains(x),
        (ivs_view(s).contains(x) && x < bound_start(s, k)) ==> ivs_view(s.take(k)).contains(x),
{
    if ivs_view(s.take(k)).contains(x) {
        let q = choose|q: int| 0 <= q < s.take(k).len() && #[trigger] s.take(k)[q].start <= x <= s.take(k)[q].end;
        assert(s[q].start <= x <= s[q].end);
    }
    if ivs_view(s).contains(x) && x < bound_start(s, k) {
        let q = choose|q: int| 0 <= q < s.len() && #[trigger] s[q].start <= x <= s[q].end;
        if q >= k {
            if q > k {
                assert(s[k].end < s[q].start);
            }
        }
        assert(s.take(k)[q].start <= x <= s.take(k)[q].end);
    }
}

/// An integer past the ends of the intervals before `k` and before the start
/// of the interval at `k` lies in no interval.
pub proof fn lemma_view_gap(s: Seq<Interval>, k: int, x: u16)
    requires
        ivs_wf(s),
        0 <= k <= s.len(),
        forall|q: int| 0 <= q < k ==> #[trigger] s[q].end < x,
        x < bound_start(s, k),
    ensures
        !ivs_view(s).contains(x),
{
    if ivs_view(s).contains(x) {
        let q = choose|q: int| 0 <= q < s.len() && #[trigger] s[q].start <= x <= s[q].end;
        if q > k {
            assert(s[k].end < s[q].start);
        }
    }
}

/// An integer of the interval at `k` lies in the list.
pub proof fn lemma_view_member(s: Seq<Interval>, k: int, x: u16)
    requires
        0 <= k < s.len(),
        s[k].start <= x <= s[k].end,
    ensures
        ivs_view(s).contains(x),
{
}

/// Replacing one interval of a well-formed list.
pub proof fn lemma_view_update(s: Seq<Interval>, k: int, iv: Interval)
    requires
        ivs_wf(s),
        0 <= k < s.len(),
    ensures
        ivs_view(s.update(k, iv)) == ivs_view(s).difference(iv_set(s[k])).union(iv_set(iv)),
{
    let t = s.update(k, iv);
    assert forall|x: u16| #[trigger] ivs_view(t).contains(x) == ivs_view(s).difference(iv_set(s[k])).union(iv_set(iv)).contains(x) by {
        if ivs_view(t).contains(x) {
            let q = choose|q: int| 0 <= q < t.len() && #[trigger] t[q].start <= x <= t[q].end;
            if q != k {
                assert(s[q].start <= x <= s[q].end);
                if q < k {
                    assert(s[q].end < s[k].start);
                } else {
                    assert(s[k].end < s[q].start);
                }
            }
        }
        if ivs_view(s).contains(x) && !iv_set(s[k]).contains(x) {
            let q = choose|q: int| 0 <= q < s.len() && #[trigger] s[q].start <= x <= s[q].end;
            assert(q != k);
            assert(t[q].start <= x <= t[q].end);
        }
        if iv_set(iv).contains(x) {
            assert(t[k].start <= x <= t[k].end);
        }
    }
    assert(ivs_view(t) =~= ivs_view(s).difference(iv_set(s[k])).union(iv_set(iv)));
}

/// Putting an interval into a list, anywhere.
pub proof fn lemma_view_insert(s: Seq<Interval>, k: int, iv: Interval)
    requires
        0 <= k <= s.len(),
    ensures
        ivs_view(s.insert(k, iv)) == ivs_view(s).union(iv_set(iv)),
{
    let t = s.insert(k, iv);
    assert forall|x: u16| #[trigger] ivs_view(t).contains(x) == ivs_view(s).union(iv_set(iv)).contains(x) by {
        if ivs_view(t).contains(x) {
            let q = choose|q: int| 0 <= q < t.len() && #[trigger] t[q].start <= x <= t[q].end;
            if q < k {
                assert(s[q].start <= x <= s[q].end);
            } else if q > k {
                assert(s[q - 1].start <= x <= s[q - 1].end);
            }
        }
        if ivs_view(s).contains(x) {
            let q = choose|q: int| 0 <= q < s.len() && #[trigger] s[q].start <= x <= s[q].end;
            if q < k {
                assert(t[q].start <= x <= t[q].end);
            } else {
                assert(t[q + 1].start <= x <= t[q + 1].end);
            }
        }
        if iv_set(iv).contains(x) {
            assert(t[k].start <= x <= t[k].end);
        }
    }
    assert(ivs_view(t) =~= ivs_view(s).union(iv_set(iv)));
}

/// Taking an interval out of a well-formed list.
pub proof fn lemma_view_remove(s: Seq<Interval>, k: int)
    requires
        ivs_wf(s),
        0 <= k < s.len(),
    ensures
        ivs_view(s.remove(k)) == ivs_view(s).difference(iv_set(s[k])),
{
    let t = s.remove(k);
    assert forall|x: u16| #[trigger] ivs_view(t).contains(x) == ivs_view(s).difference(iv_set(s[k])).contains(x) by {
        if ivs_view(t).contains(x) {
            let q = choose|q: int| 0 <= q < t.len() && #[trigger] t[q].start <= x <= t[q].end;
            if q < k {
                assert(s[q].start <= x <= s[q].end);
                assert(s[q].end < s[k].start);
            } else {
                assert(s[q + 1].start <= x <= s[q + 1].end);
                assert(s[k].end < s[q + 1].start);
            }
        }
        if ivs_view(s).contains(x) && !iv_set(s[k]).contains(x) {
            let q = choose|q: int| 0 <= q < s.len() && #[trigger] s[q].start <= x <= s[q].end;
            if q < k {
                assert(t[q].start <= x <= t[q].end);
            } else {
                assert(q != k);
                assert(t[q - 1].start <= x <= t[q - 1].end);
            }
        }
    }
    assert(ivs_view(t) =~= ivs_view(s).difference(iv_set(s[k])));
}

/// Gaps between neighbours give gaps between any two intervals.
pub proof fn lemma_gap_consecutive(t: Seq<Interval>)
    requires
        forall|k: int| 0 <= k < t.len() ==> #[trigger] t[k].start <= t[k].end,
        forall|k: int| 0 <= k < t.len() - 1 ==> #[trigger] t[k].end + 1 < t[k + 1].start,
    ensures
        ivs_gap_wf(t),
{
    assert forall|k: int, l: int| 0 <= k < l < t.len() implies #[trigger] t[k].end + 1 < #[trigger] t[l].start by {
        lemma_gap_chain(t, k, l);
    }
}

proof fn lemma_gap_chain(t: Seq<Interval>, k: int, l: int)
    requires
        forall|q: int| 0 <= q < t.len() ==> #[trigger] t[q].start <= t[q].end,
        forall|q: int| 0 <= q < t.len() - 1 ==> #[trigger] t[q].end + 1 < t[q + 1].start,
        0 <= k < l < t.len(),
    ensures
        t[k].end + 1 < t[l].start,
    decreases l - k,
{
    if l > k + 1 {
        lemma_gap_chain(t, k, l - 1);
        assert(t[l - 1].start <= t[l - 1].end);
        assert(t[l - 1].end + 1 < t[l].start);
    }
}

/// The start of the interval at `i`, or one past every `u16` at the end.
pub open spec fn bound_start(s: Seq<Interval>, i: int) -> int {
    if i < s.len() {
        s[i].start as int
    } else {
        65536
    }
}

/// The intervals before `i + 1` are those before `i` and the one at `i`.
pub proof fn lemma_take_push(s: Seq<Interval>, i: int)
    requires
        0 <= i < s.len(),
    ensures
        s.take(i + 1) == s.take(i).push(s[i]),
        ivs_view(s.take(i + 1)) == ivs_view(s.take(i)).union(iv_set(s[i])),
{
    assert(s.take(i + 1) =~= s.take(i).push(s[i]));
    lemma_view_push(s.take(i), s[i]);
}

/// Starts grow along a well-formed list.
pub proof fn lemma_bound_grows(s: Seq<Interval>, i: int)
    requires
        ivs_wf(s),
        0 <= i < s.len(),
    ensures
        s[i].start <= bound_start(s, i + 1),
{
    if i + 1 < s.len() {
        assert(s[i].end < s[i + 1].start);
    }
}

/// In a well-formed list, the interval at `i` ends before the next one starts.
pub proof fn lemma_bound_next(s: Seq<Interval>, i: int)
    requires
        ivs_wf(s),
        0 <= i < s.len(),
    ensures
        s[i].start <= s[i].end,
        s[i].end < bound_start(s, i + 1),
        forall|x: u16| ivs_view(s.take(i)).contains(x) ==> x < s[i].start,
{
    if i + 1 < s.len() {
        assert(s[i].end < s[i + 1].start);
    }
    assert forall|x: u16| ivs_view(s.take(i)).contains(x) implies x < s[i].start by {
        let k = choose|k: int| 0 <= k < s.take(i).len() && #[trigger] s.take(i)[k].start <= x <= s.take(i)[k].end;
        assert(s[k].end < s[i].start);
    }
}

/// Well formed, with a gap of at least one integer between intervals.
pub open spec fn ivs_gap_wf(s: Seq<Interval>) -> bool {
    &&& forall|k: int| 0 <= k < s.len() ==> #[trigger] s[k].start <= s[k].end
    &&& forall|k: int, l: int| 0 <= k < l < s.len() ==> #[trigger] s[k].end + 1 < #[trigger] s[l].start
}

/// Appends `next` to `merged`, or stretches the last interval of `merged`
/// over it when they touch or overlap.
fn push_coalesce(merged: &mut Vec<Interval>, next: Interval)
    requires
        ivs_gap_wf(old(merged)@),
        next.start <= next.end,
        old(merged)@.len() > 0 ==> old(merged)@.last().start <= next.start,
    ensures
        ivs_gap_wf(final(merged)@),
        ivs_view(final(merged)@) == ivs_view(old(merged)@).union(iv_set(next)),
        final(merged)@.len() > 0,
        final(merged)@.last().start <= next.start,
{
    let ghost before = merged@;
    if merged.len() > 0 {
        let k = merged.len() - 1;
        let last = merged[k];
        if next.start <= last.end.saturating_add(1) {
            let end = if last.end >= next.end {
                last.end
            } else {
                next.end
            };
            merged[k] = Interval { start: last.start, end };
            proof {
                let t = merged@;
                assert(before =~= before.drop_last().push(last));
                assert(t =~= before.drop_last().push(t[k as int]));
                lemma_view_push(before.drop_last(), last);
                lemma_view_push(before.drop_last(), t[k as int]);
                assert(iv_set(t[k as int]) =~= iv_set(last).union(iv_set(next)));
                assert(ivs_view(t) =~= ivs_view(before).union(iv_set(next)));
            }
            return;
        }
    }
    merged.push(next);
    proof {
        lemma_view_push(before, next);
    }
}

/// A list with gaps is well formed.
pub proof fn lemma_gap_wf(s: Seq<Interval>)
    requires
        ivs_gap_wf(s),
    ensures
        ivs_wf(s),
{
}

impl SetIntConstruct for IntervalSet {
    fn new() -> (s: Self) {
        let s = IntervalSet { intervals: Vec::new() };
        assert(s@ =~= Set::<u16>::empty());
        s
    }

    fn with_capacity(capacity: usize) -> (s: Self) {
        let s = IntervalSet { intervals: Vec::with_capacity(capacity) };
        assert(s@ =~= Set::<u16>::empty());
        s
    }
}

} // verus!
