//! A set held as a sorted list of disjoint, non-adjacent ranges of `u64`,
//! with its element count kept alongside.

use vstd::prelude::*;
use crate::count::{lemma_increasing_no_dup, lemma_push_to_set, lemma_u16_set_len_bound};
use crate::set_int::{increasing, sym_diff, SetInt, SetIntConstruct};
use crate::types::interval::{
    bound_start, iv_set, ivs_gap_wf, ivs_size, ivs_view, ivs_wf, lemma_bound_next,
    lemma_gap_consecutive, lemma_gap_wf, lemma_ivs_count, lemma_ivs_size, lemma_take_push, lemma_view_gap,
    lemma_view_insert, lemma_view_member, lemma_view_prefix, lemma_view_push, lemma_view_remove,
    lemma_view_update, Interval,
};

verus! {

/// The ranges `(start, end)`, both ends included, sorted, with a gap between
/// neighbours; `len` counts the integers they cover.
pub struct IntervalResourceSet {
    ranges: Vec<(u64, u64)>,
    len: usize,
}

/// A range as an interval of `u16`.
pub open spec fn range_iv(p: (u64, u64)) -> Interval {
    Interval { start: p.0 as u16, end: p.1 as u16 }
}

/// The ranges as intervals.
pub open spec fn as_ivs(r: Seq<(u64, u64)>) -> Seq<Interval> {
    Seq::new(r.len(), |k: int| range_iv(r[k]))
}

/// Every range lies within `u16`, and as intervals they are well formed
/// with gaps.
pub open spec fn ranges_wf(r: Seq<(u64, u64)>) -> bool {
    &&& forall|k: int| 0 <= k < r.len() ==> #[trigger] r[k].1 <= 65535
    &&& forall|k: int| 0 <= k < r.len() ==> #[trigger] r[k].0 <= r[k].1
    &&& ivs_gap_wf(as_ivs(r))
}

/// Where the interval at `i` starts, or just past the end of `u16` room
/// once the list is read: a range before it must end at least two below.
pub open spec fn next_gap(s: Seq<Interval>, i: int) -> int {
    if i < s.len() {
        s[i].start as int
    } else {
        65537
    }
}

proof fn lemma_as_ivs_push(r: Seq<(u64, u64)>, p: (u64, u64))
    ensures
        as_ivs(r.push(p)) == as_ivs(r).push(range_iv(p)),
{
    assert(as_ivs(r.push(p)) =~= as_ivs(r).push(range_iv(p)));
}

/// The first position whose range starts after `v`.
fn find_pos(ranges: &Vec<(u64, u64)>, v: u64) -> (pos: usize)
    requires
        ranges_wf(ranges@),
    ensures
        pos <= ranges@.len(),
        forall|k: int| 0 <= k < pos ==> #[trigger] ranges@[k].0 <= v,
        forall|k: int| pos <= k < ranges@.len() ==> #[trigger] ranges@[k].0 > v,
{
    let mut lo: usize = 0;
    let mut hi: usize = ranges.len();
    while lo < hi
        invariant
            ranges_wf(ranges@),
            lo <= hi <= ranges@.len(),
            forall|k: int| 0 <= k < lo ==> #[trigger] ranges@[k].0 <= v,
            forall|k: int| hi <= k < ranges@.len() ==> #[trigger] ranges@[k].0 > v,
        decreases hi - lo,
    {
        let mid = lo + (hi - lo) / 2;
        if ranges[mid].0 > v {
            proof {
                assert forall|k: int| mid <= k < ranges@.len() implies #[trigger] ranges@[k].0 > v by {
                    if k > mid {
                        assert(as_ivs(ranges@)[mid as int].end + 1 < as_ivs(ranges@)[k].start);
                    }
                }
            }
            hi = mid;
        } else {
            proof {
                assert forall|k: int| 0 <= k < mid + 1 implies #[trigger] ranges@[k].0 <= v by {
                    if k < mid {
                        assert(as_ivs(ranges@)[k].end + 1 < as_ivs(ranges@)[mid as int].start);
                    }
                }
            }
            lo = mid + 1;
        }
    }
    lo
}

/// Appends `new` to `result`, or stretches the last range over it when they
/// touch or overlap.
fn push_range(result: &mut Vec<(u64, u64)>, new: (u64, u64))
    requires
        ranges_wf(old(result)@),
        new.0 <= new.1 <= 65535,
        old(result)@.len() > 0 ==> old(result)@.last().0 <= new.0,
    ensures
        ranges_wf(final(result)@),
        ivs_view(as_ivs(final(result)@)) == ivs_view(as_ivs(old(result)@)).union(iv_set(range_iv(new))),
        final(result)@.len() > 0,
        final(result)@.last().0 <= new.0,
{
    let ghost before = result@;
    if result.len() > 0 {
        let k = result.len() - 1;
        let last = result[k];
        if last.1 + 1 >= new.0 {
            let end = if last.1 >= new.1 {
                last.1
            } else {
                new.1
            };
            result[k] = (last.0, end);
            proof {
                let t = result@;
                assert(as_ivs(t) =~= as_ivs(before).update(k as int, range_iv(t[k as int])));
                lemma_view_update(as_ivs(before), k as int, range_iv(t[k as int]));
                assert(iv_set(range_iv(t[k as int])) =~= iv_set(range_iv(last)).union(iv_set(range_iv(new))));
                assert(ivs_view(as_ivs(t)) =~= ivs_view(as_ivs(before)).union(iv_set(range_iv(new))));
                assert forall|a: int, b: int| 0 <= a < b < t.len() implies #[trigger] as_ivs(t)[a].end + 1 < #[trigger] as_ivs(t)[b].start by {
                    if b == k {
                        assert(as_ivs(before)[a].end + 1 < as_ivs(before)[b].start);
                    } else {
                        assert(as_ivs(before)[a].end + 1 < as_ivs(before)[b].start);
                    }
                }
            }
            return;
        }
    }
    result.push(new);
    proof {
        lemma_as_ivs_push(before, new);
        lemma_view_push(as_ivs(before), range_iv(new));
        let t = result@;
        assert forall|a: int, b: int| 0 <= a < b < t.len() implies #[trigger] as_ivs(t)[a].end + 1 < #[trigger] as_ivs(t)[b].start by {
            if b == t.len() - 1 && a < b - 1 {
                assert(as_ivs(before)[a].end + 1 < as_ivs(before)[b - 1].start);
            }
        }
    }
}

/// The number of integers that the ranges cover.
fn ranges_count(ranges: &Vec<(u64, u64)>) -> (count: usize)
    requires
        ranges_wf(ranges@),
    ensures
        count == ivs_view(as_ivs(ranges@)).len(),
{
    let ghost s = as_ivs(ranges@);
    proof {
        lemma_gap_wf(s);
    }
    let mut total: usize = 0;
    let mut i: usize = 0;
    while i < ranges.len()
        invariant
            ranges_wf(ranges@),
            s == as_ivs(ranges@),
            ivs_wf(s),
            i <= ranges@.len(),
            total == ivs_size(s.take(i as int)),
        decreases ranges@.len() - i,
    {
        let (start, end) = ranges[i];
        proof {
            assert(s.take(i + 1).drop_last() =~= s.take(i as int));
            assert(ivs_wf(s.take(i + 1)));
            lemma_ivs_size(s.take(i + 1));
        }
        total = total + ((end - start + 1) as usize);
        i = i + 1;
    }
    proof {
        assert(s.take(ranges@.len() as int) =~= s);
        lemma_ivs_size(s);
    }
    total
}

impl IntervalResourceSet {
    /// The set of the integers of `self` that `other` lacks.
    fn difference(&self, other: &Self) -> (r: Self)
        requires
            self.wf(),
            other.wf(),
        ensures
            r.wf(),
            r@ == self@.difference(other@),
    {
        let result = ranges_difference(&self.ranges, &other.ranges);
        let len = ranges_count(&result);
        IntervalResourceSet { ranges: result, len }
    }
}

/// The ranges of what `a` holds and `b` lacks.
fn ranges_difference(a: &Vec<(u64, u64)>, b: &Vec<(u64, u64)>) -> (r: Vec<(u64, u64)>)
    requires
        ranges_wf(a@),
        ranges_wf(b@),
    ensures
        ranges_wf(r@),
        ivs_view(as_ivs(r@)) == ivs_view(as_ivs(a@)).difference(ivs_view(as_ivs(b@))),
{
    let ghost sa = as_ivs(a@);
    let ghost sb = as_ivs(b@);
    let ghost bv = ivs_view(sb);
    proof {
        lemma_gap_wf(sa);
        lemma_gap_wf(sb);
    }
    let mut result: Vec<(u64, u64)> = Vec::new();
    let mut i: usize = 0;
    let mut j: usize = 0;
    while i < a.len()
        invariant
            ranges_wf(a@),
            ranges_wf(b@),
            sa == as_ivs(a@),
            sb == as_ivs(b@),
            bv == ivs_view(sb),
            ivs_wf(sa),
            ivs_wf(sb),
            i <= a@.len(),
            j <= b@.len(),
            ranges_wf(result@),
            forall|r: int| 0 <= r < result@.len() ==> #[trigger] result@[r].1 + 1 < next_gap(sa, i as int),
            forall|q: int| 0 <= q < j ==> #[trigger] b@[q].1 < bound_start(sa, i as int),
            ivs_view(as_ivs(result@)) == ivs_view(sa.take(i as int)).difference(bv),
        decreases a@.len() - i,
    {
        let (start, end) = a[i];
        proof {
            lemma_take_push(sa, i as int);
            lemma_bound_next(sa, i as int);
            if i + 1 < a@.len() {
                assert(sa[i as int].end + 1 < sa[i + 1].start);
            }
        }
        while j < b.len() && b[j].1 < start
            invariant
                ranges_wf(b@),
                j <= b@.len(),
                forall|q: int| 0 <= q < j ==> #[trigger] b@[q].1 < start,
            decreases b@.len() - j,
        {
            j = j + 1;
        }
        let ghost base = ivs_view(as_ivs(result@));
        assert(base == ivs_view(sa.take(i as int)).difference(bv));
        let ghost a_iv = sa[i as int];
        let mut cur = start;
        loop
            invariant_except_break
                j < b@.len() ==> b@[j as int].1 >= cur,
            invariant
                ranges_wf(a@),
                ranges_wf(b@),
                sa == as_ivs(a@),
                sb == as_ivs(b@),
                bv == ivs_view(sb),
                ivs_wf(sb),
                i < a@.len(),
                a_iv == sa[i as int],
                start == a@[i as int].0,
                end == a@[i as int].1,
                start <= end <= 65535,
                end + 1 < next_gap(sa, i + 1),
                start <= cur <= end + 1,
                j <= b@.len(),
                forall|q: int| 0 <= q < j ==> #[trigger] b@[q].1 < cur,
                ranges_wf(result@),
                forall|r: int| 0 <= r < result@.len() ==> #[trigger] result@[r].1 + 1 < cur,
                ivs_view(as_ivs(result@)) == base.union(iv_set(a_iv).filter(|x: u16| (x as int) < cur).difference(bv)),
                base == ivs_view(sa.take(i as int)).difference(bv),
            ensures
                start <= cur <= end + 1,
                j <= b@.len(),
                forall|q: int| 0 <= q < j ==> #[trigger] b@[q].1 < cur,
                ranges_wf(result@),
                forall|r: int| 0 <= r < result@.len() ==> #[trigger] result@[r].1 + 1 < cur,
                ivs_view(as_ivs(result@)) == base.union(iv_set(a_iv).filter(|x: u16| (x as int) < cur).difference(bv)),
                cur <= end ==> forall|x: u16| cur <= x <= end ==> !bv.contains(x),
            decreases b@.len() - j,
        {
            if !(j < b.len() && b[j].0 <= end) {
                proof {
                    assert forall|x: u16| cur <= x <= end implies !bv.contains(x) by {
                        assert forall|q: int| 0 <= q < j implies #[trigger] sb[q].end < x by {
                            assert(b@[q].1 < cur);
                        }
                        lemma_view_gap(sb, j as int, x);
                    }
                }
                break;
            }
            let (b_start, b_end) = b[j];
            proof {
                lemma_bound_next(sb, j as int);
                if j + 1 < b@.len() {
                    assert(sb[j as int].end + 1 < sb[j + 1].start);
                }
            }
            let ghost before = result@;
            let ghost old_cur = cur;
            if b_start > cur {
                result.push((cur, b_start - 1));
                proof {
                    let piece = (cur, (b_start - 1) as u64);
                    lemma_as_ivs_push(before, piece);
                    lemma_view_push(as_ivs(before), range_iv(piece));
                    assert forall|x: u16| cur <= x < b_start implies !bv.contains(x) by {
                        assert forall|q: int| 0 <= q < j implies #[trigger] sb[q].end < x by {
                            assert(b@[q].1 < cur);
                        }
                        lemma_view_gap(sb, j as int, x);
                    }
                    let t = result@;
                    assert forall|p: int, q: int| 0 <= p < q < t.len() implies #[trigger] as_ivs(t)[p].end + 1 < #[trigger] as_ivs(t)[q].start by {
                        if q == t.len() - 1 {
                            assert(t[p].1 + 1 < cur);
                        } else {
                            assert(as_ivs(before)[p].end + 1 < as_ivs(before)[q].start);
                        }
                    }
                }
            }
            if b_end + 1 > end {
                cur = end + 1;
                proof {
                    assert forall|x: u16| #[trigger] ivs_view(as_ivs(result@)).contains(x) == base.union(iv_set(a_iv).filter(|y: u16| (y as int) < cur).difference(bv)).contains(x) by {
                        if old_cur <= x <= end && !(x < b_start) {
                            lemma_view_member(sb, j as int, x);
                        }
                        if x < b_start && old_cur <= x {
                            assert forall|q: int| 0 <= q < j implies #[trigger] sb[q].end < x by {
                                assert(b@[q].1 < old_cur);
                            }
                            lemma_view_gap(sb, j as int, x);
                        }
                    }
                    assert(ivs_view(as_ivs(result@)) =~= base.union(iv_set(a_iv).filter(|y: u16| (y as int) < cur).difference(bv)));
                }
                break;
            }
            cur = b_end + 1;
            j = j + 1;
            proof {
                assert forall|x: u16| #[trigger] ivs_view(as_ivs(result@)).contains(x) == base.union(iv_set(a_iv).filter(|y: u16| (y as int) < cur).difference(bv)).contains(x) by {
                    if old_cur <= x && x < cur && !(x < b_start) {
                        lemma_view_member(sb, (j - 1) as int, x);
                    }
                    if x < b_start && old_cur <= x {
                        assert forall|q: int| 0 <= q < j - 1 implies #[trigger] sb[q].end < x by {
                            assert(b@[q].1 < old_cur);
                        }
                        lemma_view_gap(sb, j - 1, x);
                    }
                }
                assert(ivs_view(as_ivs(result@)) =~= base.union(iv_set(a_iv).filter(|y: u16| (y as int) < cur).difference(bv)));
            }
        }
        if cur <= end {
            let ghost before = result@;
            result.push((cur, end));
            proof {
                lemma_as_ivs_push(before, (cur, end));
                lemma_view_push(as_ivs(before), range_iv((cur, end)));
                let t = result@;
                assert forall|p: int, q: int| 0 <= p < q < t.len() implies #[trigger] as_ivs(t)[p].end + 1 < #[trigger] as_ivs(t)[q].start by {
                    if q == t.len() - 1 {
                        assert(t[p].1 + 1 < cur);
                    } else {
                        assert(as_ivs(before)[p].end + 1 < as_ivs(before)[q].start);
                    }
                }
            }
        }
        proof {
            assert(ivs_view(as_ivs(result@)) =~= ivs_view(sa.take(i + 1)).difference(bv));
        }
        i = i + 1;
    }
    proof {
        assert(sa.take(a@.len() as int) =~= sa);
    }
    result
}

impl SetInt for IntervalResourceSet {
    closed spec fn view(&self) -> Set<u16> {
        ivs_view(as_ivs(self.ranges@))
    }

    closed spec fn wf(&self) -> bool {
        &&& ranges_wf(self.ranges@)
        &&& self.len == ivs_view(as_ivs(self.ranges@)).len()
    }

    fn clear(&mut self) {
        self.ranges.clear();
        self.len = 0;
        assert(self@ =~= Set::<u16>::empty());
    }

    #[verifier::rlimit(80)]
    #[verifier::spinoff_prover]
    fn insert(&mut self, value: u16) {
        let v = value as u64;
        let ghost r0 = self.ranges@;
        let ghost s0 = as_ivs(r0);
        proof {
            lemma_gap_wf(s0);
            crate::count::lemma_u16_set_finite(self@);
        }
        let i = find_pos(&self.ranges, v);
        if i > 0 {
            let (s, e) = self.ranges[i - 1];
            if v >= s && v <= e {
                proof {
                    lemma_view_member(s0, i - 1, value);
                    assert(self@ =~= old(self)@.insert(value));
                }
                return;
            }
        }
        proof {
            assert forall|q: int| 0 <= q < i implies #[trigger] s0[q].end < value by {
                if q < i - 1 {
                    assert(s0[q].end + 1 < s0[i - 1].start);
                }
            }
            lemma_view_gap(s0, i as int, value);
            lemma_u16_set_len_bound(self@.insert(value));
            assert(self@.insert(value).len() == self@.len() + 1);
        }
        if i > 0 {
            let (s, e) = self.ranges[i - 1];
            if e + 1 == v {
                self.ranges.set(i - 1, (s, e + 1));
                self.len = self.len + 1;
                let ghost r1 = self.ranges@;
                proof {
                    assert(as_ivs(r1) =~= s0.update(i - 1, range_iv((s, (e + 1) as u64))));
                    lemma_view_update(s0, i - 1, range_iv((s, (e + 1) as u64)));
                    assert(ivs_view(as_ivs(r1)) =~= old(self)@.insert(value));
                }
                if i < self.ranges.len() && self.ranges[i - 1].1 + 1 >= self.ranges[i].0 {
                    let next = self.ranges.remove(i);
                    self.ranges.set(i - 1, (s, next.1));
                    proof {
                        assert(next == r0[i as int]);
                        let t = self.ranges@;
                        assert(as_ivs(r1.remove(i as int)) =~= as_ivs(r1).remove(i as int));
                        assert(as_ivs(r1).remove(i as int) =~= s0.remove(i as int).update(i - 1, range_iv((s, (e + 1) as u64))));
                        assert(as_ivs(t) =~= s0.remove(i as int).update(i - 1, range_iv((s, next.1))));
                        lemma_view_remove(s0, i as int);
                        assert(ivs_wf(s0.remove(i as int))) by {
                            assert forall|a: int, b: int| 0 <= a < b < s0.remove(i as int).len() implies #[trigger] s0.remove(i as int)[a].end < #[trigger] s0.remove(i as int)[b].start by {
                                let a2 = if a < i { a } else { a + 1 };
                                let b2 = if b < i { b } else { b + 1 };
                                assert(s0[a2].end < s0[b2].start);
                            }
                        }
                        lemma_view_update(s0.remove(i as int), i - 1, range_iv((s, next.1)));
                        assert(iv_set(range_iv((s, next.1))) =~= iv_set(s0[i - 1]).union(iv_set(s0[i as int])).insert(value));
                        assert(ivs_view(as_ivs(t)) =~= old(self)@.insert(value));
                        assert forall|k: int| 0 <= k < t.len() - 1 implies #[trigger] as_ivs(t)[k].end + 1 < as_ivs(t)[k + 1].start by {
                            if k < i - 1 {
                                assert(s0[k].end + 1 < s0[k + 1].start);
                            } else {
                                assert(s0[i as int].end + 1 < s0[i + 1].start);
                            }
                        }
                        lemma_gap_consecutive(as_ivs(t));
                    }
                } else {
                    proof {
                        let t = self.ranges@;
                        assert forall|k: int| 0 <= k < t.len() - 1 implies #[trigger] as_ivs(t)[k].end + 1 < as_ivs(t)[k + 1].start by {
                            assert(s0[k].end + 1 < s0[k + 1].start);
                        }
                        lemma_gap_consecutive(as_ivs(t));
                    }
                }
                return;
            }
        }
        if i < self.ranges.len() {
            let (s, e) = self.ranges[i];
            if v + 1 == s {
                self.ranges.set(i, (s - 1, e));
                self.len = self.len + 1;
                proof {
                    let t = self.ranges@;
                    assert(as_ivs(t) =~= s0.update(i as int, range_iv(((s - 1) as u64, e))));
                    lemma_view_update(s0, i as int, range_iv(((s - 1) as u64, e)));
                    assert(ivs_view(as_ivs(t)) =~= old(self)@.insert(value));
                    assert forall|k: int| 0 <= k < t.len() - 1 implies #[trigger] as_ivs(t)[k].end + 1 < as_ivs(t)[k + 1].start by {
                        assert(s0[k].end + 1 < s0[k + 1].start);
                    }
                    lemma_gap_consecutive(as_ivs(t));
                }
                return;
            }
        }
        self.ranges.insert(i, (v, v));
        self.len = self.len + 1;
        proof {
            let t = self.ranges@;
            assert(as_ivs(t) =~= s0.insert(i as int, range_iv((v, v))));
            lemma_view_insert(s0, i as int, range_iv((v, v)));
            assert(ivs_view(as_ivs(t)) =~= old(self)@.insert(value));
            assert forall|k: int| 0 <= k < t.len() - 1 implies #[trigger] as_ivs(t)[k].end + 1 < as_ivs(t)[k + 1].start by {
                if k < i - 1 {
                    assert(s0[k].end + 1 < s0[k + 1].start);
                } else if k > i {
                    assert(s0[k - 1].end + 1 < s0[k].start);
                }
            }
            lemma_gap_consecutive(as_ivs(t));
        }
    }

    fn contains(&self, value: u16) -> (present: bool) {
        let v = value as u64;
        let i = find_pos(&self.ranges, v);
        proof {
            lemma_gap_wf(as_ivs(self.ranges@));
        }
        if i > 0 {
            let (s, e) = self.ranges[i - 1];
            proof {
                if s <= v <= e {
                    lemma_view_member(as_ivs(self.ranges@), i - 1, value);
                } else {
                    assert forall|q: int| 0 <= q < i implies #[trigger] as_ivs(self.ranges@)[q].end < value by {
                        if q < i - 1 {
                            assert(as_ivs(self.ranges@)[q].end + 1 < as_ivs(self.ranges@)[i - 1].start);
                        }
                    }
                    lemma_view_gap(as_ivs(self.ranges@), i as int, value);
                }
            }
            v >= s && v <= e
        } else {
            proof {
                lemma_view_gap(as_ivs(self.ranges@), 0, value);
            }
            false
        }
    }

    #[verifier::rlimit(80)]
    #[verifier::spinoff_prover]
    fn remove(&mut self, value: u16) -> (was_present: bool) {
        let v = value as u64;
        let ghost r0 = self.ranges@;
        let ghost s0 = as_ivs(r0);
        proof {
            lemma_gap_wf(s0);
            crate::count::lemma_u16_set_finite(self@);
        }
        let i = find_pos(&self.ranges, v);
        if i == 0 {
            proof {
                lemma_view_gap(s0, 0, value);
                assert(self@ =~= old(self)@.remove(value));
            }
            return false;
        }
        let (s, e) = self.ranges[i - 1];
        if v < s || v > e {
            proof {
                assert forall|q: int| 0 <= q < i implies #[trigger] s0[q].end < value by {
                    if q < i - 1 {
                        assert(s0[q].end + 1 < s0[i - 1].start);
                    }
                }
                lemma_view_gap(s0, i as int, value);
                assert(self@ =~= old(self)@.remove(value));
            }
            return false;
        }
        proof {
            lemma_view_member(s0, i - 1, value);
            assert(self@.remove(value).len() == self@.len() - 1);
        }
        if s < v && v < e {
            self.ranges.set(i - 1, (s, v - 1));
            let ghost r1 = self.ranges@;
            self.ranges.insert(i, (v + 1, e));
            proof {
                let t = self.ranges@;
                let s1 = s0.update(i - 1, range_iv((s, (v - 1) as u64)));
                assert(as_ivs(r1) =~= s1);
                assert(as_ivs(t) =~= s1.insert(i as int, range_iv(((v + 1) as u64, e))));
                lemma_view_update(s0, i - 1, range_iv((s, (v - 1) as u64)));
                lemma_view_insert(s1, i as int, range_iv(((v + 1) as u64, e)));
                assert(ivs_view(as_ivs(t)) =~= old(self)@.remove(value));
                assert forall|k: int| 0 <= k < t.len() - 1 implies #[trigger] as_ivs(t)[k].end + 1 < as_ivs(t)[k + 1].start by {
                    if k < i - 1 {
                        assert(s0[k].end + 1 < s0[k + 1].start);
                    } else if k > i {
                        assert(s0[k - 1].end + 1 < s0[k].start);
                    } else if k == i {
                        assert(s0[i - 1].end + 1 < s0[i as int].start);
                    }
                }
                lemma_gap_consecutive(as_ivs(t));
            }
        } else if v == s {
            self.ranges.set(i - 1, (s + 1, e));
            if self.ranges[i - 1].0 > self.ranges[i - 1].1 {
                self.ranges.remove(i - 1);
                proof {
                    let t = self.ranges@;
                    assert(as_ivs(t) =~= s0.remove(i - 1));
                    lemma_view_remove(s0, i - 1);
                    assert(ivs_view(as_ivs(t)) =~= old(self)@.remove(value));
                    assert forall|k: int| 0 <= k < t.len() - 1 implies #[trigger] as_ivs(t)[k].end + 1 < as_ivs(t)[k + 1].start by {
                        if k < i - 2 {
                            assert(s0[k].end + 1 < s0[k + 1].start);
                        } else if k == i - 2 {
                            assert(s0[k].end + 1 < s0[i as int].start);
                        } else {
                            assert(s0[k + 1].end + 1 < s0[k + 2].start);
                        }
                    }
                    lemma_gap_consecutive(as_ivs(t));
                }
            } else {
                proof {
                    let t = self.ranges@;
                    assert(as_ivs(t) =~= s0.update(i - 1, range_iv(((s + 1) as u64, e))));
                    lemma_view_update(s0, i - 1, range_iv(((s + 1) as u64, e)));
                    assert(ivs_view(as_ivs(t)) =~= old(self)@.remove(value));
                    assert forall|k: int| 0 <= k < t.len() - 1 implies #[trigger] as_ivs(t)[k].end + 1 < as_ivs(t)[k + 1].start by {
                        assert(s0[k].end + 1 < s0[k + 1].start);
                    }
                    lemma_gap_consecutive(as_ivs(t));
                }
            }
        } else {
            self.ranges.set(i - 1, (s, e - 1));
            if self.ranges[i - 1].0 > self.ranges[i - 1].1 {
                self.ranges.remove(i - 1);
            }
            proof {
                let t = self.ranges@;
                assert(as_ivs(t) =~= s0.update(i - 1, range_iv((s, (e - 1) as u64))));
                lemma_view_update(s0, i - 1, range_iv((s, (e - 1) as u64)));
                assert(ivs_view(as_ivs(t)) =~= old(self)@.remove(value));
                assert forall|k: int| 0 <= k < t.len() - 1 implies #[trigger] as_ivs(t)[k].end + 1 < as_ivs(t)[k + 1].start by {
                    assert(s0[k].end + 1 < s0[k + 1].start);
                }
                lemma_gap_consecutive(as_ivs(t));
            }
        }
        self.len = self.len - 1;
        true
    }

    fn len(&self) -> (count: usize) {
        self.len
    }

    fn iter(&self) -> (elems: Vec<u16>)
        ensures
            increasing(elems@),
    {
        let ghost s = as_ivs(self.ranges@);
        proof {
            lemma_gap_wf(s);
        }
        let mut out: Vec<u16> = Vec::new();
        let mut i: usize = 0;
        while i < self.ranges.len()
            invariant
                ranges_wf(self.ranges@),
                s == as_ivs(self.ranges@),
                ivs_wf(s),
                i <= self.ranges@.len(),
                forall|a: int, b: int| 0 <= a < b < out@.len() ==> out@[a] < out@[b],
                forall|a: int| 0 <= a < out@.len() ==> out@[a] < bound_start(s, i as int),
                out@.to_set() == ivs_view(s.take(i as int)),
            decreases self.ranges@.len() - i,
        {
            let (start, end) = self.ranges[i];
            proof {
                lemma_take_push(s, i as int);
                lemma_bound_next(s, i as int);
            }
            let mut v: u64 = start;
            while v <= end
                invariant
                    start <= v <= end + 1,
                    start <= end <= 65535,
                    forall|a: int, b: int| 0 <= a < b < out@.len() ==> out@[a] < out@[b],
                    forall|a: int| 0 <= a < out@.len() ==> out@[a] < v,
                    out@.to_set() == ivs_view(s.take(i as int)).union(
                        Set::new(|m: u16| start <= m < v),
                    ),
                decreases end + 1 - v,
            {
                if v <= 65535 {
                    let ghost before = out@;
                    out.push(v as u16);
                    proof {
                        lemma_push_to_set(before, v as u16);
                    }
                }
                v = v + 1;
                assert(out@.to_set() =~= ivs_view(s.take(i as int)).union(
                    Set::new(|m: u16| start <= m < v),
                ));
            }
            assert(Set::new(|m: u16| start <= m < v) =~= iv_set(s[i as int]));
            i = i + 1;
        }
        proof {
            assert(s.take(self.ranges@.len() as int) =~= s);
            lemma_increasing_no_dup(out@);
        }
        out
    }

    fn union_with(&mut self, other: &Self) {
        let ghost sa = as_ivs(self.ranges@);
        let ghost sb = as_ivs(other.ranges@);
        proof {
            lemma_gap_wf(sa);
            lemma_gap_wf(sb);
            lemma_ivs_count(sa);
            lemma_ivs_count(sb);
        }
        let mut result: Vec<(u64, u64)> = Vec::with_capacity(self.ranges.len() + other.ranges.len());
        let mut i: usize = 0;
        let mut j: usize = 0;
        while i < self.ranges.len() || j < other.ranges.len()
            invariant
                ranges_wf(self.ranges@),
                ranges_wf(other.ranges@),
                sa == as_ivs(self.ranges@),
                sb == as_ivs(other.ranges@),
                ivs_wf(sa),
                ivs_wf(sb),
                i <= self.ranges@.len(),
                j <= other.ranges@.len(),
                ranges_wf(result@),
                result@.len() > 0 ==> result@.last().0 <= bound_start(sa, i as int)
                    && result@.last().0 <= bound_start(sb, j as int),
                ivs_view(as_ivs(result@)) == ivs_view(sa.take(i as int)).union(ivs_view(sb.take(j as int))),
            decreases self.ranges@.len() + other.ranges@.len() - i - j,
        {
            let next = if j >= other.ranges.len() || (i < self.ranges.len() && self.ranges[i].0 <= other.ranges[j].0) {
                let r = self.ranges[i];
                proof {
                    lemma_take_push(sa, i as int);
                    lemma_bound_next(sa, i as int);
                }
                i = i + 1;
                r
            } else {
                let r = other.ranges[j];
                proof {
                    lemma_take_push(sb, j as int);
                    lemma_bound_next(sb, j as int);
                }
                j = j + 1;
                r
            };
            push_range(&mut result, next);
        }
        proof {
            assert(sa.take(self.ranges@.len() as int) =~= sa);
            assert(sb.take(other.ranges@.len() as int) =~= sb);
        }
        let len = ranges_count(&result);
        self.len = len;
        self.ranges = result;
    }

    fn intersection_with(&mut self, other: &Self) {
        let ghost sa = as_ivs(self.ranges@);
        let ghost sb = as_ivs(other.ranges@);
        let ghost av = ivs_view(sa);
        let ghost bv = ivs_view(sb);
        proof {
            lemma_gap_wf(sa);
            lemma_gap_wf(sb);
        }
        let mut result: Vec<(u64, u64)> = Vec::new();
        let mut i: usize = 0;
        let mut j: usize = 0;
        proof {
            assert(sa.skip(0) =~= sa);
            assert(sb.skip(0) =~= sb);
            assert(ivs_view(as_ivs(result@)) =~= Set::empty());
            assert(av.intersect(bv).difference(ivs_view(sa.skip(0)).intersect(ivs_view(sb.skip(0)))) =~= Set::empty());
        }
        while i < self.ranges.len() && j < other.ranges.len()
            invariant
                ranges_wf(self.ranges@),
                ranges_wf(other.ranges@),
                sa == as_ivs(self.ranges@),
                sb == as_ivs(other.ranges@),
                av == ivs_view(sa),
                bv == ivs_view(sb),
                ivs_wf(sa),
                ivs_wf(sb),
                i <= self.ranges@.len(),
                j <= other.ranges@.len(),
                ranges_wf(result@),
                result@.len() > 0 ==> (result@.last().1 + 1 < next_gap(sa, i as int) || result@.last().1 + 1 < next_gap(sb, j as int)),
                ivs_view(as_ivs(result@)) == av.intersect(bv).difference(
                    ivs_view(sa.skip(i as int)).intersect(ivs_view(sb.skip(j as int))),
                ),
            decreases self.ranges@.len() + other.ranges@.len() - i - j,
        {
            let (a_start, a_end) = self.ranges[i];
            let (b_start, b_end) = other.ranges[j];
            proof {
                lemma_bound_next(sa, i as int);
                lemma_bound_next(sb, j as int);
                lemma_skip_step(sa, i as int);
                lemma_skip_step(sb, j as int);
                if i + 1 < self.ranges@.len() {
                    assert(sa[i as int].end + 1 < sa[i + 1].start);
                }
                if j + 1 < other.ranges@.len() {
                    assert(sb[j as int].end + 1 < sb[j + 1].start);
                }
            }
            let start = if a_start >= b_start {
                a_start
            } else {
                b_start
            };
            let end = if a_end <= b_end {
                a_end
            } else {
                b_end
            };
            let ghost before = result@;
            if start <= end {
                result.push((start, end));
                proof {
                    lemma_as_ivs_push(before, (start, end));
                    lemma_view_push(as_ivs(before), range_iv((start, end)));
                    let t = result@;
                    assert forall|p: int, q: int| 0 <= p < q < t.len() implies #[trigger] as_ivs(t)[p].end + 1 < #[trigger] as_ivs(t)[q].start by {
                        if q == t.len() - 1 {
                            if p < q - 1 {
                                assert(as_ivs(before)[p].end + 1 < as_ivs(before)[q - 1].start);
                            }
                        } else {
                            assert(as_ivs(before)[p].end + 1 < as_ivs(before)[q].start);
                        }
                    }
                }
            }
            let ghost piece_set = iv_set(sa[i as int]).intersect(iv_set(sb[j as int]));
            proof {
                if start <= end {
                    assert(iv_set(range_iv((start, end))) =~= piece_set);
                } else {
                    assert(piece_set =~= Set::empty());
                    assert(result@ == before);
                }
            }
            if a_end < b_end {
                i = i + 1;
                proof {
                    assert forall|x: u16| #[trigger] ivs_view(as_ivs(result@)).contains(x) == av.intersect(bv).difference(
                        ivs_view(sa.skip(i as int)).intersect(ivs_view(sb.skip(j as int)))).contains(x) by {
                        lemma_skip_facts(sa, (i - 1) as int, x);
                        lemma_skip_facts(sb, j as int, x);
                        lemma_skip_member(sa, (i - 1) as int, x);
                        lemma_skip_member(sb, j as int, x);
                    }
                    assert(ivs_view(as_ivs(result@)) =~= av.intersect(bv).difference(
                        ivs_view(sa.skip(i as int)).intersect(ivs_view(sb.skip(j as int)))));
                }
            } else {
                j = j + 1;
                proof {
                    assert forall|x: u16| #[trigger] ivs_view(as_ivs(result@)).contains(x) == av.intersect(bv).difference(
                        ivs_view(sa.skip(i as int)).intersect(ivs_view(sb.skip(j as int)))).contains(x) by {
                        lemma_skip_facts(sa, i as int, x);
                        lemma_skip_facts(sb, (j - 1) as int, x);
                        lemma_skip_member(sa, i as int, x);
                        lemma_skip_member(sb, (j - 1) as int, x);
                    }
                    assert(ivs_view(as_ivs(result@)) =~= av.intersect(bv).difference(
                        ivs_view(sa.skip(i as int)).intersect(ivs_view(sb.skip(j as int)))));
                }
            }
        }
        proof {
            assert(ivs_view(sa.skip(i as int)).intersect(ivs_view(sb.skip(j as int))) =~= Set::empty()) by {
                if i == self.ranges@.len() {
                    assert(sa.skip(i as int).len() == 0);
                    assert(ivs_view(sa.skip(i as int)) =~= Set::empty());
                } else {
                    assert(sb.skip(j as int).len() == 0);
                    assert(ivs_view(sb.skip(j as int)) =~= Set::empty());
                }
            }
            assert(ivs_view(as_ivs(result@)) =~= av.intersect(bv));
        }
        let len = ranges_count(&result);
        self.len = len;
        self.ranges = result;
    }

    fn difference_with(&mut self, other: &Self) {
        let result = ranges_difference(&self.ranges, &other.ranges);
        let len = ranges_count(&result);
        self.len = len;
        self.ranges = result;
    }

    fn symmetric_difference_with(&mut self, other: &Self) {
        let other_diff = other.difference(self);
        self.difference_with(other);
        self.union_with(&other_diff);
        assert(self@ =~= sym_diff(old(self)@, other@));
    }
}

/// The intervals from `i` on are the one at `i` and those after it.
proof fn lemma_skip_step(s: Seq<Interval>, i: int)
    requires
        0 <= i < s.len(),
    ensures
        ivs_view(s.skip(i)) == iv_set(s[i]).union(ivs_view(s.skip(i + 1))),
{
    assert(s.skip(i) =~= seq![s[i]] + s.skip(i + 1));
    assert forall|x: u16| #[trigger] ivs_view(s.skip(i)).contains(x) == iv_set(s[i]).union(ivs_view(s.skip(i + 1))).contains(x) by {
        if ivs_view(s.skip(i)).contains(x) {
            let q = choose|q: int| 0 <= q < s.skip(i).len() && #[trigger] s.skip(i)[q].start <= x <= s.skip(i)[q].end;
            if q > 0 {
                assert(s.skip(i + 1)[q - 1].start <= x <= s.skip(i + 1)[q - 1].end);
            }
        }
        if ivs_view(s.skip(i + 1)).contains(x) {
            let q = choose|q: int| 0 <= q < s.skip(i + 1).len() && #[trigger] s.skip(i + 1)[q].start <= x <= s.skip(i + 1)[q].end;
            assert(s.skip(i)[q + 1].start <= x <= s.skip(i)[q + 1].end);
        }
        if iv_set(s[i]).contains(x) {
            assert(s.skip(i)[0].start <= x <= s.skip(i)[0].end);
        }
    }
    assert(ivs_view(s.skip(i)) =~= iv_set(s[i]).union(ivs_view(s.skip(i + 1))));
}

/// In a well-formed list, the intervals after `i` lie past its end, and what
/// lies in the list from `i` on lies in the list.
proof fn lemma_skip_facts(s: Seq<Interval>, i: int, x: u16)
    requires
        ivs_wf(s),
        0 <= i < s.len(),
    ensures
        ivs_view(s.skip(i + 1)).contains(x) ==> x > s[i].end,
        ivs_view(s.skip(i)).contains(x) ==> ivs_view(s).contains(x),
        ivs_view(s.skip(i)).contains(x) ==> x >= s[i].start,
        (ivs_view(s).contains(x) && x >= s[i].start) ==> ivs_view(s.skip(i)).contains(x),
{
    if ivs_view(s.skip(i + 1)).contains(x) {
        let q = choose|q: int| 0 <= q < s.skip(i + 1).len() && #[trigger] s.skip(i + 1)[q].start <= x <= s.skip(i + 1)[q].end;
        assert(s[i].end < s[i + 1 + q].start);
    }
    if ivs_view(s.skip(i)).contains(x) {
        let q = choose|q: int| 0 <= q < s.skip(i).len() && #[trigger] s.skip(i)[q].start <= x <= s.skip(i)[q].end;
        assert(s[i + q].start <= x <= s[i + q].end);
        if q > 0 {
            assert(s[i].end < s[i + q].start);
        }
    }
    if ivs_view(s).contains(x) && x >= s[i].start {
        let q = choose|q: int| 0 <= q < s.len() && #[trigger] s[q].start <= x <= s[q].end;
        if q < i {
            assert(s[q].end < s[i].start);
        }
        assert(s.skip(i)[q - i].start <= x <= s.skip(i)[q - i].end);
    }
}

/// An integer of the interval at `i` lies in the list from `i` on.
proof fn lemma_skip_member(s: Seq<Interval>, i: int, x: u16)
    requires
        0 <= i < s.len(),
    ensures
        iv_set(s[i]).contains(x) ==> ivs_view(s.skip(i)).contains(x),
        iv_set(s[i]).contains(x) ==> ivs_view(s).contains(x),
{
    if iv_set(s[i]).contains(x) {
        assert(s.skip(i)[0].start <= x <= s.skip(i)[0].end);
        lemma_view_member(s, i, x);
    }
}

impl SetIntConstruct for IntervalResourceSet {
    fn new() -> (s: Self) {
        let s = IntervalResourceSet { ranges: Vec::new(), len: 0 };
        assert(s@ =~= Set::<u16>::empty());
        s
    }

    fn with_capacity(capacity: usize) -> (s: Self) {
        let s = IntervalResourceSet { ranges: Vec::with_capacity(capacity), len: 0 };
        assert(s@ =~= Set::<u16>::empty());
        s
    }
}

} // verus!
