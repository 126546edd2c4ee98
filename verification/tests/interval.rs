#![allow(non_snake_case)]

//! The relations between two intervals, and unions and intersections of
//! interval sets that hold one interval each.

use opti_set_int::set_int::SetInt;
use opti_set_int::types::{FlatIntervalSet, Interval, IntervalSet};

fn single(start: u16, end: u16) -> IntervalSet {
    IntervalSet::from_intervals(vec![Interval::new(start, end)]).unwrap()
}

fn empty() -> IntervalSet {
    IntervalSet::from_intervals(vec![]).unwrap()
}

#[test]
fn test_beforeP() {
    let a = Interval::new(0,2);
    let b = Interval::new(3,4);
    let c = Interval::new(3,3);
    let d = Interval::new(2,2);

    assert_eq!(a.beforeP(&b), true);
    assert_eq!(a.beforeP(&c), true);
    assert_eq!(d.beforeP(&b), true);
    assert_eq!(d.beforeP(&c), true);
    assert_eq!(a.beforeP(&d), false);
}

#[test]
fn test_meets() {
    let a = Interval::new(0,2);
    let b = Interval::new(2,3);
    let c = Interval::new(1,2);
    let d = Interval::new(2,2);

    assert_eq!(a.meets(&b), true);
    assert_eq!(a.meets(&c), false);
    assert_eq!(a.meets(&d), false);
}

#[test]
fn test_overlaps() {
    let a = Interval::new(0,2);
    let b = Interval::new(1,2);
    let c = Interval::new(1,3);

    assert_eq!(a.overlaps(&b), false);
    assert_eq!(a.overlaps(&c), true);
}

#[test]
fn test_starts() {
    let a = Interval::new(0,2);
    let b = Interval::new(0,0);
    let c = Interval::new(0,5);
    let d = Interval::new(1,5);

    assert_eq!(a.starts(&c), true);
    assert_eq!(a.starts(&b), false);
    assert_eq!(a.starts(&d), false);
    assert_eq!(b.starts(&c), true);
}

#[test]
fn test_containedByP() {
    let a = Interval::new(0,5);
    let b = Interval::new(1,3);
    let c = Interval::new(0,5);
    let d = Interval::new(1,1);

    assert_eq!(b.containedByP(&a), true);
    assert_eq!(c.containedByP(&a), false);
    assert_eq!(d.containedByP(&a), true);
}

#[test]
fn test_finishes() {
    let a = Interval::new(1,5);
    let b = Interval::new(1,3);
    let c = Interval::new(0,5);
    let d = Interval::new(5,5);

    assert_eq!(a.finishes(&b), false);
    assert_eq!(a.finishes(&c), true);
    assert_eq!(d.finishes(&c), true);
}

#[test]
fn test_equalP() {
    let a = Interval::new(0,5);
    let b = Interval::new(1,3);
    let c = Interval::new(0,5);

    assert_eq!(a.equalP(&b), false);
    assert_eq!(a.equalP(&c), true);
}

#[test]
fn test_finishedBy() {
    let a = Interval::new(0,5);
    let b = Interval::new(1,5);
    let c = Interval::new(5,5);
    let d = Interval::new(5,7);

    assert_eq!(a.finishedBy(&b), true);
    assert_eq!(a.finishedBy(&c), true);
    assert_eq!(a.finishedBy(&d), false);
}

#[test]
fn test_containsP() {
    let a = Interval::new(0,5);
    let b = Interval::new(1,3);
    let c = Interval::new(0,5);
    let d = Interval::new(3,3);

    assert_eq!(a.containsP(&b), true);
    assert_eq!(a.containsP(&c), false);
    assert_eq!(a.containsP(&d), true);
}

#[test]
fn test_startedBy() {
    let a = Interval::new(0,5);
    let b = Interval::new(0,3);
    let c = Interval::new(0,5);
    let d = Interval::new(0,0);

    assert_eq!(a.startedBy(&b), true);
    assert_eq!(a.startedBy(&c), false);
    assert_eq!(a.startedBy(&d), true);
}

#[test]
fn test_overlappedBy() {
    let a = Interval::new(1,6);
    let b = Interval::new(0,5);
    let c = Interval::new(2,7);
    let d = Interval::new(0,7);

    assert_eq!(a.overlappedBy(&b), true);
    assert_eq!(a.overlappedBy(&c), false);
    assert_eq!(a.overlappedBy(&d), false);
}

#[test]
fn test_metBy() {
    let a = Interval::new(5,10);
    let b = Interval::new(1,5);
    let c = Interval::new(5,5);
    let d = Interval::new(1,3);

    assert_eq!(a.metBy(&b), true);
    assert_eq!(a.metBy(&c), false);
    assert_eq!(a.metBy(&d), false);
    assert_eq!(c.metBy(&b), false);
}

#[test]
fn test_afterP() {
    let a = Interval::new(5,10);
    let b = Interval::new(1,4);
    let c = Interval::new(4,4);
    let d = Interval::new(5,5);

    assert_eq!(a.afterP(&b), true);
    assert_eq!(a.afterP(&c), true);
    assert_eq!(a.afterP(&d), false);
    assert_eq!(d.afterP(&c), true);
    assert_eq!(d.afterP(&b), true);
}

#[test]
fn test_intervalset_beforeP() {
    let a = single(0, 16);
    let b = single(32, 64);
    let mut aa = a.clone();
    aa.union_with(&b);
    assert_eq!(aa.len(), 50);
    let mut aa = a.clone();
    aa.intersection_with(&b);
    assert_eq!(aa.len(), 0);

    let b = single(32, 32);
    let mut aa = a.clone();
    aa.union_with(&b);
    assert_eq!(aa.len(), 18);
    let mut aa = a.clone();
    aa.intersection_with(&b);
    assert_eq!(aa.len(), 0);

    let a = single(16, 16);
    let b = single(32, 64);
    let mut aa = a.clone();
    aa.union_with(&b);
    assert_eq!(aa.len(), 34);
    let mut aa = a.clone();
    aa.intersection_with(&b);
    assert_eq!(aa.len(), 0);

    let b = single(32, 32);
    let mut aa = a.clone();
    aa.union_with(&b);
    assert_eq!(aa.len(), 2);
    let mut aa = a.clone();
    aa.intersection_with(&b);
    assert_eq!(aa.len(), 0);
}

#[test]
fn test_interval_meets() {
    let a = single(0, 16);
    let b = single(16, 32);
    let mut aa = a.clone();
    aa.union_with(&b);
    assert_eq!(aa.len(), 33);
    let mut aa = a.clone();
    aa.intersection_with(&b);
    assert_eq!(aa.len(), 1);
}

#[test]
fn test_interval_overlaps() {
    let a = single(0, 16);
    let b = single(8, 32);
    let mut aa = a.clone();
    aa.union_with(&b);
    assert_eq!(aa.len(), 33);
    let mut aa = a.clone();
    aa.intersection_with(&b);
    assert_eq!(aa.len(), 9);
}

#[test]
fn test_interval_starts() {
    let a = single(0, 16);
    let b = single(0, 32);
    let mut aa = a.clone();
    aa.union_with(&b);
    assert_eq!(aa.len(), 33);
    let mut aa = a.clone();
    aa.intersection_with(&b);
    assert_eq!(aa.len(), 17);

    let a = single(0, 0);
    let b = single(0, 32);
    let mut aa = a.clone();
    aa.union_with(&b);
    assert_eq!(aa.len(), 33);
    let mut aa = a.clone();
    aa.intersection_with(&b);
    assert_eq!(aa.len(), 1);
}

#[test]
fn test_interval_containedByP() {
    let a = single(8, 16);
    let b = single(0, 32);
    let mut aa = a.clone();
    aa.union_with(&b);
    assert_eq!(aa.len(), 33);
    let mut aa = a.clone();
    aa.intersection_with(&b);
    assert_eq!(aa.len(), 9);

    let a = single(5, 5);
    let b = single(0, 32);
    let mut aa = a.clone();
    aa.union_with(&b);
    assert_eq!(aa.len(), 33);
    let mut aa = a.clone();
    aa.intersection_with(&b);
    assert_eq!(aa.len(), 1);
}

#[test]
fn test_interval_finishes() {
    let a = single(16, 32);
    let b = single(0, 32);
    let mut aa = a.clone();
    aa.union_with(&b);
    assert_eq!(aa.len(), 33);
    let mut aa = a.clone();
    aa.intersection_with(&b);
    assert_eq!(aa.len(), 17);

    let a = single(32, 32);
    let b = single(0, 32);
    let mut aa = a.clone();
    aa.union_with(&b);
    assert_eq!(aa.len(), 33);
    let mut aa = a.clone();
    aa.intersection_with(&b);
    assert_eq!(aa.len(), 1);
}

#[test]
fn test_interval_equalP() {
    let a = single(0, 32);
    let b = single(0, 32);
    let mut aa = a.clone();
    aa.union_with(&b);
    assert_eq!(aa.len(), 33);
    let mut aa = a.clone();
    aa.intersection_with(&b);
    assert_eq!(aa.len(), 33);

    let a = single(0, 0);
    let b = single(0, 0);
    let mut aa = a.clone();
    aa.union_with(&b);
    assert_eq!(aa.len(), 1);
    let mut aa = a.clone();
    aa.intersection_with(&b);
    assert_eq!(aa.len(), 1);
}

#[test]
fn test_interval_finishedBy() {
    let a = single(0, 16);
    let b = single(8, 16);
    let mut aa = a.clone();
    aa.union_with(&b);
    assert_eq!(aa.len(), 17);
    let mut aa = a.clone();
    aa.intersection_with(&b);
    assert_eq!(aa.len(), 9);

    let a = single(0, 32);
    let b = single(32, 32);
    let mut aa = a.clone();
    aa.union_with(&b);
    assert_eq!(aa.len(), 33);
    let mut aa = a.clone();
    aa.intersection_with(&b);
    assert_eq!(aa.len(), 1);
}

#[test]
fn test_interval_containsP() {
    let a = single(0, 16);
    let b = single(5, 10);
    let mut aa = a.clone();
    aa.union_with(&b);
    assert_eq!(aa.len(), 17);
    let mut aa = a.clone();
    aa.intersection_with(&b);
    assert_eq!(aa.len(), 6);

    let a = single(0, 16);
    let b = single(5, 5);
    let mut aa = a.clone();
    aa.union_with(&b);
    assert_eq!(aa.len(), 17);
    let mut aa = a.clone();
    aa.intersection_with(&b);
    assert_eq!(aa.len(), 1);
}

#[test]
fn test_interval_startedBy() {
    let a = single(0, 16);
    let b = single(0, 8);
    let mut aa = a.clone();
    aa.union_with(&b);
    assert_eq!(aa.len(), 17);
    let mut aa = a.clone();
    aa.intersection_with(&b);
    assert_eq!(aa.len(), 9);

    let a = single(0, 16);
    let b = single(0, 0);
    let mut aa = a.clone();
    aa.union_with(&b);
    assert_eq!(aa.len(), 17);
    let mut aa = a.clone();
    aa.intersection_with(&b);
    assert_eq!(aa.len(), 1);
}

#[test]
fn test_interval_overlappedBy() {
    let a = single(8, 32);
    let b = single(0, 16);
    let mut aa = a.clone();
    aa.union_with(&b);
    assert_eq!(aa.len(), 33);
    let mut aa = a.clone();
    aa.intersection_with(&b);
    assert_eq!(aa.len(), 9);
}

#[test]
fn test_interval_metBy() {
    let a = single(16, 32);
    let b = single(0, 16);
    let mut aa = a.clone();
    aa.union_with(&b);
    assert_eq!(aa.len(), 33);
    let mut aa = a.clone();
    aa.intersection_with(&b);
    assert_eq!(aa.len(), 1);
}

#[test]
fn test_interval_afterP() {
    let a = single(20, 30);
    let b = single(0, 10);
    let mut aa = a.clone();
    aa.union_with(&b);
    assert_eq!(aa.len(), 22);
    let mut aa = a.clone();
    aa.intersection_with(&b);
    assert_eq!(aa.len(), 0);

    let a = single(20, 20);
    let mut aa = a.clone();
    aa.union_with(&b);
    assert_eq!(aa.len(), 12);
    let mut aa = a.clone();
    aa.intersection_with(&b);
    assert_eq!(aa.len(), 0);

    let a = single(20, 30);
    let b = single(0, 0);
    let mut aa = a.clone();
    aa.union_with(&b);
    assert_eq!(aa.len(), 12);
    let mut aa = a.clone();
    aa.intersection_with(&b);
    assert_eq!(aa.len(), 0);

    let a = single(20, 20);
    let mut aa = a.clone();
    aa.union_with(&b);
    assert_eq!(aa.len(), 2);
    let mut aa = a.clone();
    aa.intersection_with(&b);
    assert_eq!(aa.len(), 0);
}

#[test]
fn test_interval_fstEmpty() {
    let a = single(16, 32);
    let b = empty();
    let mut aa = a.clone();
    aa.union_with(&b);
    assert_eq!(aa.len(), 17);
    let mut aa = a.clone();
    aa.intersection_with(&b);
    assert_eq!(aa.len(), 0);
}

#[test]
fn test_interval_sndEmpty() {
    let a = empty();
    let b = single(0, 16);
    let mut aa = a.clone();
    aa.union_with(&b);
    assert_eq!(aa.len(), 17);
    let mut aa = a.clone();
    aa.intersection_with(&b);
    assert_eq!(aa.len(), 0);
}

#[test]
fn test_interval_bothEmpty() {
    let a = empty();
    let b = empty();
    let mut aa = a.clone();
    aa.union_with(&b);
    assert_eq!(aa.len(), 0);
    let mut aa = a.clone();
    aa.intersection_with(&b);
    assert_eq!(aa.len(), 0);
}
#[test]
fn allen_relations_are_converse_pairs() {
    for a_start in 0u16..6 {
        for a_end in a_start..6 {
            for b_start in 0u16..6 {
                for b_end in b_start..6 {
                    let a = Interval::new(a_start, a_end);
                    let b = Interval::new(b_start, b_end);
                    assert_eq!(a.beforeP(&b), b.afterP(&a));
                    assert_eq!(a.meets(&b), b.metBy(&a));
                    assert_eq!(a.overlaps(&b), b.overlappedBy(&a));
                    assert_eq!(a.starts(&b), b.startedBy(&a));
                    assert_eq!(a.containedByP(&b), b.containsP(&a));
                    assert_eq!(a.finishes(&b), b.finishedBy(&a));
                    assert_eq!(a.equalP(&b), b.equalP(&a));
                    let holding = [
                        a.beforeP(&b),
                        a.meets(&b),
                        a.overlaps(&b),
                        a.starts(&b),
                        a.containedByP(&b),
                        a.finishes(&b),
                        a.equalP(&b),
                        a.finishedBy(&b),
                        a.containsP(&b),
                        a.startedBy(&b),
                        a.overlappedBy(&b),
                        a.metBy(&b),
                        a.afterP(&b),
                    ]
                    .iter()
                    .filter(|&&r| r)
                    .count();
                    assert_eq!(holding, 1, "{:?} {:?}", a, b);
                    assert!(!a.fstEmpty(&b));
                }
            }
        }
    }
}

#[test]
fn interval_merge_and_contains() {
    let a = Interval::new(3, 7);
    let b = Interval::new(5, 12);
    let m = a.merge(&b);
    assert_eq!((m.start, m.end), (3, 12));
    assert!(a.contains(3) && a.contains(7) && !a.contains(8) && !a.contains(2));
}

#[test]
fn interval_sets_refuse_bad_lists() {
    assert!(IntervalSet::from_intervals(vec![Interval::new(5, 3)]).is_none());
    assert!(IntervalSet::from_intervals(vec![Interval::new(0, 5), Interval::new(5, 9)]).is_none());
    assert!(IntervalSet::from_intervals(vec![Interval::new(10, 12), Interval::new(0, 5)]).is_none());
    let ok = IntervalSet::from_intervals(vec![Interval::new(0, 5), Interval::new(6, 9)]).unwrap();
    assert_eq!(ok.len(), 10);
}

#[test]
fn interval_set_operations_across_many_intervals() {
    let a = IntervalSet::from_intervals(vec![
        Interval::new(0, 4),
        Interval::new(10, 14),
        Interval::new(20, 29),
    ])
    .unwrap();
    let b = IntervalSet::from_intervals(vec![Interval::new(3, 11), Interval::new(25, 40)]).unwrap();
    let mut x = a.clone();
    x.symmetric_difference_with(&b);
    let mut got = x.iter();
    got.sort();
    let expected: Vec<u16> = (0..3).chain(5..10).chain(12..15).chain(20..25).chain(30..41).collect();
    assert_eq!(got, expected);
    let mut u = a.clone();
    u.union_with(&b);
    assert_eq!(u.len(), 41 - 15 + 10);
    let mut d = a.clone();
    d.difference_with(&b);
    assert_eq!(d.len(), 3 + 3 + 5);
    let mut i = a.clone();
    i.intersection_with(&b);
    assert_eq!(i.len(), 2 + 2 + 5);
    let full = single(0, 65535);
    assert_eq!(full.len(), 65536);
}

#[test]
fn flat_interval_set_singleton() {
    let s = FlatIntervalSet::singleton(65535);
    assert!(s.contains(65535));
    assert_eq!(s.len(), 1);
    assert_eq!(FlatIntervalSet::new().len(), 0);
}

#[test]
fn union_joins_touching_and_overlapping_runs() {
    let mut a = IntervalSet::from_intervals(vec![
        Interval::new(0, 0),
        Interval::new(2, 2),
        Interval::new(10, 12),
    ])
    .unwrap();
    let b = IntervalSet::from_intervals(vec![Interval::new(1, 1), Interval::new(11, 20)]).unwrap();
    a.union_with(&b);
    assert_eq!(
        format!("{:?}", a),
        "IntervalSet { intervals: [Interval { start: 0, end: 2 }, Interval { start: 10, end: 20 }] }"
    );
}

#[test]
fn flat_singleton_holds_its_two_bounds() {
    assert_eq!(format!("{:?}", FlatIntervalSet::singleton(7)), "FlatIntervalSet { inner: [7, 8] }");
    assert_eq!(
        format!("{:?}", FlatIntervalSet::singleton(65535)),
        "FlatIntervalSet { inner: [65535, 65536] }"
    );
}

#[test]
fn flat_union_merges_touching_intervals() {
    let mut a = FlatIntervalSet::singleton(0);
    a.union_with(&FlatIntervalSet::singleton(1));
    assert_eq!(format!("{:?}", a), "FlatIntervalSet { inner: [0, 2] }");
    let mut b = FlatIntervalSet::singleton(5);
    b.union_with(&FlatIntervalSet::singleton(3));
    b.insert(4);
    assert_eq!(format!("{:?}", b), "FlatIntervalSet { inner: [3, 6] }");
    assert!(b.contains(3) && b.contains(4) && b.contains(5) && !b.contains(6));
    b.remove(4);
    assert_eq!(format!("{:?}", b), "FlatIntervalSet { inner: [3, 4, 5, 6] }");
    let mut c = FlatIntervalSet::singleton(3);
    c.symmetric_difference_with(&FlatIntervalSet::singleton(4));
    assert_eq!(format!("{:?}", c), "FlatIntervalSet { inner: [3, 5] }");
}
