//! Counting the members of a set of `u16` given as a sequence of flags, and
//! the facts that tie a sequence of elements to the set it lists.

use vstd::prelude::*;

verus! {

/// How many flags of `s` are set.
pub open spec fn count_true(s: Seq<bool>) -> nat
    decreases s.len(),
{
    if s.len() == 0 {
        0
    } else {
        count_true(s.drop_last()) + if s.last() {
            1nat
        } else {
            0nat
        }
    }
}

/// The integers whose flag is set in `s`.
pub open spec fn true_set(s: Seq<bool>) -> Set<u16> {
    Set::new(|n: u16| (n as int) < s.len() && s[n as int])
}

/// Every set of `u16` is finite.
pub proof fn lemma_u16_set_finite(s: Set<u16>)
    ensures
        s.finite(),
{
    <u16 as vstd::set_lib::FiniteRange>::range_properties(0u16, 65535u16);
    let full = Set::<u16>::new(|i: u16| 0u16 <= i < 65535u16).insert(65535u16);
    assert(s.subset_of(full));
    vstd::set_lib::lemma_set_subset_finite(full, s);
}

pub proof fn lemma_count_step(s: Seq<bool>, k: int)
    requires
        0 <= k < s.len(),
    ensures
        count_true(s.take(k + 1)) == count_true(s.take(k)) + if s[k] {
            1nat
        } else {
            0nat
        },
{
    assert(s.take(k + 1).drop_last() =~= s.take(k));
}

/// The number of integers flagged in `s` is the number of set flags.
pub proof fn lemma_true_set_len(s: Seq<bool>)
    requires
        s.len() <= 65536,
    ensures
        true_set(s).finite(),
        true_set(s).len() == count_true(s),
    decreases s.len(),
{
    lemma_u16_set_finite(true_set(s));
    if s.len() == 0 {
        assert(true_set(s) =~= Set::empty());
    } else {
        let r = s.drop_last();
        lemma_true_set_len(r);
        let k = (s.len() - 1) as u16;
        assert(k as int == s.len() - 1);
        if s.last() {
            assert(true_set(s) =~= true_set(r).insert(k));
            assert(!true_set(r).contains(k));
        } else {
            assert(true_set(s) =~= true_set(r));
        }
    }
}

/// A strictly increasing sequence holds no element twice.
pub proof fn lemma_increasing_no_dup(v: Seq<u16>)
    requires
        forall|i: int, j: int| 0 <= i < j < v.len() ==> v[i] < v[j],
    ensures
        v.no_duplicates(),
{
}

/// The set of a sequence with one more element.
pub proof fn lemma_push_to_set(v: Seq<u16>, x: u16)
    ensures
        v.push(x).to_set() == v.to_set().insert(x),
{
    assert forall|m: u16| #[trigger] v.push(x).to_set().contains(m) == v.to_set().insert(
        x,
    ).contains(m) by {
        if v.push(x).to_set().contains(m) && m != x {
            let j = choose|j: int| 0 <= j < v.push(x).len() && v.push(x)[j] == m;
            assert(v[j] == m);
        }
        if v.to_set().contains(m) {
            let j = choose|j: int| 0 <= j < v.len() && v[j] == m;
            assert(v.push(x)[j] == m);
        }
        if m == x {
            assert(v.push(x)[v.len() as int] == x);
        }
    }
    assert(v.push(x).to_set() =~= v.to_set().insert(x));
}

/// No set of `u16` has more than 65536 elements.
pub proof fn lemma_u16_set_len_bound(s: Set<u16>)
    ensures
        s.finite(),
        s.len() <= 65536,
{
    lemma_u16_set_finite(s);
    <u16 as vstd::set_lib::FiniteRange>::range_properties(0u16, 65535u16);
    let full = Set::<u16>::new(|i: u16| 0u16 <= i < 65535u16).insert(65535u16);
    assert(!Set::<u16>::new(|i: u16| 0u16 <= i < 65535u16).contains(65535u16));
    assert(s.subset_of(full));
    vstd::set_lib::lemma_len_subset(s, full);
}

/// The integers from `lo` to `hi`, both included, number `hi - lo + 1`.
pub proof fn lemma_range_len(lo: u16, hi: u16)
    requires
        lo <= hi,
    ensures
        Set::new(|n: u16| lo <= n <= hi).finite(),
        Set::new(|n: u16| lo <= n <= hi).len() == hi - lo + 1,
{
    <u16 as vstd::set_lib::FiniteRange>::range_properties(lo, hi);
    let r = Set::<u16>::new(|i: u16| lo <= i < hi);
    assert(Set::new(|n: u16| lo <= n <= hi) =~= r.insert(hi));
    assert(!r.contains(hi));
}

/// The length of a sequence without duplicates is the size of its set.
pub proof fn lemma_no_dup_len(v: Seq<u16>)
    requires
        v.no_duplicates(),
    ensures
        v.to_set().len() == v.len(),
        v.to_set().finite(),
{
    v.unique_seq_to_set();
    lemma_u16_set_finite(v.to_set());
}

} // verus!
