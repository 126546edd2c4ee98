//! Benchmark scenarios: each builds one or two sets from a seed and then
//! runs one kind of operation on them, the task whose duration is measured.

use rand::rngs::SmallRng;
use rand::seq::SliceRandom;
use rand::SeedableRng;
use vstd::prelude::*;
use crate::count::{lemma_no_dup_len, lemma_push_to_set};
use crate::set_int::{decode_bytes, insert_all, remove_all, sym_diff, SetInt, SetIntConstruct};

verus! {

broadcast use vstd::seq_lib::group_to_multiset_ensures;

#[verifier::external_type_specification]
#[verifier::external_body]
pub struct ExSmallRng(SmallRng);

/// `SmallRng::seed_from_u64`: a small fast generator started from `seed`.
/// Nothing is stated of its state: which algorithm `SmallRng` is depends on
/// the platform.
#[verifier::external_body]
fn small_rng_from_seed(seed: u64) -> (rng: SmallRng) {
    SmallRng::seed_from_u64(seed)
}

/// `SliceRandom::shuffle`: puts the elements of `v` in an order drawn from
/// `rng`. It swaps elements only, so the result holds the same elements,
/// each as many times; which order comes out is left unsaid.
#[verifier::external_body]
fn shuffle_u16(v: &mut Vec<u16>, rng: &mut SmallRng)
    ensures
        final(v)@.to_multiset() == old(v)@.to_multiset(),
{
    v.shuffle(rng);
}

/// `std::hint::black_box`: hands `value` to the optimiser as if it were
/// used, so that the work that made it is not left out.
#[verifier::external_body]
fn keep<V>(value: V) {
    std::hint::black_box(value);
}

/// The smaller of two counts.
pub open spec fn min_count(a: int, b: int) -> int {
    if a <= b {
        a
    } else {
        b
    }
}

/// `v` holds `min(count, capacity)` distinct integers, all below `capacity`.
pub open spec fn drawn(v: Seq<u16>, count: u16, capacity: u16) -> bool {
    &&& v.len() == min_count(count as int, capacity as int)
    &&& v.no_duplicates()
    &&& forall|k: int| 0 <= k < v.len() ==> #[trigger] v[k] < capacity
}

/// `s` holds `min(count, capacity)` integers, all below `capacity`.
pub open spec fn filled(s: Set<u16>, count: u16, capacity: u16) -> bool {
    &&& s.finite()
    &&& s.len() == min_count(count as int, capacity as int)
    &&& forall|x: u16| #[trigger] s.contains(x) ==> x < capacity
}

/// The integers `0 .. end` in increasing order.
fn range_vec(end: u16) -> (v: Vec<u16>)
    ensures
        v@.len() == end,
        forall|k: int| 0 <= k < end ==> #[trigger] v@[k] == k,
{
    let mut v: Vec<u16> = Vec::with_capacity(end as usize);
    let mut i: u16 = 0;
    while i < end
        invariant
            i <= end,
            v@.len() == i,
            forall|k: int| 0 <= k < i ==> #[trigger] v@[k] == k,
        decreases end - i,
    {
        v.push(i);
        i = i + 1;
    }
    v
}

/// A reordering of `0 .. end` holds each of these integers once.
proof fn lemma_permuted_range(orig: Seq<u16>, perm: Seq<u16>, end: u16)
    requires
        orig.len() == end,
        forall|k: int| 0 <= k < end ==> #[trigger] orig[k] == k,
        perm.to_multiset() == orig.to_multiset(),
    ensures
        perm.len() == end,
        perm.no_duplicates(),
        forall|k: int| 0 <= k < perm.len() ==> #[trigger] perm[k] < end,
{
    assert(orig.no_duplicates()) by {
        assert forall|i: int, j: int| 0 <= i < orig.len() && 0 <= j < orig.len() && i != j implies orig[i]
            != orig[j] by {
            assert(orig[i] == i && orig[j] == j);
        }
    }
    orig.lemma_multiset_has_no_duplicates();
    perm.lemma_multiset_has_no_duplicates_conv();
    assert(perm.len() == perm.to_multiset().len());
    assert(orig.len() == orig.to_multiset().len());
    assert forall|k: int| 0 <= k < perm.len() implies #[trigger] perm[k] < end by {
        let x = perm[k];
        assert(perm.contains(x));
        assert(perm.to_multiset().count(x) > 0);
        assert(orig.to_multiset().count(x) > 0);
        assert(orig.contains(x));
        let j = choose|j: int| 0 <= j < orig.len() && orig[j] == x;
        assert(orig[j] == j);
    }
}

/// Distinct integers below `capacity`, in an order drawn from the seed:
/// `min(count, capacity)` of them.
fn generate_indices(capacity: u16, count: u16, seed: u64) -> (indices: Vec<u16>)
    ensures
        drawn(indices@, count, capacity),
{
    let mut rng = small_rng_from_seed(seed);
    let mut indices = range_vec(capacity);
    let ghost orig = indices@;
    shuffle_u16(&mut indices, &mut rng);
    proof {
        lemma_permuted_range(orig, indices@, capacity);
    }
    let ghost perm = indices@;
    indices.truncate(count as usize);
    proof {
        if count < capacity {
            assert(indices@ == perm.subrange(0, count as int));
            assert forall|k: int| 0 <= k < indices@.len() implies #[trigger] indices@[k]
                < capacity by {
                assert(indices@[k] == perm[k]);
            }
            assert forall|i: int, j: int|
                0 <= i < indices@.len() && 0 <= j < indices@.len() && i != j implies indices@[i]
                != indices@[j] by {
                assert(indices@[i] == perm[i] && indices@[j] == perm[j]);
            }
        }
    }
    indices
}

/// The elements of `v`, each once, in increasing order; `v` holds distinct
/// integers below `end`.
fn sorted_distinct(v: &Vec<u16>, end: u16) -> (out: Vec<u16>)
    requires
        forall|k: int| 0 <= k < v@.len() ==> #[trigger] v@[k] < end,
    ensures
        out@.to_set() == v@.to_set(),
        forall|a: int, b: int| 0 <= a < b < out@.len() ==> out@[a] < out@[b],
{
    let mut flags: Vec<bool> = Vec::with_capacity(end as usize);
    let mut i: u16 = 0;
    while i < end
        invariant
            i <= end,
            flags@.len() == i,
            forall|k: int| 0 <= k < i ==> !#[trigger] flags@[k],
        decreases end - i,
    {
        flags.push(false);
        i = i + 1;
    }
    let mut j: usize = 0;
    while j < v.len()
        invariant
            flags@.len() == end,
            j <= v@.len(),
            forall|k: int| 0 <= k < v@.len() ==> #[trigger] v@[k] < end,
            forall|x: u16| x < end ==> (flags@[x as int] <==> v@.take(j as int).contains(x)),
        decreases v@.len() - j,
    {
        let x = v[j];
        flags.set(x as usize, true);
        proof {
            assert(v@.take(j + 1) =~= v@.take(j as int).push(x));
            assert forall|y: u16| y < end implies (flags@[y as int] <==> v@.take(j + 1).contains(y)) by {
                if v@.take(j as int).contains(y) {
                    let k = choose|k: int| 0 <= k < j && v@.take(j as int)[k] == y;
                    assert(v@.take(j + 1)[k] == y);
                }
                if y == x {
                    assert(v@.take(j + 1)[j as int] == y);
                }
                if v@.take(j + 1).contains(y) && y != x {
                    let w = v@.take(j + 1);
                    let k = choose|k: int| 0 <= k < w.len() && w[k] == y;
                    assert(v@.take(j as int)[k] == y);
                }
            }
        }
        j = j + 1;
    }
    assert(v@.take(v@.len() as int) =~= v@);
    let mut out: Vec<u16> = Vec::new();
    let mut n: u16 = 0;
    while n < end
        invariant
            flags@.len() == end,
            n <= end,
            forall|x: u16| x < end ==> (flags@[x as int] <==> v@.contains(x)),
            forall|x: u16| #[trigger] out@.to_set().contains(x) <==> (x < n && v@.contains(x)),
            forall|a: int, b: int| 0 <= a < b < out@.len() ==> out@[a] < out@[b],
            forall|k: int| 0 <= k < out@.len() ==> #[trigger] out@[k] < n,
        decreases end - n,
    {
        if flags[n as usize] {
            let ghost before = out@;
            out.push(n);
            proof {
                lemma_push_to_set(before, n);
            }
        }
        n = n + 1;
    }
    proof {
        assert forall|x: u16| #[trigger] out@.to_set().contains(x) == v@.to_set().contains(x) by {
            if v@.contains(x) {
                let k = choose|k: int| 0 <= k < v@.len() && v@[k] == x;
                assert(v@[k] < end);
            }
        }
        assert(out@.to_set() =~= v@.to_set());
    }
    out
}

/// A set of type `T`, made empty with room for `capacity` elements, holding
/// the elements of `indices`.
fn filled_set<T: SetIntConstruct>(capacity: u16, indices: &Vec<u16>) -> (s: T)
    ensures
        s.wf(),
        s@ == indices@.to_set(),
{
    let mut s = T::with_capacity(capacity as usize);
    insert_all(&mut s, indices);
    assert(s@ =~= indices@.to_set());
    s
}

proof fn lemma_drawn_fills(v: Seq<u16>, count: u16, capacity: u16)
    requires
        drawn(v, count, capacity),
    ensures
        filled(v.to_set(), count, capacity),
{
    lemma_no_dup_len(v);
    assert forall|x: u16| #[trigger] v.to_set().contains(x) implies x < capacity by {
        let k = choose|k: int| 0 <= k < v.len() && v[k] == x;
        assert(v[k] < capacity);
    }
}

/// A measured piece of work on sets built beforehand.
pub trait Scenario {
    /// The state from which the task can run.
    spec fn wf(&self) -> bool;

    /// The work measured.
    fn task(&mut self)
        requires
            old(self).wf(),
        ensures
            final(self).wf(),
    ;
}

/// A scenario built for sets of at most `capacity` elements: the task runs
/// on sets filled with `fill_quantity` elements and on `data_quantity`
/// elements of input, drawn at random from `seed`.
pub trait ScenarioContructor: Scenario + Sized {
    fn new(capacity: u16, fill_quantity: u16, data_quantity: u16, seed: u64) -> (s: Self)
        ensures
            s.wf(),
    ;
}

/// Inserts each of the drawn integers into a set that starts empty.
pub struct InsertScenario<T: SetInt> {
    bit_set: T,
    indices: Vec<u16>,
}

impl<T: SetIntConstruct> InsertScenario<T> {
    pub closed spec fn contents(&self) -> Set<u16> {
        self.bit_set@
    }

    pub closed spec fn indices(&self) -> Seq<u16> {
        self.indices@
    }
}

impl<T: SetIntConstruct> ScenarioContructor for InsertScenario<T> {
    fn new(capacity: u16, fill_quantity: u16, data_quantity: u16, seed: u64) -> (s: Self)
        ensures
            s.contents() == Set::<u16>::empty(),
            drawn(s.indices(), data_quantity, capacity),
    {
        let indices = generate_indices(capacity, data_quantity, seed);
        InsertScenario { bit_set: T::with_capacity(capacity as usize), indices }
    }
}

impl<T: SetIntConstruct> Scenario for InsertScenario<T> {
    closed spec fn wf(&self) -> bool {
        self.bit_set.wf()
    }

    fn task(&mut self)
        ensures
            final(self).contents() == old(self).contents().union(old(self).indices().to_set()),
            final(self).indices() == old(self).indices(),
    {
        insert_all(&mut self.bit_set, &self.indices);
    }
}

/// Looks up each of the drawn integers in a filled set.
pub struct ContainsScenario<T: SetInt> {
    bit_set: T,
    indices: Vec<u16>,
    lookups: Ghost<Seq<(u16, bool)>>,
}

/// Each integer of `indices` in turn, with whether `contents` holds it.
pub open spec fn lookups_of(indices: Seq<u16>, contents: Set<u16>) -> Seq<(u16, bool)> {
    indices.map_values(|x: u16| (x, contents.contains(x)))
}

impl<T: SetIntConstruct> ContainsScenario<T> {
    pub closed spec fn contents(&self) -> Set<u16> {
        self.bit_set@
    }

    pub closed spec fn indices(&self) -> Seq<u16> {
        self.indices@
    }

    /// The lookups that the last task made, in order: each integer asked
    /// for and the answer that `contains` gave.
    pub closed spec fn lookups(&self) -> Seq<(u16, bool)> {
        self.lookups@
    }
}

impl<T: SetIntConstruct> ScenarioContructor for ContainsScenario<T> {
    fn new(capacity: u16, fill_quantity: u16, data_quantity: u16, seed: u64) -> (s: Self)
        ensures
            filled(s.contents(), fill_quantity, capacity),
            drawn(s.indices(), data_quantity, capacity),
    {
        let fill_indices = generate_indices(capacity, fill_quantity, seed);
        let query_indices = generate_indices(capacity, data_quantity, seed.wrapping_add(1));
        let bit_set = filled_set::<T>(capacity, &fill_indices);
        proof {
            lemma_drawn_fills(fill_indices@, fill_quantity, capacity);
        }
        ContainsScenario { bit_set, indices: query_indices, lookups: Ghost(Seq::empty()) }
    }
}

impl<T: SetIntConstruct> Scenario for ContainsScenario<T> {
    closed spec fn wf(&self) -> bool {
        self.bit_set.wf()
    }

    fn task(&mut self)
        ensures
            final(self).contents() == old(self).contents(),
            final(self).indices() == old(self).indices(),
            final(self).lookups() == lookups_of(old(self).indices(), old(self).contents()),
    {
        let ghost mut seen: Seq<(u16, bool)> = Seq::empty();
        let mut i: usize = 0;
        while i < self.indices.len()
            invariant
                self.bit_set.wf(),
                self.bit_set == old(self).bit_set,
                self.indices == old(self).indices,
                i <= self.indices@.len(),
                seen == lookups_of(self.indices@.take(i as int), self.bit_set@),
            decreases self.indices@.len() - i,
        {
            let idx = self.indices[i];
            let present = self.bit_set.contains(idx);
            keep(present);
            proof {
                seen = seen.push((idx, present));
                assert(self.indices@.take(i + 1) =~= self.indices@.take(i as int).push(idx));
                assert(seen =~= lookups_of(self.indices@.take(i + 1), self.bit_set@));
            }
            i = i + 1;
        }
        proof {
            assert(self.indices@.take(i as int) =~= self.indices@);
        }
        self.lookups = Ghost(seen);
    }
}

/// Removes each of the drawn integers from a filled set.
pub struct RemoveScenario<T: SetInt> {
    bit_set: T,
    indices: Vec<u16>,
}

impl<T: SetIntConstruct> RemoveScenario<T> {
    pub closed spec fn contents(&self) -> Set<u16> {
        self.bit_set@
    }

    pub closed spec fn indices(&self) -> Seq<u16> {
        self.indices@
    }
}

impl<T: SetIntConstruct> ScenarioContructor for RemoveScenario<T> {
    fn new(capacity: u16, fill_quantity: u16, data_quantity: u16, seed: u64) -> (s: Self)
        ensures
            filled(s.contents(), fill_quantity, capacity),
            drawn(s.indices(), data_quantity, capacity),
    {
        let fill_indices = generate_indices(capacity, fill_quantity, seed);
        let remove_indices = generate_indices(capacity, data_quantity, seed.wrapping_add(1));
        let bit_set = filled_set::<T>(capacity, &fill_indices);
        proof {
            lemma_drawn_fills(fill_indices@, fill_quantity, capacity);
        }
        RemoveScenario { bit_set, indices: remove_indices }
    }
}

impl<T: SetIntConstruct> Scenario for RemoveScenario<T> {
    closed spec fn wf(&self) -> bool {
        self.bit_set.wf()
    }

    fn task(&mut self)
        ensures
            final(self).contents() == old(self).contents().difference(old(self).indices().to_set()),
            final(self).indices() == old(self).indices(),
    {
        remove_all(&mut self.bit_set, &self.indices);
    }
}

/// For each drawn integer: inserts it, looks it up, removes it.
pub struct MixedScenario<T: SetInt> {
    bit_set: T,
    indices: Vec<u16>,
}

impl<T: SetIntConstruct> MixedScenario<T> {
    pub closed spec fn contents(&self) -> Set<u16> {
        self.bit_set@
    }

    pub closed spec fn indices(&self) -> Seq<u16> {
        self.indices@
    }
}

impl<T: SetIntConstruct> ScenarioContructor for MixedScenario<T> {
    fn new(capacity: u16, fill_quantity: u16, data_quantity: u16, seed: u64) -> (s: Self)
        ensures
            filled(s.contents(), fill_quantity, capacity),
            drawn(s.indices(), data_quantity, capacity),
    {
        let fill_indices = generate_indices(capacity, fill_quantity, seed);
        let task_indices = generate_indices(capacity, data_quantity, seed.wrapping_add(1));
        let bit_set = filled_set::<T>(capacity, &fill_indices);
        proof {
            lemma_drawn_fills(fill_indices@, fill_quantity, capacity);
        }
        MixedScenario { bit_set, indices: task_indices }
    }
}

impl<T: SetIntConstruct> Scenario for MixedScenario<T> {
    closed spec fn wf(&self) -> bool {
        self.bit_set.wf()
    }

    fn task(&mut self)
        ensures
            final(self).contents() == old(self).contents().difference(old(self).indices().to_set()),
            final(self).indices() == old(self).indices(),
    {
        let mut i: usize = 0;
        while i < self.indices.len()
            invariant
                self.bit_set.wf(),
                i <= self.indices@.len(),
                self.indices == old(self).indices,
                self.bit_set@ == old(self).bit_set@.difference(self.indices@.take(i as int).to_set()),
            decreases self.indices@.len() - i,
        {
            let idx = self.indices[i];
            self.bit_set.insert(idx);
            let present = self.bit_set.contains(idx);
            keep(present);
            self.bit_set.remove(idx);
            proof {
                assert(self.indices@.take(i + 1) =~= self.indices@.take(i as int).push(idx));
                lemma_push_to_set(self.indices@.take(i as int), idx);
            }
            i = i + 1;
            assert(self.bit_set@ =~= old(self).bit_set@.difference(
                self.indices@.take(i as int).to_set(),
            ));
        }
        assert(self.indices@.take(self.indices@.len() as int) =~= self.indices@);
    }
}

/// Integers drawn from a range ten times wider than the capacity (taken
/// modulo 2^16): the sorted fill integers are inserted, the task integers
/// looked up, and the fill integers removed again.
pub struct SparseScenario<T: SetInt> {
    bit_set: T,
    fill_indices: Vec<u16>,
    task_indices: Vec<u16>,
}

/// The end of the range that a sparse scenario draws from.
pub open spec fn sparse_end(capacity: u16) -> u16 {
    ((capacity as u32) * 10) as u16
}

/// A sparse scenario draws from a range ten times as wide as the capacity,
/// the width taken modulo 2^16.
pub proof fn law_sparse_range_is_ten_capacities(capacity: u16)
    ensures
        sparse_end(capacity) as int == (10 * capacity) % 65536,
{
    let x: u32 = ((capacity as u32) * 10) as u32;
    assert(x == 10 * capacity);
    assert((x as u16) as u32 == x % 65536) by (bit_vector);
}

impl<T: SetIntConstruct> SparseScenario<T> {
    pub closed spec fn contents(&self) -> Set<u16> {
        self.bit_set@
    }

    pub closed spec fn fill_indices(&self) -> Seq<u16> {
        self.fill_indices@
    }

    pub closed spec fn task_indices(&self) -> Seq<u16> {
        self.task_indices@
    }
}

impl<T: SetIntConstruct> ScenarioContructor for SparseScenario<T> {
    fn new(capacity: u16, fill_quantity: u16, data_quantity: u16, seed: u64) -> (s: Self)
        ensures
            s.contents() == Set::<u16>::empty(),
            drawn(s.fill_indices(), fill_quantity, sparse_end(capacity)),
            forall|a: int, b: int|
                0 <= a < b < s.fill_indices().len() ==> s.fill_indices()[a]
                    < s.fill_indices()[b],
            drawn(s.task_indices(), data_quantity, sparse_end(capacity)),
            sparse_end(capacity) as int == (10 * capacity) % 65536,
    {
        proof {
            law_sparse_range_is_ten_capacities(capacity);
        }
        let mut rng = small_rng_from_seed(seed);
        let end: u16 = ((capacity as u32) * 10) as u16;

        let mut fill_indices = range_vec(end);
        let ghost orig = fill_indices@;
        shuffle_u16(&mut fill_indices, &mut rng);
        proof {
            lemma_permuted_range(orig, fill_indices@, end);
        }
        let ghost perm = fill_indices@;
        fill_indices.truncate(fill_quantity as usize);
        proof {
            if fill_quantity < end {
                assert(fill_indices@ == perm.subrange(0, fill_quantity as int));
                assert forall|k: int| 0 <= k < fill_indices@.len() implies #[trigger] fill_indices@[k]
                    < end by {
                    assert(fill_indices@[k] == perm[k]);
                }
                assert forall|i: int, j: int|
                    0 <= i < fill_indices@.len() && 0 <= j < fill_indices@.len() && i
                        != j implies fill_indices@[i] != fill_indices@[j] by {
                    assert(fill_indices@[i] == perm[i] && fill_indices@[j] == perm[j]);
                }
            }
        }
        let sorted = sorted_distinct(&fill_indices, end);
        proof {
            lemma_no_dup_len(fill_indices@);
            crate::count::lemma_increasing_no_dup(sorted@);
            lemma_no_dup_len(sorted@);
            assert forall|k: int| 0 <= k < sorted@.len() implies #[trigger] sorted@[k] < end by {
                assert(sorted@.to_set().contains(sorted@[k]));
                assert(fill_indices@.to_set().contains(sorted@[k]));
                let j = choose|j: int| 0 <= j < fill_indices@.len() && fill_indices@[j] == sorted@[k];
            }
        }

        let mut task_indices = range_vec(end);
        let ghost orig2 = task_indices@;
        shuffle_u16(&mut task_indices, &mut rng);
        proof {
            lemma_permuted_range(orig2, task_indices@, end);
        }
        let ghost perm2 = task_indices@;
        task_indices.truncate(data_quantity as usize);
        proof {
            if data_quantity < end {
                assert(task_indices@ == perm2.subrange(0, data_quantity as int));
                assert forall|k: int| 0 <= k < task_indices@.len() implies #[trigger] task_indices@[k]
                    < end by {
                    assert(task_indices@[k] == perm2[k]);
                }
                assert forall|i: int, j: int|
                    0 <= i < task_indices@.len() && 0 <= j < task_indices@.len() && i
                        != j implies task_indices@[i] != task_indices@[j] by {
                    assert(task_indices@[i] == perm2[i] && task_indices@[j] == perm2[j]);
                }
            }
        }
        SparseScenario {
            bit_set: T::with_capacity(capacity as usize),
            fill_indices: sorted,
            task_indices,
        }
    }
}

impl<T: SetIntConstruct> Scenario for SparseScenario<T> {
    closed spec fn wf(&self) -> bool {
        self.bit_set.wf()
    }

    fn task(&mut self)
        ensures
            final(self).contents() == old(self).contents().difference(
                old(self).fill_indices().to_set(),
            ),
            final(self).fill_indices() == old(self).fill_indices(),
            final(self).task_indices() == old(self).task_indices(),
    {
        insert_all(&mut self.bit_set, &self.fill_indices);
        let mut i: usize = 0;
        while i < self.task_indices.len()
            invariant
                self.bit_set.wf(),
                self.bit_set@ == old(self).bit_set@.union(self.fill_indices@.to_set()),
                self.fill_indices == old(self).fill_indices,
                self.task_indices == old(self).task_indices,
            decreases self.task_indices@.len() - i,
        {
            let present = self.bit_set.contains(self.task_indices[i]);
            keep(present);
            i = i + 1;
        }
        remove_all(&mut self.bit_set, &self.fill_indices);
        assert(self.bit_set@ =~= old(self).bit_set@.difference(self.fill_indices@.to_set()));
    }
}

/// Empties a filled set.
pub struct ClearScenario<T: SetInt> {
    bit_set: T,
}

impl<T: SetIntConstruct> ClearScenario<T> {
    pub closed spec fn contents(&self) -> Set<u16> {
        self.bit_set@
    }
}

impl<T: SetIntConstruct> ScenarioContructor for ClearScenario<T> {
    fn new(capacity: u16, fill_quantity: u16, data_quantity: u16, seed: u64) -> (s: Self)
        ensures
            filled(s.contents(), fill_quantity, capacity),
    {
        let indices = generate_indices(capacity, fill_quantity, seed);
        let bit_set = filled_set::<T>(capacity, &indices);
        proof {
            lemma_drawn_fills(indices@, fill_quantity, capacity);
        }
        ClearScenario { bit_set }
    }
}

impl<T: SetIntConstruct> Scenario for ClearScenario<T> {
    closed spec fn wf(&self) -> bool {
        self.bit_set.wf()
    }

    fn task(&mut self)
        ensures
            final(self).contents() == Set::<u16>::empty(),
    {
        self.bit_set.clear();
    }
}

/// Asks a filled set for its length once per element it was filled with.
pub struct LenScenario<T: SetInt> {
    bit_set: T,
    indices: Vec<u16>,
    lengths: Ghost<Seq<usize>>,
}

impl<T: SetIntConstruct> LenScenario<T> {
    pub closed spec fn contents(&self) -> Set<u16> {
        self.bit_set@
    }

    pub closed spec fn indices(&self) -> Seq<u16> {
        self.indices@
    }

    /// The answers of `len` that the last task got, in order.
    pub closed spec fn lengths(&self) -> Seq<usize> {
        self.lengths@
    }
}

impl<T: SetIntConstruct> ScenarioContructor for LenScenario<T> {
    fn new(capacity: u16, fill_quantity: u16, data_quantity: u16, seed: u64) -> (s: Self)
        ensures
            filled(s.contents(), fill_quantity, capacity),
            drawn(s.indices(), fill_quantity, capacity),
            s.contents() == s.indices().to_set(),
    {
        let indices = generate_indices(capacity, fill_quantity, seed);
        let bit_set = filled_set::<T>(capacity, &indices);
        proof {
            lemma_drawn_fills(indices@, fill_quantity, capacity);
        }
        LenScenario { bit_set, indices, lengths: Ghost(Seq::empty()) }
    }
}

impl<T: SetIntConstruct> Scenario for LenScenario<T> {
    closed spec fn wf(&self) -> bool {
        self.bit_set.wf()
    }

    fn task(&mut self)
        ensures
            final(self).contents() == old(self).contents(),
            final(self).indices() == old(self).indices(),
            final(self).lengths().len() == old(self).indices().len(),
            forall|k: int| 0 <= k < final(self).lengths().len() ==> #[trigger] final(self).lengths()[k] == old(self).contents().len(),
    {
        let ghost mut seen: Seq<usize> = Seq::empty();
        let mut i: usize = 0;
        while i < self.indices.len()
            invariant
                self.bit_set.wf(),
                self.bit_set == old(self).bit_set,
                self.indices == old(self).indices,
                i <= self.indices@.len(),
                seen.len() == i,
                forall|k: int| 0 <= k < i ==> #[trigger] seen[k] == self.bit_set@.len(),
            decreases self.indices@.len() - i,
        {
            let n = self.bit_set.len();
            keep(n);
            proof {
                seen = seen.push(n);
            }
            i = i + 1;
        }
        self.lengths = Ghost(seen);
    }
}

/// Lists the elements of a filled set.
pub struct IterScenario<T: SetInt> {
    bit_set: T,
    listed: Ghost<Seq<u16>>,
}

impl<T: SetIntConstruct> IterScenario<T> {
    pub closed spec fn contents(&self) -> Set<u16> {
        self.bit_set@
    }

    /// The elements that the last task listed, in the order listed.
    pub closed spec fn listed(&self) -> Seq<u16> {
        self.listed@
    }
}

impl<T: SetIntConstruct> ScenarioContructor for IterScenario<T> {
    fn new(capacity: u16, fill_quantity: u16, data_quantity: u16, seed: u64) -> (s: Self)
        ensures
            filled(s.contents(), fill_quantity, capacity),
    {
        let indices = generate_indices(capacity, fill_quantity, seed);
        let bit_set = filled_set::<T>(capacity, &indices);
        proof {
            lemma_drawn_fills(indices@, fill_quantity, capacity);
        }
        IterScenario { bit_set, listed: Ghost(Seq::empty()) }
    }
}

impl<T: SetIntConstruct> Scenario for IterScenario<T> {
    closed spec fn wf(&self) -> bool {
        self.bit_set.wf()
    }

    fn task(&mut self)
        ensures
            final(self).contents() == old(self).contents(),
            final(self).listed().to_set() == old(self).contents(),
            final(self).listed().no_duplicates(),
    {
        let elems = self.bit_set.iter();
        let ghost listed = elems@;
        keep(elems);
        self.listed = Ghost(listed);
    }
}

/// A set filled from the seed, and another filled with `data_quantity`
/// integers from the next seed.
fn two_sets<T: SetIntConstruct>(capacity: u16, fill_quantity: u16, data_quantity: u16, seed: u64) -> (r: (T, T))
    ensures
        r.0.wf(),
        r.1.wf(),
        filled(r.0@, fill_quantity, capacity),
        filled(r.1@, data_quantity, capacity),
{
    let indices_a = generate_indices(capacity, fill_quantity, seed);
    let indices_b = generate_indices(capacity, data_quantity, seed.wrapping_add(1));
    let a = filled_set::<T>(capacity, &indices_a);
    let b = filled_set::<T>(capacity, &indices_b);
    proof {
        lemma_drawn_fills(indices_a@, fill_quantity, capacity);
        lemma_drawn_fills(indices_b@, data_quantity, capacity);
    }
    (a, b)
}

/// Adds a second filled set to a first one.
pub struct UnionScenario<T: SetInt> {
    bit_set: T,
    other: T,
}

impl<T: SetIntConstruct> UnionScenario<T> {
    pub closed spec fn contents(&self) -> Set<u16> {
        self.bit_set@
    }

    pub closed spec fn other(&self) -> Set<u16> {
        self.other@
    }
}

impl<T: SetIntConstruct> ScenarioContructor for UnionScenario<T> {
    fn new(capacity: u16, fill_quantity: u16, data_quantity: u16, seed: u64) -> (s: Self)
        ensures
            filled(s.contents(), fill_quantity, capacity),
            filled(s.other(), data_quantity, capacity),
    {
        let (bit_set, other) = two_sets::<T>(capacity, fill_quantity, data_quantity, seed);
        UnionScenario { bit_set, other }
    }
}

impl<T: SetIntConstruct> Scenario for UnionScenario<T> {
    closed spec fn wf(&self) -> bool {
        self.bit_set.wf() && self.other.wf()
    }

    fn task(&mut self)
        ensures
            final(self).contents() == old(self).contents().union(old(self).other()),
            final(self).other() == old(self).other(),
    {
        self.bit_set.union_with(&self.other);
    }
}

/// Keeps in a first filled set what a second one holds too.
pub struct IntersectionScenario<T: SetInt> {
    bit_set: T,
    other: T,
}

impl<T: SetIntConstruct> IntersectionScenario<T> {
    pub closed spec fn contents(&self) -> Set<u16> {
        self.bit_set@
    }

    pub closed spec fn other(&self) -> Set<u16> {
        self.other@
    }
}

impl<T: SetIntConstruct> ScenarioContructor for IntersectionScenario<T> {
    fn new(capacity: u16, fill_quantity: u16, data_quantity: u16, seed: u64) -> (s: Self)
        ensures
            filled(s.contents(), fill_quantity, capacity),
            filled(s.other(), data_quantity, capacity),
    {
        let (bit_set, other) = two_sets::<T>(capacity, fill_quantity, data_quantity, seed);
        IntersectionScenario { bit_set, other }
    }
}

impl<T: SetIntConstruct> Scenario for IntersectionScenario<T> {
    closed spec fn wf(&self) -> bool {
        self.bit_set.wf() && self.other.wf()
    }

    fn task(&mut self)
        ensures
            final(self).contents() == old(self).contents().intersect(old(self).other()),
            final(self).other() == old(self).other(),
    {
        self.bit_set.intersection_with(&self.other);
    }
}

/// Takes a second filled set out of a first one.
pub struct DifferenceScenario<T: SetInt> {
    bit_set: T,
    other: T,
}

impl<T: SetIntConstruct> DifferenceScenario<T> {
    pub closed spec fn contents(&self) -> Set<u16> {
        self.bit_set@
    }

    pub closed spec fn other(&self) -> Set<u16> {
        self.other@
    }
}

impl<T: SetIntConstruct> ScenarioContructor for DifferenceScenario<T> {
    fn new(capacity: u16, fill_quantity: u16, data_quantity: u16, seed: u64) -> (s: Self)
        ensures
            filled(s.contents(), fill_quantity, capacity),
            filled(s.other(), data_quantity, capacity),
    {
        let (bit_set, other) = two_sets::<T>(capacity, fill_quantity, data_quantity, seed);
        DifferenceScenario { bit_set, other }
    }
}

impl<T: SetIntConstruct> Scenario for DifferenceScenario<T> {
    closed spec fn wf(&self) -> bool {
        self.bit_set.wf() && self.other.wf()
    }

    fn task(&mut self)
        ensures
            final(self).contents() == old(self).contents().difference(old(self).other()),
            final(self).other() == old(self).other(),
    {
        self.bit_set.difference_with(&self.other);
    }
}

/// Keeps what exactly one of two filled sets holds.
pub struct SymmetricDifferenceScenario<T: SetInt> {
    bit_set: T,
    other: T,
}

impl<T: SetIntConstruct> SymmetricDifferenceScenario<T> {
    pub closed spec fn contents(&self) -> Set<u16> {
        self.bit_set@
    }

    pub closed spec fn other(&self) -> Set<u16> {
        self.other@
    }
}

impl<T: SetIntConstruct> ScenarioContructor for SymmetricDifferenceScenario<T> {
    fn new(capacity: u16, fill_quantity: u16, data_quantity: u16, seed: u64) -> (s: Self)
        ensures
            filled(s.contents(), fill_quantity, capacity),
            filled(s.other(), data_quantity, capacity),
    {
        let (bit_set, other) = two_sets::<T>(capacity, fill_quantity, data_quantity, seed);
        SymmetricDifferenceScenario { bit_set, other }
    }
}

impl<T: SetIntConstruct> Scenario for SymmetricDifferenceScenario<T> {
    closed spec fn wf(&self) -> bool {
        self.bit_set.wf() && self.other.wf()
    }

    fn task(&mut self)
        ensures
            final(self).contents() == sym_diff(old(self).contents(), old(self).other()),
            final(self).other() == old(self).other(),
    {
        self.bit_set.symmetric_difference_with(&self.other);
    }
}

/// Writes a filled set as bytes.
pub struct SerializeScenario<T: SetInt> {
    bit_set: T,
    written: Ghost<Seq<u8>>,
}

impl<T: SetIntConstruct> SerializeScenario<T> {
    pub closed spec fn contents(&self) -> Set<u16> {
        self.bit_set@
    }

    /// The bytes that the last task wrote.
    pub closed spec fn written(&self) -> Seq<u8> {
        self.written@
    }
}

impl<T: SetIntConstruct> ScenarioContructor for SerializeScenario<T> {
    fn new(capacity: u16, fill_quantity: u16, data_quantity: u16, seed: u64) -> (s: Self)
        ensures
            filled(s.contents(), fill_quantity, capacity),
    {
        let indices = generate_indices(capacity, fill_quantity, seed);
        let bit_set = filled_set::<T>(capacity, &indices);
        proof {
            lemma_drawn_fills(indices@, fill_quantity, capacity);
        }
        SerializeScenario { bit_set, written: Ghost(Seq::empty()) }
    }
}

impl<T: SetIntConstruct> Scenario for SerializeScenario<T> {
    closed spec fn wf(&self) -> bool {
        self.bit_set.wf()
    }

    fn task(&mut self)
        ensures
            final(self).contents() == old(self).contents(),
            final(self).written().len() == 8192,
            decode_bytes(final(self).written()) == old(self).contents(),
    {
        let bytes = self.bit_set.to_bytes();
        let ghost written = bytes@;
        keep(bytes);
        self.written = Ghost(written);
    }
}

/// Reads a set back from the bytes of a filled one.
pub struct DeserializeScenario<T: SetInt> {
    bit_set: T,
    bytes: [u8; 8192],
}

impl<T: SetIntConstruct> DeserializeScenario<T> {
    pub closed spec fn contents(&self) -> Set<u16> {
        self.bit_set@
    }

    /// The set that the stored bytes encode.
    pub closed spec fn encoded(&self) -> Set<u16> {
        decode_bytes(self.bytes@)
    }
}

impl<T: SetIntConstruct> ScenarioContructor for DeserializeScenario<T> {
    fn new(capacity: u16, fill_quantity: u16, data_quantity: u16, seed: u64) -> (s: Self)
        ensures
            s.contents() == Set::<u16>::empty(),
            filled(s.encoded(), fill_quantity, capacity),
    {
        let indices = generate_indices(capacity, fill_quantity, seed);
        let temp_set = filled_set::<T>(capacity, &indices);
        let bytes = temp_set.to_bytes();
        proof {
            lemma_drawn_fills(indices@, fill_quantity, capacity);
        }
        DeserializeScenario { bit_set: T::with_capacity(capacity as usize), bytes }
    }
}

impl<T: SetIntConstruct> Scenario for DeserializeScenario<T> {
    closed spec fn wf(&self) -> bool {
        self.bit_set.wf()
    }

    fn task(&mut self)
        ensures
            final(self).contents() == old(self).encoded(),
            final(self).encoded() == old(self).encoded(),
    {
        self.bit_set.from_bytes(&self.bytes);
    }
}

} // verus!
