//! Every set of the library, put through the same operations and held
//! against a `BTreeSet` of the standard library.

use std::collections::BTreeSet;
use opti_set_int::set_int::{SetInt, SetIntConstruct};
use opti_set_int::types::{
    ByteArraySet,
    SimdBitSet,
    CustomBitSet,
    AsmCustomBitSet,
    BitTreeSet,
    BitSet,
    LibBitVec,
    LibFixedBitSet,
    StdHashSet,
    StdHashSetNoHasher,
    IntervalSet,
    IntervalSet2,
    IntervalResourceSet,
    FlatIntervalSet,
    BinarySearchTree,
    LibRoaring,
    LibCRoaring,
    StdTreeSet,
    LibFxHashSet,
    LibFxHashSetDefaultFunc,
    StdVec,
    StdVecDicotomie,
    StdLinkedList,
    LibAvlTree,
    LibRBTree,
    LibRangeSetBlaze,
    LibIdlset,
    LibInterval,
};

fn insert_remove<T: SetIntConstruct>() {
    let mut set = T::new();
    set.insert(5);
    assert!(set.contains(5));
    assert!(set.remove(5));
    assert!(!set.contains(5));
}

fn clear<T: SetIntConstruct>() {
    let mut set = T::new();
    set.insert(10);
    set.insert(20);
    set.clear();
    assert!(!set.contains(10));
    assert!(!set.contains(20));
}

fn contains_not_present<T: SetIntConstruct>() {
    let mut set = T::new();
    set.insert(5);
    assert!(!set.contains(10));
}

/// The elements in increasing order.
fn sorted<T: SetInt>(set: &T) -> Vec<u16> {
    let mut v = set.iter();
    let n = v.len();
    v.sort();
    v.dedup();
    assert_eq!(v.len(), n, "iter gave an element twice");
    v
}

fn model_vec(m: &BTreeSet<u16>) -> Vec<u16> {
    m.iter().copied().collect()
}

/// A pseudo-random sequence of integers, the same on every run.
struct Lcg(u64);

impl Lcg {
    fn next(&mut self, bound: u32) -> u16 {
        self.0 = self.0.wrapping_mul(6364136223846793005).wrapping_add(1442695040888963407);
        ((self.0 >> 33) % bound as u64) as u16
    }
}

fn filled<T: SetIntConstruct>(values: &[u16]) -> T {
    let mut s = T::with_capacity(1024);
    for &v in values {
        s.insert(v);
    }
    s
}

/// Inserts, removes and the four set operations, checked step by step.
fn agrees_with_model<T: SetIntConstruct>(seed: u64, bound: u32) {
    let mut rng = Lcg(seed);
    let mut set = T::new();
    let mut model = BTreeSet::new();
    for _ in 0..300 {
        let v = rng.next(bound);
        if rng.next(3) == 0 {
            assert_eq!(set.remove(v), model.remove(&v));
        } else {
            set.insert(v);
            model.insert(v);
        }
        assert_eq!(set.contains(v), model.contains(&v));
    }
    assert_eq!(set.len(), model.len());
    assert_eq!(sorted(&set), model_vec(&model));

    let other_values: Vec<u16> = (0..200).map(|_| rng.next(bound)).collect();
    let other_model: BTreeSet<u16> = other_values.iter().copied().collect();
    let base_values = model_vec(&model);

    let mut u: T = filled(&base_values);
    u.union_with(&filled(&other_values));
    assert_eq!(sorted(&u), model.union(&other_model).copied().collect::<Vec<u16>>());

    let mut i: T = filled(&base_values);
    i.intersection_with(&filled(&other_values));
    assert_eq!(sorted(&i), model.intersection(&other_model).copied().collect::<Vec<u16>>());

    let mut d: T = filled(&base_values);
    d.difference_with(&filled(&other_values));
    assert_eq!(sorted(&d), model.difference(&other_model).copied().collect::<Vec<u16>>());

    let mut x: T = filled(&base_values);
    x.symmetric_difference_with(&filled(&other_values));
    assert_eq!(
        sorted(&x),
        model.symmetric_difference(&other_model).copied().collect::<Vec<u16>>()
    );
    assert_eq!(x.len(), model.symmetric_difference(&other_model).count());

    // The symmetric difference with the same set, taken twice, gives the
    // first set back.
    x.symmetric_difference_with(&filled(&other_values));
    assert_eq!(sorted(&x), base_values);

    set.clear();
    assert_eq!(set.len(), 0);
    assert!(set.iter().is_empty());
}

/// Writing a set as bytes and reading them back gives the same set; the
/// bytes hold bit `n % 8` of byte `n / 8` for each element `n`.
fn bytes_round_trip<T: SetIntConstruct>() {
    let values = [0u16, 1, 7, 8, 9, 255, 256, 1000, 40000, 65535];
    let set: T = filled(&values);
    let bytes = set.to_bytes();
    assert_eq!(bytes.len(), 8192);
    assert_eq!(bytes[0], 0b1000_0011);
    assert_eq!(bytes[1], 0b0000_0011);
    assert_eq!(bytes[31], 0b1000_0000);
    assert_eq!(bytes[32], 0b0000_0001);
    assert_eq!(bytes[8191], 0b1000_0000);
    let mut back = T::new();
    back.insert(3);
    back.from_bytes(&bytes);
    assert_eq!(sorted(&back), values.to_vec());
    assert_eq!(back.len(), values.len());
}

/// Bytes shorter than a full bitmap stand for zeros; bytes past it are
/// ignored.
fn bytes_of_other_lengths<T: SetIntConstruct>() {
    let mut s = T::new();
    s.insert(77);
    s.from_bytes(&[0b0000_0101, 0b1000_0000]);
    assert_eq!(sorted(&s), vec![0, 2, 15]);
    let mut long = vec![0u8; 9000];
    long[8191] = 1;
    long[8500] = 0xff;
    s.from_bytes(&long);
    assert_eq!(sorted(&s), vec![65528]);
}

/// The extremes of the range.
fn extremes<T: SetIntConstruct>() {
    let mut s = T::new();
    s.insert(65535);
    s.insert(0);
    s.insert(65535);
    assert_eq!(s.len(), 2);
    assert!(s.contains(0) && s.contains(65535));
    assert!(!s.contains(1));
    assert!(!s.remove(1));
    assert!(s.remove(65535));
    assert_eq!(sorted(&s), vec![0]);
}

#[test]
fn test_insert_remove() {
    insert_remove::<ByteArraySet>();
    insert_remove::<SimdBitSet>();
    insert_remove::<CustomBitSet>();
    insert_remove::<AsmCustomBitSet>();
    insert_remove::<BitTreeSet>();
    insert_remove::<BitSet>();
    insert_remove::<LibBitVec>();
    insert_remove::<LibFixedBitSet>();
    insert_remove::<StdHashSet>();
    insert_remove::<StdHashSetNoHasher>();
    insert_remove::<IntervalSet>();
    insert_remove::<IntervalSet2>();
    insert_remove::<IntervalResourceSet>();
    insert_remove::<FlatIntervalSet>();
    insert_remove::<BinarySearchTree>();
    insert_remove::<LibRoaring>();
    insert_remove::<LibCRoaring>();
    insert_remove::<StdTreeSet>();
    insert_remove::<LibFxHashSet>();
    insert_remove::<LibFxHashSetDefaultFunc>();
    insert_remove::<StdVec>();
    insert_remove::<StdVecDicotomie>();
    insert_remove::<StdLinkedList>();
    insert_remove::<LibAvlTree>();
    insert_remove::<LibRBTree>();
    insert_remove::<LibRangeSetBlaze>();
    insert_remove::<LibIdlset>();
}

#[test]
fn test_clear() {
    clear::<ByteArraySet>();
    clear::<SimdBitSet>();
    clear::<CustomBitSet>();
    clear::<AsmCustomBitSet>();
    clear::<BitTreeSet>();
    clear::<BitSet>();
    clear::<LibBitVec>();
    clear::<LibFixedBitSet>();
    clear::<StdHashSet>();
    clear::<StdHashSetNoHasher>();
    clear::<IntervalSet>();
    clear::<IntervalSet2>();
    clear::<IntervalResourceSet>();
    clear::<FlatIntervalSet>();
    clear::<BinarySearchTree>();
    clear::<LibRoaring>();
    clear::<LibCRoaring>();
    clear::<StdTreeSet>();
    clear::<LibFxHashSet>();
    clear::<LibFxHashSetDefaultFunc>();
    clear::<StdVec>();
    clear::<StdVecDicotomie>();
    clear::<StdLinkedList>();
    clear::<LibAvlTree>();
    clear::<LibRBTree>();
    clear::<LibRangeSetBlaze>();
    clear::<LibIdlset>();
}

#[test]
fn test_contains_not_present() {
    contains_not_present::<ByteArraySet>();
    contains_not_present::<SimdBitSet>();
    contains_not_present::<CustomBitSet>();
    contains_not_present::<AsmCustomBitSet>();
    contains_not_present::<BitTreeSet>();
    contains_not_present::<BitSet>();
    contains_not_present::<LibBitVec>();
    contains_not_present::<LibFixedBitSet>();
    contains_not_present::<StdHashSet>();
    contains_not_present::<StdHashSetNoHasher>();
    contains_not_present::<IntervalSet>();
    contains_not_present::<IntervalSet2>();
    contains_not_present::<IntervalResourceSet>();
    contains_not_present::<FlatIntervalSet>();
    contains_not_present::<BinarySearchTree>();
    contains_not_present::<LibRoaring>();
    contains_not_present::<LibCRoaring>();
    contains_not_present::<StdTreeSet>();
    contains_not_present::<LibFxHashSet>();
    contains_not_present::<LibFxHashSetDefaultFunc>();
    contains_not_present::<StdVec>();
    contains_not_present::<StdVecDicotomie>();
    contains_not_present::<StdLinkedList>();
    contains_not_present::<LibAvlTree>();
    contains_not_present::<LibRBTree>();
    contains_not_present::<LibRangeSetBlaze>();
    contains_not_present::<LibIdlset>();
}

#[test]
fn model_byte_array_set() {
    agrees_with_model::<ByteArraySet>(1, 200);
    agrees_with_model::<ByteArraySet>(7, 65536);
    bytes_round_trip::<ByteArraySet>();
    bytes_of_other_lengths::<ByteArraySet>();
    extremes::<ByteArraySet>();
}

#[test]
fn model_simd_bit_set() {
    agrees_with_model::<SimdBitSet>(1, 200);
    agrees_with_model::<SimdBitSet>(7, 65536);
    bytes_round_trip::<SimdBitSet>();
    bytes_of_other_lengths::<SimdBitSet>();
    extremes::<SimdBitSet>();
}

#[test]
fn model_custom_bit_set() {
    agrees_with_model::<CustomBitSet>(1, 200);
    agrees_with_model::<CustomBitSet>(7, 65536);
    bytes_round_trip::<CustomBitSet>();
    bytes_of_other_lengths::<CustomBitSet>();
    extremes::<CustomBitSet>();
}

#[test]
fn model_asm_custom_bit_set() {
    agrees_with_model::<AsmCustomBitSet>(1, 200);
    agrees_with_model::<AsmCustomBitSet>(7, 65536);
    bytes_round_trip::<AsmCustomBitSet>();
    bytes_of_other_lengths::<AsmCustomBitSet>();
    extremes::<AsmCustomBitSet>();
}

#[test]
fn model_bit_tree_set() {
    agrees_with_model::<BitTreeSet>(1, 200);
    agrees_with_model::<BitTreeSet>(7, 65536);
    bytes_round_trip::<BitTreeSet>();
    bytes_of_other_lengths::<BitTreeSet>();
    extremes::<BitTreeSet>();
}

#[test]
fn model_bit_set() {
    agrees_with_model::<BitSet>(1, 200);
    agrees_with_model::<BitSet>(7, 65536);
    bytes_round_trip::<BitSet>();
    bytes_of_other_lengths::<BitSet>();
    extremes::<BitSet>();
}

#[test]
fn model_lib_bit_vec() {
    agrees_with_model::<LibBitVec>(1, 200);
    agrees_with_model::<LibBitVec>(7, 65536);
    bytes_round_trip::<LibBitVec>();
    bytes_of_other_lengths::<LibBitVec>();
    extremes::<LibBitVec>();
}

#[test]
fn model_lib_fixed_bit_set() {
    agrees_with_model::<LibFixedBitSet>(1, 200);
    agrees_with_model::<LibFixedBitSet>(7, 65536);
    bytes_round_trip::<LibFixedBitSet>();
    bytes_of_other_lengths::<LibFixedBitSet>();
    extremes::<LibFixedBitSet>();
}

#[test]
fn model_std_hash_set() {
    agrees_with_model::<StdHashSet>(1, 200);
    agrees_with_model::<StdHashSet>(7, 65536);
    bytes_round_trip::<StdHashSet>();
    bytes_of_other_lengths::<StdHashSet>();
    extremes::<StdHashSet>();
}

#[test]
fn model_std_hash_set_no_hasher() {
    agrees_with_model::<StdHashSetNoHasher>(1, 200);
    agrees_with_model::<StdHashSetNoHasher>(7, 65536);
    bytes_round_trip::<StdHashSetNoHasher>();
    bytes_of_other_lengths::<StdHashSetNoHasher>();
    extremes::<StdHashSetNoHasher>();
}

#[test]
fn model_interval_set() {
    agrees_with_model::<IntervalSet>(1, 200);
    agrees_with_model::<IntervalSet>(7, 65536);
    bytes_round_trip::<IntervalSet>();
    bytes_of_other_lengths::<IntervalSet>();
    extremes::<IntervalSet>();
}

#[test]
fn model_interval_set2() {
    agrees_with_model::<IntervalSet2>(1, 200);
    agrees_with_model::<IntervalSet2>(7, 65536);
    bytes_round_trip::<IntervalSet2>();
    bytes_of_other_lengths::<IntervalSet2>();
    extremes::<IntervalSet2>();
}

#[test]
fn model_interval_resource_set() {
    agrees_with_model::<IntervalResourceSet>(1, 200);
    agrees_with_model::<IntervalResourceSet>(7, 65536);
    bytes_round_trip::<IntervalResourceSet>();
    bytes_of_other_lengths::<IntervalResourceSet>();
    extremes::<IntervalResourceSet>();
}

#[test]
fn model_flat_interval_set() {
    agrees_with_model::<FlatIntervalSet>(1, 200);
    agrees_with_model::<FlatIntervalSet>(7, 65536);
    bytes_round_trip::<FlatIntervalSet>();
    bytes_of_other_lengths::<FlatIntervalSet>();
    extremes::<FlatIntervalSet>();
}

#[test]
fn model_binary_search_tree() {
    agrees_with_model::<BinarySearchTree>(1, 200);
    agrees_with_model::<BinarySearchTree>(7, 65536);
    bytes_round_trip::<BinarySearchTree>();
    bytes_of_other_lengths::<BinarySearchTree>();
    extremes::<BinarySearchTree>();
}

#[test]
fn model_lib_roaring() {
    agrees_with_model::<LibRoaring>(1, 200);
    agrees_with_model::<LibRoaring>(7, 65536);
    bytes_round_trip::<LibRoaring>();
    bytes_of_other_lengths::<LibRoaring>();
    extremes::<LibRoaring>();
}

#[test]
fn model_lib_c_roaring() {
    agrees_with_model::<LibCRoaring>(1, 200);
    agrees_with_model::<LibCRoaring>(7, 65536);
    bytes_round_trip::<LibCRoaring>();
    bytes_of_other_lengths::<LibCRoaring>();
    extremes::<LibCRoaring>();
}

#[test]
fn model_std_tree_set() {
    agrees_with_model::<StdTreeSet>(1, 200);
    agrees_with_model::<StdTreeSet>(7, 65536);
    bytes_round_trip::<StdTreeSet>();
    bytes_of_other_lengths::<StdTreeSet>();
    extremes::<StdTreeSet>();
}

#[test]
fn model_lib_fx_hash_set() {
    agrees_with_model::<LibFxHashSet>(1, 200);
    agrees_with_model::<LibFxHashSet>(7, 65536);
    bytes_round_trip::<LibFxHashSet>();
    bytes_of_other_lengths::<LibFxHashSet>();
    extremes::<LibFxHashSet>();
}

#[test]
fn model_lib_fx_hash_set_default_func() {
    agrees_with_model::<LibFxHashSetDefaultFunc>(1, 200);
    agrees_with_model::<LibFxHashSetDefaultFunc>(7, 65536);
    bytes_round_trip::<LibFxHashSetDefaultFunc>();
    bytes_of_other_lengths::<LibFxHashSetDefaultFunc>();
    extremes::<LibFxHashSetDefaultFunc>();
}

#[test]
fn model_std_vec() {
    agrees_with_model::<StdVec>(1, 200);
    agrees_with_model::<StdVec>(7, 65536);
    bytes_round_trip::<StdVec>();
    bytes_of_other_lengths::<StdVec>();
    extremes::<StdVec>();
}

#[test]
fn model_std_vec_dicotomie() {
    agrees_with_model::<StdVecDicotomie>(1, 200);
    agrees_with_model::<StdVecDicotomie>(7, 65536);
    bytes_round_trip::<StdVecDicotomie>();
    bytes_of_other_lengths::<StdVecDicotomie>();
    extremes::<StdVecDicotomie>();
}

#[test]
fn model_std_linked_list() {
    agrees_with_model::<StdLinkedList>(1, 200);
    agrees_with_model::<StdLinkedList>(7, 65536);
    bytes_round_trip::<StdLinkedList>();
    bytes_of_other_lengths::<StdLinkedList>();
    extremes::<StdLinkedList>();
}

#[test]
fn model_lib_avl_tree() {
    agrees_with_model::<LibAvlTree>(1, 200);
    agrees_with_model::<LibAvlTree>(7, 65536);
    bytes_round_trip::<LibAvlTree>();
    bytes_of_other_lengths::<LibAvlTree>();
    extremes::<LibAvlTree>();
}

#[test]
fn model_lib_r_b_tree() {
    agrees_with_model::<LibRBTree>(1, 200);
    agrees_with_model::<LibRBTree>(7, 65536);
    bytes_round_trip::<LibRBTree>();
    bytes_of_other_lengths::<LibRBTree>();
    extremes::<LibRBTree>();
}

#[test]
fn model_lib_range_set_blaze() {
    agrees_with_model::<LibRangeSetBlaze>(1, 200);
    agrees_with_model::<LibRangeSetBlaze>(7, 65536);
    bytes_round_trip::<LibRangeSetBlaze>();
    bytes_of_other_lengths::<LibRangeSetBlaze>();
    extremes::<LibRangeSetBlaze>();
}

#[test]
fn model_lib_idlset() {
    agrees_with_model::<LibIdlset>(1, 200);
    agrees_with_model::<LibIdlset>(7, 65536);
    bytes_round_trip::<LibIdlset>();
    bytes_of_other_lengths::<LibIdlset>();
    extremes::<LibIdlset>();
}

/// Values inserted out of order come out of `iter` in increasing order.
fn iterates_in_order<T: SetIntConstruct>() {
    let values = [40000u16, 3, 65535, 700, 0, 64, 63, 12000, 5, 129];
    let set: T = filled(&values);
    let mut expected = values.to_vec();
    expected.sort();
    assert_eq!(set.iter(), expected);
}

#[test]
fn ordered_types_iterate_in_order() {
    iterates_in_order::<ByteArraySet>();
    iterates_in_order::<SimdBitSet>();
    iterates_in_order::<CustomBitSet>();
    iterates_in_order::<AsmCustomBitSet>();
    iterates_in_order::<BitTreeSet>();
    iterates_in_order::<BitSet>();
    iterates_in_order::<LibBitVec>();
    iterates_in_order::<LibFixedBitSet>();
    iterates_in_order::<IntervalSet>();
    iterates_in_order::<IntervalSet2>();
    iterates_in_order::<IntervalResourceSet>();
    iterates_in_order::<FlatIntervalSet>();
    iterates_in_order::<BinarySearchTree>();
    iterates_in_order::<LibRoaring>();
    iterates_in_order::<LibCRoaring>();
    iterates_in_order::<StdTreeSet>();
    iterates_in_order::<StdVecDicotomie>();
    iterates_in_order::<StdLinkedList>();
    iterates_in_order::<LibAvlTree>();
    iterates_in_order::<LibRBTree>();
    iterates_in_order::<LibRangeSetBlaze>();
    iterates_in_order::<LibIdlset>();
    iterates_in_order::<LibInterval>();
}
