pub mod asm_custom_bit_set;
pub mod bit_tree_set;
pub mod byte_array_set;
pub mod custom_bit_set;
pub mod custom_bst;
pub mod custom_interval_set;
pub mod flat_interval_set;
pub mod interval;
pub mod interval_set2;
pub mod lib_avl_tree;
pub mod lib_bit_set;
pub mod lib_bitvec;
pub mod lib_croaring;
pub mod lib_fixed_bit_set;
pub mod lib_fx_hash_set;
pub mod lib_range_set_blaze;
pub mod lib_rbtree;
pub mod lib_idlset;
pub mod lib_interval;
pub mod lib_roaring;
pub mod narrow;
pub mod simd_bit_set;
pub mod sorted_seq;
pub mod std_hash_set;
pub mod std_hash_set_no_hasher;
pub mod std_linked_list;
pub mod std_tree_set;
pub mod std_vec;
pub mod std_vec_dicotomie;
pub mod word_bitmap;

pub use asm_custom_bit_set::AsmCustomBitSet;
pub use byte_array_set::ByteArraySet;
pub use custom_bit_set::CustomBitSet;
pub use simd_bit_set::SimdBitSet;
pub use std_vec_dicotomie::StdVecDicotomie;
pub use std_linked_list::StdLinkedList;
pub use std_vec::StdVec;
pub use std_tree_set::StdTreeSet;
pub use std_hash_set::StdHashSet;
pub use std_hash_set_no_hasher::{NoOpHasher, StdHashSetNoHasher};
pub use interval::{Interval, IntervalSet};
pub use interval_set2::IntervalSet2;
pub use custom_interval_set::IntervalResourceSet;
pub use flat_interval_set::FlatIntervalSet;
pub use custom_bst::BinarySearchTree;
pub use bit_tree_set::BitTreeSet;
pub use lib_roaring::LibRoaring;
pub use lib_bit_set::BitSet;
pub use lib_fixed_bit_set::LibFixedBitSet;
pub use lib_fx_hash_set::{LibFxHashSet, LibFxHashSetDefaultFunc};
pub use lib_croaring::LibCRoaring;
pub use lib_range_set_blaze::LibRangeSetBlaze;
pub use lib_avl_tree::LibAvlTree;
pub use lib_rbtree::LibRBTree;
pub use lib_idlset::LibIdlset;
pub use lib_bitvec::LibBitVec;
pub use lib_interval::LibInterval;
