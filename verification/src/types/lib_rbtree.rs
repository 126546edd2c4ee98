//! A set held as the keys of a red-black tree of the `rbtree` crate. That
//! tree is a multimap: `insert` adds a node even for a key it has, so the
//! set keeps as its invariant that no key occurs twice.

use rbtree::RBTree;
use vstd::multiset::Multiset;
use vstd::prelude::*;
use crate::count::{lemma_no_dup_len, lemma_push_to_set, lemma_u16_set_finite};
use crate::set_int::{increasing, sym_diff, SetInt, SetIntConstruct};

verus! {

broadcast use {vstd::multiset::group_multiset_axioms, vstd::seq_lib::group_to_multiset_ensures};

#[verifier::external_type_specification]
#[verifier::external_body]
#[verifier::reject_recursive_types(K)]
#[verifier::reject_recursive_types(V)]
pub struct ExRBTree<K: Ord, V>(RBTree<K, V>);

/// The keys of a red-black tree, each as many times as it has nodes.
pub uninterp spec fn rbtree_keys(t: RBTree<u16, ()>) -> Multiset<u16>;

/// `RBTree::new`: an empty tree.
#[verifier::external_body]
fn rbtree_new() -> (t: RBTree<u16, ()>)
    ensures
        rbtree_keys(t) == Multiset::<u16>::empty(),
{
    RBTree::new()
}

/// `RBTree::clear`: takes every node out.
#[verifier::external_body]
fn rbtree_clear(t: &mut RBTree<u16, ()>)
    ensures
        rbtree_keys(*final(t)) == Multiset::<u16>::empty(),
{
    t.clear()
}

/// `RBTree::replace_or_insert`: adds a node for `k` unless it has one;
/// tells whether it had.
#[verifier::external_body]
fn rbtree_replace_or_insert(t: &mut RBTree<u16, ()>, k: u16) -> (had: bool)
    ensures
        had == rbtree_keys(*old(t)).contains(k),
        rbtree_keys(*final(t)) == if had {
            rbtree_keys(*old(t))
        } else {
            rbtree_keys(*old(t)).insert(k)
        },
{
    t.replace_or_insert(k, ()).is_some()
}

/// `RBTree::insert`: adds a node for `k`, whatever the tree holds.
#[verifier::external_body]
fn rbtree_insert(t: &mut RBTree<u16, ()>, k: u16)
    ensures
        rbtree_keys(*final(t)) == rbtree_keys(*old(t)).insert(k),
{
    t.insert(k, ())
}

/// `RBTree::remove`: takes one node of `k` out; tells whether there was
/// one.
#[verifier::external_body]
fn rbtree_remove(t: &mut RBTree<u16, ()>, k: u16) -> (had: bool)
    ensures
        had == rbtree_keys(*old(t)).contains(k),
        rbtree_keys(*final(t)) == rbtree_keys(*old(t)).remove(k),
{
    t.remove(&k).is_some()
}

/// `RBTree::contains_key`: whether some node has the key `k`.
#[verifier::external_body]
fn rbtree_contains_key(t: &RBTree<u16, ()>, k: u16) -> (present: bool)
    ensures
        present == rbtree_keys(*t).contains(k),
{
    t.contains_key(&k)
}

/// `RBTree::len`: the number of nodes.
#[verifier::external_body]
fn rbtree_len(t: &RBTree<u16, ()>) -> (count: usize)
    ensures
        count == rbtree_keys(*t).len(),
{
    t.len()
}

/// `RBTree::keys`, collected: the key of every node, in order (from the
/// least node through its successors).
#[verifier::external_body]
fn rbtree_key_list(t: &RBTree<u16, ()>) -> (keys: Vec<u16>)
    ensures
        keys@.to_multiset() == rbtree_keys(*t),
        forall|a: int, b: int| 0 <= a < b < keys@.len() ==> #[trigger] keys@[a] <= #[trigger] keys@[b],
{
    t.keys().copied().collect()
}

/// No key twice, and as many nodes as distinct keys.
spec fn keys_unique(m: Multiset<u16>) -> bool {
    &&& forall|x: u16| #[trigger] m.count(x) <= 1
    &&& m.len() == m.dom().len()
}

proof fn lemma_unique_insert(m: Multiset<u16>, k: u16)
    requires
        keys_unique(m),
        !m.contains(k),
    ensures
        keys_unique(m.insert(k)),
        m.insert(k).dom() == m.dom().insert(k),
{
    lemma_u16_set_finite(m.dom());
    assert(m.insert(k).dom() =~= m.dom().insert(k));
}

proof fn lemma_unique_remove(m: Multiset<u16>, k: u16)
    requires
        keys_unique(m),
    ensures
        keys_unique(m.remove(k)),
        m.remove(k).dom() == m.dom().remove(k),
{
    lemma_u16_set_finite(m.dom());
    assert(m.remove(k).dom() =~= m.dom().remove(k));
    if m.contains(k) {
        assert(Multiset::singleton(k).subset_of(m));
    } else {
        assert(m.remove(k) =~= m);
    }
}

/// A list of the keys, when no key occurs twice, holds each once.
proof fn lemma_unique_list(keys: Seq<u16>, m: Multiset<u16>)
    requires
        keys_unique(m),
        keys.to_multiset() == m,
    ensures
        keys.no_duplicates(),
        keys.to_set() == m.dom(),
{
    keys.lemma_multiset_has_no_duplicates_conv();
    assert forall|x: u16| #[trigger] keys.to_set().contains(x) == m.dom().contains(x) by {
        assert(keys.contains(x) <==> keys.to_multiset().count(x) > 0);
    }
    assert(keys.to_set() =~= m.dom());
}

/// The elements, as the keys of a red-black tree with unit values.
pub struct LibRBTree {
    tree: RBTree<u16, ()>,
}

impl LibRBTree {
    /// Adds each of `keys` with `RBTree::insert`; none of them is in the
    /// tree, and none occurs twice.
    fn insert_absent(&mut self, keys: &Vec<u16>)
        requires
            old(self).wf(),
            keys@.no_duplicates(),
            forall|k: int| 0 <= k < keys@.len() ==> !old(self)@.contains(#[trigger] keys@[k]),
        ensures
            final(self).wf(),
            final(self)@ == old(self)@.union(keys@.to_set()),
    {
        let mut i: usize = 0;
        while i < keys.len()
            invariant
                self.wf(),
                keys@.no_duplicates(),
                forall|k: int| 0 <= k < keys@.len() ==> !old(self)@.contains(#[trigger] keys@[k]),
                i <= keys@.len(),
                self@ == old(self)@.union(keys@.take(i as int).to_set()),
            decreases keys@.len() - i,
        {
            let k = keys[i];
            proof {
                assert(!keys@.take(i as int).to_set().contains(k)) by {
                    if keys@.take(i as int).to_set().contains(k) {
                        let j = choose|j: int| 0 <= j < i && keys@.take(i as int)[j] == k;
                        assert(keys@[j] == keys@[i as int]);
                    }
                }
                assert(!old(self)@.contains(keys@[i as int]));
                assert(!self@.contains(k));
                assert(!rbtree_keys(self.tree).dom().contains(k));
                lemma_unique_insert(rbtree_keys(self.tree), k);
            }
            rbtree_insert(&mut self.tree, k);
            proof {
                assert(keys@.take(i + 1) =~= keys@.take(i as int).push(k));
                lemma_push_to_set(keys@.take(i as int), k);
            }
            i = i + 1;
            assert(self@ =~= old(self)@.union(keys@.take(i as int).to_set()));
        }
        assert(keys@.take(keys@.len() as int) =~= keys@);
    }

    /// Takes each of `keys` out.
    fn remove_each(&mut self, keys: &Vec<u16>)
        requires
            old(self).wf(),
        ensures
            final(self).wf(),
            final(self)@ == old(self)@.difference(keys@.to_set()),
    {
        let mut i: usize = 0;
        while i < keys.len()
            invariant
                self.wf(),
                i <= keys@.len(),
                self@ == old(self)@.difference(keys@.take(i as int).to_set()),
            decreases keys@.len() - i,
        {
            let k = keys[i];
            proof {
                lemma_unique_remove(rbtree_keys(self.tree), k);
            }
            rbtree_remove(&mut self.tree, k);
            proof {
                assert(keys@.take(i + 1) =~= keys@.take(i as int).push(k));
                lemma_push_to_set(keys@.take(i as int), k);
            }
            i = i + 1;
            assert(self@ =~= old(self)@.difference(keys@.take(i as int).to_set()));
        }
        assert(keys@.take(keys@.len() as int) =~= keys@);
    }

    /// The keys of the tree that `other` holds (`keep_common`) or lacks.
    fn keys_filtered(&self, other: &Self, keep_common: bool) -> (keys: Vec<u16>)
        requires
            self.wf(),
            other.wf(),
        ensures
            keys@.no_duplicates(),
            keys@.to_set() == if keep_common {
                self@.intersect(other@)
            } else {
                self@.difference(other@)
            },
    {
        let all = rbtree_key_list(&self.tree);
        proof {
            lemma_unique_list(all@, rbtree_keys(self.tree));
        }
        let mut keys: Vec<u16> = Vec::new();
        let mut i: usize = 0;
        while i < all.len()
            invariant
                all@.no_duplicates(),
                all@.to_set() == self@,
                other.wf(),
                i <= all@.len(),
                keys@.no_duplicates(),
                forall|k: int| 0 <= k < keys@.len() ==> all@.take(i as int).contains(#[trigger] keys@[k]),
                keys@.to_set() == all@.take(i as int).to_set().filter(
                    |x: u16| other@.contains(x) == keep_common,
                ),
            decreases all@.len() - i,
        {
            let k = all[i];
            let ghost before = keys@;
            if rbtree_contains_key(&other.tree, k) == keep_common {
                proof {
                    assert(!before.contains(k)) by {
                        if before.contains(k) {
                            let j = choose|j: int| 0 <= j < before.len() && before[j] == k;
                            assert(all@.take(i as int).contains(k));
                            let m = choose|m: int| 0 <= m < i && all@.take(i as int)[m] == k;
                            assert(all@[m] == all@[i as int]);
                        }
                    }
                }
                keys.push(k);
                proof {
                    lemma_push_to_set(before, k);
                }
            }
            proof {
                assert(all@.take(i + 1) =~= all@.take(i as int).push(k));
                lemma_push_to_set(all@.take(i as int), k);
                assert forall|j: int| 0 <= j < keys@.len() implies all@.take(i + 1).contains(#[trigger] keys@[j]) by {
                    if j < before.len() {
                        assert(all@.take(i as int).contains(before[j]));
                        let m = choose|m: int| 0 <= m < i && all@.take(i as int)[m] == before[j];
                        assert(all@.take(i + 1)[m] == before[j]);
                    } else {
                        assert(all@.take(i + 1)[i as int] == k);
                    }
                }
            }
            i = i + 1;
            assert(keys@.to_set() =~= all@.take(i as int).to_set().filter(
                |x: u16| other@.contains(x) == keep_common,
            ));
        }
        assert(all@.take(all@.len() as int) =~= all@);
        if keep_common {
            assert(keys@.to_set() =~= self@.intersect(other@));
        } else {
            assert(keys@.to_set() =~= self@.difference(other@));
        }
        keys
    }
}

impl SetInt for LibRBTree {
    closed spec fn view(&self) -> Set<u16> {
        rbtree_keys(self.tree).dom()
    }

    closed spec fn wf(&self) -> bool {
        keys_unique(rbtree_keys(self.tree))
    }

    fn clear(&mut self) {
        rbtree_clear(&mut self.tree);
        assert(self@ =~= Set::<u16>::empty());
    }

    fn insert(&mut self, n: u16) {
        proof {
            if !rbtree_keys(self.tree).contains(n) {
                lemma_unique_insert(rbtree_keys(self.tree), n);
            }
        }
        rbtree_replace_or_insert(&mut self.tree, n);
        assert(self@ =~= old(self)@.insert(n));
    }

    fn remove(&mut self, n: u16) -> (was_present: bool) {
        proof {
            lemma_unique_remove(rbtree_keys(self.tree), n);
        }
        rbtree_remove(&mut self.tree, n)
    }

    fn contains(&self, n: u16) -> (present: bool) {
        rbtree_contains_key(&self.tree, n)
    }

    fn len(&self) -> (count: usize) {
        rbtree_len(&self.tree)
    }

    fn iter(&self) -> (elems: Vec<u16>)
        ensures
            increasing(elems@),
    {
        let keys = rbtree_key_list(&self.tree);
        proof {
            lemma_unique_list(keys@, rbtree_keys(self.tree));
            assert forall|a: int, b: int| 0 <= a < b < keys@.len() implies keys@[a] < keys@[b] by {
                assert(keys@[a] <= keys@[b]);
            }
        }
        keys
    }

    fn union_with(&mut self, other: &Self) {
        let keys = rbtree_key_list(&other.tree);
        proof {
            lemma_unique_list(keys@, rbtree_keys(other.tree));
        }
        let mut i: usize = 0;
        while i < keys.len()
            invariant
                self.wf(),
                i <= keys@.len(),
                self@ == old(self)@.union(keys@.take(i as int).to_set()),
            decreases keys@.len() - i,
        {
            let k = keys[i];
            proof {
                if !rbtree_keys(self.tree).contains(k) {
                    lemma_unique_insert(rbtree_keys(self.tree), k);
                }
            }
            rbtree_replace_or_insert(&mut self.tree, k);
            proof {
                assert(keys@.take(i + 1) =~= keys@.take(i as int).push(k));
                lemma_push_to_set(keys@.take(i as int), k);
            }
            i = i + 1;
            assert(self@ =~= old(self)@.union(keys@.take(i as int).to_set()));
        }
        assert(keys@.take(keys@.len() as int) =~= keys@);
    }

    fn intersection_with(&mut self, other: &Self) {
        let to_remove = self.keys_filtered(other, false);
        self.remove_each(&to_remove);
        assert(self@ =~= old(self)@.intersect(other@));
    }

    fn difference_with(&mut self, other: &Self) {
        let keys = rbtree_key_list(&other.tree);
        self.remove_each(&keys);
        proof {
            lemma_unique_list(keys@, rbtree_keys(other.tree));
        }
    }

    fn symmetric_difference_with(&mut self, other: &Self) {
        let to_remove = self.keys_filtered(other, true);
        let to_insert = other.keys_filtered(self, false);
        self.remove_each(&to_remove);
        proof {
            assert forall|k: int| 0 <= k < to_insert@.len() implies !self@.contains(#[trigger] to_insert@[k]) by {
                assert(to_insert@.to_set().contains(to_insert@[k]));
            }
        }
        self.insert_absent(&to_insert);
        assert(self@ =~= sym_diff(old(self)@, other@));
    }
}

impl SetIntConstruct for LibRBTree {
    fn new() -> (s: Self) {
        let s = LibRBTree { tree: rbtree_new() };
        assert(rbtree_keys(s.tree).dom() =~= Set::<u16>::empty());
        s
    }

    fn with_capacity(_capacity: usize) -> (s: Self) {
        Self::new()
    }
}

} // verus!
