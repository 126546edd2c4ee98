//! A set held as an unbalanced binary search tree.

use vstd::prelude::*;
use crate::count::{lemma_push_to_set, lemma_u16_set_finite, lemma_u16_set_len_bound};
use crate::set_int::{increasing, sym_diff, SetInt, SetIntConstruct};

verus! {

#[derive(Debug)]
struct Node {
    value: u16,
    left: Option<Box<Node>>,
    right: Option<Box<Node>>,
}

/// The values of a tree, with the root's first in order: smaller values to
/// the left, larger to the right.
#[derive(Debug)]
pub struct BinarySearchTree {
    root: Option<Box<Node>>,
    size: usize,
}

/// The values held in a subtree.
spec fn tree_set(node: Option<Box<Node>>) -> Set<u16>
    decreases node,
{
    match node {
        None => Set::empty(),
        Some(n) => tree_set(n.left).union(tree_set(n.right)).insert(n.value),
    }
}

/// Every subtree holds only values below its parent on the left and above
/// it on the right.
spec fn tree_wf(node: Option<Box<Node>>) -> bool
    decreases node,
{
    match node {
        None => true,
        Some(n) => {
            &&& forall|x: u16| #[trigger] tree_set(n.left).contains(x) ==> x < n.value
            &&& forall|x: u16| #[trigger] tree_set(n.right).contains(x) ==> x > n.value
            &&& tree_wf(n.left)
            &&& tree_wf(n.right)
        },
    }
}

impl BinarySearchTree {
    /// The search-tree order: in every subtree, the values on the left lie
    /// below the node's value and those on the right above it.
    pub closed spec fn ordered(&self) -> bool {
        tree_wf(self.root)
    }

    fn insert_node(node: &mut Option<Box<Node>>, value: u16) -> (inserted: bool)
        requires
            tree_wf(*old(node)),
        ensures
            tree_wf(*final(node)),
            tree_set(*final(node)) == tree_set(*old(node)).insert(value),
            inserted == !tree_set(*old(node)).contains(value),
        decreases *old(node),
    {
        match node.take() {
            None => {
                *node = Some(Box::new(Node { value, left: None, right: None }));
                proof {
                    let empty: Option<Box<Node>> = None;
                    assert(tree_set(empty) =~= Set::<u16>::empty());
                    assert(tree_set(*node) =~= Set::<u16>::empty().insert(value));
                }
                true
            },
            Some(mut n) => {
                let ghost orig = *n;
                if value < n.value {
                    proof {
                        assert(!tree_set(orig.right).contains(value));
                    }
                    let r = Self::insert_node(&mut n.left, value);
                    *node = Some(n);
                    assert(tree_set(*node) =~= tree_set(*old(node)).insert(value));
                    r
                } else if value > n.value {
                    proof {
                        assert(!tree_set(orig.left).contains(value));
                    }
                    let r = Self::insert_node(&mut n.right, value);
                    *node = Some(n);
                    assert(tree_set(*node) =~= tree_set(*old(node)).insert(value));
                    r
                } else {
                    *node = Some(n);
                    assert(tree_set(*node) =~= tree_set(*old(node)).insert(value));
                    false
                }
            },
        }
    }

    fn contains_node(node: &Option<Box<Node>>, value: u16) -> (present: bool)
        requires
            tree_wf(*node),
        ensures
            present == tree_set(*node).contains(value),
        decreases *node,
    {
        match node {
            None => false,
            Some(n) => {
                if value < n.value {
                    proof {
                        assert(tree_wf(*node));
                        assert(!tree_set(n.right).contains(value));
                    }
                    let r = Self::contains_node(&n.left, value);
                    r
                } else if value > n.value {
                    proof {
                        assert(!tree_set(n.left).contains(value));
                    }
                    let r = Self::contains_node(&n.right, value);
                    r
                } else {
                    true
                }
            },
        }
    }

    fn inorder(node: &Option<Box<Node>>, vec: &mut Vec<u16>)
        requires
            tree_wf(*node),
        ensures
            final(vec)@.len() >= old(vec)@.len(),
            final(vec)@.take(old(vec)@.len() as int) == old(vec)@,
            final(vec)@.skip(old(vec)@.len() as int).to_set() == tree_set(*node),
            forall|a: int, b: int| old(vec)@.len() <= a < b < final(vec)@.len() ==> final(vec)@[a] < final(vec)@[b],
        decreases *node,
    {
        let ghost start = vec@;
        if let Some(n) = node {
            Self::inorder(&n.left, vec);
            let ghost mid = vec@;
            vec.push(n.value);
            let ghost mid2 = vec@;
            Self::inorder(&n.right, vec);
            proof {
                let l = start.len() as int;
                let m = mid.len() as int;
                let fin = vec@;
                assert(mid2 == mid.push(n.value));
                assert forall|k: int| 0 <= k <= m implies #[trigger] fin[k] == mid2[k] by {
                    assert(fin.take(m + 1)[k] == fin[k]);
                }
                assert forall|k: int| 0 <= k < l implies #[trigger] mid[k] == start[k] by {
                    assert(mid.take(l)[k] == mid[k]);
                }
                assert(vec@.take(l) =~= start) by {
                    assert forall|k: int| 0 <= k < l implies #[trigger] fin.take(l)[k] == start[k] by {
                        assert(fin[k] == mid2[k]);
                        assert(mid2[k] == mid[k]);
                    }
                }
                let left_part = mid.skip(l);
                let right_part = vec@.skip(m + 1);
                assert(vec@.skip(l) =~= left_part.push(n.value) + right_part) by {
                    let all = fin.skip(l);
                    let rhs = left_part.push(n.value) + right_part;
                    assert(all.len() == rhs.len());
                    assert forall|k: int| 0 <= k < all.len() implies #[trigger] all[k] == rhs[k] by {
                        if k < m - l {
                            assert(fin[l + k] == mid2[l + k]);
                            assert(mid2[l + k] == mid[l + k]);
                        } else if k == m - l {
                            assert(fin[m] == mid2[m]);
                        }
                    }
                }
                assert forall|x: u16| #[trigger] vec@.skip(l).to_set().contains(x) == tree_set(*node).contains(x) by {
                    let all = vec@.skip(l);
                    if all.to_set().contains(x) {
                        let k = choose|k: int| 0 <= k < all.len() && all[k] == x;
                        if k < left_part.len() {
                            assert(left_part[k] == x);
                            assert(left_part.to_set().contains(x));
                        } else if k > left_part.len() {
                            assert(right_part[k - left_part.len() - 1] == x);
                            assert(right_part.to_set().contains(x));
                        }
                    }
                    if tree_set(n.left).contains(x) {
                        let k = choose|k: int| 0 <= k < left_part.len() && left_part[k] == x;
                        assert(all[k] == x);
                    }
                    if tree_set(n.right).contains(x) {
                        let k = choose|k: int| 0 <= k < right_part.len() && right_part[k] == x;
                        assert(all[k + left_part.len() + 1] == x);
                    }
                    if x == n.value {
                        assert(all[left_part.len() as int] == x);
                    }
                }
                assert(vec@.skip(l).to_set() =~= tree_set(*node));
                assert forall|a: int, b: int| l <= a < b < vec@.len() implies vec@[a] < vec@[b] by {
                    if a < m && b == m {
                        assert(left_part[a - l] == vec@[a]);
                        assert(left_part.to_set().contains(vec@[a]));
                    } else if a < m && b > m {
                        assert(left_part[a - l] == vec@[a]);
                        assert(left_part.to_set().contains(vec@[a]));
                        assert(right_part[b - m - 1] == vec@[b]);
                        assert(right_part.to_set().contains(vec@[b]));
                    } else if a == m && b > m {
                        assert(right_part[b - m - 1] == vec@[b]);
                        assert(right_part.to_set().contains(vec@[b]));
                    } else if a < m && b < m {
                        assert(vec@[a] == mid2[a] && vec@[b] == mid2[b]);
                        assert(vec@[a] == mid[a] && vec@[b] == mid[b]);
                    }
                }
            }
        } else {
            assert(vec@.skip(start.len() as int) =~= Seq::<u16>::empty());
            assert(vec@.take(start.len() as int) =~= start);
        }
    }

    fn extract_min(node: &mut Option<Box<Node>>) -> (min: u16)
        requires
            old(node).is_some(),
            tree_wf(*old(node)),
        ensures
            tree_wf(*final(node)),
            tree_set(*old(node)).contains(min),
            forall|x: u16| #[trigger] tree_set(*old(node)).contains(x) ==> min <= x,
            tree_set(*final(node)) == tree_set(*old(node)).remove(min),
        decreases *old(node),
    {
        let mut boxed = node.take().unwrap();
        let ghost orig = *boxed;
        assert(tree_set(*old(node)) == tree_set(orig.left).union(tree_set(orig.right)).insert(orig.value));
        if boxed.left.is_none() {
            *node = boxed.right.take();
            proof {
                assert(tree_set(orig.left) =~= Set::<u16>::empty());
                assert(!tree_set(orig.right).contains(orig.value));
                assert(tree_set(*node) =~= tree_set(*old(node)).remove(orig.value));
            }
            boxed.value
        } else {
            let m = Self::extract_min(&mut boxed.left);
            *node = Some(boxed);
            proof {
                assert(m < orig.value);
                assert(!tree_set(orig.right).contains(m));
                assert forall|x: u16| #[trigger] tree_set(*old(node)).contains(x) implies m <= x by {
                    if tree_set(orig.right).contains(x) {
                        assert(x > orig.value);
                    }
                }
                assert forall|x: u16| #[trigger] tree_set(boxed.left).contains(x) implies x < boxed.value by {
                    assert(tree_set(orig.left).contains(x));
                }
                assert(tree_set(*node) =~= tree_set(*old(node)).remove(m));
            }
            m
        }
    }

    fn remove_node(node: &mut Option<Box<Node>>, value: u16) -> (removed: bool)
        requires
            tree_wf(*old(node)),
        ensures
            tree_wf(*final(node)),
            tree_set(*final(node)) == tree_set(*old(node)).remove(value),
            removed == tree_set(*old(node)).contains(value),
        decreases *old(node),
    {
        match node.take() {
            None => {
                assert(tree_set(*old(node)) =~= tree_set(*old(node)).remove(value));
                false
            },
            Some(mut n) => {
                let ghost orig = *n;
                assert(tree_set(*old(node)) == tree_set(orig.left).union(tree_set(orig.right)).insert(orig.value));
                if value < n.value {
                    proof {
                        assert(!tree_set(orig.right).contains(value));
                    }
                    let r = Self::remove_node(&mut n.left, value);
                    *node = Some(n);
                    proof {
                        assert forall|x: u16| #[trigger] tree_set(n.left).contains(x) implies x < n.value by {
                            assert(tree_set(orig.left).contains(x));
                        }
                        assert(tree_set(*node) =~= tree_set(*old(node)).remove(value));
                    }
                    return r;
                } else if value > n.value {
                    proof {
                        assert(!tree_set(orig.left).contains(value));
                    }
                    let r = Self::remove_node(&mut n.right, value);
                    *node = Some(n);
                    proof {
                        assert forall|x: u16| #[trigger] tree_set(n.right).contains(x) implies x > n.value by {
                            assert(tree_set(orig.right).contains(x));
                        }
                        assert(tree_set(*node) =~= tree_set(*old(node)).remove(value));
                    }
                    return r;
                }
                proof {
                    assert(!tree_set(orig.left).contains(value));
                    assert(!tree_set(orig.right).contains(value));
                }
                match (n.left.take(), n.right.take()) {
                    (None, None) => {
                        *node = None;
                    },
                    (Some(left), None) => {
                        *node = Some(left);
                    },
                    (None, Some(right)) => {
                        *node = Some(right);
                    },
                    (Some(left), Some(right)) => {
                        let mut right_opt = Some(right);
                        let successor = Self::extract_min(&mut right_opt);
                        proof {
                            assert(tree_set(orig.right).contains(successor));
                            assert(successor > value);
                            assert forall|x: u16| #[trigger] tree_set(orig.left).contains(x) implies x < successor by {
                                assert(x < value);
                            }
                            assert forall|x: u16| #[trigger] tree_set(right_opt).contains(x) implies x > successor by {
                                assert(tree_set(orig.right).contains(x));
                            }
                        }
                        *node = Some(Box::new(Node { value: successor, left: Some(left), right: right_opt }));
                    },
                }
                assert(tree_set(*node) =~= tree_set(*old(node)).remove(value));
                true
            },
        }
    }
}

impl SetInt for BinarySearchTree {
    closed spec fn view(&self) -> Set<u16> {
        tree_set(self.root)
    }

    closed spec fn wf(&self) -> bool {
        &&& tree_wf(self.root)
        &&& self.size == tree_set(self.root).len()
    }

    fn iter(&self) -> (elems: Vec<u16>)
        ensures
            increasing(elems@),
    {
        let mut vec: Vec<u16> = Vec::new();
        Self::inorder(&self.root, &mut vec);
        proof {
            assert(vec@.skip(0) =~= vec@);
            crate::count::lemma_increasing_no_dup(vec@);
        }
        vec
    }

    fn insert(&mut self, value: u16)
        ensures
            final(self).ordered(),
    {
        proof {
            lemma_u16_set_finite(self@);
            lemma_u16_set_len_bound(self@.insert(value));
        }
        let inserted = Self::insert_node(&mut self.root, value);
        if inserted {
            self.size = self.size + 1;
        }
    }

    fn remove(&mut self, value: u16) -> (was_present: bool)
        ensures
            final(self).ordered(),
    {
        proof {
            lemma_u16_set_finite(self@);
        }
        let removed = Self::remove_node(&mut self.root, value);
        if removed {
            self.size = self.size - 1;
        }
        removed
    }

    fn contains(&self, value: u16) -> (present: bool) {
        Self::contains_node(&self.root, value)
    }

    fn len(&self) -> (count: usize) {
        self.size
    }

    fn clear(&mut self) {
        self.root = None;
        self.size = 0;
        assert(self@ =~= Set::<u16>::empty());
    }

    fn union_with(&mut self, other: &Self) {
        let items = other.iter();
        let mut i: usize = 0;
        while i < items.len()
            invariant
                self.wf(),
                i <= items@.len(),
                self@ == old(self)@.union(items@.take(i as int).to_set()),
            decreases items@.len() - i,
        {
            let v = items[i];
            if !self.contains(v) {
                self.insert(v);
            }
            proof {
                assert(items@.take(i + 1) =~= items@.take(i as int).push(v));
                lemma_push_to_set(items@.take(i as int), v);
            }
            i = i + 1;
            assert(self@ =~= old(self)@.union(items@.take(i as int).to_set()));
        }
        assert(items@.take(items@.len() as int) =~= items@);
    }

    fn intersection_with(&mut self, other: &Self) {
        let items = self.iter();
        let mut i: usize = 0;
        while i < items.len()
            invariant
                self.wf(),
                other.wf(),
                i <= items@.len(),
                self@ == old(self)@.difference(items@.take(i as int).to_set().difference(other@)),
            decreases items@.len() - i,
        {
            let v = items[i];
            if !other.contains(v) {
                self.remove(v);
            }
            proof {
                assert(items@.take(i + 1) =~= items@.take(i as int).push(v));
                lemma_push_to_set(items@.take(i as int), v);
            }
            i = i + 1;
            assert(self@ =~= old(self)@.difference(items@.take(i as int).to_set().difference(other@)));
        }
        assert(items@.take(items@.len() as int) =~= items@);
        assert(self@ =~= old(self)@.intersect(other@));
    }

    fn difference_with(&mut self, other: &Self) {
        let items = self.iter();
        let mut i: usize = 0;
        while i < items.len()
            invariant
                self.wf(),
                other.wf(),
                i <= items@.len(),
                self@ == old(self)@.difference(items@.take(i as int).to_set().intersect(other@)),
            decreases items@.len() - i,
        {
            let v = items[i];
            if other.contains(v) {
                self.remove(v);
            }
            proof {
                assert(items@.take(i + 1) =~= items@.take(i as int).push(v));
                lemma_push_to_set(items@.take(i as int), v);
            }
            i = i + 1;
            assert(self@ =~= old(self)@.difference(items@.take(i as int).to_set().intersect(other@)));
        }
        assert(items@.take(items@.len() as int) =~= items@);
        assert(self@ =~= old(self)@.difference(other@));
    }

    fn symmetric_difference_with(&mut self, other: &Self) {
        let others = other.iter();
        let mut j: usize = 0;
        while j < others.len()
            invariant
                self.wf(),
                others@.no_duplicates(),
                j <= others@.len(),
                self@ == sym_diff(old(self)@, others@.take(j as int).to_set()),
            decreases others@.len() - j,
        {
            let v = others[j];
            proof {
                assert(others@.take(j + 1) =~= others@.take(j as int).push(v));
                lemma_push_to_set(others@.take(j as int), v);
                assert(!others@.take(j as int).to_set().contains(v)) by {
                    if others@.take(j as int).to_set().contains(v) {
                        let k = choose|k: int| 0 <= k < j && others@.take(j as int)[k] == v;
                        assert(others@[k] == others@[j as int]);
                    }
                }
            }
            if self.contains(v) {
                self.remove(v);
            } else {
                self.insert(v);
            }
            j = j + 1;
            assert(self@ =~= sym_diff(old(self)@, others@.take(j as int).to_set()));
        }
        assert(others@.take(others@.len() as int) =~= others@);
    }
}

impl SetIntConstruct for BinarySearchTree {
    fn new() -> (s: Self) {
        let s = BinarySearchTree { root: None, size: 0 };
        assert(s@ =~= Set::<u16>::empty());
        s
    }

    fn with_capacity(_capacity: usize) -> (s: Self) {
        Self::new()
    }
}

} // verus!
