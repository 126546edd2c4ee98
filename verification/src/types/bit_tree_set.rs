//! A set held as a binary trie of depth 16: the path from the root to a leaf
//! spells the bits of an element, the most significant bit first.

use vstd::prelude::*;
use crate::count::{lemma_increasing_no_dup, lemma_push_to_set, lemma_u16_set_finite, lemma_u16_set_len_bound};
use crate::set_int::{increasing, sym_diff, SetInt, SetIntConstruct};

verus! {

struct Node {
    left: Option<Box<Node>>,
    right: Option<Box<Node>>,
}

/// A trie over the bits of the elements, and the number of its leaves.
pub struct BitTreeSet {
    root: Option<Box<Node>>,
    len: usize,
}

/// Bit `e` of `x`.
spec fn bit_at(x: u16, e: u32) -> u32 {
    ((x as u32) >> e) & 1u32
}

/// `x` and `y` agree on their `e` lowest bits.
spec fn low_eq(x: u16, y: u16, e: u32) -> bool {
    (x as u32) & !(0xffff_ffffu32 << e) == (y as u32) & !(0xffff_ffffu32 << e)
}

/// `x` and `y` agree on every bit from bit `e` up.
spec fn high_eq(x: u16, y: u16, e: u32) -> bool {
    (x as u32) >> e == (y as u32) >> e
}

/// Whether the subtree `node`, whose children split on bit `depth`, has a
/// leaf at the end of the path that the low `depth + 1` bits of `x` spell.
/// A node at depth `-1` is a leaf.
spec fn reaches(node: Option<Box<Node>>, x: u16, depth: int) -> bool
    decreases node,
{
    match node {
        None => false,
        Some(n) => {
            if depth < 0 {
                true
            } else if bit_at(x, depth as u32) == 0 {
                reaches(n.left, x, depth - 1)
            } else {
                reaches(n.right, x, depth - 1)
            }
        },
    }
}

proof fn lemma_low_step(x: u16, y: u16, e: u32, f: u32)
    requires
        e < 16,
        f == e + 1,
    ensures
        low_eq(x, y, f) <==> (bit_at(x, e) == bit_at(y, e) && low_eq(x, y, e)),
        bit_at(x, e) <= 1,
        bit_at(y, e) <= 1,
{
    assert(((x as u32) >> e) & 1u32 <= 1) by (bit_vector);
    assert(((y as u32) >> e) & 1u32 <= 1) by (bit_vector);
    assert(((x as u32) & !(0xffff_ffffu32 << f) == (y as u32) & !(0xffff_ffffu32 << f)) <==> (
    (((x as u32) >> e) & 1u32 == ((y as u32) >> e) & 1u32) && ((x as u32) & !(0xffff_ffffu32
        << e) == (y as u32) & !(0xffff_ffffu32 << e)))) by (bit_vector)
        requires
            e < 16,
            f == e + 1,
    ;
}

proof fn lemma_low_ends()
    ensures
        forall|x: u16, y: u16| #[trigger] low_eq(x, y, 16u32) <==> x == y,
        forall|x: u16, y: u16| #[trigger] low_eq(x, y, 0u32),
        forall|x: u16| #[trigger] high_eq(x, 0u16, 16u32),
        forall|x: u16, y: u16| #[trigger] high_eq(x, y, 0u32) <==> x == y,
{
    assert forall|x: u16, y: u16| #[trigger] low_eq(x, y, 16u32) <==> x == y by {
        assert(((x as u32) & !(0xffff_ffffu32 << 16u32) == (y as u32) & !(0xffff_ffffu32
            << 16u32)) <==> x == y) by (bit_vector);
    }
    assert forall|x: u16, y: u16| #[trigger] low_eq(x, y, 0u32) by {
        assert((x as u32) & !(0xffff_ffffu32 << 0u32) == (y as u32) & !(0xffff_ffffu32
            << 0u32)) by (bit_vector);
    }
    assert forall|x: u16| #[trigger] high_eq(x, 0u16, 16u32) by {
        assert((x as u32) >> 16u32 == (0u16 as u32) >> 16u32) by (bit_vector);
    }
    assert forall|x: u16, y: u16| #[trigger] high_eq(x, y, 0u32) <==> x == y by {
        assert(((x as u32) >> 0u32 == (y as u32) >> 0u32) <==> x == y) by (bit_vector);
    }
}

/// Splitting a prefix of `v`, whose bits below `f` are clear, on bit `e`.
proof fn lemma_high_step(x: u16, v: u16, e: u32, f: u32)
    requires
        e < 16,
        f == e + 1,
        (v as u32) & !(0xffff_ffffu32 << f) == 0,
    ensures
        high_eq(x, v, e) <==> (high_eq(x, v, f) && bit_at(x, e) == 0),
        high_eq(x, v | (1u16 << (e as u16)), e) <==> (high_eq(x, v, f) && bit_at(x, e) == 1),
        ((v | (1u16 << (e as u16))) as u32) & !(0xffff_ffffu32 << e) == 0,
        (v as u32) & !(0xffff_ffffu32 << e) == 0,
        bit_at(x, e) <= 1,
{
    assert(((x as u32) >> e) & 1u32 <= 1) by (bit_vector);
    assert(((x as u32) >> e == (v as u32) >> e) <==> ((x as u32) >> f == (v as u32) >> f && ((
    x as u32) >> e) & 1u32 == 0)) by (bit_vector)
        requires
            e < 16,
            f == e + 1,
            (v as u32) & !(0xffff_ffffu32 << f) == 0,
    ;
    assert(((x as u32) >> e == ((v | (1u16 << (e as u16))) as u32) >> e) <==> ((x as u32) >> f
        == (v as u32) >> f && ((x as u32) >> e) & 1u32 == 1)) by (bit_vector)
        requires
            e < 16,
            f == e + 1,
            (v as u32) & !(0xffff_ffffu32 << f) == 0,
    ;
    assert(((v | (1u16 << (e as u16))) as u32) & !(0xffff_ffffu32 << e) == 0) by (bit_vector)
        requires
            e < 16,
            f == e + 1,
            (v as u32) & !(0xffff_ffffu32 << f) == 0,
    ;
    assert((v as u32) & !(0xffff_ffffu32 << e) == 0) by (bit_vector)
        requires
            e < 16,
            f == e + 1,
            (v as u32) & !(0xffff_ffffu32 << f) == 0,
    ;
}

/// Everything below the left branch of a prefix comes before everything
/// below its right branch.
proof fn lemma_left_before_right(x: u16, y: u16, v: u16, e: u32, f: u32)
    requires
        e < 16,
        f == e + 1,
        (v as u32) & !(0xffff_ffffu32 << f) == 0,
        high_eq(x, v, e),
        high_eq(y, v | (1u16 << (e as u16)), e),
    ensures
        x < y,
{
    assert(x < y) by (bit_vector)
        requires
            e < 16,
            f == e + 1,
            (v as u32) & !(0xffff_ffffu32 << f) == 0,
            (x as u32) >> e == (v as u32) >> e,
            (y as u32) >> e == ((v | (1u16 << (e as u16))) as u32) >> e,
    ;
}

/// The shape of a trie whose children split on bit `depth`: every leaf
/// sits at depth `-1` and has no child, and every node above the leaves
/// has at least one child, so no branch is left without a leaf.
spec fn trie_ok(node: Option<Box<Node>>, depth: int) -> bool
    decreases node,
{
    match node {
        None => true,
        Some(n) => {
            if depth < 0 {
                n.left is None && n.right is None
            } else {
                &&& (n.left is Some || n.right is Some)
                &&& trie_ok(n.left, depth - 1)
                &&& trie_ok(n.right, depth - 1)
            }
        },
    }
}

/// `x` with bit `e` set to `b`, its lower bits kept.
proof fn lemma_set_bit(x: u16, e: u32, b: u32) -> (y: u16)
    requires
        e < 16,
        b <= 1,
    ensures
        bit_at(y, e) == b,
        low_eq(y, x, e),
{
    if b == 0 {
        let y = x & !(1u16 << (e as u16));
        assert((((x & !(1u16 << (e as u16))) as u32) >> e) & 1u32 == 0) by (bit_vector)
            requires
                e < 16,
        ;
        assert(((x & !(1u16 << (e as u16))) as u32) & !(0xffff_ffffu32 << e) == (x as u32) & !(
        0xffff_ffffu32 << e)) by (bit_vector)
            requires
                e < 16,
        ;
        y
    } else {
        let y = x | (1u16 << (e as u16));
        assert((((x | (1u16 << (e as u16))) as u32) >> e) & 1u32 == 1) by (bit_vector)
            requires
                e < 16,
        ;
        assert(((x | (1u16 << (e as u16))) as u32) & !(0xffff_ffffu32 << e) == (x as u32) & !(
        0xffff_ffffu32 << e)) by (bit_vector)
            requires
                e < 16,
        ;
        y
    }
}

/// Whether a path reaches a leaf depends only on the bits that it reads.
proof fn lemma_reaches_low(node: Option<Box<Node>>, x: u16, y: u16, d: int)
    requires
        -1 <= d <= 15,
        low_eq(x, y, (d + 1) as u32),
    ensures
        reaches(node, x, d) == reaches(node, y, d),
    decreases node,
{
    match node {
        None => {},
        Some(n) => {
            if d >= 0 {
                lemma_low_step(x, y, d as u32, (d + 1) as u32);
                assert((d - 1 + 1) as u32 == d as u32);
                lemma_reaches_low(n.left, x, y, d - 1);
                lemma_reaches_low(n.right, x, y, d - 1);
            }
        },
    }
}

/// A trie of the right shape that has a root reaches some leaf.
proof fn lemma_trie_has_leaf(node: Option<Box<Node>>, d: int) -> (x: u16)
    requires
        -1 <= d <= 15,
        trie_ok(node, d),
        node is Some,
    ensures
        reaches(node, x, d),
    decreases node,
{
    let n = node->0;
    if d < 0 {
        0u16
    } else if n.left is Some {
        let x0 = lemma_trie_has_leaf(n.left, d - 1);
        let y = lemma_set_bit(x0, d as u32, 0);
        assert((d - 1 + 1) as u32 == d as u32);
        lemma_reaches_low(n.left, y, x0, d - 1);
        y
    } else {
        let x0 = lemma_trie_has_leaf(n.right, d - 1);
        let y = lemma_set_bit(x0, d as u32, 1);
        assert((d - 1 + 1) as u32 == d as u32);
        lemma_reaches_low(n.right, y, x0, d - 1);
        y
    }
}

impl BitTreeSet {
    /// Whether the trie has a root node.
    pub closed spec fn has_root(&self) -> bool {
        self.root is Some
    }

    /// Adds the path of `n` below `node`; tells whether its leaf is new.
    fn insert_rec(node: &mut Option<Box<Node>>, n: u16, depth: i8) -> (created: bool)
        requires
            -1 <= depth <= 15,
            trie_ok(*old(node), depth as int),
        ensures
            trie_ok(*final(node), depth as int),
            *final(node) is Some,
            forall|x: u16| #[trigger]
                reaches(*final(node), x, depth as int) == (reaches(*old(node), x, depth as int) || low_eq(
                    x,
                    n,
                    (depth + 1) as u32,
                )),
            created == !reaches(*old(node), n, depth as int),
        decreases depth + 1,
    {
        let was_none = node.is_none();
        if was_none {
            *node = Some(Box::new(Node { left: None, right: None }));
        }
        if depth < 0 {
            proof {
                lemma_low_ends();
            }
            return was_none;
        }
        let mut boxed = node.take().unwrap();
        let ghost orig = *boxed;
        proof {
            if was_none {
                assert(orig.left.is_none() && orig.right.is_none());
            }
            assert forall|x: u16| #[trigger] reaches(Some(Box::new(orig)), x, depth as int) == reaches(
                *old(node),
                x,
                depth as int,
            ) by {
                if was_none {
                    assert(!reaches(orig.left, x, depth - 1));
                    assert(!reaches(orig.right, x, depth - 1));
                }
            }
        }
        let bit = ((n as u32) >> (depth as u32)) & 1u32;
        let created = if bit == 0 {
            Self::insert_rec(&mut boxed.left, n, depth - 1)
        } else {
            Self::insert_rec(&mut boxed.right, n, depth - 1)
        };
        let ghost updated = *boxed;
        *node = Some(boxed);
        proof {
            let e = depth as u32;
            let d = depth as int;
            assert(d as u32 == e);
            assert((d - 1 + 1) as u32 == e);
            assert forall|x: u16| #[trigger]
                reaches(*node, x, depth as int) == (reaches(*old(node), x, depth as int) || low_eq(
                    x,
                    n,
                    (depth + 1) as u32,
                )) by {
                lemma_low_step(x, n, e, (depth + 1) as u32);
                assert(reaches(Some(Box::new(orig)), x, d) == reaches(*old(node), x, d));
                assert(reaches(*node, x, d) == if bit_at(x, e) == 0 {
                    reaches(updated.left, x, d - 1)
                } else {
                    reaches(updated.right, x, d - 1)
                });
                assert(reaches(Some(Box::new(orig)), x, d) == if bit_at(x, e) == 0 {
                    reaches(orig.left, x, d - 1)
                } else {
                    reaches(orig.right, x, d - 1)
                });
                if bit == 0 {
                    assert(reaches(updated.left, x, d - 1) == (reaches(orig.left, x, d - 1)
                        || low_eq(x, n, e)));
                    assert(updated.right == orig.right);
                } else {
                    assert(reaches(updated.right, x, d - 1) == (reaches(orig.right, x, d - 1)
                        || low_eq(x, n, e)));
                    assert(updated.left == orig.left);
                }
            }
            assert(reaches(Some(Box::new(orig)), n, d) == reaches(*old(node), n, d));
            if !was_none {
                assert(*old(node) == Some(Box::new(orig)));
            }
            assert(trie_ok(orig.left, d - 1) && trie_ok(orig.right, d - 1));
            if bit == 0 {
                assert(updated.right == orig.right && updated.left is Some);
            } else {
                assert(updated.left == orig.left && updated.right is Some);
            }
            assert(trie_ok(*node, d));
        }
        created
    }

    /// Takes the leaf of `n` out of `node`, with the nodes left without a
    /// child; tells whether the leaf was there.
    fn remove_rec(node: &mut Option<Box<Node>>, n: u16, depth: i8) -> (removed: bool)
        requires
            -1 <= depth <= 15,
            trie_ok(*old(node), depth as int),
        ensures
            trie_ok(*final(node), depth as int),
            !removed ==> *final(node) == *old(node),
            forall|x: u16| #[trigger]
                reaches(*final(node), x, depth as int) == (reaches(*old(node), x, depth as int) && !low_eq(
                    x,
                    n,
                    (depth + 1) as u32,
                )),
            removed == reaches(*old(node), n, depth as int),
        decreases depth + 1,
    {
        if node.is_none() {
            return false;
        }
        if depth < 0 {
            *node = None;
            proof {
                lemma_low_ends();
            }
            return true;
        }
        let mut boxed = node.take().unwrap();
        let ghost orig = *boxed;
        let bit = ((n as u32) >> (depth as u32)) & 1u32;
        let removed = if bit == 0 {
            Self::remove_rec(&mut boxed.left, n, depth - 1)
        } else {
            Self::remove_rec(&mut boxed.right, n, depth - 1)
        };
        let ghost kept = *boxed;
        if removed && boxed.left.is_none() && boxed.right.is_none() {
            *node = None;
        } else {
            *node = Some(boxed);
        }
        proof {
            let e = depth as u32;
            let d = depth as int;
            assert(d as u32 == e);
            assert((d - 1 + 1) as u32 == e);
            assert(*old(node) == Some(Box::new(orig)));
            assert forall|x: u16| #[trigger]
                reaches(*node, x, depth as int) == (reaches(*old(node), x, depth as int) && !low_eq(
                    x,
                    n,
                    (depth + 1) as u32,
                )) by {
                lemma_low_step(x, n, e, (depth + 1) as u32);
                assert(reaches(Some(Box::new(kept)), x, d) == if bit_at(x, e) == 0 {
                    reaches(kept.left, x, d - 1)
                } else {
                    reaches(kept.right, x, d - 1)
                });
                assert(reaches(Some(Box::new(orig)), x, d) == if bit_at(x, e) == 0 {
                    reaches(orig.left, x, d - 1)
                } else {
                    reaches(orig.right, x, d - 1)
                });
                if bit == 0 {
                    assert(reaches(kept.left, x, d - 1) == (reaches(orig.left, x, d - 1)
                        && !low_eq(x, n, e)));
                    assert(kept.right == orig.right);
                } else {
                    assert(reaches(kept.right, x, d - 1) == (reaches(orig.right, x, d - 1)
                        && !low_eq(x, n, e)));
                    assert(kept.left == orig.left);
                }
                if node.is_none() {
                    assert(!reaches(kept.left, x, d - 1));
                    assert(!reaches(kept.right, x, d - 1));
                } else {
                    assert(*node == Some(Box::new(kept)));
                }
            }
            assert(reaches(Some(Box::new(orig)), n, d) == if bit_at(n, e) == 0 {
                reaches(orig.left, n, d - 1)
            } else {
                reaches(orig.right, n, d - 1)
            });
        }
        removed
    }

    /// Appends, in increasing order, the elements below `node` whose bits
    /// from `depth + 1` up are those of `val`.
    fn dfs(node: &Option<Box<Node>>, val: u16, depth: i8, elems: &mut Vec<u16>)
        requires
            -1 <= depth <= 15,
            (val as u32) & !(0xffff_ffffu32 << ((depth + 1) as u32)) == 0,
        ensures
            final(elems)@.len() >= old(elems)@.len(),
            final(elems)@.take(old(elems)@.len() as int) == old(elems)@,
            forall|x: u16| #[trigger]
                final(elems)@.skip(old(elems)@.len() as int).to_set().contains(x) == (high_eq(
                    x,
                    val,
                    (depth + 1) as u32,
                ) && reaches(*node, x, depth as int)),
            forall|k: int|
                old(elems)@.len() <= k < final(elems)@.len() ==> high_eq(
                    #[trigger] final(elems)@[k],
                    val,
                    (depth + 1) as u32,
                ),
            forall|a: int, b: int|
                old(elems)@.len() <= a < b < final(elems)@.len() ==> final(elems)@[a]
                    < final(elems)@[b],
        decreases depth + 1,
    {
        let ghost start = elems@;
        let ghost l = start.len() as int;
        match node {
            None => {
                assert(elems@.skip(l) =~= Seq::<u16>::empty());
                assert(elems@.take(l) =~= start);
            },
            Some(nd) => {
                if depth < 0 {
                    elems.push(val);
                    proof {
                        lemma_low_ends();
                        assert(elems@.skip(l) =~= seq![val]);
                        assert(elems@.take(l) =~= start);
                        assert forall|x: u16| #[trigger]
                            elems@.skip(l).to_set().contains(x) == (high_eq(x, val, 0u32) && reaches(
                                *node,
                                x,
                                depth as int,
                            )) by {
                            if x == val {
                                assert(elems@.skip(l)[0] == x);
                            }
                        }
                    }
                } else {
                    let ghost e = depth as u32;
                    let ghost f = (depth + 1) as u32;
                    let rval = val | (1u16 << (depth as u16));
                    proof {
                        lemma_high_step(val, val, e, f);
                    }
                    Self::dfs(&nd.left, val, depth - 1, elems);
                    let ghost mid = elems@;
                    Self::dfs(&nd.right, rval, depth - 1, elems);
                    proof {
                        let m = mid.len() as int;
                        let fin = elems@;
                        assert forall|k: int| 0 <= k < m implies #[trigger] fin[k] == mid[k] by {
                            assert(fin.take(m)[k] == fin[k]);
                        }
                        assert forall|k: int| 0 <= k < l implies #[trigger] mid[k] == start[k] by {
                            assert(mid.take(l)[k] == mid[k]);
                        }
                        assert(fin.take(l) =~= start);
                        let left_part = mid.skip(l);
                        let right_part = fin.skip(m);
                        assert(fin.skip(l) =~= left_part + right_part);
                        let d = depth as int;
                        assert(d as u32 == e);
                        assert((d - 1 + 1) as u32 == e);
                        assert(rval == val | (1u16 << (e as u16)));
                        assert forall|x: u16| #[trigger]
                            fin.skip(l).to_set().contains(x) == (high_eq(x, val, f) && reaches(
                                *node,
                                x,
                                depth as int,
                            )) by {
                            lemma_high_step(x, val, e, f);
                            assert(reaches(*node, x, d) == if bit_at(x, e) == 0 {
                                reaches(nd.left, x, d - 1)
                            } else {
                                reaches(nd.right, x, d - 1)
                            });
                            assert(left_part.to_set().contains(x) == (high_eq(x, val, e)
                                && reaches(nd.left, x, d - 1)));
                            assert(right_part.to_set().contains(x) == (high_eq(x, rval, e)
                                && reaches(nd.right, x, d - 1)));
                            let all = fin.skip(l);
                            if all.to_set().contains(x) {
                                let k = choose|k: int| 0 <= k < all.len() && all[k] == x;
                                if k < left_part.len() {
                                    assert(left_part[k] == x);
                                    assert(left_part.to_set().contains(x));
                                } else {
                                    assert(right_part[k - left_part.len()] == x);
                                    assert(right_part.to_set().contains(x));
                                }
                            }
                            if left_part.to_set().contains(x) {
                                let k = choose|k: int|
                                    0 <= k < left_part.len() && left_part[k] == x;
                                assert(all[k] == x);
                            }
                            if right_part.to_set().contains(x) {
                                let k = choose|k: int|
                                    0 <= k < right_part.len() && right_part[k] == x;
                                assert(all[k + left_part.len()] == x);
                            }
                        }
                        assert forall|k: int| l <= k < fin.len() implies high_eq(
                            #[trigger] fin[k],
                            val,
                            f,
                        ) by {
                            lemma_high_step(fin[k], val, e, f);
                            if k < m {
                                assert(fin[k] == mid[k]);
                            }
                        }
                        assert forall|a: int, b: int| l <= a < b < fin.len() implies fin[a]
                            < fin[b] by {
                            if a < m && b >= m {
                                assert(fin[a] == mid[a]);
                                assert(high_eq(mid[a], val, e));
                                assert(high_eq(fin[b], rval, e));
                                lemma_left_before_right(fin[a], fin[b], val, e, f);
                            } else if b < m {
                                assert(fin[a] == mid[a] && fin[b] == mid[b]);
                            }
                        }
                    }
                }
            },
        }
    }
}

impl SetInt for BitTreeSet {
    closed spec fn view(&self) -> Set<u16> {
        Set::new(|x: u16| reaches(self.root, x, 15))
    }

    closed spec fn wf(&self) -> bool {
        &&& self.len == self@.len()
        &&& trie_ok(self.root, 15)
    }

    fn clear(&mut self) {
        self.root = None;
        self.len = 0;
        assert(self@ =~= Set::<u16>::empty());
    }

    fn insert(&mut self, n: u16) {
        proof {
            lemma_u16_set_finite(self@);
            lemma_u16_set_len_bound(self@.insert(n));
            lemma_low_ends();
        }
        let created = Self::insert_rec(&mut self.root, n, 15);
        assert(self@ =~= old(self)@.insert(n));
        if created {
            self.len = self.len + 1;
        }
    }

    fn remove(&mut self, n: u16) -> (was_present: bool)
        ensures
            final(self).has_root() <==> final(self)@ != Set::<u16>::empty(),
    {
        proof {
            lemma_u16_set_finite(self@);
            lemma_low_ends();
        }
        let removed = Self::remove_rec(&mut self.root, n, 15);
        assert(self@ =~= old(self)@.remove(n));
        if removed {
            self.len = self.len - 1;
        }
        proof {
            law_root_only_when_nonempty(self);
        }
        removed
    }

    fn contains(&self, n: u16) -> (present: bool) {
        let mut curr: &Option<Box<Node>> = &self.root;
        let mut i: i8 = 15;
        while i >= 0
            invariant
                -1 <= i <= 15,
                reaches(self.root, n, 15) == reaches(*curr, n, i as int),
            decreases i + 1,
        {
            match curr {
                Some(node) => {
                    let bit = ((n as u32) >> (i as u32)) & 1u32;
                    curr = if bit == 0 {
                        &node.left
                    } else {
                        &node.right
                    };
                },
                None => {
                    return false;
                },
            }
            i = i - 1;
        }
        curr.is_some()
    }

    fn len(&self) -> (count: usize) {
        self.len
    }

    fn iter(&self) -> (elems: Vec<u16>)
        ensures
            increasing(elems@),
    {
        let mut elems: Vec<u16> = Vec::with_capacity(self.len);
        assert((0u16 as u32) & !(0xffff_ffffu32 << 16u32) == 0) by (bit_vector);
        Self::dfs(&self.root, 0, 15, &mut elems);
        proof {
            lemma_low_ends();
            assert(elems@.skip(0) =~= elems@);
            assert(elems@.to_set() =~= self@);
            lemma_increasing_no_dup(elems@);
        }
        elems
    }

    fn union_with(&mut self, other: &Self) {
        let items = other.iter();
        let mut i: usize = 0;
        while i < items.len()
            invariant
                self.wf(),
                i <= items@.len(),
                self@ == old(self)@.union(items@.take(i as int).to_set()),
            decreases items@.len() - i,
        {
            let v = items[i];
            self.insert(v);
            proof {
                assert(items@.take(i + 1) =~= items@.take(i as int).push(v));
                lemma_push_to_set(items@.take(i as int), v);
            }
            i = i + 1;
            assert(self@ =~= old(self)@.union(items@.take(i as int).to_set()));
        }
        assert(items@.take(items@.len() as int) =~= items@);
    }

    fn intersection_with(&mut self, other: &Self) {
        let items = self.iter();
        let mut to_remove: Vec<u16> = Vec::new();
        let mut i: usize = 0;
        while i < items.len()
            invariant
                self.wf(),
                other.wf(),
                *self == *old(self),
                i <= items@.len(),
                to_remove@.to_set() == items@.take(i as int).to_set().difference(other@),
            decreases items@.len() - i,
        {
            let v = items[i];
            let ghost before = to_remove@;
            if !other.contains(v) {
                to_remove.push(v);
                proof {
                    lemma_push_to_set(before, v);
                }
            }
            proof {
                assert(items@.take(i + 1) =~= items@.take(i as int).push(v));
                lemma_push_to_set(items@.take(i as int), v);
            }
            i = i + 1;
            assert(to_remove@.to_set() =~= items@.take(i as int).to_set().difference(other@));
        }
        assert(items@.take(items@.len() as int) =~= items@);
        let mut j: usize = 0;
        while j < to_remove.len()
            invariant
                self.wf(),
                j <= to_remove@.len(),
                self@ == old(self)@.difference(to_remove@.take(j as int).to_set()),
            decreases to_remove@.len() - j,
        {
            let v = to_remove[j];
            self.remove(v);
            proof {
                assert(to_remove@.take(j + 1) =~= to_remove@.take(j as int).push(v));
                lemma_push_to_set(to_remove@.take(j as int), v);
            }
            j = j + 1;
            assert(self@ =~= old(self)@.difference(to_remove@.take(j as int).to_set()));
        }
        assert(to_remove@.take(to_remove@.len() as int) =~= to_remove@);
        assert(self@ =~= old(self)@.intersect(other@));
    }

    fn difference_with(&mut self, other: &Self) {
        let items = other.iter();
        let mut i: usize = 0;
        while i < items.len()
            invariant
                self.wf(),
                i <= items@.len(),
                self@ == old(self)@.difference(items@.take(i as int).to_set()),
            decreases items@.len() - i,
        {
            let v = items[i];
            self.remove(v);
            proof {
                assert(items@.take(i + 1) =~= items@.take(i as int).push(v));
                lemma_push_to_set(items@.take(i as int), v);
            }
            i = i + 1;
            assert(self@ =~= old(self)@.difference(items@.take(i as int).to_set()));
        }
        assert(items@.take(items@.len() as int) =~= items@);
    }

    fn symmetric_difference_with(&mut self, other: &Self) {
        let items = other.iter();
        let mut j: usize = 0;
        while j < items.len()
            invariant
                self.wf(),
                items@.no_duplicates(),
                j <= items@.len(),
                self@ == sym_diff(old(self)@, items@.take(j as int).to_set()),
            decreases items@.len() - j,
        {
            let v = items[j];
            proof {
                assert(items@.take(j + 1) =~= items@.take(j as int).push(v));
                lemma_push_to_set(items@.take(j as int), v);
                assert(!items@.take(j as int).to_set().contains(v)) by {
                    if items@.take(j as int).to_set().contains(v) {
                        let k = choose|k: int| 0 <= k < j && items@.take(j as int)[k] == v;
                        assert(items@[k] == items@[j as int]);
                    }
                }
            }
            if self.contains(v) {
                self.remove(v);
            } else {
                self.insert(v);
            }
            j = j + 1;
            assert(self@ =~= sym_diff(old(self)@, items@.take(j as int).to_set()));
        }
        assert(items@.take(items@.len() as int) =~= items@);
    }
}

/// The trie keeps no branch without a leaf: it has a root exactly when the
/// set holds an element, so removing the last element drops the root.
pub proof fn law_root_only_when_nonempty(s: &BitTreeSet)
    requires
        s.wf(),
    ensures
        s.has_root() <==> s@ != Set::<u16>::empty(),
{
    if s.root is Some {
        let x = lemma_trie_has_leaf(s.root, 15);
        assert(s@.contains(x));
    } else {
        assert(s@ =~= Set::<u16>::empty());
    }
}

impl SetIntConstruct for BitTreeSet {
    fn new() -> (s: Self) {
        let s = BitTreeSet { root: None, len: 0 };
        assert(s@ =~= Set::<u16>::empty());
        s
    }

    fn with_capacity(_capacity: usize) -> (s: Self) {
        Self::new()
    }
}

} // verus!
