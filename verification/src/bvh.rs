//! The bounding-volume hierarchy, as structure: a binary tree over the
//! primitives of a scene, built by recursive median splits of the
//! primitive list after sorting it along a randomly chosen axis.
//!
//! The geometric contents of the bounding boxes are floating-point and
//! stay with the renderer around this library; each primitive is
//! represented here by one integer sort key per axis, chosen by the
//! caller so that its order agrees with the order of the primitives'
//! minimum bounds. What is proved is the property traversal depends on:
//! the tree is well formed (children stand strictly before their parent,
//! so every walk down the tree terminates) and its leaves carry every
//! primitive of the scene exactly once, so a hit found by walking the
//! tree is searched for among all primitives, and none is offered twice.

use vstd::prelude::*;
use vstd::seq_lib::group_to_multiset_ensures;
use vstd::seq_lib::lemma_multiset_commutative;
use vstd::multiset::group_multiset_axioms;

use crate::rng::rand_below;
use crate::util::swap_elems;

verus! {

/// One primitive's sort keys: for each axis an integer whose order
/// matches the order of the primitive's minimum bound on that axis.
#[derive(Clone, Copy, PartialEq, Eq, Structural, Debug)]
pub struct PrimKey {
    pub x: u32,
    pub y: u32,
    pub z: u32,
}

/// A node of the flattened tree: children are indices into the same node
/// array and always stand strictly before their parent.
#[derive(Clone, Copy, PartialEq, Eq, Structural, Debug)]
pub enum BvhNode {
    Leaf { item: usize },
    Branch { axis: u8, left: usize, right: usize },
}

/// Well-formedness of one node: a leaf names an existing primitive, a
/// branch points strictly backwards in the arena.
pub open spec fn node_wf(nodes: Seq<BvhNode>, k: int, n_items: int) -> bool {
    match nodes[k] {
        BvhNode::Leaf { item } => (item as int) < n_items,
        BvhNode::Branch { axis, left, right } => (left as int) < k && (right as int) < k && axis
            < 3,
    }
}

pub open spec fn arena_wf(nodes: Seq<BvhNode>, n_items: int) -> bool {
    forall|k: int| 0 <= k < nodes.len() ==> #[trigger] node_wf(nodes, k, n_items)
}

/// The primitives at the leaves of the subtree rooted at `k`, left to
/// right.
pub open spec fn subtree_leaves(nodes: Seq<BvhNode>, k: int) -> Seq<usize>
    decreases k,
{
    if 0 <= k < nodes.len() {
        match nodes[k] {
            BvhNode::Leaf { item } => seq![item],
            BvhNode::Branch { axis: _, left, right } => if (left as int) < k && (right as int)
                < k {
                subtree_leaves(nodes, left as int) + subtree_leaves(nodes, right as int)
            } else {
                Seq::empty()
            },
        }
    } else {
        Seq::empty()
    }
}

/// A subtree's leaves only depend on the arena up to its root, so
/// appending nodes never changes them.
proof fn lemma_subtree_leaves_prefix(nodes1: Seq<BvhNode>, nodes2: Seq<BvhNode>, k: int)
    requires
        nodes1.len() <= nodes2.len(),
        nodes2.subrange(0, nodes1.len() as int) == nodes1,
        0 <= k < nodes1.len(),
    ensures
        subtree_leaves(nodes2, k) == subtree_leaves(nodes1, k),
    decreases k,
{
    assert(nodes2.subrange(0, nodes1.len() as int)[k] == nodes2[k]);
    assert(nodes1[k] == nodes2[k]);
    match nodes1[k] {
        BvhNode::Leaf { item } => {},
        BvhNode::Branch { axis: _, left, right } => {
            if (left as int) < k && (right as int) < k {
                lemma_subtree_leaves_prefix(nodes1, nodes2, left as int);
                lemma_subtree_leaves_prefix(nodes1, nodes2, right as int);
            }
        },
    }
}

/// The sort key of primitive `id` on the given axis.
pub open spec fn axis_key(keys: Seq<PrimKey>, id: usize, axis: u8) -> u32 {
    if axis == 0 {
        keys[id as int].x
    } else if axis == 1 {
        keys[id as int].y
    } else {
        keys[id as int].z
    }
}

/// The ids stand in order of their keys on the given axis.
pub open spec fn sorted_on(keys: Seq<PrimKey>, ids: Seq<usize>, axis: u8) -> bool {
    forall|a: int, b: int|
        0 <= a < b < ids.len() ==> axis_key(keys, ids[a], axis) <= axis_key(keys, ids[b], axis)
}

/// At a branch, every leaf of the left subtree sits at or below every
/// leaf of the right subtree on the branch's split axis: the median
/// split of the sorted slice, remembered by the tree.
pub open spec fn branch_partitioned(nodes: Seq<BvhNode>, keys: Seq<PrimKey>, k: int) -> bool {
    match nodes[k] {
        BvhNode::Leaf { item } => true,
        BvhNode::Branch { axis, left, right } => ((left as int) < k && (right as int) < k) ==> ({
            let ll = subtree_leaves(nodes, left as int);
            let rl = subtree_leaves(nodes, right as int);
            forall|a: int, b: int|
                0 <= a < ll.len() && 0 <= b < rl.len() ==> axis_key(keys, ll[a], axis) <= axis_key(
                    keys,
                    rl[b],
                    axis,
                )
        }),
    }
}

pub open spec fn tree_partitioned(nodes: Seq<BvhNode>, keys: Seq<PrimKey>) -> bool {
    forall|k: int| 0 <= k < nodes.len() ==> #[trigger] branch_partitioned(nodes, keys, k)
}

fn key_of(keys: &Vec<PrimKey>, id: usize, axis: u8) -> (r: u32)
    requires
        id < keys@.len(),
    ensures
        r == axis_key(keys@, id, axis),
{
    let k = keys[id];
    if axis == 0 {
        k.x
    } else if axis == 1 {
        k.y
    } else {
        k.z
    }
}

/// Insertion sort of the id list by the chosen axis; construction sorts
/// each slice this way before splitting it at the median.
fn sort_ids(keys: &Vec<PrimKey>, ids: &mut Vec<usize>, axis: u8)
    requires
        forall|k: int| 0 <= k < old(ids)@.len() ==> old(ids)@[k] < keys@.len(),
    ensures
        final(ids)@.len() == old(ids)@.len(),
        final(ids)@.to_multiset() == old(ids)@.to_multiset(),
        forall|k: int| 0 <= k < final(ids)@.len() ==> final(ids)@[k] < keys@.len(),
        sorted_on(keys@, final(ids)@, axis),
{
    let n = ids.len();
    if n < 2 {
        return ;
    }
    let mut i: usize = 1;
    while i < n
        invariant
            1 <= i <= n,
            n == ids@.len(),
            ids@.to_multiset() == old(ids)@.to_multiset(),
            forall|k: int| 0 <= k < n ==> ids@[k] < keys@.len(),
            forall|a: int, b: int|
                0 <= a < b < i ==> axis_key(keys@, ids@[a], axis) <= axis_key(keys@, ids@[b], axis),
        decreases n - i,
    {
        let mut j: usize = i;
        while j > 0 && key_of(keys, ids[j - 1], axis) > key_of(keys, ids[j], axis)
            invariant
                j <= i < n,
                n == ids@.len(),
                ids@.to_multiset() == old(ids)@.to_multiset(),
                forall|k: int| 0 <= k < n ==> ids@[k] < keys@.len(),
                forall|a: int, b: int|
                    0 <= a < b <= i && a != j && b != j ==> axis_key(keys@, ids@[a], axis)
                        <= axis_key(keys@, ids@[b], axis),
                forall|b: int|
                    j < b <= i ==> axis_key(keys@, ids@[j as int], axis) <= axis_key(
                        keys@,
                        ids@[b],
                        axis,
                    ),
            decreases j,
        {
            swap_elems(ids, j - 1, j);
            j = j - 1;
        }
        i = i + 1;
    }
}

/// Builds the subtree over `ids`, appending its nodes to the arena and
/// returning the subtree's root, which is the last node appended.
fn build_rec(keys: &Vec<PrimKey>, ids: Vec<usize>, nodes: &mut Vec<BvhNode>) -> (root: usize)
    requires
        1 <= ids@.len(),
        forall|k: int| 0 <= k < ids@.len() ==> ids@[k] < keys@.len(),
        arena_wf(old(nodes)@, keys@.len() as int),
        tree_partitioned(old(nodes)@, keys@),
    ensures
        arena_wf(final(nodes)@, keys@.len() as int),
        tree_partitioned(final(nodes)@, keys@),
        final(nodes)@.len() == old(nodes)@.len() + 2 * ids@.len() - 1,
        final(nodes)@.subrange(0, old(nodes)@.len() as int) == old(nodes)@,
        root == final(nodes)@.len() - 1,
        subtree_leaves(final(nodes)@, root as int).to_multiset() == ids@.to_multiset(),
    decreases ids@.len(),
{
    let n = ids.len();
    if n == 1 {
        let item = ids[0];
        nodes.push(BvhNode::Leaf { item });
        let root = nodes.len() - 1;
        proof {
            broadcast use group_to_multiset_ensures;
            broadcast use group_multiset_axioms;

            assert(nodes@.subrange(0, old(nodes)@.len() as int) =~= old(nodes)@);
            assert forall|k: int| 0 <= k < nodes@.len() implies #[trigger] node_wf(
                nodes@,
                k,
                keys@.len() as int,
            ) by {
                if k < old(nodes)@.len() {
                    assert(node_wf(old(nodes)@, k, keys@.len() as int));
                    assert(nodes@[k] == old(nodes)@[k]);
                } else {
                    assert(nodes@[k] == (BvhNode::Leaf { item }));
                }
            }
            assert forall|k: int| 0 <= k < nodes@.len() implies #[trigger] branch_partitioned(
                nodes@,
                keys@,
                k,
            ) by {
                if k < old(nodes)@.len() {
                    assert(branch_partitioned(old(nodes)@, keys@, k));
                    assert(nodes@[k] == old(nodes)@[k]);
                    match old(nodes)@[k] {
                        BvhNode::Leaf { .. } => {},
                        BvhNode::Branch { axis: _, left, right } => {
                            if (left as int) < k && (right as int) < k {
                                lemma_subtree_leaves_prefix(old(nodes)@, nodes@, left as int);
                                lemma_subtree_leaves_prefix(old(nodes)@, nodes@, right as int);
                            }
                        },
                    }
                } else {
                    assert(nodes@[k] == (BvhNode::Leaf { item }));
                }
            }
            assert(subtree_leaves(nodes@, root as int) =~= seq![item]);
            assert(ids@ =~= seq![item]);
        }
        root
    } else {
        let axis = rand_below(3) as u8;
        let mut ids = ids;
        sort_ids(keys, &mut ids, axis);
        let ghost sorted = ids@;
        let mid = n / 2;
        let right = ids.split_off(mid);
        let ghost base_len = nodes@.len();
        let left_root = build_rec(keys, ids, nodes);
        let ghost after_left = nodes@;
        let right_root = build_rec(keys, right, nodes);
        let ghost after_right = nodes@;
        nodes.push(BvhNode::Branch { axis, left: left_root, right: right_root });
        let root = nodes.len() - 1;
        proof {
            broadcast use group_to_multiset_ensures;
            broadcast use group_multiset_axioms;

            assert(nodes@.subrange(0, base_len as int) =~= old(nodes)@);
            assert forall|k: int| 0 <= k < nodes@.len() implies #[trigger] node_wf(
                nodes@,
                k,
                keys@.len() as int,
            ) by {
                if k < after_right.len() {
                    assert(node_wf(after_right, k, keys@.len() as int));
                    assert(nodes@[k] == after_right[k]);
                } else {
                    assert(nodes@[k] == (BvhNode::Branch {
                        axis,
                        left: left_root,
                        right: right_root,
                    }));
                }
            }
            assert(nodes@.subrange(0, after_left.len() as int) =~= after_left);
            assert(nodes@.subrange(0, after_right.len() as int) =~= after_right);
            lemma_subtree_leaves_prefix(after_left, nodes@, left_root as int);
            lemma_subtree_leaves_prefix(after_right, nodes@, right_root as int);
            assert(subtree_leaves(nodes@, root as int) == subtree_leaves(nodes@, left_root as int)
                + subtree_leaves(nodes@, right_root as int));
            lemma_multiset_commutative(
                subtree_leaves(nodes@, left_root as int),
                subtree_leaves(nodes@, right_root as int),
            );
            lemma_multiset_commutative(
                sorted.subrange(0, mid as int),
                sorted.subrange(mid as int, n as int),
            );
            assert(sorted.subrange(0, mid as int) + sorted.subrange(mid as int, n as int)
                =~= sorted);
            assert forall|k: int| 0 <= k < nodes@.len() implies #[trigger] branch_partitioned(
                nodes@,
                keys@,
                k,
            ) by {
                if k < after_right.len() {
                    assert(branch_partitioned(after_right, keys@, k));
                    assert(nodes@[k] == after_right[k]);
                    match after_right[k] {
                        BvhNode::Leaf { .. } => {},
                        BvhNode::Branch { axis: _, left, right } => {
                            if (left as int) < k && (right as int) < k {
                                lemma_subtree_leaves_prefix(after_right, nodes@, left as int);
                                lemma_subtree_leaves_prefix(after_right, nodes@, right as int);
                            }
                        },
                    }
                } else {
                    let ll = subtree_leaves(nodes@, left_root as int);
                    let rl = subtree_leaves(nodes@, right_root as int);
                    let lhalf = sorted.subrange(0, mid as int);
                    let rhalf = sorted.subrange(mid as int, n as int);
                    assert(ll.to_multiset() == lhalf.to_multiset());
                    assert(rl.to_multiset() == rhalf.to_multiset());
                    assert forall|a: int, b: int|
                        0 <= a < ll.len() && 0 <= b < rl.len() implies axis_key(keys@, ll[a], axis)
                        <= axis_key(keys@, rl[b], axis) by {
                        assert(ll.contains(ll[a]));
                        assert(ll.to_multiset().count(ll[a]) > 0);
                        assert(lhalf.contains(ll[a]));
                        let i = choose|i: int| 0 <= i < lhalf.len() && lhalf[i] == ll[a];
                        assert(sorted[i] == ll[a]);
                        assert(rl.contains(rl[b]));
                        assert(rl.to_multiset().count(rl[b]) > 0);
                        assert(rhalf.contains(rl[b]));
                        let j = choose|j: int| 0 <= j < rhalf.len() && rhalf[j] == rl[b];
                        assert(sorted[mid + j] == rl[b]);
                        assert(axis_key(keys@, sorted[i], axis) <= axis_key(
                            keys@,
                            sorted[mid + j],
                            axis,
                        ));
                    }
                    assert(nodes@[k] == (BvhNode::Branch {
                        axis,
                        left: left_root,
                        right: right_root,
                    }));
                }
            }
        }
        root
    }
}

/// The bounding-volume hierarchy over a scene's primitives, flattened
/// into an arena of nodes with the root last.
pub struct BvhTree {
    nodes: Vec<BvhNode>,
    root: usize,
    n_items: usize,
}

impl BvhTree {
    pub closed spec fn spec_nodes(&self) -> Seq<BvhNode> {
        self.nodes@
    }

    pub closed spec fn spec_root(&self) -> int {
        self.root as int
    }

    /// How many primitives the tree was built over.
    pub closed spec fn spec_n_items(&self) -> usize {
        self.n_items
    }

    pub open spec fn wf(&self) -> bool {
        arena_wf(self.spec_nodes(), self.spec_n_items() as int) && 1 <= self.spec_nodes().len()
            && self.spec_root() == self.spec_nodes().len() - 1
    }

    /// The primitives at the leaves, left to right.
    pub open spec fn leaf_ids(&self) -> Seq<usize> {
        subtree_leaves(self.spec_nodes(), self.spec_root())
    }

    /// Builds the hierarchy over primitives `0 .. keys.len()`. The tree
    /// exists exactly when the scene is non-empty, and its leaves then
    /// carry every primitive exactly once.
    pub fn new(keys: &Vec<PrimKey>) -> (r: Option<BvhTree>)
        ensures
            (r is Some) <==> 1 <= keys@.len(),
            match r {
                Some(t) => {
                    &&& t.wf()
                    &&& t.spec_n_items() == keys@.len()
                    &&& t.spec_nodes().len() == 2 * keys@.len() - 1
                    &&& t.leaf_ids().len() == keys@.len()
                    &&& forall|p: usize|
                        p < keys@.len() ==> #[trigger] t.leaf_ids().to_multiset().count(p) == 1
                    &&& forall|k: int|
                        0 <= k < t.leaf_ids().len() ==> #[trigger] t.leaf_ids()[k] < keys@.len()
                    &&& tree_partitioned(t.spec_nodes(), keys@)
                },
                None => keys@.len() == 0,
            },
    {
        let n = keys.len();
        if n == 0 {
            return None;
        }
        let mut ids: Vec<usize> = Vec::new();
        let mut k: usize = 0;
        while k < n
            invariant
                k <= n,
                ids@.len() == k,
                forall|q: int| 0 <= q < k ==> ids@[q] == q,
            decreases n - k,
        {
            ids.push(k);
            k = k + 1;
        }
        let ghost ids0 = ids@;
        let mut nodes: Vec<BvhNode> = Vec::new();
        let root = build_rec(keys, ids, &mut nodes);
        let t = BvhTree { nodes, root, n_items: n };
        proof {
            broadcast use group_to_multiset_ensures;
            broadcast use group_multiset_axioms;

            let leaves = t.leaf_ids();
            assert(leaves.to_multiset() == ids0.to_multiset());
            assert(leaves.len() == leaves.to_multiset().len());
            assert(ids0.len() == ids0.to_multiset().len());
            assert(ids0.no_duplicates());
            ids0.lemma_multiset_has_no_duplicates();
            assert forall|p: usize| p < keys@.len() implies #[trigger] leaves.to_multiset().count(
                p,
            ) == 1 by {
                assert(ids0[p as int] == p);
                assert(ids0.contains(p));
                assert(ids0.to_multiset().count(p) > 0);
            }
            assert forall|k2: int| 0 <= k2 < leaves.len() implies #[trigger] leaves[k2]
                < keys@.len() by {
                assert(leaves.contains(leaves[k2]));
                assert(leaves.to_multiset().count(leaves[k2]) > 0);
                assert(ids0.to_multiset().count(leaves[k2]) > 0);
                assert(ids0.contains(leaves[k2]));
            }
        }
        Some(t)
    }

    pub fn root(&self) -> (r: usize)
        ensures
            r == self.spec_root(),
    {
        self.root
    }

    pub fn node_count(&self) -> (r: usize)
        ensures
            r == self.spec_nodes().len(),
    {
        self.nodes.len()
    }

    pub fn item_count(&self) -> (r: usize)
        ensures
            r == self.spec_n_items(),
    {
        self.n_items
    }

    /// Reads one node; a branch's children stand strictly before it, a
    /// leaf names an existing primitive.
    pub fn node(&self, k: usize) -> (nd: BvhNode)
        requires
            self.wf(),
            k < self.spec_nodes().len(),
        ensures
            nd == self.spec_nodes()[k as int],
            match nd {
                BvhNode::Leaf { item } => item < self.spec_n_items(),
                BvhNode::Branch { axis, left, right } => left < k && right < k && axis < 3,
            },
    {
        proof {
            assert(node_wf(self.spec_nodes(), k as int, self.spec_n_items() as int));
        }
        self.nodes[k]
    }
}

} // verus!
