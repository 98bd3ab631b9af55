//! The bounding-volume hierarchy: a binary tree of boxes over the objects of
//! a scene, kept in one flat, append-only list of nodes.
//!
//! The leaves come first, one per object. Building appends the inner nodes,
//! each after both of its children, so that the node appended last is the
//! root and every child has a smaller index than its parent.

use rand::Rng;
use vstd::prelude::*;
use crate::aabb::{lemma_encloses_transitive, lemma_union_contains, surrounding_box, AABB};

verus! {

/// A node of the hierarchy.
///
/// A leaf names an object of the scene and holds that object's box; it has no
/// children. An inner node has two children, given by their indices in the
/// list, and holds the union of their boxes; it names no object.
#[derive(Clone, Copy, Debug, PartialEq, Eq, Structural)]
pub struct BVHNode {
    pub aabb: AABB,
    pub entity: Option<u32>,
    pub left: Option<usize>,
    pub right: Option<usize>,
}

/// The hierarchy: its nodes, the root last.
#[derive(Debug)]
pub struct BVHTree {
    pub nodes: Vec<BVHNode>,
}

impl BVHNode {
    /// The node has no children.
    pub open spec fn is_leaf(self) -> bool {
        self.left is None && self.right is None
    }

    /// The node's rank along an axis: that of its box's least corner.
    pub open spec fn key(self, axis: int) -> int {
        self.aabb.min.coord(axis).rank()
    }

    /// A leaf for the given object, or with `None` a node that names none.
    pub fn new(aabb: AABB, entity: Option<u32>) -> (node: BVHNode)
        ensures
            node.aabb == aabb,
            node.entity == entity,
            node.is_leaf(),
    {
        BVHNode { aabb, entity, left: None, right: None }
    }
}

impl Default for BVHNode {
    /// A childless node that names no object, its box the origin.
    fn default() -> (node: BVHNode)
        ensures
            node.is_leaf(),
            node.entity is None,
            node.aabb.min == node.aabb.max,
            node.aabb.is_valid(),
    {
        BVHNode { aabb: AABB::default(), entity: None, left: None, right: None }
    }
}

/// A leaf for the given object.
pub fn bvh_node(aabb: AABB, entity: Option<u32>) -> (node: BVHNode)
    ensures
        node.aabb == aabb,
        node.entity == entity,
        node.is_leaf(),
{
    BVHNode::new(aabb, entity)
}

impl Default for BVHTree {
    /// The hierarchy without nodes.
    fn default() -> (tree: BVHTree)
        ensures
            tree.nodes@.len() == 0,
    {
        BVHTree { nodes: Vec::new() }
    }
}

/// The nodes at `base .. base + n`.
pub open spec fn range_of(nodes: Seq<BVHNode>, base: int, n: int) -> Seq<BVHNode> {
    nodes.subrange(base, base + n)
}

/// Two lists differ at most inside `base .. base + n`, and hold there the
/// same nodes, each as often as the other.
pub open spec fn permuted_within(
    before: Seq<BVHNode>,
    after: Seq<BVHNode>,
    base: int,
    n: int,
) -> bool {
    &&& after.len() == before.len()
    &&& forall|k: int| 0 <= k < before.len() && !(base <= k < base + n) ==> after[k] == before[k]
    &&& range_of(after, base, n).to_multiset() == range_of(before, base, n).to_multiset()
}

/// The nodes at `base .. base + n` are in ascending order along the axis.
pub open spec fn sorted_within(nodes: Seq<BVHNode>, base: int, n: int, axis: int) -> bool {
    forall|i: int, j: int|
        base <= i <= j < base + n ==> nodes[i].key(axis) <= nodes[j].key(axis)
}

/// A property of single nodes that holds of every node in a range holds of
/// every node in a permutation of that range.
pub proof fn lemma_permuted_keeps(
    before: Seq<BVHNode>,
    after: Seq<BVHNode>,
    base: int,
    n: int,
    p: spec_fn(BVHNode) -> bool,
)
    requires
        0 <= base,
        0 <= n,
        base + n <= before.len(),
        permuted_within(before, after, base, n),
        forall|k: int| base <= k < base + n ==> p(before[k]),
    ensures
        forall|k: int| base <= k < base + n ==> p(after[k]),
{
    broadcast use vstd::seq_lib::group_to_multiset_ensures;

    let b = range_of(before, base, n);
    let a = range_of(after, base, n);
    assert forall|k: int| base <= k < base + n implies p(after[k]) by {
        let x = after[k];
        assert(a[k - base] == x);
        assert(a.contains(x));
        assert(a.to_multiset().count(x) > 0);
        assert(b.to_multiset().count(x) > 0);
        assert(b.contains(x));
        let j = choose|j: int| 0 <= j < b.len() && b[j] == x;
        assert(before[base + j] == x);
    }
}

/// Exchanging two nodes of a range permutes the range.
proof fn lemma_swap_permutes(s: Seq<BVHNode>, base: int, n: int, i: int, j: int)
    requires
        0 <= base,
        base + n <= s.len(),
        base <= i < base + n,
        base <= j < base + n,
    ensures
        permuted_within(s, s.update(i, s[j]).update(j, s[i]), base, n),
{
    broadcast use vstd::seq_lib::group_to_multiset_ensures;
    broadcast use vstd::multiset::group_multiset_axioms;

    let t = s.update(i, s[j]).update(j, s[i]);
    let r = range_of(s, base, n);
    let u = r.update(i - base, s[j]).update(j - base, s[i]);
    assert(range_of(t, base, n) =~= u);
    let m = r.to_multiset();
    assert(r[i - base] == s[i]);
    assert(r[j - base] == s[j]);
    assert(r.update(i - base, s[j]).to_multiset() == m.insert(s[j]).remove(s[i]));
    assert(u.to_multiset() =~= m);
}

/// Being a permutation within a range is reflexive and transitive.
proof fn lemma_permuted_chain(
    a: Seq<BVHNode>,
    b: Seq<BVHNode>,
    c: Seq<BVHNode>,
    base: int,
    n: int,
)
    requires
        permuted_within(a, b, base, n),
        permuted_within(b, c, base, n),
    ensures
        permuted_within(a, a, base, n),
        permuted_within(a, c, base, n),
{
}

/// Exchanges the nodes at `i` and `j`.
fn swap_nodes(nodes: &mut Vec<BVHNode>, i: usize, j: usize)
    requires
        i < old(nodes)@.len(),
        j < old(nodes)@.len(),
    ensures
        final(nodes)@ == old(nodes)@.update(i as int, old(nodes)@[j as int]).update(
            j as int,
            old(nodes)@[i as int],
        ),
{
    let a = nodes[i];
    let b = nodes[j];
    nodes.set(i, b);
    nodes.set(j, a);
}

/// Puts the nodes at `base .. base + n` in ascending order of their boxes'
/// least corner along the given axis (0 for x, 1 for y, 2 for z). Nodes
/// outside the range stay where they are. Which of two nodes with the same
/// coordinate comes first is not fixed.
pub fn sort_by_axis(nodes: &mut Vec<BVHNode>, base: usize, n: usize, axis: usize)
    requires
        axis < 3,
        base + n <= old(nodes).len(),
    ensures
        permuted_within(old(nodes)@, final(nodes)@, base as int, n as int),
        sorted_within(final(nodes)@, base as int, n as int, axis as int),
{
    let ghost start = nodes@;
    let mut i: usize = 1;
    proof {
        lemma_permuted_chain(start, start, start, base as int, n as int);
    }
    while i < n
        invariant
            1 <= i,
            n >= 1 ==> i <= n,
            axis < 3,
            base + n <= nodes.len(),
            permuted_within(start, nodes@, base as int, n as int),
            i <= n ==> sorted_within(nodes@, base as int, i as int, axis as int),
            n == 0 ==> nodes@ == start,
        decreases n - i,
    {
        let mut j: usize = i;
        while j > 0 && nodes[base + j].aabb.min.axis(axis).key() < nodes[base + j - 1].aabb.min.axis(
            axis,
        ).key()
            invariant
                j <= i < n,
                axis < 3,
                base + n <= nodes.len(),
                permuted_within(start, nodes@, base as int, n as int),
                forall|a: int, b: int|
                    base <= a <= b <= base + i && a != base + j && b != base + j
                        ==> nodes@[a].key(axis as int) <= nodes@[b].key(axis as int),
                forall|b: int|
                    base + j < b <= base + i ==> nodes@[base + j].key(axis as int) <= (
                    #[trigger] nodes@[b]).key(axis as int),
            decreases j,
        {
            let ghost before = nodes@;
            swap_nodes(nodes, base + j - 1, base + j);
            proof {
                lemma_swap_permutes(before, base as int, n as int, base + j - 1, base + j as int);
                lemma_permuted_chain(start, before, nodes@, base as int, n as int);
            }
            j = j - 1;
        }
        i = i + 1;
    }
}

/// How many inner nodes building over `n` leaves appends: one for one or two
/// leaves, else one more than the two halves together.
pub open spec fn inner_count(n: nat) -> nat
    decreases n,
{
    if n <= 2 {
        1
    } else {
        inner_count(n / 2) + inner_count((n - n / 2) as nat) + 1
    }
}

/// The node at `k` is an inner node: it names no object, both children come
/// before it in the list, and its box is the union of their boxes.
pub open spec fn inner_at(nodes: Seq<BVHNode>, k: int) -> bool {
    &&& nodes[k].entity is None
    &&& nodes[k].left is Some
    &&& nodes[k].right is Some
    &&& nodes[k].left.unwrap() < k
    &&& nodes[k].right.unwrap() < k
    &&& nodes[k].aabb == nodes[nodes[k].left.unwrap() as int].aabb.union(
        nodes[nodes[k].right.unwrap() as int].aabb,
    )
}

/// `c` is a leaf of the range `base .. base + n` or an inner node of
/// `lo .. k`.
pub open spec fn child_of_region(c: int, lo: int, k: int, base: int, n: int) -> bool {
    base <= c < base + n || lo <= c < k
}

/// The nodes at `lo .. hi` are inner nodes over the leaves at
/// `base .. base + n`: each has for children leaves of that range or inner
/// nodes of `lo .. hi` that come before it.
pub open spec fn built_over(nodes: Seq<BVHNode>, lo: int, hi: int, base: int, n: int) -> bool {
    forall|k: int|
        lo <= k < hi ==> {
            &&& #[trigger] inner_at(nodes, k)
            &&& child_of_region(nodes[k].left.unwrap() as int, lo, k, base, n)
            &&& child_of_region(nodes[k].right.unwrap() as int, lo, k, base, n)
        }
}

/// The node at `k` has two children, both before it in the list. Any other
/// node is treated as a leaf.
pub open spec fn has_children(nodes: Seq<BVHNode>, k: int) -> bool {
    &&& 0 <= k < nodes.len()
    &&& nodes[k].left is Some
    &&& nodes[k].right is Some
    &&& nodes[k].left.unwrap() < k
    &&& nodes[k].right.unwrap() < k
}

/// The indices of the leaves below the node at `k`: the node itself if it has
/// no two children before it, else what lies below either child.
pub open spec fn leaves_under(nodes: Seq<BVHNode>, k: int) -> Set<int>
    decreases k,
{
    if has_children(nodes, k) {
        leaves_under(nodes, nodes[k].left.unwrap() as int).union(
            leaves_under(nodes, nodes[k].right.unwrap() as int),
        )
    } else {
        set![k]
    }
}

/// How many steps down the longest way from the node at `k` to a leaf
/// takes.
pub open spec fn height(nodes: Seq<BVHNode>, k: int) -> nat
    decreases k,
{
    if has_children(nodes, k) {
        let l = height(nodes, nodes[k].left.unwrap() as int);
        let r = height(nodes, nodes[k].right.unwrap() as int);
        if l >= r {
            l + 1
        } else {
            r + 1
        }
    } else {
        0
    }
}

/// How high a hierarchy over `n` leaves can be: one step for one or two
/// leaves, else one step more than over the larger half.
pub open spec fn height_bound(n: nat) -> nat
    decreases n,
{
    if n <= 2 {
        1
    } else {
        1 + height_bound((n - n / 2) as nat)
    }
}

/// Two to the power `e`.
pub open spec fn two_to(e: nat) -> nat
    decreases e,
{
    if e == 0 {
        1
    } else {
        2 * two_to((e - 1) as nat)
    }
}

/// More leaves do not make for a lower bound.
proof fn lemma_height_bound_grows(a: nat, b: nat)
    requires
        a <= b,
    ensures
        height_bound(a) <= height_bound(b),
    decreases b,
{
    if b > 2 {
        if a > 2 {
            lemma_height_bound_grows((a - a / 2) as nat, (b - b / 2) as nat);
        } else {
            assert(height_bound(a) == 1);
        }
    }
}

/// The height of a hierarchy is logarithmic in the number of its leaves:
/// over two leaves or more, two to the power of the bound less one is below
/// the number of leaves.
pub proof fn lemma_height_bound_is_logarithmic(n: nat)
    requires
        n >= 2,
    ensures
        height_bound(n) >= 1,
        two_to((height_bound(n) - 1) as nat) < n,
    decreases n,
{
    if n > 2 {
        let m = (n - n / 2) as nat;
        lemma_height_bound_is_logarithmic(m);
        assert(two_to(height_bound(m)) == 2 * two_to((height_bound(m) - 1) as nat));
    } else {
        assert(two_to(0) == 1);
    }
}

/// Along the axis, no node of the first half of the range `base .. base + n`
/// lies after a node of the second half, the first half being the first
/// `n / 2` nodes.
pub open spec fn split_along(nodes: Seq<BVHNode>, base: int, n: int, axis: int) -> bool {
    forall|i: int, j: int|
        base <= i < base + n / 2 && base + n / 2 <= j < base + n ==> nodes[i].key(axis)
            <= nodes[j].key(axis)
}

/// A range is its two parts put together.
proof fn lemma_range_split(s: Seq<BVHNode>, base: int, h: int, n: int)
    requires
        0 <= base,
        0 <= h <= n,
        base + n <= s.len(),
    ensures
        range_of(s, base, n).to_multiset() == range_of(s, base, h).to_multiset().add(
            range_of(s, base + h, n - h).to_multiset(),
        ),
{
    let whole = range_of(s, base, n);
    let first = range_of(s, base, h);
    let second = range_of(s, base + h, n - h);
    assert(whole =~= first + second);
    vstd::seq_lib::lemma_multiset_commutative(first, second);
}

/// Permuting the first part of a range and then the second permutes the
/// range.
proof fn lemma_permuted_halves(
    a: Seq<BVHNode>,
    b: Seq<BVHNode>,
    c: Seq<BVHNode>,
    base: int,
    h: int,
    n: int,
)
    requires
        0 <= base,
        0 <= h <= n,
        base + n <= a.len(),
        permuted_within(a, b, base, h),
        permuted_within(b, c, base + h, n - h),
    ensures
        permuted_within(a, c, base, n),
{
    lemma_range_split(a, base, h, n);
    lemma_range_split(c, base, h, n);
    assert(range_of(c, base, h) =~= range_of(b, base, h));
    assert(range_of(b, base + h, n - h) =~= range_of(a, base + h, n - h));
}

/// What lies below a node depends only on the inner nodes of its region and
/// on which nodes of the range are leaves.
proof fn lemma_leaves_frame(
    a: Seq<BVHNode>,
    b: Seq<BVHNode>,
    lo: int,
    hi: int,
    base: int,
    n: int,
    k: int,
)
    requires
        0 <= base,
        base + n <= lo,
        hi <= a.len(),
        hi <= b.len(),
        built_over(a, lo, hi, base, n),
        forall|j: int| base <= j < base + n ==> a[j].is_leaf() && b[j].is_leaf(),
        forall|j: int| lo <= j < hi ==> b[j] == a[j],
        child_of_region(k, lo, hi, base, n),
    ensures
        leaves_under(b, k) == leaves_under(a, k),
        height(b, k) == height(a, k),
    decreases k,
{
    if lo <= k < hi {
        assert(inner_at(a, k));
        let l = a[k].left.unwrap() as int;
        let r = a[k].right.unwrap() as int;
        lemma_leaves_frame(a, b, lo, hi, base, n, l);
        lemma_leaves_frame(a, b, lo, hi, base, n, r);
    }
}

/// The state after the two halves of a range have been built, seen from the
/// state in which the range was sorted: the whole range has been permuted, the
/// nodes appended are inner nodes over it, the first root still has the first
/// half below it, and the first half does not lie after the second.
proof fn lemma_halves_joined(
    sorted: Seq<BVHNode>,
    mid: Seq<BVHNode>,
    last: Seq<BVHNode>,
    base: int,
    h: int,
    n: int,
    axis: int,
)
    requires
        0 <= base,
        1 <= h < n,
        h == n / 2,
        base + n <= sorted.len(),
        sorted.len() < mid.len() < last.len(),
        forall|k: int| base <= k < base + n ==> sorted[k].is_leaf(),
        sorted_within(sorted, base, n, axis),
        permuted_within(sorted, mid.take(sorted.len() as int), base, h),
        forall|k: int| base <= k < base + h ==> mid[k].is_leaf(),
        built_over(mid, sorted.len() as int, mid.len() as int, base, h),
        permuted_within(mid, last.take(mid.len() as int), base + h, n - h),
        forall|k: int| base + h <= k < base + n ==> last[k].is_leaf(),
        built_over(last, mid.len() as int, last.len() as int, base + h, n - h),
    ensures
        permuted_within(sorted, last.take(sorted.len() as int), base, n),
        forall|k: int| base <= k < base + n ==> last[k].is_leaf(),
        built_over(last, sorted.len() as int, last.len() as int, base, n),
        leaves_under(last, mid.len() - 1) == leaves_under(mid, mid.len() - 1),
        height(last, mid.len() - 1) == height(mid, mid.len() - 1),
        split_along(last, base, n, axis),
{
    let len0 = sorted.len() as int;
    let len1 = mid.len() as int;
    let len2 = last.len() as int;
    // What the second build left alone.
    assert forall|k: int| 0 <= k < len1 && !(base + h <= k < base + n) implies last[k]
        == mid[k] by {
        assert(last.take(len1)[k] == mid[k]);
    }
    // What the first build left alone.
    assert forall|k: int| 0 <= k < len0 && !(base <= k < base + h) implies mid[k]
        == sorted[k] by {
        assert(mid.take(len0)[k] == sorted[k]);
    }
    // The range as a whole has been permuted.
    assert(permuted_within(mid.take(len0), last.take(len0), base + h, n - h)) by {
        assert(range_of(last.take(len0), base + h, n - h) =~= range_of(
            last.take(len1),
            base + h,
            n - h,
        ));
        assert(range_of(mid.take(len0), base + h, n - h) =~= range_of(mid, base + h, n - h));
    }
    lemma_permuted_halves(sorted, mid.take(len0), last.take(len0), base, h, n);
    // The inner nodes of the first half still stand over unchanged children.
    assert forall|k: int| len0 <= k < len2 implies {
        &&& #[trigger] inner_at(last, k)
        &&& child_of_region(last[k].left.unwrap() as int, len0, k, base, n)
        &&& child_of_region(last[k].right.unwrap() as int, len0, k, base, n)
    } by {
        if k < len1 {
            assert(inner_at(mid, k));
        } else {
            assert(inner_at(last, k));
        }
    }
    lemma_leaves_frame(mid, last, len0, len1, base, h, len1 - 1);
    // The first half does not lie after the second.
    {
        let below = |x: BVHNode|
            forall|j: int| base + h <= j < base + n ==> x.key(axis) <= sorted[j].key(axis);
        lemma_permuted_keeps(sorted, mid.take(len0), base, h, below);
        let above = |y: BVHNode|
            forall|i: int| base <= i < base + h ==> last[i].key(axis) <= y.key(axis);
        assert forall|j: int| base + h <= j < base + n implies above(mid[j]) by {
            assert forall|i: int| base <= i < base + h implies last[i].key(axis) <= mid[j].key(
                axis,
            ) by {
                assert(below(mid.take(len0)[i]));
            }
        }
        lemma_permuted_keeps(mid, last.take(len1), base + h, n - h, above);
        assert forall|i: int, j: int|
            base <= i < base + n / 2 && base + n / 2 <= j < base + n implies last[i].key(axis)
            <= last[j].key(axis) by {
            assert(above(last.take(len1)[j]));
        }
    }
}

/// Appending an inner node over two nodes of a region extends the region by
/// it, and below it lies what lies below its two children.
proof fn lemma_root_appended(
    nodes: Seq<BVHNode>,
    root: BVHNode,
    lo: int,
    base: int,
    n: int,
)
    requires
        0 <= base,
        0 <= n,
        base + n <= lo <= nodes.len(),
        forall|k: int| base <= k < base + n ==> nodes[k].is_leaf(),
        built_over(nodes, lo, nodes.len() as int, base, n),
        root.entity is None,
        root.left is Some,
        root.right is Some,
        child_of_region(root.left.unwrap() as int, lo, nodes.len() as int, base, n),
        child_of_region(root.right.unwrap() as int, lo, nodes.len() as int, base, n),
        root.aabb == nodes[root.left.unwrap() as int].aabb.union(
            nodes[root.right.unwrap() as int].aabb,
        ),
    ensures
        built_over(nodes.push(root), lo, (nodes.len() + 1) as int, base, n),
        leaves_under(nodes.push(root), nodes.len() as int) == leaves_under(
            nodes,
            root.left.unwrap() as int,
        ).union(leaves_under(nodes, root.right.unwrap() as int)),
        height(nodes.push(root), nodes.len() as int) == 1 + if height(
            nodes,
            root.left.unwrap() as int,
        ) >= height(nodes, root.right.unwrap() as int) {
            height(nodes, root.left.unwrap() as int)
        } else {
            height(nodes, root.right.unwrap() as int)
        },
{
    let done = nodes.push(root);
    let top = nodes.len() as int;
    assert forall|k: int| lo <= k < top + 1 implies {
        &&& #[trigger] inner_at(done, k)
        &&& child_of_region(done[k].left.unwrap() as int, lo, k, base, n)
        &&& child_of_region(done[k].right.unwrap() as int, lo, k, base, n)
    } by {
        if k < top {
            assert(inner_at(nodes, k));
        }
    }
    lemma_leaves_frame(nodes, done, lo, top, base, n, root.left.unwrap() as int);
    lemma_leaves_frame(nodes, done, lo, top, base, n, root.right.unwrap() as int);
}

/// `rand::Rng::gen_range` on the thread's generator, from zero up to `n`: a
/// number drawn at random below `n`, as the call documents. The call panics
/// where the range is empty, so `n` is to be above zero. Of the number drawn
/// nothing more is claimed.
#[verifier::external_body]
fn random_below(n: usize) -> (drawn: usize)
    requires
        n > 0,
    ensures
        drawn < n,
{
    rand::thread_rng().gen_range(0, n)
}

/// Builds the hierarchy over the leaves at `base .. base + n` and returns the
/// index of its root, which is the node appended last.
///
/// The leaves are first put in order along an axis drawn at random. One leaf
/// gets a root with that leaf for both children; two leaves become the two
/// children of the root; more are split into the first `n / 2` and the rest,
/// each part is built in the same way, and the two roots become the children
/// of a new root. Every inner node is appended to the list with the union of
/// its children's boxes.
///
/// Whatever axes are drawn: the leaves of the range are permuted among
/// themselves and nothing else below the old end of the list changes; the
/// nodes appended are inner nodes over that range, `inner_count(n)` of them;
/// below the root lie exactly the leaves of the range, none more than
/// `height_bound(n)` steps down; and along some axis the first half of the
/// range does not lie after the second.
pub fn build_bvh(tree: &mut BVHTree, base: usize, n: usize) -> (root: Option<usize>)
    requires
        n >= 1,
        base + n <= old(tree).nodes.len(),
        forall|k: int| base <= k < base + n ==> old(tree).nodes@[k].is_leaf(),
    ensures
        root == Some((final(tree).nodes.len() - 1) as usize),
        final(tree).nodes.len() == old(tree).nodes.len() + inner_count(n as nat),
        permuted_within(
            old(tree).nodes@,
            final(tree).nodes@.take(old(tree).nodes.len() as int),
            base as int,
            n as int,
        ),
        forall|k: int| base <= k < base + n ==> final(tree).nodes@[k].is_leaf(),
        built_over(
            final(tree).nodes@,
            old(tree).nodes.len() as int,
            final(tree).nodes.len() as int,
            base as int,
            n as int,
        ),
        leaves_under(final(tree).nodes@, final(tree).nodes.len() - 1) =~= Set::new(
            |k: int| base <= k < base + n,
        ),
        height(final(tree).nodes@, final(tree).nodes.len() - 1) <= height_bound(n as nat),
        exists|axis: int| 0 <= axis < 3 && split_along(final(tree).nodes@, base as int, n as int, axis),
    decreases n,
{
    let ghost start = tree.nodes@;
    let ghost len0 = tree.nodes@.len() as int;
    let axis = random_below(3);
    sort_by_axis(&mut tree.nodes, base, n, axis);
    let ghost sorted = tree.nodes@;
    proof {
        lemma_permuted_keeps(start, sorted, base as int, n as int, |x: BVHNode| x.is_leaf());
    }
    let left: usize;
    let right: usize;
    if n == 1 {
        left = base;
        right = base;
        proof {
            assert(tree.nodes@.take(len0) =~= sorted);
            assert(leaves_under(tree.nodes@, base as int) == set![base as int]);
            assert(height(tree.nodes@, base as int) == 0);
        }
    } else if n == 2 {
        left = base;
        right = base + 1;
        proof {
            assert(tree.nodes@.take(len0) =~= sorted);
            assert(leaves_under(tree.nodes@, base as int) == set![base as int]);
            assert(leaves_under(tree.nodes@, base + 1) == set![base + 1]);
            assert(height(tree.nodes@, base as int) == 0);
            assert(height(tree.nodes@, base + 1) == 0);
        }
    } else {
        let half = n / 2;
        let l = build_bvh(tree, base, half);
        let ghost mid = tree.nodes@;
        proof {
            assert forall|j: int| base + half <= j < base + n implies mid[j].is_leaf() by {
                assert(mid.take(len0)[j] == sorted[j]);
            }
        }
        let r = build_bvh(tree, base + half, n - half);
        proof {
            lemma_halves_joined(
                sorted,
                mid,
                tree.nodes@,
                base as int,
                half as int,
                n as int,
                axis as int,
            );
            lemma_height_bound_grows(half as nat, (n - half) as nat);
        }
        left = l.unwrap();
        right = r.unwrap();
    }
    let ghost children = tree.nodes@;
    proof {
        lemma_permuted_chain(start, sorted, children.take(len0), base as int, n as int);
    }
    let mut node = BVHNode::default();
    node.left = Some(left);
    node.right = Some(right);
    node.aabb = surrounding_box(&tree.nodes[left].aabb, &tree.nodes[right].aabb);
    tree.nodes.push(node);
    proof {
        lemma_root_appended(children, node, len0, base as int, n as int);
        assert(tree.nodes@.take(len0) =~= children.take(len0));
        assert(split_along(tree.nodes@, base as int, n as int, axis as int)) by {
            assert(split_along(children, base as int, n as int, axis as int));
        }
    }
    Some(tree.nodes.len() - 1)
}

/// The box of an inner node encloses the box of every leaf below it, and is
/// valid, where the boxes of the leaves are valid.
pub proof fn lemma_box_bounds_leaves(
    nodes: Seq<BVHNode>,
    lo: int,
    hi: int,
    base: int,
    n: int,
    k: int,
    leaf: int,
)
    requires
        0 <= base,
        0 <= n,
        base + n <= lo,
        hi <= nodes.len(),
        built_over(nodes, lo, hi, base, n),
        forall|j: int| base <= j < base + n ==> nodes[j].is_leaf() && nodes[j].aabb.is_valid(),
        child_of_region(k, lo, hi, base, n),
        leaves_under(nodes, k).contains(leaf),
    ensures
        base <= leaf < base + n,
        nodes[k].aabb.is_valid(),
        nodes[k].aabb.encloses(nodes[leaf].aabb),
    decreases k,
{
    if lo <= k < hi {
        assert(inner_at(nodes, k));
        let l = nodes[k].left.unwrap() as int;
        let r = nodes[k].right.unwrap() as int;
        lemma_choose_leaf(nodes, l);
        lemma_choose_leaf(nodes, r);
        lemma_box_bounds_leaves(nodes, lo, hi, base, n, l, choose_leaf(nodes, l));
        lemma_box_bounds_leaves(nodes, lo, hi, base, n, r, choose_leaf(nodes, r));
        lemma_union_contains(nodes[l].aabb, nodes[r].aabb, nodes[leaf].aabb.min);
        if leaves_under(nodes, l).contains(leaf) {
            lemma_box_bounds_leaves(nodes, lo, hi, base, n, l, leaf);
            lemma_encloses_transitive(nodes[k].aabb, nodes[l].aabb, nodes[leaf].aabb);
        } else {
            lemma_box_bounds_leaves(nodes, lo, hi, base, n, r, leaf);
            lemma_encloses_transitive(nodes[k].aabb, nodes[r].aabb, nodes[leaf].aabb);
        }
    }
}

/// Some leaf below the node at `k`: there always is one.
pub open spec fn choose_leaf(nodes: Seq<BVHNode>, k: int) -> int
    decreases k,
{
    if has_children(nodes, k) {
        choose_leaf(nodes, nodes[k].left.unwrap() as int)
    } else {
        k
    }
}

/// The leaf that `choose_leaf` names lies below the node.
pub proof fn lemma_choose_leaf(nodes: Seq<BVHNode>, k: int)
    ensures
        leaves_under(nodes, k).contains(choose_leaf(nodes, k)),
    decreases k,
{
    if has_children(nodes, k) {
        lemma_choose_leaf(nodes, nodes[k].left.unwrap() as int);
    }
}

/// The leaf for an object and its box.
pub open spec fn leaf_for(object: (u32, AABB)) -> BVHNode {
    BVHNode { aabb: object.1, entity: Some(object.0), left: None, right: None }
}

impl BVHTree {
    /// The hierarchy over the given objects, each with its box, and the index
    /// of its root; `None` where there are no objects, over which nothing can
    /// be built.
    ///
    /// The hierarchy begins with one leaf per object, in an order that the
    /// axes drawn decide, and goes on with the inner nodes, the root last.
    /// Below the root lie all the leaves, none more than
    /// `height_bound` of their number steps down.
    pub fn build(objects: &Vec<(u32, AABB)>) -> (built: Option<(BVHTree, usize)>)
        ensures
            built is Some <==> objects@.len() >= 1,
            built matches Some((tree, root)) ==> {
                let n = objects@.len() as int;
                &&& tree.nodes@.len() == n + inner_count(n as nat)
                &&& root == tree.nodes@.len() - 1
                &&& range_of(tree.nodes@, 0, n).to_multiset() == objects@.map_values(
                    |o: (u32, AABB)| leaf_for(o),
                ).to_multiset()
                &&& forall|k: int| 0 <= k < n ==> tree.nodes@[k].is_leaf()
                &&& built_over(tree.nodes@, n, tree.nodes@.len() as int, 0, n)
                &&& leaves_under(tree.nodes@, root as int) =~= Set::new(|k: int| 0 <= k < n)
                &&& height(tree.nodes@, root as int) <= height_bound(n as nat)
            },
    {
        let n = objects.len();
        if n == 0 {
            return None;
        }
        let mut tree = BVHTree { nodes: Vec::new() };
        let mut i: usize = 0;
        while i < n
            invariant
                i <= n,
                n == objects@.len(),
                tree.nodes@.len() == i,
                forall|k: int| 0 <= k < i ==> #[trigger] tree.nodes@[k] == leaf_for(objects@[k]),
            decreases n - i,
        {
            let (entity, aabb) = objects[i];
            tree.nodes.push(BVHNode::new(aabb, Some(entity)));
            i = i + 1;
        }
        let ghost leaves = tree.nodes@;
        assert(leaves =~= objects@.map_values(|o: (u32, AABB)| leaf_for(o)));
        let root = build_bvh(&mut tree, 0, n);
        proof {
            assert(range_of(leaves, 0, n as int) =~= leaves);
            assert(range_of(tree.nodes@.take(n as int), 0, n as int) =~= range_of(
                tree.nodes@,
                0,
                n as int,
            ));
        }
        Some((tree, root.unwrap()))
    }
}

} // verus!
