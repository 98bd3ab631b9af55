//! Finding the nearest strike of a ray in a hierarchy of boxes.
//!
//! Whether a ray meets a box, and where it strikes an object, is arithmetic
//! that the caller does. The search itself is decided here, one step at a
//! time: the traversal names the next thing to be tested, the caller tests it
//! and reports, and the traversal moves on. A box that the ray misses prunes
//! everything below it; of the strikes reported, the nearest is kept.

use vstd::prelude::*;
use crate::bvh::{has_children, leaves_under, BVHNode, BVHTree};
use crate::hitable::HitRecord;

verus! {

/// What the caller is to test next.
#[derive(Clone, Copy, Debug, PartialEq, Eq, Structural)]
pub enum Probe {
    /// Does the ray meet the box of the node with this index?
    Bounds(usize),
    /// Where does the ray strike the object of the leaf with this index?
    Object(usize),
    /// Nothing: the search is over.
    Finished,
}

/// What the caller found.
#[derive(Clone, Copy, Debug, PartialEq, Eq, Structural)]
pub enum Reply {
    /// Whether the ray meets the box.
    Bounds(bool),
    /// The strike on the object, if there is one.
    Object(Option<HitRecord>),
}

/// A search in progress: the nodes still to be visited, the one visited
/// last, the nearest strike so far, and the test that is awaited.
#[derive(Debug)]
pub struct Traversal {
    pub pending: Vec<usize>,
    pub best: Option<HitRecord>,
    pub probe: Probe,
}

/// A search in progress, as a value of specifications.
pub struct TraversalView {
    pub pending: Seq<usize>,
    pub best: Option<HitRecord>,
    pub probe: Probe,
}

impl View for Traversal {
    type V = TraversalView;

    open spec fn view(&self) -> TraversalView {
        TraversalView { pending: self.pending@, best: self.best, probe: self.probe }
    }
}

/// Of two strikes the nearer; of two equally near, and beside a strike whose
/// distance cannot be compared, the second; a strike beside none.
pub open spec fn closer(a: Option<HitRecord>, b: Option<HitRecord>) -> Option<HitRecord> {
    match (a, b) {
        (Some(x), Some(y)) => if x.t.lt(y.t) {
            a
        } else {
            b
        },
        (Some(_), None) => a,
        _ => b,
    }
}

/// A strike marked with the object that was struck.
pub open spec fn tagged(rec: Option<HitRecord>, entity: Option<u32>) -> Option<HitRecord> {
    match rec {
        Some(r) => Some(HitRecord { entity, ..r }),
        None => None,
    }
}

/// The object that the node at `k` names; none where the list has no such
/// node.
pub open spec fn entity_of(nodes: Seq<BVHNode>, k: int) -> Option<u32> {
    if 0 <= k < nodes.len() {
        nodes[k].entity
    } else {
        None
    }
}

/// The search turns to the node that was put aside last, or is over.
pub open spec fn resumed(pending: Seq<usize>, best: Option<HitRecord>) -> TraversalView {
    if pending.len() == 0 {
        TraversalView { pending, best, probe: Probe::Finished }
    } else {
        TraversalView { pending: pending.drop_last(), best, probe: Probe::Bounds(pending.last()) }
    }
}

/// The search after a reply.
///
/// A box that is missed, or an index without a node, ends the visit. A box
/// that is met leads to the object if the node is a leaf, and else to its
/// left child, the right child being put aside. A strike on an object is
/// marked with the object and kept if none so far is nearer. A reply that
/// does not answer the probe changes nothing.
pub open spec fn advanced(s: TraversalView, nodes: Seq<BVHNode>, reply: Reply) -> TraversalView {
    match (s.probe, reply) {
        (Probe::Bounds(k), Reply::Bounds(met)) => if !met || k >= nodes.len() {
            resumed(s.pending, s.best)
        } else if has_children(nodes, k as int) {
            TraversalView {
                pending: s.pending.push(nodes[k as int].right.unwrap()),
                best: s.best,
                probe: Probe::Bounds(nodes[k as int].left.unwrap()),
            }
        } else {
            TraversalView { pending: s.pending, best: s.best, probe: Probe::Object(k) }
        },
        (Probe::Object(k), Reply::Object(rec)) => resumed(
            s.pending,
            closer(s.best, tagged(rec, entity_of(nodes, k as int))),
        ),
        _ => s,
    }
}

impl Traversal {
    /// The search for the nearest strike below the node at `root`, before
    /// anything was tested.
    pub fn start(root: usize) -> (s: Traversal)
        ensures
            s@.pending.len() == 0,
            s@.best is None,
            s@.probe == Probe::Bounds(root),
    {
        Traversal { pending: Vec::new(), best: None, probe: Probe::Bounds(root) }
    }

    /// The nearest strike found. It is the result once the probe is
    /// `Finished`.
    pub fn result(&self) -> (best: Option<HitRecord>)
        ensures
            best == self@.best,
    {
        self.best
    }

    /// Turns to the node put aside last.
    fn resume(&mut self)
        ensures
            final(self)@ == resumed(old(self)@.pending, old(self)@.best),
    {
        match self.pending.pop() {
            Some(k) => {
                self.probe = Probe::Bounds(k);
                assert(self.pending@ =~= old(self)@.pending.drop_last());
            },
            None => {
                self.probe = Probe::Finished;
            },
        }
    }
}

/// The nearer of two strikes: see `closer`.
pub fn closer_hit(a: Option<HitRecord>, b: Option<HitRecord>) -> (c: Option<HitRecord>)
    ensures
        c == closer(a, b),
{
    match (a, b) {
        (Some(x), Some(y)) => {
            if x.t.less(&y.t) {
                a
            } else {
                b
            }
        },
        (Some(_), None) => a,
        _ => b,
    }
}

/// Takes the search one step on: hands it the reply to its probe and returns
/// the next probe. See `advanced` for what each reply leads to.
pub fn hit_bvh_node(tree: &BVHTree, state: &mut Traversal, reply: Reply) -> (next: Probe)
    ensures
        final(state)@ == advanced(old(state)@, tree.nodes@, reply),
        next == final(state)@.probe,
{
    match (state.probe, reply) {
        (Probe::Bounds(k), Reply::Bounds(met)) => {
            if !met || k >= tree.nodes.len() {
                state.resume();
            } else {
                let node = tree.nodes[k];
                match (node.left, node.right) {
                    (Some(left), Some(right)) => {
                        if left < k && right < k {
                            state.pending.push(right);
                            state.probe = Probe::Bounds(left);
                        } else {
                            state.probe = Probe::Object(k);
                        }
                    },
                    _ => {
                        state.probe = Probe::Object(k);
                    },
                }
            }
        },
        (Probe::Object(k), Reply::Object(rec)) => {
            let entity = if k < tree.nodes.len() {
                tree.nodes[k].entity
            } else {
                None
            };
            let found = match rec {
                Some(r) => Some(
                    HitRecord { t: r.t, p: r.p, normal: r.normal, material: r.material, entity },
                ),
                None => None,
            };
            state.best = closer_hit(state.best, found);
            state.resume();
        },
        _ => {},
    }
    state.probe
}

/// The nearest strike below the node at `k`, for a ray of which `bounds`
/// tells the boxes that it meets and `object` the strike on each leaf's
/// object: none if the ray misses the node's box; at a leaf the strike on its
/// object, marked with the object; else the nearer of what the two children
/// give.
pub open spec fn nearest(
    nodes: Seq<BVHNode>,
    k: int,
    bounds: spec_fn(int) -> bool,
    object: spec_fn(int) -> Option<HitRecord>,
) -> Option<HitRecord>
    decreases k,
{
    if !(0 <= k < nodes.len()) || !bounds(k) {
        None
    } else if has_children(nodes, k) {
        closer(
            nearest(nodes, nodes[k].left.unwrap() as int, bounds, object),
            nearest(nodes, nodes[k].right.unwrap() as int, bounds, object),
        )
    } else {
        tagged(object(k), nodes[k].entity)
    }
}

/// What a visit of the node at `k` makes of the strike `acc` that the search
/// has in hand: nothing, if the ray misses the node's box; at a leaf the
/// nearer of `acc` and the strike on the leaf's object; else what the visit
/// of the right child makes of what the visit of the left child makes of it.
///
/// This is what the search does, step by step, whatever the strikes are. It
/// comes to the nearer of `acc` and `nearest` where the distances of all
/// strikes are numbers (`lemma_gathered_is_nearest`).
pub open spec fn gathered(
    nodes: Seq<BVHNode>,
    k: int,
    acc: Option<HitRecord>,
    bounds: spec_fn(int) -> bool,
    object: spec_fn(int) -> Option<HitRecord>,
) -> Option<HitRecord>
    decreases k,
{
    if !(0 <= k < nodes.len()) || !bounds(k) {
        acc
    } else if has_children(nodes, k) {
        gathered(
            nodes,
            nodes[k].right.unwrap() as int,
            gathered(nodes, nodes[k].left.unwrap() as int, acc, bounds, object),
            bounds,
            object,
        )
    } else {
        closer(acc, tagged(object(k), nodes[k].entity))
    }
}

/// What a search that has `acc` in hand comes to when the nodes put aside
/// are visited, the last first.
pub open spec fn settled(
    acc: Option<HitRecord>,
    pending: Seq<usize>,
    nodes: Seq<BVHNode>,
    bounds: spec_fn(int) -> bool,
    object: spec_fn(int) -> Option<HitRecord>,
) -> Option<HitRecord>
    decreases pending.len(),
{
    if pending.len() == 0 {
        acc
    } else {
        settled(
            gathered(nodes, pending.last() as int, acc, bounds, object),
            pending.drop_last(),
            nodes,
            bounds,
            object,
        )
    }
}

/// What a search in progress comes to if every probe from here on is
/// answered as `bounds` and `object` tell.
pub open spec fn outcome(
    s: TraversalView,
    nodes: Seq<BVHNode>,
    bounds: spec_fn(int) -> bool,
    object: spec_fn(int) -> Option<HitRecord>,
) -> Option<HitRecord> {
    let now = match s.probe {
        Probe::Bounds(k) => gathered(nodes, k as int, s.best, bounds, object),
        Probe::Object(k) => closer(s.best, tagged(object(k as int), entity_of(nodes, k as int))),
        Probe::Finished => s.best,
    };
    settled(now, s.pending, nodes, bounds, object)
}

/// The reply answers the probe as `bounds` and `object` tell.
pub open spec fn answers(
    probe: Probe,
    reply: Reply,
    bounds: spec_fn(int) -> bool,
    object: spec_fn(int) -> Option<HitRecord>,
) -> bool {
    match (probe, reply) {
        (Probe::Bounds(k), Reply::Bounds(met)) => met == bounds(k as int),
        (Probe::Object(k), Reply::Object(rec)) => rec == object(k as int),
        _ => false,
    }
}

/// The distance of the strike, if there is one, is a number.
pub open spec fn numeric(rec: Option<HitRecord>) -> bool {
    rec matches Some(r) ==> !r.t.is_nan()
}

/// Every strike that `object` tells of is at a distance that is a number.
pub open spec fn strikes_numeric(object: spec_fn(int) -> Option<HitRecord>) -> bool {
    forall|k: int| numeric(#[trigger] object(k))
}

/// A finished search has put nothing aside.
pub open spec fn coherent(s: TraversalView) -> bool {
    s.probe is Finished ==> s.pending.len() == 0
}

/// Among strikes at distances that are numbers, taking the nearer is
/// associative, and gives such a strike.
pub proof fn lemma_closer_associative(
    a: Option<HitRecord>,
    b: Option<HitRecord>,
    c: Option<HitRecord>,
)
    requires
        numeric(a),
        numeric(b),
        numeric(c),
    ensures
        closer(closer(a, b), c) == closer(a, closer(b, c)),
        numeric(closer(a, b)),
        closer(None, a) == a,
        closer(a, None) == a,
{
}

/// The nearest strike below a node is at a distance that is a number, if all
/// strikes are.
pub proof fn lemma_nearest_numeric(
    nodes: Seq<BVHNode>,
    k: int,
    bounds: spec_fn(int) -> bool,
    object: spec_fn(int) -> Option<HitRecord>,
)
    requires
        strikes_numeric(object),
    ensures
        numeric(nearest(nodes, k, bounds, object)),
    decreases k,
{
    if 0 <= k < nodes.len() && bounds(k) {
        if has_children(nodes, k) {
            lemma_nearest_numeric(nodes, nodes[k].left.unwrap() as int, bounds, object);
            lemma_nearest_numeric(nodes, nodes[k].right.unwrap() as int, bounds, object);
        } else {
            assert(numeric(object(k)));
        }
    }
}

/// Where the distances of all strikes are numbers, a visit of a node makes of
/// the strike in hand the nearer of it and the nearest strike below the node.
pub proof fn lemma_gathered_is_nearest(
    nodes: Seq<BVHNode>,
    k: int,
    acc: Option<HitRecord>,
    bounds: spec_fn(int) -> bool,
    object: spec_fn(int) -> Option<HitRecord>,
)
    requires
        strikes_numeric(object),
        numeric(acc),
    ensures
        gathered(nodes, k, acc, bounds, object) == closer(
            acc,
            nearest(nodes, k, bounds, object),
        ),
        numeric(gathered(nodes, k, acc, bounds, object)),
    decreases k,
{
    if 0 <= k < nodes.len() && bounds(k) {
        if has_children(nodes, k) {
            let l = nodes[k].left.unwrap() as int;
            let r = nodes[k].right.unwrap() as int;
            let from_left = nearest(nodes, l, bounds, object);
            let from_right = nearest(nodes, r, bounds, object);
            lemma_gathered_is_nearest(nodes, l, acc, bounds, object);
            lemma_gathered_is_nearest(
                nodes,
                r,
                gathered(nodes, l, acc, bounds, object),
                bounds,
                object,
            );
            lemma_nearest_numeric(nodes, l, bounds, object);
            lemma_nearest_numeric(nodes, r, bounds, object);
            lemma_closer_associative(acc, from_left, from_right);
        } else {
            assert(numeric(object(k)));
            lemma_closer_associative(acc, tagged(object(k), nodes[k].entity), None);
        }
    } else {
        lemma_closer_associative(acc, None, None);
    }
}

/// A search that has just started comes to what a visit of its root makes of
/// nothing in hand.
pub proof fn lemma_search_starts(
    root: usize,
    nodes: Seq<BVHNode>,
    bounds: spec_fn(int) -> bool,
    object: spec_fn(int) -> Option<HitRecord>,
)
    ensures
        outcome(
            TraversalView { pending: Seq::empty(), best: None, probe: Probe::Bounds(root) },
            nodes,
            bounds,
            object,
        ) == gathered(nodes, root as int, None, bounds, object),
{
}

/// A step of the search, on a reply that answers its probe truly, does not
/// change what the search comes to.
pub proof fn lemma_step_keeps_outcome(
    s: TraversalView,
    nodes: Seq<BVHNode>,
    reply: Reply,
    bounds: spec_fn(int) -> bool,
    object: spec_fn(int) -> Option<HitRecord>,
)
    requires
        coherent(s),
        answers(s.probe, reply, bounds, object),
    ensures
        outcome(advanced(s, nodes, reply), nodes, bounds, object) == outcome(
            s,
            nodes,
            bounds,
            object,
        ),
        coherent(advanced(s, nodes, reply)),
{
    let next = advanced(s, nodes, reply);
    match (s.probe, reply) {
        (Probe::Bounds(k), Reply::Bounds(met)) => {
            if !met || k >= nodes.len() {
                assert(gathered(nodes, k as int, s.best, bounds, object) == s.best);
            } else if has_children(nodes, k as int) {
                let r = nodes[k as int].right.unwrap();
                assert(next.pending.last() == r);
                assert(next.pending.drop_last() =~= s.pending);
            } else {
                assert(entity_of(nodes, k as int) == nodes[k as int].entity);
            }
        },
        _ => {},
    }
}

/// A finished search has come to the strike that it holds.
pub proof fn lemma_search_finished(
    s: TraversalView,
    nodes: Seq<BVHNode>,
    bounds: spec_fn(int) -> bool,
    object: spec_fn(int) -> Option<HitRecord>,
)
    requires
        coherent(s),
        s.probe is Finished,
    ensures
        outcome(s, nodes, bounds, object) == s.best,
{
}

/// Three to the power `n + 1`: the steps that a node with index `n` can cost
/// at most.
pub open spec fn visit_cost(n: nat) -> nat
    decreases n,
{
    if n == 0 {
        3
    } else {
        3 * visit_cost((n - 1) as nat)
    }
}

/// The cost of visiting all the nodes put aside.
pub open spec fn pending_cost(pending: Seq<usize>) -> nat
    decreases pending.len(),
{
    if pending.len() == 0 {
        0
    } else {
        visit_cost(pending.last() as nat) + pending_cost(pending.drop_last())
    }
}

/// A bound on the steps that a search has left.
pub open spec fn steps_left(s: TraversalView) -> nat {
    pending_cost(s.pending) + match s.probe {
        Probe::Bounds(k) => visit_cost(k as nat),
        Probe::Object(_) => 1,
        Probe::Finished => 0,
    }
}

/// A node costs at least three times what a node before it costs.
proof fn lemma_visit_cost_grows(a: nat, b: nat)
    requires
        a < b,
    ensures
        3 * visit_cost(a) <= visit_cost(b),
        visit_cost(a) >= 3,
    decreases b,
{
    if a + 1 < b {
        lemma_visit_cost_grows(a, (b - 1) as nat);
    }
    if a > 0 {
        lemma_visit_cost_grows((a - 1) as nat, a);
    }
}

/// The search ends: every step on a reply that answers the probe lowers the
/// bound on the steps left.
pub proof fn lemma_step_lowers_cost(s: TraversalView, nodes: Seq<BVHNode>, reply: Reply)
    requires
        match (s.probe, reply) {
            (Probe::Bounds(_), Reply::Bounds(_)) => true,
            (Probe::Object(_), Reply::Object(_)) => true,
            _ => false,
        },
    ensures
        steps_left(advanced(s, nodes, reply)) < steps_left(s),
{
    let next = advanced(s, nodes, reply);
    match (s.probe, reply) {
        (Probe::Bounds(k), Reply::Bounds(met)) => {
            if k > 0 {
                lemma_visit_cost_grows(0, k as nat);
            }
            if !met || k >= nodes.len() {
            } else if has_children(nodes, k as int) {
                let l = nodes[k as int].left.unwrap();
                let r = nodes[k as int].right.unwrap();
                lemma_visit_cost_grows(l as nat, k as nat);
                lemma_visit_cost_grows(r as nat, k as nat);
                assert(next.pending.last() == r);
                assert(next.pending.drop_last() =~= s.pending);
            }
        },
        _ => {},
    }
}

/// No leaf below the node at `k` is struck.
pub open spec fn none_struck(
    nodes: Seq<BVHNode>,
    k: int,
    object: spec_fn(int) -> Option<HitRecord>,
) -> bool {
    forall|leaf: int| #[trigger] leaves_under(nodes, k).contains(leaf) ==> object(leaf) is None
}

/// `found` is the strike on the leaf `at`, marked with its object.
pub open spec fn strike_on(
    nodes: Seq<BVHNode>,
    at: int,
    object: spec_fn(int) -> Option<HitRecord>,
    found: HitRecord,
) -> bool {
    0 <= at < nodes.len() && tagged(object(at), nodes[at].entity) == Some(found)
}

/// `found` is the strike on a leaf below the node at `k`, and no leaf below
/// that node is struck at a smaller distance.
pub open spec fn least_strike(
    nodes: Seq<BVHNode>,
    k: int,
    object: spec_fn(int) -> Option<HitRecord>,
    found: HitRecord,
) -> bool {
    &&& exists|at: int| #[trigger]
        leaves_under(nodes, k).contains(at) && strike_on(nodes, at, object, found)
    &&& forall|leaf: int| #[trigger]
        leaves_under(nodes, k).contains(leaf) ==> (object(leaf) matches Some(other)
            ==> found.t.rank() <= other.t.rank())
}

/// The search finds the true nearest strike.
///
/// Let the boxes bound what is below them, as far as this ray goes: where the
/// ray strikes the object of a leaf, it meets the box of every node that has
/// the leaf below it. Then the strike that the search comes to below a node
/// is the strike on one of the leaves below it, and no leaf below the node is
/// struck at a smaller distance; and it comes to none exactly when no leaf
/// below the node is struck.
pub proof fn lemma_nearest_is_least(
    nodes: Seq<BVHNode>,
    k: int,
    bounds: spec_fn(int) -> bool,
    object: spec_fn(int) -> Option<HitRecord>,
)
    requires
        0 <= k < nodes.len(),
        strikes_numeric(object),
        forall|node: int, leaf: int|
            #[trigger] leaves_under(nodes, node).contains(leaf) && object(leaf) is Some ==> bounds(
                node,
            ),
    ensures
        nearest(nodes, k, bounds, object) is None <==> none_struck(nodes, k, object),
        nearest(nodes, k, bounds, object) matches Some(found) ==> least_strike(
            nodes,
            k,
            object,
            found,
        ),
    decreases k,
{
    let here = nearest(nodes, k, bounds, object);
    let below = leaves_under(nodes, k);
    if !bounds(k) {
        assert forall|leaf: int| #[trigger] below.contains(leaf) implies object(leaf) is None by {
            if object(leaf) is Some {
                assert(leaves_under(nodes, k).contains(leaf));
            }
        }
    } else if has_children(nodes, k) {
        let l = nodes[k].left.unwrap() as int;
        let r = nodes[k].right.unwrap() as int;
        lemma_nearest_is_least(nodes, l, bounds, object);
        lemma_nearest_is_least(nodes, r, bounds, object);
        lemma_nearest_numeric(nodes, l, bounds, object);
        lemma_nearest_numeric(nodes, r, bounds, object);
        let from_left = nearest(nodes, l, bounds, object);
        let from_right = nearest(nodes, r, bounds, object);
        let below_left = leaves_under(nodes, l);
        let below_right = leaves_under(nodes, r);
        assert(below == below_left.union(below_right));
        assert(here == closer(from_left, from_right));
        assert forall|leaf: int| #[trigger] below.contains(leaf) implies below_left.contains(leaf)
            || below_right.contains(leaf) by {}
        assert forall|leaf: int| below_left.contains(leaf) implies #[trigger] below.contains(
            leaf,
        ) by {}
        assert forall|leaf: int| below_right.contains(leaf) implies #[trigger] below.contains(
            leaf,
        ) by {}
        match (from_left, from_right) {
            (Some(x), Some(y)) => {
                let found = here.unwrap();
                let side = if x.t.lt(y.t) {
                    below_left
                } else {
                    below_right
                };
                let at = choose|at: int| #[trigger]
                    side.contains(at) && strike_on(nodes, at, object, found);
                assert(below.contains(at) && strike_on(nodes, at, object, found));
                assert(found.t.rank() <= x.t.rank() && found.t.rank() <= y.t.rank());
                assert forall|leaf: int| #[trigger] below.contains(leaf) implies (object(
                    leaf,
                ) matches Some(other) ==> found.t.rank() <= other.t.rank()) by {
                    if below_left.contains(leaf) {
                    } else {
                        assert(below_right.contains(leaf));
                    }
                }
                assert(!none_struck(nodes, k, object)) by {
                    assert(below.contains(at));
                }
            },
            (Some(x), None) => {
                let at = choose|at: int| #[trigger]
                    below_left.contains(at) && strike_on(nodes, at, object, x);
                assert(below.contains(at) && strike_on(nodes, at, object, x));
                assert forall|leaf: int| #[trigger] below.contains(leaf) implies (object(
                    leaf,
                ) matches Some(other) ==> x.t.rank() <= other.t.rank()) by {
                    if below_left.contains(leaf) {
                    } else {
                        assert(below_right.contains(leaf));
                    }
                }
            },
            (None, Some(y)) => {
                let at = choose|at: int| #[trigger]
                    below_right.contains(at) && strike_on(nodes, at, object, y);
                assert(below.contains(at) && strike_on(nodes, at, object, y));
                assert forall|leaf: int| #[trigger] below.contains(leaf) implies (object(
                    leaf,
                ) matches Some(other) ==> y.t.rank() <= other.t.rank()) by {
                    if below_left.contains(leaf) {
                    } else {
                        assert(below_right.contains(leaf));
                    }
                }
            },
            (None, None) => {
                assert forall|leaf: int| #[trigger] below.contains(leaf) implies object(
                    leaf,
                ) is None by {
                    if below_left.contains(leaf) {
                    } else {
                        assert(below_right.contains(leaf));
                    }
                }
            },
        }
    } else {
        assert(below == set![k]);
        assert(below.contains(k));
        assert(here == tagged(object(k), nodes[k].entity));
        if here is Some {
            assert(strike_on(nodes, k, object, here.unwrap()));
        }
    }
}

/// The search finds the true nearest strike, in one statement: where the
/// distances of all strikes are numbers and the boxes bound what is below
/// them as far as this ray goes, what a search from the node at `k` comes to
/// is the strike on a leaf below it than which no leaf below it is struck
/// nearer, and it comes to none exactly when no leaf below it is struck.
pub proof fn lemma_search_finds_least(
    nodes: Seq<BVHNode>,
    k: int,
    bounds: spec_fn(int) -> bool,
    object: spec_fn(int) -> Option<HitRecord>,
)
    requires
        0 <= k < nodes.len(),
        strikes_numeric(object),
        forall|node: int, leaf: int|
            #[trigger] leaves_under(nodes, node).contains(leaf) && object(leaf) is Some ==> bounds(
                node,
            ),
    ensures
        gathered(nodes, k, None, bounds, object) is None <==> none_struck(nodes, k, object),
        gathered(nodes, k, None, bounds, object) matches Some(found) ==> least_strike(
            nodes,
            k,
            object,
            found,
        ),
{
    lemma_gathered_is_nearest(nodes, k, None, bounds, object);
    lemma_nearest_is_least(nodes, k, bounds, object);
}

/// What a list of tested boxes tells: the ray meets the box of the node at
/// `k` if the list says so, and no box beyond the list.
pub open spec fn told_bounds(bounds: Seq<bool>) -> spec_fn(int) -> bool {
    |k: int| 0 <= k < bounds.len() && bounds[k]
}

/// What a list of tested objects tells: the strike on the object of the leaf
/// at `k`, and none beyond the list.
pub open spec fn told_strikes(strikes: Seq<Option<HitRecord>>) -> spec_fn(int) -> Option<
    HitRecord,
> {
    |k: int|
        if 0 <= k < strikes.len() {
            strikes[k]
        } else {
            None
        }
}

impl Traversal {
    /// Whether the search is over.
    pub fn is_finished(&self) -> (over: bool)
        ensures
            over == (self@.probe is Finished),
    {
        match self.probe {
            Probe::Finished => true,
            _ => false,
        }
    }
}

/// Runs a search to its end on tests that have been made beforehand: for
/// every node whether the ray meets its box, and for every leaf the strike on
/// its object. The result is what a visit of the root makes of nothing in
/// hand (`gathered`), whatever the strikes are; where the distances of all
/// strikes are numbers, that is the nearest strike below the root as
/// `nearest` defines it.
pub fn search_tested(
    tree: &BVHTree,
    root: usize,
    bounds: &Vec<bool>,
    strikes: &Vec<Option<HitRecord>>,
) -> (found: Option<HitRecord>)
    ensures
        found == gathered(
            tree.nodes@,
            root as int,
            None,
            told_bounds(bounds@),
            told_strikes(strikes@),
        ),
        strikes_numeric(told_strikes(strikes@)) ==> found == nearest(
            tree.nodes@,
            root as int,
            told_bounds(bounds@),
            told_strikes(strikes@),
        ),
{
    let ghost met = told_bounds(bounds@);
    let ghost struck = told_strikes(strikes@);
    let mut state = Traversal::start(root);
    proof {
        lemma_search_starts(root, tree.nodes@, met, struck);
        assert(state@.pending =~= Seq::<usize>::empty());
    }
    while !state.is_finished()
        invariant
            met == told_bounds(bounds@),
            struck == told_strikes(strikes@),
            coherent(state@),
            outcome(state@, tree.nodes@, met, struck) == gathered(
                tree.nodes@,
                root as int,
                None,
                met,
                struck,
            ),
        decreases steps_left(state@),
    {
        let reply = match state.probe {
            Probe::Bounds(k) => Reply::Bounds(k < bounds.len() && bounds[k]),
            Probe::Object(k) => Reply::Object(
                if k < strikes.len() {
                    strikes[k]
                } else {
                    None
                },
            ),
            Probe::Finished => Reply::Bounds(false),
        };
        proof {
            lemma_step_lowers_cost(state@, tree.nodes@, reply);
            lemma_step_keeps_outcome(state@, tree.nodes@, reply, met, struck);
        }
        hit_bvh_node(tree, &mut state, reply);
    }
    proof {
        lemma_search_finished(state@, tree.nodes@, met, struck);
        if strikes_numeric(struck) {
            lemma_gathered_is_nearest(tree.nodes@, root as int, None, met, struck);
        }
    }
    state.result()
}

} // verus!
