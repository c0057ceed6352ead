use vstd::prelude::*;
use crate::aabb::{box_subset, hits_box, Aabb};
use crate::object::HittableBounds;
use crate::shared::Ray;

verus! {

/// The bounding-volume hierarchy.
///
/// Nodes live in one flat vector; children always have smaller indices
/// than their parent, and the root is the last node. `build` performs a
/// median split on the primitive order, so the tree is balanced and its
/// depth is bounded by `depth_bound` of the primitive count — at most 32
/// levels for any scene this library can hold, which is what lets the
/// traversal use a fixed stack.
///
/// `subtree_ok` is the structural invariant: stored child boxes contain
/// their subtrees' primitive boxes, and the two child subtrees hold
/// disjoint primitive sets. `reach` is the set of primitive indices a
/// ray can reach when only subtrees whose stored box it hits are
/// entered; the lemmas below show that a ray that hits a primitive's own
/// box always reaches that primitive.

#[derive(Clone, Copy, PartialEq, Eq, Structural, Debug)]
pub enum BvhNode {
    Node { child_l_index: usize, child_l_aabb: Aabb, child_r_index: usize, child_r_aabb: Aabb },
    Leaf { shape_index: usize },
}

pub struct Bvh {
    pub nodes: Vec<BvhNode>,
    pub root: usize,
    pub root_aabb: Aabb,
}

/// Number of levels of the subtree rooted at `i`.
pub open spec fn depth(nodes: Seq<BvhNode>, i: int) -> int
    decreases i,
{
    if 0 <= i < nodes.len() {
        match nodes[i] {
            BvhNode::Leaf { shape_index } => 1,
            BvhNode::Node { child_l_index, child_l_aabb, child_r_index, child_r_aabb } => {
                if child_l_index < i && child_r_index < i {
                    let dl = depth(nodes, child_l_index as int);
                    let dr = depth(nodes, child_r_index as int);
                    1 + if dl >= dr {
                        dl
                    } else {
                        dr
                    }
                } else {
                    0
                }
            },
        }
    } else {
        0
    }
}

/// The primitive indices stored at the leaves of the subtree at `i`.
pub open spec fn subtree_shapes(nodes: Seq<BvhNode>, i: int) -> Set<int>
    decreases i,
{
    if 0 <= i < nodes.len() {
        match nodes[i] {
            BvhNode::Leaf { shape_index } => Set::empty().insert(shape_index as int),
            BvhNode::Node { child_l_index, child_l_aabb, child_r_index, child_r_aabb } => {
                if child_l_index < i && child_r_index < i {
                    subtree_shapes(nodes, child_l_index as int).union(
                        subtree_shapes(nodes, child_r_index as int),
                    )
                } else {
                    Set::empty()
                }
            },
        }
    } else {
        Set::empty()
    }
}

/// Structural invariant of the subtree at `i`, lying inside `outer`:
/// children have smaller indices, every stored box contains its
/// subtree's primitive boxes, and sibling subtrees are disjoint.
pub open spec fn subtree_ok(
    nodes: Seq<BvhNode>,
    bounds: Seq<HittableBounds>,
    i: int,
    outer: Aabb,
) -> bool
    decreases i,
{
    if 0 <= i < nodes.len() {
        match nodes[i] {
            BvhNode::Leaf { shape_index } => {
                &&& shape_index < bounds.len()
                &&& box_subset(bounds[shape_index as int].aabb, outer)
            },
            BvhNode::Node { child_l_index, child_l_aabb, child_r_index, child_r_aabb } => {
                &&& child_l_index < i
                &&& child_r_index < i
                &&& box_subset(child_l_aabb, outer)
                &&& box_subset(child_r_aabb, outer)
                &&& subtree_ok(nodes, bounds, child_l_index as int, child_l_aabb)
                &&& subtree_ok(nodes, bounds, child_r_index as int, child_r_aabb)
                &&& subtree_shapes(nodes, child_l_index as int).disjoint(
                    subtree_shapes(nodes, child_r_index as int),
                )
            },
        }
    } else {
        false
    }
}

/// The primitive indices a ray reaches when it only enters subtrees
/// whose stored box it hits in `[t0, t1]`.
pub open spec fn reach(nodes: Seq<BvhNode>, ray: Ray, t0: i64, t1: i64, i: int) -> Set<int>
    decreases i,
{
    if 0 <= i < nodes.len() {
        match nodes[i] {
            BvhNode::Leaf { shape_index } => Set::empty().insert(shape_index as int),
            BvhNode::Node { child_l_index, child_l_aabb, child_r_index, child_r_aabb } => {
                if child_l_index < i && child_r_index < i {
                    (if hits_box(ray, child_l_aabb, t0, t1) {
                        reach(nodes, ray, t0, t1, child_l_index as int)
                    } else {
                        Set::empty()
                    }).union(
                        if hits_box(ray, child_r_aabb, t0, t1) {
                            reach(nodes, ray, t0, t1, child_r_index as int)
                        } else {
                            Set::empty()
                        },
                    )
                } else {
                    Set::empty()
                }
            },
        }
    } else {
        Set::empty()
    }
}

/// Whatever a ray reaches is a primitive of the subtree.
pub proof fn lemma_reach_subset_shapes(nodes: Seq<BvhNode>, ray: Ray, t0: i64, t1: i64, i: int)
    ensures
        reach(nodes, ray, t0, t1, i).subset_of(subtree_shapes(nodes, i)),
    decreases i,
{
    if 0 <= i < nodes.len() {
        match nodes[i] {
            BvhNode::Leaf { shape_index } => {},
            BvhNode::Node { child_l_index, child_l_aabb, child_r_index, child_r_aabb } => {
                if child_l_index < i && child_r_index < i {
                    lemma_reach_subset_shapes(nodes, ray, t0, t1, child_l_index as int);
                    lemma_reach_subset_shapes(nodes, ray, t0, t1, child_r_index as int);
                }
            },
        }
    }
}

/// Every primitive of a well-formed subtree has its box inside the
/// subtree's outer box.
pub proof fn lemma_shapes_boxed(
    nodes: Seq<BvhNode>,
    bounds: Seq<HittableBounds>,
    i: int,
    outer: Aabb,
    s: int,
)
    requires
        subtree_ok(nodes, bounds, i, outer),
        subtree_shapes(nodes, i).contains(s),
    ensures
        0 <= s < bounds.len(),
        box_subset(bounds[s].aabb, outer),
    decreases i,
{
    match nodes[i] {
        BvhNode::Leaf { shape_index } => {},
        BvhNode::Node { child_l_index, child_l_aabb, child_r_index, child_r_aabb } => {
            if subtree_shapes(nodes, child_l_index as int).contains(s) {
                lemma_shapes_boxed(nodes, bounds, child_l_index as int, child_l_aabb, s);
                crate::aabb::lemma_box_subset_trans(bounds[s].aabb, child_l_aabb, outer);
            } else {
                lemma_shapes_boxed(nodes, bounds, child_r_index as int, child_r_aabb, s);
                crate::aabb::lemma_box_subset_trans(bounds[s].aabb, child_r_aabb, outer);
            }
        },
    }
}

/// No false negatives: a ray that hits a primitive's own box reaches
/// that primitive through the hierarchy.
pub proof fn lemma_hit_reaches(
    nodes: Seq<BvhNode>,
    bounds: Seq<HittableBounds>,
    ray: Ray,
    t0: i64,
    t1: i64,
    i: int,
    outer: Aabb,
    s: int,
)
    requires
        subtree_ok(nodes, bounds, i, outer),
        subtree_shapes(nodes, i).contains(s),
        hits_box(ray, bounds[s].aabb, t0, t1),
    ensures
        reach(nodes, ray, t0, t1, i).contains(s),
    decreases i,
{
    match nodes[i] {
        BvhNode::Leaf { shape_index } => {},
        BvhNode::Node { child_l_index, child_l_aabb, child_r_index, child_r_aabb } => {
            if subtree_shapes(nodes, child_l_index as int).contains(s) {
                lemma_shapes_boxed(nodes, bounds, child_l_index as int, child_l_aabb, s);
                crate::aabb::lemma_hits_box_monotone(ray, bounds[s].aabb, child_l_aabb, t0, t1);
                lemma_hit_reaches(
                    nodes,
                    bounds,
                    ray,
                    t0,
                    t1,
                    child_l_index as int,
                    child_l_aabb,
                    s,
                );
            } else {
                lemma_shapes_boxed(nodes, bounds, child_r_index as int, child_r_aabb, s);
                crate::aabb::lemma_hits_box_monotone(ray, bounds[s].aabb, child_r_aabb, t0, t1);
                lemma_hit_reaches(
                    nodes,
                    bounds,
                    ray,
                    t0,
                    t1,
                    child_r_index as int,
                    child_r_aabb,
                    s,
                );
            }
        },
    }
}

/// Extending the node vector beyond a subtree leaves the subtree's
/// depth, primitive set, reach set and invariant unchanged.
pub proof fn lemma_subtree_framing(
    nodes: Seq<BvhNode>,
    longer: Seq<BvhNode>,
    bounds: Seq<HittableBounds>,
    ray: Ray,
    t0: i64,
    t1: i64,
    i: int,
    outer: Aabb,
)
    requires
        nodes.len() <= longer.len(),
        forall|j: int| 0 <= j < nodes.len() ==> nodes[j] == longer[j],
        i < nodes.len(),
    ensures
        depth(longer, i) == depth(nodes, i),
        subtree_shapes(longer, i) == subtree_shapes(nodes, i),
        reach(longer, ray, t0, t1, i) == reach(nodes, ray, t0, t1, i),
        subtree_ok(nodes, bounds, i, outer) ==> subtree_ok(longer, bounds, i, outer),
    decreases i,
{
    if 0 <= i < nodes.len() {
        match nodes[i] {
            BvhNode::Leaf { shape_index } => {},
            BvhNode::Node { child_l_index, child_l_aabb, child_r_index, child_r_aabb } => {
                if child_l_index < i && child_r_index < i {
                    lemma_subtree_framing(
                        nodes,
                        longer,
                        bounds,
                        ray,
                        t0,
                        t1,
                        child_l_index as int,
                        child_l_aabb,
                    );
                    lemma_subtree_framing(
                        nodes,
                        longer,
                        bounds,
                        ray,
                        t0,
                        t1,
                        child_r_index as int,
                        child_r_aabb,
                    );
                }
            },
        }
    }
}

/// The bounds-free structural core of `subtree_ok`: children have
/// smaller indices and sibling subtrees hold disjoint primitive sets.
pub open spec fn node_tree(nodes: Seq<BvhNode>, i: int) -> bool
    decreases i,
{
    if 0 <= i < nodes.len() {
        match nodes[i] {
            BvhNode::Leaf { shape_index } => true,
            BvhNode::Node { child_l_index, child_l_aabb, child_r_index, child_r_aabb } => {
                &&& child_l_index < i
                &&& child_r_index < i
                &&& node_tree(nodes, child_l_index as int)
                &&& node_tree(nodes, child_r_index as int)
                &&& subtree_shapes(nodes, child_l_index as int).disjoint(
                    subtree_shapes(nodes, child_r_index as int),
                )
            },
        }
    } else {
        false
    }
}

pub proof fn lemma_subtree_ok_tree(
    nodes: Seq<BvhNode>,
    bounds: Seq<HittableBounds>,
    i: int,
    outer: Aabb,
)
    requires
        subtree_ok(nodes, bounds, i, outer),
    ensures
        node_tree(nodes, i),
    decreases i,
{
    match nodes[i] {
        BvhNode::Leaf { shape_index } => {},
        BvhNode::Node { child_l_index, child_l_aabb, child_r_index, child_r_aabb } => {
            lemma_subtree_ok_tree(nodes, bounds, child_l_index as int, child_l_aabb);
            lemma_subtree_ok_tree(nodes, bounds, child_r_index as int, child_r_aabb);
        },
    }
}

/// A well-formed node has at least one level.
pub proof fn lemma_depth_pos(nodes: Seq<BvhNode>, i: int)
    requires
        node_tree(nodes, i),
    ensures
        depth(nodes, i) >= 1,
    decreases i,
{
    match nodes[i] {
        BvhNode::Leaf { shape_index } => {},
        BvhNode::Node { child_l_index, child_l_aabb, child_r_index, child_r_aabb } => {
            lemma_depth_pos(nodes, child_l_index as int);
            lemma_depth_pos(nodes, child_r_index as int);
        },
    }
}

/// The loop work of visiting the subtree at `i`: two iterations per node
/// entered, counting only subtrees whose stored box the ray hits.
pub open spec fn visit_work(nodes: Seq<BvhNode>, ray: Ray, t0: i64, t1: i64, i: int) -> int
    decreases i,
{
    if 0 <= i < nodes.len() {
        match nodes[i] {
            BvhNode::Leaf { shape_index } => 2,
            BvhNode::Node { child_l_index, child_l_aabb, child_r_index, child_r_aabb } => {
                if child_l_index < i && child_r_index < i {
                    2 + (if hits_box(ray, child_l_aabb, t0, t1) {
                        visit_work(nodes, ray, t0, t1, child_l_index as int)
                    } else {
                        0
                    }) + (if hits_box(ray, child_r_aabb, t0, t1) {
                        visit_work(nodes, ray, t0, t1, child_r_index as int)
                    } else {
                        0
                    })
                } else {
                    2
                }
            },
        }
    } else {
        2
    }
}

pub proof fn lemma_visit_work_pos(nodes: Seq<BvhNode>, ray: Ray, t0: i64, t1: i64, i: int)
    ensures
        visit_work(nodes, ray, t0, t1, i) >= 2,
    decreases i,
{
    if 0 <= i < nodes.len() {
        match nodes[i] {
            BvhNode::Leaf { shape_index } => {},
            BvhNode::Node { child_l_index, child_l_aabb, child_r_index, child_r_aabb } => {
                if child_l_index < i && child_r_index < i {
                    lemma_visit_work_pos(nodes, ray, t0, t1, child_l_index as int);
                    lemma_visit_work_pos(nodes, ray, t0, t1, child_r_index as int);
                }
            },
        }
    }
}

/// Depth bound of a balanced split over `m` primitives.
pub open spec fn depth_bound(m: int) -> int
    decreases m,
{
    if m <= 1 {
        1
    } else {
        1 + depth_bound((m + 1) / 2)
    }
}

proof fn lemma_depth_bound_monotone(m1: int, m2: int)
    requires
        m1 <= m2,
    ensures
        depth_bound(m1) <= depth_bound(m2),
    decreases m2,
{
    if m2 <= 1 || m1 <= 1 {
        if m2 > 1 {
            lemma_depth_bound_pos((m2 + 1) / 2);
        }
    } else {
        lemma_depth_bound_monotone((m1 + 1) / 2, (m2 + 1) / 2);
    }
}

proof fn lemma_depth_bound_pos(m: int)
    ensures
        depth_bound(m) >= 1,
    decreases m,
{
    if m > 1 {
        lemma_depth_bound_pos((m + 1) / 2);
    }
}

/// For any primitive count this library can hold, the balanced depth
/// bound is at most 32.
proof fn lemma_depth_bound_pow2(k: nat)
    ensures
        depth_bound(vstd::arithmetic::power2::pow2(k) as int) == k + 1,
    decreases k,
{
    vstd::arithmetic::power2::lemma_pow2_pos(k);
    if k == 0 {
        assert(vstd::arithmetic::power2::pow2(0) == 1) by {
            vstd::arithmetic::power2::lemma2_to64();
        }
    } else {
        lemma_depth_bound_pow2((k - 1) as nat);
        vstd::arithmetic::power2::lemma_pow2_unfold(k);
        vstd::arithmetic::power2::lemma_pow2_pos((k - 1) as nat);
        let p = vstd::arithmetic::power2::pow2((k - 1) as nat) as int;
        assert((2 * p + 1) / 2 == p);
    }
}

/// For any primitive count this library can hold, the balanced depth
/// bound is at most 32.
pub proof fn lemma_depth_bound_32(m: int)
    requires
        m <= 0x8000_0000,
    ensures
        depth_bound(m) <= 32,
{
    lemma_depth_bound_monotone(m, 0x8000_0000);
    lemma_depth_bound_pow2(31);
    assert(vstd::arithmetic::power2::pow2(31) == 0x8000_0000) by {
        vstd::arithmetic::power2::lemma2_to64();
    }
}

/// Build the subtree for `bounds[lo..hi]` by median split on the
/// primitive order, appending its nodes and returning the root index
/// and the root's box.
pub fn build_range(bounds: &Vec<HittableBounds>, lo: usize, hi: usize, nodes: &mut Vec<BvhNode>)
    -> (r: (usize, Aabb))
    requires
        lo < hi <= bounds.len(),
        hi - lo <= 0x4000_0000,
        old(nodes).len() + 2 * (hi - lo) <= 0x4000_0000_0000,
        forall|k: int| 0 <= k < bounds.len() ==> (#[trigger] bounds[k]).hittable_index == k,
    ensures
        final(nodes).len() == old(nodes).len() + 2 * (hi - lo) - 1,
        r.0 == final(nodes).len() - 1,
        forall|j: int| 0 <= j < old(nodes).len() ==> old(nodes)[j] == final(nodes)[j],
        subtree_ok(final(nodes)@, bounds@, r.0 as int, r.1),
        subtree_shapes(final(nodes)@, r.0 as int) == Set::new(
            |s: int| lo as int <= s < hi as int,
        ),
        depth(final(nodes)@, r.0 as int) <= depth_bound((hi - lo) as int),
    decreases hi - lo,
{
    if hi - lo == 1 {
        let b = bounds[lo];
        nodes.push(BvhNode::Leaf { shape_index: b.hittable_index });
        let root = nodes.len() - 1;
        proof {
            assert(subtree_shapes(nodes@, root as int) =~= Set::new(
                |s: int| lo as int <= s < hi as int,
            ));
        }
        (root, b.aabb)
    } else {
        let mid = lo + (hi - lo) / 2;
        let (l, lbox) = build_range(bounds, lo, mid, nodes);
        let ghost nodes_after_l = nodes@;
        let (rr, rbox) = build_range(bounds, mid, hi, nodes);
        let ghost nodes_after_r = nodes@;
        proof {
            let dummy_ray = Ray {
                origin: crate::shared::Vec3 { x: 0, y: 0, z: 0 },
                direction: crate::shared::Vec3 { x: 0, y: 0, z: 0 },
            };
            lemma_subtree_framing(
                nodes_after_l,
                nodes_after_r,
                bounds@,
                dummy_ray,
                0,
                0,
                l as int,
                lbox,
            );
        }
        nodes.push(
            BvhNode::Node {
                child_l_index: l,
                child_l_aabb: lbox,
                child_r_index: rr,
                child_r_aabb: rbox,
            },
        );
        let root = nodes.len() - 1;
        let total_box = lbox.union_with(&rbox);
        proof {
            let dummy_ray = Ray {
                origin: crate::shared::Vec3 { x: 0, y: 0, z: 0 },
                direction: crate::shared::Vec3 { x: 0, y: 0, z: 0 },
            };
            lemma_subtree_framing(
                nodes_after_r,
                nodes@,
                bounds@,
                dummy_ray,
                0,
                0,
                l as int,
                lbox,
            );
            lemma_subtree_framing(
                nodes_after_r,
                nodes@,
                bounds@,
                dummy_ray,
                0,
                0,
                rr as int,
                rbox,
            );
            assert(subtree_shapes(nodes@, root as int) =~= Set::new(
                |s: int| lo as int <= s < hi as int,
            ));
            lemma_depth_bound_monotone((mid - lo) as int, (hi - mid) as int);
            assert((hi - mid) as int == ((hi - lo) as int + 1) / 2);
        }
        (root, total_box)
    }
}

impl Bvh {
    /// Build the hierarchy over the given bounds. The primitive count
    /// must be positive; an empty scene simply has no hierarchy.
    pub fn build(bounds: &Vec<HittableBounds>) -> (r: Bvh)
        requires
            0 < bounds.len() <= 0x4000_0000,
            forall|k: int| 0 <= k < bounds.len() ==> (#[trigger] bounds[k]).hittable_index == k,
        ensures
            r.root < r.nodes.len(),
            subtree_ok(r.nodes@, bounds@, r.root as int, r.root_aabb),
            subtree_shapes(r.nodes@, r.root as int) == Set::new(
                |s: int| 0 <= s < bounds.len(),
            ),
            depth(r.nodes@, r.root as int) <= 32,
    {
        let mut nodes: Vec<BvhNode> = Vec::new();
        let (root, root_aabb) = build_range(bounds, 0, bounds.len(), &mut nodes);
        proof {
            lemma_depth_bound_32(bounds.len() as int);
        }
        Bvh { nodes, root, root_aabb }
    }
}

} // verus!
