use vstd::prelude::*;
use crate::aabb::hits_box;
use crate::bvh::{
    depth, lemma_depth_pos, lemma_reach_subset_shapes, lemma_visit_work_pos, node_tree, reach,
    subtree_shapes, visit_work, Bvh, BvhNode,
};
use crate::shared::Ray;

verus! {

/// Allocation-free traversal of the bounding-volume hierarchy.
///
/// The iterator performs an explicit-stack in-order walk: descend left
/// while the ray hits the left child's box, pushing the current node;
/// on popping an internal node try its right child; on popping a leaf,
/// yield its primitive index. The stack is a fixed array of 32 slots,
/// and the proof shows it cannot overflow: entries carry strictly
/// shrinking subtree depths and the builder bounds the tree depth by 32.
///
/// The ghost sequence `yielded` records the produced indices. The
/// invariant keeps both directions: every index the ray can reach is
/// either already yielded or still pending on the stack (no false
/// negatives), and everything yielded or pending is reachable (only
/// leaves whose descent path passed the box tests are produced) — so a
/// finished traversal has yielded exactly the reachable candidates. No
/// index is yielded twice, so the candidate count never exceeds the
/// primitive count.
pub struct BVHIterator<'a> {
    pub bvh: &'a Bvh,
    pub ray: Ray,
    pub t_min: i64,
    pub t_max: i64,
    pub stack: [usize; 32],
    pub node_index: usize,
    pub stack_size: usize,
    pub has_node: bool,
    pub yielded: Ghost<Seq<int>>,
}

/// What remains to be done for a node that sits on the stack: an
/// internal node still owes a visit to its right child (if its box is
/// hit); a leaf still owes its own index.
pub open spec fn rem_set(nodes: Seq<BvhNode>, ray: Ray, t0: i64, t1: i64, e: int) -> Set<int> {
    if 0 <= e < nodes.len() {
        match nodes[e] {
            BvhNode::Leaf { shape_index } => Set::empty().insert(shape_index as int),
            BvhNode::Node { child_l_index, child_l_aabb, child_r_index, child_r_aabb } => {
                if child_r_index < e && hits_box(ray, child_r_aabb, t0, t1) {
                    reach(nodes, ray, t0, t1, child_r_index as int)
                } else {
                    Set::empty()
                }
            },
        }
    } else {
        Set::empty()
    }
}

/// Union of the pending sets of all stack entries.
pub open spec fn stack_sets(nodes: Seq<BvhNode>, ray: Ray, t0: i64, t1: i64, st: Seq<usize>)
    -> Set<int>
    decreases st.len(),
{
    if st.len() == 0 {
        Set::empty()
    } else {
        stack_sets(nodes, ray, t0, t1, st.drop_last()).union(
            rem_set(nodes, ray, t0, t1, st.last() as int),
        )
    }
}

/// Remaining loop iterations owed by a stack entry.
pub open spec fn entry_work(nodes: Seq<BvhNode>, ray: Ray, t0: i64, t1: i64, e: int) -> int {
    if 0 <= e < nodes.len() {
        match nodes[e] {
            BvhNode::Leaf { shape_index } => 1,
            BvhNode::Node { child_l_index, child_l_aabb, child_r_index, child_r_aabb } => {
                if child_r_index < e && hits_box(ray, child_r_aabb, t0, t1) {
                    1 + visit_work(nodes, ray, t0, t1, child_r_index as int)
                } else {
                    1
                }
            },
        }
    } else {
        1
    }
}

/// Remaining loop iterations owed by the whole stack.
pub open spec fn stack_work(nodes: Seq<BvhNode>, ray: Ray, t0: i64, t1: i64, st: Seq<usize>)
    -> int
    decreases st.len(),
{
    if st.len() == 0 {
        0
    } else {
        stack_work(nodes, ray, t0, t1, st.drop_last()) + entry_work(
            nodes,
            ray,
            t0,
            t1,
            st.last() as int,
        )
    }
}

proof fn lemma_stack_work_nonneg(nodes: Seq<BvhNode>, ray: Ray, t0: i64, t1: i64, st: Seq<usize>)
    ensures
        stack_work(nodes, ray, t0, t1, st) >= 0,
    decreases st.len(),
{
    if st.len() > 0 {
        lemma_stack_work_nonneg(nodes, ray, t0, t1, st.drop_last());
        if 0 <= st.last() < nodes.len() {
            match nodes[st.last() as int] {
                BvhNode::Leaf { shape_index } => {},
                BvhNode::Node { child_l_index, child_l_aabb, child_r_index, child_r_aabb } => {
                    lemma_visit_work_pos(nodes, ray, t0, t1, child_r_index as int);
                },
            }
        }
    }
}

/// The traversal measure is never negative, whatever the state.
pub proof fn lemma_measure_nonneg(it: BVHIterator)
    ensures
        it.measure() >= 0,
{
    lemma_stack_work_nonneg(it.nodes(), it.ray, it.t_min, it.t_max, it.st());
    if it.has_node {
        lemma_visit_work_pos(it.nodes(), it.ray, it.t_min, it.t_max, it.node_index as int);
    }
}

/// The candidate count never exceeds the primitive count: a traversal
/// yields pairwise distinct indices drawn from the tree's primitives.
pub proof fn lemma_candidate_count(it: BVHIterator, n: nat)
    requires
        it.inv(),
        subtree_shapes(it.nodes(), it.root()) == vstd::set_lib::set_int_range(0, n as int),
    ensures
        it.yielded@.len() <= n,
{
    it.yielded@.unique_seq_to_set();
    vstd::set_lib::lemma_int_range(0, n as int);
    vstd::set_lib::lemma_len_subset(
        it.yielded@.to_set(),
        vstd::set_lib::set_int_range(0, n as int),
    );
}

impl<'a> BVHIterator<'a> {
    pub open spec fn nodes(self) -> Seq<BvhNode> {
        self.bvh.nodes@
    }

    pub open spec fn st(self) -> Seq<usize> {
        self.stack@.take(self.stack_size as int)
    }

    pub open spec fn root(self) -> int {
        self.bvh.root as int
    }

    /// The candidate set the ray can reach in the whole tree.
    pub open spec fn candidates(self) -> Set<int> {
        reach(self.nodes(), self.ray, self.t_min, self.t_max, self.root())
    }

    pub open spec fn cur_set(self) -> Set<int> {
        if self.has_node {
            reach(self.nodes(), self.ray, self.t_min, self.t_max, self.node_index as int)
        } else {
            Set::empty()
        }
    }

    pub open spec fn pending(self) -> Set<int> {
        self.cur_set().union(
            stack_sets(self.nodes(), self.ray, self.t_min, self.t_max, self.st()),
        )
    }

    /// Loop iterations left before the traversal is complete.
    pub open spec fn measure(self) -> int {
        (if self.has_node {
            visit_work(self.nodes(), self.ray, self.t_min, self.t_max, self.node_index as int)
        } else {
            0
        }) + stack_work(self.nodes(), self.ray, self.t_min, self.t_max, self.st())
    }

    pub open spec fn rem_at(self, j: int) -> Set<int> {
        rem_set(self.nodes(), self.ray, self.t_min, self.t_max, self.st()[j] as int)
    }

    pub open spec fn inv(self) -> bool {
        let nodes = self.nodes();
        let sz = self.stack_size as int;
        &&& self.stack_size <= 32
        &&& self.bvh.root < nodes.len()
        &&& node_tree(nodes, self.root())
        &&& depth(nodes, self.root()) <= 32
        &&& forall|j: int| 0 <= j < sz ==> node_tree(nodes, #[trigger] self.st()[j] as int)
        &&& forall|j: int|
            0 <= j < sz ==> depth(nodes, #[trigger] self.st()[j] as int) + j + 1 <= 33
        &&& self.has_node ==> node_tree(nodes, self.node_index as int)
        &&& self.has_node ==> depth(nodes, self.node_index as int) + sz <= 32
        &&& forall|j: int, k: int|
            0 <= j < k < sz ==> (#[trigger] self.rem_at(j)).disjoint(#[trigger] self.rem_at(k))
        &&& self.has_node ==> forall|j: int|
            0 <= j < sz ==> self.cur_set().disjoint(#[trigger] self.rem_at(j))
        &&& forall|j: int|
            0 <= j < sz ==> self.yielded@.to_set().disjoint(#[trigger] self.rem_at(j))
        &&& self.yielded@.to_set().disjoint(self.cur_set())
        &&& self.yielded@.no_duplicates()
        &&& self.candidates().subset_of(self.yielded@.to_set().union(self.pending()))
        &&& self.pending().subset_of(self.candidates())
        &&& self.yielded@.to_set().subset_of(self.candidates())
        &&& self.yielded@.to_set().subset_of(subtree_shapes(nodes, self.root()))
        &&& forall|j: int|
            0 <= j < sz ==> (#[trigger] self.rem_at(j)).subset_of(
                subtree_shapes(nodes, self.root()),
            )
        &&& self.cur_set().subset_of(subtree_shapes(nodes, self.root()))
    }

    /// Frame: the tree, the ray and the interval never change.
    pub open spec fn same_query(self, other: Self) -> bool {
        &&& self.bvh == other.bvh
        &&& self.ray == other.ray
        &&& self.t_min == other.t_min
        &&& self.t_max == other.t_max
    }

    /// Start a traversal at the root.
    pub fn new(bvh: &'a Bvh, ray: Ray, t_min: i64, t_max: i64) -> (it: BVHIterator<'a>)
        requires
            bvh.root < bvh.nodes.len(),
            node_tree(bvh.nodes@, bvh.root as int),
            depth(bvh.nodes@, bvh.root as int) <= 32,
        ensures
            it.inv(),
            it.bvh == bvh,
            it.ray == ray,
            it.t_min == t_min,
            it.t_max == t_max,
            it.yielded@ == Seq::<int>::empty(),
    {
        let it = BVHIterator {
            bvh,
            ray,
            t_min,
            t_max,
            stack: [0; 32],
            node_index: bvh.root,
            stack_size: 0,
            has_node: true,
            yielded: Ghost(Seq::empty()),
        };
        proof {
            assert(it.st() =~= Seq::<usize>::empty());
            assert(it.yielded@.to_set() =~= Set::<int>::empty());
            lemma_depth_pos(bvh.nodes@, bvh.root as int);
            lemma_reach_subset_shapes(bvh.nodes@, ray, t_min, t_max, bvh.root as int);
            assert(it.pending() =~= it.candidates());
        }
        it
    }

    /// The next candidate primitive index, or `None` when the traversal
    /// is complete. Each yielded index is new, and when `None` comes
    /// back every candidate the ray can reach has been yielded.
    pub fn next(&mut self) -> (r: Option<usize>)
        requires
            old(self).inv(),
        ensures
            final(self).inv(),
            old(self).same_query(*final(self)),
            match r {
                Some(s) => {
                    &&& final(self).yielded@ == old(self).yielded@.push(s as int)
                    &&& !old(self).yielded@.to_set().contains(s as int)
                    &&& subtree_shapes(old(self).nodes(), old(self).root()).contains(s as int)
                    &&& old(self).candidates().contains(s as int)
                    &&& final(self).measure() < old(self).measure()
                },
                None => {
                    &&& final(self).yielded@ == old(self).yielded@
                    &&& final(self).yielded@.to_set() == old(self).candidates()
                },
            },
    {
        loop
            invariant
                self.inv(),
                old(self).same_query(*self),
                self.yielded@ == old(self).yielded@,
                self.measure() <= old(self).measure(),
            decreases self.measure(),
        {
            proof {
                lemma_stack_work_nonneg(
                    self.nodes(),
                    self.ray,
                    self.t_min,
                    self.t_max,
                    self.st(),
                );
                if self.has_node {
                    lemma_visit_work_pos(
                        self.nodes(),
                        self.ray,
                        self.t_min,
                        self.t_max,
                        self.node_index as int,
                    );
                }
            }
            if self.stack_size == 0 && !self.has_node {
                // Completed traversal: what was yielded is exactly what
                // the ray could reach.
                proof {
                    assert(self.pending() =~= Set::<int>::empty());
                    assert(self.yielded@.to_set() =~= self.candidates());
                }
                return None;
            }
            if self.has_node {
                // Save the current node and attempt to move to its left child.
                self.push_and_move_left();
            } else {
                // Go back up the stack and see if a node or leaf was pushed.
                let ghost prev = *self;
                let popped = self.stack_pop();
                proof {
                    let sz = prev.stack_size as int;
                    assert(prev.st()[sz - 1] == popped);
                    assert(node_tree(prev.nodes(), popped as int));
                    assert(forall|j: int| 0 <= j < sz - 1 ==> self.st()[j] == prev.st()[j]);
                    assert(forall|j: int| 0 <= j < sz - 1 ==> self.rem_at(j) == prev.rem_at(j));
                }
                match self.bvh.nodes[popped] {
                    BvhNode::Node { child_l_index, child_l_aabb, child_r_index, child_r_aabb } => {
                        // An internal node: now attempt to move to its right child.
                        let hit_r = self.ray.intersects_aabb(
                            &child_r_aabb,
                            self.t_min,
                            self.t_max,
                        );
                        if hit_r {
                            self.node_index = child_r_index;
                            self.has_node = true;
                        } else {
                            self.has_node = false;
                        }
                        proof {
                            let nodes = prev.nodes();
                            let ray = prev.ray;
                            let t0 = prev.t_min;
                            let t1 = prev.t_max;
                            let sz = prev.stack_size as int;
                            assert(self.st() =~= prev.st().drop_last());
                            assert(forall|j: int|
                                0 <= j < sz - 1 ==> self.st()[j] == prev.st()[j]);
                            assert(forall|j: int|
                                0 <= j < sz - 1 ==> #[trigger] self.rem_at(j) == prev.rem_at(j));
                            lemma_depth_pos(nodes, popped as int);
                            lemma_depth_pos(nodes, child_r_index as int);
                            lemma_reach_subset_shapes(nodes, ray, t0, t1, child_r_index as int);
                            lemma_visit_work_pos(nodes, ray, t0, t1, child_r_index as int);
                            assert(self.cur_set() == rem_set(nodes, ray, t0, t1, popped as int));
                            assert(self.candidates() == prev.candidates());
                            assert(prev.rem_at(sz - 1) == rem_set(nodes, ray, t0, t1, popped as int));
                            assert(prev.yielded@.to_set().disjoint(prev.rem_at(sz - 1)));
                            assert forall|j: int|
                                0 <= j < sz - 1 implies self.cur_set().disjoint(
                                #[trigger] self.rem_at(j),
                            ) by {
                                assert(prev.rem_at(j).disjoint(prev.rem_at(sz - 1)));
                                assert forall|x: int|
                                    self.cur_set().contains(x) implies !self.rem_at(j).contains(
                                    x,
                                ) by {
                                    assert(prev.rem_at(sz - 1).contains(x));
                                }
                            }
                            assert(self.pending() =~= prev.pending());
                            assert(self.candidates().subset_of(
                                self.yielded@.to_set().union(self.pending()),
                            ));
                            lemma_stack_work_nonneg(nodes, ray, t0, t1, self.st());
                            assert(prev.measure() == stack_work(nodes, ray, t0, t1, self.st())
                                + entry_work(nodes, ray, t0, t1, popped as int));
                            assert(self.measure() < prev.measure());
                            assert(self.stack_size <= 32);
                            assert(forall|j: int|
                                0 <= j < sz - 1 ==> node_tree(nodes, #[trigger] self.st()[j] as int));
                            assert(forall|j: int|
                                0 <= j < sz - 1 ==> depth(nodes, #[trigger] self.st()[j] as int) + j
                                    + 1 <= 33);
                            assert(self.has_node ==> node_tree(nodes, self.node_index as int));
                            assert(self.has_node ==> depth(nodes, self.node_index as int)
                                + self.stack_size as int <= 32);
                            assert(forall|j: int, k: int|
                                0 <= j < k < sz - 1 ==> (#[trigger] self.rem_at(j)).disjoint(
                                    #[trigger] self.rem_at(k),
                                ));
                            assert(self.has_node ==> forall|j: int|
                                0 <= j < sz - 1 ==> self.cur_set().disjoint(
                                    #[trigger] self.rem_at(j),
                                ));
                            assert(forall|j: int|
                                0 <= j < sz - 1 ==> self.yielded@.to_set().disjoint(
                                    #[trigger] self.rem_at(j),
                                ));
                            assert(self.yielded@.to_set().disjoint(self.cur_set()));
                            assert(self.yielded@.to_set().subset_of(
                                subtree_shapes(nodes, self.root()),
                            ));
                            assert(forall|j: int|
                                0 <= j < sz - 1 ==> (#[trigger] self.rem_at(j)).subset_of(
                                    subtree_shapes(nodes, self.root()),
                                ));
                            assert(self.cur_set().subset_of(subtree_shapes(nodes, self.root())));
                            assert(self.inv());
                        }
                    },
                    BvhNode::Leaf { shape_index } => {
                        // A previously pushed leaf: this is the visit of the
                        // in-order walk.
                        proof {
                            let nodes = prev.nodes();
                            let ray = prev.ray;
                            let t0 = prev.t_min;
                            let t1 = prev.t_max;
                            let sz = prev.stack_size as int;
                            assert(rem_set(nodes, ray, t0, t1, popped as int) == Set::empty()
                                .insert(shape_index as int));
                            assert(prev.rem_at(sz - 1).contains(shape_index as int));
                            assert(!prev.yielded@.to_set().contains(shape_index as int));
                        }
                        let ghost before_yield = *self;
                        self.yielded = Ghost(self.yielded@.push(shape_index as int));
                        proof {
                            let nodes = prev.nodes();
                            let ray = prev.ray;
                            let t0 = prev.t_min;
                            let t1 = prev.t_max;
                            let sz = prev.stack_size as int;
                            assert(self.st() =~= prev.st().drop_last());
                            assert(forall|j: int|
                                0 <= j < sz - 1 ==> self.st()[j] == prev.st()[j]);
                            assert(forall|j: int|
                                0 <= j < sz - 1 ==> #[trigger] self.rem_at(j) == prev.rem_at(j));
                            prev.yielded@.lemma_push_to_set_commute(shape_index as int);
                            assert(self.yielded@.to_set() =~= prev.yielded@.to_set().insert(
                                shape_index as int,
                            ));
                            assert(!prev.yielded@.contains(shape_index as int)) by {
                                if prev.yielded@.contains(shape_index as int) {
                                    assert(prev.yielded@.to_set().contains(shape_index as int));
                                }
                            }
                            assert(self.yielded@.no_duplicates()) by {
                                broadcast use vstd::seq_lib::group_seq_properties;

                            }
                            assert(self.pending() =~= stack_sets(nodes, ray, t0, t1, self.st()));
                            assert(prev.pending() =~= self.pending().insert(shape_index as int));
                            assert(self.candidates() == prev.candidates());
                            assert(prev.pending().contains(shape_index as int));
                            assert(prev.candidates().contains(shape_index as int));
                            assert(self.pending().subset_of(self.candidates()));
                            assert(self.yielded@.to_set().subset_of(self.candidates()));
                            assert(self.candidates().subset_of(
                                self.yielded@.to_set().union(self.pending()),
                            ));
                            assert(self.yielded@.to_set().subset_of(
                                subtree_shapes(nodes, self.root()),
                            ));
                            assert forall|j: int|
                                0 <= j < sz - 1 implies self.yielded@.to_set().disjoint(
                                #[trigger] self.rem_at(j),
                            ) by {
                                assert(prev.rem_at(j).disjoint(prev.rem_at(sz - 1)));
                                assert(prev.yielded@.to_set().disjoint(prev.rem_at(j)));
                                assert(self.rem_at(j) == prev.rem_at(j));
                                assert forall|x: int|
                                    self.yielded@.to_set().contains(x) implies !self.rem_at(
                                    j,
                                ).contains(x) by {
                                    if x == shape_index as int {
                                        assert(prev.rem_at(sz - 1).contains(x));
                                        assert(!prev.rem_at(j).contains(x));
                                    } else {
                                        assert(prev.yielded@.to_set().contains(x));
                                    }
                                }
                            }
                            lemma_stack_work_nonneg(nodes, ray, t0, t1, self.st());
                            assert(prev.measure() == stack_work(nodes, ray, t0, t1, self.st())
                                + entry_work(nodes, ray, t0, t1, popped as int));
                            assert(self.measure() < prev.measure());
                        }
                        return Some(shape_index);
                    },
                }
            }
            proof {
                lemma_stack_work_nonneg(
                    self.nodes(),
                    self.ray,
                    self.t_min,
                    self.t_max,
                    self.st(),
                );
                if self.has_node {
                    lemma_visit_work_pos(
                        self.nodes(),
                        self.ray,
                        self.t_min,
                        self.t_max,
                        self.node_index as int,
                    );
                }
            }
        }
    }

    /// Pop the top stack entry.
    fn stack_pop(&mut self) -> (e: usize)
        requires
            old(self).inv(),
            old(self).stack_size > 0,
            !old(self).has_node,
        ensures
            e == old(self).st().last(),
            final(self).stack_size == old(self).stack_size - 1,
            final(self).st() == old(self).st().drop_last(),
            *final(self) == (BVHIterator { stack_size: (old(self).stack_size - 1) as usize, ..*old(self) }),
    {
        self.stack_size = self.stack_size - 1;
        let e = self.stack[self.stack_size];
        proof {
            assert(final(self).st() =~= old(self).st().drop_last());
        }
        e
    }

    /// Push the current node, then descend to its left child if the ray
    /// hits the left box; a leaf or a missed box leaves no current node.
    fn push_and_move_left(&mut self)
        requires
            old(self).inv(),
            old(self).has_node,
        ensures
            final(self).inv(),
            old(self).same_query(*final(self)),
            final(self).yielded@ == old(self).yielded@,
            final(self).measure() < old(self).measure(),
    {
        proof {
            lemma_depth_pos(self.nodes(), self.node_index as int);
        }
        let ghost prev = *self;
        let v = self.node_index;
        self.stack[self.stack_size] = v;
        self.stack_size = self.stack_size + 1;
        proof {
            assert(self.st() =~= prev.st().push(v));
            assert(self.st().drop_last() =~= prev.st());
        }
        let ghost mid = *self;
        match self.bvh.nodes[v] {
            BvhNode::Node { child_l_index, child_l_aabb, child_r_index, child_r_aabb } => {
                let hit_l = self.ray.intersects_aabb(&child_l_aabb, self.t_min, self.t_max);
                if hit_l {
                    self.node_index = child_l_index;
                    self.has_node = true;
                } else {
                    self.has_node = false;
                }
                proof {
                    self.lemma_after_push(prev, mid, v);
                }
            },
            BvhNode::Leaf { shape_index } => {
                self.has_node = false;
                proof {
                    self.lemma_after_push(prev, mid, v);
                }
            },
        }
    }

    /// Re-establish the invariant after pushing `v` and attempting the
    /// left descent.
    proof fn lemma_after_push(&self, prev: Self, mid: Self, v: usize)
        requires
            prev.inv(),
            prev.has_node,
            prev.node_index == v,
            mid == (BVHIterator {
                stack_size: (prev.stack_size + 1) as usize,
                stack: mid.stack,
                ..prev
            }),
            mid.st() == prev.st().push(v),
            *self == (BVHIterator { node_index: self.node_index, has_node: self.has_node, ..mid }),
            self.has_node ==> {
                let nd = prev.nodes()[v as int];
                &&& nd is Node
                &&& self.node_index == nd->child_l_index
                &&& hits_box(prev.ray, nd->child_l_aabb, prev.t_min, prev.t_max)
            },
            !self.has_node ==> (match prev.nodes()[v as int] {
                BvhNode::Node { child_l_index, child_l_aabb, child_r_index, child_r_aabb } =>
                    !hits_box(prev.ray, child_l_aabb, prev.t_min, prev.t_max),
                BvhNode::Leaf { shape_index } => true,
            }),
        ensures
            self.inv(),
            self.measure() < prev.measure(),
    {
        let nodes = prev.nodes();
        let ray = prev.ray;
        let t0 = prev.t_min;
        let t1 = prev.t_max;
        let sz = prev.stack_size as int;
        lemma_depth_pos(nodes, v as int);
        lemma_stack_work_nonneg(nodes, ray, t0, t1, prev.st());
        assert(self.st() == mid.st());
        assert(self.st().drop_last() =~= prev.st());
        assert(self.st().last() == v);
        // Old stack entries are unchanged.
        assert(forall|j: int| 0 <= j < sz ==> self.st()[j] == prev.st()[j]);
        assert(forall|j: int| 0 <= j < sz ==> self.rem_at(j) == prev.rem_at(j));
        match nodes[v as int] {
            BvhNode::Node { child_l_index, child_l_aabb, child_r_index, child_r_aabb } => {
                lemma_reach_subset_shapes(nodes, ray, t0, t1, child_l_index as int);
                lemma_reach_subset_shapes(nodes, ray, t0, t1, child_r_index as int);
                lemma_visit_work_pos(nodes, ray, t0, t1, child_l_index as int);
                lemma_visit_work_pos(nodes, ray, t0, t1, child_r_index as int);
                lemma_depth_pos(nodes, child_l_index as int);
                lemma_depth_pos(nodes, child_r_index as int);
                // reach(v) splits into the left descent and the stack debt.
                assert(prev.cur_set() == (if hits_box(ray, child_l_aabb, t0, t1) {
                    reach(nodes, ray, t0, t1, child_l_index as int)
                } else {
                    Set::<int>::empty()
                }).union(rem_set(nodes, ray, t0, t1, v as int)));
            },
            BvhNode::Leaf { shape_index } => {
                assert(prev.cur_set() == rem_set(nodes, ray, t0, t1, v as int));
            },
        }
        assert(self.pending() =~= prev.pending());
        assert(self.candidates() == prev.candidates());
        assert(self.candidates().subset_of(self.yielded@.to_set().union(self.pending())));
        assert(self.pending().subset_of(self.candidates()));
        assert(self.yielded@.to_set().subset_of(self.candidates()));
    }
}

} // verus!
