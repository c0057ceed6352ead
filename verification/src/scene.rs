use vstd::prelude::*;
use crate::bvh::{
    lemma_hit_reaches, lemma_subtree_ok_tree, node_tree, subtree_ok, subtree_shapes, Bvh,
};
use crate::bvhiter::BVHIterator;
use crate::object::{
    hit_record_s, lemma_sphere_hit_in_box, lemma_sphere_hit_shorten, sphere_box_s,
    sphere_hit_t_s, sphere_outward_normal_s, HitRecord, HittableBounds, Sphere,
};
use crate::shared::RayQuery;

verus! {

/// The scene: the primitive set, their bounds, and the built hierarchy.
///
/// `intersect` composes the hierarchy traversal with the exact sphere
/// intersection and ray shortening, and its contract pins the result
/// completely: on a built scene it returns the closest hit over *all*
/// objects — the nearest parameter, ties going to the lowest index —
/// or `None` exactly when no object is hit. Building with zero objects
/// yields no hierarchy and every query then reports no hit rather than
/// faulting. The scene is never mutated by queries, so one built scene
/// may serve any number of concurrent readers.
pub struct Scene {
    /// List of hittables.
    pub objects: Vec<Sphere>,
    /// List of bounds for hittables.
    pub bounds: Vec<HittableBounds>,
    /// Acceleration structure.
    pub bvh: Option<Bvh>,
}

/// The best (lowest-parameter, then lowest-index) hit among the first
/// `n` objects.
pub open spec fn best_hit(objs: Seq<Sphere>, q: RayQuery, n: int) -> Option<(int, i64)>
    decreases n,
{
    if n <= 0 {
        None
    } else {
        let prev = best_hit(objs, q, n - 1);
        match sphere_hit_t_s(objs[n - 1], q) {
            None => prev,
            Some(t) => match prev {
                None => Some((n - 1, t)),
                Some(p) => if t < p.1 {
                    Some((n - 1, t))
                } else {
                    prev
                },
            },
        }
    }
}

/// The closest hit over a whole object sequence, as a hit record.
pub open spec fn scene_closest_s(objs: Seq<Sphere>, q: RayQuery) -> Option<HitRecord> {
    match best_hit(objs, q, objs.len() as int) {
        None => None,
        Some(p) => Some(
            hit_record_s(
                q.ray,
                p.1,
                sphere_outward_normal_s(objs[p.0], q.ray, p.1),
                objs[p.0].material,
            ),
        ),
    }
}

/// `(j, t)` is the best hit among the first `n` objects: `j` is hit at
/// `t`, everything before `j` is farther, nothing after `j` is nearer.
pub open spec fn is_best_hit(objs: Seq<Sphere>, q: RayQuery, n: int, j: int, t: i64) -> bool {
    &&& 0 <= j < n
    &&& sphere_hit_t_s(objs[j], q) == Some(t)
    &&& forall|k: int|
        0 <= k < j ==> (#[trigger] sphere_hit_t_s(objs[k], q) is None || sphere_hit_t_s(
            objs[k],
            q,
        )->Some_0 > t)
    &&& forall|k: int|
        j < k < n ==> (#[trigger] sphere_hit_t_s(objs[k], q) is None || sphere_hit_t_s(
            objs[k],
            q,
        )->Some_0 >= t)
}

/// `best_hit` is characterized by `is_best_hit`.
pub proof fn lemma_best_hit_char(objs: Seq<Sphere>, q: RayQuery, n: int)
    ensures
        match best_hit(objs, q, n) {
            None => forall|k: int| 0 <= k < n ==> #[trigger] sphere_hit_t_s(objs[k], q) is None,
            Some(p) => is_best_hit(objs, q, n, p.0, p.1),
        },
    decreases n,
{
    if n > 0 {
        lemma_best_hit_char(objs, q, n - 1);
    }
}

/// Any pair satisfying `is_best_hit` is the `best_hit`.
pub proof fn lemma_best_hit_unique(objs: Seq<Sphere>, q: RayQuery, n: int, j: int, t: i64)
    requires
        is_best_hit(objs, q, n, j, t),
    ensures
        best_hit(objs, q, n) == Some((j, t)),
{
    lemma_best_hit_char(objs, q, n);
    match best_hit(objs, q, n) {
        None => {
            assert(sphere_hit_t_s(objs[j], q) is None);
        },
        Some(p) => {
            if p.0 < j {
                assert(sphere_hit_t_s(objs[p.0], q)->Some_0 > t);
                assert(sphere_hit_t_s(objs[j], q)->Some_0 >= p.1);
            } else if p.0 > j {
                assert(sphere_hit_t_s(objs[p.0], q)->Some_0 >= t);
                assert(sphere_hit_t_s(objs[j], q)->Some_0 > p.1);
            }
        },
    }
}

/// No false negatives in the acceleration structure: every object the
/// query intersects has its index among the candidates the hierarchy
/// traversal can reach for that ray and interval.
pub proof fn lemma_bvh_no_false_negatives(s: Scene, q: RayQuery, k: int)
    requires
        s.built(),
        s.bvh is Some,
        0 <= k < s.objects@.len(),
        sphere_hit_t_s(s.objects@[k], q) is Some,
    ensures
        crate::bvh::reach(
            s.bvh->Some_0.nodes@,
            q.ray,
            q.t_min,
            q.t_max,
            s.bvh->Some_0.root as int,
        ).contains(k),
{
    let b = s.bvh->Some_0;
    lemma_sphere_hit_in_box(s.objects@[k], q);
    assert(s.bounds@[k].aabb == sphere_box_s(s.objects@[k]));
    assert(subtree_shapes(b.nodes@, b.root as int).contains(k));
    lemma_hit_reaches(b.nodes@, s.bounds@, q.ray, q.t_min, q.t_max, b.root as int, b.root_aabb, k);
}

impl Scene {
    /// The scene invariant once `build_bvh` has run: bounds mirror the
    /// objects, and the hierarchy (present exactly when there are
    /// objects) is well-formed over them with its leaves covering every
    /// object index.
    pub open spec fn built(self) -> bool {
        &&& self.bounds@.len() == self.objects@.len()
        &&& forall|k: int|
            0 <= k < self.bounds@.len() ==> (#[trigger] self.bounds@[k]).aabb == sphere_box_s(
                self.objects@[k],
            ) && self.bounds@[k].hittable_index == k
        &&& match self.bvh {
            None => self.objects@.len() == 0,
            Some(b) => {
                &&& b.root < b.nodes@.len()
                &&& subtree_ok(b.nodes@, self.bounds@, b.root as int, b.root_aabb)
                &&& node_tree(b.nodes@, b.root as int)
                &&& crate::bvh::depth(b.nodes@, b.root as int) <= 32
                &&& subtree_shapes(b.nodes@, b.root as int) == Set::new(
                    |s: int| 0 <= s < self.objects@.len(),
                )
            },
        }
    }

    pub fn new() -> (s: Scene)
        ensures
            s.objects@.len() == 0,
            s.bounds@.len() == 0,
            s.bvh is None,
            s.built(),
    {
        Scene { objects: Vec::new(), bounds: Vec::new(), bvh: None }
    }

    /// Compute all bounds and build the hierarchy; with no objects the
    /// scene stays without one.
    pub fn build_bvh(&mut self)
        requires
            old(self).objects@.len() <= 0x4000_0000,
        ensures
            final(self).objects == old(self).objects,
            final(self).built(),
            final(self).bvh is Some <==> old(self).objects@.len() > 0,
    {
        let n = self.objects.len();
        let mut bounds: Vec<HittableBounds> = Vec::new();
        let mut i: usize = 0;
        while i < n
            invariant
                i <= n,
                n == self.objects@.len(),
                bounds@.len() == i,
                forall|k: int|
                    0 <= k < i as int ==> (#[trigger] bounds@[k]).aabb == sphere_box_s(
                        self.objects@[k],
                    ) && bounds@[k].hittable_index == k,
            decreases n - i,
        {
            let b = self.objects[i].compute_bounds_sphere(i);
            bounds.push(b);
            i = i + 1;
        }
        self.bounds = bounds;
        if n == 0 {
            self.bvh = None;
        } else {
            let bvh = Bvh::build(&self.bounds);
            proof {
                lemma_subtree_ok_tree(bvh.nodes@, self.bounds@, bvh.root as int, bvh.root_aabb);
            }
            self.bvh = Some(bvh);
        }
    }

    /// Return the closest intersection (or `None`) in the scene using
    /// the ray. On a built scene the result is exactly the nearest hit
    /// over all objects (lowest parameter, ties to the lowest index);
    /// without a hierarchy every query reports no hit.
    pub fn intersect(&self, query: RayQuery) -> (res: Option<HitRecord>)
        requires
            self.built(),
        ensures
            self.bvh is None ==> res is None,
            self.bvh is Some ==> res == scene_closest_s(self.objects@, query),
    {
        let bvh = match &self.bvh {
            None => {
                return None;
            },
            Some(b) => b,
        };
        let ghost objs = self.objects@;
        let n = self.objects.len();
        let mut q = query;
        let mut closest: Option<HitRecord> = None;
        let mut closest_i: usize = 0;
        let mut iter = BVHIterator::new(bvh, query.ray, query.t_min, query.t_max);
        loop
            invariant
                iter.inv(),
                iter.bvh == bvh,
                iter.ray == query.ray,
                iter.t_min == query.t_min,
                iter.t_max == query.t_max,
                n == objs.len(),
                objs == self.objects@,
                self.built(),
                self.bvh == Some(*bvh),
                q.ray == query.ray,
                q.t_min == query.t_min,
                match closest {
                    None => q.t_max == query.t_max,
                    Some(h) => q.t_max == h.t,
                },
                forall|k: int| iter.yielded@.to_set().contains(k) ==> 0 <= k < n as int,
                match closest {
                    None => forall|k: int|
                        iter.yielded@.to_set().contains(k) ==> #[trigger] sphere_hit_t_s(
                            objs[k],
                            query,
                        ) is None,
                    Some(h) => {
                        &&& 0 <= (closest_i as int) < n as int
                        &&& iter.yielded@.to_set().contains(closest_i as int)
                        &&& sphere_hit_t_s(objs[closest_i as int], query) == Some(h.t)
                        &&& h == hit_record_s(
                            query.ray,
                            h.t,
                            sphere_outward_normal_s(objs[closest_i as int], query.ray, h.t),
                            objs[closest_i as int].material,
                        )
                        &&& query.t_min <= h.t <= query.t_max
                        &&& forall|k: int|
                            iter.yielded@.to_set().contains(k) && k != closest_i as int
                                ==> (#[trigger] sphere_hit_t_s(objs[k], query) is None
                                || sphere_hit_t_s(objs[k], query)->Some_0 > h.t || (sphere_hit_t_s(
                                objs[k],
                                query,
                            )->Some_0 == h.t && k > closest_i as int))
                    },
                },
            ensures
                forall|k: int| iter.yielded@.to_set().contains(k) ==> 0 <= k < n as int,
                iter.candidates().subset_of(iter.yielded@.to_set()),
                iter.ray == query.ray && iter.t_min == query.t_min && iter.t_max == query.t_max
                    && iter.bvh == bvh,
                match closest {
                    None => forall|k: int|
                        iter.yielded@.to_set().contains(k) ==> #[trigger] sphere_hit_t_s(
                            objs[k],
                            query,
                        ) is None,
                    Some(h) => {
                        &&& 0 <= (closest_i as int) < n as int
                        &&& sphere_hit_t_s(objs[closest_i as int], query) == Some(h.t)
                        &&& h == hit_record_s(
                            query.ray,
                            h.t,
                            sphere_outward_normal_s(objs[closest_i as int], query.ray, h.t),
                            objs[closest_i as int].material,
                        )
                        &&& forall|k: int|
                            iter.yielded@.to_set().contains(k) && k != closest_i as int
                                ==> (#[trigger] sphere_hit_t_s(objs[k], query) is None
                                || sphere_hit_t_s(objs[k], query)->Some_0 > h.t || (sphere_hit_t_s(
                                objs[k],
                                query,
                            )->Some_0 == h.t && k > closest_i as int))
                    },
                },
            decreases iter.measure(),
        {
            let ghost y_old = iter.yielded@;
            let ghost iter_old = iter;
            proof {
                crate::bvhiter::lemma_measure_nonneg(iter);
            }
            let next_candidate = iter.next();
            proof {
                crate::bvhiter::lemma_measure_nonneg(iter);
            }
            let bi = match next_candidate {
                None => {
                    proof {
                        assert(iter.candidates() == iter_old.candidates());
                    }
                    break ;
                },
                Some(bi) => bi,
            };
            proof {
                assert(subtree_shapes(bvh.nodes@, bvh.root as int).contains(bi as int));
                y_old.lemma_push_to_set_commute(bi as int);
                assert(iter.yielded@.to_set() =~= y_old.to_set().insert(bi as int));
            }
            let ghost q_pre = q;
            let ghost closest_pre = closest;
            let ghost ci_pre = closest_i as int;
            let hit_option = self.objects[bi].intersect_sphere(q);
            proof {
                lemma_sphere_hit_shorten(objs[bi as int], query, q.t_max);
                assert(RayQuery { t_max: q.t_max, ..query } == q);
                if sphere_hit_t_s(objs[bi as int], query) is Some {
                    lemma_sphere_hit_in_box(objs[bi as int], query);
                }
                if closest_pre is Some {
                    assert(iter.yielded@.to_set().contains(ci_pre));
                    assert(!y_old.to_set().contains(bi as int));
                    assert(bi as int != ci_pre || !y_old.to_set().contains(ci_pre));
                }
            }
            match hit_option {
                None => {
                    proof {
                        // A full-query hit at this object would lie within
                        // the current interval and so would have been
                        // reported by the shortened query.
                        if sphere_hit_t_s(objs[bi as int], query) is Some {
                            let t = sphere_hit_t_s(objs[bi as int], query)->Some_0;
                            assert(t > q.t_max);
                            if closest_pre is None {
                                assert(t <= query.t_max);
                                assert(false);
                            }
                        }
                    }
                },
                Some(h2) => {
                    // The shortened query only reports hits of the full
                    // query, so this is a real hit at the same parameter.
                    proof {
                        assert(sphere_hit_t_s(objs[bi as int], query) == Some(h2.t));
                        assert(q.t_min <= h2.t <= q.t_max);
                    }
                    let replace = match &closest {
                        None => true,
                        Some(h) => h2.t < h.t || (h2.t == h.t && bi < closest_i),
                    };
                    // Shrink the ray.
                    q.t_max = crate::fixed::fx_min(q.t_max, h2.t);
                    if replace {
                        closest_i = bi;
                        closest = Some(h2);
                        proof {
                            if closest_pre is Some {
                                let h = closest_pre->Some_0;
                                assert forall|k: int|
                                    iter.yielded@.to_set().contains(k) && k != bi as int
                                        implies (#[trigger] sphere_hit_t_s(objs[k], query) is None
                                        || sphere_hit_t_s(objs[k], query)->Some_0 > h2.t || (
                                    sphere_hit_t_s(objs[k], query)->Some_0 == h2.t && k > bi
                                        as int)) by {
                                    if k == ci_pre {
                                        assert(sphere_hit_t_s(objs[k], query) == Some(h.t));
                                        assert(h2.t < h.t || (h2.t == h.t && (bi as int) < ci_pre));
                                    } else {
                                        assert(y_old.to_set().contains(k));
                                    }
                                }
                            }
                        }
                    } else {
                        proof {
                            let h = closest_pre->Some_0;
                            assert(h2.t == h.t && bi as int > ci_pre || h2.t > h.t);
                            assert forall|k: int|
                                iter.yielded@.to_set().contains(k) && k != ci_pre implies (
                            #[trigger] sphere_hit_t_s(objs[k], query) is None || sphere_hit_t_s(
                                objs[k],
                                query,
                            )->Some_0 > h.t || (sphere_hit_t_s(objs[k], query)->Some_0 == h.t && k
                                > ci_pre)) by {
                                if k == bi as int {
                                } else {
                                    assert(y_old.to_set().contains(k));
                                }
                            }
                        }
                    }
                },
            }
        }
        proof {
            // Traversal complete: any object not yielded cannot be hit,
            // because a hit implies its box is hit, which implies the
            // traversal reaches it.
            assert forall|k: int|
                0 <= k < n as int && !iter.yielded@.to_set().contains(k) implies #[trigger]
                sphere_hit_t_s(objs[k], query) is None by {
                if sphere_hit_t_s(objs[k], query) is Some {
                    lemma_sphere_hit_in_box(objs[k], query);
                    assert(self.bounds@[k].aabb == sphere_box_s(objs[k]));
                    assert(subtree_shapes(bvh.nodes@, bvh.root as int).contains(k));
                    lemma_hit_reaches(
                        bvh.nodes@,
                        self.bounds@,
                        query.ray,
                        query.t_min,
                        query.t_max,
                        bvh.root as int,
                        bvh.root_aabb,
                        k,
                    );
                    assert(iter.candidates().contains(k));
                }
            }
            match closest {
                None => {
                    assert forall|k: int|
                        0 <= k < n as int implies #[trigger] sphere_hit_t_s(
                        objs[k],
                        query,
                    ) is None by {
                        if iter.yielded@.to_set().contains(k) {
                        }
                    }
                    lemma_best_hit_char(objs, query, n as int);
                    assert(best_hit(objs, query, n as int) is None) by {
                        if best_hit(objs, query, n as int) is Some {
                            let p = best_hit(objs, query, n as int)->Some_0;
                            assert(sphere_hit_t_s(objs[p.0], query) is None);
                        }
                    }
                },
                Some(h) => {
                    assert forall|k: int|
                        0 <= k < closest_i as int implies (#[trigger] sphere_hit_t_s(
                        objs[k],
                        query,
                    ) is None || sphere_hit_t_s(objs[k], query)->Some_0 > h.t) by {
                        if iter.yielded@.to_set().contains(k) {
                        }
                    }
                    assert forall|k: int|
                        (closest_i as int) < k < n as int implies (#[trigger] sphere_hit_t_s(
                        objs[k],
                        query,
                    ) is None || sphere_hit_t_s(objs[k], query)->Some_0 >= h.t) by {
                        if iter.yielded@.to_set().contains(k) {
                        }
                    }
                    assert(is_best_hit(objs, query, n as int, closest_i as int, h.t));
                    lemma_best_hit_unique(objs, query, n as int, closest_i as int, h.t);
                },
            }
        }
        closest
    }
}

} // verus!
