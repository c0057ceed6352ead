use vstd::prelude::*;
use crate::aabb::{ray_in_box_at, Aabb};
use crate::fixed::{
    fx_add, fx_add_s, fx_div, fx_div_s, fx_mul, fx_mul_s, fx_neg, fx_neg_s, fx_sqrt, fx_sqrt_s,
    fx_sub, fx_sub_s, FX_ONE,
};
use crate::material::Material;
use crate::shared::{ray_at_s, vadd_s, vdot_s, vlen_sq_s, vneg_s, vscale_s, vsub_s, Point3, Ray,
    RayQuery, Vec3};

verus! {

/// Scene objects: the representative primitive is the sphere.
///
/// `Sphere::intersect` finds the nearest root of the ray-sphere quadratic
/// inside the query interval. A root is only reported when the hit point
/// also lies inside the sphere's own bounding box, so every reported hit
/// is visible to the bounding-volume hierarchy (no hit can escape its
/// box); a borderline point pushed outside the box by rounding counts as
/// a miss, as other numerical edge cases do.

/// Information of a ray hit.
#[derive(Clone, Copy, PartialEq, Eq, Structural, Debug)]
pub struct HitRecord {
    pub point: Point3,
    pub normal: Vec3,
    pub t: i64,
    pub front_face: bool,
    pub material: Material,
}

/// The hit record built from a ray, a parameter and the outward normal:
/// the stored normal is oriented against the incoming ray.
pub open spec fn hit_record_s(ray: Ray, t: i64, outward_normal: Vec3, material: Material)
    -> HitRecord {
    let front_face = vdot_s(ray.direction, outward_normal) < 0;
    HitRecord {
        point: ray_at_s(ray, t),
        normal: if front_face {
            outward_normal
        } else {
            vneg_s(outward_normal)
        },
        t,
        front_face,
        material,
    }
}

impl HitRecord {
    pub fn new(ray: Ray, t: i64, outward_normal: Vec3, material: Material) -> (r: HitRecord)
        ensures
            r == hit_record_s(ray, t, outward_normal, material),
    {
        let front_face = ray.direction.dot(outward_normal) < 0;
        let normal = if front_face {
            outward_normal
        } else {
            outward_normal.neg()
        };
        HitRecord { point: ray.at(t), normal, t, front_face, material }
    }
}

/// Bounds of one object, with its slot in the hierarchy.
#[derive(Clone, Copy, PartialEq, Eq, Structural, Debug)]
pub struct HittableBounds {
    pub aabb: Aabb,
    pub node_index: usize,
    pub hittable_index: usize,
}

impl HittableBounds {
    pub fn aabb(&self) -> (r: Aabb)
        ensures
            r == self.aabb,
    {
        self.aabb
    }

    pub fn set_bh_node_index(&mut self, index: usize)
        ensures
            *final(self) == (HittableBounds { node_index: index, ..*old(self) }),
    {
        self.node_index = index;
    }

    pub fn bh_node_index(&self) -> (r: usize)
        ensures
            r == self.node_index,
    {
        self.node_index
    }
}

/// An object in the scene which can be hit with a ray.
pub trait RayHittable {
    /// Intersect ray with object.
    fn intersect(&self, query: RayQuery) -> Option<HitRecord>;

    /// Return bounds.
    fn compute_bounds(&self, index: usize) -> HittableBounds;
}

#[derive(Clone, Copy, PartialEq, Eq, Structural, Debug)]
pub struct Sphere {
    pub center: Point3,
    pub radius: i64,
    pub material: Material,
    pub radius_rcp: i64,
    pub radius_sq: i64,
}

/// The derived fields match the radius, and the radius is positive: a
/// degenerate sphere is rejected at construction.
pub open spec fn sphere_wf(s: Sphere) -> bool {
    &&& s.radius > 0
    &&& s.radius_rcp == fx_div_s(FX_ONE, s.radius)
    &&& s.radius_sq == fx_mul_s(s.radius, s.radius)
}

/// The sphere's axis-aligned bounding box, `center ± radius`.
pub open spec fn sphere_box_s(s: Sphere) -> Aabb {
    let half = Vec3 { x: s.radius, y: s.radius, z: s.radius };
    Aabb { min: vsub_s(s.center, half), max: vadd_s(s.center, half) }
}

/// The nearest acceptable root of the ray-sphere quadratic: within the
/// query interval, and with its hit point inside the sphere's box.
#[verifier::opaque]
pub open spec fn sphere_hit_t_s(s: Sphere, q: RayQuery) -> Option<i64> {
    let r = q.ray;
    let oc = vsub_s(r.origin, s.center);
    let a = vlen_sq_s(r.direction);
    let half_b = vdot_s(oc, r.direction);
    let c = fx_sub_s(vlen_sq_s(oc), s.radius_sq);
    let disc = fx_sub_s(fx_mul_s(half_b, half_b), fx_mul_s(a, c));
    if a <= 0 || disc < 0 {
        None
    } else {
        let sq = fx_sqrt_s(disc);
        let root1 = fx_div_s(fx_sub_s(fx_neg_s(half_b), sq), a);
        let root2 = fx_div_s(fx_add_s(fx_neg_s(half_b), sq), a);
        if q.t_min <= root1 && root1 <= q.t_max && ray_in_box_at(r, sphere_box_s(s), root1 as int) {
            Some(root1)
        } else if q.t_min <= root2 && root2 <= q.t_max && ray_in_box_at(
            r,
            sphere_box_s(s),
            root2 as int,
        ) {
            Some(root2)
        } else {
            None
        }
    }
}

/// The outward normal at the hit point, scaled by the radius reciprocal.
pub open spec fn sphere_outward_normal_s(s: Sphere, ray: Ray, t: i64) -> Vec3 {
    vscale_s(s.radius_rcp, vsub_s(ray_at_s(ray, t), s.center))
}

/// The full intersection result of a sphere.
pub open spec fn sphere_intersect_s(s: Sphere, q: RayQuery) -> Option<HitRecord> {
    match sphere_hit_t_s(s, q) {
        None => None,
        Some(t) => Some(hit_record_s(q.ray, t, sphere_outward_normal_s(s, q.ray, t), s.material)),
    }
}

impl Sphere {
    /// Construct a sphere; a degenerate (non-positive) radius is rejected
    /// here by precondition rather than propagated into the geometry.
    pub fn new(center: Point3, radius: i64, material: &Material) -> (s: Sphere)
        requires
            radius > 0,
        ensures
            s.center == center,
            s.radius == radius,
            s.material == *material,
            sphere_wf(s),
    {
        Sphere {
            center,
            radius,
            material: *material,
            radius_rcp: fx_div(FX_ONE, radius),
            radius_sq: fx_mul(radius, radius),
        }
    }

    /// The nearest hit in the query interval, or none; exactly
    /// `sphere_intersect_s`. Every reported hit parameter lies within
    /// `[t_min, t_max]` and its point lies inside the sphere's box.
    pub fn intersect_sphere(&self, query: RayQuery) -> (res: Option<HitRecord>)
        ensures
            res == sphere_intersect_s(*self, query),
            res is Some ==> {
                let t = sphere_hit_t_s(*self, query)->Some_0;
                &&& res->Some_0.t == t
                &&& query.t_min <= t <= query.t_max
                &&& ray_in_box_at(query.ray, sphere_box_s(*self), t as int)
            },
    {
        proof {
            reveal(sphere_hit_t_s);
        }
        let r = query.ray;
        let oc = r.origin.sub(self.center);
        let a = r.direction.length_squared();
        let half_b = oc.dot(r.direction);
        let c = fx_sub(oc.length_squared(), self.radius_sq);
        let disc = fx_sub(fx_mul(half_b, half_b), fx_mul(a, c));
        if a <= 0 || disc < 0 {
            return None;
        }
        let sq = fx_sqrt(disc);
        let root1 = fx_div(fx_sub(fx_neg(half_b), sq), a);
        let root2 = fx_div(fx_add(fx_neg(half_b), sq), a);
        let own_box = self.bounds_box();
        let t: i64;
        if query.t_min <= root1 && root1 <= query.t_max && crate::aabb::point_in_box_at(
            &r,
            &own_box,
            root1,
        ) {
            t = root1;
        } else if query.t_min <= root2 && root2 <= query.t_max && crate::aabb::point_in_box_at(
            &r,
            &own_box,
            root2,
        ) {
            t = root2;
        } else {
            return None;
        }
        let point = r.at(t);
        let outward_normal = point.sub(self.center).scale(self.radius_rcp);
        Some(HitRecord::new(r, t, outward_normal, self.material))
    }

    /// The sphere's bounding box, `center ± radius` on each axis.
    pub fn bounds_box(&self) -> (b: Aabb)
        ensures
            b == sphere_box_s(*self),
    {
        let half = Vec3 { x: self.radius, y: self.radius, z: self.radius };
        Aabb { min: self.center.sub(half), max: self.center.add(half) }
    }

    /// The bounds entry handed to the hierarchy builder.
    pub fn compute_bounds_sphere(&self, hittable_index: usize) -> (b: HittableBounds)
        ensures
            b.aabb == sphere_box_s(*self),
            b.hittable_index == hittable_index,
            b.node_index == 0,
    {
        HittableBounds { aabb: self.bounds_box(), node_index: 0, hittable_index }
    }
}

/// Both roots, for reasoning about the intersection: the far root never
/// precedes the near one.
pub proof fn lemma_sphere_roots_ordered(s: Sphere, q: RayQuery)
    ensures
        ({
            let r = q.ray;
            let oc = vsub_s(r.origin, s.center);
            let a = vlen_sq_s(r.direction);
            let half_b = vdot_s(oc, r.direction);
            let c = fx_sub_s(vlen_sq_s(oc), s.radius_sq);
            let disc = fx_sub_s(fx_mul_s(half_b, half_b), fx_mul_s(a, c));
            let sq = crate::fixed::fx_sqrt_s(disc);
            a > 0 ==> fx_div_s(fx_sub_s(crate::fixed::fx_neg_s(half_b), sq), a) <= fx_div_s(
                fx_add_s(crate::fixed::fx_neg_s(half_b), sq),
                a,
            )
        }),
{
    reveal(sphere_hit_t_s);
    let r = q.ray;
    let oc = vsub_s(r.origin, s.center);
    let a = vlen_sq_s(r.direction);
    let half_b = vdot_s(oc, r.direction);
    let c = fx_sub_s(vlen_sq_s(oc), s.radius_sq);
    let disc = fx_sub_s(fx_mul_s(half_b, half_b), fx_mul_s(a, c));
    let sq = crate::fixed::fx_sqrt_s(disc);
    crate::fixed::lemma_fx_sqrt_nonneg(disc);
    if a > 0 {
        let nh = crate::fixed::fx_neg_s(half_b);
        crate::fixed::lemma_sat_monotone(nh - sq, nh + sq);
        crate::fixed::lemma_fx_div_monotone(fx_sub_s(nh, sq), fx_add_s(nh, sq), a);
    }
}

/// Shrinking the far end of the query interval only discards farther
/// hits: the shortened query reports exactly the hits of the full query
/// whose parameter still fits.
pub proof fn lemma_sphere_hit_shorten(s: Sphere, q: RayQuery, tm: i64)
    requires
        tm <= q.t_max,
    ensures
        ({
            let q2 = RayQuery { t_max: tm, ..q };
            sphere_hit_t_s(s, q2) == (match sphere_hit_t_s(s, q) {
                Some(t) => if t <= tm {
                    Some(t)
                } else {
                    None::<i64>
                },
                None => None::<i64>,
            })
        }),
{
    reveal(sphere_hit_t_s);
    lemma_sphere_roots_ordered(s, q);
}

/// A reported hit parameter always lies inside the query interval and
/// its point inside the sphere's own box, so the ray hits that box.
pub proof fn lemma_sphere_hit_in_box(s: Sphere, q: RayQuery)
    requires
        sphere_hit_t_s(s, q) is Some,
    ensures
        crate::aabb::hits_box(q.ray, sphere_box_s(s), q.t_min, q.t_max),
        q.t_min <= sphere_hit_t_s(s, q)->Some_0 <= q.t_max,
{
    reveal(sphere_hit_t_s);
    let t = sphere_hit_t_s(s, q)->Some_0;
    assert(q.t_min <= t as int <= q.t_max && ray_in_box_at(q.ray, sphere_box_s(s), t as int));
}

impl RayHittable for Sphere {
    /// The nearest hit in the query interval, or none; exactly
    /// `sphere_intersect_s`, with the same guarantees as
    /// `intersect_sphere`.
    fn intersect(&self, query: RayQuery) -> (res: Option<HitRecord>)
        ensures
            res == sphere_intersect_s(*self, query),
            res is Some ==> {
                let t = sphere_hit_t_s(*self, query)->Some_0;
                &&& res->Some_0.t == t
                &&& query.t_min <= t <= query.t_max
                &&& ray_in_box_at(query.ray, sphere_box_s(*self), t as int)
            },
    {
        self.intersect_sphere(query)
    }

    /// The bounds entry for this sphere: its box is `center ± radius`
    /// and it records the given index.
    fn compute_bounds(&self, index: usize) -> (b: HittableBounds)
        ensures
            b.aabb == sphere_box_s(*self),
            b.hittable_index == index,
            b.node_index == 0,
    {
        self.compute_bounds_sphere(index)
    }
}

} // verus!
