use vstd::prelude::*;
use crate::rng::RayRng;
use crate::shared::{riud_s, random_in_unit_disk, vadd_s, vscale_s, vsub_s, Point3, Ray, Vec3,
    SPHERE_SAMPLE_ATTEMPTS};

verus! {

/// The camera, specified purely at its interface: `get_ray` maps
/// normalized image-plane coordinates in `[0, 1]` to a primary ray,
/// jittering the origin over the lens disk for depth of field.
///
/// The viewport basis (origin, lower-left corner, spanning vectors and
/// lens frame) is taken precomputed as plain fixed-point vectors, since
/// deriving it from a field of view involves trigonometry that is not
/// part of the rendering core.
#[derive(Clone, Copy, PartialEq, Eq, Structural, Debug)]
pub struct Camera {
    pub origin: Point3,
    pub lower_left_corner: Point3,
    pub horizontal: Vec3,
    pub vertical: Vec3,
    pub u: Vec3,
    pub v: Vec3,
    pub lens_radius: i64,
}

/// The primary ray for image-plane coordinates `(s, t)`, with the lens
/// jitter drawn from the random source.
pub open spec fn camera_ray_s(cam: Camera, rng: RayRng, s: i64, t: i64) -> (Ray, RayRng) {
    let (d, rng2) = riud_s(rng, SPHERE_SAMPLE_ATTEMPTS as nat);
    let rd = vscale_s(cam.lens_radius, d);
    let offset = vadd_s(vscale_s(rd.x, cam.u), vscale_s(rd.y, cam.v));
    let target = vadd_s(
        vadd_s(cam.lower_left_corner, vscale_s(s, cam.horizontal)),
        vscale_s(t, cam.vertical),
    );
    (
        Ray {
            origin: vadd_s(cam.origin, offset),
            direction: vsub_s(vsub_s(target, cam.origin), offset),
        },
        rng2,
    )
}

impl Camera {
    /// Assemble a camera from its precomputed viewport basis.
    pub fn new(
        origin: Point3,
        lower_left_corner: Point3,
        horizontal: Vec3,
        vertical: Vec3,
        u: Vec3,
        v: Vec3,
        lens_radius: i64,
    ) -> (c: Camera)
        ensures
            c == (Camera { origin, lower_left_corner, horizontal, vertical, u, v, lens_radius }),
    {
        Camera { origin, lower_left_corner, horizontal, vertical, u, v, lens_radius }
    }

    /// The primary ray for normalized image coordinates `(s, t)`.
    pub fn get_ray(&self, rng: &mut RayRng, s: i64, t: i64) -> (r: Ray)
        ensures
            (r, *final(rng)) == camera_ray_s(*self, *old(rng), s, t),
    {
        let d = random_in_unit_disk(rng);
        let rd = d.scale(self.lens_radius);
        let offset = self.u.scale(rd.x).add(self.v.scale(rd.y));
        let target = self.lower_left_corner.add(self.horizontal.scale(s)).add(
            self.vertical.scale(t),
        );
        Ray {
            origin: self.origin.add(offset),
            direction: target.sub(self.origin).sub(offset),
        }
    }
}

} // verus!
