use vstd::prelude::*;
use crate::fixed::{fx_div_s, fx_min_s, fx_mul_s, fx_sqrt_s, fx_sub_s, FX_ONE};
use crate::object::HitRecord;
use crate::rng::{gen_range_val_s, next_state_s, RayRng};
use crate::shared::{
    near_zero_s, random_in_unit_sphere, random_unit_vector, random_unit_vector_s,
    reflectance, reflectance_s, rius_s, vadd_s, vdot_s, vec_reflect, vec_reflect_s, vec_refract,
    vec_refract_s, vneg_s, vnormalize_s, vscale_s, Color, Ray, Vec3, VecExt,
    SPHERE_SAMPLE_ATTEMPTS,
};

verus! {

/// Materials and their scattering rules.
///
/// The material universe is closed — diffuse, metal, dielectric — so a
/// material is a tagged variant and `scatter` dispatches on it. Scattering
/// consumes the caller's random source and returns the attenuation and
/// the scattered ray; the result is exactly `scatter_s` of the incoming
/// state, so rendering stays a pure function of its inputs.

/// Result of `Material::scatter`.
#[derive(Clone, Copy, PartialEq, Eq, Structural, Debug)]
pub struct ScatterResult {
    pub attenuation: Color,
    pub scattered_ray: Ray,
}

#[derive(Clone, Copy, PartialEq, Eq, Structural, Debug)]
pub struct Lambertian {
    pub albedo: Color,
}

#[derive(Clone, Copy, PartialEq, Eq, Structural, Debug)]
pub struct Metal {
    pub albedo: Color,
    pub fuzz: i64,
}

#[derive(Clone, Copy, PartialEq, Eq, Structural, Debug)]
pub struct Dielectric {
    pub ir: i64,
}

/// A material which can scatter rays: one of the closed set of kinds.
#[derive(Clone, Copy, PartialEq, Eq, Structural, Debug)]
pub enum Material {
    Lambertian(Lambertian),
    Metal(Metal),
    Dielectric(Dielectric),
}

/// Diffuse scattering: a unit vector added to the normal, renormalized;
/// a degenerate direction snaps to the normal.
pub open spec fn scatter_lambertian_s(m: Lambertian, rng: RayRng, hit: HitRecord) -> (
    Option<ScatterResult>,
    RayRng,
) {
    let (ruv, r2) = random_unit_vector_s(rng);
    let sd0 = vnormalize_s(vadd_s(hit.normal, ruv));
    let sd = if near_zero_s(sd0) {
        hit.normal
    } else {
        sd0
    };
    (
        Some(
            ScatterResult {
                attenuation: m.albedo,
                scattered_ray: Ray { origin: hit.point, direction: sd },
            },
        ),
        r2,
    )
}

/// Metallic scattering: mirror reflection, fuzzed by a scaled sample from
/// the unit sphere.
pub open spec fn scatter_metal_s(m: Metal, rng: RayRng, ray: Ray, hit: HitRecord) -> (
    Option<ScatterResult>,
    RayRng,
) {
    let reflected = vec_reflect_s(vnormalize_s(ray.direction), hit.normal);
    let (p, r2) = rius_s(rng, SPHERE_SAMPLE_ATTEMPTS as nat);
    let dir = vnormalize_s(vadd_s(reflected, vscale_s(m.fuzz, p)));
    (
        Some(
            ScatterResult {
                attenuation: m.albedo,
                scattered_ray: Ray { origin: hit.point, direction: dir },
            },
        ),
        r2,
    )
}

/// Dielectric scattering: refract when Snell's law allows it and a
/// reflectance draw passes, else reflect; beyond total internal
/// reflection no random draw is made.
pub open spec fn scatter_dielectric_s(m: Dielectric, rng: RayRng, ray: Ray, hit: HitRecord) -> (
    Option<ScatterResult>,
    RayRng,
) {
    let attenuation = Vec3 { x: FX_ONE, y: FX_ONE, z: FX_ONE };
    let refraction_ratio = if hit.front_face {
        fx_div_s(FX_ONE, m.ir)
    } else {
        m.ir
    };
    let unit_direction = vnormalize_s(ray.direction);
    let cos_theta = fx_min_s(vdot_s(vneg_s(unit_direction), hit.normal), FX_ONE);
    let sin_theta = fx_sqrt_s(fx_sub_s(FX_ONE, fx_mul_s(cos_theta, cos_theta)));
    let cannot_refract = fx_mul_s(refraction_ratio, sin_theta) > FX_ONE;
    if cannot_refract {
        let direction = vec_reflect_s(unit_direction, hit.normal);
        (
            Some(
                ScatterResult {
                    attenuation,
                    scattered_ray: Ray { origin: hit.point, direction: vnormalize_s(direction) },
                },
            ),
            rng,
        )
    } else {
        let draw = gen_range_val_s(rng, 0, FX_ONE);
        let r2 = next_state_s(rng);
        let direction = if reflectance_s(cos_theta, refraction_ratio) > draw {
            vec_reflect_s(unit_direction, hit.normal)
        } else {
            vec_refract_s(unit_direction, hit.normal, refraction_ratio)
        };
        (
            Some(
                ScatterResult {
                    attenuation,
                    scattered_ray: Ray { origin: hit.point, direction: vnormalize_s(direction) },
                },
            ),
            r2,
        )
    }
}

/// Scattering for any material kind.
pub open spec fn scatter_s(m: Material, rng: RayRng, ray: Ray, hit: HitRecord) -> (
    Option<ScatterResult>,
    RayRng,
) {
    match m {
        Material::Lambertian(l) => scatter_lambertian_s(l, rng, hit),
        Material::Metal(mm) => scatter_metal_s(mm, rng, ray, hit),
        Material::Dielectric(d) => scatter_dielectric_s(d, rng, ray, hit),
    }
}

impl Material {
    /// Scatter an incoming ray at a hit point, drawing from `rng`.
    pub fn scatter(&self, rng: &mut RayRng, ray: &Ray, hit: &HitRecord) -> (res: Option<
        ScatterResult,
    >)
        ensures
            (res, *final(rng)) == scatter_s(*self, *old(rng), *ray, *hit),
    {
        match self {
            Material::Lambertian(l) => {
                let ruv = random_unit_vector(rng);
                let sd0 = hit.normal.add(ruv).normalize();
                let sd = if sd0.near_zero() {
                    hit.normal
                } else {
                    sd0
                };
                Some(
                    ScatterResult {
                        attenuation: l.albedo,
                        scattered_ray: Ray { origin: hit.point, direction: sd },
                    },
                )
            },
            Material::Metal(m) => {
                let reflected = vec_reflect(ray.direction.normalize(), hit.normal);
                let p = random_in_unit_sphere(rng);
                let dir = reflected.add(p.scale(m.fuzz)).normalize();
                Some(
                    ScatterResult {
                        attenuation: m.albedo,
                        scattered_ray: Ray { origin: hit.point, direction: dir },
                    },
                )
            },
            Material::Dielectric(d) => {
                let attenuation = Vec3 { x: FX_ONE, y: FX_ONE, z: FX_ONE };
                let refraction_ratio = if hit.front_face {
                    crate::fixed::fx_div(FX_ONE, d.ir)
                } else {
                    d.ir
                };
                let unit_direction = ray.direction.normalize();
                let cos_theta = crate::fixed::fx_min(unit_direction.neg().dot(hit.normal), FX_ONE);
                let sin_theta = crate::fixed::fx_sqrt(
                    crate::fixed::fx_sub(FX_ONE, crate::fixed::fx_mul(cos_theta, cos_theta)),
                );
                let cannot_refract = crate::fixed::fx_mul(refraction_ratio, sin_theta) > FX_ONE;
                let direction: Vec3;
                if cannot_refract {
                    direction = vec_reflect(unit_direction, hit.normal);
                } else {
                    let draw = rng.gen_unit();
                    if reflectance(cos_theta, refraction_ratio) > draw {
                        direction = vec_reflect(unit_direction, hit.normal);
                    } else {
                        direction = vec_refract(unit_direction, hit.normal, refraction_ratio);
                    }
                }
                Some(
                    ScatterResult {
                        attenuation,
                        scattered_ray: Ray { origin: hit.point, direction: direction.normalize() },
                    },
                )
            },
        }
    }
}

} // verus!
