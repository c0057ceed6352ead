use vstd::prelude::*;
use crate::fixed::{
    fx_abs, fx_abs_s, fx_add, fx_add_s, fx_div, fx_div_s, fx_from_int, fx_from_int_s, fx_max,
    fx_max_s, fx_min, fx_min_s, fx_mul, fx_mul_s, fx_neg, fx_neg_s, fx_sqrt, fx_sqrt_s, fx_sub,
    fx_sub_s, lemma_sqrt_floor, FX_LIMIT, FX_ONE,
};
use crate::rng::{gen_range_val_s, next_state_s, RayRng};

verus! {

/// Shared geometric and colour types used throughout the renderer.
///
/// A `Vec3` holds three fixed-point coordinates; `Point3` and `Color` are
/// the same type used for positions and for radiance values. Every
/// operation returns exactly the value of its spec-level counterpart, so
/// whole-renderer results are pure functions of their inputs.

pub type Point3 = Vec3;

pub type Color = Vec3;

/// A packed 0x00RRGGBB pixel for display buffers.
pub type ColorDisplay = u32;

/// Rays start a little off their origin to avoid re-hitting the surface.
pub const TRACE_EPSILON: i64 = 66;

/// The far limit of a primary ray: the fixed-point saturation bound.
pub const TRACE_INFINITY: i64 = FX_LIMIT;

/// A three-component fixed-point vector.
#[derive(Clone, Copy, PartialEq, Eq, Structural, Debug)]
pub struct Vec3 {
    pub x: i64,
    pub y: i64,
    pub z: i64,
}

pub open spec fn vadd_s(a: Vec3, b: Vec3) -> Vec3 {
    Vec3 { x: fx_add_s(a.x, b.x), y: fx_add_s(a.y, b.y), z: fx_add_s(a.z, b.z) }
}

pub open spec fn vsub_s(a: Vec3, b: Vec3) -> Vec3 {
    Vec3 { x: fx_sub_s(a.x, b.x), y: fx_sub_s(a.y, b.y), z: fx_sub_s(a.z, b.z) }
}

pub open spec fn vneg_s(a: Vec3) -> Vec3 {
    Vec3 { x: fx_neg_s(a.x), y: fx_neg_s(a.y), z: fx_neg_s(a.z) }
}

pub open spec fn vscale_s(k: i64, a: Vec3) -> Vec3 {
    Vec3 { x: fx_mul_s(k, a.x), y: fx_mul_s(k, a.y), z: fx_mul_s(k, a.z) }
}

pub open spec fn vcmul_s(a: Vec3, b: Vec3) -> Vec3 {
    Vec3 { x: fx_mul_s(a.x, b.x), y: fx_mul_s(a.y, b.y), z: fx_mul_s(a.z, b.z) }
}

pub open spec fn vdot_s(a: Vec3, b: Vec3) -> i64 {
    fx_add_s(fx_add_s(fx_mul_s(a.x, b.x), fx_mul_s(a.y, b.y)), fx_mul_s(a.z, b.z))
}

pub open spec fn vlen_sq_s(a: Vec3) -> i64 {
    vdot_s(a, a)
}

pub open spec fn vlen_s(a: Vec3) -> i64 {
    fx_sqrt_s(vlen_sq_s(a))
}

pub open spec fn vnormalize_s(a: Vec3) -> Vec3 {
    let len = vlen_s(a);
    Vec3 { x: fx_div_s(a.x, len), y: fx_div_s(a.y, len), z: fx_div_s(a.z, len) }
}

impl Vec3 {
    pub fn new(x: i64, y: i64, z: i64) -> (r: Vec3)
        ensures
            r == (Vec3 { x, y, z }),
    {
        Vec3 { x, y, z }
    }

    /// The zero vector: the origin, and also zero radiance (black).
    pub fn zero() -> (r: Vec3)
        ensures
            r == (Vec3 { x: 0, y: 0, z: 0 }),
    {
        Vec3 { x: 0, y: 0, z: 0 }
    }

    /// Build a vector from whole-number coordinates.
    pub fn from_ints(x: i64, y: i64, z: i64) -> (r: Vec3)
        ensures
            r == (Vec3 {
                x: fx_from_int_s(x),
                y: fx_from_int_s(y),
                z: fx_from_int_s(z),
            }),
    {
        Vec3 { x: fx_from_int(x), y: fx_from_int(y), z: fx_from_int(z) }
    }

    pub fn add(self, b: Vec3) -> (r: Vec3)
        ensures
            r == vadd_s(self, b),
    {
        Vec3 { x: fx_add(self.x, b.x), y: fx_add(self.y, b.y), z: fx_add(self.z, b.z) }
    }

    pub fn sub(self, b: Vec3) -> (r: Vec3)
        ensures
            r == vsub_s(self, b),
    {
        Vec3 { x: fx_sub(self.x, b.x), y: fx_sub(self.y, b.y), z: fx_sub(self.z, b.z) }
    }

    pub fn neg(self) -> (r: Vec3)
        ensures
            r == vneg_s(self),
    {
        Vec3 { x: fx_neg(self.x), y: fx_neg(self.y), z: fx_neg(self.z) }
    }

    pub fn scale(self, k: i64) -> (r: Vec3)
        ensures
            r == vscale_s(k, self),
    {
        Vec3 { x: fx_mul(k, self.x), y: fx_mul(k, self.y), z: fx_mul(k, self.z) }
    }

    /// Component-wise product, as used for attenuation of radiance.
    pub fn cmul(self, b: Vec3) -> (r: Vec3)
        ensures
            r == vcmul_s(self, b),
    {
        Vec3 { x: fx_mul(self.x, b.x), y: fx_mul(self.y, b.y), z: fx_mul(self.z, b.z) }
    }

    pub fn dot(self, b: Vec3) -> (r: i64)
        ensures
            r == vdot_s(self, b),
    {
        fx_add(fx_add(fx_mul(self.x, b.x), fx_mul(self.y, b.y)), fx_mul(self.z, b.z))
    }

    pub fn length_squared(self) -> (r: i64)
        ensures
            r == vlen_sq_s(self),
    {
        self.dot(self)
    }

    pub fn length(self) -> (r: i64)
        ensures
            r == vlen_s(self),
    {
        fx_sqrt(self.length_squared())
    }

    /// Divide each component by a scalar; division by zero yields zero.
    pub fn div_scalar(self, k: i64) -> (r: Vec3)
        ensures
            r == vdiv_s(self, k),
    {
        Vec3 { x: fx_div(self.x, k), y: fx_div(self.y, k), z: fx_div(self.z, k) }
    }

    /// Scale to unit length; the zero vector stays zero.
    pub fn normalize(self) -> (r: Vec3)
        ensures
            r == vnormalize_s(self),
    {
        let len = self.length();
        Vec3 { x: fx_div(self.x, len), y: fx_div(self.y, len), z: fx_div(self.z, len) }
    }
}

pub open spec fn vdiv_s(a: Vec3, k: i64) -> Vec3 {
    Vec3 { x: fx_div_s(a.x, k), y: fx_div_s(a.y, k), z: fx_div_s(a.z, k) }
}

/// Vec3 extensions.
pub trait VecExt {
    /// Are all components near zero.
    fn near_zero(&self) -> bool;
}

pub open spec fn near_zero_s(v: Vec3) -> bool {
    fx_abs_s(v.x) < NEAR_ZERO_EPSILON && fx_abs_s(v.y) < NEAR_ZERO_EPSILON && fx_abs_s(v.z)
        < NEAR_ZERO_EPSILON
}

/// Threshold under which a scatter direction counts as degenerate.
pub const NEAR_ZERO_EPSILON: i64 = 2;

impl VecExt for Vec3 {
    fn near_zero(&self) -> (r: bool)
        ensures
            r == near_zero_s(*self),
    {
        fx_abs(self.x) < NEAR_ZERO_EPSILON && fx_abs(self.y) < NEAR_ZERO_EPSILON && fx_abs(self.z)
            < NEAR_ZERO_EPSILON
    }
}

/// A minimal ray.
#[derive(Clone, Copy, PartialEq, Eq, Structural, Debug)]
pub struct Ray {
    pub origin: Vec3,
    pub direction: Vec3,
}

pub open spec fn ray_at_s(r: Ray, t: i64) -> Vec3 {
    vadd_s(r.origin, vscale_s(t, r.direction))
}

impl Ray {
    pub fn new(origin: Vec3, direction: Vec3) -> (r: Ray)
        ensures
            r == (Ray { origin, direction }),
    {
        Ray { origin, direction }
    }

    /// The point reached after parameter `t` along the ray.
    pub fn at(&self, t: i64) -> (p: Vec3)
        ensures
            p == ray_at_s(*self, t),
    {
        self.origin.add(self.direction.scale(t))
    }
}

/// A ray with the parameter interval in which hits count.
#[derive(Clone, Copy, PartialEq, Eq, Structural, Debug)]
pub struct RayQuery {
    pub ray: Ray,
    pub t_min: i64,
    pub t_max: i64,
}

/// Flat index of pixel (x, y) in a row-major image buffer.
pub fn index_from_xy(image_width: u32, _image_height: u32, x: u32, y: u32) -> (r: usize)
    requires
        y * image_width + x <= usize::MAX,
    ensures
        r == y * image_width + x,
{
    (y as usize) * (image_width as usize) + (x as usize)
}

pub fn ceil_div(x: u32, y: u32) -> (r: u32)
    requires
        y > 0,
        x + y - 1 <= u32::MAX,
    ensures
        r == (x + y - 1) as int / y as int,
        y * r >= x,
        x > 0 ==> y * (r - 1) < x,
{
    proof {
        if x > 0 {
            vstd::arithmetic::div_mod::lemma_fundamental_div_mod((x - 1) as int, y as int);
        }
    }
    if x == 0 {
        proof {
            vstd::arithmetic::div_mod::lemma_basic_div((y - 1) as int, y as int);
        }
        0
    } else {
        let q = (x - 1) / y;
        proof {
            vstd::arithmetic::div_mod::lemma_div_plus_one((x - 1) as int, y as int);
            assert((y as int) * (1 + q as int) == y as int + (y as int) * (q as int))
                by (nonlinear_arith);
        }
        1 + q
    }
}

/// Split a packed pixel into its red, green, blue bytes.
pub fn u8_vec_from_color_display(c: ColorDisplay) -> (r: Vec<u8>)
    ensures
        r@.len() == 3,
        r@[0] == (c >> 16) as u8,
        r@[1] == (c >> 8) as u8,
        r@[2] == c as u8,
{
    let b = c as u8;
    let g = (c >> 8) as u8;
    let r = (c >> 16) as u8;
    vec![r, g, b]
}

pub open spec fn color_display_from_u8_rgb_s(r: u8, g: u8, b: u8) -> ColorDisplay {
    ((r as u32) << 16) | ((g as u32) << 8) | (b as u32)
}

/// Pack three bytes into a 0x00RRGGBB pixel.
pub fn color_display_from_u8_rgb(r: u8, g: u8, b: u8) -> (c: ColorDisplay)
    ensures
        c == color_display_from_u8_rgb_s(r, g, b),
{
    let (r, g, b) = (r as u32, g as u32, b as u32);
    (r << 16) | (g << 8) | b
}

/// Gamma-encode one channel: clamp to [0, 1], take the square root,
/// and scale to an 8-bit value. The curve is gamma 2 — the classic
/// choice whose encoding is exactly computable in integer arithmetic —
/// rather than the 2.2 display gamma, which has no exact fixed-point
/// form; the clamping and byte range are unaffected by the exponent.
pub open spec fn channel_to_u8_s(v: i64) -> u8 {
    let c = if v <= 0 {
        0i64
    } else if v >= FX_ONE {
        FX_ONE
    } else {
        v
    };
    let g = fx_sqrt_s(c);
    let g2 = if g >= FX_ONE {
        FX_ONE
    } else {
        g
    };
    ((g2 * 255) / (FX_ONE as int)) as u8
}

fn channel_to_u8(v: i64) -> (r: u8)
    ensures
        r == channel_to_u8_s(v),
{
    let c: i64 = if v <= 0 {
        0
    } else if v >= FX_ONE {
        FX_ONE
    } else {
        v
    };
    let g = fx_sqrt(c);
    proof {
        if c > 0 {
            lemma_sqrt_floor(c * (FX_ONE as int));
            let s = crate::fixed::sqrt_floor(c * (FX_ONE as int));
            assert(s <= 0x1_0000) by (nonlinear_arith)
                requires
                    0 <= s,
                    s * s <= c * (FX_ONE as int),
                    c * (FX_ONE as int) <= 0x1_0000_0000,
            ;
        }
        assert(0 <= g <= 0x1_0000);
    }
    let g2: i64 = if g >= FX_ONE {
        FX_ONE
    } else {
        g
    };
    ((g2 * 255) / FX_ONE) as u8
}

pub open spec fn color_display_from_render_s(c: Color) -> ColorDisplay {
    color_display_from_u8_rgb_s(channel_to_u8_s(c.x), channel_to_u8_s(c.y), channel_to_u8_s(c.z))
}

/// Whatever radiance comes in — negative, huge, or saturated — the
/// encoded pixel holds three 8-bit channels and nothing else: encoding
/// clamps each channel into [0, 1] before the gamma step, so no
/// invalid value can reach the display buffer.
pub proof fn lemma_display_encoding_bounded(c: Color)
    ensures
        color_display_from_render_s(c) <= 0xff_ffff,
{
    let r = channel_to_u8_s(c.x);
    let g = channel_to_u8_s(c.y);
    let b = channel_to_u8_s(c.z);
    assert(((r as u32) << 16) | ((g as u32) << 8) | (b as u32) <= 0xff_ffff) by (bit_vector)
        requires
            r <= 0xff && g <= 0xff && b <= 0xff,
    ;
}

/// Gamma-encode a rendered colour and pack it for display.
pub fn color_display_from_render(c: Color) -> (r: ColorDisplay)
    ensures
        r == color_display_from_render_s(c),
{
    color_display_from_u8_rgb(channel_to_u8(c.x), channel_to_u8(c.y), channel_to_u8(c.z))
}

/// Mirror reflection of `v` about the surface normal `n`.
pub open spec fn vec_reflect_s(v: Vec3, n: Vec3) -> Vec3 {
    vsub_s(v, vscale_s(fx_mul_s(fx_from_int_s(2), vdot_s(v, n)), n))
}

pub fn vec_reflect(v: Vec3, n: Vec3) -> (r: Vec3)
    ensures
        r == vec_reflect_s(v, n),
{
    let two = fx_from_int(2);
    v.sub(n.scale(fx_mul(two, v.dot(n))))
}

/// Refraction of the unit vector `uv` at a surface with normal `n`.
pub open spec fn vec_refract_s(uv: Vec3, n: Vec3, etai_over_etat: i64) -> Vec3 {
    let cos_theta = fx_min_s(vdot_s(vneg_s(uv), n), FX_ONE);
    let r_out_perp = vscale_s(etai_over_etat, vadd_s(uv, vscale_s(cos_theta, n)));
    let r_out_parallel = vscale_s(
        fx_neg_s(fx_sqrt_s(fx_abs_s(fx_sub_s(FX_ONE, vlen_sq_s(r_out_perp))))),
        n,
    );
    vadd_s(r_out_perp, r_out_parallel)
}

pub fn vec_refract(uv: Vec3, n: Vec3, etai_over_etat: i64) -> (r: Vec3)
    ensures
        r == vec_refract_s(uv, n, etai_over_etat),
{
    let cos_theta = fx_min(uv.neg().dot(n), FX_ONE);
    let r_out_perp = uv.add(n.scale(cos_theta)).scale(etai_over_etat);
    let r_out_parallel = n.scale(fx_neg(fx_sqrt(fx_abs(fx_sub(FX_ONE, r_out_perp.length_squared())))));
    r_out_perp.add(r_out_parallel)
}

/// Schlick's approximation for reflectance.
pub open spec fn reflectance_s(cosine: i64, ref_idx: i64) -> i64 {
    let r0 = fx_div_s(fx_sub_s(FX_ONE, ref_idx), fx_add_s(FX_ONE, ref_idx));
    let r0sq = fx_mul_s(r0, r0);
    let omc = fx_sub_s(FX_ONE, cosine);
    let omc2 = fx_mul_s(omc, omc);
    let omc4 = fx_mul_s(omc2, omc2);
    let omc5 = fx_mul_s(omc4, omc);
    fx_add_s(r0sq, fx_mul_s(fx_sub_s(FX_ONE, r0sq), omc5))
}

pub fn reflectance(cosine: i64, ref_idx: i64) -> (r: i64)
    ensures
        r == reflectance_s(cosine, ref_idx),
{
    let r0 = fx_div(fx_sub(FX_ONE, ref_idx), fx_add(FX_ONE, ref_idx));
    let r0sq = fx_mul(r0, r0);
    let omc = fx_sub(FX_ONE, cosine);
    let omc2 = fx_mul(omc, omc);
    let omc4 = fx_mul(omc2, omc2);
    let omc5 = fx_mul(omc4, omc);
    fx_add(r0sq, fx_mul(fx_sub(FX_ONE, r0sq), omc5))
}

/// The cubic smoothstep of `x` between edges `e0` and `e1`.
pub open spec fn smoothstep_s(e0: i64, e1: i64, x: i64) -> i64 {
    let t0 = fx_div_s(fx_sub_s(x, e0), fx_sub_s(e1, e0));
    let t = fx_max_s(0, fx_min_s(t0, FX_ONE));
    fx_mul_s(fx_mul_s(t, t), fx_sub_s(fx_from_int_s(3), fx_mul_s(fx_from_int_s(2), t)))
}

pub fn smoothstep(e0: i64, e1: i64, x: i64) -> (r: i64)
    ensures
        r == smoothstep_s(e0, e1, x),
{
    let t0 = fx_div(fx_sub(x, e0), fx_sub(e1, e0));
    let t = fx_max(0, fx_min(t0, FX_ONE));
    fx_mul(fx_mul(t, t), fx_sub(fx_from_int(3), fx_mul(fx_from_int(2), t)))
}

/// A vector with three independent draws from `[lo, hi)`.
pub open spec fn vec3_random_range_s(r: RayRng, lo: i64, hi: i64) -> (Vec3, RayRng) {
    let x = gen_range_val_s(r, lo, hi);
    let r1 = next_state_s(r);
    let y = gen_range_val_s(r1, lo, hi);
    let r2 = next_state_s(r1);
    let z = gen_range_val_s(r2, lo, hi);
    let r3 = next_state_s(r2);
    (Vec3 { x, y, z }, r3)
}

pub fn vec3_random_range(rng: &mut RayRng, lo: i64, hi: i64) -> (v: Vec3)
    requires
        lo <= hi,
    ensures
        (v, *final(rng)) == vec3_random_range_s(*old(rng), lo, hi),
{
    let x = rng.gen_range(lo, hi);
    let y = rng.gen_range(lo, hi);
    let z = rng.gen_range(lo, hi);
    Vec3 { x, y, z }
}

pub fn vec3_random(rng: &mut RayRng) -> (v: Vec3)
    ensures
        (v, *final(rng)) == vec3_random_range_s(*old(rng), 0, FX_ONE),
{
    vec3_random_range(rng, 0, FX_ONE)
}

/// How many rejection-sampling attempts are made before falling back to a
/// fixed interior point.
pub const SPHERE_SAMPLE_ATTEMPTS: u32 = 64;

/// Rejection sampling of a point inside the unit sphere, with bounded
/// fuel: after the last attempt the fixed interior point (1/2, 0, 0) is
/// returned, so the function is total and pure.
pub open spec fn rius_s(r: RayRng, fuel: nat) -> (Vec3, RayRng)
    decreases fuel,
{
    if fuel == 0 {
        (Vec3 { x: (FX_ONE / 2) as i64, y: 0, z: 0 }, r)
    } else {
        let (p, r2) = vec3_random_range_s(r, (-FX_ONE) as i64, FX_ONE);
        if vlen_sq_s(p) < FX_ONE {
            (p, r2)
        } else {
            rius_s(r2, (fuel - 1) as nat)
        }
    }
}

fn rius_fuel(rng: &mut RayRng, fuel: u32) -> (v: Vec3)
    ensures
        (v, *final(rng)) == rius_s(*old(rng), fuel as nat),
    decreases fuel,
{
    if fuel == 0 {
        Vec3 { x: FX_ONE / 2, y: 0, z: 0 }
    } else {
        let p = vec3_random_range(rng, -FX_ONE, FX_ONE);
        if p.length_squared() < FX_ONE {
            p
        } else {
            rius_fuel(rng, fuel - 1)
        }
    }
}

pub fn random_in_unit_sphere(rng: &mut RayRng) -> (v: Vec3)
    ensures
        (v, *final(rng)) == rius_s(*old(rng), SPHERE_SAMPLE_ATTEMPTS as nat),
{
    rius_fuel(rng, SPHERE_SAMPLE_ATTEMPTS)
}

pub open spec fn random_unit_vector_s(r: RayRng) -> (Vec3, RayRng) {
    let (p, r2) = rius_s(r, SPHERE_SAMPLE_ATTEMPTS as nat);
    (vnormalize_s(p), r2)
}

pub fn random_unit_vector(rng: &mut RayRng) -> (v: Vec3)
    ensures
        (v, *final(rng)) == random_unit_vector_s(*old(rng)),
{
    let p = random_in_unit_sphere(rng);
    p.normalize()
}

pub open spec fn random_in_hemisphere_s(r: RayRng, normal: Vec3) -> (Vec3, RayRng) {
    let (p, r2) = rius_s(r, SPHERE_SAMPLE_ATTEMPTS as nat);
    if vdot_s(p, normal) > 0 {
        (p, r2)
    } else {
        (vneg_s(p), r2)
    }
}

pub fn random_in_hemisphere(rng: &mut RayRng, normal: Vec3) -> (v: Vec3)
    ensures
        (v, *final(rng)) == random_in_hemisphere_s(*old(rng), normal),
{
    let in_unit_sphere = random_in_unit_sphere(rng);
    if in_unit_sphere.dot(normal) > 0 {
        in_unit_sphere
    } else {
        in_unit_sphere.neg()
    }
}

/// Rejection sampling of a point in the unit disk, with bounded fuel and a
/// fixed interior fallback, as for the unit sphere.
pub open spec fn riud_s(r: RayRng, fuel: nat) -> (Vec3, RayRng)
    decreases fuel,
{
    if fuel == 0 {
        (Vec3 { x: (FX_ONE / 2) as i64, y: 0, z: 0 }, r)
    } else {
        let x = gen_range_val_s(r, (-FX_ONE) as i64, FX_ONE);
        let r1 = next_state_s(r);
        let y = gen_range_val_s(r1, (-FX_ONE) as i64, FX_ONE);
        let r2 = next_state_s(r1);
        let p = Vec3 { x, y, z: 0 };
        if vlen_sq_s(p) < FX_ONE {
            (p, r2)
        } else {
            riud_s(r2, (fuel - 1) as nat)
        }
    }
}

fn riud_fuel(rng: &mut RayRng, fuel: u32) -> (v: Vec3)
    ensures
        (v, *final(rng)) == riud_s(*old(rng), fuel as nat),
    decreases fuel,
{
    if fuel == 0 {
        Vec3 { x: FX_ONE / 2, y: 0, z: 0 }
    } else {
        let x = rng.gen_range(-FX_ONE, FX_ONE);
        let y = rng.gen_range(-FX_ONE, FX_ONE);
        let p = Vec3 { x, y, z: 0 };
        if p.length_squared() < FX_ONE {
            p
        } else {
            riud_fuel(rng, fuel - 1)
        }
    }
}

pub fn random_in_unit_disk(rng: &mut RayRng) -> (v: Vec3)
    ensures
        (v, *final(rng)) == riud_s(*old(rng), SPHERE_SAMPLE_ATTEMPTS as nat),
{
    riud_fuel(rng, SPHERE_SAMPLE_ATTEMPTS)
}

pub fn color_random(rng: &mut RayRng) -> (v: Color)
    ensures
        (v, *final(rng)) == vec3_random_range_s(*old(rng), 0, FX_ONE),
{
    color_random_range(rng, 0, FX_ONE)
}

pub fn color_random_range(rng: &mut RayRng, lo: i64, hi: i64) -> (v: Color)
    requires
        lo <= hi,
    ensures
        (v, *final(rng)) == vec3_random_range_s(*old(rng), lo, hi),
{
    vec3_random_range(rng, lo, hi)
}

} // verus!
