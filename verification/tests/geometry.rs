// Unit tests for the fixed-point scalar, vector and box layers.

use raytrace::aabb::Aabb;
use raytrace::fixed::{fx_abs, fx_add, fx_div, fx_from_int, fx_mul, fx_sqrt, fx_sub, FX_LIMIT,
    FX_ONE};
use raytrace::shared::{
    ceil_div, color_display_from_u8_rgb, color_display_from_render, index_from_xy, smoothstep,
    u8_vec_from_color_display, vec_reflect, Ray, Vec3, VecExt,
};

fn fx(v: i64) -> i64 {
    fx_from_int(v)
}

#[test]
fn fixed_point_arithmetic_exact() {
    assert_eq!(fx_add(fx(2), fx(3)), fx(5));
    assert_eq!(fx_sub(fx(2), fx(3)), fx(-1));
    assert_eq!(fx_mul(fx(2), fx(3)), fx(6));
    assert_eq!(fx_mul(fx(-2), fx(3)), fx(-6));
    assert_eq!(fx_div(fx(6), fx(3)), fx(2));
    assert_eq!(fx_div(fx(-6), fx(3)), fx(-2));
    assert_eq!(fx_div(fx(1), 0), 0);
    assert_eq!(fx_sqrt(fx(4)), fx(2));
    assert_eq!(fx_sqrt(fx(9)), fx(3));
    assert_eq!(fx_sqrt(-5), 0);
    assert_eq!(fx_abs(fx(-7)), fx(7));
    // Half times half is a quarter, exactly representable.
    assert_eq!(fx_mul(FX_ONE / 2, FX_ONE / 2), FX_ONE / 4);
}

#[test]
fn fixed_point_saturates() {
    assert_eq!(fx_mul(FX_LIMIT, FX_LIMIT), FX_LIMIT);
    assert_eq!(fx_add(FX_LIMIT, FX_LIMIT), FX_LIMIT);
    assert_eq!(fx_sub(-FX_LIMIT, FX_LIMIT), -FX_LIMIT);
}

#[test]
fn vector_operations() {
    let a = Vec3::from_ints(1, 2, 3);
    let b = Vec3::from_ints(4, 5, 6);
    assert_eq!(a.add(b), Vec3::from_ints(5, 7, 9));
    assert_eq!(a.sub(b), Vec3::from_ints(-3, -3, -3));
    assert_eq!(a.dot(b), fx(32));
    assert_eq!(a.neg(), Vec3::from_ints(-1, -2, -3));
    assert_eq!(Vec3::from_ints(3, 4, 0).length(), fx(5));
    let n = Vec3::from_ints(0, 3, 0).normalize();
    assert_eq!(n, Vec3::from_ints(0, 1, 0));
    assert!(Vec3::zero().near_zero());
    assert!(!a.near_zero());
}

#[test]
fn reflection_is_exact() {
    let v = Vec3::from_ints(1, -1, 0);
    let n = Vec3::from_ints(0, 1, 0);
    assert_eq!(vec_reflect(v, n), Vec3::from_ints(1, 1, 0));
}

#[test]
fn smoothstep_clamps_at_edges() {
    assert_eq!(smoothstep(0, FX_ONE, -fx(1)), 0);
    assert_eq!(smoothstep(0, FX_ONE, fx(2)), FX_ONE);
    // Midpoint of the cubic is exactly one half.
    assert_eq!(smoothstep(0, FX_ONE, FX_ONE / 2), FX_ONE / 2);
}

#[test]
fn ray_box_intersection() {
    let b = Aabb::new(Vec3::from_ints(-1, -1, -5), Vec3::from_ints(1, 1, -3));
    let hit_ray = Ray::new(Vec3::zero(), Vec3::from_ints(0, 0, -1));
    assert!(hit_ray.intersects_aabb(&b, 0, fx(100)));
    let miss_ray = Ray::new(Vec3::zero(), Vec3::from_ints(0, 1, 0));
    assert!(!miss_ray.intersects_aabb(&b, 0, fx(100)));
    // The box is behind this interval.
    assert!(!hit_ray.intersects_aabb(&b, 0, fx(2)));
    // A zero direction component on an axis the box straddles.
    let flat = Ray::new(Vec3::from_ints(0, 0, -4), Vec3::from_ints(1, 0, 0));
    assert!(flat.intersects_aabb(&b, 0, fx(100)));
}

#[test]
fn pixel_packing_round_trip() {
    let c = color_display_from_u8_rgb(0x12, 0x34, 0x56);
    assert_eq!(c, 0x123456);
    assert_eq!(u8_vec_from_color_display(c), vec![0x12, 0x34, 0x56]);
}

#[test]
fn gamma_encoding_bounds() {
    assert_eq!(color_display_from_render(Vec3::zero()), 0);
    assert_eq!(color_display_from_render(Vec3::from_ints(1, 1, 1)), 0x00ff_ffff);
    // Radiance above one clamps to white, never wraps.
    assert_eq!(color_display_from_render(Vec3::from_ints(40, 40, 35)), 0x00ff_ffff);
    // A quarter grey gamma-encodes to half brightness.
    let grey = Vec3 { x: FX_ONE / 4, y: FX_ONE / 4, z: FX_ONE / 4 };
    assert_eq!(color_display_from_render(grey), 0x007f_7f7f);
}

#[test]
fn index_and_ceil_div() {
    assert_eq!(index_from_xy(10, 5, 3, 2), 23);
    assert_eq!(ceil_div(10, 3), 4);
    assert_eq!(ceil_div(9, 3), 3);
    assert_eq!(ceil_div(0, 3), 0);
    assert_eq!(ceil_div(1, 32), 1);
}
