use vstd::prelude::*;
use crate::fixed::FX_ONE;
use crate::shared::{Ray, Vec3};

verus! {

/// Axis-aligned bounding boxes and the slab ray-box test.
///
/// `hits_box` is the mathematical statement that some fixed-point ray
/// parameter in `[t0, t1]` lands inside the box on all three axes;
/// `Ray::intersects_aabb` decides it exactly, by intersecting the
/// per-axis parameter intervals. The test handles zero and negative
/// direction components by sign analysis rather than dividing by zero.

#[derive(Clone, Copy, PartialEq, Eq, Structural, Debug)]
pub struct Aabb {
    pub min: Vec3,
    pub max: Vec3,
}

/// On one axis, the ray point at parameter `t` (in fixed-point units) lies
/// between `lo` and `hi`: `lo <= o + t*d/FX_ONE <= hi`, written without
/// division.
pub open spec fn axis_within(o: i64, d: i64, lo: i64, hi: i64, t: int) -> bool {
    (lo - o) * (FX_ONE as int) <= t * d && t * d <= (hi - o) * (FX_ONE as int)
}

/// The ray point at parameter `t` lies inside the box on all three axes.
pub open spec fn ray_in_box_at(r: Ray, b: Aabb, t: int) -> bool {
    &&& axis_within(r.origin.x, r.direction.x, b.min.x, b.max.x, t)
    &&& axis_within(r.origin.y, r.direction.y, b.min.y, b.max.y, t)
    &&& axis_within(r.origin.z, r.direction.z, b.min.z, b.max.z, t)
}

/// Some parameter in `[t0, t1]` lands inside the box.
pub open spec fn hits_box(r: Ray, b: Aabb, t0: i64, t1: i64) -> bool {
    exists|t: int| t0 <= t <= t1 && ray_in_box_at(r, b, t)
}

/// `a` is contained in `b`, axis by axis.
pub open spec fn box_subset(a: Aabb, b: Aabb) -> bool {
    &&& b.min.x <= a.min.x && a.max.x <= b.max.x
    &&& b.min.y <= a.min.y && a.max.y <= b.max.y
    &&& b.min.z <= a.min.z && a.max.z <= b.max.z
}

/// A ray that hits an inner box hits every enclosing box.
pub proof fn lemma_hits_box_monotone(r: Ray, a: Aabb, b: Aabb, t0: i64, t1: i64)
    requires
        box_subset(a, b),
        hits_box(r, a, t0, t1),
    ensures
        hits_box(r, b, t0, t1),
{
    let t = choose|t: int| t0 <= t <= t1 && ray_in_box_at(r, a, t);
    assert(ray_in_box_at(r, b, t));
}

/// The tightest box containing both arguments: componentwise minimum
/// of the lower corners and maximum of the upper corners.
pub open spec fn box_union_s(a: Aabb, b: Aabb) -> Aabb {
    Aabb {
        min: Vec3 {
            x: if a.min.x <= b.min.x {
                a.min.x
            } else {
                b.min.x
            },
            y: if a.min.y <= b.min.y {
                a.min.y
            } else {
                b.min.y
            },
            z: if a.min.z <= b.min.z {
                a.min.z
            } else {
                b.min.z
            },
        },
        max: Vec3 {
            x: if a.max.x >= b.max.x {
                a.max.x
            } else {
                b.max.x
            },
            y: if a.max.y >= b.max.y {
                a.max.y
            } else {
                b.max.y
            },
            z: if a.max.z >= b.max.z {
                a.max.z
            } else {
                b.max.z
            },
        },
    }
}

pub proof fn lemma_box_subset_trans(a: Aabb, b: Aabb, c: Aabb)
    requires
        box_subset(a, b),
        box_subset(b, c),
    ensures
        box_subset(a, c),
{
}

impl Aabb {
    pub fn new(min: Vec3, max: Vec3) -> (r: Aabb)
        ensures
            r == (Aabb { min, max }),
    {
        Aabb { min, max }
    }

    /// The union of two boxes, pinned exactly: each corner is the
    /// componentwise extreme of the arguments' corners, so the result
    /// is the tightest box containing both — any box containing both
    /// arguments contains it.
    pub fn union_with(&self, o: &Aabb) -> (r: Aabb)
        ensures
            r == box_union_s(*self, *o),
            box_subset(*self, r),
            box_subset(*o, r),
            forall|outer: Aabb|
                box_subset(*self, outer) && box_subset(*o, outer) ==> #[trigger] box_subset(
                    r,
                    outer,
                ),
    {
        Aabb {
            min: Vec3 {
                x: if self.min.x <= o.min.x { self.min.x } else { o.min.x },
                y: if self.min.y <= o.min.y { self.min.y } else { o.min.y },
                z: if self.min.z <= o.min.z { self.min.z } else { o.min.z },
            },
            max: Vec3 {
                x: if self.max.x >= o.max.x { self.max.x } else { o.max.x },
                y: if self.max.y >= o.max.y { self.max.y } else { o.max.y },
                z: if self.max.z >= o.max.z { self.max.z } else { o.max.z },
            },
        }
    }
}

/// For a positive divisor, `k <= x / d` exactly when `k * d <= x`.
proof fn lemma_floor_char(x: int, d: int, k: int)
    requires
        d > 0,
    ensures
        k <= x / d <==> k * d <= x,
{
    vstd::arithmetic::div_mod::lemma_fundamental_div_mod(x, d);
    let q = x / d;
    let m = x % d;
    vstd::arithmetic::mul::lemma_mul_is_commutative(d, q);
    if k <= q {
        vstd::arithmetic::mul::lemma_mul_inequality(k, q, d);
    }
    if k * d <= x && k > q {
        vstd::arithmetic::mul::lemma_mul_inequality(q + 1, k, d);
        vstd::arithmetic::mul::lemma_mul_is_distributive_add_other_way(d, q, 1);
        assert(false);
    }
}

/// Floor division for 128-bit values with a positive divisor: matches the
/// mathematical `/` of the specification language.
fn floor_div_i128(a: i128, b: i128) -> (q: i128)
    requires
        b > 0,
        -0x4000_0000_0000_0000_0000_0000_0000_0000 < a,
    ensures
        q == (a as int) / (b as int),
{
    if a >= 0 {
        a / b
    } else {
        let na = -a;
        let qn = na / b;
        let mn = na % b;
        proof {
            vstd::arithmetic::div_mod::lemma_fundamental_div_mod(a as int, b as int);
            vstd::arithmetic::div_mod::lemma_fundamental_div_mod(na as int, b as int);
            let fq = (a as int) / (b as int);
            let fm = (a as int) % (b as int);
            if mn == 0 {
                assert(fq == -(qn as int)) by (nonlinear_arith)
                    requires
                        a as int == (b as int) * fq + fm,
                        0 <= fm < (b as int),
                        na as int == -(a as int),
                        na as int == (b as int) * (qn as int) + (mn as int),
                        0 <= (mn as int) < (b as int),
                        mn == 0,
                        b > 0,
                ;
            } else {
                assert(fq == -(qn as int) - 1) by (nonlinear_arith)
                    requires
                        a as int == (b as int) * fq + fm,
                        0 <= fm < (b as int),
                        na as int == -(a as int),
                        na as int == (b as int) * (qn as int) + (mn as int),
                        0 < (mn as int) < (b as int),
                        b > 0,
                ;
            }
        }
        if mn == 0 {
            -qn
        } else {
            -qn - 1
        }
    }
}

/// Ceiling division for 128-bit values with a positive divisor.
fn ceil_div_i128(a: i128, b: i128) -> (q: i128)
    requires
        b > 0,
        -0x4000_0000_0000_0000_0000_0000_0000_0000 < a < 0x4000_0000_0000_0000_0000_0000_0000_0000,
    ensures
        q == -((-(a as int)) / (b as int)),
{
    let f = floor_div_i128(-a, b);
    proof {
        lemma_div_bound(-(a as int), b as int, 0x4000_0000_0000_0000_0000_0000_0000_0000);
    }
    -f
}

/// Quotients by a positive divisor keep within the magnitude of the
/// dividend.
proof fn lemma_div_bound(x: int, d: int, bound: int)
    requires
        d > 0,
        bound > 0,
        -bound < x < bound,
    ensures
        -bound < x / d < bound,
{
    vstd::arithmetic::div_mod::lemma_fundamental_div_mod(x, d);
    let q = x / d;
    let m = x % d;
    assert(-bound < q < bound) by (nonlinear_arith)
        requires
            x == d * q + m,
            0 <= m < d,
            -bound < x < bound,
            d > 0,
            bound > 0,
    ;
}

/// Clip the running parameter interval `[tlo, thi]` with the constraint of
/// one axis: afterwards exactly the parameters that were in the interval
/// and lie within `[lo, hi]` on this axis remain.
fn axis_clip(o: i64, d: i64, lo: i64, hi: i64, tlo: i128, thi: i128) -> (r: (i128, i128))
    requires
        -0x2_0000_0000_0000_0000_0000 < tlo < 0x2_0000_0000_0000_0000_0000,
        -0x2_0000_0000_0000_0000_0000 < thi < 0x2_0000_0000_0000_0000_0000,
    ensures
        forall|t: int|
            (r.0 <= t <= r.1) <==> (tlo <= t <= thi && #[trigger] axis_within(o, d, lo, hi, t)),
        -0x2_0000_0000_0000_0000_0000 < r.0 < 0x2_0000_0000_0000_0000_0000,
        -0x2_0000_0000_0000_0000_0000 < r.1 < 0x2_0000_0000_0000_0000_0000,
{
    let a: i128 = (lo as i128 - o as i128) * 65536;
    let b: i128 = (hi as i128 - o as i128) * 65536;
    proof {
        assert(a == (lo - o) * (FX_ONE as int) && b == (hi - o) * (FX_ONE as int));
        assert(-0x2_0000_0000_0000_0000_0000 < a < 0x2_0000_0000_0000_0000_0000);
        assert(-0x2_0000_0000_0000_0000_0000 < b < 0x2_0000_0000_0000_0000_0000);
    }
    if d == 0 {
        if a <= 0 && 0 <= b {
            proof {
                assert forall|t: int|
                    (tlo <= t <= thi) <==> (tlo <= t <= thi && #[trigger] axis_within(
                        o,
                        d,
                        lo,
                        hi,
                        t,
                    )) by {
                    assert(t * 0 == 0) by (nonlinear_arith);
                }
            }
            (tlo, thi)
        } else {
            proof {
                assert forall|t: int| !(tlo <= t <= thi && #[trigger] axis_within(
                    o,
                    d,
                    lo,
                    hi,
                    t,
                )) by {
                    assert(t * 0 == 0) by (nonlinear_arith);
                }
            }
            (1, 0)
        }
    } else {
        let dd: i128 = if d > 0 {
            d as i128
        } else {
            -(d as i128)
        };
        let axis_lo: i128 = if d > 0 {
            ceil_div_i128(a, dd)
        } else {
            ceil_div_i128(-b, dd)
        };
        let axis_hi: i128 = if d > 0 {
            floor_div_i128(b, dd)
        } else {
            floor_div_i128(-a, dd)
        };
        proof {
            lemma_div_bound(-(a as int), dd as int, 0x2_0000_0000_0000_0000_0000);
            lemma_div_bound(b as int, dd as int, 0x2_0000_0000_0000_0000_0000);
            lemma_div_bound(-(b as int), dd as int, 0x2_0000_0000_0000_0000_0000);
            lemma_div_bound(a as int, dd as int, 0x2_0000_0000_0000_0000_0000);
        }
        let new_lo: i128 = if axis_lo > tlo {
            axis_lo
        } else {
            tlo
        };
        let new_hi: i128 = if axis_hi < thi {
            axis_hi
        } else {
            thi
        };
        proof {
            assert forall|t: int|
                (new_lo <= t <= new_hi) <==> (tlo <= t <= thi && #[trigger] axis_within(
                    o,
                    d,
                    lo,
                    hi,
                    t,
                )) by {
                if d > 0 {
                    lemma_floor_char(-(a as int), dd as int, -t);
                    lemma_floor_char(b as int, dd as int, t);
                    assert((-t) * (dd as int) == -(t * d) && t * (dd as int) == t * d)
                        by (nonlinear_arith)
                        requires
                            dd == d as int,
                    ;
                } else {
                    lemma_floor_char(b as int, dd as int, -t);
                    lemma_floor_char(-(a as int), dd as int, t);
                    assert((-t) * (dd as int) == t * d && t * (dd as int) == -(t * d))
                        by (nonlinear_arith)
                        requires
                            dd == -(d as int),
                    ;
                }
            }
        }
        if new_lo <= new_hi {
            (new_lo, new_hi)
        } else {
            proof {
                assert forall|t: int| !(tlo <= t <= thi && #[trigger] axis_within(
                    o,
                    d,
                    lo,
                    hi,
                    t,
                )) by {
                    assert((new_lo <= t <= new_hi) <==> (tlo <= t <= thi && axis_within(
                        o,
                        d,
                        lo,
                        hi,
                        t,
                    )));
                }
            }
            (1, 0)
        }
    }
}

/// Does the ray point at parameter `t` lie inside the box? Decides
/// `ray_in_box_at` exactly with 128-bit products.
pub fn point_in_box_at(r: &Ray, b: &Aabb, t: i64) -> (res: bool)
    ensures
        res == ray_in_box_at(*r, *b, t as int),
{
    proof {
        lemma_i64_prod_fits(t as int, r.direction.x as int);
        lemma_i64_prod_fits(t as int, r.direction.y as int);
        lemma_i64_prod_fits(t as int, r.direction.z as int);
    }
    let tdx = (t as i128) * (r.direction.x as i128);
    let tdy = (t as i128) * (r.direction.y as i128);
    let tdz = (t as i128) * (r.direction.z as i128);
    (b.min.x as i128 - r.origin.x as i128) * 65536 <= tdx
        && tdx <= (b.max.x as i128 - r.origin.x as i128) * 65536
        && (b.min.y as i128 - r.origin.y as i128) * 65536 <= tdy
        && tdy <= (b.max.y as i128 - r.origin.y as i128) * 65536
        && (b.min.z as i128 - r.origin.z as i128) * 65536 <= tdz
        && tdz <= (b.max.z as i128 - r.origin.z as i128) * 65536
}

/// Products of two 64-bit values fit comfortably in 128 bits.
pub proof fn lemma_i64_prod_fits(a: int, b: int)
    requires
        -0x8000_0000_0000_0000 <= a <= 0x8000_0000_0000_0000,
        -0x8000_0000_0000_0000 <= b <= 0x8000_0000_0000_0000,
    ensures
        -0x4000_0000_0000_0000_0000_0000_0000_0000 <= a * b
            <= 0x4000_0000_0000_0000_0000_0000_0000_0000,
{
    assert(-0x4000_0000_0000_0000_0000_0000_0000_0000 <= a * b
        <= 0x4000_0000_0000_0000_0000_0000_0000_0000) by (nonlinear_arith)
        requires
            -0x8000_0000_0000_0000 <= a <= 0x8000_0000_0000_0000,
            -0x8000_0000_0000_0000 <= b <= 0x8000_0000_0000_0000,
    ;
}

impl Ray {
    /// Does the ray meet the box anywhere in `[t0, t1]`? Decides the
    /// `hits_box` predicate exactly, with the slab method on each axis.
    pub fn intersects_aabb(&self, b: &Aabb, t0: i64, t1: i64) -> (res: bool)
        ensures
            res == hits_box(*self, *b, t0, t1),
    {
        let (l1, h1) = axis_clip(
            self.origin.x,
            self.direction.x,
            b.min.x,
            b.max.x,
            t0 as i128,
            t1 as i128,
        );
        let (l2, h2) = axis_clip(self.origin.y, self.direction.y, b.min.y, b.max.y, l1, h1);
        let (l3, h3) = axis_clip(self.origin.z, self.direction.z, b.min.z, b.max.z, l2, h2);
        let res = l3 <= h3;
        proof {
            if res {
                assert(axis_within(self.origin.z, self.direction.z, b.min.z, b.max.z, l3 as int));
                assert(axis_within(self.origin.y, self.direction.y, b.min.y, b.max.y, l3 as int));
                assert(axis_within(self.origin.x, self.direction.x, b.min.x, b.max.x, l3 as int));
                assert(t0 <= l3 as int <= t1);
                assert(hits_box(*self, *b, t0, t1)) by {
                    assert(t0 <= l3 as int <= t1 && ray_in_box_at(*self, *b, l3 as int));
                }
            } else {
                if hits_box(*self, *b, t0, t1) {
                    let t = choose|t: int| t0 <= t <= t1 && ray_in_box_at(*self, *b, t);
                    assert(l3 <= t <= h3);
                }
            }
        }
        res
    }
}

} // verus!
