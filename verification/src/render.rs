use vstd::prelude::*;
use crate::camera::{camera_ray_s, Camera};
use crate::fixed::{fx_add_s, fx_div, fx_div_s, fx_from_int_s, fx_mul_s, fx_sub_s, FX_ONE};
use crate::material::scatter_s;
use crate::object::Sphere;
use crate::rng::{gen_range_val_s, next_state_s, seed_state_s, RayRng};
use crate::scene::{scene_closest_s, Scene};
use crate::shared::{
    color_display_from_render, color_display_from_render_s, smoothstep, smoothstep_s, vadd_s,
    vcmul_s, vdiv_s, vdot_s, vnormalize_s, vscale_s, Color, ColorDisplay, Ray, RayQuery, Vec3,
    TRACE_EPSILON, TRACE_INFINITY,
};

verus! {

/// The integrator and the tile renderer.
///
/// `ray_color` is the recursive path tracer: radiance is black once the
/// depth budget is spent, the background colour where nothing is hit,
/// and otherwise the scattered radiance attenuated by the material.
/// `render_pixel` supersamples a pixel; `render_block` fills a block's
/// buffer row by row, seeding the random source from each scanline
/// index, so a rendered block is a pure function of the scene, the
/// camera, the image geometry and the sample count — rendering twice
/// gives bit-identical buffers. `plan_blocks` partitions the image into
/// blocks ordered by Chebyshev distance from the centre, covering every
/// pixel exactly once, and `RenderSession` hands them out until stopped.

/// The default bounce budget of the integrator.
pub const DEFAULT_MAX_DEPTH: i32 = 50;

/// The sky gradient with a sun disk and haze, a function of the ray
/// direction only.
pub open spec fn background_s(ray: Ray) -> Color {
    let sun_direction = vnormalize_s(Vec3 { x: 32768, y: 26214, z: 26214 });
    let dot_sun = vdot_s(sun_direction, ray.direction);
    let sun_amount = smoothstep_s(64881, 65470, dot_sun);
    let sunlight = vscale_s(
        sun_amount,
        Vec3 { x: (40 * FX_ONE) as i64, y: (40 * FX_ONE) as i64, z: (35 * FX_ONE) as i64 },
    );
    let haze_amount = smoothstep_s(0, FX_ONE, dot_sun);
    let haze = vscale_s(haze_amount, Vec3 { x: 13107, y: 13107, z: 6554 });
    let t = fx_mul_s(32768, fx_add_s(ray.direction.y, FX_ONE));
    let sky = vadd_s(
        vscale_s(fx_sub_s(FX_ONE, t), Vec3 { x: 52429, y: 58982, z: FX_ONE }),
        vscale_s(t, Vec3 { x: 32768, y: 45875, z: FX_ONE }),
    );
    vadd_s(vadd_s(sky, sunlight), haze)
}

/// Background colour of a ray that escapes the scene.
pub fn background(ray: &Ray) -> (c: Color)
    ensures
        c == background_s(*ray),
{
    let sun_direction = Vec3 { x: 32768, y: 26214, z: 26214 }.normalize();
    let dot_sun = sun_direction.dot(ray.direction);
    let sun_amount = smoothstep(64881, 65470, dot_sun);
    let sunlight = Vec3 { x: 40 * FX_ONE, y: 40 * FX_ONE, z: 35 * FX_ONE }.scale(sun_amount);
    let haze_amount = smoothstep(0, FX_ONE, dot_sun);
    let haze = Vec3 { x: 13107, y: 13107, z: 6554 }.scale(haze_amount);
    let t = crate::fixed::fx_mul(32768, crate::fixed::fx_add(ray.direction.y, FX_ONE));
    let sky = Vec3 { x: 52429, y: 58982, z: FX_ONE }.scale(crate::fixed::fx_sub(FX_ONE, t)).add(
        Vec3 { x: 32768, y: 45875, z: FX_ONE }.scale(t),
    );
    sky.add(sunlight).add(haze)
}

/// The radiance carried back along a ray: black once the depth budget
/// is spent; the background where nothing is hit; otherwise the
/// scattered radiance attenuated by the material, or black when the
/// ray is absorbed.
pub open spec fn ray_color_s(objs: Seq<Sphere>, ray: Ray, depth: int, rng: RayRng) -> (
    Color,
    RayRng,
)
    decreases (if depth <= 0 {
        0int
    } else {
        depth
    }),
{
    if depth <= 0 {
        (Vec3 { x: 0, y: 0, z: 0 }, rng)
    } else {
        let q = RayQuery { ray, t_min: TRACE_EPSILON, t_max: TRACE_INFINITY };
        match scene_closest_s(objs, q) {
            None => (background_s(ray), rng),
            Some(hit) => {
                let (sc_opt, rng2) = scatter_s(hit.material, rng, ray, hit);
                match sc_opt {
                    None => (Vec3 { x: 0, y: 0, z: 0 }, rng2),
                    Some(sc) => {
                        let (c, rng3) = ray_color_s(objs, sc.scattered_ray, depth - 1, rng2);
                        (vcmul_s(sc.attenuation, c), rng3)
                    },
                }
            },
        }
    }
}

/// Recursive ray tracing. With a spent depth budget (`depth <= 0`) the
/// result is pure black for every ray and every scene. The ray counter
/// only grows; it is a throughput diagnostic, not part of the result.
pub fn ray_color(rng: &mut RayRng, ray: Ray, scene: &Scene, depth: i32, ray_count: &mut u32) -> (c:
    Color)
    requires
        scene.built(),
    ensures
        (c, *final(rng)) == ray_color_s(scene.objects@, ray, depth as int, *old(rng)),
        depth <= 0 ==> c == (Vec3 { x: 0, y: 0, z: 0 }),
        depth <= 0 ==> *final(ray_count) == *old(ray_count),
        *final(ray_count) >= *old(ray_count),
    decreases (if depth <= 0 {
        0int
    } else {
        depth as int
    }),
{
    if depth <= 0 {
        return Vec3 { x: 0, y: 0, z: 0 };
    }
    // Intersect scene.
    let query = RayQuery { ray, t_min: TRACE_EPSILON, t_max: TRACE_INFINITY };
    let hit_option = scene.intersect(query);
    proof {
        // A scene without a hierarchy holds no objects, and the closest
        // hit over no objects is none: the empty scene degrades to the
        // background rather than being refused.
        if scene.bvh is None {
            assert(scene_closest_s(scene.objects@, query) is None);
        }
    }
    if *ray_count < 0xffff_ffff {
        *ray_count = *ray_count + 1;
    }
    // If we hit something.
    if let Some(hit) = hit_option {
        let scatter_option = hit.material.scatter(rng, &ray, &hit);
        // Recurse.
        if let Some(scatter) = scatter_option {
            return scatter.attenuation.cmul(
                ray_color(rng, scatter.scattered_ray, scene, depth - 1, ray_count),
            );
        }
        return Vec3 { x: 0, y: 0, z: 0 };
    }
    background(&ray)
}

/// Renderer which generates pixels using the scene and camera.
pub struct Renderer {
    pub image_width: u32,
    pub image_height: u32,
    pub scene: Scene,
    pub camera: Camera,
    pub samples_per_pixel: u32,
    pub max_depth: i32,
}

/// One supersample of a pixel: jitter the image-plane coordinates,
/// build the primary ray, and trace it.
#[verifier::opaque]
pub open spec fn pixel_sample_s(ren: Renderer, x: u32, y: u32, rng: RayRng) -> (Color, RayRng) {
    let w1 = fx_from_int_s((ren.image_width - 1) as i64);
    let h1 = fx_from_int_s((ren.image_height - 1) as i64);
    let u_base = fx_div_s(fx_from_int_s(x as i64), w1);
    let v_base = fx_div_s(fx_from_int_s((ren.image_height - y - 1) as i64), h1);
    let u_rand = fx_div_s(FX_ONE, w1);
    let v_rand = fx_div_s(FX_ONE, h1);
    let du = gen_range_val_s(rng, 0, u_rand);
    let rng1 = next_state_s(rng);
    let dv = gen_range_val_s(rng1, 0, v_rand);
    let rng2 = next_state_s(rng1);
    let (ray, rng3) = camera_ray_s(ren.camera, rng2, fx_add_s(u_base, du), fx_add_s(v_base, dv));
    ray_color_s(ren.scene.objects@, ray, ren.max_depth as int, rng3)
}

/// The sum of the first `k` supersamples of a pixel.
pub open spec fn sample_accum_s(ren: Renderer, x: u32, y: u32, k: nat, rng: RayRng) -> (
    Color,
    RayRng,
)
    decreases k,
{
    if k == 0 {
        (Vec3 { x: 0, y: 0, z: 0 }, rng)
    } else {
        let (acc, rng1) = sample_accum_s(ren, x, y, (k - 1) as nat, rng);
        let (c, rng2) = pixel_sample_s(ren, x, y, rng1);
        (vadd_s(acc, c), rng2)
    }
}

/// The finished pixel: the average of all supersamples.
#[verifier::opaque]
pub open spec fn render_pixel_s(ren: Renderer, x: u32, y: u32, rng: RayRng) -> (Color, RayRng) {
    let (sum, rng2) = sample_accum_s(ren, x, y, ren.samples_per_pixel as nat, rng);
    (vdiv_s(sum, fx_from_int_s(ren.samples_per_pixel as i64)), rng2)
}

/// The pixels of one scanline segment: the random source is seeded from
/// the scanline index, then `k` pixels are rendered left to right from
/// column `x0`.
#[verifier::opaque]
pub open spec fn row_state_s(ren: Renderer, y: u32, x0: u32, k: nat) -> (Seq<ColorDisplay>, RayRng)
    decreases k,
{
    if k == 0 {
        (Seq::empty(), seed_state_s(y as u64))
    } else {
        let (s, rng) = row_state_s(ren, y, x0, (k - 1) as nat);
        let (c, rng2) = render_pixel_s(ren, (x0 + k - 1) as u32, y, rng);
        (s.push(color_display_from_render_s(c)), rng2)
    }
}

/// A rectangular pixel region with its output buffer: the pixel at
/// local index `i` is the global pixel `(x + i % width, y + i / width)`.
pub struct RenderBlock {
    pub x: u32,
    pub y: u32,
    pub width: u32,
    pub height: u32,
    pub pixels: Vec<ColorDisplay>,
}

/// The Chebyshev distance between two block-grid cells.
pub open spec fn cheb_dist(ax: int, ay: int, bx: int, by: int) -> int {
    let dx = if ax >= bx {
        ax - bx
    } else {
        bx - ax
    };
    let dy = if ay >= by {
        ay - by
    } else {
        by - ay
    };
    if dx >= dy {
        dx
    } else {
        dy
    }
}

/// The block rectangle of grid cell `(bx, by)`: block-size squares,
/// clipped at the right and bottom image edges.
pub open spec fn block_rect_ok(
    b: RenderBlock,
    bx: int,
    by: int,
    bs: int,
    w: int,
    h: int,
) -> bool {
    &&& b.x == bs * bx
    &&& b.y == bs * by
    &&& b.width == (if w - bs * bx >= bs {
        bs
    } else {
        w - bs * bx
    })
    &&& b.height == (if h - bs * by >= bs {
        bs
    } else {
        h - bs * by
    })
    &&& b.pixels@.len() == 0
}

/// Block `b` covers pixel `(px, py)`.
pub open spec fn block_covers(b: RenderBlock, px: int, py: int) -> bool {
    &&& b.x <= px < b.x + b.width
    &&& b.y <= py < b.y + b.height
}

impl Renderer {
    pub fn new(
        image_width: u32,
        image_height: u32,
        samples_per_pixel: u32,
        scene: Scene,
        camera: Camera,
    ) -> (r: Renderer)
        ensures
            r.image_width == image_width,
            r.image_height == image_height,
            r.samples_per_pixel == samples_per_pixel,
            r.scene == scene,
            r.camera == camera,
            r.max_depth == DEFAULT_MAX_DEPTH,
    {
        Renderer {
            image_width,
            image_height,
            scene,
            camera,
            samples_per_pixel,
            max_depth: DEFAULT_MAX_DEPTH,
        }
    }

    /// Supersample one pixel and average the samples.
    pub fn render_pixel(&self, x: u32, y: u32, rng: &mut RayRng, ray_count: &mut u32) -> (c: Color)
        requires
            self.scene.built(),
            self.image_width >= 1,
            self.image_height >= 1,
            y < self.image_height,
        ensures
            (c, *final(rng)) == render_pixel_s(*self, x, y, *old(rng)),
            *final(ray_count) >= *old(ray_count),
    {
        proof {
            reveal(pixel_sample_s);
            reveal(render_pixel_s);
        }
        // Set up supersampling.
        let mut color_accum = Vec3 { x: 0, y: 0, z: 0 };
        let w1 = crate::fixed::fx_from_int((self.image_width as i64) - 1);
        let h1 = crate::fixed::fx_from_int((self.image_height as i64) - 1);
        let u_base = fx_div(crate::fixed::fx_from_int(x as i64), w1);
        let v_base = fx_div(
            crate::fixed::fx_from_int((self.image_height as i64) - (y as i64) - 1),
            h1,
        );
        let u_rand = fx_div(FX_ONE, w1);
        let v_rand = fx_div(FX_ONE, h1);
        proof {
            lemma_fx_div_unit_nonneg(w1);
            lemma_fx_div_unit_nonneg(h1);
        }
        // Supersample this pixel.
        let mut i: u32 = 0;
        while i < self.samples_per_pixel
            invariant
                i <= self.samples_per_pixel,
                self.scene.built(),
                y < self.image_height,
                u_rand >= 0,
                v_rand >= 0,
                w1 == fx_from_int_s((self.image_width - 1) as i64),
                h1 == fx_from_int_s((self.image_height - 1) as i64),
                u_base == fx_div_s(fx_from_int_s(x as i64), w1),
                v_base == fx_div_s(fx_from_int_s((self.image_height - y - 1) as i64), h1),
                u_rand == fx_div_s(FX_ONE, w1),
                v_rand == fx_div_s(FX_ONE, h1),
                (color_accum, *rng) == sample_accum_s(*self, x, y, i as nat, *old(rng)),
                *ray_count >= *old(ray_count),
            decreases self.samples_per_pixel - i,
        {
            proof {
                reveal(pixel_sample_s);
            }
            let du = rng.gen_range(0, u_rand);
            let dv = rng.gen_range(0, v_rand);
            let ray = self.camera.get_ray(rng, crate::fixed::fx_add(u_base, du), crate::fixed::fx_add(
                v_base,
                dv,
            ));
            // Start the primary ray from here.
            let c = ray_color(rng, ray, &self.scene, self.max_depth, ray_count);
            color_accum = color_accum.add(c);
            i = i + 1;
        }
        // Return the averaged colour.
        color_accum.div_scalar(crate::fixed::fx_from_int(self.samples_per_pixel as i64))
    }

    /// Render one scanline segment of `w` pixels starting at column
    /// `x0`, with the random source seeded from the scanline index.
    pub fn render_row(&self, y: u32, x0: u32, w: u32, ray_count: &mut u32) -> (row: Vec<
        ColorDisplay,
    >)
        requires
            self.scene.built(),
            self.image_width >= 1,
            self.image_height >= 1,
            y < self.image_height,
            x0 + w <= u32::MAX,
        ensures
            row@ == row_state_s(*self, y, x0, w as nat).0,
            row@.len() == w,
            *final(ray_count) >= *old(ray_count),
    {
        let mut rng = RayRng::new(y as u64);
        let mut row: Vec<ColorDisplay> = Vec::new();
        let mut ccol: u32 = 0;
        proof {
            reveal(row_state_s);
            assert(row_state_s(*self, y, x0, 0).0 =~= Seq::<ColorDisplay>::empty());
        }
        while ccol < w
            invariant
                ccol <= w,
                self.scene.built(),
                self.image_width >= 1,
                self.image_height >= 1,
                y < self.image_height,
                x0 + w <= u32::MAX,
                row@ == row_state_s(*self, y, x0, ccol as nat).0,
                row@.len() == ccol,
                rng == row_state_s(*self, y, x0, ccol as nat).1,
                *ray_count >= *old(ray_count),
            decreases w - ccol,
        {
            proof {
                reveal(row_state_s);
            }
            let c = self.render_pixel(x0 + ccol, y, &mut rng, ray_count);
            let packed = color_display_from_render(c);
            row.push(packed);
            ccol = ccol + 1;
        }
        row
    }

    /// Render one block: the buffer gets exactly `width * height`
    /// pixels, row by row, each row seeded from its scanline index;
    /// local index `i` holds global pixel `(x + i % width, y + i / width)`.
    pub fn render_block(&self, block: &mut RenderBlock, ray_count: &mut u32)
        requires
            self.scene.built(),
            self.image_width >= 1,
            self.image_height >= 1,
            old(block).y + old(block).height <= self.image_height,
            old(block).x + old(block).width <= u32::MAX,
            old(block).width * old(block).height <= 0x1000_0000,
        ensures
            final(block).x == old(block).x,
            final(block).y == old(block).y,
            final(block).width == old(block).width,
            final(block).height == old(block).height,
            final(block).pixels@.len() == old(block).width * old(block).height,
            forall|r: int|
                0 <= r < old(block).height ==> final(block).pixels@.subrange(
                    r * old(block).width,
                    (r + 1) * old(block).width,
                ) == #[trigger] row_state_s(
                    *self,
                    (old(block).y + r) as u32,
                    old(block).x,
                    old(block).width as nat,
                ).0,
            *final(ray_count) >= *old(ray_count),
    {
        let w = block.width;
        let h = block.height;
        let x0 = block.x;
        let y0 = block.y;
        let mut pixels: Vec<ColorDisplay> = Vec::new();
        let mut r: u32 = 0;
        while r < h
            invariant
                r <= h,
                self.scene.built(),
                self.image_width >= 1,
                self.image_height >= 1,
                y0 + h <= self.image_height,
                x0 + w <= u32::MAX,
                w * h <= 0x1000_0000,
                pixels@.len() == r * w,
                forall|rr: int|
                    0 <= rr < r as int ==> pixels@.subrange(rr * w as int, (rr + 1) * w as int)
                        == #[trigger] row_state_s(*self, (y0 + rr) as u32, x0, w as nat).0,
                *ray_count >= *old(ray_count),
            decreases h - r,
        {
            proof {
                assert((r as int + 1) * (w as int) <= (h as int) * (w as int)
                    && (r as int) * (w as int) + w as int == (r as int + 1) * (w as int))
                    by (nonlinear_arith)
                    requires
                        r as int + 1 <= h as int,
                        w as int >= 0,
                ;
                assert((h as int) * (w as int) == (w as int) * (h as int)) by (nonlinear_arith);
            }
            let ghost pixels_before = pixels@;
            let mut row = self.render_row(y0 + r, x0, w, ray_count);
            pixels.append(&mut row);
            proof {
                assert forall|rr: int| 0 <= rr < r as int + 1 implies pixels@.subrange(
                    rr * w as int,
                    (rr + 1) * w as int,
                ) == #[trigger] row_state_s(*self, (y0 + rr) as u32, x0, w as nat).0 by {
                    if rr < r as int {
                        assert((rr + 1) * w as int <= r as int * w as int && rr * w as int >= 0
                            && rr * w as int <= (rr + 1) * w as int) by (nonlinear_arith)
                            requires
                                0 <= rr,
                                rr + 1 <= r as int,
                                w as int >= 0,
                        ;
                        assert(pixels@ == pixels_before + row_state_s(
                            *self,
                            (y0 + r) as u32,
                            x0,
                            w as nat,
                        ).0);
                        assert(pixels_before.len() == r as int * w as int);
                        assert(pixels@.subrange(rr * w as int, (rr + 1) * w as int)
                            =~= pixels_before.subrange(rr * w as int, (rr + 1) * w as int));
                    } else {
                        assert(pixels@.subrange(rr * w as int, (rr + 1) * w as int)
                            =~= row_state_s(*self, (y0 + rr) as u32, x0, w as nat).0);
                    }
                }
            }
            r = r + 1;
        }
        block.pixels = pixels;
        proof {
            assert((h as int) * (w as int) == (w as int) * (h as int)) by (nonlinear_arith);
        }
    }
}


/// Two renderers configured alike draw the same supersamples.
proof fn lemma_sample_accum_eq(r1: Renderer, r2: Renderer, x: u32, y: u32, k: nat, rng: RayRng)
    requires
        r1.scene.objects@ == r2.scene.objects@,
        r1.camera == r2.camera,
        r1.image_width == r2.image_width,
        r1.image_height == r2.image_height,
        r1.samples_per_pixel == r2.samples_per_pixel,
        r1.max_depth == r2.max_depth,
    ensures
        sample_accum_s(r1, x, y, k, rng) == sample_accum_s(r2, x, y, k, rng),
    decreases k,
{
    reveal(pixel_sample_s);
    if k > 0 {
        lemma_sample_accum_eq(r1, r2, x, y, (k - 1) as nat, rng);
    }
}

/// Determinism: rendering is a pure function of the scene, the camera,
/// the image geometry and the sample count — two renderers configured
/// identically produce identical scanline pixels, because the random
/// source is seeded from the scanline index and never from the clock,
/// the environment or a shared generator.
pub proof fn lemma_render_deterministic(r1: Renderer, r2: Renderer, y: u32, x0: u32, k: nat)
    requires
        r1.scene.objects@ == r2.scene.objects@,
        r1.camera == r2.camera,
        r1.image_width == r2.image_width,
        r1.image_height == r2.image_height,
        r1.samples_per_pixel == r2.samples_per_pixel,
        r1.max_depth == r2.max_depth,
    ensures
        row_state_s(r1, y, x0, k) == row_state_s(r2, y, x0, k),
    decreases k,
{
    reveal(row_state_s);
    reveal(render_pixel_s);
    if k > 0 {
        lemma_render_deterministic(r1, r2, y, x0, (k - 1) as nat);
        let rng = row_state_s(r1, y, x0, (k - 1) as nat).1;
        lemma_sample_accum_eq(r1, r2, (x0 + k - 1) as u32, y, r1.samples_per_pixel as nat, rng);
    }
}

/// A pixel at `(px, py)` lies in the rectangle of grid cell `(bx, by)`
/// exactly when the cell is the pixel's own: integer division by the
/// block size recovers the cell.
proof fn lemma_cell_division(px: int, bs: int, bx: int)
    requires
        bs >= 1,
        bs * bx <= px < bs * bx + bs,
    ensures
        px / bs == bx,
{
    vstd::arithmetic::div_mod::lemma_fundamental_div_mod(px, bs);
    assert(px / bs == bx) by (nonlinear_arith)
        requires
            px == bs * (px / bs) + px % bs,
            0 <= px % bs < bs,
            bs * bx <= px < bs * bx + bs,
            bs >= 1,
    ;
}

/// Every nonnegative pixel coordinate lies in the rectangle of its own
/// grid cell, and that cell is inside the grid when the pixel is.
proof fn lemma_pixel_cell(px: int, bs: int, nb: int, w: int)
    requires
        bs >= 1,
        0 <= px < w,
        w <= bs * nb,
    ensures
        0 <= px / bs < nb,
        bs * (px / bs) <= px < bs * (px / bs) + bs,
{
    vstd::arithmetic::div_mod::lemma_fundamental_div_mod(px, bs);
    vstd::arithmetic::div_mod::lemma_div_pos_is_pos(px, bs);
    assert(px / bs < nb) by (nonlinear_arith)
        requires
            px == bs * (px / bs) + px % bs,
            0 <= px % bs < bs,
            px < bs * nb,
            bs >= 1,
            px / bs >= 0,
    ;
}

/// Some block of the plan covers the pixel.
pub open spec fn covers_pixel(blocks: Seq<RenderBlock>, px: int, py: int) -> bool {
    exists|j: int| 0 <= j < blocks.len() && block_covers(#[trigger] blocks[j], px, py)
}

/// Partition the image into blocks of at most `block_size` square,
/// clipped at the image edges, ordered by Chebyshev distance of their
/// grid cell from the centre cell (spiral-outward dispatch priority).
/// Together the blocks cover every pixel exactly once.
pub fn plan_blocks(image_width: u32, image_height: u32, block_size: u32) -> (blocks: Vec<
    RenderBlock,
>)
    requires
        block_size >= 1,
        image_width + block_size <= u32::MAX,
        image_height + block_size <= u32::MAX,
    ensures
        ({
            let w = image_width as int;
            let h = image_height as int;
            let bs = block_size as int;
            let nbx = (w + bs - 1) / bs;
            let nby = (h + bs - 1) / bs;
            let cbx = nbx / 2;
            let cby = nby / 2;
            &&& forall|j: int|
                0 <= j < blocks@.len() ==> block_rect_ok(
                    #[trigger] blocks@[j],
                    blocks@[j].x as int / bs,
                    blocks@[j].y as int / bs,
                    bs,
                    w,
                    h,
                ) && 0 <= blocks@[j].x as int / bs < nbx && 0 <= blocks@[j].y as int / bs < nby
            &&& forall|j: int, k: int|
                0 <= j <= k < blocks@.len() ==> cheb_dist(
                    (#[trigger] blocks@[j]).x as int / bs,
                    blocks@[j].y as int / bs,
                    cbx,
                    cby,
                ) <= cheb_dist((#[trigger] blocks@[k]).x as int / bs, blocks@[k].y as int / bs, cbx, cby)
            &&& forall|px: int, py: int|
                0 <= px < w && 0 <= py < h ==> #[trigger] covers_pixel(blocks@, px, py)
            &&& forall|j: int, k: int, px: int, py: int|
                0 <= j < k < blocks@.len() ==> !(#[trigger] block_covers(blocks@[j], px, py)
                    && #[trigger] block_covers(blocks@[k], px, py))
        }),
{
    let w = image_width;
    let h = image_height;
    let bs = block_size;
    let mut blocks: Vec<RenderBlock> = Vec::new();
    if w == 0 || h == 0 {
        return blocks;
    }
    let nbx = crate::shared::ceil_div(w, bs);
    let nby = crate::shared::ceil_div(h, bs);
    proof {
        if nbx == 0 {
            assert(bs as int * (nbx as int) == 0) by (nonlinear_arith)
                requires
                    nbx as int == 0,
            ;
        }
        if nby == 0 {
            assert(bs as int * (nby as int) == 0) by (nonlinear_arith)
                requires
                    nby as int == 0,
            ;
        }
        vstd::arithmetic::div_mod::lemma_fundamental_div_mod(nbx as int, 2);
        vstd::arithmetic::div_mod::lemma_fundamental_div_mod(nby as int, 2);
    }
    let cbx = nbx / 2;
    let cby = nby / 2;
    proof {
        assert(cbx as int <= nbx as int - 1 && cby as int <= nby as int - 1);
    }
    let mut maxr: u32 = cbx;
    if nbx - 1 - cbx > maxr {
        maxr = nbx - 1 - cbx;
    }
    if cby > maxr {
        maxr = cby;
    }
    if nby - 1 - cby > maxr {
        maxr = nby - 1 - cby;
    }
    let mut r: u32 = 0;
    while r <= maxr
        invariant
            block_size >= 1,
            bs == block_size && w == image_width && h == image_height,
            w >= 1 && h >= 1,
            image_width + block_size <= u32::MAX,
            image_height + block_size <= u32::MAX,
            nbx == (w as int + bs as int - 1) / bs as int,
            nby == (h as int + bs as int - 1) / bs as int,
            nbx >= 1 && nby >= 1,
            bs * nbx >= w && bs * nby >= h,
            bs * (nbx - 1) < w && bs * (nby - 1) < h,
            cbx == nbx / 2 && cby == nby / 2,
            cbx <= maxr && nbx - 1 - cbx <= maxr && cby <= maxr && nby - 1 - cby <= maxr,
            maxr < 0xffff_ffff,
            r <= maxr + 1,
            forall|j: int|
                0 <= j < blocks@.len() ==> plan_entry_ok(#[trigger] blocks@[j], bs as int, w as int, h as int, nbx as int, nby as int),
            forall|j: int|
                0 <= j < blocks@.len() ==> cheb_dist(
                    (#[trigger] blocks@[j]).x as int / bs as int,
                    blocks@[j].y as int / bs as int,
                    cbx as int,
                    cby as int,
                ) < r as int,
            forall|j: int, k: int|
                0 <= j <= k < blocks@.len() ==> cheb_dist(
                    (#[trigger] blocks@[j]).x as int / bs as int,
                    blocks@[j].y as int / bs as int,
                    cbx as int,
                    cby as int,
                ) <= cheb_dist(
                    (#[trigger] blocks@[k]).x as int / bs as int,
                    blocks@[k].y as int / bs as int,
                    cbx as int,
                    cby as int,
                ),
            forall|bx: int, by: int|
                0 <= bx < nbx && 0 <= by < nby && cheb_dist(bx, by, cbx as int, cby as int)
                    < r as int ==> #[trigger] has_cell(blocks@, bs as int, bx, by),
            forall|j: int, k: int|
                0 <= j < k < blocks@.len() ==> (#[trigger] blocks@[j]).x != (#[trigger] blocks@[k]).x
                    || blocks@[j].y != blocks@[k].y,
        decreases maxr + 1 - r,
    {
        let mut by: u32 = 0;
        while by < nby
            invariant
                block_size >= 1,
                bs == block_size && w == image_width && h == image_height,
                w >= 1 && h >= 1,
                image_width + block_size <= u32::MAX,
                image_height + block_size <= u32::MAX,
                nbx >= 1 && nby >= 1,
                bs * nbx >= w && bs * nby >= h,
                bs * (nbx - 1) < w && bs * (nby - 1) < h,
                by <= nby,
                r <= maxr,
                forall|j: int|
                    0 <= j < blocks@.len() ==> plan_entry_ok(#[trigger] blocks@[j], bs as int, w as int, h as int, nbx as int, nby as int),
                forall|j: int|
                    0 <= j < blocks@.len() ==> (cheb_dist(
                        (#[trigger] blocks@[j]).x as int / bs as int,
                        blocks@[j].y as int / bs as int,
                        cbx as int,
                        cby as int,
                    ) < r as int || (cheb_dist(
                        blocks@[j].x as int / bs as int,
                        blocks@[j].y as int / bs as int,
                        cbx as int,
                        cby as int,
                    ) == r as int && (blocks@[j].y as int / bs as int) < by as int)),
                forall|j: int, k: int|
                    0 <= j <= k < blocks@.len() ==> cheb_dist(
                        (#[trigger] blocks@[j]).x as int / bs as int,
                        blocks@[j].y as int / bs as int,
                        cbx as int,
                        cby as int,
                    ) <= cheb_dist(
                        (#[trigger] blocks@[k]).x as int / bs as int,
                        blocks@[k].y as int / bs as int,
                        cbx as int,
                        cby as int,
                    ),
                forall|bx: int, byy: int|
                    0 <= bx < nbx && 0 <= byy < nby && (cheb_dist(bx, byy, cbx as int, cby as int)
                        < r as int || (cheb_dist(bx, byy, cbx as int, cby as int) == r as int
                        && byy < by as int)) ==> #[trigger] has_cell(blocks@, bs as int, bx, byy),
                forall|j: int, k: int|
                    0 <= j < k < blocks@.len() ==> (#[trigger] blocks@[j]).x != (#[trigger] blocks@[k]).x
                        || blocks@[j].y != blocks@[k].y,
            decreases nby - by,
        {
            let mut bx: u32 = 0;
            while bx < nbx
                invariant
                    block_size >= 1,
                    bs == block_size && w == image_width && h == image_height,
                    w >= 1 && h >= 1,
                    image_width + block_size <= u32::MAX,
                    image_height + block_size <= u32::MAX,
                    nbx >= 1 && nby >= 1,
                    bs * nbx >= w && bs * nby >= h,
                    bs * (nbx - 1) < w && bs * (nby - 1) < h,
                    bx <= nbx,
                    by < nby,
                    r <= maxr,
                    forall|j: int|
                        0 <= j < blocks@.len() ==> plan_entry_ok(#[trigger] blocks@[j], bs as int, w as int, h as int, nbx as int, nby as int),
                    forall|j: int|
                        0 <= j < blocks@.len() ==> (cheb_dist(
                            (#[trigger] blocks@[j]).x as int / bs as int,
                            blocks@[j].y as int / bs as int,
                            cbx as int,
                            cby as int,
                        ) < r as int || (cheb_dist(
                            blocks@[j].x as int / bs as int,
                            blocks@[j].y as int / bs as int,
                            cbx as int,
                            cby as int,
                        ) == r as int && ((blocks@[j].y as int / bs as int) < by as int || (
                        blocks@[j].y as int / bs as int == by as int && (blocks@[j].x as int
                            / bs as int) < bx as int)))),
                    forall|j: int, k: int|
                        0 <= j <= k < blocks@.len() ==> cheb_dist(
                            (#[trigger] blocks@[j]).x as int / bs as int,
                            blocks@[j].y as int / bs as int,
                            cbx as int,
                            cby as int,
                        ) <= cheb_dist(
                            (#[trigger] blocks@[k]).x as int / bs as int,
                            blocks@[k].y as int / bs as int,
                            cbx as int,
                            cby as int,
                        ),
                    forall|bxx: int, byy: int|
                        0 <= bxx < nbx && 0 <= byy < nby && (cheb_dist(bxx, byy, cbx as int, cby as int)
                            < r as int || (cheb_dist(bxx, byy, cbx as int, cby as int) == r as int
                            && (byy < by as int || (byy == by as int && bxx < bx as int))))
                            ==> #[trigger] has_cell(blocks@, bs as int, bxx, byy),
                    forall|j: int, k: int|
                        0 <= j < k < blocks@.len() ==> (#[trigger] blocks@[j]).x != (#[trigger] blocks@[k]).x
                            || blocks@[j].y != blocks@[k].y,
                decreases nbx - bx,
            {
                let dx = if bx >= cbx {
                    bx - cbx
                } else {
                    cbx - bx
                };
                let dy = if by >= cby {
                    by - cby
                } else {
                    cby - by
                };
                let d = if dx >= dy {
                    dx
                } else {
                    dy
                };
                if d == r {
                    proof {
                        assert((bs as int) * (bx as int) <= (bs as int) * (nbx as int - 1)
                            && (bs as int) * (by as int) <= (bs as int) * (nby as int - 1))
                            by (nonlinear_arith)
                            requires
                                bx as int <= nbx as int - 1,
                                by as int <= nby as int - 1,
                                bs as int >= 1,
                        ;
                    }
                    let x = bs * bx;
                    let y = bs * by;
                    let bw = if w - x >= bs {
                        bs
                    } else {
                        w - x
                    };
                    let bh = if h - y >= bs {
                        bs
                    } else {
                        h - y
                    };
                    let b = RenderBlock { x, y, width: bw, height: bh, pixels: Vec::new() };
                    let ghost blocks_before = blocks@;
                    blocks.push(b);
                    proof {
                        lemma_cell_division(x as int, bs as int, bx as int);
                        lemma_cell_division(y as int, bs as int, by as int);
                        assert(blocks@ == blocks_before.push(b));
                        assert(has_cell(blocks@, bs as int, bx as int, by as int)) by {
                            let ghost bl = blocks_before.len() as int;
                            assert(0 <= bl < blocks@.len() && blocks@[bl] == b);
                        }
                        assert forall|bxx: int, byy: int|
                            0 <= bxx < nbx && 0 <= byy < nby && (cheb_dist(bxx, byy, cbx as int, cby as int)
                                < r as int || (cheb_dist(bxx, byy, cbx as int, cby as int) == r as int
                                && (byy < by as int || (byy == by as int && bxx < bx as int + 1))))
                                implies #[trigger] has_cell(blocks@, bs as int, bxx, byy) by {
                            if bxx == bx as int && byy == by as int {
                            } else {
                                assert(has_cell(blocks_before, bs as int, bxx, byy));
                                let j = choose|j: int|
                                    0 <= j < blocks_before.len() && (#[trigger] blocks_before[j]).x
                                        == bs as int * bxx && blocks_before[j].y == bs as int * byy;
                                assert(blocks@[j] == blocks_before[j]);
                            }
                        }
                    }
                }
                bx = bx + 1;
            }
            by = by + 1;
        }
        r = r + 1;
    }
    proof {
        assert forall|px: int, py: int| 0 <= px < w as int && 0 <= py < h as int implies #[trigger]
            covers_pixel(blocks@, px, py) by {
            let bs_i = bs as int;
            lemma_pixel_cell(px, bs_i, nbx as int, w as int);
            lemma_pixel_cell(py, bs_i, nby as int, h as int);
            let bx = px / bs_i;
            let by = py / bs_i;
            assert(cheb_dist(bx, by, cbx as int, cby as int) <= maxr as int);
            assert(has_cell(blocks@, bs_i, bx, by));
            let j = choose|j: int|
                0 <= j < blocks@.len() && (#[trigger] blocks@[j]).x == bs_i * bx && blocks@[j].y
                    == bs_i * by;
            lemma_cell_division(blocks@[j].x as int, bs_i, bx);
            lemma_cell_division(blocks@[j].y as int, bs_i, by);
            assert(block_rect_ok(blocks@[j], bx, by, bs_i, w as int, h as int));
            assert(block_covers(blocks@[j], px, py));
        }
        assert forall|j: int, k: int, px: int, py: int| 0 <= j < k < blocks@.len() implies !(
        #[trigger] block_covers(blocks@[j], px, py) && #[trigger] block_covers(
            blocks@[k],
            px,
            py,
        )) by {
            if block_covers(blocks@[j], px, py) && block_covers(blocks@[k], px, py) {
                let bs_i = bs as int;
                let jx = blocks@[j].x as int / bs_i;
                let jy = blocks@[j].y as int / bs_i;
                let kx = blocks@[k].x as int / bs_i;
                let ky = blocks@[k].y as int / bs_i;
                assert(block_rect_ok(blocks@[j], jx, jy, bs_i, w as int, h as int));
                assert(block_rect_ok(blocks@[k], kx, ky, bs_i, w as int, h as int));
                lemma_cell_division(px, bs_i, jx);
                lemma_cell_division(px, bs_i, kx);
                lemma_cell_division(py, bs_i, jy);
                lemma_cell_division(py, bs_i, ky);
                assert(blocks@[j].x as int == bs_i * jx && blocks@[k].x as int == bs_i * kx);
                assert(jx == kx && jy == ky);
                assert(blocks@[j].x == blocks@[k].x && blocks@[j].y == blocks@[k].y);
            }
        }
    }
    blocks
}

/// A plan entry is the rectangle of its own grid cell, which lies in
/// the grid.
pub open spec fn plan_entry_ok(b: RenderBlock, bs: int, w: int, h: int, nbx: int, nby: int)
    -> bool {
    &&& block_rect_ok(b, b.x as int / bs, b.y as int / bs, bs, w, h)
    &&& 0 <= b.x as int / bs < nbx
    &&& 0 <= b.y as int / bs < nby
}

/// Some block in the plan occupies grid cell `(bx, by)`.
pub open spec fn has_cell(blocks: Seq<RenderBlock>, bs: int, bx: int, by: int) -> bool {
    exists|j: int|
        0 <= j < blocks.len() && (#[trigger] blocks[j]).x == bs * bx && blocks[j].y == bs * by
}

/// Hands blocks out to workers in plan order until stopped: the state
/// machine of the cooperative cancellation design. Once `stop` has been
/// called, no further block is dispatched; stopping leaves the plan
/// intact for a later render.
pub struct RenderSession {
    pub blocks: Vec<RenderBlock>,
    pub next: usize,
    pub stopped: bool,
}

impl RenderSession {
    pub fn new(blocks: Vec<RenderBlock>) -> (s: RenderSession)
        ensures
            s.blocks == blocks,
            s.next == 0,
            !s.stopped,
    {
        RenderSession { blocks, next: 0, stopped: false }
    }

    /// The next block to dispatch, as a fresh rectangle with an empty
    /// buffer; `None` once the plan is exhausted or the session stopped.
    pub fn next_block(&mut self) -> (r: Option<RenderBlock>)
        ensures
            final(self).blocks == old(self).blocks,
            final(self).stopped == old(self).stopped,
            old(self).stopped ==> r is None && final(self).next == old(self).next,
            !old(self).stopped && old(self).next >= old(self).blocks@.len() ==> r is None
                && final(self).next == old(self).next,
            !old(self).stopped && old(self).next < old(self).blocks@.len() ==> {
                let b = old(self).blocks@[old(self).next as int];
                &&& r is Some
                &&& r->Some_0.x == b.x
                &&& r->Some_0.y == b.y
                &&& r->Some_0.width == b.width
                &&& r->Some_0.height == b.height
                &&& r->Some_0.pixels@.len() == 0
                &&& final(self).next == old(self).next + 1
            },
    {
        if self.stopped {
            return None;
        }
        if self.next >= self.blocks.len() {
            return None;
        }
        let b = &self.blocks[self.next];
        let out = RenderBlock {
            x: b.x,
            y: b.y,
            width: b.width,
            height: b.height,
            pixels: Vec::new(),
        };
        self.next = self.next + 1;
        Some(out)
    }

    /// Request cooperative cancellation: every later `next_block` call
    /// returns `None`; the scene and plan stay valid for reuse.
    pub fn stop(&mut self)
        ensures
            final(self).blocks == old(self).blocks,
            final(self).next == old(self).next,
            final(self).stopped,
    {
        self.stopped = true;
    }
}

proof fn lemma_fx_div_unit_nonneg(d: i64)
    requires
        d >= 0,
    ensures
        fx_div_s(FX_ONE, d) >= 0,
{
    if d > 0 {
        vstd::arithmetic::div_mod::lemma_div_pos_is_pos(FX_ONE as int * FX_ONE as int, d as int);
    }
}

} // verus!
