// Tests of the random source, the scene query, the integrator, and
// whole-frame determinism.

use rand_xoshiro::rand_core::{Rng, SeedableRng};
use rand_xoshiro::Xoshiro128Plus;
use raytrace::bvhiter::BVHIterator;
use raytrace::camera::Camera;
use raytrace::fixed::{fx_from_int, FX_ONE};
use raytrace::material::{Lambertian, Material, Metal};
use raytrace::object::Sphere;
use raytrace::render::{background, ray_color, RenderBlock, Renderer};
use raytrace::rng::RayRng;
use raytrace::scene::Scene;
use raytrace::shared::{Ray, RayQuery, Vec3, TRACE_EPSILON, TRACE_INFINITY};

fn fx(v: i64) -> i64 {
    fx_from_int(v)
}

fn grey_material() -> Material {
    Material::Lambertian(Lambertian { albedo: Vec3 { x: FX_ONE / 2, y: FX_ONE / 2, z: FX_ONE / 2 } })
}

fn red_material() -> Material {
    Material::Lambertian(Lambertian { albedo: Vec3 { x: FX_ONE, y: 0, z: 0 } })
}

/// A camera at the origin looking along -Z with a square viewport and
/// no lens jitter.
fn simple_camera() -> Camera {
    let origin = Vec3::zero();
    let horizontal = Vec3::from_ints(4, 0, 0);
    let vertical = Vec3::from_ints(0, 4, 0);
    let lower_left = Vec3 {
        x: -horizontal.x / 2,
        y: -vertical.y / 2,
        z: -FX_ONE,
    };
    Camera::new(
        origin,
        lower_left,
        horizontal,
        vertical,
        Vec3::from_ints(1, 0, 0),
        Vec3::from_ints(0, 1, 0),
        0,
    )
}

#[test]
fn rng_matches_reference_generator() {
    for seed in [0u64, 1, 7, 13, 20, 0xdead_beef] {
        let mut ours = RayRng::new(seed);
        let mut reference = Xoshiro128Plus::seed_from_u64(seed);
        for _ in 0..100 {
            assert_eq!(ours.next_u32(), reference.next_u32());
        }
    }
}

#[test]
fn rng_gen_range_stays_in_range() {
    let mut rng = RayRng::new(10);
    for _ in 0..1000 {
        let v = rng.gen_range(-FX_ONE, FX_ONE);
        assert!(-FX_ONE <= v && v < FX_ONE);
    }
    let mut rng2 = RayRng::new(11);
    assert_eq!(rng2.gen_range(fx(5), fx(5)), fx(5));
}

#[test]
fn empty_scene_reports_no_hit() {
    let mut scene = Scene::new();
    scene.build_bvh();
    let q = RayQuery {
        ray: Ray::new(Vec3::zero(), Vec3::from_ints(0, 0, -1)),
        t_min: TRACE_EPSILON,
        t_max: TRACE_INFINITY,
    };
    assert!(scene.intersect(q).is_none());
}

#[test]
fn closest_hit_picks_nearer_sphere() {
    // Two spheres overlapping in projection at different depths: the
    // returned hit must be the nearer one, with t strictly inside the
    // query interval.
    let mut scene = Scene::new();
    let near = red_material();
    let far = grey_material();
    scene.objects.push(Sphere::new(Vec3::from_ints(0, 0, -5), fx(1), &near));
    scene.objects.push(Sphere::new(Vec3::from_ints(0, 0, -10), fx(1), &far));
    scene.build_bvh();
    let q = RayQuery {
        ray: Ray::new(Vec3::zero(), Vec3::from_ints(0, 0, -1)),
        t_min: TRACE_EPSILON,
        t_max: TRACE_INFINITY,
    };
    let hit = scene.intersect(q).expect("ray through both spheres must hit");
    // The near sphere's front surface is at t = 4.
    assert!(hit.t > q.t_min && hit.t < q.t_max);
    assert!((hit.t - fx(4)).abs() < FX_ONE / 16);
    assert_eq!(hit.material, near);
    assert!(hit.front_face);
    // Order of insertion must not matter.
    let mut swapped = Scene::new();
    swapped.objects.push(Sphere::new(Vec3::from_ints(0, 0, -10), fx(1), &far));
    swapped.objects.push(Sphere::new(Vec3::from_ints(0, 0, -5), fx(1), &near));
    swapped.build_bvh();
    let hit2 = swapped.intersect(q).expect("hit expected");
    assert_eq!(hit2.t, hit.t);
    assert_eq!(hit2.material, near);
}

#[test]
fn bvh_traversal_yields_every_intersected_sphere() {
    // No false negatives: every sphere the ray intersects shows up
    // among the traversal candidates, and the candidate count never
    // exceeds the primitive count.
    let mut scene = Scene::new();
    let m = grey_material();
    for i in 0..12i64 {
        scene.objects.push(Sphere::new(Vec3::from_ints(i % 4, i / 4, -4 - i), fx(1), &m));
    }
    scene.build_bvh();
    let ray = Ray::new(Vec3::zero(), Vec3::from_ints(0, 0, -1));
    let q = RayQuery { ray, t_min: TRACE_EPSILON, t_max: TRACE_INFINITY };
    let bvh = scene.bvh.as_ref().expect("built");
    let mut iter = BVHIterator::new(bvh, ray, q.t_min, q.t_max);
    let mut yielded: Vec<usize> = Vec::new();
    while let Some(i) = iter.next() {
        yielded.push(i);
    }
    assert!(yielded.len() <= scene.objects.len());
    let mut sorted = yielded.clone();
    sorted.sort();
    sorted.dedup();
    assert_eq!(sorted.len(), yielded.len(), "no candidate may be yielded twice");
    for (i, s) in scene.objects.iter().enumerate() {
        if s.intersect_sphere(q).is_some() {
            assert!(yielded.contains(&i), "intersected sphere {} missing from candidates", i);
        }
    }
}

#[test]
fn trace_on_empty_scene_gives_background() {
    // An empty scene degrades gracefully: every ray escapes and the
    // integrator returns the background colour, at any depth.
    let mut scene = Scene::new();
    scene.build_bvh();
    let mut rng = RayRng::new(0);
    let mut rays: u32 = 0;
    let dir = Vec3::from_ints(0, 0, -1);
    let c = ray_color(&mut rng, Ray::new(Vec3::zero(), dir), &scene, 50, &mut rays);
    assert_eq!(c, background(&Ray::new(Vec3::zero(), dir)));
    let black = ray_color(&mut rng, Ray::new(Vec3::zero(), dir), &scene, 0, &mut rays);
    assert_eq!(black, Vec3::zero());
}

#[test]
fn trace_depth_zero_is_black() {
    // Recursion termination: with a spent depth budget the integrator
    // returns pure black for every ray, whatever the scene holds.
    let mut scene = Scene::new();
    let m = grey_material();
    scene.objects.push(Sphere::new(Vec3::from_ints(0, 0, -5), fx(1), &m));
    scene.build_bvh();
    let mut rng = RayRng::new(3);
    let mut rays: u32 = 0;
    for dir in [
        Vec3::from_ints(0, 0, -1),
        Vec3::from_ints(1, 2, 3),
        Vec3::from_ints(-1, 0, 0),
    ] {
        let c = ray_color(&mut rng, Ray::new(Vec3::zero(), dir), &scene, 0, &mut rays);
        assert_eq!(c, Vec3::zero());
    }
}

#[test]
fn scatter_is_deterministic_in_the_seed() {
    let m = Material::Metal(Metal {
        albedo: Vec3 { x: FX_ONE / 2, y: FX_ONE / 2, z: FX_ONE / 2 },
        fuzz: FX_ONE / 4,
    });
    let mut scene = Scene::new();
    scene.objects.push(Sphere::new(Vec3::from_ints(0, 0, -5), fx(1), &m));
    scene.build_bvh();
    let q = RayQuery {
        ray: Ray::new(Vec3::zero(), Vec3::from_ints(0, 0, -1)),
        t_min: TRACE_EPSILON,
        t_max: TRACE_INFINITY,
    };
    let hit = scene.intersect(q).expect("hit");
    let mut r1 = RayRng::new(99);
    let mut r2 = RayRng::new(99);
    let s1 = m.scatter(&mut r1, &q.ray, &hit).expect("scatter");
    let s2 = m.scatter(&mut r2, &q.ray, &hit).expect("scatter");
    assert_eq!(s1.attenuation, s2.attenuation);
    assert_eq!(s1.scattered_ray, s2.scattered_ray);
}

fn demo_scene() -> Scene {
    let mut scene = Scene::new();
    let ground = grey_material();
    let left = red_material();
    let right = Material::Metal(Metal {
        albedo: Vec3 { x: 45875, y: 39321, z: 32768 },
        fuzz: 0,
    });
    scene.objects.push(Sphere::new(Vec3::from_ints(0, -1000, -1), fx(1000), &ground));
    scene.objects.push(Sphere::new(Vec3::from_ints(-1, 1, -3), fx(1), &left));
    scene.objects.push(Sphere::new(Vec3::from_ints(1, 1, -4), fx(1), &right));
    scene.build_bvh();
    scene
}

/// The camera basis for a look-at description, computed here in
/// floating point and handed to the library as fixed-point vectors.
fn lookat_camera(
    lookfrom: (f64, f64, f64),
    lookat: (f64, f64, f64),
    vfov_degrees: f64,
    aspect_ratio: f64,
    aperture: f64,
    focus_dist: f64,
) -> Camera {
    let fx_f = |v: f64| (v * FX_ONE as f64).round() as i64;
    let vec_f = |a: (f64, f64, f64)| Vec3 { x: fx_f(a.0), y: fx_f(a.1), z: fx_f(a.2) };
    let sub = |a: (f64, f64, f64), b: (f64, f64, f64)| (a.0 - b.0, a.1 - b.1, a.2 - b.2);
    let cross = |a: (f64, f64, f64), b: (f64, f64, f64)| {
        (a.1 * b.2 - a.2 * b.1, a.2 * b.0 - a.0 * b.2, a.0 * b.1 - a.1 * b.0)
    };
    let norm = |a: (f64, f64, f64)| {
        let l = (a.0 * a.0 + a.1 * a.1 + a.2 * a.2).sqrt();
        (a.0 / l, a.1 / l, a.2 / l)
    };
    let half_height = (vfov_degrees.to_radians() / 2.0).tan();
    let vh = 2.0 * half_height;
    let vw = aspect_ratio * vh;
    let w = norm(sub(lookfrom, lookat));
    let u = norm(cross((0.0, 1.0, 0.0), w));
    let v = cross(w, u);
    let horiz = (focus_dist * vw * u.0, focus_dist * vw * u.1, focus_dist * vw * u.2);
    let vert = (focus_dist * vh * v.0, focus_dist * vh * v.1, focus_dist * vh * v.2);
    let lower_left = (
        lookfrom.0 - horiz.0 / 2.0 - vert.0 / 2.0 - focus_dist * w.0,
        lookfrom.1 - horiz.1 / 2.0 - vert.1 / 2.0 - focus_dist * w.1,
        lookfrom.2 - horiz.2 / 2.0 - vert.2 / 2.0 - focus_dist * w.2,
    );
    Camera::new(
        vec_f(lookfrom),
        vec_f(lower_left),
        vec_f(horiz),
        vec_f(vert),
        vec_f(u),
        vec_f(v),
        fx_f(aperture / 2.0),
    )
}

fn render_frame_buffer(width: u32, height: u32, spp: u32) -> Vec<u32> {
    let scene = demo_scene();
    let aspect_ratio = width as f64 / height as f64;
    let camera = lookat_camera((13.0, 2.0, 3.0), (0.0, 0.0, 0.0), 20.0, aspect_ratio, 0.1, 10.0);
    let renderer = Renderer::new(width, height, spp, scene, camera);
    let mut block = RenderBlock { x: 0, y: 0, width, height, pixels: Vec::new() };
    let mut rays: u32 = 0;
    renderer.render_block(&mut block, &mut rays);
    assert_eq!(block.pixels.len(), (width * height) as usize);
    assert!(rays > 0);
    block.pixels
}

#[test]
fn test_determnism() {
    // Two renders of the same scene, camera, resolution and sample
    // count produce exactly the same image.
    let width = 100;
    let height = 100;
    let spp = 2;
    let a = render_frame_buffer(width, height, spp);
    let b = render_frame_buffer(width, height, spp);
    for i in 0..a.len() {
        assert_eq!(a[i], b[i]);
    }
}

#[test]
fn ground_plane_scene_renders_gradient() {
    // End to end: a single huge sphere acting as a ground plane under a
    // camera looking along -Z, one sample per pixel. Every channel is a
    // valid byte by construction; the image must show the sky above and
    // the ground below, and the sky must stay blue-tinted.
    let mut scene = Scene::new();
    let ground = grey_material();
    scene.objects.push(Sphere::new(Vec3::from_ints(0, -1000, -1), fx(1000), &ground));
    scene.build_bvh();
    let width = 32;
    let height = 24;
    let renderer = Renderer::new(width, height, 1, scene, simple_camera());
    let mut block = RenderBlock { x: 0, y: 0, width, height, pixels: Vec::new() };
    let mut rays: u32 = 0;
    renderer.render_block(&mut block, &mut rays);
    assert_eq!(block.pixels.len(), (width * height) as usize);
    for &p in &block.pixels {
        assert_eq!(p & 0xff00_0000, 0, "packed pixel has only RGB bytes");
    }
    // Top rows see the sky: blue at least as strong as red.
    for x in 0..width {
        let p = block.pixels[x as usize];
        let r = (p >> 16) & 0xff;
        let b = p & 0xff;
        assert!(b >= r, "sky pixel must be blue-tinted, got {:06x}", p);
    }
    // The frame is not a constant colour: the ground differs from the sky.
    let top = block.pixels[0];
    let bottom = block.pixels[((height - 1) * width) as usize];
    assert_ne!(top, bottom);
}
