use raycast::math::{clamp01, fmod, mix, SCALE};
use raycast::objects::{Ground, Intersectable, Primitive, Sphere};
use raycast::rays::{
    cross, distance, dot, norm, normalize, project_length, reflect, Ray, Sqrt, Vec3,
};
use raycast::scene::{cast, conv_color, render, white, Scene};

fn fx(v: f64) -> i64 {
    (v * SCALE as f64).round() as i64
}

fn v3(x: i64, y: i64, z: i64) -> Vec3<i64> {
    Vec3::new(x, y, z)
}

const S: i64 = 1_000_000;

#[test]
fn fmod_wraps_into_period() {
    assert_eq!(fmod(25 * S, 10 * S), 5 * S);
    assert_eq!(fmod(-3 * S, 10 * S), 7 * S);
    assert_eq!(fmod(0, 10 * S), 0);
}

#[test]
fn clamp01_pins_to_unit() {
    assert_eq!(clamp01(-5), 0);
    assert_eq!(clamp01(2 * S), S);
    assert_eq!(clamp01(345), 345);
}

#[test]
fn mix_blends_linearly() {
    assert_eq!(mix(0, S, S / 4), S / 4);
    assert_eq!(mix(S, S, S / 3), S);
    // The endpoints are exact, and factors outside [0, 1] extrapolate.
    assert_eq!(mix(3 * S, 9 * S, 0), 3 * S);
    assert_eq!(mix(3 * S, 9 * S, S), 9 * S);
    assert_eq!(mix(0, S, 2 * S), 2 * S);
    assert_eq!(mix(0, S, -S), -S);
}

#[test]
fn vector_algebra_exact_values() {
    assert_eq!(dot(v3(2 * S, 0, 0), v3(3 * S, 0, 0)), 6 * S);
    let c = cross(v3(S, 0, 0), v3(0, S, 0));
    assert_eq!((c.x, c.y, c.z), (0, 0, S));
    assert_eq!(norm(v3(3 * S, 4 * S, 0)), 5 * S);
    let u = normalize(v3(0, 0, 5 * S));
    assert_eq!((u.x, u.y, u.z), (0, 0, S));
    assert_eq!(project_length(v3(0, 0, 2 * S), v3(7 * S, 8 * S, 9 * S)), 9 * S);
    assert_eq!(distance(v3(0, 0, 0), v3(3 * S, 4 * S, 0)), 5 * S);
    assert_eq!((25 * S).sqrt(), 5 * S);
}

#[test]
fn cross_is_antisymmetric_at_tick_scale() {
    // Even for sub-unit (single-tick) vectors, where the scaled products
    // round, swapping the arguments negates the cross product exactly.
    let a = v3(0, 1, 0);
    let b = v3(0, 0, 1);
    let ab = cross(a, b);
    let ba = cross(b, a);
    assert_eq!((ab.x, ab.y, ab.z), (-ba.x, -ba.y, -ba.z));
    let aa = cross(a, a);
    assert_eq!((aa.x, aa.y, aa.z), (0, 0, 0));
}

#[test]
fn norm_is_zero_only_for_the_zero_vector() {
    // A single-tick vector keeps a nonzero norm: the root is taken on the
    // raw sum of squares, so nothing vanishes below one unit.
    assert_eq!(norm(v3(1, 0, 0)), 1);
    assert_eq!(norm(v3(0, 0, 0)), 0);
    assert_eq!(norm(v3(3, 4, 0)), 5);
}

#[test]
fn componentwise_operators() {
    let a = v3(S, 2 * S, 3 * S);
    let b = v3(4 * S, -S, 0);
    let sum = a.add(b);
    assert_eq!((sum.x, sum.y, sum.z), (5 * S, S, 3 * S));
    let d = a.sub(b);
    assert_eq!((d.x, d.y, d.z), (-3 * S, 3 * S, 3 * S));
    let n = a.neg();
    assert_eq!((n.x, n.y, n.z), (-S, -2 * S, -3 * S));
    let m = v3(2 * S, 0, -S).mul(3 * S);
    assert_eq!((m.x, m.y, m.z), (6 * S, 0, -3 * S));
    let q = v3(6 * S, 0, 3 * S).div(3 * S);
    assert_eq!((q.x, q.y, q.z), (2 * S, 0, S));
}

#[test]
fn reflection_mirrors_about_normal() {
    // A 45-degree incoming direction bounces off the up-facing unit normal.
    let r = reflect(v3(0, 0, S), v3(S, 0, -S));
    assert_eq!((r.x, r.y, r.z), (S, 0, S));
}

#[test]
fn ray_projection() {
    let r = Ray { ori: v3(S, 2 * S, 3 * S), dir: v3(0, S, 0) };
    let p = r.project(5 * S);
    assert_eq!((p.x, p.y, p.z), (S, 7 * S, 3 * S));
}

#[test]
fn ground_checkerboard_pattern() {
    // The four grid-aligned samples alternate by the xor-of-parities rule:
    // (0,0) and (5,5) share one base colour, (5,0) and (0,5) the other.
    let g = Ground {};
    let c00 = g.color_at(v3(0, 0, 0));
    let c50 = g.color_at(v3(5 * S, 0, 0));
    let c05 = g.color_at(v3(0, 5 * S, 0));
    let c55 = g.color_at(v3(5 * S, 5 * S, 0));
    assert_eq!((c00.x, c00.y, c00.z), (0, S, S));
    assert_eq!((c50.x, c50.y, c50.z), (0, 0, S));
    assert_eq!((c05.x, c05.y, c05.z), (100_000, 0, S));
    assert_eq!((c55.x, c55.y, c55.z), (100_000, S, S));
}

#[test]
fn ground_checkerboard_negative_coordinates() {
    // The pattern keeps its period across the origin: one cell to the left
    // the parity flips.
    let g = Ground {};
    let c = g.color_at(v3(-S, 0, 0));
    assert_eq!((c.x, c.y, c.z), (0, 0, S));
}

#[test]
fn ground_hit_exact_time_and_color() {
    let g = Ground {};
    let ray = Ray { ori: v3(3 * S, 7 * S, 10 * S), dir: v3(0, 0, -2 * S) };
    let hit = g.hit(ray).unwrap();
    assert_eq!(hit.time, 5 * S);
    assert_eq!((hit.color.x, hit.color.y, hit.color.z), (140_000, 0, S));
}

#[test]
fn ground_behind_origin_hit_excluded() {
    // Origin below the plane moving further down: the only root lies behind
    // the origin, and a negative-time hit is invalid.
    let g = Ground {};
    let ray = Ray { ori: v3(0, 0, -S), dir: v3(0, 0, -S) };
    assert!(g.hit(ray).is_none());
}

#[test]
fn ground_parallel_ray_misses() {
    let g = Ground {};
    let flat = Ray { ori: v3(0, 0, 5 * S), dir: v3(S, 0, 0) };
    assert!(g.hit(flat).is_none());
    let rising = Ray { ori: v3(0, 0, 5 * S), dir: v3(0, S, S) };
    assert!(g.hit(rising).is_none());
}

#[test]
fn sphere_tangent_and_wide_rays_miss() {
    let ray = Ray { ori: v3(0, 0, 0), dir: v3(0, S, 0) };
    // Closest approach equals the radius: a graze counts as a miss.
    let tangent = Sphere { center: v3(5 * S, 10 * S, 0), radius: 5 * S };
    assert!(tangent.first_hit(ray).is_none());
    // Closest approach beyond the radius.
    let wide = Sphere { center: v3(7 * S, 10 * S, 0), radius: 5 * S };
    assert!(wide.first_hit(ray).is_none());
}

#[test]
fn sphere_behind_ray_misses() {
    let ray = Ray { ori: v3(0, 0, 0), dir: v3(0, S, 0) };
    let behind = Sphere { center: v3(0, -20 * S, 0), radius: 5 * S };
    assert!(behind.first_hit(ray).is_none());
    let scene = Scene { objects: vec![Primitive::Sphere(behind)] };
    let c = cast(&scene, &vec![], ray, 4);
    let bg = white();
    assert_eq!((c.x, c.y, c.z), (bg.x, bg.y, bg.z));
}

#[test]
fn empty_scene_resolves_to_background() {
    let scene = Scene { objects: vec![] };
    let ray = Ray { ori: v3(0, 0, 0), dir: v3(0, S, 0) };
    let c = cast(&scene, &vec![], ray, 4);
    assert_eq!((c.x, c.y, c.z), (S, S, S));
}

#[test]
fn sphere_reflection_dims_by_nine_tenths() {
    // The head-on sphere hit reflects straight back, the bounce excludes the
    // sphere itself, hits nothing, and returns the background dimmed once.
    let sphere = Sphere { center: v3(0, 20 * S, 0), radius: 5 * S };
    let ray = Ray { ori: v3(0, 0, 0), dir: v3(0, S, 0) };
    let (time, refl) = sphere.first_hit(ray).unwrap();
    assert_eq!(time, 20 * S);
    assert_eq!((refl.ori.x, refl.ori.y, refl.ori.z), (0, 15 * S, 0));
    assert_eq!((refl.dir.x, refl.dir.y, refl.dir.z), (0, -S, 0));
    let scene = Scene { objects: vec![Primitive::Sphere(sphere)] };
    let c = cast(&scene, &vec![], ray, 3);
    assert_eq!((c.x, c.y, c.z), (900_000, 900_000, 900_000));
}

#[test]
fn sphere_trait_reports_closest_approach_time() {
    let sphere = Sphere { center: v3(0, 20 * S, 0), radius: 5 * S };
    let scene = Scene { objects: vec![Primitive::Sphere(Sphere { center: v3(0, 20 * S, 0), radius: 5 * S })] };
    let ray = Ray { ori: v3(0, 0, 0), dir: v3(0, S, 0) };
    let hit = sphere.intersect(&scene, 0, ray, 3).unwrap();
    assert_eq!(hit.time, 20 * S);
    assert_eq!((hit.color.x, hit.color.y, hit.color.z), (900_000, 900_000, 900_000));
}

#[test]
fn self_exclusion_skips_own_surface() {
    // A ray that plainly hits the ground resolves to the background when the
    // ground's own index is excluded, as on a bounce leaving its surface.
    let scene = Scene { objects: vec![Primitive::Ground(Ground {})] };
    let down = Ray { ori: v3(0, 0, 10 * S), dir: v3(0, 0, -S) };
    let hit = cast(&scene, &vec![], down, 3);
    assert_ne!((hit.x, hit.y, hit.z), (S, S, S));
    let skipped = cast(&scene, &vec![0], down, 3);
    assert_eq!((skipped.x, skipped.y, skipped.z), (S, S, S));
}

#[test]
fn reflection_chain_spends_depth_budget() {
    // Two spheres facing each other reflect the ray back and forth; each
    // bounce keeps nine tenths, and the budget's end falls back to white.
    let scene = Scene {
        objects: vec![
            Primitive::Sphere(Sphere { center: v3(0, 20 * S, 0), radius: 5 * S }),
            Primitive::Sphere(Sphere { center: v3(0, -20 * S, 0), radius: 5 * S }),
        ],
    };
    let ray = Ray { ori: v3(0, 0, 0), dir: v3(0, S, 0) };
    let c0 = cast(&scene, &vec![], ray, 0);
    assert_eq!((c0.x, c0.y, c0.z), (900_000, 900_000, 900_000));
    let c2 = cast(&scene, &vec![], ray, 2);
    assert_eq!((c2.x, c2.y, c2.z), (729_000, 729_000, 729_000));
    let c5 = cast(&scene, &vec![], ray, 5);
    assert_eq!((c5.x, c5.y, c5.z), (531_441, 531_441, 531_441));
}

#[test]
fn degenerate_and_out_of_window_rays_miss() {
    let g = Ground {};
    let sphere = Sphere { center: v3(0, 20 * S, 0), radius: 5 * S };
    // A zero direction cannot be normalized; both primitives treat it as a miss.
    let zero = Ray { ori: v3(0, 0, 10 * S), dir: v3(0, 0, 0) };
    assert!(g.hit(zero).is_none());
    assert!(sphere.first_hit(zero).is_none());
    // Values beyond the representable window are degenerate and miss too.
    let big = Ray { ori: v3(i64::MAX, 0, 10 * S), dir: v3(0, 0, -S) };
    assert!(g.hit(big).is_none());
    assert!(sphere.first_hit(big).is_none());
}

#[test]
fn conv_color_scales_and_saturates() {
    assert_eq!(conv_color(0), 0);
    assert_eq!(conv_color(S), 255);
    assert_eq!(conv_color(S / 2), 127);
    assert_eq!(conv_color(-3), 0);
    assert_eq!(conv_color(2 * S), 255);
}

fn rotate(axis: (f64, f64, f64), theta: f64, vec: (f64, f64, f64)) -> (f64, f64, f64) {
    let a = (theta / 2.0).cos();
    let len = (axis.0 * axis.0 + axis.1 * axis.1 + axis.2 * axis.2).sqrt();
    let s = -(theta / 2.0).sin();
    let (b, c, d) = (axis.0 / len * s, axis.1 / len * s, axis.2 / len * s);
    let (aa, bb, cc, dd) = (a * a, b * b, c * c, d * d);
    let (bc, ad, ac, ab, bd, cd) = (b * c, a * d, a * c, a * b, b * d, c * d);
    (
        vec.0 * (aa + bb - cc - dd) + vec.1 * (2.0 * (bc + ad)) + vec.2 * (2.0 * (bd - ac)),
        vec.0 * (2.0 * (bc - ad)) + vec.1 * (aa + cc - bb - dd) + vec.2 * (2.0 * (cd + ab)),
        vec.0 * (2.0 * (bd + ac)) + vec.1 * (2.0 * (cd - ab)) + vec.2 * (aa + dd - bb - cc),
    )
}

#[test]
fn end_to_end_small_frame() {
    // Scene: the ground plane and a sphere ahead of the camera; camera at the
    // origin looking along +y with up = +z, a 65-degree vertical field of
    // view, and a 4 x 3 frame.
    let scene = Scene {
        objects: vec![
            Primitive::Ground(Ground {}),
            Primitive::Sphere(Sphere {
                center: v3(0, 80 * S, 12 * S),
                radius: 10 * S,
            }),
        ],
    };
    let (width, height) = (4u32, 3u32);
    let vfov = 65.0f64.to_radians();
    let hfov = width as f64 * vfov / height as f64;
    let look = (0.0, 1.0, 0.0);
    let up = (0.0, 0.0, 1.0);
    let right = (1.0, 0.0, 0.0);

    let mut rays: Vec<Ray<i64>> = Vec::new();
    for y in (0..height).rev() {
        let ny = (y as f64 * 2.0) / ((height - 1) as f64) - 1.0;
        let y_rot = rotate(right, ny * (vfov / 2.0), look);
        for x in 0..width {
            let nx = (x as f64 * 2.0) / ((width - 1) as f64) - 1.0;
            let dir = rotate((-up.0, -up.1, -up.2), nx * (hfov / 2.0), y_rot);
            rays.push(Ray {
                ori: v3(0, 0, 0),
                dir: v3(fx(dir.0), fx(dir.1), fx(dir.2)),
            });
        }
    }
    let pixels = render(&scene, &rays, 8);
    assert_eq!(pixels.len(), (width * height * 3) as usize);
    // Every channel is a byte, so it lies in [0, 255] by construction; state
    // the expectation all the same.
    for p in &pixels {
        assert!(*p <= 255);
    }
    // A pixel agrees with casting its ray directly.
    let c = cast(&scene, &vec![], rays[0], 8);
    assert_eq!(pixels[0], conv_color(c.x));
    // The centre of the frame and the bottom-left corner see different
    // things; their red channels differ by far more than the threshold.
    let center = pixels[(3 * (1 * width + 1)) as usize];
    let corner = pixels[(3 * (2 * width)) as usize];
    let diff = (center as i32 - corner as i32).abs();
    assert!(diff > 100, "centre {:?} corner {:?}", center, corner);
}
