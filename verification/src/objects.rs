use vstd::prelude::*;

verus! {

use crate::math::{
    SCALE, LIM, in_lim, s_clamp01, s_div_fx, s_sqrt, c_div_fx, fmod, clamp01, div_floor,
    sqrt_fx, lemma_mul_bounds, lemma_sqrt_floor, lemma_sqrt_floor_unique,
};
use vstd::arithmetic::div_mod::{
    lemma_div_pos_is_pos, lemma_div_is_ordered, lemma_div_multiples_vanish,
};
use crate::rays::{
    Vec3, Ray, v_in_lim, ray_in_lim, s_sub, s_project_length, s_ray_project, s_distance,
    s_normalize, s_reflect, s_mul_fx, s_dot_val, s_norm, c_sub, c_project_length,
    c_ray_project, c_distance, c_normalize, c_reflect, c_mul_fx, v_chk, ray_chk,
};
use crate::scene::{Scene, s_cast, s_sphere_shade, reflect_shade};

/// A successful ray-primitive test: the reported hit time and the colour
/// resolved for it.
#[derive(Debug, Copy, Clone)]
pub struct Intersection<T> {
    pub time: T,
    pub color: Vec3<T>,
}

/// The infinite horizontal plane at height zero, with upward normal.
#[derive(Debug)]
pub struct Ground {}

/// A reflective sphere.
#[derive(Debug)]
pub struct Sphere {
    pub center: Vec3<i64>,
    pub radius: i64,
}

/// A closed sum over the primitive variants a scene may hold.
#[derive(Debug)]
pub enum Primitive {
    Ground(Ground),
    Sphere(Sphere),
}

/// The capability every primitive offers: test a ray against its geometry and
/// resolve a colour. The recursive tracer a reflective surface needs is
/// reified as the scene, the tested primitive's own index (so that the bounce
/// excludes exactly that primitive), and the remaining reflection depth.
pub trait Intersectable {
    /// What the test returns, as a function of the same data.
    spec fn spec_intersect(
        &self,
        objs: Seq<Primitive>,
        self_id: usize,
        ray: Ray<i64>,
        depth: nat,
    ) -> Option<Intersection<i64>>;

    /// Tests `ray` against this primitive.
    fn intersect(
        &self,
        scene: &Scene,
        self_id: usize,
        ray: Ray<i64>,
        depth: u32,
    ) -> (r: Option<Intersection<i64>>)
        ensures
            r == self.spec_intersect(scene.objects@, self_id, ray, depth as nat),
    ;
}

/// The procedural checkerboard colour of the ground at a point: cells of ten
/// units along x and y, their parities combined by exclusive or, and the
/// first channel graded along y.
pub open spec fn s_ground_color(p: Vec3<i64>) -> Vec3<i64> {
    let par_x = p.x as int % (10 * SCALE as int) < 5 * SCALE as int;
    let par_y = p.y as int % (10 * SCALE as int) < 5 * SCALE as int;
    let cz = s_clamp01((p.y as int * SCALE as int) / (50 * SCALE as int));
    if par_x != par_y {
        Vec3 { x: cz as i64, y: 0i64, z: SCALE }
    } else {
        Vec3 { x: cz as i64, y: SCALE, z: SCALE }
    }
}

/// The negated upward normal of the ground plane.
pub open spec fn s_ground_down() -> Vec3<i64> {
    Vec3 { x: 0i64, y: 0i64, z: (-SCALE) as i64 }
}

/// Where a ray meets the ground plane. The closing rate towards the plane
/// must be strictly positive (a parallel or receding ray misses); the hit
/// time is the origin's height divided by that rate, and the colour is the
/// checkerboard sampled at the hit point. A negative hit time - the only
/// root lies behind the origin, as for an origin below the plane moving
/// further down - is invalid and reports a miss.
pub open spec fn s_ground_hit(ray: Ray<i64>) -> Option<Intersection<i64>> {
    if !ray_in_lim(ray) {
        None
    } else {
        match s_project_length(s_ground_down(), ray.dir) {
            Some(plen) => if plen <= 0 {
                None
            } else {
                match s_div_fx(ray.ori.z, plen) {
                    Some(t) => if t < 0 {
                        None
                    } else {
                        match s_ray_project(ray, t) {
                            Some(p) => Some(Intersection { time: t, color: s_ground_color(p) }),
                            None => None,
                        }
                    },
                    None => None,
                }
            },
            None => None,
        }
    }
}

impl Ground {
    /// The checkerboard colour sampled at a point of the plane.
    pub fn color_at(&self, p: Vec3<i64>) -> (c: Vec3<i64>)
        requires
            v_in_lim(p),
        ensures
            c == s_ground_color(p),
    {
        let par_x = fmod(p.x, 10 * SCALE) < 5 * SCALE;
        let par_y = fmod(p.y, 10 * SCALE) < 5 * SCALE;
        proof {
            lemma_mul_bounds(p.y as int, SCALE as int, LIM as int);
        }
        let q = div_floor((p.y as i128) * (SCALE as i128), (50 * SCALE) as i128);
        proof {
            lemma_div_is_ordered(
                p.y as int * SCALE as int,
                LIM as int * SCALE as int,
                50 * SCALE as int,
            );
            lemma_div_is_ordered(
                -(LIM as int) * SCALE as int,
                p.y as int * SCALE as int,
                50 * SCALE as int,
            );
        }
        let cz = clamp01(q as i64);
        if par_x != par_y {
            Vec3 { x: cz, y: 0, z: SCALE }
        } else {
            Vec3 { x: cz, y: SCALE, z: SCALE }
        }
    }

    /// Tests a ray against the plane; realises `s_ground_hit`.
    pub fn hit(&self, ray: Ray<i64>) -> (r: Option<Intersection<i64>>)
        ensures
            r == s_ground_hit(ray),
    {
        if !ray_chk(ray) {
            return None;
        }
        let down = Vec3 { x: 0, y: 0, z: -SCALE };
        let plen = match c_project_length(down, ray.dir) {
            Some(v) => v,
            None => {
                return None;
            },
        };
        if plen <= 0 {
            return None;
        }
        let t = match c_div_fx(ray.ori.z, plen) {
            Some(v) => v,
            None => {
                return None;
            },
        };
        if t < 0 {
            return None;
        }
        let p = match c_ray_project(ray, t) {
            Some(v) => v,
            None => {
                return None;
            },
        };
        Some(Intersection { time: t, color: self.color_at(p) })
    }
}

impl Intersectable for Ground {
    open spec fn spec_intersect(
        &self,
        objs: Seq<Primitive>,
        self_id: usize,
        ray: Ray<i64>,
        depth: nat,
    ) -> Option<Intersection<i64>> {
        s_ground_hit(ray)
    }

    fn intersect(
        &self,
        scene: &Scene,
        self_id: usize,
        ray: Ray<i64>,
        depth: u32,
    ) -> (r: Option<Intersection<i64>>) {
        self.hit(ray)
    }
}

/// A ray that is parallel to the ground plane or moving away from it (its
/// direction's z-component is not negative) never intersects the plane.
pub proof fn lemma_ground_receding(ray: Ray<i64>)
    requires
        ray.dir.z >= 0,
    ensures
        s_ground_hit(ray) is None,
{
    if ray_in_lim(ray) {
        let down = s_ground_down();
        assert(down.x as int == 0 && down.y as int == 0 && down.z as int == -1000000);
        assert((down.x as int) * (down.x as int) == 0) by (nonlinear_arith)
            requires
                down.x as int == 0,
        ;
        assert((down.y as int) * (down.y as int) == 0) by (nonlinear_arith)
            requires
                down.y as int == 0,
        ;
        assert((down.z as int) * (down.z as int) == 1000000000000int) by (nonlinear_arith)
            requires
                down.z as int == -1000000,
        ;
        lemma_sqrt_floor_unique(1_000_000_000_000, 1_000_000);
        assert(s_norm(down) == Some(SCALE));
        assert((down.x as int) * (SCALE as int) == 0) by (nonlinear_arith)
            requires
                down.x as int == 0,
        ;
        assert((down.y as int) * (SCALE as int) == 0) by (nonlinear_arith)
            requires
                down.y as int == 0,
        ;
        assert((down.z as int) * (SCALE as int) == -1000000000000int) by (nonlinear_arith)
            requires
                down.z as int == -1000000,
        ;
        assert(s_normalize(down) == Some(down));
        let nd = -(ray.dir.z as int);
        lemma_div_multiples_vanish(nd, SCALE as int);
        assert(s_dot_val(ray.dir, down) == nd);
        assert(s_project_length(down, ray.dir) == Some(nd as i64));
    }
}

/// No ground hit reports a negative time: behind-origin roots are excluded.
pub proof fn lemma_ground_time_nonneg(ray: Ray<i64>)
    ensures
        s_ground_hit(ray) matches Some(h) ==> h.time >= 0,
{
}

/// The inputs a sphere test is prepared to work on.
pub open spec fn sphere_ok(s: Sphere, ray: Ray<i64>) -> bool {
    ray_in_lim(ray) && v_in_lim(s.center) && in_lim(s.radius as int)
}

/// The projection of the origin-to-centre vector onto the ray's direction:
/// the time of the ray's closest approach to the sphere's centre.
pub open spec fn s_closest_approach(s: Sphere, ray: Ray<i64>) -> Option<i64> {
    if !sphere_ok(s, ray) {
        None
    } else {
        match s_sub(s.center, ray.ori) {
            Some(cr) => s_project_length(ray.dir, cr),
            None => None,
        }
    }
}

/// The distance from the sphere's centre to the ray's closest point.
pub open spec fn s_closest_distance(s: Sphere, ray: Ray<i64>) -> Option<i64> {
    match s_closest_approach(s, ray) {
        Some(cat) => match s_ray_project(ray, cat) {
            Some(cap) => s_distance(cap, s.center),
            None => None,
        },
        None => None,
    }
}

/// The geometric part of the sphere test: whether the ray hits, the reported
/// hit time, and the reflected ray leaving the surface. Two deliberate traits
/// of this caster: the half-chord puts `radius^2 + distance^2` under the
/// root (not the textbook difference), and the reported time is the closest
/// approach rather than the first-hit time, which is what the nearest-hit
/// ordering ranks by.
pub open spec fn s_sphere_geom(s: Sphere, ray: Ray<i64>) -> Option<(i64, Ray<i64>)> {
    match s_closest_approach(s, ray) {
        Some(cat) => match s_closest_distance(s, ray) {
            Some(cad) => if cad >= s.radius {
                None
            } else {
                match s_mul_fx(s.radius, s.radius) {
                    Some(rr) => match s_mul_fx(cad, cad) {
                        Some(dd) => if !in_lim(rr + dd) {
                            None
                        } else {
                            let chord = s_sqrt(rr + dd);
                            let fht = cat - chord;
                            if fht < 0 {
                                None
                            } else {
                                match s_ray_project(ray, fht as i64) {
                                    Some(fhp) => match s_sub(fhp, s.center) {
                                        Some(d) => match s_normalize(d) {
                                            Some(nrm) => match s_reflect(nrm, ray.dir) {
                                                Some(rd) => Some(
                                                    (cat, Ray { ori: fhp, dir: rd }),
                                                ),
                                                None => None,
                                            },
                                            None => None,
                                        },
                                        None => None,
                                    },
                                    None => None,
                                }
                            }
                        },
                        None => None,
                    },
                    None => None,
                }
            },
            None => None,
        },
        None => None,
    }
}

/// A ray whose closest approach to a sphere lies behind its origin (the
/// sphere is strictly behind the ray) never intersects the sphere.
pub proof fn lemma_sphere_receding(s: Sphere, ray: Ray<i64>)
    requires
        s_closest_approach(s, ray) matches Some(t) ==> t < 0,
    ensures
        s_sphere_geom(s, ray) is None,
{
    match s_closest_approach(s, ray) {
        Some(cat) => {
            match s_closest_distance(s, ray) {
                Some(cad) => {
                    if cad < s.radius {
                        match s_mul_fx(s.radius, s.radius) {
                            Some(rr) => {
                                match s_mul_fx(cad, cad) {
                                    Some(dd) => {
                                        assert((s.radius as int) * (s.radius as int) >= 0)
                                            by (nonlinear_arith);
                                        assert((cad as int) * (cad as int) >= 0)
                                            by (nonlinear_arith);
                                        lemma_div_pos_is_pos(
                                            (s.radius as int) * (s.radius as int),
                                            SCALE as int,
                                        );
                                        lemma_div_pos_is_pos(
                                            (cad as int) * (cad as int),
                                            SCALE as int,
                                        );
                                        if in_lim(rr + dd) {
                                            lemma_sqrt_floor((rr + dd) * SCALE as int);
                                            assert(s_sqrt(rr + dd) >= 0);
                                        }
                                    },
                                    None => {},
                                }
                            },
                            None => {},
                        }
                    }
                },
                None => {},
            }
        },
        None => {},
    }
}

/// No sphere hit reports a negative time: the reported closest-approach time
/// is at least the non-negative half-chord whenever the first-hit check
/// passes.
pub proof fn lemma_sphere_time_nonneg(s: Sphere, ray: Ray<i64>)
    ensures
        s_sphere_geom(s, ray) matches Some((cat, refl)) ==> cat >= 0,
{
    match s_closest_approach(s, ray) {
        Some(cat) => {
            match s_closest_distance(s, ray) {
                Some(cad) => {
                    if cad < s.radius {
                        match s_mul_fx(s.radius, s.radius) {
                            Some(rr) => {
                                match s_mul_fx(cad, cad) {
                                    Some(dd) => {
                                        assert((s.radius as int) * (s.radius as int) >= 0)
                                            by (nonlinear_arith);
                                        assert((cad as int) * (cad as int) >= 0)
                                            by (nonlinear_arith);
                                        lemma_div_pos_is_pos(
                                            (s.radius as int) * (s.radius as int),
                                            SCALE as int,
                                        );
                                        lemma_div_pos_is_pos(
                                            (cad as int) * (cad as int),
                                            SCALE as int,
                                        );
                                        if in_lim(rr + dd) {
                                            lemma_sqrt_floor((rr + dd) * SCALE as int);
                                            assert(s_sqrt(rr + dd) >= 0);
                                        }
                                    },
                                    None => {},
                                }
                            },
                            None => {},
                        }
                    }
                },
                None => {},
            }
        },
        None => {},
    }
}

/// A ray whose closest approach to the centre is at or beyond the radius
/// (a tangent ray counts as beyond) never intersects the sphere.
pub proof fn lemma_sphere_clear(s: Sphere, ray: Ray<i64>)
    requires
        s_closest_distance(s, ray) matches Some(d) ==> d >= s.radius,
    ensures
        s_sphere_geom(s, ray) is None,
{
}

impl Sphere {
    /// The geometric part of the intersection test; realises `s_sphere_geom`.
    pub fn first_hit(&self, ray: Ray<i64>) -> (r: Option<(i64, Ray<i64>)>)
        ensures
            r == s_sphere_geom(*self, ray),
    {
        if !(ray_chk(ray) && v_chk(self.center) && -LIM <= self.radius && self.radius <= LIM) {
            return None;
        }
        let cr = match c_sub(self.center, ray.ori) {
            Some(v) => v,
            None => {
                return None;
            },
        };
        let cat = match c_project_length(ray.dir, cr) {
            Some(v) => v,
            None => {
                return None;
            },
        };
        let cap = match c_ray_project(ray, cat) {
            Some(v) => v,
            None => {
                return None;
            },
        };
        let cad = match c_distance(cap, self.center) {
            Some(v) => v,
            None => {
                return None;
            },
        };
        if cad >= self.radius {
            return None;
        }
        let rr = match c_mul_fx(self.radius, self.radius) {
            Some(v) => v,
            None => {
                return None;
            },
        };
        let dd = match c_mul_fx(cad, cad) {
            Some(v) => v,
            None => {
                return None;
            },
        };
        let sum = rr + dd;
        if !(-LIM <= sum && sum <= LIM) {
            return None;
        }
        proof {
            assert((self.radius as int) * (self.radius as int) >= 0) by (nonlinear_arith);
            assert((cad as int) * (cad as int) >= 0) by (nonlinear_arith);
            lemma_div_pos_is_pos((self.radius as int) * (self.radius as int), SCALE as int);
            lemma_div_pos_is_pos((cad as int) * (cad as int), SCALE as int);
        }
        let chord = sqrt_fx(sum);
        let fht = cat - chord;
        if fht < 0 {
            return None;
        }
        let fhp = match c_ray_project(ray, fht) {
            Some(v) => v,
            None => {
                return None;
            },
        };
        let d = match c_sub(fhp, self.center) {
            Some(v) => v,
            None => {
                return None;
            },
        };
        let nrm = match c_normalize(d) {
            Some(v) => v,
            None => {
                return None;
            },
        };
        let rd = match c_reflect(nrm, ray.dir) {
            Some(v) => v,
            None => {
                return None;
            },
        };
        Some((cat, Ray { ori: fhp, dir: rd }))
    }
}

impl Intersectable for Sphere {
    open spec fn spec_intersect(
        &self,
        objs: Seq<Primitive>,
        self_id: usize,
        ray: Ray<i64>,
        depth: nat,
    ) -> Option<Intersection<i64>> {
        s_sphere_shade(*self, objs, self_id, ray, depth)
    }

    fn intersect(
        &self,
        scene: &Scene,
        self_id: usize,
        ray: Ray<i64>,
        depth: u32,
    ) -> (r: Option<Intersection<i64>>) {
        match self.first_hit(ray) {
            Some((cat, refl)) => Some(reflect_shade(scene, self_id, refl, cat, depth)),
            None => None,
        }
    }
}

impl Intersectable for Primitive {
    open spec fn spec_intersect(
        &self,
        objs: Seq<Primitive>,
        self_id: usize,
        ray: Ray<i64>,
        depth: nat,
    ) -> Option<Intersection<i64>> {
        match self {
            Primitive::Ground(g) => g.spec_intersect(objs, self_id, ray, depth),
            Primitive::Sphere(s) => s.spec_intersect(objs, self_id, ray, depth),
        }
    }

    fn intersect(
        &self,
        scene: &Scene,
        self_id: usize,
        ray: Ray<i64>,
        depth: u32,
    ) -> (r: Option<Intersection<i64>>) {
        match self {
            Primitive::Ground(g) => g.intersect(scene, self_id, ray, depth),
            Primitive::Sphere(s) => s.intersect(scene, self_id, ray, depth),
        }
    }
}

} // verus!
