use vstd::prelude::*;

verus! {

use crate::math::{SCALE, LIM, div_floor};
use vstd::arithmetic::div_mod::lemma_div_is_ordered;
use crate::rays::{Vec3, Ray};
use crate::objects::{
    Intersection, Primitive, Ground, Sphere, s_ground_hit, s_sphere_geom, s_closest_approach,
    lemma_ground_receding, lemma_sphere_receding,
};

/// An ordered, immutable collection of primitives. A primitive's identity is
/// its index in this list; the exclusion sets of the caster hold indices.
#[derive(Debug)]
pub struct Scene {
    pub objects: Vec<Primitive>,
}

/// The background colour: white, one whole unit per channel.
pub open spec fn s_white() -> Vec3<i64> {
    Vec3 { x: SCALE, y: SCALE, z: SCALE }
}

/// The background colour a ray resolves to when it hits nothing.
pub fn white() -> (c: Vec3<i64>)
    ensures
        c == s_white(),
{
    Vec3 { x: SCALE, y: SCALE, z: SCALE }
}

/// The fixed reflectance: a reflected colour keeps nine tenths of each channel.
pub open spec fn s_scale9(c: Vec3<i64>) -> Vec3<i64> {
    Vec3 {
        x: ((c.x * 9) / 10) as i64,
        y: ((c.y * 9) / 10) as i64,
        z: ((c.z * 9) / 10) as i64,
    }
}

fn scale9_part(c: i64) -> (r: i64)
    ensures
        r == (c as int * 9) / 10,
{
    let q = div_floor((c as i128) * 9, 10);
    proof {
        lemma_div_is_ordered(c as int * 9, i64::MAX as int * 9, 10);
        lemma_div_is_ordered(i64::MIN as int * 9, c as int * 9, 10);
    }
    q as i64
}

/// Dims a colour by the fixed reflectance factor.
pub fn scale9(c: Vec3<i64>) -> (r: Vec3<i64>)
    ensures
        r == s_scale9(c),
{
    Vec3 { x: scale9_part(c.x), y: scale9_part(c.y), z: scale9_part(c.z) }
}

/// What a sphere hit resolves to: the closest-approach time as the reported
/// hit time, and the recursively traced reflection dimmed by the reflectance.
/// The bounce excludes exactly the sphere itself, and once the depth budget
/// is spent the reflection falls back to the background colour.
pub open spec fn s_sphere_shade(
    s: Sphere,
    objs: Seq<Primitive>,
    self_id: usize,
    ray: Ray<i64>,
    depth: nat,
) -> Option<Intersection<i64>>
    decreases depth, 0int, self_id as int, 0int,
{
    match s_sphere_geom(s, ray) {
        Some((cat, refl)) => Some(
            Intersection {
                time: cat,
                color: s_scale9(
                    if depth == 0 {
                        s_white()
                    } else {
                        s_cast(objs, seq![self_id], refl, (depth - 1) as nat)
                    },
                ),
            },
        ),
        None => None,
    }
}

/// What primitive `i` of the scene reports for `ray`.
pub open spec fn s_hit_at(
    objs: Seq<Primitive>,
    i: usize,
    ray: Ray<i64>,
    depth: nat,
) -> Option<Intersection<i64>>
    decreases depth, 0int, i as int, 1int,
{
    match objs[i as int] {
        Primitive::Ground(g) => s_ground_hit(ray),
        Primitive::Sphere(s) => s_sphere_shade(s, objs, i, ray, depth),
    }
}

/// Keeps the nearer of two candidate hits; an earlier candidate wins ties.
pub open spec fn s_nearer(
    prev: Option<Intersection<i64>>,
    cur: Option<Intersection<i64>>,
) -> Option<Intersection<i64>> {
    match (prev, cur) {
        (Option::None, _) => cur,
        (_, Option::None) => prev,
        (Option::Some(p), Option::Some(c)) => if c.time < p.time {
            cur
        } else {
            prev
        },
    }
}

/// The nearest hit among the first `upto` primitives, skipping excluded ones.
pub open spec fn s_best(
    objs: Seq<Primitive>,
    excl: Seq<usize>,
    ray: Ray<i64>,
    depth: nat,
    upto: int,
) -> Option<Intersection<i64>>
    decreases depth, 0int, upto, 2int,
        when 0 <= upto <= usize::MAX
{
    if upto <= 0 {
        None
    } else {
        let prev = s_best(objs, excl, ray, depth, upto - 1);
        let cur = if excl.contains((upto - 1) as usize) {
            None
        } else {
            s_hit_at(objs, (upto - 1) as usize, ray, depth)
        };
        s_nearer(prev, cur)
    }
}

/// The colour visible along `ray`: the colour of the nearest hit among the
/// non-excluded primitives, or the background when nothing is hit.
pub open spec fn s_cast(
    objs: Seq<Primitive>,
    excl: Seq<usize>,
    ray: Ray<i64>,
    depth: nat,
) -> Vec3<i64>
    decreases depth, 1int, 0int, 0int,
{
    match s_best(objs, excl, ray, depth, objs.len() as int) {
        Some(h) => h.color,
        None => s_white(),
    }
}

fn nearer(prev: Option<Intersection<i64>>, cur: Option<Intersection<i64>>) -> (r: Option<
    Intersection<i64>,
>)
    ensures
        r == s_nearer(prev, cur),
{
    match (prev, cur) {
        (None, _) => cur,
        (_, None) => prev,
        (Some(p), Some(c)) => if c.time < p.time {
            cur
        } else {
            prev
        },
    }
}

fn contains_idx(v: &Vec<usize>, x: usize) -> (b: bool)
    ensures
        b == v@.contains(x),
{
    let mut j: usize = 0;
    while j < v.len()
        invariant
            0 <= j <= v.len(),
            forall|k: int| 0 <= k < j ==> v@[k] != x,
        decreases v.len() - j,
    {
        if v[j] == x {
            assert(v@[j as int] == x);
            return true;
        }
        j += 1;
    }
    false
}

/// The recursive tracer handed to a reflective surface: traces the reflected
/// ray through the scene with only the reflecting primitive excluded, one
/// depth level down, and dims the result by the reflectance.
pub(crate) fn reflect_shade(
    scene: &Scene,
    self_id: usize,
    refl: Ray<i64>,
    cat: i64,
    depth: u32,
) -> (r: Intersection<i64>)
    ensures
        r == (Intersection {
            time: cat,
            color: s_scale9(
                if depth == 0 {
                    s_white()
                } else {
                    s_cast(scene.objects@, seq![self_id], refl, (depth - 1) as nat)
                },
            ),
        }),
    decreases depth, 0int,
{
    let casted = if depth == 0 {
        white()
    } else {
        let mut only: Vec<usize> = Vec::new();
        only.push(self_id);
        proof {
            assert(only@ =~= seq![self_id]);
        }
        cast(scene, &only, refl, depth - 1)
    };
    Intersection { time: cat, color: scale9(casted) }
}

/// Resolves the colour visible along `ray` in `scene`, skipping the
/// primitives whose indices stand in `exceptions`, and following reflections
/// at most `depth` bounces deep before falling back to the background.
pub fn cast(scene: &Scene, exceptions: &Vec<usize>, ray: Ray<i64>, depth: u32) -> (c: Vec3<i64>)
    ensures
        c == s_cast(scene.objects@, exceptions@, ray, depth as nat),
    decreases depth, 1int,
{
    let ghost objs = scene.objects@;
    let mut best: Option<Intersection<i64>> = None;
    let n = scene.objects.len();
    let mut i: usize = 0;
    while i < n
        invariant
            n == scene.objects.len(),
            objs == scene.objects@,
            0 <= i <= n,
            best == s_best(objs, exceptions@, ray, depth as nat, i as int),
        decreases n - i,
    {
        let cur: Option<Intersection<i64>> = if contains_idx(exceptions, i) {
            None
        } else {
            match &scene.objects[i] {
                Primitive::Ground(g) => g.hit(ray),
                Primitive::Sphere(s) => {
                    match s.first_hit(ray) {
                        Some((cat, refl)) => Some(reflect_shade(scene, i, refl, cat, depth)),
                        None => None,
                    }
                },
            }
        };
        proof {
            assert(cur == (if exceptions@.contains(i) {
                Option::<Intersection<i64>>::None
            } else {
                s_hit_at(objs, i, ray, depth as nat)
            }));
        }
        best = nearer(best, cur);
        i += 1;
    }
    match best {
        Some(b) => b.color,
        None => white(),
    }
}

/// Reflection is energy-decreasing: every sphere hit resolves to exactly the
/// recursively traced reflection colour dimmed by the fixed reflectance, the
/// trace excluding only the sphere itself and spending one depth level.
pub proof fn lemma_sphere_reflection(
    s: Sphere,
    objs: Seq<Primitive>,
    self_id: usize,
    ray: Ray<i64>,
    depth: nat,
)
    ensures
        s_sphere_geom(s, ray) matches Some((cat, refl)) ==> s_sphere_shade(
            s,
            objs,
            self_id,
            ray,
            depth,
        ) == Some(
            Intersection {
                time: cat,
                color: s_scale9(
                    if depth == 0 {
                        s_white()
                    } else {
                        s_cast(objs, seq![self_id], refl, (depth - 1) as nat)
                    },
                ),
            },
        ),
{
}

/// Dimming by the reflectance never brightens a channel: on a non-negative
/// colour it keeps each channel between zero and its previous value.
pub proof fn lemma_scale9_dims(c: Vec3<i64>)
    requires
        0 <= c.x,
        0 <= c.y,
        0 <= c.z,
    ensures
        0 <= s_scale9(c).x <= c.x,
        0 <= s_scale9(c).y <= c.y,
        0 <= s_scale9(c).z <= c.z,
{
    lemma_scale9_part_dims(c.x as int);
    lemma_scale9_part_dims(c.y as int);
    lemma_scale9_part_dims(c.z as int);
}

proof fn lemma_scale9_part_dims(c: int)
    requires
        0 <= c,
    ensures
        0 <= (c * 9) / 10 <= c,
{
    vstd::arithmetic::div_mod::lemma_div_pos_is_pos(c * 9, 10);
    lemma_div_is_ordered(c * 9, c * 10, 10);
    vstd::arithmetic::div_mod::lemma_div_multiples_vanish(c, 10);
}

/// When every primitive before `upto` is excluded or reports no hit, the
/// scan up to `upto` keeps no candidate.
proof fn lemma_best_none(
    objs: Seq<Primitive>,
    excl: Seq<usize>,
    ray: Ray<i64>,
    depth: nat,
    upto: int,
)
    requires
        0 <= upto <= usize::MAX,
        forall|j: usize|
            j < upto ==> (#[trigger] excl.contains(j) || #[trigger] s_hit_at(
                objs,
                j,
                ray,
                depth,
            ) is None),
    ensures
        s_best(objs, excl, ray, depth, upto) is None,
    decreases upto,
{
    if upto > 0 {
        lemma_best_none(objs, excl, ray, depth, upto - 1);
        let j = (upto - 1) as usize;
        assert(excl.contains(j) || s_hit_at(objs, j, ray, depth) is None);
    }
}

/// A ray that hits nothing it may test resolves to the background colour:
/// when every non-excluded primitive reports no hit, the cast is white.
pub proof fn lemma_cast_misses_background(
    objs: Seq<Primitive>,
    excl: Seq<usize>,
    ray: Ray<i64>,
    depth: nat,
)
    requires
        objs.len() <= usize::MAX,
        forall|j: usize|
            j < objs.len() ==> (#[trigger] excl.contains(j) || #[trigger] s_hit_at(
                objs,
                j,
                ray,
                depth,
            ) is None),
    ensures
        s_cast(objs, excl, ray, depth) == s_white(),
{
    lemma_best_none(objs, excl, ray, depth, objs.len() as int);
}

/// Self-exclusion: a cast that must skip every primitive of the scene - in
/// particular a single-primitive scene whose only primitive is excluded, the
/// state a reflection bounce starts from - cannot re-intersect anything and
/// resolves to the background colour, whatever the ray.
pub proof fn lemma_cast_self_excluded(
    objs: Seq<Primitive>,
    excl: Seq<usize>,
    ray: Ray<i64>,
    depth: nat,
)
    requires
        objs.len() <= usize::MAX,
        forall|j: usize| j < objs.len() ==> #[trigger] excl.contains(j),
    ensures
        s_cast(objs, excl, ray, depth) == s_white(),
{
    lemma_best_none(objs, excl, ray, depth, objs.len() as int);
}

/// A colour whose channels all lie in the unit interval of the scale.
pub open spec fn color_in_unit(c: Vec3<i64>) -> bool {
    0 <= c.x <= SCALE && 0 <= c.y <= SCALE && 0 <= c.z <= SCALE
}

/// Every hit a scan can keep carries a colour within the unit interval.
proof fn lemma_best_in_unit(
    objs: Seq<Primitive>,
    excl: Seq<usize>,
    ray: Ray<i64>,
    depth: nat,
    upto: int,
)
    requires
        0 <= upto <= usize::MAX,
        objs.len() <= usize::MAX,
    ensures
        s_best(objs, excl, ray, depth, upto) matches Some(h) ==> color_in_unit(h.color),
    decreases depth, 0int, upto,
{
    if upto > 0 {
        lemma_best_in_unit(objs, excl, ray, depth, upto - 1);
        let jn = (upto - 1) as usize;
        if !excl.contains(jn) {
            match objs[jn as int] {
                Primitive::Ground(g) => {
                    match s_ground_hit(ray) {
                        Some(h0) => {
                            assert(color_in_unit(h0.color));
                        },
                        None => {},
                    }
                },
                Primitive::Sphere(s) => {
                    match s_sphere_geom(s, ray) {
                        Some((cat, refl)) => {
                            let inner = if depth == 0 {
                                s_white()
                            } else {
                                s_cast(objs, seq![jn], refl, (depth - 1) as nat)
                            };
                            if depth > 0 {
                                lemma_cast_in_unit(objs, seq![jn], refl, (depth - 1) as nat);
                            }
                            lemma_scale9_dims(inner);
                            assert(color_in_unit(s_scale9(inner)));
                        },
                        None => {},
                    }
                },
            }
            match s_hit_at(objs, jn, ray, depth) {
                Some(h1) => {
                    assert(color_in_unit(h1.color));
                },
                None => {},
            }
        }
    }
}

/// Whatever the scene, the exclusions, the ray and the depth, every channel
/// of the resolved colour lies in the unit interval: the background is
/// white, the checkerboard's channels are clamped or constant, and dimming a
/// unit colour keeps it in the unit interval. Pixel bytes therefore never
/// need saturation.
pub proof fn lemma_cast_in_unit(objs: Seq<Primitive>, excl: Seq<usize>, ray: Ray<i64>, depth: nat)
    requires
        objs.len() <= usize::MAX,
    ensures
        color_in_unit(s_cast(objs, excl, ray, depth)),
    decreases depth, 1int, 0int,
{
    lemma_best_in_unit(objs, excl, ray, depth, objs.len() as int);
}

/// Primitive `j` offers nothing nearer than the hit `h`: it is excluded,
/// misses, or reports a time no smaller than `h`'s.
pub open spec fn no_nearer_at(
    objs: Seq<Primitive>,
    excl: Seq<usize>,
    ray: Ray<i64>,
    depth: nat,
    j: usize,
    h: Intersection<i64>,
) -> bool {
    excl.contains(j) || match s_hit_at(objs, j, ray, depth) {
        Some(o) => h.time <= o.time,
        None => true,
    }
}

/// The nearest-hit policy: what the scan keeps is a hit that some
/// non-excluded primitive actually reported, and no non-excluded primitive
/// reported a strictly smaller time; and the scan keeps nothing exactly when
/// every primitive is excluded or misses.
pub proof fn lemma_best_nearest(
    objs: Seq<Primitive>,
    excl: Seq<usize>,
    ray: Ray<i64>,
    depth: nat,
    upto: int,
)
    requires
        0 <= upto <= usize::MAX,
    ensures
        s_best(objs, excl, ray, depth, upto) is None ==> forall|j: usize|
            j < upto ==> (#[trigger] excl.contains(j) || #[trigger] s_hit_at(
                objs,
                j,
                ray,
                depth,
            ) is None),
        s_best(objs, excl, ray, depth, upto) matches Some(h) ==> ((exists|j: usize|
            j < upto && !excl.contains(j) && #[trigger] s_hit_at(objs, j, ray, depth) == Some(
                h,
            )) && (forall|j: usize| j < upto ==> #[trigger] no_nearer_at(
            objs,
            excl,
            ray,
            depth,
            j,
            h,
        ))),
    decreases upto,
{
    if upto > 0 {
        lemma_best_nearest(objs, excl, ray, depth, upto - 1);
        let jn = (upto - 1) as usize;
        let prev = s_best(objs, excl, ray, depth, upto - 1);
        let cur = if excl.contains(jn) {
            None
        } else {
            s_hit_at(objs, jn, ray, depth)
        };
        match s_best(objs, excl, ray, depth, upto) {
            Some(h) => {
                if cur == Some(h) && (prev is None || h.time < prev->Some_0.time) {
                    assert(jn < upto && !excl.contains(jn) && s_hit_at(objs, jn, ray, depth)
                        == Some(h));
                    assert forall|j: usize| j < upto implies #[trigger] no_nearer_at(
                        objs,
                        excl,
                        ray,
                        depth,
                        j,
                        h,
                    ) by {
                        if j < upto - 1 {
                            match prev {
                                Some(p) => {
                                    assert(no_nearer_at(objs, excl, ray, depth, j, p));
                                },
                                None => {
                                    assert(excl.contains(j) || s_hit_at(
                                        objs,
                                        j,
                                        ray,
                                        depth,
                                    ) is None);
                                },
                            }
                        }
                    }
                } else {
                    assert(prev == Some(h));
                    assert forall|j: usize| j < upto implies #[trigger] no_nearer_at(
                        objs,
                        excl,
                        ray,
                        depth,
                        j,
                        h,
                    ) by {
                        if j < upto - 1 {
                            assert(no_nearer_at(objs, excl, ray, depth, j, h));
                        }
                    }
                }
            },
            None => {},
        }
    }
}

/// The nearest-hit policy at the caster: a resolved colour is either the
/// colour of a nearest non-excluded hit, or the background when every
/// primitive is excluded or misses.
pub proof fn lemma_cast_nearest(objs: Seq<Primitive>, excl: Seq<usize>, ray: Ray<i64>, depth: nat)
    requires
        objs.len() <= usize::MAX,
    ensures
        s_best(objs, excl, ray, depth, objs.len() as int) is None ==> (s_cast(
            objs,
            excl,
            ray,
            depth,
        ) == s_white() && forall|j: usize|
            j < objs.len() ==> (#[trigger] excl.contains(j) || #[trigger] s_hit_at(
                objs,
                j,
                ray,
                depth,
            ) is None)),
        s_best(objs, excl, ray, depth, objs.len() as int) matches Some(h) ==> (s_cast(
            objs,
            excl,
            ray,
            depth,
        ) == h.color && (exists|j: usize|
            j < objs.len() && !excl.contains(j) && #[trigger] s_hit_at(objs, j, ray, depth)
                == Some(h)) && (forall|j: usize|
            j < objs.len() ==> #[trigger] no_nearer_at(objs, excl, ray, depth, j, h))),
{
    lemma_best_nearest(objs, excl, ray, depth, objs.len() as int);
}

/// A scene holding only the ground plane resolves a parallel or receding ray
/// (one pointing away from every point of the plane) to the background.
pub proof fn lemma_single_ground_away(g: Ground, ray: Ray<i64>, depth: nat)
    requires
        ray.dir.z >= 0,
    ensures
        s_cast(seq![Primitive::Ground(g)], Seq::<usize>::empty(), ray, depth) == s_white(),
{
    let objs = seq![Primitive::Ground(g)];
    lemma_ground_receding(ray);
    assert forall|j: usize| j < objs.len() implies (#[trigger] Seq::<usize>::empty().contains(j)
        || #[trigger] s_hit_at(objs, j, ray, depth) is None) by {
        assert(s_hit_at(objs, j, ray, depth) == s_ground_hit(ray));
    }
    lemma_cast_misses_background(objs, Seq::<usize>::empty(), ray, depth);
}

/// A scene holding only a sphere resolves a ray that points away from it
/// (its closest approach lies behind the origin) to the background.
pub proof fn lemma_single_sphere_away(s: Sphere, ray: Ray<i64>, depth: nat)
    requires
        s_closest_approach(s, ray) matches Some(t) ==> t < 0,
    ensures
        s_cast(seq![Primitive::Sphere(s)], Seq::<usize>::empty(), ray, depth) == s_white(),
{
    let objs = seq![Primitive::Sphere(s)];
    lemma_sphere_receding(s, ray);
    assert forall|j: usize| j < objs.len() implies (#[trigger] Seq::<usize>::empty().contains(j)
        || #[trigger] s_hit_at(objs, j, ray, depth) is None) by {
        assert(s_hit_at(objs, j, ray, depth) == s_sphere_shade(s, objs, j, ray, depth));
    }
    lemma_cast_misses_background(objs, Seq::<usize>::empty(), ray, depth);
}

/// The colour-to-byte conversion of the image sink's interface: a channel in
/// `[0, 1]` scaled by 255 and truncated, saturating outside that range.
pub open spec fn s_conv_color(c: int) -> int {
    let v = (c * 255) / (SCALE as int);
    if v < 0 {
        0
    } else if v > 255 {
        255
    } else {
        v
    }
}

/// Converts one colour channel to an eight-bit pixel value.
pub fn conv_color(c: i64) -> (r: u8)
    ensures
        r as int == s_conv_color(c as int),
{
    let p = (c as i128) * 255;
    let q = div_floor(p, SCALE as i128);
    proof {
        lemma_div_is_ordered(p as int, i64::MAX as int * 255, SCALE as int);
        lemma_div_is_ordered(i64::MIN as int * 255, p as int, SCALE as int);
    }
    if q < 0 {
        0
    } else if q > 255 {
        255
    } else {
        q as u8
    }
}

/// The per-pixel casting loop: one camera ray per pixel in, and out the flat
/// byte sequence the image sink takes - three bytes per pixel, each channel
/// of the resolved colour scaled to eight bits. Every top-level ray starts
/// with an empty exclusion set.
pub fn render(scene: &Scene, rays: &Vec<Ray<i64>>, depth: u32) -> (px: Vec<u8>)
    ensures
        px@.len() == rays@.len() * 3,
        forall|j: int|
            0 <= j < rays@.len() ==> {
                let c = s_cast(scene.objects@, Seq::<usize>::empty(), rays@[j], depth as nat);
                &&& #[trigger] px@[3 * j] as int == s_conv_color(c.x as int)
                &&& px@[3 * j + 1] as int == s_conv_color(c.y as int)
                &&& px@[3 * j + 2] as int == s_conv_color(c.z as int)
            },
{
    let empty: Vec<usize> = Vec::new();
    let mut px: Vec<u8> = Vec::new();
    let mut i: usize = 0;
    while i < rays.len()
        invariant
            empty@ == Seq::<usize>::empty(),
            0 <= i <= rays@.len(),
            px@.len() == i * 3,
            forall|j: int|
                0 <= j < i ==> {
                    let c = s_cast(scene.objects@, Seq::<usize>::empty(), rays@[j], depth as nat);
                    &&& #[trigger] px@[3 * j] as int == s_conv_color(c.x as int)
                    &&& px@[3 * j + 1] as int == s_conv_color(c.y as int)
                    &&& px@[3 * j + 2] as int == s_conv_color(c.z as int)
                },
        decreases rays@.len() - i,
    {
        let c = cast(scene, &empty, rays[i], depth);
        let bx = conv_color(c.x);
        let by = conv_color(c.y);
        let bz = conv_color(c.z);
        let ghost prev = px@;
        px.push(bx);
        px.push(by);
        px.push(bz);
        proof {
            assert(px@ == prev.push(bx).push(by).push(bz));
            assert forall|j: int| 0 <= j < i + 1 implies {
                let cc = s_cast(scene.objects@, Seq::<usize>::empty(), rays@[j], depth as nat);
                &&& #[trigger] px@[3 * j] as int == s_conv_color(cc.x as int)
                &&& px@[3 * j + 1] as int == s_conv_color(cc.y as int)
                &&& px@[3 * j + 2] as int == s_conv_color(cc.z as int)
            } by {
                if j < i {
                    assert(px@[3 * j] == prev[3 * j]);
                    assert(px@[3 * j + 1] == prev[3 * j + 1]);
                    assert(px@[3 * j + 2] == prev[3 * j + 2]);
                } else {
                    assert(px@[3 * j] == bx);
                    assert(px@[3 * j + 1] == by);
                    assert(px@[3 * j + 2] == bz);
                }
            }
        }
        i += 1;
    }
    px
}

} // verus!
