use vstd::prelude::*;

verus! {

use crate::math::{
    SCALE, LIM, in_lim, div_floor, div_trunc, tdiv, sqrt_floor, sqrt_fx, s_sqrt,
    lemma_mul_bounds, lemma_tdiv_neg, lemma_sqrt_floor, isqrt,
};

/// A three-component vector. The verified geometry works on `Vec3<i64>`,
/// whose components are fixed-point scalars in units of `SCALE`.
#[derive(Debug, Copy, Clone)]
pub struct Vec3<T> {
    pub x: T,
    pub y: T,
    pub z: T,
}

impl<T> Vec3<T> {
    pub fn new(x: T, y: T, z: T) -> (v: Vec3<T>)
        ensures
            v == (Vec3 { x, y, z }),
    {
        Vec3 { x, y, z }
    }
}

/// A ray: an origin and a direction (not necessarily unit length).
#[derive(Debug, Copy, Clone)]
pub struct Ray<T> {
    pub ori: Vec3<T>,
    pub dir: Vec3<T>,
}

/// All three components stay inside the representable window.
pub open spec fn v_in_lim(v: Vec3<i64>) -> bool {
    in_lim(v.x as int) && in_lim(v.y as int) && in_lim(v.z as int)
}

/// Both endpoints of a ray stay inside the representable window.
pub open spec fn ray_in_lim(r: Ray<i64>) -> bool {
    v_in_lim(r.ori) && v_in_lim(r.dir)
}

/// An unbounded (mathematical) vector value stays inside the window.
pub open spec fn v_ok(v: Vec3<int>) -> bool {
    in_lim(v.x) && in_lim(v.y) && in_lim(v.z)
}

/// Narrows a mathematical vector known to be inside the window.
pub open spec fn v_to64(v: Vec3<int>) -> Vec3<i64> {
    Vec3 { x: v.x as i64, y: v.y as i64, z: v.z as i64 }
}

pub open spec fn s_add_val(a: Vec3<i64>, b: Vec3<i64>) -> Vec3<int> {
    Vec3 { x: a.x + b.x, y: a.y + b.y, z: a.z + b.z }
}

pub open spec fn s_sub_val(a: Vec3<i64>, b: Vec3<i64>) -> Vec3<int> {
    Vec3 { x: a.x - b.x, y: a.y - b.y, z: a.z - b.z }
}

/// Fixed-point scaling of a vector by a scalar.
pub open spec fn s_scale_val(v: Vec3<i64>, k: int) -> Vec3<int> {
    Vec3 {
        x: (v.x * k) / (SCALE as int),
        y: (v.y * k) / (SCALE as int),
        z: (v.z * k) / (SCALE as int),
    }
}

/// Fixed-point dot product.
pub open spec fn s_dot_val(a: Vec3<i64>, b: Vec3<i64>) -> int {
    (a.x * b.x + a.y * b.y + a.z * b.z) / (SCALE as int)
}

/// Fixed-point cross product. The raw products divide by the scale rounding
/// toward zero, so swapping the arguments negates the result exactly.
pub open spec fn s_cross_val(a: Vec3<i64>, b: Vec3<i64>) -> Vec3<int> {
    Vec3 {
        x: tdiv(a.y * b.z - a.z * b.y, SCALE as int),
        y: tdiv(a.z * b.x - a.x * b.z, SCALE as int),
        z: tdiv(a.x * b.y - a.y * b.x, SCALE as int),
    }
}

/// Vector addition, or nothing if a component leaves the window.
pub open spec fn s_add(a: Vec3<i64>, b: Vec3<i64>) -> Option<Vec3<i64>> {
    let v = s_add_val(a, b);
    if v_ok(v) {
        Some(v_to64(v))
    } else {
        None
    }
}

/// Vector subtraction, or nothing if a component leaves the window.
pub open spec fn s_sub(a: Vec3<i64>, b: Vec3<i64>) -> Option<Vec3<i64>> {
    let v = s_sub_val(a, b);
    if v_ok(v) {
        Some(v_to64(v))
    } else {
        None
    }
}

/// Scaling, or nothing if a component leaves the window.
pub open spec fn s_scale(v: Vec3<i64>, k: int) -> Option<Vec3<i64>> {
    let u = s_scale_val(v, k);
    if v_ok(u) {
        Some(v_to64(u))
    } else {
        None
    }
}

/// Dot product, or nothing if the result leaves the window.
pub open spec fn s_dot(a: Vec3<i64>, b: Vec3<i64>) -> Option<i64> {
    let d = s_dot_val(a, b);
    if in_lim(d) {
        Some(d as i64)
    } else {
        None
    }
}

/// Cross product, or nothing if a component leaves the window.
pub open spec fn s_cross(a: Vec3<i64>, b: Vec3<i64>) -> Option<Vec3<i64>> {
    let v = s_cross_val(a, b);
    if v_ok(v) {
        Some(v_to64(v))
    } else {
        None
    }
}

/// Euclidean norm of a vector: the integer square root of the raw sum of
/// squared components. Each component carries one factor of the scale and
/// each square two, so the root is again a scalar in the scale; taking it on
/// the raw sum loses nothing to intermediate rounding, and the norm is zero
/// exactly for the zero vector.
pub open spec fn s_norm(v: Vec3<i64>) -> Option<i64> {
    let n = sqrt_floor(
        v.x as int * v.x as int + v.y as int * v.y as int + v.z as int * v.z as int,
    );
    if in_lim(n) {
        Some(n as i64)
    } else {
        None
    }
}

/// The unit vector along `v`, scaled by `SCALE`; nothing for a degenerate
/// (zero-norm) vector or when a component leaves the window.
pub open spec fn s_normalize(v: Vec3<i64>) -> Option<Vec3<i64>> {
    match s_norm(v) {
        Some(n) => if n <= 0 {
            None
        } else {
            let u = Vec3 {
                x: (v.x * SCALE) / (n as int),
                y: (v.y * SCALE) / (n as int),
                z: (v.z * SCALE) / (n as int),
            };
            if v_ok(u) {
                Some(v_to64(u))
            } else {
                None
            }
        },
        None => None,
    }
}

/// The length of `source` projected onto the direction of `target`.
pub open spec fn s_project_length(target: Vec3<i64>, source: Vec3<i64>) -> Option<i64> {
    match s_normalize(target) {
        Some(t) => s_dot(source, t),
        None => None,
    }
}

/// The distance between two points: the norm of their difference.
pub open spec fn s_distance(a: Vec3<i64>, b: Vec3<i64>) -> Option<i64> {
    match s_sub(a, b) {
        Some(d) => s_norm(d),
        None => None,
    }
}

/// The point `ori + dir * t` along a ray.
pub open spec fn s_ray_project(ray: Ray<i64>, t: i64) -> Option<Vec3<i64>> {
    match s_scale(ray.dir, t as int) {
        Some(d) => s_add(ray.ori, d),
        None => None,
    }
}

/// The direction `d` reflected about the unit normal `n`:
/// `d - n * (2 * dot(d, n))`.
pub open spec fn s_reflect(n: Vec3<i64>, d: Vec3<i64>) -> Option<Vec3<i64>> {
    match s_dot(d, n) {
        Some(k) => match s_scale(n, 2 * k as int) {
            Some(s) => s_sub(d, s),
            None => None,
        },
        None => None,
    }
}

/// Fixed-point product of two scalars.
pub open spec fn s_mul_fx(a: i64, b: i64) -> Option<i64> {
    let p = (a * b) / (SCALE as int);
    if in_lim(p) {
        Some(p as i64)
    } else {
        None
    }
}

/// The cross product is exactly antisymmetric - swapping the arguments
/// negates every component - and a vector's cross with itself vanishes.
pub proof fn lemma_cross_antisymmetric(a: Vec3<i64>, b: Vec3<i64>)
    ensures
        s_cross_val(b, a) == (Vec3 {
            x: -s_cross_val(a, b).x,
            y: -s_cross_val(a, b).y,
            z: -s_cross_val(a, b).z,
        }),
        s_cross_val(a, a) == (Vec3 { x: 0int, y: 0int, z: 0int }),
{
    lemma_tdiv_neg(a.y * b.z - a.z * b.y, SCALE as int);
    lemma_tdiv_neg(a.z * b.x - a.x * b.z, SCALE as int);
    lemma_tdiv_neg(a.x * b.y - a.y * b.x, SCALE as int);
    lemma_tdiv_neg(0, SCALE as int);
}

/// A norm is never negative, and it is zero exactly when the vector is the
/// zero vector.
pub proof fn lemma_norm_zero_iff(v: Vec3<i64>)
    ensures
        s_norm(v) matches Some(n) ==> n >= 0,
        s_norm(v) matches Some(n) ==> (n == 0 <==> (v.x == 0 && v.y == 0 && v.z == 0)),
{
    let ss = v.x as int * v.x as int + v.y as int * v.y as int + v.z as int * v.z as int;
    assert(v.x as int * v.x as int >= 0) by (nonlinear_arith);
    assert(v.y as int * v.y as int >= 0) by (nonlinear_arith);
    assert(v.z as int * v.z as int >= 0) by (nonlinear_arith);
    assert(v.x != 0 ==> v.x as int * v.x as int >= 1) by (nonlinear_arith);
    assert(v.y != 0 ==> v.y as int * v.y as int >= 1) by (nonlinear_arith);
    assert(v.z != 0 ==> v.z as int * v.z as int >= 1) by (nonlinear_arith);
    lemma_sqrt_floor(ss);
    let sf = sqrt_floor(ss);
    if ss >= 1 && sf == 0 {
        assert((sf + 1) * (sf + 1) == 1) by (nonlinear_arith)
            requires
                sf == 0,
        ;
        assert(false);
    }
}

/// Decides at run time whether a vector stays inside the window.
pub(crate) fn v_chk(v: Vec3<i64>) -> (b: bool)
    ensures
        b == v_in_lim(v),
{
    -LIM <= v.x && v.x <= LIM && -LIM <= v.y && v.y <= LIM && -LIM <= v.z && v.z <= LIM
}

/// Decides at run time whether a ray stays inside the window.
pub(crate) fn ray_chk(r: Ray<i64>) -> (b: bool)
    ensures
        b == ray_in_lim(r),
{
    v_chk(r.ori) && v_chk(r.dir)
}

pub(crate) fn c_add(a: Vec3<i64>, b: Vec3<i64>) -> (r: Option<Vec3<i64>>)
    requires
        v_in_lim(a),
        v_in_lim(b),
    ensures
        r == s_add(a, b),
{
    let x = a.x + b.x;
    let y = a.y + b.y;
    let z = a.z + b.z;
    if -LIM <= x && x <= LIM && -LIM <= y && y <= LIM && -LIM <= z && z <= LIM {
        Some(Vec3 { x, y, z })
    } else {
        None
    }
}

pub(crate) fn c_sub(a: Vec3<i64>, b: Vec3<i64>) -> (r: Option<Vec3<i64>>)
    requires
        v_in_lim(a),
        v_in_lim(b),
    ensures
        r == s_sub(a, b),
{
    let x = a.x - b.x;
    let y = a.y - b.y;
    let z = a.z - b.z;
    if -LIM <= x && x <= LIM && -LIM <= y && y <= LIM && -LIM <= z && z <= LIM {
        Some(Vec3 { x, y, z })
    } else {
        None
    }
}

/// One fixed-point component product `(v * k) / SCALE` on wide intermediates.
fn scale_part(v: i64, k: i64) -> (r: i128)
    requires
        in_lim(v as int),
        -2 * (LIM as int) <= k as int <= 2 * (LIM as int),
    ensures
        r == (v as int * k as int) / (SCALE as int),
{
    proof {
        lemma_mul_bounds(v as int, k as int, 2 * LIM as int);
        assert((2 * LIM as int) * (2 * LIM as int)
            == 4_000_000_000_000_000_000_000_000_000_000_000_000int) by (nonlinear_arith);
    }
    let p: i128 = (v as i128) * (k as i128);
    div_floor(p, SCALE as i128)
}

pub(crate) fn c_scale(v: Vec3<i64>, k: i64) -> (r: Option<Vec3<i64>>)
    requires
        v_in_lim(v),
        -2 * (LIM as int) <= k as int <= 2 * (LIM as int),
    ensures
        r == s_scale(v, k as int),
{
    let x = scale_part(v.x, k);
    let y = scale_part(v.y, k);
    let z = scale_part(v.z, k);
    let lim = LIM as i128;
    if -lim <= x && x <= lim && -lim <= y && y <= lim && -lim <= z && z <= lim {
        Some(Vec3 { x: x as i64, y: y as i64, z: z as i64 })
    } else {
        None
    }
}

pub(crate) fn c_dot(a: Vec3<i64>, b: Vec3<i64>) -> (r: Option<i64>)
    requires
        v_in_lim(a),
        v_in_lim(b),
    ensures
        r == s_dot(a, b),
{
    proof {
        lemma_mul_bounds(a.x as int, b.x as int, LIM as int);
        lemma_mul_bounds(a.y as int, b.y as int, LIM as int);
        lemma_mul_bounds(a.z as int, b.z as int, LIM as int);
    }
    let p: i128 = (a.x as i128) * (b.x as i128) + (a.y as i128) * (b.y as i128) + (a.z as i128)
        * (b.z as i128);
    let q = div_floor(p, SCALE as i128);
    let lim = LIM as i128;
    if -lim <= q && q <= lim {
        Some(q as i64)
    } else {
        None
    }
}

pub(crate) fn c_cross(a: Vec3<i64>, b: Vec3<i64>) -> (r: Option<Vec3<i64>>)
    requires
        v_in_lim(a),
        v_in_lim(b),
    ensures
        r == s_cross(a, b),
{
    proof {
        lemma_mul_bounds(a.y as int, b.z as int, LIM as int);
        lemma_mul_bounds(a.z as int, b.y as int, LIM as int);
        lemma_mul_bounds(a.z as int, b.x as int, LIM as int);
        lemma_mul_bounds(a.x as int, b.z as int, LIM as int);
        lemma_mul_bounds(a.x as int, b.y as int, LIM as int);
        lemma_mul_bounds(a.y as int, b.x as int, LIM as int);
    }
    let px: i128 = (a.y as i128) * (b.z as i128) - (a.z as i128) * (b.y as i128);
    let py: i128 = (a.z as i128) * (b.x as i128) - (a.x as i128) * (b.z as i128);
    let pz: i128 = (a.x as i128) * (b.y as i128) - (a.y as i128) * (b.x as i128);
    let x = div_trunc(px, SCALE as i128);
    let y = div_trunc(py, SCALE as i128);
    let z = div_trunc(pz, SCALE as i128);
    let lim = LIM as i128;
    if -lim <= x && x <= lim && -lim <= y && y <= lim && -lim <= z && z <= lim {
        Some(Vec3 { x: x as i64, y: y as i64, z: z as i64 })
    } else {
        None
    }
}

pub(crate) fn c_norm(v: Vec3<i64>) -> (r: Option<i64>)
    requires
        v_in_lim(v),
    ensures
        r == s_norm(v),
{
    proof {
        lemma_mul_bounds(v.x as int, v.x as int, LIM as int);
        lemma_mul_bounds(v.y as int, v.y as int, LIM as int);
        lemma_mul_bounds(v.z as int, v.z as int, LIM as int);
        assert(v.x as int * v.x as int >= 0) by (nonlinear_arith);
        assert(v.y as int * v.y as int >= 0) by (nonlinear_arith);
        assert(v.z as int * v.z as int >= 0) by (nonlinear_arith);
        assert((LIM as int) * (LIM as int)
            == 1_000_000_000_000_000_000_000_000_000_000_000_000int) by (nonlinear_arith);
    }
    let ss: i128 = (v.x as i128) * (v.x as i128) + (v.y as i128) * (v.y as i128) + (v.z as i128)
        * (v.z as i128);
    let n = isqrt(ss as u128);
    if n <= LIM as u128 {
        Some(n as i64)
    } else {
        None
    }
}

pub(crate) fn c_normalize(v: Vec3<i64>) -> (r: Option<Vec3<i64>>)
    requires
        v_in_lim(v),
    ensures
        r == s_normalize(v),
{
    match c_norm(v) {
        Some(n) => {
            if n <= 0 {
                None
            } else {
                proof {
                    lemma_mul_bounds(v.x as int, SCALE as int, LIM as int);
                    lemma_mul_bounds(v.y as int, SCALE as int, LIM as int);
                    lemma_mul_bounds(v.z as int, SCALE as int, LIM as int);
                }
                let x = div_floor((v.x as i128) * (SCALE as i128), n as i128);
                let y = div_floor((v.y as i128) * (SCALE as i128), n as i128);
                let z = div_floor((v.z as i128) * (SCALE as i128), n as i128);
                let lim = LIM as i128;
                if -lim <= x && x <= lim && -lim <= y && y <= lim && -lim <= z && z <= lim {
                    Some(Vec3 { x: x as i64, y: y as i64, z: z as i64 })
                } else {
                    None
                }
            }
        },
        None => None,
    }
}

pub(crate) fn c_project_length(target: Vec3<i64>, source: Vec3<i64>) -> (r: Option<i64>)
    requires
        v_in_lim(target),
        v_in_lim(source),
    ensures
        r == s_project_length(target, source),
{
    match c_normalize(target) {
        Some(t) => c_dot(source, t),
        None => None,
    }
}

pub(crate) fn c_distance(a: Vec3<i64>, b: Vec3<i64>) -> (r: Option<i64>)
    requires
        v_in_lim(a),
        v_in_lim(b),
    ensures
        r == s_distance(a, b),
{
    match c_sub(a, b) {
        Some(d) => c_norm(d),
        None => None,
    }
}

pub(crate) fn c_ray_project(ray: Ray<i64>, t: i64) -> (r: Option<Vec3<i64>>)
    requires
        ray_in_lim(ray),
        -2 * (LIM as int) <= t as int <= 2 * (LIM as int),
    ensures
        r == s_ray_project(ray, t),
{
    match c_scale(ray.dir, t) {
        Some(d) => c_add(ray.ori, d),
        None => None,
    }
}

pub(crate) fn c_reflect(n: Vec3<i64>, d: Vec3<i64>) -> (r: Option<Vec3<i64>>)
    requires
        v_in_lim(n),
        v_in_lim(d),
    ensures
        r == s_reflect(n, d),
{
    match c_dot(d, n) {
        Some(k) => {
            let k2 = 2 * k;
            match c_scale(n, k2) {
                Some(s) => c_sub(d, s),
                None => None,
            }
        },
        None => None,
    }
}

pub(crate) fn c_mul_fx(a: i64, b: i64) -> (r: Option<i64>)
    ensures
        r == s_mul_fx(a, b),
{
    proof {
        lemma_mul_bounds(a as int, b as int, 0x8000000000000000int);
    }
    let p: i128 = (a as i128) * (b as i128);
    let q = div_floor(p, SCALE as i128);
    let lim = LIM as i128;
    if -lim <= q && q <= lim {
        Some(q as i64)
    } else {
        None
    }
}

/// Componentwise fixed-point division of a vector by a positive scalar.
pub open spec fn s_div_val(v: Vec3<i64>, k: int) -> Vec3<int> {
    Vec3 {
        x: (v.x * SCALE) / k,
        y: (v.y * SCALE) / k,
        z: (v.z * SCALE) / k,
    }
}

impl Vec3<i64> {
    /// Componentwise vector sum.
    pub fn add(self, rhs: Vec3<i64>) -> (r: Vec3<i64>)
        requires
            v_in_lim(self),
            v_in_lim(rhs),
        ensures
            r.x == self.x + rhs.x,
            r.y == self.y + rhs.y,
            r.z == self.z + rhs.z,
    {
        Vec3 { x: self.x + rhs.x, y: self.y + rhs.y, z: self.z + rhs.z }
    }

    /// Componentwise vector difference.
    pub fn sub(self, rhs: Vec3<i64>) -> (r: Vec3<i64>)
        requires
            v_in_lim(self),
            v_in_lim(rhs),
        ensures
            r.x == self.x - rhs.x,
            r.y == self.y - rhs.y,
            r.z == self.z - rhs.z,
    {
        Vec3 { x: self.x - rhs.x, y: self.y - rhs.y, z: self.z - rhs.z }
    }

    /// Componentwise negation.
    pub fn neg(self) -> (r: Vec3<i64>)
        requires
            v_in_lim(self),
        ensures
            r.x == -self.x,
            r.y == -self.y,
            r.z == -self.z,
    {
        Vec3 { x: -self.x, y: -self.y, z: -self.z }
    }

    /// Fixed-point scaling by a scalar.
    pub fn mul(self, rhs: i64) -> (r: Vec3<i64>)
        requires
            v_in_lim(self),
            -2 * (LIM as int) <= rhs as int <= 2 * (LIM as int),
            s_scale(self, rhs as int) is Some,
        ensures
            s_scale(self, rhs as int) == Some(r),
    {
        match c_scale(self, rhs) {
            Some(v) => v,
            None => Vec3 { x: 0, y: 0, z: 0 },
        }
    }

    /// Fixed-point division by a positive scalar.
    pub fn div(self, rhs: i64) -> (r: Vec3<i64>)
        requires
            v_in_lim(self),
            0 < rhs,
            v_ok(s_div_val(self, rhs as int)),
        ensures
            r == v_to64(s_div_val(self, rhs as int)),
    {
        proof {
            lemma_mul_bounds(self.x as int, SCALE as int, LIM as int);
            lemma_mul_bounds(self.y as int, SCALE as int, LIM as int);
            lemma_mul_bounds(self.z as int, SCALE as int, LIM as int);
        }
        let x = div_floor((self.x as i128) * (SCALE as i128), rhs as i128);
        let y = div_floor((self.y as i128) * (SCALE as i128), rhs as i128);
        let z = div_floor((self.z as i128) * (SCALE as i128), rhs as i128);
        Vec3 { x: x as i64, y: y as i64, z: z as i64 }
    }
}

/// The direction `d` reflected about the unit normal `n`.
pub fn reflect(n: Vec3<i64>, d: Vec3<i64>) -> (r: Vec3<i64>)
    requires
        v_in_lim(n),
        v_in_lim(d),
        s_reflect(n, d) is Some,
    ensures
        s_reflect(n, d) == Some(r),
{
    match c_reflect(n, d) {
        Some(v) => v,
        None => Vec3 { x: 0, y: 0, z: 0 },
    }
}

/// A scalar type that offers a square root on its own terms.
pub trait Sqrt where Self: Sized {
    /// The values the root is defined on.
    spec fn sqrt_ok(&self) -> bool;

    /// What the root returns.
    spec fn sqrt_val(&self) -> Self;

    fn sqrt(self) -> (r: Self)
        requires
            self.sqrt_ok(),
        ensures
            r == self.sqrt_val(),
    ;
}

impl Sqrt for i64 {
    open spec fn sqrt_ok(&self) -> bool {
        0 <= *self <= LIM
    }

    open spec fn sqrt_val(&self) -> i64 {
        s_sqrt(*self as int) as i64
    }

    fn sqrt(self) -> (r: i64) {
        sqrt_fx(self)
    }
}

/// The dot product of two vectors whose product stays in the window.
pub fn dot(a: Vec3<i64>, b: Vec3<i64>) -> (r: i64)
    requires
        v_in_lim(a),
        v_in_lim(b),
        s_dot(a, b) is Some,
    ensures
        s_dot(a, b) == Some(r),
{
    match c_dot(a, b) {
        Some(d) => d,
        None => 0,
    }
}

/// The cross product of two vectors whose products stay in the window.
pub fn cross(a: Vec3<i64>, b: Vec3<i64>) -> (r: Vec3<i64>)
    requires
        v_in_lim(a),
        v_in_lim(b),
        s_cross(a, b) is Some,
    ensures
        s_cross(a, b) == Some(r),
{
    match c_cross(a, b) {
        Some(v) => v,
        None => Vec3 { x: 0, y: 0, z: 0 },
    }
}

/// The Euclidean norm of a vector.
pub fn norm(v: Vec3<i64>) -> (r: i64)
    requires
        v_in_lim(v),
        s_norm(v) is Some,
    ensures
        s_norm(v) == Some(r),
{
    match c_norm(v) {
        Some(n) => n,
        None => 0,
    }
}

/// The unit vector along a non-degenerate vector.
pub fn normalize(v: Vec3<i64>) -> (r: Vec3<i64>)
    requires
        v_in_lim(v),
        s_normalize(v) is Some,
    ensures
        s_normalize(v) == Some(r),
{
    match c_normalize(v) {
        Some(u) => u,
        None => Vec3 { x: 0, y: 0, z: 0 },
    }
}

/// The length of `source` along the direction of `target`.
pub fn project_length(target: Vec3<i64>, source: Vec3<i64>) -> (r: i64)
    requires
        v_in_lim(target),
        v_in_lim(source),
        s_project_length(target, source) is Some,
    ensures
        s_project_length(target, source) == Some(r),
{
    match c_project_length(target, source) {
        Some(p) => p,
        None => 0,
    }
}

/// The distance between two points.
pub fn distance(a: Vec3<i64>, b: Vec3<i64>) -> (r: i64)
    requires
        v_in_lim(a),
        v_in_lim(b),
        s_distance(a, b) is Some,
    ensures
        s_distance(a, b) == Some(r),
{
    match c_distance(a, b) {
        Some(d) => d,
        None => 0,
    }
}

impl Ray<i64> {
    /// The point reached after travelling `t` along the ray.
    pub fn project(&self, t: i64) -> (p: Vec3<i64>)
        requires
            ray_in_lim(*self),
            -2 * (LIM as int) <= t as int <= 2 * (LIM as int),
            s_ray_project(*self, t) is Some,
        ensures
            s_ray_project(*self, t) == Some(p),
    {
        match c_ray_project(*self, t) {
            Some(p) => p,
            None => Vec3 { x: 0, y: 0, z: 0 },
        }
    }
}

} // verus!
