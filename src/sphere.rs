use vstd::prelude::*;
use crate::error::RenderError;
use crate::ray::Ray;
use crate::ray::t_point_at;
use crate::vector::{bounded, lemma_lagrange, lemma_mul_bound, t_cross, t_dot, t_scale, t_sub, t_zero, Triple, Vec3};

verus! {

/// Bound on the coordinates of sphere centers, radii, ray origins and ray directions
/// that the intersection test accepts; it keeps every intermediate inside `i128`.
pub const COORD_LIMIT: i64 = 0x1000_0000;

/// A sphere with a positive radius.
#[derive(Clone, Copy, Debug, PartialEq, Eq, Structural)]
pub struct Sphere {
    pub center: Vec3,
    pub radius: i64,
}

impl Sphere {
    /// A sphere, refused with `InvalidSphere` when `radius <= 0`.
    pub fn new(center: Vec3, radius: i64) -> (r: Result<Sphere, RenderError>)
        ensures
            radius > 0 ==> r == Ok::<Sphere, RenderError>(Sphere { center, radius }),
            radius <= 0 ==> r == Err::<Sphere, RenderError>(RenderError::InvalidSphere),
    {
        if radius > 0 {
            Ok(Sphere { center, radius })
        } else {
            Err(RenderError::InvalidSphere)
        }
    }
}

/// The coefficients of `a t^2 + b t + c = 0`, whose roots are the parameters at
/// which a ray meets a sphere.
#[derive(Clone, Copy, Debug, PartialEq, Eq, Structural)]
pub struct Quadratic {
    pub a: i128,
    pub b: i128,
    pub c: i128,
}

impl Quadratic {
    pub open spec fn disc(&self) -> int {
        self.b * self.b - 4 * self.a * self.c
    }

    /// The nearer root `(-b - sqrt(disc)) / 2a` is real and strictly positive:
    /// with `a > 0` and `disc >= 0` that holds exactly when `-b > sqrt(disc)`,
    /// that is when `b < 0` and `b^2 > disc`, that is when `b < 0` and `c > 0`.
    pub open spec fn front_hit(&self) -> bool {
        self.disc() >= 0 && self.a > 0 && self.b < 0 && self.c > 0
    }
}

/// Result of the intersection test.
#[derive(Clone, Copy, Debug, PartialEq, Eq, Structural)]
pub enum Hit {
    /// The discriminant is negative: the ray's line does not meet the sphere.
    Miss,
    /// The line meets the sphere; the nearer root is `(-b - sqrt(disc)) / 2a`.
    Roots(Quadratic),
}

pub open spec fn geometry_in_range(center: Triple, radius: int, origin: Triple, dir: Triple) -> bool {
    let l = COORD_LIMIT as int;
    bounded(center, l) && 0 < radius <= l && bounded(origin, l) && bounded(dir, l)
}

/// The quadratic of a ray `o + t d` against the sphere `(c, r)`.
pub open spec fn quadratic_of(center: Triple, radius: int, origin: Triple, dir: Triple) -> Quadratic {
    let oc = t_sub(origin, center);
    Quadratic {
        a: t_dot(dir, dir) as i128,
        b: (2 * t_dot(oc, dir)) as i128,
        c: (t_dot(oc, oc) - radius * radius) as i128,
    }
}

pub open spec fn hit_of(center: Triple, radius: int, origin: Triple, dir: Triple) -> Hit {
    let q = quadratic_of(center, radius, origin, dir);
    if q.disc() < 0 {
        Hit::Miss
    } else {
        Hit::Roots(q)
    }
}

/// The coefficients of the ray's quadratic, read as integers, are `d.d`, `2 oc.d` and
/// `oc.oc - r^2` without truncation.
pub open spec fn coefficients_exact(center: Triple, radius: int, origin: Triple, dir: Triple) -> bool {
    let oc = t_sub(origin, center);
    let q = quadratic_of(center, radius, origin, dir);
    q.a as int == t_dot(dir, dir) && q.b as int == 2 * t_dot(oc, dir) && q.c as int == t_dot(oc, oc)
        - radius * radius
}

/// Intersection test of `ray` against the sphere `(center, radius)`.
pub fn hit_sphere(center: Vec3, radius: i64, ray: &Ray) -> (r: Hit)
    requires
        geometry_in_range(center@, radius as int, ray.orig@, ray.dir@),
    ensures
        r == hit_of(center@, radius as int, ray.orig@, ray.dir@),
        coefficients_exact(center@, radius as int, ray.orig@, ray.dir@),
{
    let oc = ray.orig.sub(center);
    let d = ray.dir;
    proof {
        lemma_coefficients_exact(center@, radius as int, ray.orig@, d@);
    }
    let a = d.dot(d);
    let b = 2 * oc.dot(d);
    let c = oc.dot(oc) - (radius as i128) * (radius as i128);
    let q = Quadratic { a, b, c };
    proof {
        let ghost l2 = 0x100_0000_0000_0000int;
        lemma_mul_bound(b as int, b as int, 12 * l2, 12 * l2);
        lemma_mul_bound(a as int, c as int, 3 * l2, 13 * l2);
        assert((12 * l2) * (12 * l2) == 144 * (l2 * l2)) by (nonlinear_arith);
        assert((3 * l2) * (13 * l2) == 39 * (l2 * l2)) by (nonlinear_arith);
        assert(l2 * l2 == 0x1_0000_0000_0000_0000_0000_0000_0000int);
    }
    let ac = a * c;
    let disc = b * b - 4 * ac;
    proof {
        assert(4 * a * c == 4 * (a * c)) by (nonlinear_arith);
        assert(disc as int == q.disc());
    }
    if disc < 0 {
        Hit::Miss
    } else {
        Hit::Roots(q)
    }
}

/// A dot product of bounded vectors is bounded by three times the product of the bounds.
pub proof fn lemma_dot_bound(u: Triple, v: Triple, bu: int, bv: int)
    requires
        bounded(u, bu),
        bounded(v, bv),
    ensures
        -(3 * bu * bv) <= t_dot(u, v) <= 3 * bu * bv,
{
    lemma_mul_bound(u.0, v.0, bu, bv);
    lemma_mul_bound(u.1, v.1, bu, bv);
    lemma_mul_bound(u.2, v.2, bu, bv);
    assert(3 * bu * bv == 3 * (bu * bv)) by (nonlinear_arith);
}

/// In range, the dot products behind the quadratic are bounded by small multiples of
/// `COORD_LIMIT^2`, so that `i128` holds every coefficient exactly.
pub proof fn lemma_coefficients_exact(center: Triple, radius: int, origin: Triple, dir: Triple)
    requires
        geometry_in_range(center, radius, origin, dir),
    ensures
        coefficients_exact(center, radius, origin, dir),
        ({
            let oc = t_sub(origin, center);
            let l2 = 0x100_0000_0000_0000int;
            &&& -6 * l2 <= t_dot(oc, dir) <= 6 * l2
            &&& 0 <= t_dot(dir, dir) <= 3 * l2
            &&& -12 * l2 <= t_dot(oc, oc) <= 12 * l2
            &&& 0 <= radius * radius <= l2
        }),
{
    assert(dir.0 * dir.0 >= 0 && dir.1 * dir.1 >= 0 && dir.2 * dir.2 >= 0) by (nonlinear_arith);
    let l = COORD_LIMIT as int;
    let oc = t_sub(origin, center);
    lemma_dot_bound(oc, dir, 2 * l, l);
    lemma_dot_bound(dir, dir, l, l);
    lemma_dot_bound(oc, oc, 2 * l, 2 * l);
    lemma_mul_bound(radius, radius, l, l);
    assert(3 * (2 * l) * l == 6 * (l * l)) by (nonlinear_arith);
    assert(3 * l * l == 3 * (l * l)) by (nonlinear_arith);
    assert(3 * (2 * l) * (2 * l) == 12 * (l * l)) by (nonlinear_arith);
    assert(l * l == 0x100_0000_0000_0000int);
}

/// `|oc x d|^2`, where `oc = origin - center`: the squared closest approach of the
/// ray's line to the center, multiplied by `|d|^2`.
pub open spec fn approach_scaled(center: Triple, origin: Triple, dir: Triple) -> int {
    let oc = t_sub(origin, center);
    t_dot(t_cross(oc, dir), t_cross(oc, dir))
}

/// The discriminant is `4 (r^2 |d|^2 - |oc x d|^2)`. Dividing by `4 |d|^2`: it is
/// positive exactly when the ray's closest approach to the center is below the radius,
/// zero (the two roots coincide) exactly when the ray is tangent, and negative, so that
/// the test reports a miss, exactly when the closest approach exceeds the radius.
pub proof fn lemma_discriminant_by_closest_approach(center: Vec3, radius: i64, ray: Ray)
    requires
        geometry_in_range(center@, radius as int, ray.orig@, ray.dir@),
    ensures
        ({
            let q = quadratic_of(center@, radius as int, ray.orig@, ray.dir@);
            let reach = radius * radius * t_dot(ray.dir@, ray.dir@);
            let near = approach_scaled(center@, ray.orig@, ray.dir@);
            &&& q.disc() == 4 * (reach - near)
            &&& (near < reach <==> q.disc() > 0)
            &&& (near == reach <==> q.disc() == 0)
            &&& (near > reach <==> hit_of(center@, radius as int, ray.orig@, ray.dir@)
                == Hit::Miss)
        }),
{
    let (c, r, o, d) = (center@, radius as int, ray.orig@, ray.dir@);
    lemma_coefficients_exact(c, r, o, d);
    let oc = t_sub(o, c);
    lemma_lagrange(oc, d);
    let q = quadratic_of(c, r, o, d);
    let (x, a, c0) = (t_dot(oc, d), t_dot(d, d), t_dot(oc, oc));
    assert((2 * x) * (2 * x) - 4 * a * (c0 - r * r) == 4 * (r * r * a - (c0 * a - x * x)))
        by (nonlinear_arith);
    assert(c0 * a == a * c0) by (nonlinear_arith);
}

/// A ray aimed at the center from outside it: `center = origin + m d` with `m > 0`,
/// and `|d| = s`, so that the center lies at distance `m s`. Then `sqrt(disc) = 2 r s`,
/// the discriminant is positive, and the nearer root `t = (-b - 2 r s) / 2a` satisfies
/// `t s = m s - r`: measured along the ray, the hit lies at the distance to the center
/// less the radius.
pub proof fn lemma_hit_through_center(center: Vec3, radius: i64, ray: Ray, m: int, s: int)
    requires
        geometry_in_range(center@, radius as int, ray.orig@, ray.dir@),
        m > 0,
        s > 0,
        s * s == t_dot(ray.dir@, ray.dir@),
        center@ == t_point_at(ray.orig@, ray.dir@, m),
    ensures
        ({
            let q = quadratic_of(center@, radius as int, ray.orig@, ray.dir@);
            let root = 2 * radius * s;
            &&& root > 0
            &&& q.disc() == root * root
            &&& q.disc() > 0
            &&& s * (-q.b - root) == 2 * q.a * (m * s - radius)
        }),
{
    let (c, r, o, d) = (center@, radius as int, ray.orig@, ray.dir@);
    lemma_coefficients_exact(c, r, o, d);
    let oc = t_sub(o, c);
    let a = t_dot(d, d);
    assert(oc == (-m * d.0, -m * d.1, -m * d.2)) by (nonlinear_arith)
        requires
            oc == t_sub(o, c),
            c == t_point_at(o, d, m),
    ;
    assert(t_dot(oc, d) == -m * a) by (nonlinear_arith)
        requires
            oc == (-m * d.0, -m * d.1, -m * d.2),
            a == t_dot(d, d),
    ;
    let mm = m * m;
    assert((-m * d.0) * (-m * d.0) == mm * (d.0 * d.0) && (-m * d.1) * (-m * d.1) == mm * (d.1
        * d.1) && (-m * d.2) * (-m * d.2) == mm * (d.2 * d.2)) by (nonlinear_arith)
        requires
            mm == m * m,
    ;
    assert(mm * (d.0 * d.0) + mm * (d.1 * d.1) + mm * (d.2 * d.2) == mm * a) by (nonlinear_arith)
        requires
            a == d.0 * d.0 + d.1 * d.1 + d.2 * d.2,
    ;
    assert(t_dot(oc, oc) == m * m * a);
    let q = quadratic_of(c, r, o, d);
    let (qa, qb, qc) = (q.a as int, q.b as int, q.c as int);
    let ma = m * a;
    assert(-m * a == -ma) by (nonlinear_arith)
        requires
            ma == m * a,
    ;
    assert(qb * qb == 4 * (ma * ma)) by (nonlinear_arith)
        requires
            qb == 2 * (-ma),
    ;
    assert(4 * qa * qc == 4 * (ma * ma) - 4 * (a * (r * r))) by (nonlinear_arith)
        requires
            qa == a,
            qc == m * m * a - r * r,
            ma == m * a,
    ;
    assert(4 * (a * (r * r)) == (2 * r * s) * (2 * r * s)) by (nonlinear_arith)
        requires
            a == s * s,
    ;
    assert(q.disc() == qb * qb - 4 * qa * qc);
    assert(s * (-qb - 2 * r * s) == 2 * qa * (m * s - r)) by (nonlinear_arith)
        requires
            qa == a,
            qb == 2 * (-m * a),
            a == s * s,
    ;
    assert(2 * r * s > 0) by (nonlinear_arith)
        requires
            r > 0,
            s > 0,
    ;
    assert((2 * r * s) * (2 * r * s) > 0) by (nonlinear_arith)
        requires
            2 * r * s > 0,
    ;
}

/// With `root >= 0` a square root of the discriminant, the nearer root
/// `(-b - root) / 2a` is strictly positive exactly when `front_hit` holds.
pub proof fn lemma_front_hit_is_positive_root(q: Quadratic, root: int)
    requires
        q.a > 0,
        root >= 0,
        root * root == q.disc(),
    ensures
        (-q.b - root > 0) <==> q.front_hit(),
{
    let (a, b, c) = (q.a as int, q.b as int, q.c as int);
    assert((-b - root > 0) <==> (b < 0 && c > 0)) by (nonlinear_arith)
        requires
            a > 0,
            root >= 0,
            root * root == b * b - 4 * a * c,
    ;
}


/// Scaling a ray's direction by `k > 0` scales `a` by `k^2`, `b` by `k` and the
/// discriminant by `k^2`, and keeps `c`: whether the ray misses, and whether it meets
/// the sphere in front of its origin, do not change.
pub proof fn lemma_scaled_direction(center: Triple, radius: int, origin: Triple, dir: Triple, k: int)
    requires
        k > 0,
        geometry_in_range(center, radius, origin, dir),
        geometry_in_range(center, radius, origin, t_scale(k, dir)),
    ensures
        ({
            let q = quadratic_of(center, radius, origin, dir);
            let p = quadratic_of(center, radius, origin, t_scale(k, dir));
            &&& p.a == k * k * q.a
            &&& p.b == k * q.b
            &&& p.c == q.c
            &&& p.disc() == k * k * q.disc()
            &&& (p.disc() < 0 <==> q.disc() < 0)
            &&& (p.front_hit() <==> q.front_hit())
        }),
{
    let kd = t_scale(k, dir);
    lemma_coefficients_exact(center, radius, origin, dir);
    lemma_coefficients_exact(center, radius, origin, kd);
    let oc = t_sub(origin, center);
    assert(t_dot(kd, kd) == k * k * t_dot(dir, dir)) by (nonlinear_arith)
        requires
            kd == (k * dir.0, k * dir.1, k * dir.2),
    ;
    let (o0, o1, o2) = oc;
    let (d0, d1, d2) = dir;
    assert(o0 * (k * d0) == k * (o0 * d0) && o1 * (k * d1) == k * (o1 * d1) && o2 * (k * d2) == k
        * (o2 * d2)) by (nonlinear_arith);
    assert(k * (o0 * d0) + k * (o1 * d1) + k * (o2 * d2) == k * (o0 * d0 + o1 * d1 + o2 * d2))
        by (nonlinear_arith);
    assert(t_dot(oc, kd) == k * t_dot(oc, dir));
    let x = t_dot(oc, dir);
    assert(2 * (k * x) == k * (2 * x)) by (nonlinear_arith);
    let q = quadratic_of(center, radius, origin, dir);
    let p = quadratic_of(center, radius, origin, kd);
    let (qa, qb, qc) = (q.a as int, q.b as int, q.c as int);
    let (pa, pb, pc) = (p.a as int, p.b as int, p.c as int);
    assert(pb * pb - 4 * pa * pc == k * k * (qb * qb - 4 * qa * qc)) by (nonlinear_arith)
        requires
            pa == k * k * qa,
            pb == k * qb,
            pc == qc,
    ;
    assert(k * k > 0) by (nonlinear_arith)
        requires
            k > 0,
    ;
    let kk = k * k;
    let dq = qb * qb - 4 * qa * qc;
    assert(q.disc() == dq && p.disc() == kk * dq);
    assert((kk * dq < 0 <==> dq < 0) && (kk * dq >= 0 <==> dq >= 0)) by (nonlinear_arith)
        requires
            kk > 0,
    ;
    assert((kk * qa > 0 <==> qa > 0) && (k * qb < 0 <==> qb < 0)) by (nonlinear_arith)
        requires
            kk > 0,
            k > 0,
    ;
}

} // verus!
