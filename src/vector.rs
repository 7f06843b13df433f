use vstd::prelude::*;

verus! {

/// A triple of mathematical integers: the model of a `Vec3`.
pub type Triple = (int, int, int);

pub open spec fn fits_i64(n: int) -> bool {
    i64::MIN <= n <= i64::MAX
}

/// Every component of `v` is representable as an `i64`.
pub open spec fn fits(v: Triple) -> bool {
    fits_i64(v.0) && fits_i64(v.1) && fits_i64(v.2)
}

/// Every component of `v` lies within `[-bound, bound]`.
pub open spec fn bounded(v: Triple, bound: int) -> bool {
    -bound <= v.0 <= bound && -bound <= v.1 <= bound && -bound <= v.2 <= bound
}

/// Magnitude under which products and sums of three products stay inside `i128`.
pub const SMALL: i64 = 0x4000_0000_0000_0000;

pub open spec fn t_add(a: Triple, b: Triple) -> Triple {
    (a.0 + b.0, a.1 + b.1, a.2 + b.2)
}

pub open spec fn t_sub(a: Triple, b: Triple) -> Triple {
    (a.0 - b.0, a.1 - b.1, a.2 - b.2)
}

pub open spec fn t_neg(a: Triple) -> Triple {
    (-a.0, -a.1, -a.2)
}

pub open spec fn t_mul(a: Triple, b: Triple) -> Triple {
    (a.0 * b.0, a.1 * b.1, a.2 * b.2)
}

pub open spec fn t_scale(k: int, a: Triple) -> Triple {
    (k * a.0, k * a.1, k * a.2)
}

pub open spec fn t_dot(a: Triple, b: Triple) -> int {
    a.0 * b.0 + a.1 * b.1 + a.2 * b.2
}

pub open spec fn t_cross(a: Triple, b: Triple) -> Triple {
    (a.1 * b.2 - a.2 * b.1, -(a.0 * b.2 - a.2 * b.0), a.0 * b.1 - a.1 * b.0)
}

pub open spec fn t_zero(a: Triple) -> bool {
    a.0 == 0 && a.1 == 0 && a.2 == 0
}

/// A vector of three integer components on a fixed grid of world units.
#[derive(Clone, Copy, Debug, PartialEq, Eq, Structural)]
pub struct Vec3 {
    pub x: i64,
    pub y: i64,
    pub z: i64,
}

impl View for Vec3 {
    type V = Triple;

    open spec fn view(&self) -> Triple {
        (self.x as int, self.y as int, self.z as int)
    }
}

/// A product of two factors bounded in magnitude is bounded by the product of the bounds.
pub proof fn lemma_mul_bound(x: int, y: int, bx: int, by_: int)
    requires
        -bx <= x <= bx,
        -by_ <= y <= by_,
    ensures
        -(bx * by_) <= x * y <= bx * by_,
        0 <= bx * by_,
{
    assert(-(bx * by_) <= x * y <= bx * by_ && 0 <= bx * by_) by (nonlinear_arith)
        requires
            -bx <= x <= bx,
            -by_ <= y <= by_,
    ;
}

impl Vec3 {
    pub fn new(x: i64, y: i64, z: i64) -> (r: Vec3)
        ensures
            r@ == (x as int, y as int, z as int),
    {
        Vec3 { x, y, z }
    }

    pub fn add(self, other: Vec3) -> (r: Vec3)
        requires
            fits(t_add(self@, other@)),
        ensures
            r@ == t_add(self@, other@),
    {
        Vec3 { x: self.x + other.x, y: self.y + other.y, z: self.z + other.z }
    }

    pub fn sub(self, other: Vec3) -> (r: Vec3)
        requires
            fits(t_sub(self@, other@)),
        ensures
            r@ == t_sub(self@, other@),
    {
        Vec3 { x: self.x - other.x, y: self.y - other.y, z: self.z - other.z }
    }

    pub fn neg(self) -> (r: Vec3)
        requires
            fits(t_neg(self@)),
        ensures
            r@ == t_neg(self@),
    {
        Vec3 { x: -self.x, y: -self.y, z: -self.z }
    }

    /// Componentwise product.
    pub fn mul(self, other: Vec3) -> (r: Vec3)
        requires
            fits(t_mul(self@, other@)),
        ensures
            r@ == t_mul(self@, other@),
    {
        Vec3 { x: self.x * other.x, y: self.y * other.y, z: self.z * other.z }
    }

    /// Product with a scalar, `k * self`.
    pub fn scale(self, k: i64) -> (r: Vec3)
        requires
            fits(t_scale(k as int, self@)),
        ensures
            r@ == t_scale(k as int, self@),
    {
        Vec3 { x: k * self.x, y: k * self.y, z: k * self.z }
    }

    pub fn add_assign(&mut self, other: Vec3)
        requires
            fits(t_add(old(self)@, other@)),
        ensures
            final(self)@ == t_add(old(self)@, other@),
    {
        *self = self.add(other);
    }

    pub fn sub_assign(&mut self, other: Vec3)
        requires
            fits(t_sub(old(self)@, other@)),
        ensures
            final(self)@ == t_sub(old(self)@, other@),
    {
        *self = self.sub(other);
    }

    pub fn mul_assign(&mut self, other: Vec3)
        requires
            fits(t_mul(old(self)@, other@)),
        ensures
            final(self)@ == t_mul(old(self)@, other@),
    {
        *self = self.mul(other);
    }

    pub fn scale_assign(&mut self, k: i64)
        requires
            fits(t_scale(k as int, old(self)@)),
        ensures
            final(self)@ == t_scale(k as int, old(self)@),
    {
        *self = self.scale(k);
    }

    pub fn dot(&self, other: Vec3) -> (r: i128)
        requires
            bounded(self@, SMALL as int),
            bounded(other@, SMALL as int),
        ensures
            r as int == t_dot(self@, other@),
    {
        proof {
            let s = SMALL as int;
            lemma_mul_bound(self.x as int, other.x as int, s, s);
            lemma_mul_bound(self.y as int, other.y as int, s, s);
            lemma_mul_bound(self.z as int, other.z as int, s, s);
            assert(s * s == 0x1000_0000_0000_0000_0000_0000_0000_0000int);
        }
        let px = (self.x as i128) * (other.x as i128);
        let py = (self.y as i128) * (other.y as i128);
        let pz = (self.z as i128) * (other.z as i128);
        px + py + pz
    }

    pub fn cross(&self, other: Vec3) -> (r: Vec3)
        requires
            bounded(self@, SMALL as int),
            bounded(other@, SMALL as int),
            fits(t_cross(self@, other@)),
        ensures
            r@ == t_cross(self@, other@),
    {
        proof {
            let s = SMALL as int;
            lemma_mul_bound(self.x as int, other.y as int, s, s);
            lemma_mul_bound(self.x as int, other.z as int, s, s);
            lemma_mul_bound(self.y as int, other.x as int, s, s);
            lemma_mul_bound(self.y as int, other.z as int, s, s);
            lemma_mul_bound(self.z as int, other.x as int, s, s);
            lemma_mul_bound(self.z as int, other.y as int, s, s);
            assert(s * s == 0x1000_0000_0000_0000_0000_0000_0000_0000int);
        }
        let (ax, ay, az) = (self.x as i128, self.y as i128, self.z as i128);
        let (bx, by_, bz) = (other.x as i128, other.y as i128, other.z as i128);
        let cx = ay * bz - az * by_;
        let cy = -(ax * bz - az * bx);
        let cz = ax * by_ - ay * bx;
        Vec3 { x: cx as i64, y: cy as i64, z: cz as i64 }
    }

    pub fn squared_length(&self) -> (r: i128)
        requires
            bounded(self@, SMALL as int),
        ensures
            r as int == t_dot(self@, self@),
            r >= 0,
    {
        proof {
            assert(self.x * self.x >= 0 && self.y * self.y >= 0 && self.z * self.z >= 0)
                by (nonlinear_arith);
        }
        self.dot(*self)
    }

    pub fn is_zero(&self) -> (r: bool)
        ensures
            r == t_zero(self@),
    {
        self.x == 0 && self.y == 0 && self.z == 0
    }

    pub fn r(&self) -> (r: i64)
        ensures
            r == self.x,
    {
        self.x
    }

    pub fn g(&self) -> (r: i64)
        ensures
            r == self.y,
    {
        self.y
    }

    pub fn b(&self) -> (r: i64)
        ensures
            r == self.z,
    {
        self.z
    }
}

/// Addition commutes, and subtracting `b` from `a + b` gives back `a` exactly.
pub proof fn lemma_add_commutes_and_cancels(a: Vec3, b: Vec3)
    ensures
        t_add(a@, b@) == t_add(b@, a@),
        t_sub(t_add(a@, b@), b@) == a@,
{
}

/// The dot product is symmetric and the cross product antisymmetric:
/// `dot(a, b) == dot(b, a)` and `cross(a, b) == neg(cross(b, a))`.
pub proof fn lemma_dot_symmetric_cross_antisymmetric(a: Vec3, b: Vec3)
    ensures
        t_dot(a@, b@) == t_dot(b@, a@),
        t_cross(a@, b@) == t_neg(t_cross(b@, a@)),
{
    let (a0, a1, a2) = a@;
    let (b0, b1, b2) = b@;
    assert(a0 * b0 == b0 * a0 && a1 * b1 == b1 * a1 && a2 * b2 == b2 * a2) by (nonlinear_arith);
    assert(a1 * b2 == b2 * a1 && a2 * b1 == b1 * a2 && a0 * b2 == b2 * a0 && a2 * b0 == b0 * a2
        && a0 * b1 == b1 * a0 && a1 * b0 == b0 * a1) by (nonlinear_arith);
}

/// Lagrange's identity: `|u|^2 |v|^2 - (u . v)^2 == |u x v|^2`.
pub proof fn lemma_lagrange(u: Triple, v: Triple)
    ensures
        t_dot(u, u) * t_dot(v, v) - t_dot(u, v) * t_dot(u, v) == t_dot(t_cross(u, v), t_cross(u, v)),
{
    let (u0, u1, u2) = u;
    let (v0, v1, v2) = v;
    let (su, sv) = (t_dot(u, u), t_dot(v, v));
    // products u_i * v_j
    let (p00, p01, p02) = (u0 * v0, u0 * v1, u0 * v2);
    let (p10, p11, p12) = (u1 * v0, u1 * v1, u1 * v2);
    let (p20, p21, p22) = (u2 * v0, u2 * v1, u2 * v2);
    let (a0, a1, a2) = (u0 * u0, u1 * u1, u2 * u2);
    let (b0, b1, b2) = (v0 * v0, v1 * v1, v2 * v2);
    assert((a0 + a1 + a2) * (b0 + b1 + b2) == a0 * b0 + a0 * b1 + a0 * b2 + a1 * b0 + a1 * b1 + a1
        * b2 + a2 * b0 + a2 * b1 + a2 * b2) by (nonlinear_arith);
    assert(a0 * b0 == p00 * p00 && a0 * b1 == p01 * p01 && a0 * b2 == p02 * p02) by (nonlinear_arith)
        requires
            a0 == u0 * u0 && b0 == v0 * v0 && b1 == v1 * v1 && b2 == v2 * v2,
            p00 == u0 * v0 && p01 == u0 * v1 && p02 == u0 * v2,
    ;
    assert(a1 * b0 == p10 * p10 && a1 * b1 == p11 * p11 && a1 * b2 == p12 * p12) by (nonlinear_arith)
        requires
            a1 == u1 * u1 && b0 == v0 * v0 && b1 == v1 * v1 && b2 == v2 * v2,
            p10 == u1 * v0 && p11 == u1 * v1 && p12 == u1 * v2,
    ;
    assert(a2 * b0 == p20 * p20 && a2 * b1 == p21 * p21 && a2 * b2 == p22 * p22) by (nonlinear_arith)
        requires
            a2 == u2 * u2 && b0 == v0 * v0 && b1 == v1 * v1 && b2 == v2 * v2,
            p20 == u2 * v0 && p21 == u2 * v1 && p22 == u2 * v2,
    ;
    assert(p12 * p21 == p11 * p22 && p02 * p20 == p00 * p22 && p01 * p10 == p00 * p11)
        by (nonlinear_arith)
        requires
            p00 == u0 * v0 && p01 == u0 * v1 && p02 == u0 * v2,
            p10 == u1 * v0 && p11 == u1 * v1 && p12 == u1 * v2,
            p20 == u2 * v0 && p21 == u2 * v1 && p22 == u2 * v2,
    ;
    let d = p00 + p11 + p22;
    assert(d * d == p00 * p00 + p11 * p11 + p22 * p22 + 2 * (p00 * p11) + 2 * (p00 * p22) + 2 * (p11
        * p22)) by (nonlinear_arith)
        requires
            d == p00 + p11 + p22,
    ;
    let (c0, c1, c2) = (p12 - p21, -(p02 - p20), p01 - p10);
    assert(c0 * c0 + c1 * c1 + c2 * c2 == p12 * p12 + p21 * p21 - 2 * (p12 * p21) + p02 * p02 + p20
        * p20 - 2 * (p02 * p20) + p01 * p01 + p10 * p10 - 2 * (p01 * p10)) by (nonlinear_arith)
        requires
            c0 == p12 - p21 && c1 == -(p02 - p20) && c2 == p01 - p10,
    ;
    assert(t_cross(u, v) == (c0, c1, c2));
    assert(t_dot(u, v) == d);
    assert(su * sv == (a0 + a1 + a2) * (b0 + b1 + b2));
}

} // verus!
