use vstd::prelude::*;
use crate::vector::{fits, t_add, t_scale, Triple, Vec3};

verus! {

/// The point `origin + t * direction`.
pub open spec fn t_point_at(origin: Triple, direction: Triple, t: int) -> Triple {
    t_add(origin, t_scale(t, direction))
}

/// A half-line `origin + t * direction`; the direction need not be of unit length.
#[derive(Clone, Copy, Debug, PartialEq, Eq, Structural)]
pub struct Ray {
    pub orig: Vec3,
    pub dir: Vec3,
}

impl Ray {
    pub fn new(origin: Vec3, direction: Vec3) -> (r: Ray)
        ensures
            r.orig == origin,
            r.dir == direction,
    {
        Ray { orig: origin, dir: direction }
    }

    pub fn origin(&self) -> (r: Vec3)
        ensures
            r == self.orig,
    {
        self.orig
    }

    pub fn direction(&self) -> (r: Vec3)
        ensures
            r == self.dir,
    {
        self.dir
    }

    /// The point at parameter `t`; a negative `t` lies behind the origin.
    pub fn point_at(&self, t: i64) -> (r: Vec3)
        requires
            fits(t_scale(t as int, self.dir@)),
            fits(t_point_at(self.orig@, self.dir@, t as int)),
        ensures
            r@ == t_point_at(self.orig@, self.dir@, t as int),
    {
        self.orig.add(self.dir.scale(t))
    }
}

/// A ray at parameter zero is at its origin.
pub proof fn lemma_point_at_zero(ray: Ray)
    ensures
        t_point_at(ray.orig@, ray.dir@, 0) == ray.orig@,
{
}

} // verus!
