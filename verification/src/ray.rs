//! Rays: an origin point, a direction vector and a time for motion blur.

use vstd::prelude::*;
use crate::util::{
    Point, Vec3, add_spec, scale_spec, vec_in, lemma_abs_mul, lemma_tz_bound, SCALE, ORIG_MAX,
    DIR_MAX, T_LIMIT,
};

verus! {

#[derive(Clone, Copy, Debug, PartialEq, Eq, Structural)]
pub struct Ray {
    pub origin: Point,
    pub direction: Vec3,
    pub time: i64,
}

/// The point `origin + t * direction`, with the scalar products truncated.
pub open spec fn ray_at_spec(r: Ray, t: int) -> Point {
    add_spec(r.origin, scale_spec(r.direction, t))
}

impl Ray {
    pub fn new(origin: Point, direction: Vec3) -> (r: Ray)
        ensures
            r == (Ray { origin, direction, time: 0i64 }),
    {
        Ray { origin, direction, time: 0 }
    }

    pub fn new_with_time(origin: Point, direction: Vec3, time: i64) -> (r: Ray)
        ensures
            r == (Ray { origin, direction, time }),
    {
        Ray { origin, direction, time }
    }

    pub fn at(&self, t: i64) -> (p: Point)
        requires
            vec_in(self.origin, ORIG_MAX as int),
            vec_in(self.direction, DIR_MAX as int),
            -(T_LIMIT as int) <= t <= T_LIMIT as int,
        ensures
            p == ray_at_spec(*self, t as int),
            vec_in(p, ORIG_MAX as int + 0x40_0000_0000),
    {
        proof {
            lemma_abs_mul(self.direction.x as int, t as int, DIR_MAX as int, T_LIMIT as int);
            lemma_abs_mul(self.direction.y as int, t as int, DIR_MAX as int, T_LIMIT as int);
            lemma_abs_mul(self.direction.z as int, t as int, DIR_MAX as int, T_LIMIT as int);
            lemma_tz_bound(self.direction.x as int * t, SCALE as int, 0x1_0000_0000_0000);
            lemma_tz_bound(self.direction.y as int * t, SCALE as int, 0x1_0000_0000_0000);
            lemma_tz_bound(self.direction.z as int * t, SCALE as int, 0x1_0000_0000_0000);
        }
        self.origin.add(self.direction.scale(t))
    }
}

} // verus!
