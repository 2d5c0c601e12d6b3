//! Spheres and their exact ray intersection.
//!
//! The intersection substitutes the ray into the implicit sphere equation,
//! uses the half-b reduction of the quadratic, and takes the square root of
//! the discriminant with the integer square root. Every rounding step is a
//! spec function, so the returned parameter is pinned exactly.

use vstd::prelude::*;
use crate::aabb::{AABB, aabb_in, aabb_contains, aabb_union};
use crate::material::{RenderableMaterial, material_wf};
use crate::ray::{Ray, ray_at_spec};
use crate::renderable::HitRecord;
use crate::util::{
    Interval, Point, Vec3, add_spec, sub_spec, scale_spec, neg_spec, vec_in, dot_spec, fxmul, lemma_dot_bound,
    fxdiv, sqrt_floor, tz_div_i128, isqrt_u128, div_fx, lemma_abs_mul, lemma_tz_bound,
    lemma_tz_monotone, lemma_sqrt_floor_bounds, SCALE, WORLD_MAX, ORIG_MAX, DIR_MAX, T_LIMIT,
};

verus! {

#[derive(Clone, Copy, Debug, PartialEq, Eq, Structural)]
pub struct Sphere {
    pub center: Point,
    pub r: i64,
    pub material: RenderableMaterial,
    pub is_moving: bool,
    pub center_vec: Vec3,
    pub bbox: AABB,
}

pub open spec fn sphere_wf(s: Sphere) -> bool {
    &&& vec_in(s.center, WORLD_MAX as int)
    &&& 1 <= s.r <= WORLD_MAX as int
    &&& vec_in(s.center_vec, 2 * WORLD_MAX as int)
    &&& aabb_in(s.bbox, 2 * WORLD_MAX as int)
    &&& material_wf(s.material)
}

/// The box of radius `r` around a point: what a resting sphere occupies.
pub open spec fn point_box(center: Point, r: int) -> AABB {
    AABB {
        x_interval: Interval { min: (center.x - r) as i64, max: (center.x + r) as i64 },
        y_interval: Interval { min: (center.y - r) as i64, max: (center.y + r) as i64 },
        z_interval: Interval { min: (center.z - r) as i64, max: (center.z + r) as i64 },
    }
}

/// The sphere's center at the ray's time: a linear interpolation along the
/// motion vector for moving spheres.
pub open spec fn center_at(s: Sphere, time: int) -> Vec3 {
    if s.is_moving {
        add_spec(s.center, scale_spec(s.center_vec, time))
    } else {
        s.center
    }
}

pub open spec fn sphere_oc(s: Sphere, r: Ray) -> Vec3 {
    sub_spec(r.origin, center_at(s, r.time as int))
}

/// The quadratic's leading coefficient: the direction's square length.
pub open spec fn sphere_a(r: Ray) -> int {
    dot_spec(r.direction, r.direction)
}

/// The half-b reduction: `oc . direction`.
pub open spec fn sphere_half_b(s: Sphere, r: Ray) -> int {
    dot_spec(sphere_oc(s, r), r.direction)
}

pub open spec fn sphere_c(s: Sphere, r: Ray) -> int {
    dot_spec(sphere_oc(s, r), sphere_oc(s, r)) - fxmul(s.r as int, s.r as int)
}

/// The discriminant `half_b^2 - a c`, in scalar units.
pub open spec fn sphere_disc(s: Sphere, r: Ray) -> int {
    fxmul(sphere_half_b(s, r), sphere_half_b(s, r)) - fxmul(sphere_a(r), sphere_c(s, r))
}

/// The discriminant's square root as a scalar.
pub open spec fn sphere_sdisc(s: Sphere, r: Ray) -> int {
    sqrt_floor(SCALE * sphere_disc(s, r))
}

/// The smaller root of the quadratic.
pub open spec fn sphere_root_near(s: Sphere, r: Ray) -> int {
    fxdiv(-sphere_half_b(s, r) - sphere_sdisc(s, r), sphere_a(r))
}

/// The larger root of the quadratic.
pub open spec fn sphere_root_far(s: Sphere, r: Ray) -> int {
    fxdiv(-sphere_half_b(s, r) + sphere_sdisc(s, r), sphere_a(r))
}

/// The parameter a sphere intersection reports within the closed range:
/// the nearer root when admissible, else the farther, else nothing. A ray
/// with a vanishing direction or a negative discriminant misses.
pub open spec fn sphere_hit_t(s: Sphere, r: Ray, imin: int, imax: int) -> Option<int> {
    if sphere_a(r) <= 0 || sphere_disc(s, r) < 0 {
        None
    } else if imin <= sphere_root_near(s, r) <= imax {
        Some(sphere_root_near(s, r))
    } else if imin <= sphere_root_far(s, r) <= imax {
        Some(sphere_root_far(s, r))
    } else {
        None
    }
}

/// The outward normal at parameter `t`: the hit point minus the center,
/// divided by the radius.
pub open spec fn sphere_outward(s: Sphere, r: Ray, t: int) -> Vec3 {
    let p = ray_at_spec(r, t);
    let c = center_at(s, r.time as int);
    Vec3 {
        x: fxdiv(p.x - c.x, s.r as int) as i64,
        y: fxdiv(p.y - c.y, s.r as int) as i64,
        z: fxdiv(p.z - c.z, s.r as int) as i64,
    }
}

/// The full record reported for a hit at parameter `t`.
pub open spec fn sphere_record_spec(s: Sphere, r: Ray, t: int) -> HitRecord {
    let outward = sphere_outward(s, r, t);
    let front = dot_spec(r.direction, outward) < 0;
    HitRecord {
        point: ray_at_spec(r, t),
        normal: if front {
            outward
        } else {
            neg_spec(outward)
        },
        t: t as i64,
        u: 0i64,
        v: 0i64,
        front_face: front,
        material_ptr: s.material,
    }
}

/// The nearer root never exceeds the farther one.
pub proof fn lemma_sphere_roots_ordered(s: Sphere, r: Ray)
    requires
        sphere_a(r) >= 1,
        sphere_disc(s, r) >= 0,
    ensures
        sphere_root_near(s, r) <= sphere_root_far(s, r),
{
    lemma_sqrt_floor_bounds(SCALE * sphere_disc(s, r));
    let hb = sphere_half_b(s, r);
    let sd = sphere_sdisc(s, r);
    lemma_tz_monotone((-hb - sd) * SCALE, (-hb + sd) * SCALE, sphere_a(r));
}

/// Shrinking the range onto or past the reported parameter behaves like a
/// minimum over the candidate roots.
pub proof fn lemma_sphere_hit_clip(s: Sphere, r: Ray, imin: int, imax: int, m: int)
    requires
        m <= imax,
    ensures
        sphere_hit_t(s, r, imin, imax) matches Some(t) ==> ((t <= m ==> sphere_hit_t(s, r, imin, m)
            == Some(t)) && (m < t ==> sphere_hit_t(s, r, imin, m) is None)),
        sphere_hit_t(s, r, imin, imax) is None ==> sphere_hit_t(s, r, imin, m) is None,
{
    if sphere_a(r) >= 1 && sphere_disc(s, r) >= 0 {
        lemma_sphere_roots_ordered(s, r);
    }
}

/// A hit reported for a narrowed range is the answer for the full range.
pub proof fn lemma_sphere_hit_extend(s: Sphere, r: Ray, imin: int, m: int, imax: int)
    requires
        m <= imax,
    ensures
        sphere_hit_t(s, r, imin, m) matches Some(t) ==> sphere_hit_t(s, r, imin, imax) == Some(t),
{
    if sphere_a(r) >= 1 && sphere_disc(s, r) >= 0 {
        lemma_sphere_roots_ordered(s, r);
    }
}

impl Sphere {
    pub fn new(center: Point, radius: i64, material: RenderableMaterial) -> (s: Sphere)
        requires
            vec_in(center, WORLD_MAX as int),
            1 <= radius <= WORLD_MAX as int,
            material_wf(material),
        ensures
            sphere_wf(s),
            s.center == center,
            s.r == radius,
            s.material == material,
            s.is_moving == false,
            s.center_vec == (Vec3 { x: 0i64, y: 0i64, z: 0i64 }),
            s.bbox.x_interval.min == center.x - radius,
            s.bbox.x_interval.max == center.x + radius,
            s.bbox.y_interval.min == center.y - radius,
            s.bbox.y_interval.max == center.y + radius,
            s.bbox.z_interval.min == center.z - radius,
            s.bbox.z_interval.max == center.z + radius,
    {
        let radius_vec = Vec3::new(radius, radius, radius);
        Sphere {
            center,
            r: radius,
            material,
            is_moving: false,
            center_vec: Vec3::zero(),
            bbox: AABB::new_from_pts(center.sub(radius_vec), center.add(radius_vec)),
        }
    }

    pub fn new_moving(center: Point, radius: i64, material: RenderableMaterial, center2: Point) -> (s:
        Sphere)
        requires
            vec_in(center, WORLD_MAX as int),
            vec_in(center2, WORLD_MAX as int),
            1 <= radius <= WORLD_MAX as int,
            material_wf(material),
        ensures
            sphere_wf(s),
            s.center == center,
            s.r == radius,
            s.material == material,
            s.is_moving == true,
            s.center_vec == sub_spec(center2, center),
            s.bbox == aabb_union(point_box(center, radius as int), point_box(center2, radius as int)),
            aabb_contains(s.bbox, point_box(center, radius as int)),
            aabb_contains(s.bbox, point_box(center2, radius as int)),
    {
        let radius_vec = Vec3::new(radius, radius, radius);
        let start_box = AABB::new_from_pts(center.sub(radius_vec), center.add(radius_vec));
        let end_box = AABB::new_from_pts(center2.sub(radius_vec), center2.add(radius_vec));
        let bbox = AABB::new_from_bbox(start_box, end_box);
        proof {
            assert(aabb_in(start_box, 2 * WORLD_MAX as int));
            assert(aabb_in(end_box, 2 * WORLD_MAX as int));
            assert(aabb_in(bbox, 2 * WORLD_MAX as int));
        }
        Sphere {
            center,
            r: radius,
            material,
            is_moving: true,
            center_vec: center2.sub(center),
            bbox,
        }
    }

    /// The center at a given time along the motion vector.
    pub fn sphere_center(&self, time: i64) -> (c: Point)
        requires
            vec_in(self.center, WORLD_MAX as int),
            vec_in(self.center_vec, 2 * WORLD_MAX as int),
            -SCALE <= time <= SCALE,
        ensures
            c == center_at(*self, time as int) || !self.is_moving && c == add_spec(
                self.center,
                scale_spec(self.center_vec, time as int),
            ),
            self.is_moving ==> c == center_at(*self, time as int),
            vec_in(c, 3 * WORLD_MAX as int),
    {
        proof {
            lemma_abs_mul(self.center_vec.x as int, time as int, 2 * WORLD_MAX as int, SCALE as int);
            lemma_abs_mul(self.center_vec.y as int, time as int, 2 * WORLD_MAX as int, SCALE as int);
            lemma_abs_mul(self.center_vec.z as int, time as int, 2 * WORLD_MAX as int, SCALE as int);
            lemma_tz_bound(
                self.center_vec.x as int * time as int,
                SCALE as int,
                2 * WORLD_MAX as int * SCALE as int,
            );
            lemma_tz_bound(
                self.center_vec.y as int * time as int,
                SCALE as int,
                2 * WORLD_MAX as int * SCALE as int,
            );
            lemma_tz_bound(
                self.center_vec.z as int * time as int,
                SCALE as int,
                2 * WORLD_MAX as int * SCALE as int,
            );
        }
        self.center.add(self.center_vec.scale(time))
    }

    pub fn bounding_box(&self) -> (b: AABB)
        ensures
            b == self.bbox,
    {
        self.bbox
    }

    /// Exact sphere intersection: returns the record at `sphere_hit_t`, the
    /// nearer admissible root of the quadratic, or nothing.
    pub fn hit(&self, ray: &Ray, interval: Interval) -> (res: Option<HitRecord>)
        requires
            sphere_wf(*self),
            vec_in(ray.origin, ORIG_MAX as int),
            vec_in(ray.direction, DIR_MAX as int),
            0 <= ray.time <= SCALE,
            -(T_LIMIT as int) <= interval.min,
            interval.max <= T_LIMIT as int,
        ensures
            res is Some <==> sphere_hit_t(*self, *ray, interval.min as int, interval.max as int)
                is Some,
            res matches Some(rec) ==> {
                &&& sphere_hit_t(*self, *ray, interval.min as int, interval.max as int) == Some(
                    rec.t as int,
                )
                &&& interval.min <= rec.t <= interval.max
                &&& rec == sphere_record_spec(*self, *ray, rec.t as int)
            },
    {
        let center = if self.is_moving {
            self.sphere_center(ray.time)
        } else {
            self.center
        };
        assert(center == center_at(*self, ray.time as int));
        let ocx: i64 = ray.origin.x - center.x;
        let ocy: i64 = ray.origin.y - center.y;
        let ocz: i64 = ray.origin.z - center.z;
        assert(Vec3 { x: ocx, y: ocy, z: ocz } == sphere_oc(*self, *ray));
        let dx: i128 = ray.direction.x as i128;
        let dy: i128 = ray.direction.y as i128;
        let dz: i128 = ray.direction.z as i128;
        proof {
            lemma_abs_mul(ray.direction.x as int, ray.direction.x as int, DIR_MAX as int, DIR_MAX as int);
            lemma_abs_mul(ray.direction.y as int, ray.direction.y as int, DIR_MAX as int, DIR_MAX as int);
            lemma_abs_mul(ray.direction.z as int, ray.direction.z as int, DIR_MAX as int, DIR_MAX as int);
        }
        let a: i128 = tz_div_i128(dx * dx + dy * dy + dz * dz, SCALE as i128);
        assert(a == sphere_a(*ray));
        if a <= 0 {
            return None;
        }
        proof {
            lemma_dot_bound(
                Vec3 { x: ocx, y: ocy, z: ocz },
                ray.direction,
                0x2000_0000_0000,
                0x400_0000,
            );
        }
        let half_b: i128 = tz_div_i128(
            (ocx as i128) * dx + (ocy as i128) * dy + (ocz as i128) * dz,
            SCALE as i128,
        );
        assert(half_b == sphere_half_b(*self, *ray));
        assert(-0x6000_0000_0000_0000 <= half_b <= 0x6000_0000_0000_0000);
        proof {
            lemma_dot_bound(
                Vec3 { x: ocx, y: ocy, z: ocz },
                Vec3 { x: ocx, y: ocy, z: ocz },
                0x2000_0000_0000,
                0x2000_0000_0000,
            );
            lemma_abs_mul(self.r as int, self.r as int, WORLD_MAX as int, WORLD_MAX as int);
            lemma_tz_bound(
                self.r as int * self.r as int,
                SCALE as int,
                WORLD_MAX as int * WORLD_MAX as int,
            );
        }
        let oc_sq: i128 = tz_div_i128(
            (ocx as i128) * (ocx as i128) + (ocy as i128) * (ocy as i128) + (ocz as i128) * (
            ocz as i128),
            SCALE as i128,
        );
        let rr: i128 = tz_div_i128((self.r as i128) * (self.r as i128), SCALE as i128);
        let c: i128 = oc_sq - rr;
        assert(c == sphere_c(*self, *ray));
        assert(-0x4_0000_0000_0000_0000_0000 <= c <= 0x4_0000_0000_0000_0000_0000);
        proof {
            lemma_dot_bound(ray.direction, ray.direction, 0x400_0000, 0x400_0000);
            assert(-0xc00_0000_0000 <= a as int <= 0xc00_0000_0000);
            lemma_abs_mul(
                half_b as int,
                half_b as int,
                0x6000_0000_0000_0000,
                0x6000_0000_0000_0000,
            );
            lemma_abs_mul(a as int, c as int, 0xc00_0000_0000, 0x4_0000_0000_0000_0000_0000);
            lemma_tz_bound(
                half_b as int * half_b as int,
                SCALE as int,
                0x2400_0000_0000_0000_0000_0000_0000_0000,
            );
            lemma_tz_bound(
                a as int * c as int,
                SCALE as int,
                0x3000_0000_0000_0000_0000_0000_0000_0000,
            );
        }
        let disc: i128 = tz_div_i128((half_b * half_b), SCALE as i128) - tz_div_i128(
            a * c,
            SCALE as i128,
        );
        assert(disc == sphere_disc(*self, *ray));
        if disc < 0 {
            return None;
        }
        let sd_u: u128 = isqrt_u128((disc * (SCALE as i128)) as u128);
        proof {
            lemma_sqrt_floor_bounds(SCALE as int * disc as int);
            assert(sqrt_floor(SCALE as int * disc as int) <= 0x1_0000_0000_0000_0000) by (
            nonlinear_arith)
                requires
                    sqrt_floor(SCALE as int * disc as int) >= 0,
                    sqrt_floor(SCALE as int * disc as int) * sqrt_floor(SCALE as int * disc as int)
                        <= SCALE as int * disc as int,
                    SCALE as int * disc as int <= 0x8000_0000_0000_0000_0000_0000_0000_0000,
            ;
            assert(disc * (SCALE as i128) == SCALE as int * disc as int) by (nonlinear_arith);
        }
        let sd: i128 = sd_u as i128;
        assert(sd == sphere_sdisc(*self, *ray));
        let near: i128 = tz_div_i128((-half_b - sd) * (SCALE as i128), a);
        let far: i128 = tz_div_i128((-half_b + sd) * (SCALE as i128), a);
        assert(near == sphere_root_near(*self, *ray)) by {
            assert((-half_b - sd) * (SCALE as i128) == (-half_b as int - sd as int) * SCALE as int)
                by (nonlinear_arith);
        }
        assert(far == sphere_root_far(*self, *ray)) by {
            assert((-half_b + sd) * (SCALE as i128) == (-half_b as int + sd as int) * SCALE as int)
                by (nonlinear_arith);
        }
        let imin: i128 = interval.min as i128;
        let imax: i128 = interval.max as i128;
        if imin <= near && near <= imax {
            Some(self.make_record(ray, near as i64, center))
        } else if imin <= far && far <= imax {
            Some(self.make_record(ray, far as i64, center))
        } else {
            None
        }
    }

    /// Build the hit record for an admissible parameter.
    fn make_record(&self, ray: &Ray, t: i64, center: Point) -> (rec: HitRecord)
        requires
            sphere_wf(*self),
            vec_in(ray.origin, ORIG_MAX as int),
            vec_in(ray.direction, DIR_MAX as int),
            -(T_LIMIT as int) <= t <= T_LIMIT as int,
            center == center_at(*self, ray.time as int),
            vec_in(center, 3 * WORLD_MAX as int),
        ensures
            rec == sphere_record_spec(*self, *ray, t as int),
            rec.t == t,
    {
        let p = ray.at(t);
        proof {
            lemma_abs_mul(
                p.x as int - center.x as int,
                SCALE as int,
                0x1041_0040_0000,
                SCALE as int,
            );
            lemma_abs_mul(
                p.y as int - center.y as int,
                SCALE as int,
                0x1041_0040_0000,
                SCALE as int,
            );
            lemma_abs_mul(
                p.z as int - center.z as int,
                SCALE as int,
                0x1041_0040_0000,
                SCALE as int,
            );
            lemma_tz_bound(
                (p.x as int - center.x as int) * SCALE as int,
                self.r as int,
                0x1041_0040_0000 * SCALE as int,
            );
            lemma_tz_bound(
                (p.y as int - center.y as int) * SCALE as int,
                self.r as int,
                0x1041_0040_0000 * SCALE as int,
            );
            lemma_tz_bound(
                (p.z as int - center.z as int) * SCALE as int,
                self.r as int,
                0x1041_0040_0000 * SCALE as int,
            );
        }
        let outward = Vec3 {
            x: div_fx(p.x - center.x, self.r),
            y: div_fx(p.y - center.y, self.r),
            z: div_fx(p.z - center.z, self.r),
        };
        assert(outward == sphere_outward(*self, *ray, t as int));
        let mut rec = HitRecord {
            point: p,
            normal: outward,
            t,
            u: 0,
            v: 0,
            front_face: false,
            material_ptr: self.material,
        };
        rec.set_face_normal(ray, &outward);
        rec
    }
}

} // verus!
