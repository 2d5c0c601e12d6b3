//! The camera: an orthonormal-ish frame built from a view axis and an up
//! vector, a focus plane, and a lens for defocus blur.
//!
//! Trigonometry stays outside the library: the constructor takes the tangent
//! of half the vertical field of view as a ready scalar.

use vstd::prelude::*;
use crate::ray::Ray;
use crate::util::{
    Point, Vec3, RandomSource, vec_in, sub_spec, add_spec, scale_spec, cross_spec, unit_spec,
    len_spec, fxmul, mul_fx, lemma_abs_mul, lemma_tz_bound, SCALE, WORLD_MAX, ORIG_MAX, DIR_MAX,
};

verus! {

#[derive(Clone, Copy, Debug, PartialEq, Eq, Structural)]
pub struct Camera {
    pub origin: Point,
    pub lower_left_corner: Point,
    pub horizontal: Vec3,
    pub vertical: Vec3,
    pub u: Vec3,
    pub v: Vec3,
    pub w: Vec3,
    pub lens_radius: i64,
}

/// Field bounds every ray-generating method relies on.
pub open spec fn camera_wf(c: Camera) -> bool {
    &&& vec_in(c.origin, WORLD_MAX as int)
    &&& vec_in(c.u, 0x1000)
    &&& vec_in(c.v, 0x1000)
    &&& vec_in(c.w, 0x1000)
    &&& vec_in(c.horizontal, 0x80_0000)
    &&& vec_in(c.vertical, 0x80_0000)
    &&& vec_in(c.lower_left_corner, 0x100_0000)
    &&& 0 <= c.lens_radius <= SCALE
}

impl Camera {
    /// Build the camera frame. `half_height` is the tangent of half the
    /// vertical field of view, as a scalar; the view axis must be at least a
    /// unit long and may not be within thirty degrees of the up vector.
    #[verifier::rlimit(60)]
    pub fn new(
        look_from: Point,
        look_at: Point,
        vup: Vec3,
        half_height: i64,
        aspect_ratio: i64,
        aperture: i64,
        focus_distance: i64,
    ) -> (c: Camera)
        requires
            vec_in(look_from, WORLD_MAX as int),
            vec_in(look_at, WORLD_MAX as int),
            vec_in(vup, 4 * SCALE as int),
            1 <= half_height <= 8 * SCALE as int,
            1 <= aspect_ratio <= 8 * SCALE as int,
            0 <= aperture <= 2 * SCALE as int,
            1 <= focus_distance <= 0x8000,
            len_spec(sub_spec(look_from, look_at)) >= SCALE,
            len_spec(cross_spec(vup, unit_spec(sub_spec(look_from, look_at)))) >= SCALE / 2,
        ensures
            camera_wf(c),
            c.origin == look_from,
            c.w == unit_spec(sub_spec(look_from, look_at)),
            c.u == unit_spec(cross_spec(vup, c.w)),
            c.v == cross_spec(c.w, c.u),
            c.horizontal == scale_spec(
                c.u,
                fxmul(focus_distance as int, fxmul(aspect_ratio as int, 2 * half_height as int)),
            ),
            c.vertical == scale_spec(c.v, fxmul(focus_distance as int, 2 * half_height as int)),
            c.lower_left_corner == sub_spec(
                sub_spec(
                    sub_spec(look_from, scale_spec(c.horizontal, 512)),
                    scale_spec(c.vertical, 512),
                ),
                scale_spec(c.w, focus_distance as int),
            ),
            c.lens_radius == fxmul(aperture as int, 512),
    {
        let viewport_height: i64 = 2 * half_height;
        proof {
            lemma_abs_mul(aspect_ratio as int, viewport_height as int, 0x2000, 0x4000);
            lemma_tz_bound(aspect_ratio as int * viewport_height as int, 1024, 0x800_0000);
        }
        let viewport_width = mul_fx(aspect_ratio, viewport_height);
        let w = look_from.sub(look_at).unit_vector();
        let cross_vw = Vec3::cross(vup, w);
        proof {
            lemma_abs_mul(vup.y as int, w.z as int, 4096, 1090);
            lemma_abs_mul(vup.z as int, w.y as int, 4096, 1090);
            lemma_abs_mul(vup.z as int, w.x as int, 4096, 1090);
            lemma_abs_mul(vup.x as int, w.z as int, 4096, 1090);
            lemma_abs_mul(vup.x as int, w.y as int, 4096, 1090);
            lemma_abs_mul(vup.y as int, w.x as int, 4096, 1090);
            lemma_tz_bound(vup.y as int * w.z as int - vup.z as int * w.y as int, 1024, 8929280);
            lemma_tz_bound(vup.z as int * w.x as int - vup.x as int * w.z as int, 1024, 8929280);
            lemma_tz_bound(vup.x as int * w.y as int - vup.y as int * w.x as int, 1024, 8929280);
        }
        let u = cross_vw.unit_vector();
        let v = Vec3::cross(w, u);
        proof {
            // v's components: one truncated difference of unit-vector products.
            lemma_abs_mul(w.y as int, u.z as int, 1090, 1090);
            lemma_abs_mul(w.z as int, u.y as int, 1090, 1090);
            lemma_abs_mul(w.z as int, u.x as int, 1090, 1090);
            lemma_abs_mul(w.x as int, u.z as int, 1090, 1090);
            lemma_abs_mul(w.x as int, u.y as int, 1090, 1090);
            lemma_abs_mul(w.y as int, u.x as int, 1090, 1090);
            lemma_tz_bound(w.y as int * u.z as int - w.z as int * u.y as int, 1024, 2376200);
            assert(2 * (1090int * 1090int) <= 2376200);
            lemma_tz_bound(w.z as int * u.x as int - w.x as int * u.z as int, 1024, 2376200);
            lemma_tz_bound(w.x as int * u.y as int - w.y as int * u.x as int, 1024, 2376200);
        }
        let origin = look_from;
        proof {
            lemma_abs_mul(focus_distance as int, viewport_width as int, 0x8000, 0x2_0000);
            lemma_tz_bound(focus_distance as int * viewport_width as int, 1024, 0x1_0000_0000);
        }
        let horiz_len = mul_fx(focus_distance, viewport_width);
        proof {
            lemma_abs_mul(u.x as int, horiz_len as int, 1090, 0x40_0000);
            lemma_abs_mul(u.y as int, horiz_len as int, 1090, 0x40_0000);
            lemma_abs_mul(u.z as int, horiz_len as int, 1090, 0x40_0000);
            lemma_tz_bound(u.x as int * horiz_len as int, 1024, 4571791360);
            lemma_tz_bound(u.y as int * horiz_len as int, 1024, 4571791360);
            lemma_tz_bound(u.z as int * horiz_len as int, 1024, 4571791360);
        }
        let horizontal = u.scale(horiz_len);
        proof {
            lemma_abs_mul(focus_distance as int, viewport_height as int, 0x8000, 0x4000);
            lemma_tz_bound(focus_distance as int * viewport_height as int, 1024, 0x2000_0000);
        }
        let vert_len = mul_fx(focus_distance, viewport_height);
        proof {
            lemma_abs_mul(v.x as int, vert_len as int, 2321, 0x8_0000);
            lemma_abs_mul(v.y as int, vert_len as int, 2321, 0x8_0000);
            lemma_abs_mul(v.z as int, vert_len as int, 2321, 0x8_0000);
            lemma_tz_bound(v.x as int * vert_len as int, 1024, 1216872448);
            lemma_tz_bound(v.y as int * vert_len as int, 1024, 1216872448);
            lemma_tz_bound(v.z as int * vert_len as int, 1024, 1216872448);
        }
        let vertical = v.scale(vert_len);
        proof {
            lemma_scale_half_bounds(horizontal, 0x400_0000);
            lemma_scale_half_bounds(vertical, 0x200_0000);
            lemma_abs_mul(w.x as int, focus_distance as int, 0x1000, 0x8000);
            lemma_abs_mul(w.y as int, focus_distance as int, 0x1000, 0x8000);
            lemma_abs_mul(w.z as int, focus_distance as int, 0x1000, 0x8000);
            lemma_tz_bound(w.x as int * focus_distance as int, 1024, 0x800_0000);
            lemma_tz_bound(w.y as int * focus_distance as int, 1024, 0x800_0000);
            lemma_tz_bound(w.z as int * focus_distance as int, 1024, 0x800_0000);
        }
        let lower_left_corner = origin.sub(horizontal.scale(512)).sub(vertical.scale(512)).sub(
            w.scale(focus_distance),
        );
        proof {
            lemma_abs_mul(aperture as int, 512, 0x800, 512);
            lemma_tz_bound(aperture as int * 512, 1024, 0x10_0000);
            assert(0 <= aperture as int * 512) by (nonlinear_arith)
                requires
                    aperture >= 0,
            ;
            vstd::arithmetic::div_mod::lemma_div_pos_is_pos(aperture as int * 512, 1024);
            vstd::arithmetic::div_mod::lemma_div_is_ordered(aperture as int * 512, 0x10_0000, 1024);
        }
        let lens_radius = mul_fx(aperture, 512);
        Camera { origin, lower_left_corner, horizontal, vertical, u, v, w, lens_radius }
    }

    /// A ray from a random spot on the lens toward the viewport point
    /// `(s, t)`, at a random time within the exposure. Wherever the lens
    /// sample lands, the ray passes through the viewport point: origin plus
    /// direction is exactly `lower_left_corner + s * horizontal + t *
    /// vertical`, since the lens offset cancels.
    pub fn get_ray(&self, s: i64, t: i64, rng: &mut RandomSource) -> (r: Ray)
        requires
            camera_wf(*self),
            0 <= s <= SCALE,
            0 <= t <= SCALE,
        ensures
            vec_in(r.origin, ORIG_MAX as int),
            vec_in(r.direction, DIR_MAX as int),
            0 <= r.time < SCALE,
            add_spec(r.origin, r.direction) == add_spec(
                add_spec(self.lower_left_corner, scale_spec(self.horizontal, s as int)),
                scale_spec(self.vertical, t as int),
            ),
    {
        let disk_samp = Vec3::random_in_unit_disk(rng);
        proof {
            lemma_abs_mul(disk_samp.x as int, self.lens_radius as int, 0x400, 0x400);
            lemma_abs_mul(disk_samp.y as int, self.lens_radius as int, 0x400, 0x400);
            lemma_abs_mul(disk_samp.z as int, self.lens_radius as int, 0x400, 0x400);
            lemma_tz_bound(disk_samp.x as int * self.lens_radius as int, 1024, 0x10_0000);
            lemma_tz_bound(disk_samp.y as int * self.lens_radius as int, 1024, 0x10_0000);
            lemma_tz_bound(disk_samp.z as int * self.lens_radius as int, 1024, 0x10_0000);
        }
        let lens = disk_samp.scale(self.lens_radius);
        proof {
            lemma_abs_mul(self.u.x as int, lens.x as int, 0x1000, 0x400);
            lemma_abs_mul(self.u.y as int, lens.x as int, 0x1000, 0x400);
            lemma_abs_mul(self.u.z as int, lens.x as int, 0x1000, 0x400);
            lemma_abs_mul(self.v.x as int, lens.y as int, 0x1000, 0x400);
            lemma_abs_mul(self.v.y as int, lens.y as int, 0x1000, 0x400);
            lemma_abs_mul(self.v.z as int, lens.y as int, 0x1000, 0x400);
            lemma_tz_bound(self.u.x as int * lens.x as int, 1024, 0x40_0000);
            lemma_tz_bound(self.u.y as int * lens.x as int, 1024, 0x40_0000);
            lemma_tz_bound(self.u.z as int * lens.x as int, 1024, 0x40_0000);
            lemma_tz_bound(self.v.x as int * lens.y as int, 1024, 0x40_0000);
            lemma_tz_bound(self.v.y as int * lens.y as int, 1024, 0x40_0000);
            lemma_tz_bound(self.v.z as int * lens.y as int, 1024, 0x40_0000);
        }
        let offset = self.u.scale(lens.x).add(self.v.scale(lens.y));
        let ray_time = rng.random_between_0_1();
        proof {
            lemma_abs_mul(self.horizontal.x as int, s as int, 0x80_0000, 0x400);
            lemma_abs_mul(self.horizontal.y as int, s as int, 0x80_0000, 0x400);
            lemma_abs_mul(self.horizontal.z as int, s as int, 0x80_0000, 0x400);
            lemma_abs_mul(self.vertical.x as int, t as int, 0x80_0000, 0x400);
            lemma_abs_mul(self.vertical.y as int, t as int, 0x80_0000, 0x400);
            lemma_abs_mul(self.vertical.z as int, t as int, 0x80_0000, 0x400);
            lemma_tz_bound(self.horizontal.x as int * s as int, 1024, 0x2_0000_0000);
            lemma_tz_bound(self.horizontal.y as int * s as int, 1024, 0x2_0000_0000);
            lemma_tz_bound(self.horizontal.z as int * s as int, 1024, 0x2_0000_0000);
            lemma_tz_bound(self.vertical.x as int * t as int, 1024, 0x2_0000_0000);
            lemma_tz_bound(self.vertical.y as int * t as int, 1024, 0x2_0000_0000);
            lemma_tz_bound(self.vertical.z as int * t as int, 1024, 0x2_0000_0000);
        }
        let direction = self.lower_left_corner.add(self.horizontal.scale(s)).add(
            self.vertical.scale(t),
        ).sub(self.origin).sub(offset);
        Ray::new_with_time(self.origin.add(offset), direction, ray_time)
    }
}

/// Halving a bounded vector by the scalar one-half keeps it bounded.
proof fn lemma_scale_half_bounds(v: Vec3, m: int)
    requires
        vec_in(v, m),
        0 <= m <= 0x1000_0000_0000,
    ensures
        vec_in(scale_spec(v, 512), m),
{
    lemma_abs_mul(v.x as int, 512, m, 512);
    lemma_abs_mul(v.y as int, 512, m, 512);
    lemma_abs_mul(v.z as int, 512, m, 512);
    lemma_tz_bound(v.x as int * 512, 1024, m * 512);
    lemma_tz_bound(v.y as int * 512, 1024, m * 512);
    lemma_tz_bound(v.z as int * 512, 1024, m * 512);
    vstd::arithmetic::div_mod::lemma_div_is_ordered(m * 512, m * 1024, 1024);
    vstd::arithmetic::div_mod::lemma_div_by_multiple(m, 1024);
}

} // verus!
