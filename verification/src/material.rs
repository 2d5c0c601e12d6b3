//! Materials: Lambertian diffuse, metal and dielectric. Scatter bodies are
//! simple closed-form value functions over the scalar model; their key
//! guarantees are stated bounds on the attenuation color and the scattered
//! ray, which the path tracer's loop relies on.

use vstd::prelude::*;
use crate::ray::Ray;
use crate::renderable::HitRecord;
use crate::texture::{RenderableTexture, color_in_unit, texture_wf, texture_value_spec};
use crate::util::{
    Color, Vec3, RandomSource, vec_in, dot_spec, len_spec, lemma_abs_mul, lemma_dot_bound,
    lemma_tz_bound, lemma_sqrt_floor_bounds, SCALE, DIR_MAX, ORIG_MAX,
};

verus! {

#[derive(Clone, Copy, Debug, PartialEq, Eq, Structural)]
pub enum RenderableMaterial {
    Lambertian(LambertianMaterial),
    Metal(Metal),
    Dielectric(Dielectric),
}

#[derive(Clone, Copy, Debug, PartialEq, Eq, Structural)]
pub struct LambertianMaterial {
    pub albedo: RenderableTexture,
}

#[derive(Clone, Copy, Debug, PartialEq, Eq, Structural)]
pub struct Metal {
    pub albedo: RenderableTexture,
    pub fuzziness: i64,
}

#[derive(Clone, Copy, Debug, PartialEq, Eq, Structural)]
pub struct Dielectric {
    pub ir: i64,
}

pub open spec fn material_wf(m: RenderableMaterial) -> bool {
    match m {
        RenderableMaterial::Lambertian(lm) => texture_wf(lm.albedo),
        RenderableMaterial::Metal(mt) => texture_wf(mt.albedo) && 0 <= mt.fuzziness < SCALE,
        RenderableMaterial::Dielectric(d) => SCALE / 2 <= d.ir <= 2 * SCALE,
    }
}

/// What a hit record must satisfy before a material may scatter from it:
/// the point within the reachable world, the normal within a few units.
pub open spec fn scatter_input_ok(r_in: Ray, rec: HitRecord) -> bool {
    &&& vec_in(rec.point, ORIG_MAX as int)
    &&& vec_in(rec.normal, 4 * SCALE as int)
    &&& vec_in(r_in.direction, DIR_MAX as int)
    &&& dot_spec(r_in.direction, r_in.direction) >= 1
    &&& 0 <= r_in.time <= SCALE
}

/// What every scatter guarantees of its output: the attenuation is a color
/// in the unit range, and the scattered ray starts at the hit point, keeps
/// the incoming time, and has a bounded direction.
pub open spec fn scatter_output_ok(r_in: Ray, rec: HitRecord, attenuation: Color, scattered: Ray) -> bool {
    &&& color_in_unit(attenuation)
    &&& scattered.origin == rec.point
    &&& scattered.time == r_in.time
    &&& vec_in(scattered.direction, DIR_MAX as int)
}

impl LambertianMaterial {
    pub fn new(albedo: RenderableTexture) -> (r: LambertianMaterial)
        ensures
            r.albedo == albedo,
    {
        LambertianMaterial { albedo }
    }

    pub fn scatter(&self, r_in: &Ray, hit_record: &HitRecord, rng: &mut RandomSource) -> (res: (
        bool,
        Color,
        Ray,
    ))
        requires
            texture_wf(self.albedo),
            scatter_input_ok(*r_in, *hit_record),
        ensures
            scatter_output_ok(*r_in, *hit_record, res.1, res.2),
            res.0 == true,
            res.1 == texture_value_spec(self.albedo, hit_record.point),
    {
        let rand_dir = Vec3::random_unit_vector(rng);
        let mut scatter_direction = hit_record.normal.add(rand_dir);
        if scatter_direction.near_zero() {
            scatter_direction = hit_record.normal;
        }
        let scattered = Ray::new_with_time(hit_record.point, scatter_direction, r_in.time);
        (true, self.albedo.value(0, 0, &hit_record.point), scattered)
    }
}

impl Metal {
    pub fn new(albedo: RenderableTexture, fuzziness: Option<i64>) -> (r: Metal)
        ensures
            r.albedo == albedo,
            r.fuzziness == (match fuzziness {
                Some(f) => if 0 <= f < SCALE { f } else { 0i64 },
                None => 0i64,
            }),
    {
        let f = match fuzziness {
            Some(f) => f,
            None => 0,
        };
        Metal { albedo, fuzziness: if 0 <= f && f < SCALE { f } else { 0 } }
    }

    pub fn scatter(&self, r_in: &Ray, hit_record: &HitRecord, rng: &mut RandomSource) -> (res: (
        bool,
        Color,
        Ray,
    ))
        requires
            texture_wf(self.albedo),
            0 <= self.fuzziness < SCALE,
            scatter_input_ok(*r_in, *hit_record),
        ensures
            scatter_output_ok(*r_in, *hit_record, res.1, res.2),
            res.1 == texture_value_spec(self.albedo, hit_record.point),
            res.0 == (dot_spec(res.2.direction, hit_record.normal) > 0),
    {
        proof {
            lemma_unit_len_at_least(r_in.direction);
        }
        let unit_dir = r_in.direction.unit_vector();
        let reflected = Vec3::reflect(unit_dir, hit_record.normal);
        let in_sphere = Vec3::random_in_unit_sphere(rng);
        proof {
            lemma_abs_mul(in_sphere.x as int, self.fuzziness as int, 0x400, 0x400);
            lemma_abs_mul(in_sphere.y as int, self.fuzziness as int, 0x400, 0x400);
            lemma_abs_mul(in_sphere.z as int, self.fuzziness as int, 0x400, 0x400);
            lemma_tz_bound(in_sphere.x as int * self.fuzziness as int, 1024, 0x10_0000);
            lemma_tz_bound(in_sphere.y as int * self.fuzziness as int, 1024, 0x10_0000);
            lemma_tz_bound(in_sphere.z as int * self.fuzziness as int, 1024, 0x10_0000);
        }
        let fuzz_dir = in_sphere.scale(self.fuzziness);
        let direction = reflected.add(fuzz_dir);
        let scattered = Ray::new_with_time(hit_record.point, direction, r_in.time);
        proof {
            lemma_dot_bound(direction, hit_record.normal, 0x81_0000, 4 * SCALE as int);
        }
        let align = scattered.direction.dot(hit_record.normal);
        (align > 0, self.albedo.value(0, 0, &hit_record.point), scattered)
    }
}

impl Dielectric {
    pub fn new(index_of_refraction: Option<i64>) -> (r: Dielectric)
        ensures
            r.ir == (match index_of_refraction {
                Some(ir) => if SCALE / 2 <= ir <= 2 * SCALE { ir } else { SCALE },
                None => SCALE,
            }),
            SCALE / 2 <= r.ir <= 2 * SCALE,
    {
        let ir = match index_of_refraction {
            Some(ir) => ir,
            None => SCALE,
        };
        Dielectric { ir: if SCALE / 2 <= ir && ir <= 2 * SCALE { ir } else { SCALE } }
    }

    /// Schlick's polynomial approximation of angle-dependent reflectance.
    fn reflectance(cosine: i64, ref_idx: i64) -> (r: i64)
        requires
            1 <= ref_idx <= 2 * SCALE,
            -SCALE <= cosine <= SCALE,
        ensures
            -0x1000_0000 <= r <= 0x1000_0000,
    {
        proof {
            lemma_abs_mul((SCALE - ref_idx) as int, SCALE as int, 0x400, 0x400);
            lemma_tz_bound((SCALE - ref_idx) as int * SCALE as int, (SCALE + ref_idx) as int, 0x10_0000);
        }
        let r0 = crate::util::div_fx(SCALE - ref_idx, SCALE + ref_idx);
        proof {
            lemma_abs_mul(r0 as int, r0 as int, 0x10_0000, 0x10_0000);
            lemma_tz_bound(r0 as int * r0 as int, 1024, 0x100_0000_0000);
        }
        let r0sq = crate::util::mul_fx(r0, r0);
        // (1 - cosine)^5, one truncated product at a time.
        let omc = SCALE - cosine;
        proof {
            lemma_abs_mul(omc as int, omc as int, 0x800, 0x800);
            lemma_tz_bound(omc as int * omc as int, 1024, 0x40_0000);
        }
        let p2 = crate::util::mul_fx(omc, omc);
        proof {
            lemma_abs_mul(p2 as int, p2 as int, 0x1000, 0x1000);
            lemma_tz_bound(p2 as int * p2 as int, 1024, 0x100_0000);
        }
        let p4 = crate::util::mul_fx(p2, p2);
        proof {
            lemma_abs_mul(p4 as int, omc as int, 0x4000, 0x800);
            lemma_tz_bound(p4 as int * omc as int, 1024, 0x200_0000);
        }
        let p5 = crate::util::mul_fx(p4, omc);
        proof {
            lemma_abs_mul((SCALE - r0sq) as int, p5 as int, 0x1_0000_0000, 0x8_0000);
            lemma_tz_bound((SCALE - r0sq) as int * p5 as int, 1024, 0x8_0000_0000_0000);
        }
        let tail = crate::util::mul_fx(SCALE - r0sq, p5);
        proof {
            lemma_abs_mul(r0sq as int, tail as int, 0x4000_0000, 0x200_0000_0000);
            lemma_tz_bound(r0sq as int * tail as int, 1024, 0x2000_0000_0000_0000_0000);
        }
        let prod = crate::util::mul_fx(r0sq, tail);
        crate::util::clamp(prod, -0x1000_0000, 0x1000_0000)
    }

    pub fn scatter(&self, r_in: &Ray, hit_record: &HitRecord, rng: &mut RandomSource) -> (res: (
        bool,
        Color,
        Ray,
    ))
        requires
            SCALE / 2 <= self.ir <= 2 * SCALE,
            scatter_input_ok(*r_in, *hit_record),
        ensures
            scatter_output_ok(*r_in, *hit_record, res.1, res.2),
            res.0 == true,
            res.1 == (Vec3 { x: SCALE as i64, y: SCALE as i64, z: SCALE as i64 }),
    {
        let attenuation = Vec3::new(SCALE, SCALE, SCALE);
        proof {
            lemma_abs_mul(SCALE as int, SCALE as int, 0x400, 0x400);
            lemma_tz_bound(0x10_0000, self.ir as int, 0x10_0000);
            vstd::arithmetic::div_mod::lemma_div_pos_is_pos(0x10_0000, self.ir as int);
            vstd::arithmetic::div_mod::lemma_div_is_ordered_by_denominator(
                0x10_0000,
                512,
                self.ir as int,
            );
            assert(SCALE as int * SCALE as int == 0x10_0000) by (nonlinear_arith);
        }
        let refraction_ratio = if hit_record.front_face {
            crate::util::div_fx(SCALE, self.ir)
        } else {
            self.ir
        };
        assert(0 <= refraction_ratio <= 2 * SCALE);
        proof {
            lemma_unit_len_at_least(r_in.direction);
        }
        let unit_direction = r_in.direction.unit_vector();

        proof {
            lemma_dot_bound(unit_direction, hit_record.normal, 34816, 4 * SCALE as int);
        }
        let d = unit_direction.dot(hit_record.normal);
        let cos_theta = if -d < SCALE {
            -d
        } else {
            SCALE
        };
        // sin^2 = 1 - cos^2; refraction is impossible when the scaled sine
        // exceeds one, and sometimes rejected at random (Schlick).
        proof {
            lemma_abs_mul(cos_theta as int, cos_theta as int, 0x80_0000, 0x80_0000);
            lemma_tz_bound(cos_theta as int * cos_theta as int, 1024, 0x4000_0000_0000);
            assert(cos_theta as int * cos_theta as int >= 0) by (nonlinear_arith);
            vstd::arithmetic::div_mod::lemma_div_pos_is_pos(
                cos_theta as int * cos_theta as int,
                SCALE as int,
            );
        }
        let cos_sq = crate::util::mul_fx(cos_theta, cos_theta);
        let sin_sq = if SCALE - cos_sq >= 0 {
            SCALE - cos_sq
        } else {
            0
        };
        let sin_theta = crate::util::isqrt_i64(sin_sq);
        proof {
            lemma_sqrt_floor_bounds(sin_sq as int);
            assert(sin_theta <= SCALE) by (nonlinear_arith)
                requires
                    sin_theta >= 0,
                    sin_theta * sin_theta <= sin_sq,
                    sin_sq <= SCALE,
            ;
            lemma_abs_mul(refraction_ratio as int, sin_theta as int, 0x800, 0x400);
            lemma_tz_bound(refraction_ratio as int * sin_theta as int, 1024, 0x20_0000);
        }
        let cannot_refract = crate::util::mul_fx(refraction_ratio, sin_theta) > SCALE;
        let cos_clamped = crate::util::clamp(cos_theta, -SCALE, SCALE);
        let reflect_anyway = Self::reflectance(cos_clamped, self.ir) > rng.random_between_0_1();
        let direction = if cannot_refract || reflect_anyway {
            Vec3::reflect(unit_direction, hit_record.normal)
        } else {
            Vec3::refract(unit_direction, hit_record.normal, refraction_ratio)
        };
        let scattered = Ray::new_with_time(hit_record.point, direction, r_in.time);
        (true, attenuation, scattered)
    }
}

/// A direction with a square dot of at least one raw unit is at least one
/// raw unit long.
pub proof fn lemma_unit_len_at_least(v: Vec3)
    requires
        dot_spec(v, v) >= 1,
    ensures
        len_spec(v) >= 1,
{
    lemma_sqrt_floor_bounds(SCALE as int * dot_spec(v, v));
    let l = len_spec(v);
    assert(l >= 1) by (nonlinear_arith)
        requires
            l >= 0,
            SCALE as int * dot_spec(v, v) >= 1024,
            SCALE as int * dot_spec(v, v) < (l + 1) * (l + 1),
    ;
}

impl RenderableMaterial {
    pub fn scatter(&self, r_in: &Ray, hit_record: &HitRecord, rng: &mut RandomSource) -> (res: (
        bool,
        Color,
        Ray,
    ))
        requires
            material_wf(*self),
            scatter_input_ok(*r_in, *hit_record),
        ensures
            scatter_output_ok(*r_in, *hit_record, res.1, res.2),
    {
        match self {
            RenderableMaterial::Lambertian(lm) => lm.scatter(r_in, hit_record, rng),
            RenderableMaterial::Metal(m) => m.scatter(r_in, hit_record, rng),
            RenderableMaterial::Dielectric(d) => d.scatter(r_in, hit_record, rng),
        }
    }
}

} // verus!
