//! The path tracer's color evaluation and the sample-accumulation renderer.
//!
//! Ray color is a bounded loop over an attenuation product, never true
//! recursion: stack use is independent of the bounce limit. The parallel
//! scheduler's decisions live here too — how many samples each worker owns
//! and how partial accumulation buffers merge — while threads and channels
//! stay with the embedding program.

use vstd::prelude::*;
use vstd::arithmetic::div_mod::{lemma_fundamental_div_mod_converse, lemma_div_pos_is_pos, lemma_div_is_ordered};
use crate::aabb::{BvhNode, bvh_wf, bvh_hit_t, bvh_objects};
use crate::material::material_wf;
use crate::ray::Ray;
use crate::renderable::{
    RenderableList, Object, HitRecord, list_wf, best_hit_t, object_hit_t, object_record,
};
use crate::scene::{Scene, scene_wf};
use crate::texture::color_in_unit;
use crate::util::{
    Color, Vec3, Interval, RandomSource, vec_in, dot_spec, unit_spec, fxmul, mul_fx, mul_spec,
    add_spec, scale_spec, tz, sqrt_floor, clamp_spec, isqrt_i64, tz_div_i128, clamp, lemma_abs_mul,
    lemma_tz_bound, lemma_dot_bound, lemma_sqrt_floor_bounds, SCALE, ORIG_MAX, DIR_MAX, T_LIMIT,
};

verus! {

/// An accumulation of `n` unit-range color samples: every component within
/// `[0, n * SCALE]`.
pub open spec fn accum_in_range(c: Color, n: int) -> bool {
    &&& 0 <= c.x <= n * SCALE
    &&& 0 <= c.y <= n * SCALE
    &&& 0 <= c.z <= n * SCALE
}

/// The fixed bounce budget of the color evaluation.
pub const BOUNCE_DEPTH: i32 = 50;

/// One more than the largest emitted channel value.
pub const COLOR_LIM: i64 = 256;

/// The procedural sky: a vertical gradient in the unit direction's height,
/// clamped into the unit range. A ray too short to normalize counts as
/// horizontal.
pub open spec fn skybox_spec(r: Ray) -> Color {
    let uy = if dot_spec(r.direction, r.direction) >= 1 {
        clamp_spec(unit_spec(r.direction).y as int, -(SCALE as int), SCALE as int)
    } else {
        0
    };
    let t = fxmul(512, uy + SCALE);
    add_spec(
        scale_spec(Vec3 { x: SCALE as i64, y: SCALE as i64, z: SCALE as i64 }, SCALE - t),
        scale_spec(Vec3 { x: 512i64, y: 716i64, z: SCALE as i64 }, t),
    )
}

/// The sky color of a missed ray.
fn skybox(ray: &Ray) -> (c: Color)
    requires
        vec_in(ray.direction, DIR_MAX as int),
    ensures
        c == skybox_spec(*ray),
        color_in_unit(c),
{
    proof {
        lemma_dot_bound(ray.direction, ray.direction, 0x400_0000, 0x400_0000);
    }
    let a = ray.direction.dot(ray.direction);
    let uy: i64;
    if a >= 1 {
        proof {
            crate::material::lemma_unit_len_at_least(ray.direction);
        }
        let unit_direction = ray.direction.unit_vector();
        uy = clamp(unit_direction.y, -SCALE, SCALE);
    } else {
        uy = 0;
    }
    proof {
        lemma_abs_mul(512, uy as int + SCALE as int, 512, 2048);
        lemma_tz_bound(512 * (uy as int + SCALE as int), 1024, 0x10_0000);
        assert(0 <= 512 * (uy as int + SCALE as int)) by (nonlinear_arith)
            requires
                uy as int + SCALE as int >= 0,
        ;
        lemma_div_pos_is_pos(512 * (uy as int + SCALE as int), 1024);
        assert(512 * (uy as int + SCALE as int) <= 1024 * 1024) by (nonlinear_arith)
            requires
                uy <= 1024,
        ;
        lemma_div_is_ordered(512 * (uy as int + SCALE as int), 1048576int, 1024);
    }
    let t = mul_fx(512, uy + SCALE);
    assert(0 <= t <= 1024);
    proof {
        lemma_sky_channel(SCALE as int, t as int);
        lemma_sky_channel(512, t as int);
        lemma_sky_channel(716, t as int);
        lemma_abs_mul(SCALE as int, SCALE as int - t as int, 1024, 1024);
        lemma_tz_bound(SCALE as int * (SCALE as int - t as int), 1024, 0x10_0000);
        assert(0 <= SCALE as int * (SCALE as int - t as int)) by (nonlinear_arith)
            requires
                0 <= t <= 1024,
        ;
        lemma_div_pos_is_pos(SCALE as int * (SCALE as int - t as int), 1024);
        assert(fxmul(SCALE as int, (SCALE - t) as int) == (SCALE - t) as int) by {
            vstd::arithmetic::div_mod::lemma_div_by_multiple((SCALE - t) as int, 1024);
            assert(SCALE as int * (SCALE as int - t as int) == (SCALE as int - t as int) * 1024)
                by (nonlinear_arith);
        }
    }
    let white = Vec3::new(SCALE, SCALE, SCALE);
    let blue = Vec3::new(512, 716, SCALE);
    white.scale(SCALE - t).add(blue.scale(t))
}

/// One sky channel: the blended value stays within the unit range.
proof fn lemma_sky_channel(base: int, t: int)
    requires
        0 <= base <= SCALE,
        0 <= t <= SCALE,
    ensures
        0 <= fxmul(base, t) <= t,
        i64::MIN as int <= base * t <= i64::MAX as int,
{
    lemma_abs_mul(base, t, 1024, 1024);
    assert(0 <= base * t <= 1024 * t) by (nonlinear_arith)
        requires
            0 <= base <= 1024,
            0 <= t,
    ;
    lemma_div_pos_is_pos(base * t, 1024);
    lemma_div_is_ordered(base * t, 1024 * t, 1024);
    assert((1024 * t) / 1024 == t) by {
        vstd::arithmetic::div_mod::lemma_div_by_multiple(t, 1024);
        assert(1024 * t == t * 1024) by (nonlinear_arith);
    }
}

/// Scaling a unit-range color by full white changes nothing.
proof fn lemma_full_attenuation_identity(c: Color)
    requires
        color_in_unit(c),
    ensures
        (Vec3 {
            x: fxmul(SCALE as int, c.x as int) as i64,
            y: fxmul(SCALE as int, c.y as int) as i64,
            z: fxmul(SCALE as int, c.z as int) as i64,
        }) == c,
{
    lemma_full_attenuation_axis(c.x as int);
    lemma_full_attenuation_axis(c.y as int);
    lemma_full_attenuation_axis(c.z as int);
}

proof fn lemma_full_attenuation_axis(v: int)
    requires
        0 <= v <= SCALE,
    ensures
        fxmul(SCALE as int, v) == v,
{
    vstd::arithmetic::div_mod::lemma_div_by_multiple(v, 1024);
    assert(SCALE as int * v == v * 1024) by (nonlinear_arith);
}

/// The blue channel of the sky gradient is always exactly one: the gradient
/// blends toward pure blue-white, both of which are full in that channel.
pub proof fn lemma_skybox_full_z(r: Ray)
    ensures
        skybox_spec(r).z == SCALE,
{
    let uy = if dot_spec(r.direction, r.direction) >= 1 {
        clamp_spec(unit_spec(r.direction).y as int, -(SCALE as int), SCALE as int)
    } else {
        0
    };
    let t = fxmul(512, uy + SCALE);
    assert(0 <= 512 * (uy + SCALE)) by (nonlinear_arith)
        requires
            uy + SCALE >= 0,
    ;
    lemma_div_pos_is_pos(512 * (uy + SCALE), 1024);
    assert(512 * (uy + SCALE) <= 1024 * 1024) by (nonlinear_arith)
        requires
            uy <= 1024,
    ;
    lemma_div_is_ordered(512 * (uy + SCALE), 1048576int, 1024);
    lemma_full_attenuation_axis(SCALE - t);
    lemma_full_attenuation_axis(t);
}

/// The sky gradient is a unit-range color.
pub proof fn lemma_skybox_in_unit(r: Ray)
    ensures
        color_in_unit(skybox_spec(r)),
{
    let uy = if dot_spec(r.direction, r.direction) >= 1 {
        clamp_spec(unit_spec(r.direction).y as int, -(SCALE as int), SCALE as int)
    } else {
        0
    };
    let t = fxmul(512, uy + SCALE);
    assert(0 <= 512 * (uy + SCALE)) by (nonlinear_arith)
        requires
            uy + SCALE >= 0,
    ;
    lemma_div_pos_is_pos(512 * (uy + SCALE), 1024);
    assert(512 * (uy + SCALE) <= 1024 * 1024) by (nonlinear_arith)
        requires
            uy <= 1024,
    ;
    lemma_div_is_ordered(512 * (uy + SCALE), 1048576int, 1024);
    lemma_sky_channel(SCALE as int, t);
    lemma_sky_channel(512, t);
    lemma_sky_channel(716, t);
    lemma_full_attenuation_axis(SCALE - t);
}

/// One bounce's bookkeeping, the scatter outcome already drawn: a declined
/// scatter absorbs the sample, an accepted one multiplies the attenuation by
/// the scatter color and continues with the scattered ray — the recursion of
/// the color evaluation, one step at a time.
pub fn apply_scatter(attenuation: Color, did_scatter: bool, scatter_color: Color, scattered: Ray) -> (res:
    Option<(Color, Ray)>)
    requires
        color_in_unit(attenuation),
        color_in_unit(scatter_color),
    ensures
        !did_scatter ==> res is None,
        did_scatter ==> res == Some((mul_spec(attenuation, scatter_color), scattered)),
        res matches Some(p) ==> color_in_unit(p.0),
{
    if !did_scatter {
        return None;
    }
    proof {
        lemma_unit_products_stay_unit(attenuation, scatter_color);
        lemma_abs_mul(attenuation.x as int, scatter_color.x as int, 1024, 1024);
        lemma_abs_mul(attenuation.y as int, scatter_color.y as int, 1024, 1024);
        lemma_abs_mul(attenuation.z as int, scatter_color.z as int, 1024, 1024);
    }
    Some((attenuation.mul(scatter_color), scattered))
}

/// A missed ray closes its sample with the attenuated sky gradient.
pub fn finish_with_sky(attenuation: Color, cur: &Ray) -> (c: Color)
    requires
        color_in_unit(attenuation),
        vec_in(cur.direction, DIR_MAX as int),
    ensures
        c == mul_spec(attenuation, skybox_spec(*cur)),
        color_in_unit(c),
{
    let sky = skybox(cur);
    proof {
        lemma_unit_products_stay_unit(attenuation, sky);
        lemma_abs_mul(attenuation.x as int, sky.x as int, 1024, 1024);
        lemma_abs_mul(attenuation.y as int, sky.y as int, 1024, 1024);
        lemma_abs_mul(attenuation.z as int, sky.z as int, 1024, 1024);
    }
    attenuation.mul(sky)
}

/// Extract what a reported record guarantees: it came from a well-formed
/// sphere of the list, so its material is well-formed, its parameter is a
/// sphere hit, and its fields follow the record formulas.
proof fn lemma_record_fields(objs: Seq<Object>, r: Ray, imin: int, rec: HitRecord, i: int)
    requires
        0 <= i < objs.len(),
        object_wf_at(objs, i),
        object_hit_t(objs[i], r, imin, rec.t as int) == Some(rec.t as int),
        rec == object_record(objs[i], r, rec.t as int),
    ensures
        material_wf(rec.material_ptr),
        dot_spec(r.direction, r.direction) >= 1,
{
    match objs[i] {
        Object::Sphere(s) => {},
        Object::AABB(b) => {
            assert(false);
        },
    }
}

pub open spec fn object_wf_at(objs: Seq<Object>, i: int) -> bool {
    crate::renderable::object_wf(objs[i])
}

/// Evaluate one ray against the flat list: bounce up to the budget, keep the
/// attenuation product, and close with the sky on a miss or black on
/// exhaustion or absorption. A ray that misses everything at the first query
/// returns exactly the sky gradient.
pub fn ray_color_world(ray: &Ray, world: &RenderableList, rng: &mut RandomSource) -> (c: Color)
    requires
        list_wf(*world),
        vec_in(ray.origin, ORIG_MAX as int),
        vec_in(ray.direction, DIR_MAX as int),
        0 <= ray.time <= SCALE,
    ensures
        color_in_unit(c),
        best_hit_t(world.objects@, *ray, 1, T_LIMIT as int) is None ==> c == skybox_spec(*ray),
    {
    let mut attenuation = Vec3::new(SCALE, SCALE, SCALE);
    let mut cur: Ray = *ray;
    let mut depth: i32 = 0;
    while depth < BOUNCE_DEPTH
        invariant
            list_wf(*world),
            vec_in(cur.origin, ORIG_MAX as int),
            vec_in(cur.direction, DIR_MAX as int),
            0 <= cur.time <= SCALE,
            color_in_unit(attenuation),
            depth == 0 ==> cur == *ray && attenuation == (Vec3 {
                x: SCALE as i64,
                y: SCALE as i64,
                z: SCALE as i64,
            }),
            depth > 0 ==> best_hit_t(world.objects@, *ray, 1, T_LIMIT as int) is Some,
            0 <= depth <= BOUNCE_DEPTH,
        decreases BOUNCE_DEPTH - depth,
    {
        let hit = world.hit(&cur, Interval { min: 1, max: T_LIMIT });
        match hit {
            None => {
                let c = finish_with_sky(attenuation, &cur);
                proof {
                    if depth == 0 {
                        lemma_skybox_in_unit(cur);
                        lemma_full_attenuation_identity(skybox_spec(cur));
                    }
                }
                return c;
            },
            Some(rec) => {
                // Guards: the record must be geometrically tame before the
                // material may scatter from it; a wild one is absorbed.
                if rec.normal.x < -4096 || rec.normal.x > 4096 || rec.normal.y < -4096
                    || rec.normal.y > 4096 || rec.normal.z < -4096 || rec.normal.z > 4096 {
                    return Vec3::zero();
                }
                if rec.point.x < -ORIG_MAX || rec.point.x > ORIG_MAX || rec.point.y < -ORIG_MAX
                    || rec.point.y > ORIG_MAX || rec.point.z < -ORIG_MAX || rec.point.z > ORIG_MAX {
                    return Vec3::zero();
                }
                proof {
                    let i = choose|i: int|
                        0 <= i < world.objects@.len() && object_hit_t(
                            #[trigger] world.objects@[i],
                            cur,
                            1,
                            rec.t as int,
                        ) == Some(rec.t as int) && rec == object_record(
                            world.objects@[i],
                            cur,
                            rec.t as int,
                        );
                    assert(object_wf_at(world.objects@, i));
                    lemma_record_fields(world.objects@, cur, 1, rec, i);
                }
                let (did_scatter, scatter_color, scatter_ray) = rec.material_ptr.scatter(
                    &cur,
                    &rec,
                    rng,
                );
                match apply_scatter(attenuation, did_scatter, scatter_color, scatter_ray) {
                    None => {
                        return Vec3::zero();
                    },
                    Some(bounced) => {
                        attenuation = bounced.0;
                        cur = bounced.1;
                        depth = depth + 1;
                    },
                }
            },
        }
    }
    Vec3::zero()
}

/// The product of two unit-range colors stays in the unit range.
proof fn lemma_unit_products_stay_unit(a: Color, b: Color)
    requires
        color_in_unit(a),
        color_in_unit(b),
    ensures
        color_in_unit(
            Vec3 {
                x: fxmul(a.x as int, b.x as int) as i64,
                y: fxmul(a.y as int, b.y as int) as i64,
                z: fxmul(a.z as int, b.z as int) as i64,
            },
        ),
{
    lemma_unit_product_axis(a.x as int, b.x as int);
    lemma_unit_product_axis(a.y as int, b.y as int);
    lemma_unit_product_axis(a.z as int, b.z as int);
}

proof fn lemma_unit_product_axis(a: int, b: int)
    requires
        0 <= a <= SCALE,
        0 <= b <= SCALE,
    ensures
        0 <= fxmul(a, b) <= SCALE,
{
    lemma_abs_mul(a, b, 1024, 1024);
    assert(a * b >= 0) by (nonlinear_arith)
        requires
            a >= 0,
            b >= 0,
    ;
    lemma_div_pos_is_pos(a * b, 1024);
    lemma_div_is_ordered(a * b, 1048576int, 1024);
}

/// The same evaluation driven by the hierarchy instead of the flat list.
pub fn ray_color_bvh_node(ray: &Ray, root: &BvhNode, rng: &mut RandomSource) -> (c: Color)
    requires
        bvh_wf(*root),
        vec_in(ray.origin, ORIG_MAX as int),
        vec_in(ray.direction, DIR_MAX as int),
        0 <= ray.time <= SCALE,
    ensures
        color_in_unit(c),
        bvh_hit_t(*root, *ray, 1, T_LIMIT as int) is None ==> c == skybox_spec(*ray),
    {
    let mut attenuation = Vec3::new(SCALE, SCALE, SCALE);
    let mut cur: Ray = *ray;
    let mut depth: i32 = 0;
    while depth < BOUNCE_DEPTH
        invariant
            bvh_wf(*root),
            vec_in(cur.origin, ORIG_MAX as int),
            vec_in(cur.direction, DIR_MAX as int),
            0 <= cur.time <= SCALE,
            color_in_unit(attenuation),
            depth == 0 ==> cur == *ray && attenuation == (Vec3 {
                x: SCALE as i64,
                y: SCALE as i64,
                z: SCALE as i64,
            }),
            depth > 0 ==> bvh_hit_t(*root, *ray, 1, T_LIMIT as int) is Some,
            0 <= depth <= BOUNCE_DEPTH,
        decreases BOUNCE_DEPTH - depth,
    {
        let hit = root.hit(&cur, Interval { min: 1, max: T_LIMIT });
        match hit {
            None => {
                let c = finish_with_sky(attenuation, &cur);
                proof {
                    if depth == 0 {
                        lemma_skybox_in_unit(cur);
                        lemma_full_attenuation_identity(skybox_spec(cur));
                    }
                }
                return c;
            },
            Some(rec) => {
                if rec.normal.x < -4096 || rec.normal.x > 4096 || rec.normal.y < -4096
                    || rec.normal.y > 4096 || rec.normal.z < -4096 || rec.normal.z > 4096 {
                    return Vec3::zero();
                }
                if rec.point.x < -ORIG_MAX || rec.point.x > ORIG_MAX || rec.point.y < -ORIG_MAX
                    || rec.point.y > ORIG_MAX || rec.point.z < -ORIG_MAX || rec.point.z > ORIG_MAX {
                    return Vec3::zero();
                }
                proof {
                    let o = choose|o: Object|
                        #[trigger] bvh_objects(*root).contains(o) && object_hit_t(
                            o,
                            cur,
                            1,
                            rec.t as int,
                        ) == Some(rec.t as int) && rec == object_record(o, cur, rec.t as int);
                    let i = choose|i: int|
                        0 <= i < bvh_objects(*root).len() && bvh_objects(*root)[i] == o;
                    lemma_bvh_objects_wf(*root);
                    assert(object_wf_at(bvh_objects(*root), i));
                    lemma_record_fields(bvh_objects(*root), cur, 1, rec, i);
                }
                let (did_scatter, scatter_color, scatter_ray) = rec.material_ptr.scatter(
                    &cur,
                    &rec,
                    rng,
                );
                match apply_scatter(attenuation, did_scatter, scatter_color, scatter_ray) {
                    None => {
                        return Vec3::zero();
                    },
                    Some(bounced) => {
                        attenuation = bounced.0;
                        cur = bounced.1;
                        depth = depth + 1;
                    },
                }
            },
        }
    }
    Vec3::zero()
}

/// Every object below a well-formed node is well-formed.
proof fn lemma_bvh_objects_wf(n: BvhNode)
    requires
        bvh_wf(n),
    ensures
        forall|i: int|
            0 <= i < bvh_objects(n).len() ==> crate::renderable::object_wf(
                #[trigger] bvh_objects(n)[i],
            ),
    decreases n,
{
    match n {
        BvhNode::Empty => {},
        BvhNode::Leaf(o) => {},
        BvhNode::Internal { bbox, left, right } => {
            lemma_bvh_objects_wf(*left);
            lemma_bvh_objects_wf(*right);
            let lobjs = bvh_objects(*left);
            let robjs = bvh_objects(*right);
            assert forall|i: int| 0 <= i < bvh_objects(n).len() implies crate::renderable::object_wf(
                #[trigger] bvh_objects(n)[i],
            ) by {
                if i < lobjs.len() {
                    assert(bvh_objects(n)[i] == lobjs[i]);
                } else {
                    assert(bvh_objects(n)[i] == robjs[i - lobjs.len()]);
                }
            }
        },
    }
}

/// One output channel: scale by the sample count, gamma-correct with the
/// square-root tone map, clamp to just below one, and quantize to `[0, 255]`.
pub open spec fn channel_out_spec(c: int, samples_per_pixel: int) -> int {
    let scaled = tz(c, samples_per_pixel);
    let gamma = if scaled >= 0 {
        sqrt_floor(SCALE * scaled)
    } else {
        0
    };
    tz(COLOR_LIM * clamp_spec(gamma, 0, SCALE - 1), SCALE as int)
}

/// Quantize one accumulated pixel into integer channels.
pub fn write_color_to_output(color: Color, samples_per_pixel: i32) -> (rgb: (i32, i32, i32))
    requires
        1 <= samples_per_pixel,
        vec_in(color, 0x4000_0000_0000),
    ensures
        rgb.0 == channel_out_spec(color.x as int, samples_per_pixel as int),
        rgb.1 == channel_out_spec(color.y as int, samples_per_pixel as int),
        rgb.2 == channel_out_spec(color.z as int, samples_per_pixel as int),
        0 <= rgb.0 <= 255,
        0 <= rgb.1 <= 255,
        0 <= rgb.2 <= 255,
{
    let r = channel_out(color.x, samples_per_pixel);
    let g = channel_out(color.y, samples_per_pixel);
    let b = channel_out(color.z, samples_per_pixel);
    (r, g, b)
}

fn channel_out(c: i64, samples_per_pixel: i32) -> (out: i32)
    requires
        1 <= samples_per_pixel,
        -0x4000_0000_0000 <= c <= 0x4000_0000_0000,
    ensures
        out == channel_out_spec(c as int, samples_per_pixel as int),
        0 <= out <= 255,
{
    let scaled_128 = tz_div_i128(c as i128, samples_per_pixel as i128);
    proof {
        lemma_tz_bound(c as int, samples_per_pixel as int, 0x4000_0000_0000);
    }
    let scaled = scaled_128 as i64;
    let gamma: i64;
    if scaled >= 0 {
        proof {
            lemma_sqrt_floor_bounds(1024 * scaled as int);
            assert(sqrt_floor(1024 * scaled as int) <= 0x8000_0000) by (nonlinear_arith)
                requires
                    sqrt_floor(1024 * scaled as int) >= 0,
                    sqrt_floor(1024 * scaled as int) * sqrt_floor(1024 * scaled as int) <= 1024
                        * scaled as int,
                    0 <= scaled <= 0x4000_0000_0000,
            ;
        }
        gamma = isqrt_i64(scaled * SCALE);
        proof {
            vstd::arithmetic::mul::lemma_mul_is_commutative(scaled as int, 1024);
        }
    } else {
        gamma = 0;
    }
    let cl = clamp(gamma, 0, SCALE - 1);
    proof {
        lemma_abs_mul(256, cl as int, 256, 1024);
        lemma_tz_bound(256 * cl as int, 1024, 0x4_0000);
        assert(0 <= 256 * cl as int) by (nonlinear_arith)
            requires
                cl >= 0,
        ;
        lemma_div_pos_is_pos(256 * cl as int, 1024);
        lemma_div_is_ordered(256 * cl as int, 261888int, 1024);
    }
    let q = tz_div_i128(256 * (cl as i128), 1024);
    q as i32
}

/// The whole-image accumulation buffer, all black.
pub fn zero_raster(width: usize, height: usize) -> (pixels: Vec<Vec<Color>>)
    ensures
        pixels@.len() == height,
        forall|y: int| 0 <= y < height ==> (#[trigger] pixels@[y])@.len() == width,
        forall|y: int, x: int|
            #![trigger pixels@[y]@[x]]
            0 <= y < height && 0 <= x < width ==> pixels@[y]@[x] == (Vec3 {
                x: 0i64,
                y: 0i64,
                z: 0i64,
            }),
{
    let mut pixels: Vec<Vec<Color>> = Vec::new();
    let mut j: usize = 0;
    while j < height
        invariant
            j <= height,
            pixels@.len() == j,
            forall|y: int| 0 <= y < j ==> (#[trigger] pixels@[y])@.len() == width,
            forall|y: int, x: int|
                #![trigger pixels@[y]@[x]]
                0 <= y < j && 0 <= x < width ==> pixels@[y]@[x] == (Vec3 {
                    x: 0i64,
                    y: 0i64,
                    z: 0i64,
                }),
        decreases height - j,
    {
        let mut row: Vec<Color> = Vec::new();
        let mut i: usize = 0;
        while i < width
            invariant
                i <= width,
                row@.len() == i,
                forall|x: int| 0 <= x < i ==> row@[x] == (Vec3 { x: 0i64, y: 0i64, z: 0i64 }),
            decreases width - i,
        {
            row.push(Vec3::zero());
            i = i + 1;
        }
        pixels.push(row);
        j = j + 1;
    }
    pixels
}

/// Element-wise sum of two accumulation buffers of the same shape: the merge
/// step of the coordinator, one incoming worker buffer at a time.
pub fn merge_buffers(acc: &Vec<Vec<Color>>, part: &Vec<Vec<Color>>) -> (merged: Vec<Vec<Color>>)
    requires
        acc@.len() == part@.len(),
        forall|y: int|
            0 <= y < acc@.len() ==> (#[trigger] acc@[y])@.len() == (#[trigger] part@[y])@.len(),
        forall|y: int, x: int|
            #![trigger acc@[y]@[x]]
            0 <= y < acc@.len() && 0 <= x < acc@[y]@.len() ==> vec_in(
                acc@[y]@[x],
                0x1000_0000_0000,
            ) && vec_in(part@[y]@[x], 0x1000_0000_0000),
    ensures
        merged@.len() == acc@.len(),
        forall|y: int|
            0 <= y < acc@.len() ==> (#[trigger] merged@[y])@.len() == acc@[y]@.len(),
        forall|y: int, x: int|
            #![trigger merged@[y]@[x]]
            0 <= y < acc@.len() && 0 <= x < acc@[y]@.len() ==> merged@[y]@[x] == add_spec(
                acc@[y]@[x],
                part@[y]@[x],
            ),
{
    let mut merged: Vec<Vec<Color>> = Vec::new();
    let height = acc.len();
    let mut j: usize = 0;
    while j < height
        invariant
            j <= height == acc@.len() == part@.len(),
            merged@.len() == j,
            forall|y: int|
                0 <= y < acc@.len() ==> (#[trigger] acc@[y])@.len() == (#[trigger] part@[y])@.len(),
            forall|y: int, x: int|
                #![trigger acc@[y]@[x]]
                0 <= y < acc@.len() && 0 <= x < acc@[y]@.len() ==> vec_in(
                    acc@[y]@[x],
                    0x1000_0000_0000,
                ) && vec_in(part@[y]@[x], 0x1000_0000_0000),
            forall|y: int| 0 <= y < j ==> (#[trigger] merged@[y])@.len() == acc@[y]@.len(),
            forall|y: int, x: int|
                #![trigger merged@[y]@[x]]
                0 <= y < j && 0 <= x < acc@[y]@.len() ==> merged@[y]@[x] == add_spec(
                    acc@[y]@[x],
                    part@[y]@[x],
                ),
        decreases height - j,
    {
        let mut row: Vec<Color> = Vec::new();
        let width = acc[j].len();
        let mut i: usize = 0;
        while i < width
            invariant
                0 <= j < acc@.len() == part@.len(),
                i <= width == acc@[j as int]@.len() == part@[j as int]@.len(),
                row@.len() == i,
                forall|y: int, x: int|
                    #![trigger acc@[y]@[x]]
                    0 <= y < acc@.len() && 0 <= x < acc@[y]@.len() ==> vec_in(
                        acc@[y]@[x],
                        0x1000_0000_0000,
                    ) && vec_in(part@[y]@[x], 0x1000_0000_0000),
                forall|x: int|
                    0 <= x < i ==> row@[x] == add_spec(
                        acc@[j as int]@[x],
                        #[trigger] part@[j as int]@[x],
                    ),
            decreases width - i,
        {
            let a = acc[j][i];
            let b = part[j][i];
            row.push(a.add(b));
            i = i + 1;
        }
        merged.push(row);
        j = j + 1;
    }
    merged
}

/// How many samples one of `num_threads` workers owns: the total divided by
/// the worker count, rounded half away from zero. A single worker owns the
/// whole budget, so one worker with the full budget reproduces the
/// single-threaded render exactly.
pub fn samples_per_worker(total_spp: i32, num_threads: i32) -> (r: i32)
    requires
        0 <= total_spp,
        1 <= num_threads,
    ensures
        r == (2 * total_spp + num_threads) as int / (2 * num_threads) as int,
        num_threads == 1 ==> r == total_spp,
        0 <= r <= total_spp,
    {
    let num: u64 = 2 * (total_spp as u64) + (num_threads as u64);
    let den: u64 = 2 * (num_threads as u64);
    let q = num / den;
    proof {
        if num_threads == 1 {
            assert(2 * total_spp as int + 1 == total_spp as int * 2 + 1);
            lemma_fundamental_div_mod_converse(2 * total_spp as int + 1, 2int, total_spp as int, 1int);
        }
        lemma_div_pos_is_pos(num as int, den as int);
        assert(num as int <= total_spp as int * den as int + den as int - 1) by (nonlinear_arith)
            requires
                num as int == 2 * total_spp as int + num_threads as int,
                den as int == 2 * num_threads as int,
                num_threads >= 1,
                total_spp >= 0,
        ;
        assert((total_spp as int * den as int + den as int - 1) / den as int == total_spp as int)
            by {
            vstd::arithmetic::div_mod::lemma_fundamental_div_mod_converse(
                total_spp as int * den as int + den as int - 1,
                den as int,
                total_spp as int,
                den as int - 1,
            );
        }
        lemma_div_is_ordered(num as int, total_spp as int * den as int + den as int - 1, den as int);
    }
    q as i32
}

/// Render the full frame against the flat object list: for every pixel, the
/// given number of jittered camera rays, their colors accumulated.
pub fn render(scene: &Scene, samples: i32, rng: &mut RandomSource) -> (pixels: Vec<Vec<Color>>)
    requires
        scene_wf(*scene),
        1 <= samples <= 0x10_0000,
    ensures
        pixels@.len() == scene.image_height as int,
        forall|y: int|
            0 <= y < pixels@.len() ==> (#[trigger] pixels@[y])@.len() == scene.image_width as int,
        forall|y: int, x: int|
            #![trigger pixels@[y]@[x]]
            0 <= y < pixels@.len() && 0 <= x < pixels@[y]@.len() ==> accum_in_range(
                pixels@[y]@[x],
                samples as int,
            ),
        scene.world.objects@.len() == 0 ==> forall|y: int, x: int|
            #![trigger pixels@[y]@[x]]
            0 <= y < pixels@.len() && 0 <= x < pixels@[y]@.len() ==> pixels@[y]@[x].z
                == samples as int * SCALE,
{
    let width = scene.image_width;
    let height = scene.image_height;
    let mut pixels: Vec<Vec<Color>> = Vec::new();
    let mut j: i32 = 0;
    while j < height
        invariant
            scene_wf(*scene),
            1 <= samples <= 0x10_0000,
            width == scene.image_width,
            height == scene.image_height,
            0 <= j <= height,
            pixels@.len() == j as int,
            forall|y: int|
                0 <= y < pixels@.len() ==> (#[trigger] pixels@[y])@.len() == width as int,
            forall|y: int, x: int|
                #![trigger pixels@[y]@[x]]
                0 <= y < pixels@.len() && 0 <= x < pixels@[y]@.len() ==> accum_in_range(
                    pixels@[y]@[x],
                    samples as int,
                ),
            scene.world.objects@.len() == 0 ==> forall|y: int, x: int|
                #![trigger pixels@[y]@[x]]
                0 <= y < pixels@.len() && 0 <= x < pixels@[y]@.len() ==> pixels@[y]@[x].z
                    == samples as int * SCALE,
        decreases height - j,
    {
        let mut row: Vec<Color> = Vec::new();
        let mut i: i32 = 0;
        while i < width
            invariant
                scene_wf(*scene),
                1 <= samples <= 0x10_0000,
                width == scene.image_width,
                height == scene.image_height,
                0 <= j < height,
                0 <= i <= width,
                row@.len() == i as int,
                forall|x: int|
                    0 <= x < row@.len() ==> accum_in_range(#[trigger] row@[x], samples as int),
                scene.world.objects@.len() == 0 ==> forall|x: int|
                    0 <= x < row@.len() ==> (#[trigger] row@[x]).z == samples as int * SCALE,
            decreases width - i,
        {
            let acc = sample_pixel_world(scene, i, j, samples, rng);
            row.push(acc);
            i = i + 1;
        }
        pixels.push(row);
        j = j + 1;
    }
    pixels
}

/// Accumulate the given number of jittered samples for one pixel.
fn sample_pixel_world(scene: &Scene, i: i32, j: i32, samples: i32, rng: &mut RandomSource) -> (acc:
    Color)
    requires
        scene_wf(*scene),
        0 <= i < scene.image_width,
        0 <= j < scene.image_height,
        1 <= samples <= 0x10_0000,
    ensures
        accum_in_range(acc, samples as int),
        scene.world.objects@.len() == 0 ==> acc.z == samples as int * SCALE,
{
    let mut acc = Vec3::zero();
    let mut s: i32 = 0;
    while s < samples
        invariant
            scene_wf(*scene),
            0 <= i < scene.image_width,
            0 <= j < scene.image_height,
            1 <= samples <= 0x10_0000,
            0 <= s <= samples,
            accum_in_range(acc, s as int),
            scene.world.objects@.len() == 0 ==> acc.z == s as int * SCALE,
        decreases samples - s,
    {
        let u = pixel_coord(i, scene.image_width, rng);
        let v = pixel_coord(j, scene.image_height, rng);
        let r = scene.camera.get_ray(u, v, rng);
        let color = ray_color_world(&r, &scene.world, rng);
        proof {
            assert((s as int + 1) * 1024 == s as int * 1024 + 1024) by (nonlinear_arith);
            if scene.world.objects@.len() == 0 {
                // Every sample of an empty world is the sky, whose blue
                // channel is exactly one.
                assert(best_hit_t(scene.world.objects@, r, 1, T_LIMIT as int) is None);
                lemma_skybox_full_z(r);
            }
        }
        acc = acc.add(color);
        s = s + 1;
    }
    acc
}

/// The jittered viewport coordinate of pixel index `i` out of `extent`:
/// `(i + jitter) / extent` as a scalar in `[0, SCALE)`.
fn pixel_coord(i: i32, extent: i32, rng: &mut RandomSource) -> (u: i64)
    requires
        0 <= i < extent,
    ensures
        0 <= u < SCALE,
{
    let jitter = rng.random_between_0_1();
    let num: u64 = (i as u64) * 1024 + (jitter as u64);
    let den: u64 = extent as u64;
    proof {
        lemma_div_pos_is_pos(num as int, den as int);
        assert(num as int <= den as int * 1024 - 1) by (nonlinear_arith)
            requires
                num as int == i as int * 1024 + jitter as int,
                den as int == extent as int,
                0 <= i < extent,
                0 <= jitter < 1024,
        ;
        assert((den as int * 1024 - 1) / den as int <= 1023) by {
            lemma_fundamental_div_mod_converse(
                den as int * 1024 - 1,
                den as int,
                1023,
                den as int - 1,
            );
            assert(den as int * 1024 - 1 == 1023 * den as int + (den as int - 1)) by (
            nonlinear_arith);
        }
        lemma_div_is_ordered(num as int, den as int * 1024 - 1, den as int);
    }
    let q = num / den;
    q as i64
}

/// Render against a hierarchy built once from the scene's objects.
pub fn render_bvh(scene: &Scene, samples: i32, rng: &mut RandomSource) -> (pixels: Vec<Vec<Color>>)
    requires
        scene_wf(*scene),
        1 <= samples <= 0x10_0000,
    ensures
        pixels@.len() == scene.image_height as int,
        forall|y: int|
            0 <= y < pixels@.len() ==> (#[trigger] pixels@[y])@.len() == scene.image_width as int,
        forall|y: int, x: int|
            #![trigger pixels@[y]@[x]]
            0 <= y < pixels@.len() && 0 <= x < pixels@[y]@.len() ==> accum_in_range(
                pixels@[y]@[x],
                samples as int,
            ),
        scene.world.objects@.len() == 0 ==> forall|y: int, x: int|
            #![trigger pixels@[y]@[x]]
            0 <= y < pixels@.len() && 0 <= x < pixels@[y]@.len() ==> pixels@[y]@[x].z
                == samples as int * SCALE,
{
    let root = BvhNode::new_from_renderables(&scene.world.objects, rng);
    let width = scene.image_width;
    let height = scene.image_height;
    let mut pixels: Vec<Vec<Color>> = Vec::new();
    let mut j: i32 = 0;
    while j < height
        invariant
            scene_wf(*scene),
            bvh_wf(root),
            scene.world.objects@.len() == 0 ==> root == BvhNode::Empty,
            1 <= samples <= 0x10_0000,
            width == scene.image_width,
            height == scene.image_height,
            0 <= j <= height,
            pixels@.len() == j as int,
            forall|y: int|
                0 <= y < pixels@.len() ==> (#[trigger] pixels@[y])@.len() == width as int,
            forall|y: int, x: int|
                #![trigger pixels@[y]@[x]]
                0 <= y < pixels@.len() && 0 <= x < pixels@[y]@.len() ==> accum_in_range(
                    pixels@[y]@[x],
                    samples as int,
                ),
            scene.world.objects@.len() == 0 ==> forall|y: int, x: int|
                #![trigger pixels@[y]@[x]]
                0 <= y < pixels@.len() && 0 <= x < pixels@[y]@.len() ==> pixels@[y]@[x].z
                    == samples as int * SCALE,
        decreases height - j,
    {
        let mut row: Vec<Color> = Vec::new();
        let mut i: i32 = 0;
        while i < width
            invariant
                scene_wf(*scene),
                bvh_wf(root),
                scene.world.objects@.len() == 0 ==> root == BvhNode::Empty,
                1 <= samples <= 0x10_0000,
                width == scene.image_width,
                height == scene.image_height,
                0 <= j < height,
                0 <= i <= width,
                row@.len() == i as int,
                forall|x: int|
                    0 <= x < row@.len() ==> accum_in_range(#[trigger] row@[x], samples as int),
                scene.world.objects@.len() == 0 ==> forall|x: int|
                    0 <= x < row@.len() ==> (#[trigger] row@[x]).z == samples as int * SCALE,
            decreases width - i,
        {
            let acc = sample_pixel_bvh(scene, &root, i, j, samples, rng);
            row.push(acc);
            i = i + 1;
        }
        pixels.push(row);
        j = j + 1;
    }
    pixels
}

fn sample_pixel_bvh(
    scene: &Scene,
    root: &BvhNode,
    i: i32,
    j: i32,
    samples: i32,
    rng: &mut RandomSource,
) -> (acc: Color)
    requires
        scene_wf(*scene),
        bvh_wf(*root),
        scene.world.objects@.len() == 0 ==> *root == BvhNode::Empty,
        0 <= i < scene.image_width,
        0 <= j < scene.image_height,
        1 <= samples <= 0x10_0000,
    ensures
        accum_in_range(acc, samples as int),
        scene.world.objects@.len() == 0 ==> acc.z == samples as int * SCALE,
{
    let mut acc = Vec3::zero();
    let mut s: i32 = 0;
    while s < samples
        invariant
            scene_wf(*scene),
            bvh_wf(*root),
            scene.world.objects@.len() == 0 ==> *root == BvhNode::Empty,
            0 <= i < scene.image_width,
            0 <= j < scene.image_height,
            1 <= samples <= 0x10_0000,
            0 <= s <= samples,
            accum_in_range(acc, s as int),
            scene.world.objects@.len() == 0 ==> acc.z == s as int * SCALE,
        decreases samples - s,
    {
        let u = pixel_coord(i, scene.image_width, rng);
        let v = pixel_coord(j, scene.image_height, rng);
        let r = scene.camera.get_ray(u, v, rng);
        let color = ray_color_bvh_node(&r, root, rng);
        proof {
            assert((s as int + 1) * 1024 == s as int * 1024 + 1024) by (nonlinear_arith);
            if scene.world.objects@.len() == 0 {
                // An empty tree reports no hit, so every sample is the sky.
                assert(bvh_hit_t(*root, r, 1, T_LIMIT as int) is None);
                lemma_skybox_full_z(r);
            }
        }
        acc = acc.add(color);
        s = s + 1;
    }
    acc
}

} // verus!
