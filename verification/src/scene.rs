//! Scenes: the render parameters, the camera and the object list, together
//! with the built-in worlds and the fallback used when loading fails.
//!
//! Persistence itself (files, serialization) lives with the embedding
//! program; the library decides what a scene holds and what stands in when
//! none can be read.

use vstd::prelude::*;
use crate::camera::{Camera, camera_wf};
use crate::material::{RenderableMaterial, LambertianMaterial, Metal, Dielectric};
use crate::renderable::{Object, RenderableList, list_wf, list_bbox_sound};
use crate::sphere::Sphere;
use crate::texture::{RenderableTexture, SolidColor, CheckerTexture};
use crate::util::{
    Point, Vec3, RandomSource, sub_spec, unit_spec, cross_spec, scale_spec, fxmul, dot_spec,
    mul_fx, len_spec, lemma_sqrt_floor_unique, SCALE,
};

verus! {

/// The tangent of ten degrees (half of a twenty-degree vertical field of
/// view), as a scalar.
pub const VFOV20_HALF_TAN: i64 = 181;

#[derive(Clone, Debug)]
pub struct SceneMetaData {
    pub file_name: String,
    pub aspect_ratio: i64,
    pub image_width: i32,
    pub image_height: i32,
    pub samples_per_pixel: i32,
}

#[derive(Clone, Debug)]
pub struct Scene {
    pub aspect_ratio: i64,
    pub image_width: i32,
    pub image_height: i32,
    pub samples_per_pixel: i32,
    pub camera: Camera,
    pub world: RenderableList,
}

pub open spec fn scene_wf(s: Scene) -> bool {
    &&& camera_wf(s.camera)
    &&& list_wf(s.world)
    &&& 1 <= s.image_width <= 4096
    &&& 1 <= s.image_height <= 4096
    &&& 1 <= s.samples_per_pixel <= 0x10_0000
}

/// The huge gray (or checkered) ground sphere at `(0, -1000, 0)`.
pub open spec fn is_ground_sphere(o: Object, albedo: RenderableTexture) -> bool {
    o matches Object::Sphere(g) && g.center == (Vec3 { x: 0i64, y: -1024000i64, z: 0i64 })
        && g.r == 1024000 && !g.is_moving && g.material == RenderableMaterial::Lambertian(
        LambertianMaterial { albedo },
    )
}

/// The three showcase spheres closing every random world: glass at the
/// middle, diffuse on the left, polished metal on the right.
pub open spec fn showcase_tail(objs: Seq<Object>) -> bool {
    let n = objs.len() as int;
    &&& n >= 3
    &&& objs[n - 3] matches Object::Sphere(s1) && s1.center == (Vec3 {
        x: 0i64,
        y: 1024i64,
        z: 0i64,
    }) && s1.r == 1024 && !s1.is_moving && s1.material == RenderableMaterial::Dielectric(
        Dielectric { ir: 1536i64 },
    )
    &&& objs[n - 2] matches Object::Sphere(s2) && s2.center == (Vec3 {
        x: -4096i64,
        y: 1024i64,
        z: 0i64,
    }) && s2.r == 1024 && !s2.is_moving && s2.material == RenderableMaterial::Lambertian(
        LambertianMaterial {
            albedo: RenderableTexture::SolidColor(
                SolidColor { color: Vec3 { x: 410i64, y: 205i64, z: 102i64 } },
            ),
        },
    )
    &&& objs[n - 1] matches Object::Sphere(s3) && s3.center == (Vec3 {
        x: 4096i64,
        y: 1024i64,
        z: 0i64,
    }) && s3.r == 1024 && !s3.is_moving && s3.material == RenderableMaterial::Metal(
        Metal {
            albedo: RenderableTexture::SolidColor(
                SolidColor { color: Vec3 { x: 716i64, y: 614i64, z: 512i64 } },
            ),
            fuzziness: 0i64,
        },
    )
}

/// A sphere of the random grid: radius one fifth, strictly clear of the
/// metal showcase sphere's spot at `(4, 0.2, 0)`.
pub open spec fn grid_sphere_ok(o: Object) -> bool {
    o matches Object::Sphere(s) && s.r == 205 && len_spec(
        sub_spec(s.center, Vec3 { x: 4096i64, y: 205i64, z: 0i64 }),
    ) > 921
}

/// The camera every built-in scene description uses: at `(13, 2, 3)` looking
/// toward `la`, up `(0, 1, 0)`, a twenty-degree field of view, aperture one
/// tenth, focus at ten units.
pub open spec fn standard_camera_ok(c: Camera, la: Point, aspect: int) -> bool {
    let lf = Vec3 { x: 13312i64, y: 2048i64, z: 3072i64 };
    let vup = Vec3 { x: 0i64, y: 1024i64, z: 0i64 };
    &&& c.origin == lf
    &&& c.w == unit_spec(sub_spec(lf, la))
    &&& c.u == unit_spec(cross_spec(vup, c.w))
    &&& c.v == cross_spec(c.w, c.u)
    &&& c.horizontal == scale_spec(c.u, fxmul(10240, fxmul(aspect, 362)))
    &&& c.vertical == scale_spec(c.v, fxmul(10240, 362))
    &&& c.lens_radius == fxmul(102, 512)
}

/// What the documented fallback scene holds: one Lambertian sphere at
/// `(4, 1, 0)` of unit radius, the standard camera aimed at `(0, 0, -1)`,
/// a square 400-pixel image at one hundred samples per pixel.
pub open spec fn is_default_scene(s: Scene) -> bool {
    &&& s.aspect_ratio == SCALE
    &&& s.image_width == 400
    &&& s.image_height == 400
    &&& s.samples_per_pixel == 100
    &&& standard_camera_ok(s.camera, Vec3 { x: 0i64, y: 0i64, z: -1024i64 }, SCALE as int)
    &&& s.world.objects@.len() == 1
    &&& s.world.objects@[0] matches Object::Sphere(sp) && sp.center == (Vec3 {
        x: 4096i64,
        y: 1024i64,
        z: 0i64,
    }) && sp.r == 1024 && sp.material == RenderableMaterial::Lambertian(
        LambertianMaterial {
            albedo: RenderableTexture::SolidColor(
                SolidColor { color: Vec3 { x: 410i64, y: 205i64, z: 102i64 } },
            ),
        },
    ) && !sp.is_moving
}

/// The standard camera aimed at `la`, which must be one of the two targets
/// the built-in scenes use.
fn standard_camera(la: Point, aspect: i64) -> (c: Camera)
    requires
        la == (Vec3 { x: 0i64, y: 0i64, z: -1024i64 }) || la == (Vec3 {
            x: 0i64,
            y: 0i64,
            z: 0i64,
        }),
        1024 <= aspect <= 2048,
    ensures
        camera_wf(c),
        standard_camera_ok(c, la, aspect as int),
{
    let look_from = Vec3::new(13312, 2048, 3072);
    let vup = Vec3::new(0, 1024, 0);
    proof {
        let lf = Vec3 { x: 13312i64, y: 2048i64, z: 3072i64 };
        let up = Vec3 { x: 0i64, y: 1024i64, z: 0i64 };
        if la == (Vec3 { x: 0i64, y: 0i64, z: -1024i64 }) {
            // |(13, 2, 4)| and the cross with up, evaluated by hand.
            let sub = sub_spec(lf, la);
            assert(sub == Vec3 { x: 13312i64, y: 2048i64, z: 4096i64 });
            assert(sub.x as int * sub.x as int + sub.y as int * sub.y as int + sub.z as int
                * sub.z as int == 198180864) by (nonlinear_arith)
                requires
                    sub.x == 13312,
                    sub.y == 2048,
                    sub.z == 4096,
            ;
            assert(dot_spec(sub, sub) == crate::util::tz(198180864, 1024));
            assert(dot_spec(sub, sub) == 193536);
            assert(SCALE as int * 193536 == 198180864);
            lemma_sqrt_floor_unique(198180864, 14077);
            assert(len_spec(sub) == 14077);
            let w0 = unit_spec(sub);
            assert(w0.x as int == crate::util::tz(13631488, 14077));
            assert(w0.y as int == crate::util::tz(2097152, 14077));
            assert(w0.z as int == crate::util::tz(4194304, 14077));
            assert(w0 == Vec3 { x: 968i64, y: 148i64, z: 297i64 });
            let cr = cross_spec(up, w0);
            assert(up.y as int * w0.z as int - up.z as int * w0.y as int == 304128
                && up.z as int * w0.x as int - up.x as int * w0.z as int == 0
                && up.x as int * w0.y as int - up.y as int * w0.x as int == -991232) by (
            nonlinear_arith)
                requires
                    up.x == 0,
                    up.y == 1024,
                    up.z == 0,
                    w0.x == 968,
                    w0.y == 148,
                    w0.z == 297,
            ;
            assert(cr.x as int == crate::util::tz(304128, 1024));
            assert(cr.y as int == crate::util::tz(0, 1024));
            assert(cr.z as int == crate::util::tz(-991232, 1024));
            assert(cr == Vec3 { x: 297i64, y: 0i64, z: -968i64 });
            assert(cr.x as int * cr.x as int + cr.y as int * cr.y as int + cr.z as int
                * cr.z as int == 1025233) by (nonlinear_arith)
                requires
                    cr.x == 297,
                    cr.y == 0,
                    cr.z == -968,
            ;
            assert(dot_spec(cr, cr) == crate::util::tz(1025233, 1024));
            assert(dot_spec(cr, cr) == 1001);
            assert(SCALE as int * 1001 == 1025024);
            lemma_sqrt_floor_unique(1025024, 1012);
            assert(len_spec(cr) == 1012);
        } else {
            // |(13, 2, 3)| and its cross with up, evaluated by hand.
            let sub = sub_spec(lf, la);
            assert(sub == Vec3 { x: 13312i64, y: 2048i64, z: 3072i64 });
            assert(sub.x as int * sub.x as int + sub.y as int * sub.y as int + sub.z as int
                * sub.z as int == 190840832) by (nonlinear_arith)
                requires
                    sub.x == 13312,
                    sub.y == 2048,
                    sub.z == 3072,
            ;
            assert(dot_spec(sub, sub) == crate::util::tz(190840832, 1024));
            assert(dot_spec(sub, sub) == 186368);
            assert(SCALE as int * 186368 == 190840832);
            lemma_sqrt_floor_unique(190840832, 13814);
            assert(len_spec(sub) == 13814);
            let w0 = unit_spec(sub);
            assert(w0.x as int == crate::util::tz(13631488, 13814));
            assert(w0.y as int == crate::util::tz(2097152, 13814));
            assert(w0.z as int == crate::util::tz(3145728, 13814));
            assert(w0 == Vec3 { x: 986i64, y: 151i64, z: 227i64 });
            let cr = cross_spec(up, w0);
            assert(up.y as int * w0.z as int - up.z as int * w0.y as int == 232448
                && up.z as int * w0.x as int - up.x as int * w0.z as int == 0
                && up.x as int * w0.y as int - up.y as int * w0.x as int == -1009664) by (
            nonlinear_arith)
                requires
                    up.x == 0,
                    up.y == 1024,
                    up.z == 0,
                    w0.x == 986,
                    w0.y == 151,
                    w0.z == 227,
            ;
            assert(cr.x as int == crate::util::tz(232448, 1024));
            assert(cr.y as int == crate::util::tz(0, 1024));
            assert(cr.z as int == crate::util::tz(-1009664, 1024));
            assert(cr == Vec3 { x: 227i64, y: 0i64, z: -986i64 });
            assert(cr.x as int * cr.x as int + cr.y as int * cr.y as int + cr.z as int
                * cr.z as int == 1023725) by (nonlinear_arith)
                requires
                    cr.x == 227,
                    cr.y == 0,
                    cr.z == -986,
            ;
            assert(dot_spec(cr, cr) == crate::util::tz(1023725, 1024));
            assert(dot_spec(cr, cr) == 999);
            assert(SCALE as int * 999 == 1022976);
            lemma_sqrt_floor_unique(1022976, 1011);
            assert(len_spec(cr) == 1011);
        }
    }
    Camera::new(look_from, la, vup, VFOV20_HALF_TAN, aspect, 102, 10240)
}

/// The standard camera aimed at the origin, as the document builders use it.
pub fn builder_camera(aspect: i64) -> (c: Camera)
    requires
        1024 <= aspect <= 2048,
    ensures
        camera_wf(c),
        standard_camera_ok(c, Vec3 { x: 0i64, y: 0i64, z: 0i64 }, aspect as int),
{
    standard_camera(Vec3::new(0, 0, 0), aspect)
}

/// The documented fallback: one diffuse sphere and the standard camera.
pub fn default_scene() -> (s: Scene)
    ensures
        scene_wf(s),
        is_default_scene(s),
{
    let default_camera = standard_camera(Vec3::new(0, 0, -1024), 1024);
    let default_material = RenderableMaterial::Lambertian(
        LambertianMaterial::new(
            RenderableTexture::SolidColor(SolidColor::from_values(410, 205, 102)),
        ),
    );
    let default_sphere = Sphere::new(Vec3::new(4096, 1024, 0), 1024, default_material);
    let mut default_world = RenderableList::new();
    default_world.add(Object::Sphere(default_sphere));
    Scene {
        aspect_ratio: SCALE,
        image_width: 400,
        image_height: 400,
        samples_per_pixel: 100,
        camera: default_camera,
        world: default_world,
    }
}

/// The loader's decision: a scene that could be read is kept; a missing or
/// malformed one is silently replaced by the documented default.
pub fn scene_or_default(loaded: Option<Scene>) -> (s: Scene)
    ensures
        loaded matches Some(l) ==> s == l,
        loaded is None ==> scene_wf(s) && is_default_scene(s),
{
    match loaded {
        Some(l) => l,
        None => default_scene(),
    }
}

/// Two large checkered spheres stacked on the vertical axis.
pub fn two_spheres() -> (world: RenderableList)
    ensures
        list_wf(world),
        list_bbox_sound(world),
        world.objects@.len() == 2,
        world.objects@[0] matches Object::Sphere(lo) && lo.center == (Vec3 {
            x: 0i64,
            y: -10240i64,
            z: 0i64,
        }) && lo.r == 10240 && !lo.is_moving,
        world.objects@[1] matches Object::Sphere(hi) && hi.center == (Vec3 {
            x: 0i64,
            y: 10240i64,
            z: 0i64,
        }) && hi.r == 10240 && !hi.is_moving,
{
    let checker = RenderableTexture::CheckerTexture(
        CheckerTexture::new_from_colors(
            327,
            Vec3::new(205, 307, 102),
            Vec3::new(921, 921, 921),
        ),
    );
    let material = RenderableMaterial::Lambertian(LambertianMaterial::new(checker));
    let mut world = RenderableList::new();
    world.add(Object::Sphere(Sphere::new(Vec3::new(0, -10240, 0), 10240, material)));
    world.add(Object::Sphere(Sphere::new(Vec3::new(0, 10240, 0), 10240, material)));
    world
}

/// The fixed four-sphere test world: a huge ground sphere and a glass, a
/// diffuse and a metal sphere in a row.
pub fn test_scene() -> (world: RenderableList)
    ensures
        list_wf(world),
        list_bbox_sound(world),
        world.objects@.len() == 4,
        is_ground_sphere(
            world.objects@[0],
            RenderableTexture::SolidColor(SolidColor { color: Vec3 { x: 512i64, y: 512i64, z: 512i64 } }),
        ),
        showcase_tail(world.objects@),
{
    let mut world = RenderableList::new();
    let material_ground = RenderableMaterial::Lambertian(
        LambertianMaterial::new(
            RenderableTexture::SolidColor(SolidColor::from_values(512, 512, 512)),
        ),
    );
    world.add(Object::Sphere(Sphere::new(Vec3::new(0, -1024000, 0), 1024000, material_ground)));
    let material_1 = RenderableMaterial::Dielectric(Dielectric::new(Some(1536)));
    world.add(Object::Sphere(Sphere::new(Vec3::new(0, 1024, 0), 1024, material_1)));
    let material_2 = RenderableMaterial::Lambertian(
        LambertianMaterial::new(
            RenderableTexture::SolidColor(SolidColor::from_values(410, 205, 102)),
        ),
    );
    world.add(Object::Sphere(Sphere::new(Vec3::new(-4096, 1024, 0), 1024, material_2)));
    let material_3 = RenderableMaterial::Metal(
        Metal::new(RenderableTexture::SolidColor(SolidColor::from_values(716, 614, 512)), Some(0)),
    );
    world.add(Object::Sphere(Sphere::new(Vec3::new(4096, 1024, 0), 1024, material_3)));
    world
}

/// One random small sphere for the grid cell `(a, b)`: diffuse and drifting,
/// metal, or glass, by a random draw.
fn random_small_sphere(a: i32, b: i32, rng: &mut RandomSource) -> (res: Option<Object>)
    requires
        -11 <= a <= 11,
        -11 <= b <= 11,
    ensures
        res matches Some(o) ==> crate::renderable::object_wf(o) && grid_sphere_ok(o),
{
    let choose_material = rng.random_between_0_1();
    let jitter_x = rng.random_between_0_1();
    let jitter_z = rng.random_between_0_1();
    proof {
        crate::util::lemma_abs_mul(921, jitter_x as int, 921, 1024);
        crate::util::lemma_tz_bound(921 * jitter_x as int, 1024, 943104);
        crate::util::lemma_abs_mul(921, jitter_z as int, 921, 1024);
        crate::util::lemma_tz_bound(921 * jitter_z as int, 1024, 943104);
    }
    let center = Vec3::new(
        (a as i64) * 1024 + mul_fx(921, jitter_x),
        205,
        (b as i64) * 1024 + mul_fx(921, jitter_z),
    );
    // Keep clear of the big showcase sphere at (4, 0.2, 0).
    let offset = center.sub(Vec3::new(4096, 205, 0));
    let gap = offset.len();
    if gap <= 921 {
        return None;
    }
    if choose_material < 819 {
        // diffuse, drifting upward
        let albedo = RenderableTexture::SolidColor(
            SolidColor::from_color(Vec3::random(rng, 0, 1024)),
        );
        let sphere_material = RenderableMaterial::Lambertian(LambertianMaterial::new(albedo));
        let lift = rng.random_in_range(0, 512);
        let center2 = center.add(Vec3::new(0, lift, 0));
        Some(Object::Sphere(Sphere::new_moving(center, 205, sphere_material, center2)))
    } else if choose_material < 973 {
        // metal
        let albedo = RenderableTexture::SolidColor(
            SolidColor::from_color(Vec3::random(rng, 512, 1024)),
        );
        let fuzz = rng.random_in_range(0, 512);
        let sphere_material = RenderableMaterial::Metal(Metal::new(albedo, Some(fuzz)));
        Some(Object::Sphere(Sphere::new(center, 205, sphere_material)))
    } else {
        // glass
        let sphere_material = RenderableMaterial::Dielectric(Dielectric::new(Some(1536)));
        Some(Object::Sphere(Sphere::new(center, 205, sphere_material)))
    }
}

/// The grid of random small spheres around the three showcase spheres.
fn add_random_grid(world: &mut RenderableList, rng: &mut RandomSource)
    requires
        list_wf(*old(world)),
    ensures
        list_wf(*final (world)),
        list_bbox_sound(*old(world)) ==> list_bbox_sound(*final (world)),
        final (world).objects@.len() >= old(world).objects@.len(),
        forall|i: int|
            0 <= i < old(world).objects@.len() ==> #[trigger] final (world).objects@[i] == old(
                world,
            ).objects@[i],
        forall|i: int|
            old(world).objects@.len() <= i < final (world).objects@.len()
                ==> grid_sphere_ok(#[trigger] final (world).objects@[i]),
{
    let ghost n0 = world.objects@.len();
    let ghost orig = world.objects@;
    let ghost sound0 = list_bbox_sound(*world);
    let mut a: i32 = -11;
    while a < 11
        invariant
            -11 <= a <= 11,
            list_wf(*world),
            world.objects@.len() >= n0,
            n0 == orig.len(),
            sound0 == list_bbox_sound(*old(world)),
            orig == old(world).objects@,
            sound0 ==> list_bbox_sound(*world),
            forall|i: int| 0 <= i < n0 ==> #[trigger] world.objects@[i] == orig[i],
            forall|i: int|
                n0 <= i < world.objects@.len() ==> grid_sphere_ok(#[trigger] world.objects@[i]),
        decreases 11 - a,
    {
        let mut b: i32 = -11;
        while b < 11
            invariant
                -11 <= a < 11,
                -11 <= b <= 11,
                list_wf(*world),
                world.objects@.len() >= n0,
                n0 == orig.len(),
                sound0 == list_bbox_sound(*old(world)),
                orig == old(world).objects@,
                sound0 ==> list_bbox_sound(*world),
                forall|i: int| 0 <= i < n0 ==> #[trigger] world.objects@[i] == orig[i],
                forall|i: int|
                    n0 <= i < world.objects@.len() ==> grid_sphere_ok(
                        #[trigger] world.objects@[i],
                    ),
            decreases 11 - b,
        {
            match random_small_sphere(a, b, rng) {
                Some(o) => {
                    world.add(o);
                },
                None => {},
            }
            b = b + 1;
        }
        a = a + 1;
    }
}

/// Add the three showcase spheres: glass, diffuse and metal, in a row.
fn add_showcase_spheres(world: &mut RenderableList)
    requires
        list_wf(*old(world)),
    ensures
        list_wf(*final (world)),
        list_bbox_sound(*old(world)) ==> list_bbox_sound(*final (world)),
        final (world).objects@.len() == old(world).objects@.len() + 3,
        forall|i: int|
            0 <= i < old(world).objects@.len() ==> #[trigger] final (world).objects@[i] == old(
                world,
            ).objects@[i],
        showcase_tail(final (world).objects@),
{
    let material_1 = RenderableMaterial::Dielectric(Dielectric::new(Some(1536)));
    world.add(Object::Sphere(Sphere::new(Vec3::new(0, 1024, 0), 1024, material_1)));
    let material_2 = RenderableMaterial::Lambertian(
        LambertianMaterial::new(
            RenderableTexture::SolidColor(SolidColor::from_values(410, 205, 102)),
        ),
    );
    world.add(Object::Sphere(Sphere::new(Vec3::new(-4096, 1024, 0), 1024, material_2)));
    let material_3 = RenderableMaterial::Metal(
        Metal::new(RenderableTexture::SolidColor(SolidColor::from_values(716, 614, 512)), Some(0)),
    );
    world.add(Object::Sphere(Sphere::new(Vec3::new(4096, 1024, 0), 1024, material_3)));
}

/// The classic random scene: a solid-gray ground sphere, a grid of random
/// small spheres, and the three showcase spheres.
pub fn random_scene(rng: &mut RandomSource) -> (world: RenderableList)
    ensures
        list_wf(world),
        list_bbox_sound(world),
        world.objects@.len() >= 4,
        is_ground_sphere(
            world.objects@[0],
            RenderableTexture::SolidColor(SolidColor { color: Vec3 { x: 512i64, y: 512i64, z: 512i64 } }),
        ),
        showcase_tail(world.objects@),
        forall|i: int|
            1 <= i < world.objects@.len() - 3 ==> grid_sphere_ok(#[trigger] world.objects@[i]),
{
    let mut world = RenderableList::new();
    let material_ground = RenderableMaterial::Lambertian(
        LambertianMaterial::new(
            RenderableTexture::SolidColor(SolidColor::from_values(512, 512, 512)),
        ),
    );
    world.add(Object::Sphere(Sphere::new(Vec3::new(0, -1024000, 0), 1024000, material_ground)));
    add_random_grid(&mut world, rng);
    proof {
        assert(world.objects@.len() >= 1);
    }
    add_showcase_spheres(&mut world);
    world
}

/// The same scene over a checkered ground.
pub fn random_scene_checker(rng: &mut RandomSource) -> (world: RenderableList)
    ensures
        list_wf(world),
        list_bbox_sound(world),
        world.objects@.len() >= 4,
        is_ground_sphere(
            world.objects@[0],
            RenderableTexture::CheckerTexture(
                CheckerTexture {
                    odd: SolidColor { color: Vec3 { x: 205i64, y: 307i64, z: 102i64 } },
                    even: SolidColor { color: Vec3 { x: 921i64, y: 921i64, z: 921i64 } },
                    inv_scale: 3206i64,
                },
            ),
        ),
        showcase_tail(world.objects@),
        forall|i: int|
            1 <= i < world.objects@.len() - 3 ==> grid_sphere_ok(#[trigger] world.objects@[i]),
{
    let mut world = RenderableList::new();
    let material_ground = RenderableMaterial::Lambertian(
        LambertianMaterial::new(
            RenderableTexture::CheckerTexture(
                CheckerTexture::new_from_colors(
                    327,
                    Vec3::new(205, 307, 102),
                    Vec3::new(921, 921, 921),
                ),
            ),
        ),
    );
    world.add(Object::Sphere(Sphere::new(Vec3::new(0, -1024000, 0), 1024000, material_ground)));
    add_random_grid(&mut world, rng);
    proof {
        assert(world.objects@.len() >= 1);
    }
    add_showcase_spheres(&mut world);
    world
}

} // verus!
