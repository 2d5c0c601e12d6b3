//! Scene documents ready to persist: the metadata, the camera and the world
//! for each of the built-in setups. The embedding program serializes and
//! writes what these return.

use vstd::prelude::*;
use crate::camera::{Camera, camera_wf};
use crate::renderable::{Object, RenderableList, list_wf, list_bbox_sound};
use crate::scene::{
    SceneMetaData, standard_camera_ok, two_spheres, random_scene, random_scene_checker,
    is_ground_sphere, showcase_tail, grid_sphere_ok,
};
use crate::texture::{RenderableTexture, SolidColor, CheckerTexture};
use crate::util::{RandomSource, Vec3};

verus! {

/// A scene document for the two checkered spheres, at a four-to-three frame.
pub fn create_checker_spheres_test(destination_file_name: String, rng: &mut RandomSource) -> (res: (
    SceneMetaData,
    Camera,
    RenderableList,
))
    ensures
        res.0.file_name == destination_file_name,
        res.0.aspect_ratio == 1365,
        res.0.image_width == 400,
        res.0.image_height == 300,
        res.0.samples_per_pixel == 20,
        camera_wf(res.1),
        standard_camera_ok(res.1, Vec3 { x: 0i64, y: 0i64, z: 0i64 }, 1365),
        list_wf(res.2),
        list_bbox_sound(res.2),
        res.2.objects@.len() == 2,
        res.2.objects@[0] matches Object::Sphere(lo) && lo.center == (Vec3 {
            x: 0i64,
            y: -10240i64,
            z: 0i64,
        }) && lo.r == 10240 && !lo.is_moving,
        res.2.objects@[1] matches Object::Sphere(hi) && hi.center == (Vec3 {
            x: 0i64,
            y: 10240i64,
            z: 0i64,
        }) && hi.r == 10240 && !hi.is_moving,
{
    let camera = crate::scene::builder_camera(1365);
    let world = two_spheres();
    let scene_metadata = SceneMetaData {
        file_name: destination_file_name,
        aspect_ratio: 1365,
        image_width: 400,
        image_height: 300,
        samples_per_pixel: 20,
    };
    (scene_metadata, camera, world)
}

/// A scene document for the random checkered world, at a three-to-two frame.
pub fn create_checker_test(destination_file_name: String, rng: &mut RandomSource) -> (res: (
    SceneMetaData,
    Camera,
    RenderableList,
))
    ensures
        res.0.file_name == destination_file_name,
        res.0.aspect_ratio == 1536,
        res.0.image_width == 300,
        res.0.image_height == 200,
        res.0.samples_per_pixel == 20,
        camera_wf(res.1),
        standard_camera_ok(res.1, Vec3 { x: 0i64, y: 0i64, z: 0i64 }, 1536),
        list_wf(res.2),
        list_bbox_sound(res.2),
        res.2.objects@.len() >= 4,
        is_ground_sphere(
            res.2.objects@[0],
            RenderableTexture::CheckerTexture(
                CheckerTexture {
                    odd: SolidColor { color: Vec3 { x: 205i64, y: 307i64, z: 102i64 } },
                    even: SolidColor { color: Vec3 { x: 921i64, y: 921i64, z: 921i64 } },
                    inv_scale: 3206i64,
                },
            ),
        ),
        showcase_tail(res.2.objects@),
        forall|i: int|
            1 <= i < res.2.objects@.len() - 3 ==> grid_sphere_ok(#[trigger] res.2.objects@[i]),
{
    let world = random_scene_checker(rng);
    let cam = crate::scene::builder_camera(1536);
    let scene_metadata = SceneMetaData {
        file_name: destination_file_name,
        aspect_ratio: 1536,
        image_width: 300,
        image_height: 200,
        samples_per_pixel: 20,
    };
    (scene_metadata, cam, world)
}

/// A scene document for the random world, at a three-to-two frame.
pub fn create_test(destination_file_name: String, rng: &mut RandomSource) -> (res: (
    SceneMetaData,
    Camera,
    RenderableList,
))
    ensures
        res.0.file_name == destination_file_name,
        res.0.aspect_ratio == 1536,
        res.0.image_width == 300,
        res.0.image_height == 200,
        res.0.samples_per_pixel == 20,
        camera_wf(res.1),
        standard_camera_ok(res.1, Vec3 { x: 0i64, y: 0i64, z: 0i64 }, 1536),
        list_wf(res.2),
        list_bbox_sound(res.2),
        res.2.objects@.len() >= 4,
        is_ground_sphere(
            res.2.objects@[0],
            RenderableTexture::SolidColor(
                SolidColor { color: Vec3 { x: 512i64, y: 512i64, z: 512i64 } },
            ),
        ),
        showcase_tail(res.2.objects@),
        forall|i: int|
            1 <= i < res.2.objects@.len() - 3 ==> grid_sphere_ok(#[trigger] res.2.objects@[i]),
{
    let world = random_scene(rng);
    let cam = crate::scene::builder_camera(1536);
    let scene_metadata = SceneMetaData {
        file_name: destination_file_name,
        aspect_ratio: 1536,
        image_width: 300,
        image_height: 200,
        samples_per_pixel: 20,
    };
    (scene_metadata, cam, world)
}

/// The general document builder over the random world.
pub fn create(destination_file_name: String, rng: &mut RandomSource) -> (res: (
    SceneMetaData,
    Camera,
    RenderableList,
))
    ensures
        res.0.file_name == destination_file_name,
        res.0.aspect_ratio == 1536,
        res.0.image_width == 300,
        res.0.image_height == 200,
        res.0.samples_per_pixel == 20,
        camera_wf(res.1),
        standard_camera_ok(res.1, Vec3 { x: 0i64, y: 0i64, z: 0i64 }, 1536),
        list_wf(res.2),
        list_bbox_sound(res.2),
        res.2.objects@.len() >= 4,
        is_ground_sphere(
            res.2.objects@[0],
            RenderableTexture::SolidColor(
                SolidColor { color: Vec3 { x: 512i64, y: 512i64, z: 512i64 } },
            ),
        ),
        showcase_tail(res.2.objects@),
        forall|i: int|
            1 <= i < res.2.objects@.len() - 3 ==> grid_sphere_ok(#[trigger] res.2.objects@[i]),
{
    let world = random_scene(rng);
    let cam = crate::scene::builder_camera(1536);
    let scene_metadata = SceneMetaData {
        file_name: destination_file_name,
        aspect_ratio: 1536,
        image_width: 300,
        image_height: 200,
        samples_per_pixel: 20,
    };
    (scene_metadata, cam, world)
}

} // verus!
