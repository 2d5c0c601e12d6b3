//! Intersection behavior: the slab test, sphere hits, and the equivalence
//! of the hierarchy with the brute-force scan.

use raytracer::aabb::{AABB, BvhNode};
use raytracer::material::{LambertianMaterial, RenderableMaterial};
use raytracer::ray::Ray;
use raytracer::renderable::{Object, RenderableList};
use raytracer::sphere::Sphere;
use raytracer::texture::{RenderableTexture, SolidColor};
use raytracer::util::{Interval, RandomSource, Vec3, SCALE};

fn v(x: i64, y: i64, z: i64) -> Vec3 {
    Vec3::new(x * SCALE, y * SCALE, z * SCALE)
}

fn gray() -> RenderableMaterial {
    RenderableMaterial::Lambertian(LambertianMaterial::new(RenderableTexture::SolidColor(
        SolidColor::from_values(512, 512, 512),
    )))
}

#[test]
fn sphere_is_hit_when_ray_cast_hitting_directly() {
    let sphere_a = Sphere::new(v(-5, -5, 0), 2 * SCALE, gray());
    let r = Ray::new(v(-5, -5, -5), v(0, 0, 5));
    let hit = sphere_a.hit(&r, Interval { min: 0, max: 10 * SCALE });
    assert!(hit.is_some());
}

#[test]
fn sphere_frontal_hit_reports_exact_parameter_and_normal() {
    // Unit sphere at (0, 0, -5), ray along the negative axis from the origin.
    let sphere = Sphere::new(v(0, 0, -5), SCALE, gray());
    let r = Ray::new(v(0, 0, 0), v(0, 0, -1));
    let rec = sphere.hit(&r, Interval { min: 0, max: 10 * SCALE }).unwrap();
    assert_eq!(rec.t, 4 * SCALE);
    assert_eq!(rec.normal, v(0, 0, 1));
    assert!(rec.front_face);
    assert_eq!(rec.point, v(0, 0, -4));
}

#[test]
fn sphere_missed_by_offset_ray() {
    let sphere = Sphere::new(v(0, 0, -5), SCALE, gray());
    let r = Ray::new(v(0, 2, 0), v(0, 0, -1));
    assert!(sphere.hit(&r, Interval { min: 0, max: 10 * SCALE }).is_none());
}

#[test]
fn slab_test_accepts_a_ray_through_the_box() {
    let b = AABB::new_from_pts(v(-1, -1, -1), v(1, 1, 1));
    let r = Ray::new(v(-5, 0, 0), v(1, 0, 0));
    assert!(b.hit(&r, Interval { min: 0, max: 10 * SCALE }));
}

#[test]
fn slab_test_rejects_a_ray_beside_the_box() {
    let b = AABB::new_from_pts(v(-1, -1, -1), v(1, 1, 1));
    let r = Ray::new(v(-5, 3, 0), v(1, 0, 0));
    assert!(!b.hit(&r, Interval { min: 0, max: 10 * SCALE }));
}

#[test]
fn slab_test_rejects_when_range_ends_before_the_box() {
    let b = AABB::new_from_pts(v(-1, -1, -1), v(1, 1, 1));
    let r = Ray::new(v(-5, 0, 0), v(1, 0, 0));
    assert!(!b.hit(&r, Interval { min: 0, max: 2 * SCALE }));
}

#[test]
fn degenerate_box_is_never_hit() {
    let b = AABB::empty();
    let through_origin = Ray::new(v(-5, 0, 0), v(1, 0, 0));
    let beside = Ray::new(v(-5, 1, 0), v(1, 0, 0));
    assert!(!b.hit(&through_origin, Interval { min: -10 * SCALE, max: 10 * SCALE }));
    assert!(!b.hit(&beside, Interval { min: -10 * SCALE, max: 10 * SCALE }));
}

#[test]
fn should_hit_aabb_of_sphere() {
    let bbox = Sphere::new(v(0, 5, 0), 5 * SCALE, gray()).bbox;
    // A ray along the box's lower face plane grazes it; the open interior
    // demands strict passage, so this one aims slightly upward.
    let upward = Ray::new(v(0, 1, 0), v(10, 0, 0));
    assert!(bbox.hit(&upward, Interval { min: 0, max: 10 * SCALE }));
}

#[test]
fn should_not_hit_aabb_of_sphere() {
    let bbox = Sphere::new(v(5, 0, 0), SCALE, gray()).bbox;
    let r = Ray::new(v(0, 0, 0), v(0, 10, 0));
    assert!(!bbox.hit(&r, Interval { min: 0, max: 10 * SCALE }));
}

fn three_sphere_world() -> Vec<Object> {
    vec![
        Object::Sphere(Sphere::new(v(-5, -5, 0), 2 * SCALE, gray())),
        Object::Sphere(Sphere::new(v(0, 0, 0), 2 * SCALE, gray())),
        Object::Sphere(Sphere::new(v(5, 5, 0), 2 * SCALE, gray())),
    ]
}

#[test]
fn bvh_matches_linear_scan_on_sample_rays() {
    let objects = three_sphere_world();
    let mut list = RenderableList::new();
    for o in &objects {
        list.add(*o);
    }
    let mut rng = RandomSource::new(42);
    let root = BvhNode::new_from_renderables(&objects, &mut rng);
    let rays = vec![
        Ray::new(v(-5, -5, -5), v(0, 0, 5)),
        Ray::new(v(0, 0, -5), v(0, 0, 5)),
        Ray::new(v(5, 5, -5), v(0, 0, 5)),
        Ray::new(v(-10, 0, 0), v(5, 0, 0)),
        Ray::new(v(0, -10, 0), v(0, 5, 0)),
        Ray::new(v(9, 9, 9), v(1, 1, 1)),
    ];
    for r in &rays {
        let interval = Interval { min: 1, max: 100 * SCALE };
        let from_list = list.hit(r, interval);
        let from_tree = root.hit(r, interval);
        match (from_list, from_tree) {
            (None, None) => {}
            (Some(a), Some(b)) => {
                assert_eq!(a.t, b.t);
                assert_eq!(a.point, b.point);
            }
            _ => panic!("hierarchy and linear scan disagree"),
        }
    }
}

#[test]
fn bvh_hits_agree_across_input_orderings() {
    let objects = three_sphere_world();
    let mut reversed = objects.clone();
    reversed.reverse();
    let mut rng1 = RandomSource::new(1);
    let mut rng2 = RandomSource::new(99);
    let t1 = BvhNode::new_from_renderables(&objects, &mut rng1);
    let t2 = BvhNode::new_from_renderables(&reversed, &mut rng2);
    let rays = vec![
        Ray::new(v(-5, -5, -5), v(0, 0, 5)),
        Ray::new(v(0, 0, -5), v(0, 0, 5)),
        Ray::new(v(5, 5, -5), v(0, 0, 5)),
        Ray::new(v(2, 2, -7), v(0, 0, 3)),
    ];
    for r in &rays {
        let interval = Interval { min: 1, max: 100 * SCALE };
        let a = t1.hit(r, interval);
        let b = t2.hit(r, interval);
        match (a, b) {
            (None, None) => {}
            (Some(x), Some(y)) => {
                assert_eq!(x.t, y.t);
                assert_eq!(x.point, y.point);
            }
            _ => panic!("tree shape changed the set of hits"),
        }
    }
}

#[test]
fn empty_world_never_reports_a_hit() {
    let objects: Vec<Object> = vec![];
    let mut rng = RandomSource::new(5);
    let root = BvhNode::new_from_renderables(&objects, &mut rng);
    let r = Ray::new(v(0, 0, 0), v(0, 0, 5));
    assert!(root.hit(&r, Interval { min: 0, max: 100 * SCALE }).is_none());
    let list = RenderableList::new();
    assert!(list.hit(&r, Interval { min: 0, max: 100 * SCALE }).is_none());
}

#[test]
fn nearest_of_two_spheres_wins() {
    let mut list = RenderableList::new();
    list.add(Object::Sphere(Sphere::new(v(0, 0, -10), SCALE, gray())));
    list.add(Object::Sphere(Sphere::new(v(0, 0, -5), SCALE, gray())));
    let r = Ray::new(v(0, 0, 0), v(0, 0, -1));
    let rec = list.hit(&r, Interval { min: 0, max: 100 * SCALE }).unwrap();
    assert_eq!(rec.t, 4 * SCALE);
}

#[test]
fn bare_box_object_yields_no_record() {
    let o = Object::AABB(AABB::new_from_pts(v(-1, -1, -1), v(1, 1, 1)));
    let r = Ray::new(v(-5, 0, 0), v(1, 0, 0));
    assert!(o.hit(&r, Interval { min: 0, max: 10 * SCALE }).is_none());
}

#[test]
fn slab_test_rejects_a_ray_grazing_a_face() {
    // Running exactly in the lower face plane never enters the open interior.
    let b = AABB::new_from_pts(v(-1, -1, -1), v(1, 1, 1));
    let grazing = Ray::new(v(-5, -1, 0), v(1, 0, 0));
    assert!(!b.hit(&grazing, Interval { min: 0, max: 10 * SCALE }));
}

#[test]
fn slab_test_handles_negative_directions() {
    let b = AABB::new_from_pts(v(-1, -1, -1), v(1, 1, 1));
    let from_beyond = Ray::new(v(5, 0, 0), v(-1, 0, 0));
    assert!(b.hit(&from_beyond, Interval { min: 0, max: 10 * SCALE }));
    assert!(!b.hit(&from_beyond, Interval { min: 7 * SCALE, max: 10 * SCALE }));
}

#[test]
fn slab_test_accepts_a_ray_starting_inside() {
    let b = AABB::new_from_pts(v(-1, -1, -1), v(1, 1, 1));
    let inside = Ray::new(v(0, 0, 0), v(0, 1, 0));
    assert!(b.hit(&inside, Interval { min: 0, max: 10 * SCALE }));
}

#[test]
fn moving_sphere_box_spans_both_endpoints() {
    let s = Sphere::new_moving(v(0, 0, 0), SCALE, gray(), Vec3::new(0, 512, 0));
    assert_eq!(s.bbox.x_interval, Interval { min: -1024, max: 1024 });
    assert_eq!(s.bbox.y_interval, Interval { min: -1024, max: 1536 });
    assert_eq!(s.bbox.z_interval, Interval { min: -1024, max: 1024 });
    assert!(s.is_moving);
    assert_eq!(s.center_vec, Vec3::new(0, 512, 0));
}

#[test]
fn exact_tie_goes_to_the_left_subtree() {
    // Two spheres with identical geometry but different materials: both
    // answer with the same parameter, and the first-listed one must win.
    let red = RenderableMaterial::Lambertian(LambertianMaterial::new(
        RenderableTexture::SolidColor(SolidColor::from_values(SCALE, 0, 0)),
    ));
    let blue = RenderableMaterial::Lambertian(LambertianMaterial::new(
        RenderableTexture::SolidColor(SolidColor::from_values(0, 0, SCALE)),
    ));
    let objects = vec![
        Object::Sphere(Sphere::new(v(0, 0, -5), SCALE, red)),
        Object::Sphere(Sphere::new(v(0, 0, -5), SCALE, blue)),
    ];
    let mut rng = RandomSource::new(21);
    let root = BvhNode::new_from_renderables(&objects, &mut rng);
    let r = Ray::new(v(0, 0, 0), v(0, 0, -1));
    let rec = root.hit(&r, Interval { min: 1, max: 10 * SCALE }).unwrap();
    assert_eq!(rec.t, 4 * SCALE);
    assert_eq!(rec.material_ptr, red);
}
