//! Hit records, the closed set of renderable objects, and the flat object
//! list with its linear nearest-hit scan.
//!
//! The central specification here is `best_hit_t`: the smallest candidate
//! intersection parameter over a sequence of objects within a closed query
//! range. The linear scan returns exactly that parameter; the bounding-volume
//! hierarchy is proved against the same function.

use vstd::prelude::*;
use crate::aabb::{AABB, aabb_in, aabb_contains, aabb_union};
use crate::material::{RenderableMaterial, LambertianMaterial};
use crate::ray::Ray;
use crate::sphere::{
    Sphere, sphere_wf, sphere_hit_t, sphere_record_spec, lemma_sphere_hit_clip,
};
use crate::texture::{RenderableTexture, SolidColor};
use crate::util::{Interval, Point, Vec3, vec_in, dot_spec, neg_spec, tz_div_i128, lemma_abs_mul,
    SCALE, WORLD_MAX, ORIG_MAX, DIR_MAX, T_LIMIT};

verus! {

/// The transient result of a ray-surface intersection.
#[derive(Clone, Copy, Debug, PartialEq, Eq, Structural)]
pub struct HitRecord {
    pub point: Point,
    pub normal: Vec3,
    pub t: i64,
    pub u: i64,
    pub v: i64,
    pub front_face: bool,
    pub material_ptr: RenderableMaterial,
}

impl HitRecord {
    /// The inert record standing for "no hit".
    pub fn nothing() -> (r: HitRecord)
        ensures
            r.point == (Vec3 { x: 0i64, y: 0i64, z: 0i64 }),
            r.normal == (Vec3 { x: 0i64, y: 0i64, z: 0i64 }),
            r.t == 0,
            r.u == 0,
            r.v == 0,
            r.front_face == true,
    {
        HitRecord {
            point: Vec3::zero(),
            normal: Vec3::zero(),
            t: 0,
            u: 0,
            v: 0,
            front_face: true,
            material_ptr: RenderableMaterial::Lambertian(
                LambertianMaterial::new(
                    RenderableTexture::SolidColor(SolidColor::from_values(SCALE, SCALE, SCALE)),
                ),
            ),
        }
    }

    pub fn new(
        point: Point,
        normal: Vec3,
        t: i64,
        u: i64,
        v: i64,
        front_face: bool,
        material_ptr: RenderableMaterial,
    ) -> (r: HitRecord)
        ensures
            r == (HitRecord { point, normal, t, u, v, front_face, material_ptr }),
    {
        HitRecord { point, normal, t, u, v, front_face, material_ptr }
    }

    /// Whether the ray strikes the surface from outside: its direction and
    /// the outward normal point against each other.
    pub fn get_front_face(&self, ray: &Ray, outward_normal: &Vec3) -> (r: bool)
        requires
            vec_in(ray.direction, 0x4000_0000_0000_0000),
            vec_in(*outward_normal, 0x4000_0000_0000_0000),
        ensures
            r == (dot_spec(ray.direction, *outward_normal) < 0),
    {
        proof {
            lemma_abs_mul(ray.direction.x as int, outward_normal.x as int, 0x4000_0000_0000_0000, 0x4000_0000_0000_0000);
            lemma_abs_mul(ray.direction.y as int, outward_normal.y as int, 0x4000_0000_0000_0000, 0x4000_0000_0000_0000);
            lemma_abs_mul(ray.direction.z as int, outward_normal.z as int, 0x4000_0000_0000_0000, 0x4000_0000_0000_0000);
        }
        let s: i128 = (ray.direction.x as i128) * (outward_normal.x as i128) + (
        ray.direction.y as i128) * (outward_normal.y as i128) + (ray.direction.z as i128) * (
        outward_normal.z as i128);
        let q = tz_div_i128(s, SCALE as i128);
        q < 0
    }

    /// Orient the stored normal against the incoming ray and set the flag.
    pub fn set_face_normal(&mut self, ray: &Ray, outward_normal: &Vec3)
        requires
            vec_in(ray.direction, 0x4000_0000_0000_0000),
            vec_in(*outward_normal, 0x4000_0000_0000_0000),
            outward_normal.x > i64::MIN,
            outward_normal.y > i64::MIN,
            outward_normal.z > i64::MIN,
        ensures
            final (self).front_face == (dot_spec(ray.direction, *outward_normal) < 0),
            final (self).normal == if dot_spec(ray.direction, *outward_normal) < 0 {
                *outward_normal
            } else {
                neg_spec(*outward_normal)
            },
            final (self).point == old(self).point,
            final (self).t == old(self).t,
            final (self).u == old(self).u,
            final (self).v == old(self).v,
            final (self).material_ptr == old(self).material_ptr,
    {
        let front = self.get_front_face(ray, outward_normal);
        self.front_face = front;
        self.normal = if front {
            *outward_normal
        } else {
            outward_normal.neg()
        };
    }
}

/// The closed set of renderable variants.
#[derive(Clone, Copy, Debug, PartialEq, Eq, Structural)]
pub enum Object {
    Sphere(Sphere),
    AABB(AABB),
}

pub open spec fn object_wf(o: Object) -> bool {
    match o {
        Object::Sphere(s) => sphere_wf(s),
        Object::AABB(b) => aabb_in(b, 2 * WORLD_MAX as int),
    }
}

/// The candidate hit parameter of one object within the closed range. A bare
/// box is a culling volume only: it never yields a hit.
pub open spec fn object_hit_t(o: Object, r: Ray, imin: int, imax: int) -> Option<int> {
    match o {
        Object::Sphere(s) => sphere_hit_t(s, r, imin, imax),
        Object::AABB(b) => None,
    }
}

/// The hit record an object produces for a given parameter. A bare box
/// yields no record; its arm is never reached.
pub open spec fn object_record(o: Object, r: Ray, t: int) -> HitRecord {
    match o {
        Object::Sphere(s) => sphere_record_spec(s, r, t),
        Object::AABB(b) => HitRecord {
            point: Vec3 { x: 0i64, y: 0i64, z: 0i64 },
            normal: Vec3 { x: 0i64, y: 0i64, z: 0i64 },
            t: t as i64,
            u: 0i64,
            v: 0i64,
            front_face: true,
            material_ptr: RenderableMaterial::Lambertian(
                LambertianMaterial {
                    albedo: RenderableTexture::SolidColor(
                        SolidColor { color: Vec3 { x: 0i64, y: 0i64, z: 0i64 } },
                    ),
                },
            ),
        },
    }
}

pub open spec fn object_bbox(o: Object) -> AABB {
    match o {
        Object::Sphere(s) => s.bbox,
        Object::AABB(b) => b,
    }
}

impl Object {
    pub fn empty() -> (r: Object)
        ensures
            r == Object::AABB(
                AABB {
                    x_interval: Interval { min: 0i64, max: 0i64 },
                    y_interval: Interval { min: 0i64, max: 0i64 },
                    z_interval: Interval { min: 0i64, max: 0i64 },
                },
            ),
    {
        Object::AABB(AABB::empty())
    }

    pub fn bounding_box(&self) -> (r: AABB)
        ensures
            r == object_bbox(*self),
    {
        match self {
            Object::Sphere(s) => s.bounding_box(),
            Object::AABB(b) => *b,
        }
    }

    pub fn hit(&self, ray: &Ray, interval: Interval) -> (res: Option<HitRecord>)
        requires
            object_wf(*self),
            vec_in(ray.origin, ORIG_MAX as int),
            vec_in(ray.direction, DIR_MAX as int),
            0 <= ray.time <= SCALE,
            -(T_LIMIT as int) <= interval.min,
            interval.max <= T_LIMIT as int,
        ensures
            res is Some <==> object_hit_t(*self, *ray, interval.min as int, interval.max as int)
                is Some,
            res matches Some(rec) ==> {
                &&& object_hit_t(*self, *ray, interval.min as int, interval.max as int) == Some(
                    rec.t as int,
                )
                &&& interval.min <= rec.t <= interval.max
                &&& rec == object_record(*self, *ray, rec.t as int)
            },
    {
        match self {
            Object::Sphere(s) => s.hit(ray, interval),
            Object::AABB(b) => None,
        }
    }
}

/// The smallest of two optional parameters.
pub open spec fn opt_min(a: Option<int>, b: Option<int>) -> Option<int> {
    match (a, b) {
        (Some(x), Some(y)) => if x <= y {
            Some(x)
        } else {
            Some(y)
        },
        (Some(x), None) => Some(x),
        (None, Some(y)) => Some(y),
        (None, None) => None,
    }
}

/// The smallest candidate hit parameter over a sequence of objects, within
/// the closed range `[imin, imax]`. This single function defines what every
/// nearest-hit query must return.
pub open spec fn best_hit_t(objs: Seq<Object>, r: Ray, imin: int, imax: int) -> Option<int>
    decreases objs.len(),
{
    if objs.len() == 0 {
        None
    } else {
        opt_min(
            best_hit_t(objs.drop_last(), r, imin, imax),
            object_hit_t(objs.last(), r, imin, imax),
        )
    }
}

/// Shrinking the upper end of the range to or below the best parameter
/// keeps the query's answer; shrinking it below every candidate empties it.
pub proof fn lemma_object_hit_clip(o: Object, r: Ray, imin: int, imax: int, m: int)
    requires
        m <= imax,
    ensures
        object_hit_t(o, r, imin, imax) matches Some(t) ==> ((t <= m ==> object_hit_t(o, r, imin, m)
            == Some(t)) && (m < t ==> object_hit_t(o, r, imin, m) is None)),
        object_hit_t(o, r, imin, imax) is None ==> object_hit_t(o, r, imin, m) is None,
{
    match o {
        Object::Sphere(s) => {
            lemma_sphere_hit_clip(s, r, imin, imax, m);
        },
        Object::AABB(b) => {},
    }
}

/// A flat list of renderables with a running union bounding box: the linear
/// fallback to the hierarchy.
#[derive(Clone, Debug)]
pub struct RenderableList {
    pub objects: Vec<Object>,
    pub bbox: AABB,
}

pub open spec fn list_wf(l: RenderableList) -> bool {
    forall|i: int| 0 <= i < l.objects@.len() ==> object_wf(#[trigger] l.objects@[i])
}

/// The list's running box encloses the box of every object it holds.
pub open spec fn list_bbox_sound(l: RenderableList) -> bool {
    forall|i: int|
        0 <= i < l.objects@.len() ==> aabb_contains(
            l.bbox,
            object_bbox(#[trigger] l.objects@[i]),
        )
}

impl RenderableList {
    pub fn new() -> (r: RenderableList)
        ensures
            r.objects@.len() == 0,
            r.bbox == (AABB {
                x_interval: Interval { min: 0i64, max: 0i64 },
                y_interval: Interval { min: 0i64, max: 0i64 },
                z_interval: Interval { min: 0i64, max: 0i64 },
            }),
            list_wf(r),
            list_bbox_sound(r),
    {
        RenderableList { objects: Vec::new(), bbox: AABB::empty() }
    }

    /// Append an object; the list box grows to the union.
    pub fn add(&mut self, to_render: Object)
        requires
            object_wf(to_render),
        ensures
            final (self).objects@ == old(self).objects@.push(to_render),
            final (self).bbox == aabb_union(old(self).bbox, object_bbox(to_render)),
            list_wf(*old(self)) ==> list_wf(*final (self)),
            list_bbox_sound(*old(self)) ==> list_bbox_sound(*final (self)),
    {
        self.objects.push(to_render);
        let b = to_render.bounding_box();
        self.bbox = AABB::new_from_bbox(self.bbox, b);
    }

    /// The nearest hit by brute-force scan: test every object, narrowing the
    /// range's upper end to the best parameter found so far. Returns exactly
    /// the `best_hit_t` of the whole list.
    pub fn hit(&self, ray: &Ray, interval: Interval) -> (res: Option<HitRecord>)
        requires
            list_wf(*self),
            vec_in(ray.origin, ORIG_MAX as int),
            vec_in(ray.direction, DIR_MAX as int),
            0 <= ray.time <= SCALE,
            -(T_LIMIT as int) <= interval.min,
            interval.max <= T_LIMIT as int,
        ensures
            res is Some <==> best_hit_t(self.objects@, *ray, interval.min as int, interval.max as int) is Some,
            res matches Some(rec) ==> {
                &&& best_hit_t(self.objects@, *ray, interval.min as int, interval.max as int)
                    == Some(rec.t as int)
                &&& interval.min <= rec.t <= interval.max
                &&& exists|i: int|
                    0 <= i < self.objects@.len() && object_hit_t(
                        #[trigger] self.objects@[i],
                        *ray,
                        interval.min as int,
                        rec.t as int,
                    ) == Some(rec.t as int) && rec == object_record(self.objects@[i], *ray, rec.t as int)
            },
    {
        let imin = interval.min;
        let imax = interval.max;
        let ghost full = self.objects@;
        let mut final_rec: Option<HitRecord> = None;
        let mut closest_yet: i64 = imax;
        let n = self.objects.len();
        let mut k: usize = 0;
        while k < n
            invariant
                n == self.objects@.len(),
                0 <= k <= n,
                list_wf(*self),
                vec_in(ray.origin, ORIG_MAX as int),
                vec_in(ray.direction, DIR_MAX as int),
                0 <= ray.time <= SCALE,
                -(T_LIMIT as int) <= imin,
                imax <= T_LIMIT as int,
                full == self.objects@,
                match final_rec {
                    None => {
                        &&& closest_yet == imax
                        &&& best_hit_t(full.take(k as int), *ray, imin as int, imax as int) is None
                    },
                    Some(rec) => {
                        &&& closest_yet == rec.t
                        &&& imin <= rec.t <= imax
                        &&& best_hit_t(full.take(k as int), *ray, imin as int, imax as int)
                            == Some(rec.t as int)
                        &&& exists|i: int|
                            0 <= i < k && object_hit_t(
                                #[trigger] full[i],
                                *ray,
                                imin as int,
                                rec.t as int,
                            ) == Some(rec.t as int) && rec == object_record(full[i], *ray, rec.t as int)
                    },
                },
            decreases n - k,
        {
            let obj = self.objects[k];
            let sub = obj.hit(ray, Interval { min: imin, max: closest_yet });
            proof {
                assert(full.take(k as int + 1).drop_last() =~= full.take(k as int));
                assert(full.take(k as int + 1).last() == full[k as int]);
                lemma_object_hit_clip(full[k as int], *ray, imin as int, imax as int, closest_yet as int);
            }
            match sub {
                Some(rec) => {
                    proof {
                        // A hit within the narrowed range is a hit within the
                        // full range with the same parameter, and stays the
                        // answer when the range shrinks onto it.
                        lemma_object_hit_extend(
                            full[k as int],
                            *ray,
                            imin as int,
                            closest_yet as int,
                            imax as int,
                        );
                        lemma_object_hit_clip(
                            full[k as int],
                            *ray,
                            imin as int,
                            closest_yet as int,
                            rec.t as int,
                        );
                    }
                    closest_yet = rec.t;
                    final_rec = Some(rec);
                },
                None => {},
            }
            k = k + 1;
        }
        proof {
            assert(full.take(n as int) =~= full);
        }
        final_rec
    }
}

/// Whether one optional parameter is no farther than another; `None` counts
/// as infinitely far.
pub open spec fn opt_le(a: Option<int>, b: Option<int>) -> bool {
    match (a, b) {
        (Some(t), Some(u)) => t <= u,
        (None, Some(_)) => false,
        _ => true,
    }
}

/// A reported best parameter lies inside the closed query range.
pub proof fn lemma_best_in_range(objs: Seq<Object>, r: Ray, imin: int, imax: int)
    ensures
        best_hit_t(objs, r, imin, imax) matches Some(t) ==> imin <= t <= imax,
    decreases objs.len(),
{
    if objs.len() > 0 {
        lemma_best_in_range(objs.drop_last(), r, imin, imax);
    }
}

/// The best parameter is a parameter of some object, and no object answers
/// with anything nearer.
pub proof fn lemma_best_char(objs: Seq<Object>, r: Ray, imin: int, imax: int)
    ensures
        best_hit_t(objs, r, imin, imax) matches Some(t) ==> exists|i: int|
            0 <= i < objs.len() && object_hit_t(#[trigger] objs[i], r, imin, imax) == Some(t),
        forall|i: int|
            0 <= i < objs.len() ==> opt_le(
                best_hit_t(objs, r, imin, imax),
                object_hit_t(#[trigger] objs[i], r, imin, imax),
            ),
    decreases objs.len(),
{
    if objs.len() > 0 {
        lemma_best_char(objs.drop_last(), r, imin, imax);
        let pre = objs.drop_last();
        assert(forall|i: int| 0 <= i < pre.len() ==> pre[i] == objs[i]);
        match best_hit_t(objs, r, imin, imax) {
            Some(t) => {
                if best_hit_t(pre, r, imin, imax) == Some(t) {
                    let i = choose|i: int|
                        0 <= i < pre.len() && object_hit_t(#[trigger] pre[i], r, imin, imax)
                            == Some(t);
                    assert(object_hit_t(objs[i], r, imin, imax) == Some(t));
                } else {
                    assert(object_hit_t(objs[objs.len() - 1], r, imin, imax) == Some(t));
                }
            },
            None => {},
        }
    }
}

/// When no object answers, neither does the fold.
pub proof fn lemma_best_all_none(objs: Seq<Object>, r: Ray, imin: int, imax: int)
    requires
        forall|i: int|
            0 <= i < objs.len() ==> object_hit_t(#[trigger] objs[i], r, imin, imax) is None,
    ensures
        best_hit_t(objs, r, imin, imax) is None,
    decreases objs.len(),
{
    if objs.len() > 0 {
        let pre = objs.drop_last();
        assert(forall|i: int| 0 <= i < pre.len() ==> pre[i] == objs[i]);
        lemma_best_all_none(pre, r, imin, imax);
        assert(object_hit_t(objs[objs.len() - 1], r, imin, imax) is None);
    }
}

/// The fold distributes over concatenation as a minimum.
pub proof fn lemma_best_concat(a: Seq<Object>, b: Seq<Object>, r: Ray, imin: int, imax: int)
    ensures
        best_hit_t(a + b, r, imin, imax) == opt_min(
            best_hit_t(a, r, imin, imax),
            best_hit_t(b, r, imin, imax),
        ),
    decreases b.len(),
{
    if b.len() == 0 {
        assert(a + b =~= a);
    } else {
        lemma_best_concat(a, b.drop_last(), r, imin, imax);
        assert((a + b).drop_last() =~= a + b.drop_last());
        assert((a + b).last() == b.last());
    }
}

/// Shrinking the upper end of the range onto the best answer keeps it; below
/// every answer, the query comes up empty (the minimum structure of the fold).
pub proof fn lemma_best_clip(objs: Seq<Object>, r: Ray, imin: int, imax: int, m: int)
    requires
        m <= imax,
    ensures
        best_hit_t(objs, r, imin, imax) matches Some(t) ==> ((t <= m ==> best_hit_t(
            objs,
            r,
            imin,
            m,
        ) == Some(t)) && (m < t ==> best_hit_t(objs, r, imin, m) is None)),
        best_hit_t(objs, r, imin, imax) is None ==> best_hit_t(objs, r, imin, m) is None,
    decreases objs.len(),
{
    if objs.len() > 0 {
        lemma_best_clip(objs.drop_last(), r, imin, imax, m);
        lemma_object_hit_clip(objs.last(), r, imin, imax, m);
    }
}

/// The best hit parameter depends only on the multiset of objects: input
/// order never changes which nearest parameter a query reports.
pub proof fn lemma_best_hit_order_invariant(
    objs1: Seq<Object>,
    objs2: Seq<Object>,
    r: Ray,
    imin: int,
    imax: int,
)
    requires
        objs1.to_multiset() == objs2.to_multiset(),
    ensures
        best_hit_t(objs1, r, imin, imax) == best_hit_t(objs2, r, imin, imax),
{
    broadcast use vstd::seq_lib::group_to_multiset_ensures;

    lemma_best_char(objs1, r, imin, imax);
    lemma_best_char(objs2, r, imin, imax);
    let b1 = best_hit_t(objs1, r, imin, imax);
    let b2 = best_hit_t(objs2, r, imin, imax);
    match (b1, b2) {
        (Some(t1), Some(t2)) => {
            let i1 = choose|i: int|
                0 <= i < objs1.len() && object_hit_t(#[trigger] objs1[i], r, imin, imax) == Some(
                    t1,
                );
            assert(objs2.to_multiset().count(objs1[i1]) > 0);
            assert(objs2.contains(objs1[i1]));
            let j1 = choose|j: int| 0 <= j < objs2.len() && objs2[j] == objs1[i1];
            assert(opt_le(b2, object_hit_t(objs2[j1], r, imin, imax)));
            let i2 = choose|i: int|
                0 <= i < objs2.len() && object_hit_t(#[trigger] objs2[i], r, imin, imax) == Some(
                    t2,
                );
            assert(objs1.to_multiset().count(objs2[i2]) > 0);
            assert(objs1.contains(objs2[i2]));
            let j2 = choose|j: int| 0 <= j < objs1.len() && objs1[j] == objs2[i2];
            assert(opt_le(b1, object_hit_t(objs1[j2], r, imin, imax)));
        },
        (Some(t1), None) => {
            let i1 = choose|i: int|
                0 <= i < objs1.len() && object_hit_t(#[trigger] objs1[i], r, imin, imax) == Some(
                    t1,
                );
            assert(objs2.to_multiset().count(objs1[i1]) > 0);
            assert(objs2.contains(objs1[i1]));
            let j1 = choose|j: int| 0 <= j < objs2.len() && objs2[j] == objs1[i1];
            assert(opt_le(b2, object_hit_t(objs2[j1], r, imin, imax)));
        },
        (None, Some(t2)) => {
            let i2 = choose|i: int|
                0 <= i < objs2.len() && object_hit_t(#[trigger] objs2[i], r, imin, imax) == Some(
                    t2,
                );
            assert(objs1.to_multiset().count(objs2[i2]) > 0);
            assert(objs1.contains(objs2[i2]));
            let j2 = choose|j: int| 0 <= j < objs1.len() && objs1[j] == objs2[i2];
            assert(opt_le(b1, object_hit_t(objs1[j2], r, imin, imax)));
        },
        (None, None) => {},
    }
}

/// A hit found within a narrowed range is the answer for the full range too.
pub proof fn lemma_object_hit_extend(o: Object, r: Ray, imin: int, m: int, imax: int)
    requires
        m <= imax,
    ensures
        object_hit_t(o, r, imin, m) matches Some(t) ==> object_hit_t(o, r, imin, imax) == Some(t),
{
    match o {
        Object::Sphere(s) => {
            crate::sphere::lemma_sphere_hit_extend(s, r, imin, m, imax);
        },
        Object::AABB(b) => {},
    }
}

} // verus!
