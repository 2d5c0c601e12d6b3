//! Axis-aligned bounding boxes and the exact slab intersection test.
//!
//! The slab test decides whether the parametric line of a ray passes through
//! the open interior of a box with the ray parameter strictly inside the
//! query interval. Candidate plane parameters are kept as exact fractions, so
//! the test returns true if and only if such a rational parameter exists
//! (`slab_hit`); no rounding is involved.

use vstd::prelude::*;
use vstd::arithmetic::mul::lemma_mul_inequality;
use vstd::seq_lib::lemma_multiset_commutative;
use crate::util::{Interval, Point, RandomSource, vec_in, SCALE, WORLD_MAX, ORIG_MAX, DIR_MAX, T_LIMIT};
use crate::ray::Ray;
use crate::renderable::{
    Object, HitRecord, object_wf, object_bbox, object_hit_t, object_record, best_hit_t, opt_min,
    lemma_object_hit_clip, lemma_best_in_range, lemma_best_all_none, lemma_best_concat,
    lemma_best_clip, lemma_best_hit_order_invariant,
};
use crate::sphere::{sphere_a, sphere_disc, sphere_root_near, sphere_root_far};

verus! {

#[derive(Clone, Copy, Debug, PartialEq, Eq, Structural)]
pub struct AABB {
    pub x_interval: Interval,
    pub y_interval: Interval,
    pub z_interval: Interval,
}

/// Every bound of the box within `[-m, m]`.
pub open spec fn aabb_in(b: AABB, m: int) -> bool {
    &&& -m <= b.x_interval.min <= m
    &&& -m <= b.x_interval.max <= m
    &&& -m <= b.y_interval.min <= m
    &&& -m <= b.y_interval.max <= m
    &&& -m <= b.z_interval.min <= m
    &&& -m <= b.z_interval.max <= m
}

/// The smallest box holding both: the axis-wise minimum of minima and
/// maximum of maxima.
pub open spec fn aabb_union(a: AABB, b: AABB) -> AABB {
    AABB {
        x_interval: Interval {
            min: if a.x_interval.min <= b.x_interval.min {
                a.x_interval.min
            } else {
                b.x_interval.min
            },
            max: if a.x_interval.max >= b.x_interval.max {
                a.x_interval.max
            } else {
                b.x_interval.max
            },
        },
        y_interval: Interval {
            min: if a.y_interval.min <= b.y_interval.min {
                a.y_interval.min
            } else {
                b.y_interval.min
            },
            max: if a.y_interval.max >= b.y_interval.max {
                a.y_interval.max
            } else {
                b.y_interval.max
            },
        },
        z_interval: Interval {
            min: if a.z_interval.min <= b.z_interval.min {
                a.z_interval.min
            } else {
                b.z_interval.min
            },
            max: if a.z_interval.max >= b.z_interval.max {
                a.z_interval.max
            } else {
                b.z_interval.max
            },
        },
    }
}

/// `outer` encloses `inner` on every axis.
pub open spec fn aabb_contains(outer: AABB, inner: AABB) -> bool {
    &&& outer.x_interval.min <= inner.x_interval.min
    &&& inner.x_interval.max <= outer.x_interval.max
    &&& outer.y_interval.min <= inner.y_interval.min
    &&& inner.y_interval.max <= outer.y_interval.max
    &&& outer.z_interval.min <= inner.z_interval.min
    &&& inner.z_interval.max <= outer.z_interval.max
}

/// At ray parameter `qn / qd` (a raw-scaled scalar) the ray coordinate
/// `o + (q / SCALE) * d` lies strictly inside the open slab `(lo, hi)`.
/// Both sides are multiplied by the positive `SCALE * qd`.
pub open spec fn axis_inside(lo: int, hi: int, o: int, d: int, qn: int, qd: int) -> bool {
    &&& (SCALE as int) * lo * qd < (SCALE as int) * o * qd + qn * d
    &&& (SCALE as int) * o * qd + qn * d < (SCALE as int) * hi * qd
}

/// The fraction `qn / qd` lies strictly between the scalars `lo` and `hi`.
pub open spec fn param_between(lo: int, hi: int, qn: int, qd: int) -> bool {
    lo * qd < qn && qn < hi * qd
}

/// The ray's parametric line passes through the open interior of the box at
/// some rational parameter strictly inside `(imin, imax)`. This is the exact
/// geometric meaning of the slab test.
pub open spec fn slab_hit(b: AABB, r: Ray, imin: int, imax: int) -> bool {
    exists|qn: int, qd: int|
        {
            &&& qd >= 1
            &&& #[trigger] param_between(imin, imax, qn, qd)
            &&& axis_inside(
                b.x_interval.min as int,
                b.x_interval.max as int,
                r.origin.x as int,
                r.direction.x as int,
                qn,
                qd,
            )
            &&& axis_inside(
                b.y_interval.min as int,
                b.y_interval.max as int,
                r.origin.y as int,
                r.direction.y as int,
                qn,
                qd,
            )
            &&& axis_inside(
                b.z_interval.min as int,
                b.z_interval.max as int,
                r.origin.z as int,
                r.direction.z as int,
                qn,
                qd,
            )
        }
}

/// The fraction `qn / qd` lies strictly between `ln / ld` and `hn / hd`.
spec fn frac_between(ln: int, ld: int, hn: int, hd: int, qn: int, qd: int) -> bool {
    ln * qd < qn * ld && qn * hd < hn * qd
}

/// A running lower and upper bound, each an exact fraction with a positive
/// denominator.
struct SlabWindow {
    ln: i64,
    ld: i64,
    hn: i64,
    hd: i64,
}

spec fn window_wf(w: SlabWindow) -> bool {
    w.ld >= 1 && w.hd >= 1
}

spec fn window_between(w: SlabWindow, qn: int, qd: int) -> bool {
    frac_between(w.ln as int, w.ld as int, w.hn as int, w.hd as int, qn, qd)
}

/// `a/b <= c/d` carries a strict lower bound up: `c/d < qn/qd` implies
/// `a/b < qn/qd`, for positive denominators.
proof fn lemma_frac_le_lt(a: int, b: int, c: int, d: int, qn: int, qd: int)
    by (nonlinear_arith)
    requires
        b >= 1,
        d >= 1,
        qd >= 1,
        a * d <= c * b,
    ensures
        c * qd < qn * d ==> a * qd < qn * b,
{
}

/// `c/d <= a/b` carries a strict upper bound up: `qn/qd < c/d` implies
/// `qn/qd < a/b`, for positive denominators.
proof fn lemma_frac_lt_le(a: int, b: int, c: int, d: int, qn: int, qd: int)
    by (nonlinear_arith)
    requires
        b >= 1,
        d >= 1,
        qd >= 1,
        c * b <= a * d,
    ensures
        qn * d < c * qd ==> qn * b < a * qd,
{
}

/// Anything strictly between two fractions orders them strictly.
proof fn lemma_frac_between_implies_lt(ln: int, ld: int, hn: int, hd: int, qn: int, qd: int)
    by (nonlinear_arith)
    requires
        ld >= 1,
        hd >= 1,
        qd >= 1,
        frac_between(ln, ld, hn, hd, qn, qd),
    ensures
        ln * hd < hn * ld,
{
}

/// The midpoint of two strictly ordered fractions lies strictly between them.
proof fn lemma_frac_midpoint(ln: int, ld: int, hn: int, hd: int)
    by (nonlinear_arith)
    requires
        ld >= 1,
        hd >= 1,
        ln * hd < hn * ld,
    ensures
        frac_between(ln, ld, hn, hd, ln * hd + hn * ld, 2 * ld * hd),
        2 * ld * hd >= 1,
{
}

/// Scaling a strict scalar inequality by the positive `SCALE * qd`.
proof fn lemma_scale_ineq(a: int, b: int, qd: int)
    by (nonlinear_arith)
    requires
        qd >= 1,
    ensures
        a < b <==> (SCALE as int) * a * qd < (SCALE as int) * b * qd,
{
}

/// For a nonzero direction the axis constraint is exactly a window on the
/// parameter fraction.
proof fn lemma_axis_window_pos(lo: int, hi: int, o: int, d: int, qn: int, qd: int)
    by (nonlinear_arith)
    requires
        qd >= 1,
        d >= 1,
    ensures
        axis_inside(lo, hi, o, d, qn, qd) <==> ((SCALE as int) * (lo - o) * qd < qn * d && qn * d
            < (SCALE as int) * (hi - o) * qd),
{
}

proof fn lemma_axis_window_neg(lo: int, hi: int, o: int, d: int, qn: int, qd: int)
    by (nonlinear_arith)
    requires
        qd >= 1,
        d <= -1,
    ensures
        axis_inside(lo, hi, o, d, qn, qd) <==> ((SCALE as int) * (o - hi) * qd < qn * (-d) && qn * (
        -d) < (SCALE as int) * (o - lo) * qd),
{
}

/// Exact comparison of two fractions with positive denominators.
fn frac_lt(an: i64, ad: i64, bn: i64, bd: i64) -> (r: bool)
    requires
        ad >= 1,
        bd >= 1,
    ensures
        r == ((an as int) * (bd as int) < (bn as int) * (ad as int)),
{
    proof {
        crate::util::lemma_abs_mul(
            an as int,
            bd as int,
            0x8000_0000_0000_0000,
            0x8000_0000_0000_0000,
        );
        crate::util::lemma_abs_mul(
            bn as int,
            ad as int,
            0x8000_0000_0000_0000,
            0x8000_0000_0000_0000,
        );
    }
    (an as i128) * (bd as i128) < (bn as i128) * (ad as i128)
}

/// Narrow the window by one axis. The returned window admits exactly the
/// parameters the old window admitted that also satisfy the axis constraint.
fn narrow_axis(w: SlabWindow, lo: i64, hi: i64, o: i64, d: i64) -> (res: SlabWindow)
    requires
        window_wf(w),
        -2 * WORLD_MAX as int <= lo <= 2 * WORLD_MAX as int,
        -2 * WORLD_MAX as int <= hi <= 2 * WORLD_MAX as int,
        -(ORIG_MAX as int) <= o <= ORIG_MAX as int,
        -(DIR_MAX as int) <= d <= DIR_MAX as int,
    ensures
        window_wf(res),
        forall|qn: int, qd: int|
            qd >= 1 ==> (#[trigger] window_between(res, qn, qd) <==> window_between(w, qn, qd)
                && axis_inside(lo as int, hi as int, o as int, d as int, qn, qd)),
{
    if d == 0 {
        if lo < o && o < hi {
            proof {
                assert forall|qn: int, qd: int| qd >= 1 implies (#[trigger] window_between(
                    w,
                    qn,
                    qd,
                ) <==> window_between(w, qn, qd) && axis_inside(
                    lo as int,
                    hi as int,
                    o as int,
                    0,
                    qn,
                    qd,
                )) by {
                    lemma_scale_ineq(lo as int, o as int, qd);
                    lemma_scale_ineq(o as int, hi as int, qd);
                }
            }
            w
        } else {
            let res = SlabWindow { ln: 1, ld: 1, hn: 0, hd: 1 };
            proof {
                assert forall|qn: int, qd: int| qd >= 1 implies (#[trigger] window_between(
                    res,
                    qn,
                    qd,
                ) <==> window_between(w, qn, qd) && axis_inside(
                    lo as int,
                    hi as int,
                    o as int,
                    0,
                    qn,
                    qd,
                )) by {
                    lemma_scale_ineq(lo as int, o as int, qd);
                    lemma_scale_ineq(o as int, hi as int, qd);
                    assert(!window_between(res, qn, qd)) by (nonlinear_arith)
                        requires
                            qd >= 1,
                            res.ln == 1,
                            res.ld == 1,
                            res.hn == 0,
                            res.hd == 1,
                    ;
                }
            }
            res
        }
    } else {
        let cln: i64 = if d > 0 {
            SCALE * (lo - o)
        } else {
            SCALE * (o - hi)
        };
        let chn: i64 = if d > 0 {
            SCALE * (hi - o)
        } else {
            SCALE * (o - lo)
        };
        let cd: i64 = if d > 0 {
            d
        } else {
            -d
        };
        let take_cand_lo = frac_lt(w.ln, w.ld, cln, cd);
        let nln: i64 = if take_cand_lo {
            cln
        } else {
            w.ln
        };
        let nld: i64 = if take_cand_lo {
            cd
        } else {
            w.ld
        };
        let take_cand_hi = frac_lt(chn, cd, w.hn, w.hd);
        let nhn: i64 = if take_cand_hi {
            chn
        } else {
            w.hn
        };
        let nhd: i64 = if take_cand_hi {
            cd
        } else {
            w.hd
        };
        let res = SlabWindow { ln: nln, ld: nld, hn: nhn, hd: nhd };
        proof {
            assert forall|qn: int, qd: int| qd >= 1 implies (#[trigger] window_between(res, qn, qd)
                <==> window_between(w, qn, qd) && axis_inside(
                lo as int,
                hi as int,
                o as int,
                d as int,
                qn,
                qd,
            )) by {
                if d > 0 {
                    lemma_axis_window_pos(lo as int, hi as int, o as int, d as int, qn, qd);
                } else {
                    lemma_axis_window_neg(lo as int, hi as int, o as int, d as int, qn, qd);
                }
                // The axis constraint is exactly `cln/cd < q < chn/cd`.
                assert(axis_inside(lo as int, hi as int, o as int, d as int, qn, qd) <==> (
                cln as int * qd < qn * cd && qn * cd < chn as int * qd));
                // Lower side: the kept bound dominates the dropped one.
                if take_cand_lo {
                    lemma_frac_le_lt(w.ln as int, w.ld as int, cln as int, cd as int, qn, qd);
                } else {
                    lemma_frac_le_lt(cln as int, cd as int, w.ln as int, w.ld as int, qn, qd);
                }
                // Upper side likewise.
                if take_cand_hi {
                    lemma_frac_lt_le(w.hn as int, w.hd as int, chn as int, cd as int, qn, qd);
                } else {
                    lemma_frac_lt_le(chn as int, cd as int, w.hn as int, w.hd as int, qn, qd);
                }
            }
        }
        res
    }
}

impl AABB {
    /// The degenerate box at the origin with zero extent.
    pub fn empty() -> (r: AABB)
        ensures
            r.x_interval.min == 0 && r.x_interval.max == 0,
            r.y_interval.min == 0 && r.y_interval.max == 0,
            r.z_interval.min == 0 && r.z_interval.max == 0,
    {
        AABB {
            x_interval: Interval { min: 0, max: 0 },
            y_interval: Interval { min: 0, max: 0 },
            z_interval: Interval { min: 0, max: 0 },
        }
    }

    /// The box spanned by two corner points.
    pub fn new_from_pts(a: Point, b: Point) -> (r: AABB)
        ensures
            r.x_interval.min == if a.x <= b.x { a.x } else { b.x },
            r.x_interval.max == if a.x >= b.x { a.x } else { b.x },
            r.y_interval.min == if a.y <= b.y { a.y } else { b.y },
            r.y_interval.max == if a.y >= b.y { a.y } else { b.y },
            r.z_interval.min == if a.z <= b.z { a.z } else { b.z },
            r.z_interval.max == if a.z >= b.z { a.z } else { b.z },
    {
        AABB {
            x_interval: Interval {
                min: if a.x <= b.x { a.x } else { b.x },
                max: if a.x >= b.x { a.x } else { b.x },
            },
            y_interval: Interval {
                min: if a.y <= b.y { a.y } else { b.y },
                max: if a.y >= b.y { a.y } else { b.y },
            },
            z_interval: Interval {
                min: if a.z <= b.z { a.z } else { b.z },
                max: if a.z >= b.z { a.z } else { b.z },
            },
        }
    }

    /// The union box: axis-wise minimum of minima and maximum of maxima.
    pub fn new_from_bbox(a: AABB, b: AABB) -> (r: AABB)
        ensures
            r == aabb_union(a, b),
            aabb_contains(r, a),
            aabb_contains(r, b),
            forall|m: int| aabb_in(a, m) && aabb_in(b, m) ==> aabb_in(r, m),
    {
        AABB {
            x_interval: Interval::new_from_intervals(a.x_interval, b.x_interval),
            y_interval: Interval::new_from_intervals(a.y_interval, b.y_interval),
            z_interval: Interval::new_from_intervals(a.z_interval, b.z_interval),
        }
    }

    pub fn axis(&self, n: i32) -> (r: &Interval)
        ensures
            n == 1 ==> r == self.x_interval,
            n == 2 ==> r == self.y_interval,
            (n != 1 && n != 2) ==> r == self.z_interval,
    {
        match n {
            1 => &self.x_interval,
            2 => &self.y_interval,
            _ => &self.z_interval,
        }
    }

    /// The slab test: true if and only if the ray's parametric line passes
    /// through the box's open interior strictly inside `interval` (the exact
    /// predicate `slab_hit`). Purely a culling test; it yields no hit record.
    pub fn hit(&self, ray: &Ray, interval: Interval) -> (r: bool)
        requires
            aabb_in(*self, 2 * WORLD_MAX as int),
            vec_in(ray.origin, ORIG_MAX as int),
            vec_in(ray.direction, DIR_MAX as int),
        ensures
            r == slab_hit(*self, *ray, interval.min as int, interval.max as int),
    {
        let w0 = SlabWindow { ln: interval.min, ld: 1, hn: interval.max, hd: 1 };
        let w1 = narrow_axis(
            w0,
            self.x_interval.min,
            self.x_interval.max,
            ray.origin.x,
            ray.direction.x,
        );
        if !frac_lt(w1.ln, w1.ld, w1.hn, w1.hd) {
            proof {
                lemma_slab_reject(*self, *ray, interval.min as int, interval.max as int, w0, w1, w1, 1);
            }
            return false;
        }
        let w2 = narrow_axis(
            w1,
            self.y_interval.min,
            self.y_interval.max,
            ray.origin.y,
            ray.direction.y,
        );
        if !frac_lt(w2.ln, w2.ld, w2.hn, w2.hd) {
            proof {
                lemma_slab_reject(*self, *ray, interval.min as int, interval.max as int, w0, w1, w2, 2);
            }
            return false;
        }
        let w3 = narrow_axis(
            w2,
            self.z_interval.min,
            self.z_interval.max,
            ray.origin.z,
            ray.direction.z,
        );
        if !frac_lt(w3.ln, w3.ld, w3.hn, w3.hd) {
            proof {
                lemma_slab_reject(*self, *ray, interval.min as int, interval.max as int, w0, w1, w3, 3);
            }
            return false;
        }
        proof {
            lemma_frac_midpoint(w3.ln as int, w3.ld as int, w3.hn as int, w3.hd as int);
            let qn = w3.ln as int * w3.hd as int + w3.hn as int * w3.ld as int;
            let qd = 2 * (w3.ld as int) * (w3.hd as int);
            assert(window_between(w3, qn, qd));
            assert(window_between(w2, qn, qd));
            assert(window_between(w1, qn, qd));
            assert(window_between(w0, qn, qd));
            assert(param_between(interval.min as int, interval.max as int, qn, qd)) by (
            nonlinear_arith)
                requires
                    window_between(w0, qn, qd),
                    w0.ln == interval.min,
                    w0.hn == interval.max,
                    w0.ld == 1,
                    w0.hd == 1,
            ;
        }
        true
    }
}

/// When the window closes after narrowing, no parameter satisfies the
/// constraints processed so far, hence none satisfies all of them.
proof fn lemma_slab_reject(
    b: AABB,
    r: Ray,
    imin: int,
    imax: int,
    w0: SlabWindow,
    w1: SlabWindow,
    wk: SlabWindow,
    k: int,
)
    requires
        window_wf(w0),
        window_wf(w1),
        window_wf(wk),
        w0.ln == imin && w0.ld == 1 && w0.hn == imax && w0.hd == 1,
        !((wk.ln as int) * (wk.hd as int) < (wk.hn as int) * (wk.ld as int)),
        forall|qn: int, qd: int|
            qd >= 1 ==> (#[trigger] window_between(w1, qn, qd) ==> window_between(w0, qn, qd)),
        k >= 2 ==> forall|qn: int, qd: int|
            qd >= 1 ==> (#[trigger] window_between(wk, qn, qd) ==> window_between(w1, qn, qd)),
        k == 1 ==> wk == w1,
        forall|qn: int, qd: int|
            qd >= 1 && param_between(imin, imax, qn, qd) && axis_inside(
                b.x_interval.min as int,
                b.x_interval.max as int,
                r.origin.x as int,
                r.direction.x as int,
                qn,
                qd,
            ) && (k >= 2 ==> axis_inside(
                b.y_interval.min as int,
                b.y_interval.max as int,
                r.origin.y as int,
                r.direction.y as int,
                qn,
                qd,
            )) && (k >= 3 ==> axis_inside(
                b.z_interval.min as int,
                b.z_interval.max as int,
                r.origin.z as int,
                r.direction.z as int,
                qn,
                qd,
            )) ==> #[trigger] window_between(wk, qn, qd),
    ensures
        !slab_hit(b, r, imin, imax),
{
    if slab_hit(b, r, imin, imax) {
        let (qn, qd) = choose|qn: int, qd: int|
            {
                &&& qd >= 1
                &&& #[trigger] param_between(imin, imax, qn, qd)
                &&& axis_inside(
                    b.x_interval.min as int,
                    b.x_interval.max as int,
                    r.origin.x as int,
                    r.direction.x as int,
                    qn,
                    qd,
                )
                &&& axis_inside(
                    b.y_interval.min as int,
                    b.y_interval.max as int,
                    r.origin.y as int,
                    r.direction.y as int,
                    qn,
                    qd,
                )
                &&& axis_inside(
                    b.z_interval.min as int,
                    b.z_interval.max as int,
                    r.origin.z as int,
                    r.direction.z as int,
                    qn,
                    qd,
                )
            };
        assert(window_between(wk, qn, qd));
        lemma_frac_between_implies_lt(
            wk.ln as int,
            wk.ld as int,
            wk.hn as int,
            wk.hd as int,
            qn,
            qd,
        );
    }
}

/// A zero-volume box admits no ray at all: the open interior of a degenerate
/// box is empty, so with exact arithmetic the slab test always rejects.
pub proof fn lemma_degenerate_aabb_unhit(b: AABB, r: Ray, imin: int, imax: int)
    requires
        b.x_interval.min == b.x_interval.max,
        b.y_interval.min == b.y_interval.max,
        b.z_interval.min == b.z_interval.max,
    ensures
        !slab_hit(b, r, imin, imax),
{
    if slab_hit(b, r, imin, imax) {
        let (qn, qd) = choose|qn: int, qd: int|
            {
                &&& qd >= 1
                &&& #[trigger] param_between(imin, imax, qn, qd)
                &&& axis_inside(
                    b.x_interval.min as int,
                    b.x_interval.max as int,
                    r.origin.x as int,
                    r.direction.x as int,
                    qn,
                    qd,
                )
                &&& axis_inside(
                    b.y_interval.min as int,
                    b.y_interval.max as int,
                    r.origin.y as int,
                    r.direction.y as int,
                    qn,
                    qd,
                )
                &&& axis_inside(
                    b.z_interval.min as int,
                    b.z_interval.max as int,
                    r.origin.z as int,
                    r.direction.z as int,
                    qn,
                    qd,
                )
            };
        assert(false);
    }
}

/// A point strictly inside an enclosed box is strictly inside the enclosing
/// box, at every parameter.
pub proof fn lemma_contains_inside(outer: AABB, inner: AABB, r: Ray, qn: int, qd: int)
    requires
        qd >= 1,
        aabb_contains(outer, inner),
        axis_inside(
            inner.x_interval.min as int,
            inner.x_interval.max as int,
            r.origin.x as int,
            r.direction.x as int,
            qn,
            qd,
        ),
        axis_inside(
            inner.y_interval.min as int,
            inner.y_interval.max as int,
            r.origin.y as int,
            r.direction.y as int,
            qn,
            qd,
        ),
        axis_inside(
            inner.z_interval.min as int,
            inner.z_interval.max as int,
            r.origin.z as int,
            r.direction.z as int,
            qn,
            qd,
        ),
    ensures
        axis_inside(
            outer.x_interval.min as int,
            outer.x_interval.max as int,
            r.origin.x as int,
            r.direction.x as int,
            qn,
            qd,
        ),
        axis_inside(
            outer.y_interval.min as int,
            outer.y_interval.max as int,
            r.origin.y as int,
            r.direction.y as int,
            qn,
            qd,
        ),
        axis_inside(
            outer.z_interval.min as int,
            outer.z_interval.max as int,
            r.origin.z as int,
            r.direction.z as int,
            qn,
            qd,
        ),
{
    lemma_axis_widen(
        inner.x_interval.min as int,
        inner.x_interval.max as int,
        outer.x_interval.min as int,
        outer.x_interval.max as int,
        r.origin.x as int,
        r.direction.x as int,
        qn,
        qd,
    );
    lemma_axis_widen(
        inner.y_interval.min as int,
        inner.y_interval.max as int,
        outer.y_interval.min as int,
        outer.y_interval.max as int,
        r.origin.y as int,
        r.direction.y as int,
        qn,
        qd,
    );
    lemma_axis_widen(
        inner.z_interval.min as int,
        inner.z_interval.max as int,
        outer.z_interval.min as int,
        outer.z_interval.max as int,
        r.origin.z as int,
        r.direction.z as int,
        qn,
        qd,
    );
}

proof fn lemma_axis_widen(lo: int, hi: int, wlo: int, whi: int, o: int, d: int, qn: int, qd: int)
    by (nonlinear_arith)
    requires
        qd >= 1,
        wlo <= lo,
        hi <= whi,
        axis_inside(lo, hi, o, d, qn, qd),
    ensures
        axis_inside(wlo, whi, o, d, qn, qd),
{
}

/// A bounding-volume hierarchy: a binary tree whose leaves hold the objects
/// and whose internal nodes carry a box enclosing everything below them.
pub enum BvhNode {
    Empty,
    Leaf(Object),
    Internal { bbox: AABB, left: Box<BvhNode>, right: Box<BvhNode> },
}

/// The objects at the leaves, left to right.
pub open spec fn bvh_objects(n: BvhNode) -> Seq<Object>
    decreases n,
{
    match n {
        BvhNode::Empty => Seq::empty(),
        BvhNode::Leaf(o) => seq![o],
        BvhNode::Internal { bbox, left, right } => bvh_objects(*left) + bvh_objects(*right),
    }
}

/// The box a node stands behind.
pub open spec fn bvh_bbox(n: BvhNode) -> AABB {
    match n {
        BvhNode::Empty => AABB {
            x_interval: Interval { min: 0i64, max: 0i64 },
            y_interval: Interval { min: 0i64, max: 0i64 },
            z_interval: Interval { min: 0i64, max: 0i64 },
        },
        BvhNode::Leaf(o) => object_bbox(o),
        BvhNode::Internal { bbox, left, right } => bbox,
    }
}

/// Well-formed tree: every internal box is exactly the union of its
/// children's boxes (hence encloses everything below), and internal nodes
/// are never built over an empty side.
pub open spec fn bvh_wf(n: BvhNode) -> bool
    decreases n,
{
    match n {
        BvhNode::Empty => true,
        BvhNode::Leaf(o) => object_wf(o),
        BvhNode::Internal { bbox, left, right } => {
            &&& bvh_wf(*left)
            &&& bvh_wf(*right)
            &&& !(*left is Empty)
            &&& !(*right is Empty)
            &&& bbox == aabb_union(bvh_bbox(*left), bvh_bbox(*right))
            &&& aabb_in(bbox, 2 * WORLD_MAX as int)
        },
    }
}


/// What the traversal reports: prune a subtree whose box the ray misses
/// within the current range; otherwise search the left child first, narrow
/// the range's upper end to its answer, and let the right side win only with
/// a strictly nearer parameter (ties go left).
pub open spec fn bvh_hit_t(n: BvhNode, r: Ray, imin: int, imax: int) -> Option<int>
    decreases n,
{
    match n {
        BvhNode::Empty => None,
        BvhNode::Leaf(o) => object_hit_t(o, r, imin, imax),
        BvhNode::Internal { bbox, left, right } => {
            if !slab_hit(bbox, r, imin, imax) {
                None
            } else {
                let lt = bvh_hit_t(*left, r, imin, imax);
                let m = match lt {
                    Some(t) => t,
                    None => imax,
                };
                let rt = bvh_hit_t(*right, r, imin, m);
                match (lt, rt) {
                    (Some(t1), Some(t2)) => if t2 < t1 {
                        Some(t2)
                    } else {
                        Some(t1)
                    },
                    (Some(t1), None) => Some(t1),
                    (None, rt2) => rt2,
                }
            }
        },
    }
}

/// The record the traversal reports: at a leaf, the object's own record at
/// its reported parameter; at an internal node, the left child's answer
/// unless the right child (searched only up to the left answer) is strictly
/// nearer — so an exact tie goes to the left subtree.
pub open spec fn bvh_hit_rec(n: BvhNode, r: Ray, imin: int, imax: int) -> Option<HitRecord>
    decreases n,
{
    match n {
        BvhNode::Empty => None,
        BvhNode::Leaf(o) => match object_hit_t(o, r, imin, imax) {
            Some(t) => Some(object_record(o, r, t)),
            None => None,
        },
        BvhNode::Internal { bbox, left, right } => {
            if !slab_hit(bbox, r, imin, imax) {
                None
            } else {
                let lrec = bvh_hit_rec(*left, r, imin, imax);
                let m = match lrec {
                    Some(rec) => rec.t as int,
                    None => imax,
                };
                let rrec = bvh_hit_rec(*right, r, imin, m);
                match (lrec, rrec) {
                    (Some(l), Some(rt)) => if (rt.t as int) < l.t as int {
                        Some(rt)
                    } else {
                        Some(l)
                    },
                    (Some(l), None) => Some(l),
                    (None, rr) => rr,
                }
            }
        },
    }
}

/// Every object of the left operand keys at or below every object of the
/// right operand along the axis: the shape of an ordered midpoint split.
pub open spec fn split_ordered(lobjs: Seq<Object>, robjs: Seq<Object>, axis: int) -> bool {
    forall|i: int, j: int|
        0 <= i < lobjs.len() && 0 <= j < robjs.len() ==> axis_key(#[trigger] lobjs[i], axis)
            <= axis_key(#[trigger] robjs[j], axis)
}

/// The bounding-box minimum along the split axis, the sort key of the build.
pub open spec fn axis_key(o: Object, axis: int) -> int {
    if axis == 0 {
        object_bbox(o).x_interval.min as int
    } else if axis == 1 {
        object_bbox(o).y_interval.min as int
    } else {
        object_bbox(o).z_interval.min as int
    }
}

/// The segment `[start, end)` is ordered by the key along `axis`.
pub open spec fn seg_sorted(s: Seq<Object>, start: int, end: int, axis: int) -> bool {
    forall|i: int, j: int|
        start <= i <= j < end ==> axis_key(#[trigger] s[i], axis) <= axis_key(#[trigger] s[j], axis)
}

/// Swapping two positions keeps the multiset of a sequence.
proof fn lemma_swap_multiset(s: Seq<Object>, i: int, j: int)
    requires
        0 <= i < s.len(),
        0 <= j < s.len(),
    ensures
        s.update(i, s[j]).update(j, s[i]).to_multiset() == s.to_multiset(),
{
    broadcast use vstd::seq_lib::group_to_multiset_ensures;

    if i == j {
        assert(s.update(i, s[j]).update(j, s[i]) =~= s);
    } else {
        let s1 = s.update(i, s[j]);
        let s2 = s1.update(j, s[i]);
        assert(s1[j] == s[j]);
        assert(s2.to_multiset() =~= s.to_multiset());
    }
}

impl BvhNode {
    pub fn bounding_box(&self) -> (b: AABB)
        ensures
            b == bvh_bbox(*self),
    {
        match self {
            BvhNode::Empty => AABB::empty(),
            BvhNode::Leaf(o) => o.bounding_box(),
            BvhNode::Internal { bbox, left, right } => *bbox,
        }
    }

    /// Build a hierarchy over the whole list. An empty list gives the empty
    /// sentinel node, which never reports a hit; otherwise the leaves hold
    /// exactly the given objects.
    pub fn new_from_renderables(list: &Vec<Object>, rng: &mut RandomSource) -> (root: BvhNode)
        requires
            forall|i: int| 0 <= i < list@.len() ==> object_wf(#[trigger] list@[i]),
        ensures
            bvh_wf(root),
            bvh_objects(root).to_multiset() == list@.to_multiset(),
            bvh_objects(root).len() == list@.len(),
            list@.len() == 0 ==> root == BvhNode::Empty,
    {
        if list.len() == 0 {
            proof {
                broadcast use vstd::seq_lib::group_to_multiset_ensures;

                assert(bvh_objects(BvhNode::Empty).to_multiset() =~= list@.to_multiset());
            }
            return BvhNode::Empty;
        }
        let mut buf: Vec<Object> = Vec::new();
        let n = list.len();
        let mut k: usize = 0;
        while k < n
            invariant
                k <= n == list@.len(),
                buf@ =~= list@.take(k as int),
                forall|i: int| 0 <= i < list@.len() ==> object_wf(#[trigger] list@[i]),
            decreases n - k,
        {
            let o = list[k];
            buf.push(o);
            proof {
                assert(buf@ =~= list@.take(k as int + 1));
            }
            k = k + 1;
        }
        proof {
            assert(buf@ =~= list@);
        }
        let ghost orig = buf@;
        let root = Self::build_range(&mut buf, 0, n, rng);
        proof {
            assert(orig.subrange(0, n as int) =~= orig);
        }
        root
    }

    /// Build the subtree over `buf[start..end)`: order the segment along a
    /// randomly chosen axis, split at the midpoint (left half rounded up),
    /// and recurse. One object becomes a single leaf; exactly two become
    /// sibling leaves, in place, under one internal node whose box is the
    /// exact union of theirs.
    fn build_range(buf: &mut Vec<Object>, start: usize, end: usize, rng: &mut RandomSource) -> (node:
        BvhNode)
        requires
            start < end <= old(buf)@.len(),
            forall|i: int| 0 <= i < old(buf)@.len() ==> object_wf(#[trigger] old(buf)@[i]),
        ensures
            final (buf)@.len() == old(buf)@.len(),
            forall|i: int|
                0 <= i < old(buf)@.len() && !(start <= i < end) ==> final (buf)@[i] == old(
                    buf,
                )@[i],
            forall|i: int| 0 <= i < final (buf)@.len() ==> object_wf(#[trigger] final (buf)@[i]),
            bvh_wf(node),
            !(node is Empty),
            bvh_objects(node).to_multiset() == old(buf)@.subrange(
                start as int,
                end as int,
            ).to_multiset(),
            bvh_objects(node).len() == end - start,
            end - start == 1 ==> node == BvhNode::Leaf(old(buf)@[start as int]),
            end - start == 2 ==> (node matches BvhNode::Internal { bbox, left, right }
                && *left == BvhNode::Leaf(old(buf)@[start as int]) && *right == BvhNode::Leaf(
                old(buf)@[start as int + 1],
            ) && bbox == aabb_union(
                object_bbox(old(buf)@[start as int]),
                object_bbox(old(buf)@[start as int + 1]),
            )),
            end - start > 2 ==> (node matches BvhNode::Internal { bbox, left, right }
                && bvh_objects(*left).len() == (end - start + 1) / 2 && bvh_objects(*right).len()
                == (end - start) - (end - start + 1) / 2 && (exists|axis: int|
                0 <= axis <= 2 && split_ordered(bvh_objects(*left), bvh_objects(*right), axis))),
            aabb_in(bvh_bbox(node), 2 * WORLD_MAX as int),
        decreases end - start,
    {
        let span = end - start;
        if span == 1 {
            let o = buf[start];
            proof {
                assert(old(buf)@.subrange(start as int, end as int) =~= seq![o]);
                assert(bvh_objects(BvhNode::Leaf(o)) =~= seq![o]);
                lemma_leaf_bbox_in(o);
            }
            return BvhNode::Leaf(o);
        }
        if span == 2 {
            let first = buf[start];
            let second = buf[start + 1];
            let parent_bbox = AABB::new_from_bbox(first.bounding_box(), second.bounding_box());
            let node = BvhNode::Internal {
                bbox: parent_bbox,
                left: Box::new(BvhNode::Leaf(first)),
                right: Box::new(BvhNode::Leaf(second)),
            };
            proof {
                broadcast use vstd::seq_lib::group_to_multiset_ensures;

                lemma_leaf_bbox_in(first);
                lemma_leaf_bbox_in(second);
                assert(bvh_wf(BvhNode::Leaf(first)));
                assert(bvh_wf(BvhNode::Leaf(second)));
                assert(aabb_in(parent_bbox, 2 * WORLD_MAX as int));
                assert(bvh_objects(node) == bvh_objects(BvhNode::Leaf(first)) + bvh_objects(
                    BvhNode::Leaf(second),
                ));
                assert(bvh_objects(node) =~= seq![first, second]);
                assert(old(buf)@.subrange(start as int, end as int) =~= seq![first, second]);
            }
            return node;
        }
        let axis = rng.random_int(0, 2);
        Self::sort_range(buf, start, end, axis);
        proof {
            broadcast use vstd::seq_lib::group_to_multiset_ensures;

            assert forall|i: int| 0 <= i < buf@.len() implies object_wf(#[trigger] buf@[i]) by {
                assert(old(buf)@.to_multiset().contains(buf@[i]));
                assert(old(buf)@.contains(buf@[i]));
                let w = choose|w: int| 0 <= w < old(buf)@.len() && old(buf)@[w] == buf@[i];
            }
        }
        let ghost sorted = buf@;
        // Split at the midpoint, rounding the left half up.
        let mid = start + span / 2 + span % 2;
        assert(start < mid < end);
        proof {
            vstd::arithmetic::div_mod::lemma_fundamental_div_mod(span as int, 2);
            vstd::arithmetic::div_mod::lemma_mod_bound(span as int, 2);
            vstd::arithmetic::div_mod::lemma_fundamental_div_mod_converse(
                span as int + 1,
                2,
                span as int / 2 + span as int % 2,
                1 - span as int % 2,
            );
            assert(mid - start == (span as int + 1) / 2);
        }
        let left = Self::build_range(buf, start, mid, rng);
        let ghost after_left = buf@;
        let right = Self::build_range(buf, mid, end, rng);
        let bbox = AABB::new_from_bbox(left.bounding_box(), right.bounding_box());
        let node = BvhNode::Internal { bbox, left: Box::new(left), right: Box::new(right) };
        proof {
            broadcast use vstd::seq_lib::group_to_multiset_ensures;

            // The two halves the children consumed are the halves of the
            // sorted segment, whose multiset is the original segment's.
            assert(after_left.subrange(mid as int, end as int) =~= sorted.subrange(
                mid as int,
                end as int,
            ));
            assert(sorted.subrange(start as int, end as int) =~= sorted.subrange(
                start as int,
                mid as int,
            ) + sorted.subrange(mid as int, end as int));
            lemma_multiset_commutative(
                sorted.subrange(start as int, mid as int),
                sorted.subrange(mid as int, end as int),
            );
            lemma_multiset_commutative(bvh_objects(left), bvh_objects(right));
            assert(aabb_in(bbox, 2 * WORLD_MAX as int));
            assert(bvh_objects(node) =~= bvh_objects(left) + bvh_objects(right));
            // The ordered split: everything that went left keys at or below
            // everything that went right, along the chosen axis.
            let lobjs = bvh_objects(left);
            let robjs = bvh_objects(right);
            let lseg = sorted.subrange(start as int, mid as int);
            let rseg = sorted.subrange(mid as int, end as int);
            assert forall|i: int, j: int|
                0 <= i < lobjs.len() && 0 <= j < robjs.len() implies axis_key(
                #[trigger] lobjs[i],
                axis as int,
            ) <= axis_key(#[trigger] robjs[j], axis as int) by {
                assert(lobjs.contains(lobjs[i]));
                assert(lobjs.to_multiset().contains(lobjs[i]));
                assert(lseg.contains(lobjs[i]));
                let k1 = choose|k: int| 0 <= k < lseg.len() && lseg[k] == lobjs[i];
                assert(robjs.contains(robjs[j]));
                assert(robjs.to_multiset().contains(robjs[j]));
                assert(rseg.contains(robjs[j]));
                let k2 = choose|k: int| 0 <= k < rseg.len() && rseg[k] == robjs[j];
                assert(sorted[start as int + k1] == lobjs[i]);
                assert(sorted[mid as int + k2] == robjs[j]);
                assert(axis_key(sorted[start as int + k1], axis as int) <= axis_key(
                    sorted[mid as int + k2],
                    axis as int,
                ));
            }
            assert(split_ordered(lobjs, robjs, axis as int));
        }
        node
    }

    /// Order `buf[start..end)` by the bounding-box minimum along `axis`, with
    /// an insertion sort. Ties keep going (the comparison is non-strict), so
    /// duplicate keys cannot make the build recurse forever.
    fn sort_range(buf: &mut Vec<Object>, start: usize, end: usize, axis: i32)
        requires
            start <= end <= old(buf)@.len(),
        ensures
            final (buf)@.len() == old(buf)@.len(),
            forall|i: int|
                0 <= i < old(buf)@.len() && !(start <= i < end) ==> final (buf)@[i] == old(
                    buf,
                )@[i],
            final (buf)@.subrange(start as int, end as int).to_multiset() == old(buf)@.subrange(
                start as int,
                end as int,
            ).to_multiset(),
            forall|i: int|
                0 <= i < old(buf)@.len() ==> old(buf)@.to_multiset().contains(
                    #[trigger] final (buf)@[i],
                ),
            seg_sorted(final (buf)@, start as int, end as int, axis as int),
    {
        proof {
            broadcast use vstd::seq_lib::group_to_multiset_ensures;
        }
        let mut i: usize = start;
        while i < end
            invariant
                start <= i <= end <= buf@.len(),
                buf@.len() == old(buf)@.len(),
                forall|k: int|
                    0 <= k < old(buf)@.len() && !(start <= k < end) ==> buf@[k] == old(buf)@[k],
                buf@.subrange(start as int, end as int).to_multiset() == old(buf)@.subrange(
                    start as int,
                    end as int,
                ).to_multiset(),
                seg_sorted(buf@, start as int, i as int, axis as int),
            decreases end - i,
        {
            let mut j: usize = i;
            while j > start && Self::axis_min_key(&buf[j - 1], axis) > Self::axis_min_key(
                &buf[j],
                axis,
            )
                invariant
                    start <= j <= i < end <= buf@.len(),
                    buf@.len() == old(buf)@.len(),
                    forall|k: int|
                        0 <= k < old(buf)@.len() && !(start <= k < end) ==> buf@[k] == old(
                            buf,
                        )@[k],
                    buf@.subrange(start as int, end as int).to_multiset() == old(buf)@.subrange(
                        start as int,
                        end as int,
                    ).to_multiset(),
                    forall|a: int, b: int|
                        start <= a <= b <= i && a != j && b != j ==> axis_key(
                            #[trigger] buf@[a],
                            axis as int,
                        ) <= axis_key(#[trigger] buf@[b], axis as int),
                    forall|b: int|
                        j < b <= i ==> axis_key(#[trigger] buf@[j as int], axis as int) <= axis_key(
                            buf@[b],
                            axis as int,
                        ),
                decreases j,
            {
                let ghost before = buf@;
                let a = buf[j - 1];
                let b = buf[j];
                buf[j - 1] = b;
                buf[j] = a;
                proof {
                    broadcast use vstd::seq_lib::group_to_multiset_ensures;

                    lemma_swap_multiset(before, j - 1, j as int);
                    assert(buf@ =~= before.update(j - 1, before[j as int]).update(
                        j as int,
                        before[j - 1],
                    ));
                    assert(buf@.subrange(start as int, end as int) =~= before.subrange(
                        start as int,
                        end as int,
                    ).update(j - 1 - start, before[j as int]).update(
                        j - start,
                        before[j - 1],
                    ));
                    lemma_swap_multiset(
                        before.subrange(start as int, end as int),
                        j - 1 - start,
                        j - start,
                    );
                }
                j = j - 1;
            }
            i = i + 1;
        }
        proof {
            assert forall|k: int| 0 <= k < old(buf)@.len() implies old(
                buf,
            )@.to_multiset().contains(#[trigger] buf@[k]) by {
                broadcast use vstd::seq_lib::group_to_multiset_ensures;

                if start <= k < end {
                    let seg = buf@.subrange(start as int, end as int);
                    assert(seg[k - start as int] == buf@[k]);
                    assert(seg.contains(buf@[k]));
                    assert(old(buf)@.subrange(start as int, end as int).to_multiset().contains(
                        buf@[k],
                    ));
                    let oseg = old(buf)@.subrange(start as int, end as int);
                    assert(oseg.contains(buf@[k]));
                    let w = choose|w: int| 0 <= w < oseg.len() && oseg[w] == buf@[k];
                    assert(old(buf)@[w + start as int] == buf@[k]);
                    assert(old(buf)@.contains(buf@[k]));
                } else {
                    assert(buf@[k] == old(buf)@[k]);
                    assert(old(buf)@.contains(buf@[k]));
                }
            }
        }
    }

    /// The sort key: the box minimum along the chosen axis.
    fn axis_min_key(o: &Object, axis: i32) -> (k: i64)
        ensures
            k == axis_key(*o, axis as int),
    {
        let b = o.bounding_box();
        if axis == 0 {
            b.x_interval.min
        } else if axis == 1 {
            b.y_interval.min
        } else {
            b.z_interval.min
        }
    }

    /// Traverse for the nearest hit: returns exactly the record `bvh_hit_rec`
    /// names, at exactly the parameter `bvh_hit_t` reports; an exact tie
    /// between the two subtrees goes to the left one.
    pub fn hit(&self, ray: &Ray, interval: Interval) -> (res: Option<HitRecord>)
        requires
            bvh_wf(*self),
            vec_in(ray.origin, ORIG_MAX as int),
            vec_in(ray.direction, DIR_MAX as int),
            0 <= ray.time <= SCALE,
            -(T_LIMIT as int) <= interval.min,
            interval.max <= T_LIMIT as int,
        ensures
            res == bvh_hit_rec(*self, *ray, interval.min as int, interval.max as int),
            res is Some <==> bvh_hit_t(*self, *ray, interval.min as int, interval.max as int)
                is Some,
            res matches Some(rec) ==> {
                &&& bvh_hit_t(*self, *ray, interval.min as int, interval.max as int) == Some(
                    rec.t as int,
                )
                &&& interval.min <= rec.t <= interval.max
                &&& record_among(bvh_objects(*self), *ray, interval.min as int, rec)
            },
        decreases *self,
    {
        match self {
            BvhNode::Empty => None,
            BvhNode::Leaf(o) => {
                let res = o.hit(ray, interval);
                proof {
                    match res {
                        Some(rec) => {
                            lemma_object_hit_clip(
                                *o,
                                *ray,
                                interval.min as int,
                                interval.max as int,
                                rec.t as int,
                            );
                            assert(bvh_objects(*self)[0] == *o);
                            assert(bvh_objects(*self).contains(*o));
                        },
                        None => {},
                    }
                }
                res
            },
            BvhNode::Internal { bbox, left, right } => {
                if !bbox.hit(ray, interval) {
                    return None;
                }
                let left_res = left.hit(ray, interval);
                let right_max = match &left_res {
                    Some(rec) => rec.t,
                    None => interval.max,
                };
                let right_res = right.hit(ray, Interval { min: interval.min, max: right_max });
                proof {
                    lemma_bvh_objects_contains_split(**left, **right, *self);
                    match left_res {
                        Some(lrec) => {
                            lemma_record_among_lift(
                                bvh_objects(**left),
                                bvh_objects(*self),
                                *ray,
                                interval.min as int,
                                lrec,
                            );
                        },
                        None => {},
                    }
                    match right_res {
                        Some(rrec) => {
                            lemma_record_among_lift(
                                bvh_objects(**right),
                                bvh_objects(*self),
                                *ray,
                                interval.min as int,
                                rrec,
                            );
                        },
                        None => {},
                    }
                }
                match (left_res, right_res) {
                    (Some(lrec), Some(rrec)) => {
                        if rrec.t < lrec.t {
                            Some(rrec)
                        } else {
                            Some(lrec)
                        }
                    },
                    (Some(lrec), None) => Some(lrec),
                    (None, rres) => rres,
                }
            },
        }
    }
}

/// The record comes from one of the given objects, hit at exactly its own
/// parameter.
pub open spec fn record_among(objs: Seq<Object>, r: Ray, imin: int, rec: HitRecord) -> bool {
    exists|o: Object|
        #[trigger] objs.contains(o) && object_hit_t(o, r, imin, rec.t as int) == Some(rec.t as int)
            && rec == object_record(o, r, rec.t as int)
}

proof fn lemma_record_among_lift(sub: Seq<Object>, sup: Seq<Object>, r: Ray, imin: int, rec: HitRecord)
    requires
        record_among(sub, r, imin, rec),
        forall|o: Object| sub.contains(o) ==> #[trigger] sup.contains(o),
    ensures
        record_among(sup, r, imin, rec),
{
    let o = choose|o: Object|
        #[trigger] sub.contains(o) && object_hit_t(o, r, imin, rec.t as int) == Some(rec.t as int)
            && rec == object_record(o, r, rec.t as int);
    assert(sup.contains(o));
}

/// The empty sentinel consistently reports no hit, whatever the query.
pub proof fn lemma_empty_bvh_never_hits(r: Ray, imin: int, imax: int)
    ensures
        bvh_hit_t(BvhNode::Empty, r, imin, imax) is None,
{
}

/// A well-formed leaf's box is within the world bound.
proof fn lemma_leaf_bbox_in(o: Object)
    requires
        object_wf(o),
    ensures
        aabb_in(object_bbox(o), 2 * WORLD_MAX as int),
{
}

/// Membership in a node's objects comes from one of its children.
proof fn lemma_bvh_objects_contains_split(l: BvhNode, r: BvhNode, parent: BvhNode)
    requires
        parent matches BvhNode::Internal { bbox, left, right } && *left == l && *right == r,
    ensures
        forall|o: Object|
            bvh_objects(l).contains(o) ==> #[trigger] bvh_objects(parent).contains(o),
        forall|o: Object|
            bvh_objects(r).contains(o) ==> #[trigger] bvh_objects(parent).contains(o),
{
    assert forall|o: Object| bvh_objects(l).contains(o) implies #[trigger] bvh_objects(
        parent,
    ).contains(o) by {
        let i = choose|i: int| 0 <= i < bvh_objects(l).len() && bvh_objects(l)[i] == o;
        assert(bvh_objects(parent)[i] == o);
    }
    assert forall|o: Object| bvh_objects(r).contains(o) implies #[trigger] bvh_objects(
        parent,
    ).contains(o) by {
        let i = choose|i: int| 0 <= i < bvh_objects(r).len() && bvh_objects(r)[i] == o;
        assert(bvh_objects(parent)[bvh_objects(l).len() + i] == o);
    }
}

/// A candidate intersection parameter of an object on this ray: one of the
/// sphere's two quadratic roots (a bare box has none).
pub open spec fn is_cand_t(o: Object, r: Ray, t: int) -> bool {
    match o {
        Object::Sphere(s) => sphere_a(r) >= 1 && sphere_disc(s, r) >= 0 && (t == sphere_root_near(
            s,
            r,
        ) || t == sphere_root_far(s, r)),
        Object::AABB(b) => false,
    }
}

/// The ray passes strictly through the open interior of the box at some
/// rational parameter strictly between `imin` and `t`.
pub open spec fn box_passage(b: AABB, r: Ray, imin: int, t: int) -> bool {
    exists|qn: int, qd: int|
        {
            &&& qd >= 1
            &&& #[trigger] param_between(imin, t, qn, qd)
            &&& axis_inside(
                b.x_interval.min as int,
                b.x_interval.max as int,
                r.origin.x as int,
                r.direction.x as int,
                qn,
                qd,
            )
            &&& axis_inside(
                b.y_interval.min as int,
                b.y_interval.max as int,
                r.origin.y as int,
                r.direction.y as int,
                qn,
                qd,
            )
            &&& axis_inside(
                b.z_interval.min as int,
                b.z_interval.max as int,
                r.origin.z as int,
                r.direction.z as int,
                qn,
                qd,
            )
        }
}

/// Every admissible candidate hit of the object is preceded, strictly above
/// `imin`, by a strict passage through the object's own bounding box. This is
/// the geometric soundness of a box as a culling volume; it can fail only for
/// rays that graze a box face exactly.
pub open spec fn hit_preceded_in_box(o: Object, r: Ray, imin: int) -> bool {
    forall|t: int|
        #[trigger] is_cand_t(o, r, t) && imin <= t ==> box_passage(object_bbox(o), r, imin, t)
}

pub open spec fn approach_all(objs: Seq<Object>, r: Ray, imin: int) -> bool {
    forall|i: int| 0 <= i < objs.len() ==> hit_preceded_in_box(#[trigger] objs[i], r, imin)
}

/// An object's reported parameter is one of its candidates, inside the range.
proof fn lemma_object_hit_is_cand(o: Object, r: Ray, imin: int, imax: int)
    ensures
        object_hit_t(o, r, imin, imax) matches Some(t) ==> is_cand_t(o, r, t) && imin <= t <= imax,
{
}

/// A well-formed node's box encloses the box of every object below it.
proof fn lemma_bvh_box_contains(n: BvhNode)
    requires
        bvh_wf(n),
    ensures
        forall|i: int|
            0 <= i < bvh_objects(n).len() ==> aabb_contains(
                bvh_bbox(n),
                object_bbox(#[trigger] bvh_objects(n)[i]),
            ),
    decreases n,
{
    match n {
        BvhNode::Empty => {},
        BvhNode::Leaf(o) => {},
        BvhNode::Internal { bbox, left, right } => {
            lemma_bvh_box_contains(*left);
            lemma_bvh_box_contains(*right);
            let lobjs = bvh_objects(*left);
            let robjs = bvh_objects(*right);
            assert forall|i: int| 0 <= i < bvh_objects(n).len() implies aabb_contains(
                bvh_bbox(n),
                object_bbox(#[trigger] bvh_objects(n)[i]),
            ) by {
                if i < lobjs.len() {
                    assert(bvh_objects(n)[i] == lobjs[i]);
                } else {
                    assert(bvh_objects(n)[i] == robjs[i - lobjs.len()]);
                }
            }
        },
    }
}

/// The defining correctness invariant of the hierarchy: on a well-formed
/// tree, and for a ray whose admissible candidate hits are each preceded by
/// a strict passage through their object's own bounding box, the traversal
/// reports exactly the parameter of the brute-force linear scan over the
/// same objects.
pub proof fn lemma_bvh_matches_linear(n: BvhNode, r: Ray, imin: int, imax: int)
    requires
        bvh_wf(n),
        approach_all(bvh_objects(n), r, imin),
    ensures
        bvh_hit_t(n, r, imin, imax) == best_hit_t(bvh_objects(n), r, imin, imax),
    decreases n,
{
    match n {
        BvhNode::Empty => {
            assert(bvh_objects(n) =~= Seq::<Object>::empty());
        },
        BvhNode::Leaf(o) => {
            assert(bvh_objects(n) =~= seq![o]);
            assert(seq![o].drop_last() =~= Seq::<Object>::empty());
            assert(best_hit_t(seq![o], r, imin, imax) == opt_min(
                best_hit_t(Seq::<Object>::empty(), r, imin, imax),
                object_hit_t(o, r, imin, imax),
            ));
        },
        BvhNode::Internal { bbox, left, right } => {
            let objs = bvh_objects(n);
            let lobjs = bvh_objects(*left);
            let robjs = bvh_objects(*right);
            assert(objs == lobjs + robjs);
            assert forall|i: int| 0 <= i < lobjs.len() implies hit_preceded_in_box(
                #[trigger] lobjs[i],
                r,
                imin,
            ) by {
                assert(objs[i] == lobjs[i]);
            }
            assert forall|i: int| 0 <= i < robjs.len() implies hit_preceded_in_box(
                #[trigger] robjs[i],
                r,
                imin,
            ) by {
                assert(objs[lobjs.len() + i] == robjs[i]);
            }
            if !slab_hit(bbox, r, imin, imax) {
                lemma_bvh_box_contains(n);
                assert forall|i: int| 0 <= i < objs.len() implies object_hit_t(
                    #[trigger] objs[i],
                    r,
                    imin,
                    imax,
                ) is None by {
                    lemma_object_hit_is_cand(objs[i], r, imin, imax);
                    match object_hit_t(objs[i], r, imin, imax) {
                        Some(t) => {
                            assert(is_cand_t(objs[i], r, t));
                            assert(hit_preceded_in_box(objs[i], r, imin));
                            assert(box_passage(object_bbox(objs[i]), r, imin, t));
                            let (qn, qd) = choose|qn: int, qd: int|
                                {
                                    &&& qd >= 1
                                    &&& #[trigger] param_between(imin, t, qn, qd)
                                    &&& axis_inside(
                                        object_bbox(objs[i]).x_interval.min as int,
                                        object_bbox(objs[i]).x_interval.max as int,
                                        r.origin.x as int,
                                        r.direction.x as int,
                                        qn,
                                        qd,
                                    )
                                    &&& axis_inside(
                                        object_bbox(objs[i]).y_interval.min as int,
                                        object_bbox(objs[i]).y_interval.max as int,
                                        r.origin.y as int,
                                        r.direction.y as int,
                                        qn,
                                        qd,
                                    )
                                    &&& axis_inside(
                                        object_bbox(objs[i]).z_interval.min as int,
                                        object_bbox(objs[i]).z_interval.max as int,
                                        r.origin.z as int,
                                        r.direction.z as int,
                                        qn,
                                        qd,
                                    )
                                };
                            lemma_contains_inside(bbox, object_bbox(objs[i]), r, qn, qd);
                            lemma_mul_inequality(t, imax, qd);
                            assert(param_between(imin, imax, qn, qd));
                            assert(slab_hit(bbox, r, imin, imax));
                            assert(false);
                        },
                        None => {},
                    }
                }
                lemma_best_all_none(objs, r, imin, imax);
            } else {
                lemma_bvh_matches_linear(*left, r, imin, imax);
                let lt = bvh_hit_t(*left, r, imin, imax);
                let m = match lt {
                    Some(t) => t,
                    None => imax,
                };
                lemma_best_in_range(lobjs, r, imin, imax);
                lemma_bvh_matches_linear(*right, r, imin, m);
                lemma_best_concat(lobjs, robjs, r, imin, imax);
                lemma_best_clip(robjs, r, imin, imax, m);
                lemma_best_in_range(robjs, r, imin, imax);
            }
        },
    }
}

/// Trees built over the same objects, in whatever input order, answer every
/// query with the same nearest parameter: construction order is irrelevant
/// to the set of hits reported.
pub proof fn lemma_bvh_build_order_irrelevant(
    n1: BvhNode,
    n2: BvhNode,
    r: Ray,
    imin: int,
    imax: int,
)
    requires
        bvh_wf(n1),
        bvh_wf(n2),
        bvh_objects(n1).to_multiset() == bvh_objects(n2).to_multiset(),
        approach_all(bvh_objects(n1), r, imin),
        approach_all(bvh_objects(n2), r, imin),
    ensures
        bvh_hit_t(n1, r, imin, imax) == bvh_hit_t(n2, r, imin, imax),
{
    lemma_bvh_matches_linear(n1, r, imin, imax);
    lemma_bvh_matches_linear(n2, r, imin, imax);
    lemma_best_hit_order_invariant(bvh_objects(n1), bvh_objects(n2), r, imin, imax);
}

} // verus!
