//! Fixed-point scalars, vectors and the random source.
//!
//! A scalar is an `i64` raw value standing for the real number `raw / SCALE`.
//! Multiplication and division of scalars round toward zero; the spec
//! functions `fxmul` and `fxdiv` say exactly what the executable operations
//! return, so every contract built on them is exact.

use vstd::prelude::*;
use vstd::arithmetic::mul::*;
use vstd::arithmetic::div_mod::*;
use rand::Rng;
use rand::SeedableRng;

verus! {

/// Number of raw units per whole unit.
pub const SCALE: i64 = 1024;

/// Largest magnitude allowed for a scene coordinate, radius or camera field.
pub const WORLD_MAX: i64 = 0x200000;

/// Largest magnitude allowed for a ray direction component.
pub const DIR_MAX: i64 = 0x400_0000;

/// Largest magnitude allowed for a ray origin component.
pub const ORIG_MAX: i64 = 0x1000_0000_0000;

/// Largest ray parameter a hit query considers; the observational infinity,
/// far beyond any coordinate a scene may hold.
pub const T_LIMIT: i64 = 0x40_0000;

/// Division truncated toward zero, the rounding of the executable `/`.
pub open spec fn tz(n: int, d: int) -> int {
    if n >= 0 {
        n / d
    } else {
        -((-n) / d)
    }
}

/// Product of two scalars, as a scalar (truncated toward zero).
pub open spec fn fxmul(a: int, b: int) -> int {
    tz(a * b, SCALE as int)
}

/// Quotient of two scalars, as a scalar (truncated toward zero).
pub open spec fn fxdiv(a: int, b: int) -> int {
    tz(a * (SCALE as int), b)
}

/// Floor of the square root; the executable square root returns exactly this.
pub open spec fn sqrt_floor(n: int) -> int
    decreases n,
{
    if n <= 0 {
        0
    } else {
        let r = sqrt_floor(n - 1);
        if (r + 1) * (r + 1) <= n {
            r + 1
        } else {
            r
        }
    }
}

pub proof fn lemma_sqrt_floor_bounds(n: int)
    requires
        n >= 0,
    ensures
        0 <= sqrt_floor(n),
        sqrt_floor(n) * sqrt_floor(n) <= n,
        n < (sqrt_floor(n) + 1) * (sqrt_floor(n) + 1),
    decreases n,
{
    if n == 0 {
    } else {
        lemma_sqrt_floor_bounds(n - 1);
        let r = sqrt_floor(n - 1);
        if (r + 1) * (r + 1) <= n {
            assert(n < (r + 2) * (r + 2)) by (nonlinear_arith)
                requires
                    r >= 0,
                    n - 1 < (r + 1) * (r + 1),
            ;
        }
    }
}

pub proof fn lemma_sqrt_floor_unique(n: int, r: int)
    requires
        n >= 0,
        r >= 0,
        r * r <= n,
        n < (r + 1) * (r + 1),
    ensures
        r == sqrt_floor(n),
{
    lemma_sqrt_floor_bounds(n);
    let s = sqrt_floor(n);
    assert(r == s) by (nonlinear_arith)
        requires
            r >= 0,
            s >= 0,
            r * r <= n,
            n < (r + 1) * (r + 1),
            s * s <= n,
            n < (s + 1) * (s + 1),
    ;
}

/// `|a| <= x` and `|b| <= y` bound the product: `|a * b| <= x * y`.
pub proof fn lemma_abs_mul(a: int, b: int, x: int, y: int)
    by (nonlinear_arith)
    requires
        -x <= a <= x,
        -y <= b <= y,
    ensures
        -(x * y) <= a * b <= x * y,
{
}

/// Truncating division by a positive divisor shrinks magnitudes.
pub proof fn lemma_tz_bound(n: int, d: int, m: int)
    requires
        d >= 1,
        -m <= n <= m,
        m >= 0,
    ensures
        -m <= tz(n, d) <= m,
        -(m / d) <= tz(n, d) <= m / d,
{
    if n >= 0 {
        lemma_div_is_ordered(n, m, d);
        lemma_div_pos_is_pos(n, d);
    } else {
        lemma_div_is_ordered(-n, m, d);
        lemma_div_pos_is_pos(-n, d);
    }
}

/// Truncating division by a positive divisor is monotone.
pub proof fn lemma_tz_monotone(a: int, b: int, d: int)
    requires
        d >= 1,
        a <= b,
    ensures
        tz(a, d) <= tz(b, d),
{
    if a >= 0 {
        lemma_div_is_ordered(a, b, d);
    } else if b < 0 {
        lemma_div_is_ordered(-b, -a, d);
    } else {
        lemma_div_pos_is_pos(-a, d);
        lemma_div_pos_is_pos(b, d);
    }
}

/// Division truncated toward zero on `i128`, matching `tz` exactly.
pub fn tz_div_i128(n: i128, d: i128) -> (q: i128)
    requires
        d >= 1,
        n > i128::MIN,
    ensures
        q == tz(n as int, d as int),
{
    if n >= 0 {
        let un: u128 = n as u128;
        let ud: u128 = d as u128;
        let uq: u128 = un / ud;
        assert(uq <= un);
        uq as i128
    } else {
        let un: u128 = (-n) as u128;
        let ud: u128 = d as u128;
        let uq: u128 = un / ud;
        assert(uq <= un);
        -(uq as i128)
    }
}

/// Floor division on `i128` (rounding toward negative infinity), matching
/// the specification-level `/` on `int` for a positive divisor.
pub fn floor_div_i128(n: i128, d: i128) -> (q: i128)
    requires
        d >= 1,
        n > i128::MIN,
        i128::MIN as int <= n as int / d as int,
    ensures
        q == n as int / d as int,
{
    if n >= 0 {
        let un: u128 = n as u128;
        let ud: u128 = d as u128;
        let uq: u128 = un / ud;
        assert(uq <= un);
        uq as i128
    } else {
        let m: u128 = (-n) as u128;
        let ud: u128 = d as u128;
        let q1: u128 = (m + ud - 1) / ud;
        proof {
            let r1 = (m as int + d - 1) % (d as int);
            lemma_fundamental_div_mod(m as int + d - 1, d as int);
            lemma_mod_bound(m as int + d - 1, d as int);
            assert(q1 == (m as int + d - 1) / (d as int));
            assert(m as int + d - 1 == (d as int) * (q1 as int) + r1);
            assert(n as int == (-(q1 as int)) * (d as int) + (d - 1 - r1)) by (nonlinear_arith)
                requires
                    n as int == -(m as int),
                    m as int + d - 1 == (d as int) * (q1 as int) + r1,
            ;
            lemma_fundamental_div_mod_converse(n as int, d as int, -(q1 as int), d - 1 - r1);
            assert(q1 <= m) by (nonlinear_arith)
                requires
                    d >= 1,
                    m >= 1,
                    (m as int + d - 1) == (d as int) * (q1 as int) + r1,
                    0 <= r1 < d,
            ;
        }
        -(q1 as i128)
    }
}

/// Floor of the square root of a `u128`.
pub fn isqrt_u128(n: u128) -> (r: u128)
    ensures
        r == sqrt_floor(n as int),
{
    let mut lo: u128 = 0;
    let mut hi: u128 = 0xffff_ffff_ffff_ffff;
    if n >= hi * hi {
        proof {
            lemma_sqrt_floor_unique(n as int, hi as int);
        }
        return hi;
    }
    while lo < hi
        invariant
            lo <= hi,
            hi <= 0xffff_ffff_ffff_ffff,
            lo * lo <= n,
            n < (hi + 1) * (hi + 1),
        decreases hi - lo,
    {
        let mid: u128 = lo + (hi - lo + 1) / 2;
        assert(lo < mid <= hi);
        assert(mid * mid <= 0xffff_ffff_ffff_ffff * 0xffff_ffff_ffff_ffff) by (nonlinear_arith)
            requires
                mid <= 0xffff_ffff_ffff_ffffu128,
        ;
        if mid * mid <= n {
            lo = mid;
        } else {
            hi = mid - 1;
            assert(n < (hi + 1) * (hi + 1));
        }
    }
    proof {
        lemma_sqrt_floor_unique(n as int, lo as int);
    }
    lo
}

/// Floor of the square root of a nonnegative `i64`, as a scalar helper.
pub fn isqrt_i64(n: i64) -> (r: i64)
    requires
        n >= 0,
    ensures
        r == sqrt_floor(n as int),
        0 <= r,
        r * r <= n,
{
    let r = isqrt_u128(n as u128);
    proof {
        lemma_sqrt_floor_bounds(n as int);
        assert(sqrt_floor(n as int) * sqrt_floor(n as int) <= n);
        assert(sqrt_floor(n as int) <= n) by (nonlinear_arith)
            requires
                sqrt_floor(n as int) >= 0,
                sqrt_floor(n as int) * sqrt_floor(n as int) <= n,
        ;
    }
    r as i64
}

/// Scalar product `a * b / SCALE`, exact per `fxmul`.
pub fn mul_fx(a: i64, b: i64) -> (r: i64)
    requires
        -0x4000_0000_0000_0000_0000 <= a as int * b as int <= 0x4000_0000_0000_0000_0000,
        i64::MIN as int <= fxmul(a as int, b as int) <= i64::MAX as int,
    ensures
        r == fxmul(a as int, b as int),
{
    let p: i128 = (a as i128) * (b as i128);
    let q = tz_div_i128(p, SCALE as i128);
    q as i64
}

/// Scalar quotient `a * SCALE / b`, exact per `fxdiv`.
pub fn div_fx(a: i64, b: i64) -> (r: i64)
    requires
        b >= 1,
        i64::MIN as int <= fxdiv(a as int, b as int) <= i64::MAX as int,
    ensures
        r == fxdiv(a as int, b as int),
{
    let p: i128 = (a as i128) * (SCALE as i128);
    let q = tz_div_i128(p, b as i128);
    proof {
        lemma_tz_bound(p as int, b as int, 0x8000_0000_0000_0000_0000);
    }
    q as i64
}

/// Clamp a scalar into `[min, max]`.
pub fn clamp(x: i64, min: i64, max: i64) -> (r: i64)
    requires
        min <= max,
    ensures
        r == clamp_spec(x as int, min as int, max as int),
{
    if x < min {
        return min;
    }
    if x > max {
        return max;
    }
    x
}

pub open spec fn clamp_spec(x: int, min: int, max: int) -> int {
    if x < min {
        min
    } else if x > max {
        max
    } else {
        x
    }
}

/// A scalar range, along the ray parameter or one spatial axis. A range
/// with `max <= min` is treated as empty by every consumer.
#[derive(Clone, Copy, Debug, PartialEq, Eq, Structural)]
pub struct Interval {
    pub min: i64,
    pub max: i64,
}

impl Interval {
    /// The smallest interval holding both arguments.
    pub fn new_from_intervals(a: Interval, b: Interval) -> (r: Interval)
        ensures
            r.min == if a.min <= b.min { a.min } else { b.min },
            r.max == if a.max >= b.max { a.max } else { b.max },
    {
        Interval {
            min: if a.min <= b.min { a.min } else { b.min },
            max: if a.max >= b.max { a.max } else { b.max },
        }
    }
}

/// Operands small enough that `mul_fx` cannot overflow.
pub open spec fn mul_ok(a: int, b: int) -> bool {
    &&& -0x4000_0000_0000_0000_0000 <= a * b <= 0x4000_0000_0000_0000_0000
    &&& i64::MIN as int <= fxmul(a, b) <= i64::MAX as int
}

/// A vector of three scalars; doubles as a point and as a color.
#[derive(Clone, Copy, Debug, PartialEq, Eq, Structural)]
pub struct Vec3 {
    pub x: i64,
    pub y: i64,
    pub z: i64,
}

pub type Color = Vec3;

pub type Point = Vec3;

/// All three components within `[-m, m]`.
pub open spec fn vec_in(v: Vec3, m: int) -> bool {
    &&& -m <= v.x <= m
    &&& -m <= v.y <= m
    &&& -m <= v.z <= m
}

pub open spec fn add_spec(a: Vec3, b: Vec3) -> Vec3 {
    Vec3 { x: (a.x + b.x) as i64, y: (a.y + b.y) as i64, z: (a.z + b.z) as i64 }
}

pub open spec fn sub_spec(a: Vec3, b: Vec3) -> Vec3 {
    Vec3 { x: (a.x - b.x) as i64, y: (a.y - b.y) as i64, z: (a.z - b.z) as i64 }
}

pub open spec fn neg_spec(a: Vec3) -> Vec3 {
    Vec3 { x: (-a.x) as i64, y: (-a.y) as i64, z: (-a.z) as i64 }
}

pub open spec fn scale_spec(a: Vec3, s: int) -> Vec3 {
    Vec3 {
        x: fxmul(a.x as int, s) as i64,
        y: fxmul(a.y as int, s) as i64,
        z: fxmul(a.z as int, s) as i64,
    }
}

pub open spec fn mul_spec(a: Vec3, b: Vec3) -> Vec3 {
    Vec3 {
        x: fxmul(a.x as int, b.x as int) as i64,
        y: fxmul(a.y as int, b.y as int) as i64,
        z: fxmul(a.z as int, b.z as int) as i64,
    }
}

/// Scalar product of two vectors, one truncation at the end.
pub open spec fn dot_spec(a: Vec3, b: Vec3) -> int {
    tz(a.x * b.x + a.y * b.y + a.z * b.z, SCALE as int)
}

/// Raw length: the square root of `SCALE * (v . v)` is the scalar `|v|`.
pub open spec fn len_spec(v: Vec3) -> int {
    sqrt_floor(SCALE * dot_spec(v, v))
}

pub open spec fn unit_spec(v: Vec3) -> Vec3 {
    Vec3 {
        x: fxdiv(v.x as int, len_spec(v)) as i64,
        y: fxdiv(v.y as int, len_spec(v)) as i64,
        z: fxdiv(v.z as int, len_spec(v)) as i64,
    }
}

impl Vec3 {
    pub fn new(x: i64, y: i64, z: i64) -> (r: Vec3)
        ensures
            r == (Vec3 { x, y, z }),
    {
        Vec3 { x, y, z }
    }

    pub fn zero() -> (r: Vec3)
        ensures
            r == (Vec3 { x: 0i64, y: 0i64, z: 0i64 }),
    {
        Vec3 { x: 0, y: 0, z: 0 }
    }

    pub fn x(&self) -> (r: i64)
        ensures
            r == self.x,
    {
        self.x
    }

    pub fn y(&self) -> (r: i64)
        ensures
            r == self.y,
    {
        self.y
    }

    pub fn z(&self) -> (r: i64)
        ensures
            r == self.z,
    {
        self.z
    }

    pub fn add(self, b: Vec3) -> (r: Vec3)
        requires
            i64::MIN as int <= self.x + b.x <= i64::MAX as int,
            i64::MIN as int <= self.y + b.y <= i64::MAX as int,
            i64::MIN as int <= self.z + b.z <= i64::MAX as int,
        ensures
            r == add_spec(self, b),
    {
        Vec3 { x: self.x + b.x, y: self.y + b.y, z: self.z + b.z }
    }

    pub fn sub(self, b: Vec3) -> (r: Vec3)
        requires
            i64::MIN as int <= self.x - b.x <= i64::MAX as int,
            i64::MIN as int <= self.y - b.y <= i64::MAX as int,
            i64::MIN as int <= self.z - b.z <= i64::MAX as int,
        ensures
            r == sub_spec(self, b),
    {
        Vec3 { x: self.x - b.x, y: self.y - b.y, z: self.z - b.z }
    }

    pub fn neg(self) -> (r: Vec3)
        requires
            self.x > i64::MIN,
            self.y > i64::MIN,
            self.z > i64::MIN,
        ensures
            r == neg_spec(self),
    {
        Vec3 { x: -self.x, y: -self.y, z: -self.z }
    }

    /// Multiply every component by the scalar `s`.
    pub fn scale(self, s: i64) -> (r: Vec3)
        requires
            mul_ok(self.x as int, s as int),
            mul_ok(self.y as int, s as int),
            mul_ok(self.z as int, s as int),
        ensures
            r == scale_spec(self, s as int),
    {
        Vec3 { x: mul_fx(self.x, s), y: mul_fx(self.y, s), z: mul_fx(self.z, s) }
    }

    /// Component-wise scalar product, as for colors.
    pub fn mul(self, b: Vec3) -> (r: Vec3)
        requires
            mul_ok(self.x as int, b.x as int),
            mul_ok(self.y as int, b.y as int),
            mul_ok(self.z as int, b.z as int),
        ensures
            r == mul_spec(self, b),
    {
        Vec3 { x: mul_fx(self.x, b.x), y: mul_fx(self.y, b.y), z: mul_fx(self.z, b.z) }
    }

    pub fn dot(&self, b: Vec3) -> (r: i64)
        requires
            vec_in(*self, 0x4000_0000_0000_0000),
            vec_in(b, 0x4000_0000_0000_0000),
            i64::MIN as int <= dot_spec(*self, b) <= i64::MAX as int,
        ensures
            r == dot_spec(*self, b),
    {
        proof {
            lemma_abs_mul(self.x as int, b.x as int, 0x4000_0000_0000_0000, 0x4000_0000_0000_0000);
            lemma_abs_mul(self.y as int, b.y as int, 0x4000_0000_0000_0000, 0x4000_0000_0000_0000);
            lemma_abs_mul(self.z as int, b.z as int, 0x4000_0000_0000_0000, 0x4000_0000_0000_0000);
        }
        let s: i128 = (self.x as i128) * (b.x as i128) + (self.y as i128) * (b.y as i128) + (
        self.z as i128) * (b.z as i128);
        let q = tz_div_i128(s, SCALE as i128);
        q as i64
    }

    pub fn len_squared(&self) -> (r: i64)
        requires
            vec_in(*self, 0x4000_0000_0000_0000),
            i64::MIN as int <= dot_spec(*self, *self) <= i64::MAX as int,
        ensures
            r == dot_spec(*self, *self),
            r >= 0,
    {
        proof {
            lemma_abs_mul(self.x as int, self.x as int, 0x4000_0000_0000_0000, 0x4000_0000_0000_0000);
            lemma_abs_mul(self.y as int, self.y as int, 0x4000_0000_0000_0000, 0x4000_0000_0000_0000);
            lemma_abs_mul(self.z as int, self.z as int, 0x4000_0000_0000_0000, 0x4000_0000_0000_0000);
            assert(self.x as int * self.x as int >= 0) by (nonlinear_arith);
            assert(self.y as int * self.y as int >= 0) by (nonlinear_arith);
            assert(self.z as int * self.z as int >= 0) by (nonlinear_arith);
            lemma_div_pos_is_pos(
                self.x as int * self.x as int + self.y as int * self.y as int + self.z as int
                    * self.z as int,
                SCALE as int,
            );
        }
        self.dot(*self)
    }

    pub fn len(&self) -> (r: i64)
        requires
            vec_in(*self, 0x4000_0000),
        ensures
            r == len_spec(*self),
            r >= 0,
    {
        proof {
            lemma_vec_dot_self_bound(*self, 0x4000_0000);
        }
        let ls = self.len_squared();
        let r = isqrt_i64(ls * SCALE);
        proof {
            lemma_mul_is_commutative(ls as int, SCALE as int);
        }
        r
    }

    /// The vector divided by its own length; length must be at least one raw
    /// unit. Every component of the result is below 34816 in magnitude, and
    /// below 1057 when the vector is at least one whole unit long.
    pub fn unit_vector(&self) -> (r: Vec3)
        requires
            vec_in(*self, 0x4000_0000),
            len_spec(*self) >= 1,
        ensures
            r == unit_spec(*self),
            vec_in(r, 34816),
            len_spec(*self) >= SCALE ==> vec_in(r, 1057),
            len_spec(*self) >= SCALE / 2 ==> vec_in(r, 1090),
    {
        proof {
            lemma_vec_dot_self_bound(*self, 0x4000_0000);
            lemma_unit_component_bound(*self);
        }
        let l = self.len();
        Vec3 { x: div_fx(self.x, l), y: div_fx(self.y, l), z: div_fx(self.z, l) }
    }

    /// Below one raw unit in every component.
    pub fn near_zero(&self) -> (r: bool)
        ensures
            r == (self.x == 0 && self.y == 0 && self.z == 0),
    {
        self.x == 0 && self.y == 0 && self.z == 0
    }

    /// A vector with each component drawn from `[min, max]`.
    pub fn random(rng: &mut RandomSource, min: i64, max: i64) -> (r: Vec3)
        requires
            min <= max,
            -0x2000_0000_0000 <= min,
            max <= 0x2000_0000_0000,
        ensures
            min <= r.x <= max,
            min <= r.y <= max,
            min <= r.z <= max,
    {
        let x = rng.random_in_range(min, max);
        let y = rng.random_in_range(min, max);
        let z = rng.random_in_range(min, max);
        Vec3 { x, y, z }
    }

    /// A point inside the unit ball (square length at most one), found by
    /// rejection sampling with a bounded number of tries.
    pub fn random_in_unit_sphere(rng: &mut RandomSource) -> (r: Vec3)
        ensures
            vec_in(r, SCALE as int),
            dot_spec(r, r) <= SCALE,
    {
        let mut tries: u32 = 0;
        while tries < 64
            invariant
                tries <= 64,
            decreases 64 - tries,
        {
            let p = Self::random(rng, -SCALE, SCALE);
            proof {
                lemma_vec_dot_self_bound(p, SCALE as int);
            }
            let ls = p.len_squared();
            if ls <= SCALE {
                return p;
            }
            tries = tries + 1;
        }
        Vec3 { x: 0, y: 0, z: 0 }
    }

    /// A unit-length vector in a random direction.
    pub fn random_unit_vector(rng: &mut RandomSource) -> (r: Vec3)
        ensures
            vec_in(r, 34816),
    {
        let mut tries: u32 = 0;
        while tries < 64
            invariant
                tries <= 64,
            decreases 64 - tries,
        {
            let p = Self::random(rng, -SCALE, SCALE);
            proof {
                lemma_vec_dot_self_bound(p, SCALE as int);
            }
            let ls = p.len_squared();
            if 1 <= ls && ls <= SCALE {
                proof {
                    lemma_sqrt_floor_bounds(SCALE as int * dot_spec(p, p));
                    assert(len_spec(p) >= 1) by (nonlinear_arith)
                        requires
                            len_spec(p) >= 0,
                            SCALE as int * dot_spec(p, p) >= 1024,
                            SCALE as int * dot_spec(p, p) < (len_spec(p) + 1) * (len_spec(p) + 1),
                    ;
                }
                return p.unit_vector();
            }
            tries = tries + 1;
        }
        Vec3 { x: 0, y: 0, z: SCALE }
    }

    /// A point inside the unit disk in the xy plane.
    pub fn random_in_unit_disk(rng: &mut RandomSource) -> (r: Vec3)
        ensures
            vec_in(r, SCALE as int),
            r.z == 0,
    {
        let mut tries: u32 = 0;
        while tries < 64
            invariant
                tries <= 64,
            decreases 64 - tries,
        {
            let x = rng.random_between_0_1();
            let y = rng.random_between_0_1();
            let p = Vec3 { x, y, z: 0 };
            proof {
                lemma_vec_dot_self_bound(p, SCALE as int);
            }
            let ls = p.len_squared();
            if ls <= SCALE {
                return p;
            }
            tries = tries + 1;
        }
        Vec3 { x: 0, y: 0, z: 0 }
    }

    /// The cross product of two vectors.
    pub fn cross(a: Vec3, b: Vec3) -> (r: Vec3)
        requires
            vec_in(a, 0x4000_0000),
            vec_in(b, 0x4000_0000),
        ensures
            r == cross_spec(a, b),
    {
        proof {
            lemma_abs_mul(a.y as int, b.z as int, 0x4000_0000, 0x4000_0000);
            lemma_abs_mul(a.z as int, b.y as int, 0x4000_0000, 0x4000_0000);
            lemma_abs_mul(a.z as int, b.x as int, 0x4000_0000, 0x4000_0000);
            lemma_abs_mul(a.x as int, b.z as int, 0x4000_0000, 0x4000_0000);
            lemma_abs_mul(a.x as int, b.y as int, 0x4000_0000, 0x4000_0000);
            lemma_abs_mul(a.y as int, b.x as int, 0x4000_0000, 0x4000_0000);
            lemma_tz_bound(
                a.y as int * b.z as int - a.z as int * b.y as int,
                1024,
                0x2000_0000_0000_0000,
            );
            lemma_tz_bound(
                a.z as int * b.x as int - a.x as int * b.z as int,
                1024,
                0x2000_0000_0000_0000,
            );
            lemma_tz_bound(
                a.x as int * b.y as int - a.y as int * b.x as int,
                1024,
                0x2000_0000_0000_0000,
            );
        }
        let x = tz_div_i128(
            (a.y as i128) * (b.z as i128) - (a.z as i128) * (b.y as i128),
            SCALE as i128,
        );
        let y = tz_div_i128(
            (a.z as i128) * (b.x as i128) - (a.x as i128) * (b.z as i128),
            SCALE as i128,
        );
        let z = tz_div_i128(
            (a.x as i128) * (b.y as i128) - (a.y as i128) * (b.x as i128),
            SCALE as i128,
        );
        Vec3 { x: x as i64, y: y as i64, z: z as i64 }
    }

    /// Mirror reflection about the normal `n`: `v - 2 (v . n) n`.
    pub fn reflect(v: Vec3, n: Vec3) -> (r: Vec3)
        requires
            vec_in(v, 0x1_0000),
            vec_in(n, 4 * SCALE as int),
        ensures
            r == reflect_spec(v, n),
            vec_in(r, 0x80_0000),
    {
        proof {
            lemma_dot_bound(v, n, 0x1_0000, 4 * SCALE as int);
        }
        let d = v.dot(n);
        proof {
            lemma_abs_mul(n.x as int, 2 * d as int, 4 * SCALE as int, 0x18_0000);
            lemma_abs_mul(n.y as int, 2 * d as int, 4 * SCALE as int, 0x18_0000);
            lemma_abs_mul(n.z as int, 2 * d as int, 4 * SCALE as int, 0x18_0000);
            lemma_tz_bound(n.x as int * (2 * d as int), SCALE as int, 0x1_8000_0000);
            lemma_tz_bound(n.y as int * (2 * d as int), SCALE as int, 0x1_8000_0000);
            lemma_tz_bound(n.z as int * (2 * d as int), SCALE as int, 0x1_8000_0000);
        }
        let scaled = n.scale(2 * d);
        v.sub(scaled)
    }

    /// Snell refraction of the unit vector `uv` at normal `n`, with the
    /// refraction-index ratio `etai_over_etat`.
    pub fn refract(uv: Vec3, n: Vec3, etai_over_etat: i64) -> (r: Vec3)
        requires
            vec_in(uv, 0x1_0000),
            vec_in(n, 4 * SCALE as int),
            0 <= etai_over_etat <= 2 * SCALE as int,
        ensures
            r == refract_spec(uv, n, etai_over_etat as int),
            vec_in(r, DIR_MAX as int),
    {
        proof {
            lemma_dot_bound(uv, n, 0x1_0000, 4 * SCALE as int);
        }
        let d = uv.dot(n);
        let cos_theta = if -d < SCALE {
            -d
        } else {
            SCALE
        };
        proof {
            lemma_abs_mul(n.x as int, cos_theta as int, 4 * SCALE as int, 0xc_0000);
            lemma_abs_mul(n.y as int, cos_theta as int, 4 * SCALE as int, 0xc_0000);
            lemma_abs_mul(n.z as int, cos_theta as int, 4 * SCALE as int, 0xc_0000);
            lemma_tz_bound(n.x as int * cos_theta as int, SCALE as int, 0xc000_0000);
            lemma_tz_bound(n.y as int * cos_theta as int, SCALE as int, 0xc000_0000);
            lemma_tz_bound(n.z as int * cos_theta as int, SCALE as int, 0xc000_0000);
        }
        let inner = uv.add(n.scale(cos_theta));
        proof {
            lemma_abs_mul(inner.x as int, etai_over_etat as int, 0x31_0000, 2 * SCALE as int);
            lemma_abs_mul(inner.y as int, etai_over_etat as int, 0x31_0000, 2 * SCALE as int);
            lemma_abs_mul(inner.z as int, etai_over_etat as int, 0x31_0000, 2 * SCALE as int);
            lemma_tz_bound(inner.x as int * etai_over_etat as int, SCALE as int, 0x1_8800_0000);
            lemma_tz_bound(inner.y as int * etai_over_etat as int, SCALE as int, 0x1_8800_0000);
            lemma_tz_bound(inner.z as int * etai_over_etat as int, SCALE as int, 0x1_8800_0000);
        }
        let r_out_perp = inner.scale(etai_over_etat);
        proof {
            lemma_vec_dot_self_bound(r_out_perp, 0x62_0000);
        }
        let perp_ls = r_out_perp.len_squared();
        let under = if SCALE - perp_ls >= 0 {
            SCALE - perp_ls
        } else {
            perp_ls - SCALE
        };
        proof {
            lemma_abs_mul(under as int, 1, 0x1_0000_0000_0000_0000, 1);
        }
        let root = isqrt_i64(under * SCALE);
        proof {
            lemma_mul_is_commutative(under as int, SCALE as int);
            lemma_sqrt_floor_bounds(SCALE as int * under as int);
            assert(root <= 0xc0_0000) by (nonlinear_arith)
                requires
                    root >= 0,
                    root * root <= SCALE as int * under as int,
                    0 <= under <= 0x1d_0000_0000,
            ;
            lemma_abs_mul(n.x as int, -root as int, 4 * SCALE as int, 0xc0_0000);
            lemma_abs_mul(n.y as int, -root as int, 4 * SCALE as int, 0xc0_0000);
            lemma_abs_mul(n.z as int, -root as int, 4 * SCALE as int, 0xc0_0000);
            lemma_tz_bound(n.x as int * (-root as int), SCALE as int, 0xc_0000_0000);
            lemma_tz_bound(n.y as int * (-root as int), SCALE as int, 0xc_0000_0000);
            lemma_tz_bound(n.z as int * (-root as int), SCALE as int, 0xc_0000_0000);
        }
        let r_out_para = n.scale(-root);
        r_out_perp.add(r_out_para)
    }
}

/// The cross product as a value, one truncation per component.
pub open spec fn cross_spec(a: Vec3, b: Vec3) -> Vec3 {
    Vec3 {
        x: tz(a.y * b.z - a.z * b.y, SCALE as int) as i64,
        y: tz(a.z * b.x - a.x * b.z, SCALE as int) as i64,
        z: tz(a.x * b.y - a.y * b.x, SCALE as int) as i64,
    }
}

/// The reflection formula as a value: `v - 2 (v . n) n`.
pub open spec fn reflect_spec(v: Vec3, n: Vec3) -> Vec3 {
    sub_spec(v, scale_spec(n, 2 * dot_spec(v, n)))
}

/// The refraction formula as a value, with the truncations spelled out.
pub open spec fn refract_spec(uv: Vec3, n: Vec3, eta: int) -> Vec3 {
    let cos_theta = if -dot_spec(uv, n) < SCALE {
        -dot_spec(uv, n)
    } else {
        SCALE as int
    };
    let r_out_perp = scale_spec(add_spec(uv, scale_spec(n, cos_theta)), eta);
    let under = if SCALE - dot_spec(r_out_perp, r_out_perp) >= 0 {
        SCALE - dot_spec(r_out_perp, r_out_perp)
    } else {
        dot_spec(r_out_perp, r_out_perp) - SCALE
    };
    add_spec(r_out_perp, scale_spec(n, -sqrt_floor(SCALE * under)))
}

/// The scalar product of two bounded vectors is within `3 x y / SCALE`.
pub proof fn lemma_dot_bound(a: Vec3, b: Vec3, x: int, y: int)
    requires
        x >= 0,
        y >= 0,
        vec_in(a, x),
        vec_in(b, y),
    ensures
        -(x * y) <= a.x as int * b.x as int <= x * y,
        -(x * y) <= a.y as int * b.y as int <= x * y,
        -(x * y) <= a.z as int * b.z as int <= x * y,
        -(3 * (x * y)) <= a.x as int * b.x as int + a.y as int * b.y as int + a.z as int
            * b.z as int <= 3 * (x * y),
        -((3 * (x * y)) / (SCALE as int)) <= dot_spec(a, b) <= (3 * (x * y)) / (SCALE as int),
{
    lemma_abs_mul(a.x as int, b.x as int, x, y);
    lemma_abs_mul(a.y as int, b.y as int, x, y);
    lemma_abs_mul(a.z as int, b.z as int, x, y);
    lemma_tz_bound(
        a.x as int * b.x as int + a.y as int * b.y as int + a.z as int * b.z as int,
        SCALE as int,
        3 * (x * y),
    );
}

/// A square dot-product is within `3 m^2 / SCALE` when components are in `[-m, m]`.
pub proof fn lemma_vec_dot_self_bound(v: Vec3, m: int)
    requires
        m >= 0,
        vec_in(v, m),
    ensures
        0 <= dot_spec(v, v) <= 3 * m * m / (SCALE as int),
        SCALE * dot_spec(v, v) <= 3 * m * m,
{
    lemma_abs_mul(v.x as int, v.x as int, m, m);
    lemma_abs_mul(v.y as int, v.y as int, m, m);
    lemma_abs_mul(v.z as int, v.z as int, m, m);
    assert(v.x as int * v.x as int >= 0) by (nonlinear_arith);
    assert(v.y as int * v.y as int >= 0) by (nonlinear_arith);
    assert(v.z as int * v.z as int >= 0) by (nonlinear_arith);
    let s = v.x as int * v.x as int + v.y as int * v.y as int + v.z as int * v.z as int;
    lemma_div_pos_is_pos(s, SCALE as int);
    assert(s <= 3 * m * m) by (nonlinear_arith)
        requires
            v.x as int * v.x as int <= m * m,
            v.y as int * v.y as int <= m * m,
            v.z as int * v.z as int <= m * m,
            s == v.x as int * v.x as int + v.y as int * v.y as int + v.z as int * v.z as int,
    ;
    lemma_div_is_ordered(s, 3 * m * m, SCALE as int);
    lemma_sqrt_floor_bounds(SCALE * (s / (SCALE as int)));
    assert(SCALE * (s / (SCALE as int)) <= s) by {
        lemma_fundamental_div_mod(s, SCALE as int);
        lemma_mod_bound(s, SCALE as int);
    }
}

/// Each component of a unit vector is below 34816 raw units in magnitude.
pub proof fn lemma_unit_component_bound(v: Vec3)
    requires
        vec_in(v, 0x4000_0000),
        len_spec(v) >= 1,
    ensures
        vec_in(unit_spec(v), 34816),
        len_spec(v) >= SCALE ==> vec_in(unit_spec(v), 1057),
        len_spec(v) >= SCALE / 2 ==> vec_in(unit_spec(v), 1090),
{
    let s = v.x as int * v.x as int + v.y as int * v.y as int + v.z as int * v.z as int;
    let ls = dot_spec(v, v);
    let l = len_spec(v);
    lemma_vec_dot_self_bound(v, 0x4000_0000);
    lemma_sqrt_floor_bounds(SCALE * ls);
    // SCALE * ls is within SCALE of s, so components square to at most (l + 33)^2.
    lemma_fundamental_div_mod(s, SCALE as int);
    lemma_mod_bound(s, SCALE as int);
    assert(s < SCALE * ls + SCALE);
    assert(SCALE * ls < (l + 1) * (l + 1));
    assert(v.y as int * v.y as int >= 0) by (nonlinear_arith);
    assert(v.z as int * v.z as int >= 0) by (nonlinear_arith);
    assert(v.x as int * v.x as int >= 0) by (nonlinear_arith);
    lemma_unit_component_bound_axis(v.x as int, s, l);
    lemma_unit_component_bound_axis(v.y as int, s, l);
    lemma_unit_component_bound_axis(v.z as int, s, l);
}

proof fn lemma_unit_component_bound_axis(c: int, s: int, l: int)
    requires
        l >= 1,
        c * c <= s,
        s < (l + 1) * (l + 1) + SCALE,
    ensures
        -34816 <= fxdiv(c, l) <= 34816,
        l >= SCALE ==> -1057 <= fxdiv(c, l) <= 1057,
        l >= SCALE / 2 ==> -1090 <= fxdiv(c, l) <= 1090,
{
    assert(-(l + 33) <= c <= l + 33) by (nonlinear_arith)
        requires
            l >= 1,
            c * c <= s,
            s < (l + 1) * (l + 1) + 1024,
    ;
    lemma_abs_mul(c, SCALE as int, l + 33, SCALE as int);
    lemma_tz_bound(c * (SCALE as int), l, (l + 33) * SCALE);
    assert(((l + 33) * SCALE) / l <= 34816) by (nonlinear_arith)
        requires
            l >= 1,
    ;
    if l >= SCALE {
        assert(((l + 33) * SCALE) / l <= 1057) by (nonlinear_arith)
            requires
                l >= 1024,
        ;
    }
    if l >= SCALE / 2 {
        assert(((l + 33) * SCALE) / l <= 1090) by (nonlinear_arith)
            requires
                l >= 512,
        ;
    }
}

#[verifier::external_type_specification]
#[verifier::external_body]
pub struct ExStdRng(rand::rngs::StdRng);

/// An explicit, seedable source of randomness, threaded through every
/// stochastic routine so that renders are reproducible.
pub struct RandomSource {
    rng: rand::rngs::StdRng,
}

impl RandomSource {
    /// Relies on rand's `StdRng::seed_from_u64` to build a deterministic
    /// generator from the seed.
    #[verifier::external_body]
    pub fn new(seed: u64) -> RandomSource {
        RandomSource { rng: rand::rngs::StdRng::seed_from_u64(seed) }
    }

    /// Relies on rand's `Rng::gen_range`: a sample from the non-empty
    /// closed range `[lo, hi]`. Nothing is assumed beyond the range.
    #[verifier::external_body]
    fn sample_range(&mut self, lo: i64, hi: i64) -> (r: i64)
        requires
            lo <= hi,
        ensures
            lo <= r <= hi,
    {
        self.rng.gen_range(lo..=hi)
    }

    /// A scalar from the unit interval `[0, 1)`.
    pub fn random_between_0_1(&mut self) -> (r: i64)
        ensures
            0 <= r < SCALE,
    {
        self.sample_range(0, SCALE - 1)
    }

    /// An integer from the closed range `[lo, hi]`.
    pub fn random_int(&mut self, lo: i32, hi: i32) -> (r: i32)
        requires
            lo <= hi,
        ensures
            lo <= r <= hi,
    {
        let r = self.sample_range(lo as i64, hi as i64);
        r as i32
    }

    /// A scalar between `min` and `max`.
    pub fn random_in_range(&mut self, min: i64, max: i64) -> (r: i64)
        requires
            min <= max,
            -0x2000_0000_0000 <= min,
            max <= 0x2000_0000_0000,
        ensures
            min <= r <= max,
    {
        let t = self.random_between_0_1();
        proof {
            lemma_abs_mul(max - min, t as int, 0x4000_0000_0000, SCALE as int);
            lemma_div_pos_is_pos((max - min) * t, SCALE as int);
            assert((max - min) * t <= (max - min) * SCALE) by (nonlinear_arith)
                requires
                    0 <= t < SCALE,
                    max - min >= 0,
            ;
            lemma_div_is_ordered((max - min) * t, (max - min) * SCALE, SCALE as int);
            lemma_div_by_multiple(max - min, SCALE as int);
        }
        let d = mul_fx(max - min, t);
        min + d
    }
}

} // verus!
