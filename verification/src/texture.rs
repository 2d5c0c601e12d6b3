//! Textures: solid colors and a three-dimensional checker pattern.

use vstd::prelude::*;
use vstd::arithmetic::div_mod::{lemma_mod_multiples_vanish, lemma_div_is_ordered, lemma_div_pos_is_pos};
use crate::util::{Color, Point, Vec3, vec_in, floor_div_i128, SCALE, ORIG_MAX};

verus! {

/// Color components within the unit range `[0, SCALE]`.
pub open spec fn color_in_unit(c: Color) -> bool {
    &&& 0 <= c.x <= SCALE
    &&& 0 <= c.y <= SCALE
    &&& 0 <= c.z <= SCALE
}

#[derive(Clone, Copy, Debug, PartialEq, Eq, Structural)]
pub struct SolidColor {
    pub color: Color,
}

impl SolidColor {
    pub fn from_color(color: Color) -> (r: SolidColor)
        ensures
            r.color == color,
    {
        SolidColor { color }
    }

    pub fn from_values(red: i64, green: i64, blue: i64) -> (r: SolidColor)
        ensures
            r.color == (Vec3 { x: red, y: green, z: blue }),
    {
        SolidColor { color: Vec3 { x: red, y: green, z: blue } }
    }

    pub fn value(&self, u: i64, v: i64, p: &Point) -> (r: Color)
        ensures
            r == self.color,
    {
        self.color
    }
}

#[derive(Clone, Copy, Debug, PartialEq, Eq, Structural)]
pub struct CheckerTexture {
    pub odd: SolidColor,
    pub even: SolidColor,
    pub inv_scale: i64,
}

/// The integer cell index of a coordinate under the checker's inverse scale:
/// the floor of the real product `(inv_scale / SCALE) * (coord / SCALE)`.
pub open spec fn checker_cell(inv_scale: int, coord: int) -> int {
    (inv_scale * coord) / ((SCALE * SCALE) as int)
}

/// The checker picks the even color when the cell index parity is even.
pub open spec fn checker_value_spec(t: CheckerTexture, p: Point) -> Color {
    if (checker_cell(t.inv_scale as int, p.x as int) + checker_cell(t.inv_scale as int, p.y as int)
        + checker_cell(t.inv_scale as int, p.z as int)) % 2 == 0 {
        t.even.color
    } else {
        t.odd.color
    }
}

impl CheckerTexture {
    pub fn new(scale: i64, odd: SolidColor, even: SolidColor) -> (r: CheckerTexture)
        requires
            scale >= 1,
        ensures
            r.odd == odd,
            r.even == even,
            r.inv_scale == crate::util::fxdiv(SCALE as int, scale as int),
            0 <= r.inv_scale <= SCALE as int * SCALE as int,
    {
        let inv = crate::util::div_fx(SCALE, scale);
        proof {
            lemma_div_pos_is_pos(SCALE as int * SCALE as int, scale as int);
            lemma_div_is_ordered(
                SCALE as int * SCALE as int,
                SCALE as int * SCALE as int * scale as int,
                scale as int,
            );
            assert(SCALE as int * SCALE as int * scale as int / scale as int == SCALE as int
                * SCALE as int) by (nonlinear_arith)
                requires
                    scale >= 1,
            ;
            assert(SCALE as int * SCALE as int <= SCALE as int * SCALE as int * scale as int) by (
            nonlinear_arith)
                requires
                    scale >= 1,
            ;
        }
        CheckerTexture { odd, even, inv_scale: inv }
    }

    pub fn new_from_colors(scale: i64, color1: Color, color2: Color) -> (r: CheckerTexture)
        requires
            scale >= 1,
        ensures
            r.odd.color == color1,
            r.even.color == color2,
            r.inv_scale == crate::util::fxdiv(SCALE as int, scale as int),
            0 <= r.inv_scale <= SCALE as int * SCALE as int,
    {
        Self::new(scale, SolidColor::from_color(color1), SolidColor::from_color(color2))
    }

    pub fn value(&self, u: i64, v: i64, p: &Point) -> (r: Color)
        requires
            0 <= self.inv_scale <= SCALE as int * SCALE as int,
            vec_in(*p, ORIG_MAX as int + 0x40_0000_0000),
        ensures
            r == checker_value_spec(*self, *p),
    {
        let cx = self.cell(p.x);
        let cy = self.cell(p.y);
        let cz = self.cell(p.z);
        let sum: i64 = cx + cy + cz;
        let shifted: u64 = (sum + 0x4000_0000_0000_0000) as u64;
        proof {
            lemma_mod_multiples_vanish(0x2000_0000_0000_0000, sum as int, 2);
        }
        if shifted % 2 == 0 {
            self.even.value(u, v, p)
        } else {
            self.odd.value(u, v, p)
        }
    }

    /// The cell index along one axis.
    fn cell(&self, coord: i64) -> (r: i64)
        requires
            0 <= self.inv_scale <= SCALE as int * SCALE as int,
            -(ORIG_MAX as int + 0x40_0000_0000) <= coord <= ORIG_MAX as int + 0x40_0000_0000,
        ensures
            r == checker_cell(self.inv_scale as int, coord as int),
            -0x1041_0000_0000 <= r <= 0x1041_0000_0000,
    {
        proof {
            assert(-0x1_0400_0000_0000_0000 <= self.inv_scale as int * coord as int
                <= 0x1_0400_0000_0000_0000) by (nonlinear_arith)
                requires
                    0 <= self.inv_scale <= 0x10_0000,
                    -0x1040_0000_0000 <= coord <= 0x1040_0000_0000,
            ;
            lemma_floor_div_bound(
                self.inv_scale as int * coord as int,
                (SCALE * SCALE) as int,
                0x1_0400_0000_0000_0000,
            );
        }
        let q = floor_div_i128(
            (self.inv_scale as i128) * (coord as i128),
            (SCALE as i128) * (SCALE as i128),
        );
        q as i64
    }
}

/// Floor division keeps magnitudes within `m / d` (give or take one for the
/// rounding of negative numerators).
proof fn lemma_floor_div_bound(n: int, d: int, m: int)
    requires
        d >= 1,
        m >= 0,
        -m <= n <= m,
    ensures
        -(m / d) - 1 <= n / d <= m / d,
{
    if n >= 0 {
        lemma_div_pos_is_pos(n, d);
        lemma_div_is_ordered(n, m, d);
    } else {
        lemma_div_is_ordered(-m, n, d);
        lemma_div_is_ordered(n, 0, d);
        assert(0int / d == 0) by {
            vstd::arithmetic::div_mod::lemma_div_of0(d);
        }
        lemma_div_pos_is_pos(m, d);
        assert((-m) / d >= -(m / d) - 1) by {
            vstd::arithmetic::div_mod::lemma_fundamental_div_mod(m, d);
            vstd::arithmetic::div_mod::lemma_fundamental_div_mod(-m, d);
            vstd::arithmetic::div_mod::lemma_mod_bound(m, d);
            vstd::arithmetic::div_mod::lemma_mod_bound(-m, d);
            assert((-m) / d * d == -m - ((-m) % d));
            assert(((-(m / d) - 1) * d) <= -m - ((-m) % d)) by (nonlinear_arith)
                requires
                    d >= 1,
                    m == m / d * d + m % d,
                    0 <= m % d < d,
                    0 <= (-m) % d < d,
            ;
            vstd::arithmetic::div_mod::lemma_div_multiples_vanish(-(m / d) - 1, d);
            lemma_div_is_ordered((-(m / d) - 1) * d, -m - ((-m) % d), d);
            assert((-m - ((-m) % d)) / d == (-m) / d) by {
                vstd::arithmetic::div_mod::lemma_fundamental_div_mod_converse(
                    -m - ((-m) % d),
                    d,
                    (-m) / d,
                    0,
                );
            }
        }
    }
}

#[derive(Clone, Copy, Debug, PartialEq, Eq, Structural)]
pub enum RenderableTexture {
    SolidColor(SolidColor),
    CheckerTexture(CheckerTexture),
}

/// Well-formed texture: colors within the unit range, checker scale sane.
pub open spec fn texture_wf(t: RenderableTexture) -> bool {
    match t {
        RenderableTexture::SolidColor(sc) => color_in_unit(sc.color),
        RenderableTexture::CheckerTexture(ct) => {
            &&& color_in_unit(ct.odd.color)
            &&& color_in_unit(ct.even.color)
            &&& 0 <= ct.inv_scale <= SCALE as int * SCALE as int
        },
    }
}

/// What `value` returns: the solid color, or the checker's pick.
pub open spec fn texture_value_spec(t: RenderableTexture, p: Point) -> Color {
    match t {
        RenderableTexture::SolidColor(sc) => sc.color,
        RenderableTexture::CheckerTexture(ct) => checker_value_spec(ct, p),
    }
}

impl RenderableTexture {
    pub fn value(&self, u: i64, v: i64, p: &Point) -> (r: Color)
        requires
            texture_wf(*self),
            vec_in(*p, ORIG_MAX as int + 0x40_0000_0000),
        ensures
            r == texture_value_spec(*self, *p),
            color_in_unit(r),
    {
        match self {
            RenderableTexture::SolidColor(sc) => sc.value(u, v, p),
            RenderableTexture::CheckerTexture(ct) => ct.value(u, v, p),
        }
    }
}

} // verus!
