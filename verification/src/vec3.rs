//! Fixed-point 3-vectors and 2-vectors, with componentwise contracts, plus
//! the axis rotations and the Euclidean norm the simulators build on.

use vstd::prelude::*;

use crate::fx;
use crate::fx::{cos_spec, is_sqrt, muldiv, sin_spec, sqrt_spec, tdiv};

verus! {

/// A 3-vector of raw fixed-point coordinates.
#[derive(Clone, Copy, PartialEq, Eq, Structural, Debug)]
pub struct Vec3Fx {
    pub x: i64,
    pub y: i64,
    pub z: i64,
}

/// A 2-vector of raw fixed-point coordinates.
#[derive(Clone, Copy, PartialEq, Eq, Structural, Debug)]
pub struct Vec2Fx {
    pub x: i64,
    pub y: i64,
}

/// Magnitude bound `p` with `-c*d <= p <= c*d` divides down to `[-c, c]`.
pub proof fn lemma_tdiv_mag(p: int, d: int, c: int)
    requires
        d > 0,
        0 <= c,
        -(c * d) <= p <= c * d,
    ensures
        -c <= tdiv(p, d) <= c,
{
    if p >= 0 {
        assert(p <= d * c) by (nonlinear_arith)
            requires
                p <= c * d,
        ;
        vstd::arithmetic::div_mod::lemma_div_pos_is_pos(p, d);
        vstd::arithmetic::div_mod::lemma_div_is_ordered(p, d * c, d);
        vstd::arithmetic::div_mod::lemma_div_multiples_vanish(c, d);
    } else {
        assert(-p <= d * c) by (nonlinear_arith)
            requires
                -p <= c * d,
        ;
        vstd::arithmetic::div_mod::lemma_div_pos_is_pos(-p, d);
        vstd::arithmetic::div_mod::lemma_div_is_ordered(-p, d * c, d);
        vstd::arithmetic::div_mod::lemma_div_multiples_vanish(c, d);
    }
}

/// Scaling `a` by a ratio `b/d` of magnitude at most one keeps `a`'s bound.
pub proof fn lemma_muldiv_ratio(a: int, b: int, d: int, c: int)
    requires
        d > 0,
        0 <= c,
        -c <= a <= c,
        -d <= b <= d,
    ensures
        -c <= muldiv(a, b, d) <= c,
{
    assert(-(c * d) <= a * b <= c * d) by (nonlinear_arith)
        requires
            -c <= a <= c,
            -d <= b <= d,
            0 <= c,
            0 < d,
    ;
    lemma_tdiv_mag(a * b, d, c);
}

/// Scaling a bounded `b` by a ratio `a/d` of magnitude at most one keeps
/// `b`'s bound.
pub proof fn lemma_muldiv_ratio2(a: int, b: int, d: int, c: int)
    requires
        d > 0,
        0 <= c,
        -d <= a <= d,
        -c <= b <= c,
    ensures
        -c <= muldiv(a, b, d) <= c,
{
    assert(-(c * d) <= a * b <= c * d) by (nonlinear_arith)
        requires
            -d <= a <= d,
            -c <= b <= c,
            0 <= c,
            0 < d,
    ;
    lemma_tdiv_mag(a * b, d, c);
}

impl Vec3Fx {
    /// Every coordinate lies in `[-b, b]`.
    pub open spec fn bounded(self, b: int) -> bool {
        -b <= self.x <= b && -b <= self.y <= b && -b <= self.z <= b
    }

    pub fn new(x: i64, y: i64, z: i64) -> (r: Vec3Fx)
        ensures
            r == (Vec3Fx { x, y, z }),
    {
        Vec3Fx { x, y, z }
    }

    pub fn zero() -> (r: Vec3Fx)
        ensures
            r == (Vec3Fx { x: 0i64, y: 0i64, z: 0i64 }),
    {
        Vec3Fx { x: 0, y: 0, z: 0 }
    }

    /// Componentwise sum.
    pub fn vadd(self, o: Vec3Fx) -> (r: Vec3Fx)
        requires
            i64::MIN <= self.x + o.x <= i64::MAX,
            i64::MIN <= self.y + o.y <= i64::MAX,
            i64::MIN <= self.z + o.z <= i64::MAX,
        ensures
            r.x == self.x + o.x,
            r.y == self.y + o.y,
            r.z == self.z + o.z,
    {
        Vec3Fx { x: self.x + o.x, y: self.y + o.y, z: self.z + o.z }
    }

    /// Componentwise difference.
    pub fn vsub(self, o: Vec3Fx) -> (r: Vec3Fx)
        requires
            i64::MIN <= self.x - o.x <= i64::MAX,
            i64::MIN <= self.y - o.y <= i64::MAX,
            i64::MIN <= self.z - o.z <= i64::MAX,
        ensures
            r.x == self.x - o.x,
            r.y == self.y - o.y,
            r.z == self.z - o.z,
    {
        Vec3Fx { x: self.x - o.x, y: self.y - o.y, z: self.z - o.z }
    }

    /// Componentwise scaling by the fixed-point factor `s`.
    pub fn vscale(self, s: i64) -> (r: Vec3Fx)
        requires
            self.bounded(2147483648),
            -2147483648 <= s <= 2147483648,
        ensures
            r.x == muldiv(self.x as int, s as int, fx::SCALE as int),
            r.y == muldiv(self.y as int, s as int, fx::SCALE as int),
            r.z == muldiv(self.z as int, s as int, fx::SCALE as int),
    {
        Vec3Fx {
            x: fx::mul_div(self.x, s, fx::SCALE),
            y: fx::mul_div(self.y, s, fx::SCALE),
            z: fx::mul_div(self.z, s, fx::SCALE),
        }
    }
}

/// The squared Euclidean norm.
pub open spec fn norm2_spec(v: Vec3Fx) -> int {
    v.x * v.x + v.y * v.y + v.z * v.z
}

/// The Euclidean norm, rounded down.
pub open spec fn norm_spec(v: Vec3Fx) -> int {
    sqrt_spec(norm2_spec(v))
}

/// The squared magnitude of an `i64`, as a `u64`.
fn square_mag(c: i64) -> (r: u64)
    requires
        -1073741824 <= c <= 1073741824,
    ensures
        r == c * c,
        r <= 0x1000000000000000u64,
{
    let m = fx::magnitude(c);
    proof {
        assert(m * m == c * c && m * m <= 0x1000000000000000u64) by (nonlinear_arith)
            requires
                m == if c >= 0 { c as int } else { -(c as int) },
                -1073741824 <= c <= 1073741824,
        ;
    }
    m * m
}

/// The Euclidean norm of a bounded vector, with each coordinate's magnitude
/// dominated by the result.
pub fn vnorm(v: Vec3Fx) -> (r: i64)
    requires
        v.bounded(1073741824),
    ensures
        r == norm_spec(v),
        is_sqrt(r as int, norm2_spec(v)),
        0 <= r < 2147483648,
        -r <= v.x <= r,
        -r <= v.y <= r,
        -r <= v.z <= r,
{
    let sx = square_mag(v.x);
    let sy = square_mag(v.y);
    let sz = square_mag(v.z);
    let n2 = sx + sy + sz;
    let r = fx::isqrt(n2);
    proof {
        let n = norm2_spec(v);
        let mx: int = if v.x >= 0 { v.x as int } else { -(v.x as int) };
        let my: int = if v.y >= 0 { v.y as int } else { -(v.y as int) };
        let mz: int = if v.z >= 0 { v.z as int } else { -(v.z as int) };
        assert(mx * mx == v.x * v.x && my * my == v.y * v.y && mz * mz == v.z * v.z
            && v.x * v.x <= v.x * v.x + v.y * v.y + v.z * v.z
            && v.y * v.y <= v.x * v.x + v.y * v.y + v.z * v.z
            && v.z * v.z <= v.x * v.x + v.y * v.y + v.z * v.z
            && 0 <= v.x * v.x + v.y * v.y + v.z * v.z) by (nonlinear_arith)
            requires
                mx == if v.x >= 0 { v.x as int } else { -(v.x as int) },
                my == if v.y >= 0 { v.y as int } else { -(v.y as int) },
                mz == if v.z >= 0 { v.z as int } else { -(v.z as int) },
        ;
        fx::lemma_sqrt_dominates(mx, n);
        fx::lemma_sqrt_dominates(my, n);
        fx::lemma_sqrt_dominates(mz, n);
    }
    r as i64
}

/// Rotation about the Z axis by a binary angle, in the XY plane.
pub open spec fn rot_z_spec(v: Vec3Fx, ang: int) -> Vec3Fx {
    Vec3Fx {
        x: (muldiv(v.x as int, cos_spec(ang), 65536) - muldiv(
            v.y as int,
            sin_spec(ang),
            65536,
        )) as i64,
        y: (muldiv(v.x as int, sin_spec(ang), 65536) + muldiv(
            v.y as int,
            cos_spec(ang),
            65536,
        )) as i64,
        z: v.z,
    }
}

/// Rotation about the X axis by a binary angle, in the YZ plane.
pub open spec fn rot_x_spec(v: Vec3Fx, ang: int) -> Vec3Fx {
    Vec3Fx {
        x: v.x,
        y: (muldiv(v.y as int, cos_spec(ang), 65536) - muldiv(
            v.z as int,
            sin_spec(ang),
            65536,
        )) as i64,
        z: (muldiv(v.y as int, sin_spec(ang), 65536) + muldiv(
            v.z as int,
            cos_spec(ang),
            65536,
        )) as i64,
    }
}

/// Rotate `v` about the Z axis by the binary angle `ang`.
pub fn rot_z(v: Vec3Fx, ang: i64) -> (r: Vec3Fx)
    requires
        v.bounded(0x20000000),
        -1099511627776i64 <= ang <= 1099511627776i64,
    ensures
        r == rot_z_spec(v, ang as int),
        r.bounded(0x40000000),
{
    let c = fx::cos_fx(ang);
    let s = fx::sin_fx(ang);
    proof {
        lemma_muldiv_ratio(v.x as int, c as int, 65536, 0x20000000);
        lemma_muldiv_ratio(v.y as int, s as int, 65536, 0x20000000);
        lemma_muldiv_ratio(v.x as int, s as int, 65536, 0x20000000);
        lemma_muldiv_ratio(v.y as int, c as int, 65536, 0x20000000);
    }
    Vec3Fx {
        x: fx::mul_div(v.x, c, fx::SCALE) - fx::mul_div(v.y, s, fx::SCALE),
        y: fx::mul_div(v.x, s, fx::SCALE) + fx::mul_div(v.y, c, fx::SCALE),
        z: v.z,
    }
}

/// Rotate `v` about the X axis by the binary angle `ang`.
pub fn rot_x(v: Vec3Fx, ang: i64) -> (r: Vec3Fx)
    requires
        v.bounded(0x20000000),
        -1099511627776i64 <= ang <= 1099511627776i64,
    ensures
        r == rot_x_spec(v, ang as int),
        r.bounded(0x40000000),
{
    let c = fx::cos_fx(ang);
    let s = fx::sin_fx(ang);
    proof {
        lemma_muldiv_ratio(v.y as int, c as int, 65536, 0x20000000);
        lemma_muldiv_ratio(v.z as int, s as int, 65536, 0x20000000);
        lemma_muldiv_ratio(v.y as int, s as int, 65536, 0x20000000);
        lemma_muldiv_ratio(v.z as int, c as int, 65536, 0x20000000);
    }
    Vec3Fx {
        x: v.x,
        y: fx::mul_div(v.y, c, fx::SCALE) - fx::mul_div(v.z, s, fx::SCALE),
        z: fx::mul_div(v.y, s, fx::SCALE) + fx::mul_div(v.z, c, fx::SCALE),
    }
}

/// The rotated vector keeps a doubled coordinate bound.
pub proof fn lemma_rot_z_bound(v: Vec3Fx, ang: int, c: int)
    requires
        0 <= c,
        v.bounded(c),
        2 * c <= 0x4000000000000000,
    ensures
        rot_z_spec(v, ang).bounded(2 * c),
{
    fx::lemma_sin_bounds(ang);
    fx::lemma_sin_bounds(ang + 16384);
    lemma_muldiv_ratio(v.x as int, cos_spec(ang), 65536, c);
    lemma_muldiv_ratio(v.y as int, sin_spec(ang), 65536, c);
    lemma_muldiv_ratio(v.x as int, sin_spec(ang), 65536, c);
    lemma_muldiv_ratio(v.y as int, cos_spec(ang), 65536, c);
}

/// The rotated vector keeps a doubled coordinate bound.
pub proof fn lemma_rot_x_bound(v: Vec3Fx, ang: int, c: int)
    requires
        0 <= c,
        v.bounded(c),
        2 * c <= 0x4000000000000000,
    ensures
        rot_x_spec(v, ang).bounded(2 * c),
{
    fx::lemma_sin_bounds(ang);
    fx::lemma_sin_bounds(ang + 16384);
    lemma_muldiv_ratio(v.y as int, cos_spec(ang), 65536, c);
    lemma_muldiv_ratio(v.z as int, sin_spec(ang), 65536, c);
    lemma_muldiv_ratio(v.y as int, sin_spec(ang), 65536, c);
    lemma_muldiv_ratio(v.z as int, cos_spec(ang), 65536, c);
}

} // verus!
