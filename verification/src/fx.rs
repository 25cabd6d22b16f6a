//! Signed 64-bit fixed-point scalars: `SCALE` raw units stand for one world
//! unit. All arithmetic the simulators need — truncating multiply-divide,
//! integer square root, clamping, and a rational sine approximation over
//! binary angles (`TURN` raw units per full turn) — with exact contracts.

use vstd::prelude::*;

verus! {

/// Raw units per world unit.
pub const SCALE: i64 = 65536;

/// Raw angle units in a full turn.
pub const TURN: i64 = 65536;

/// Raw angle units in half a turn.
pub const HALF_TURN: i64 = 32768;

/// Raw angle units in a quarter turn.
pub const QUARTER_TURN: i64 = 16384;

/// Truncating division (round toward zero) of `p` by a positive `d`,
/// matching what the executable magnitude-based division computes.
pub open spec fn tdiv(p: int, d: int) -> int {
    if p >= 0 {
        p / d
    } else {
        -((-p) / d)
    }
}

/// `a * b / d` with truncating division: the fixed-point product primitive.
pub open spec fn muldiv(a: int, b: int, d: int) -> int {
    tdiv(a * b, d)
}

/// Clamp `v` into `[-b, b]`.
pub open spec fn clamp_spec(v: int, b: int) -> int {
    if v < -b {
        -b
    } else if v > b {
        b
    } else {
        v
    }
}

/// `r` is the integer square root of `n`.
pub open spec fn is_sqrt(r: int, n: int) -> bool {
    0 <= r && r * r <= n && n < (r + 1) * (r + 1)
}

/// The integer square root, as the unique root `is_sqrt` describes.
pub open spec fn sqrt_spec(n: int) -> int {
    choose|r: int| #[trigger] is_sqrt(r, n)
}

pub proof fn lemma_sqrt_exists(n: int)
    requires
        n >= 0,
    ensures
        exists|r: int| #[trigger] is_sqrt(r, n),
    decreases n,
{
    if n == 0 {
        assert(is_sqrt(0, 0));
    } else {
        lemma_sqrt_exists(n - 1);
        let r = choose|r: int| #[trigger] is_sqrt(r, n - 1);
        if (r + 1) * (r + 1) <= n {
            assert((r + 2) * (r + 2) > n) by (nonlinear_arith)
                requires
                    0 <= r,
                    n - 1 < (r + 1) * (r + 1),
            ;
            assert(is_sqrt(r + 1, n));
        } else {
            assert(is_sqrt(r, n));
        }
    }
}

pub proof fn lemma_sqrt_unique(a: int, b: int, n: int)
    requires
        is_sqrt(a, n),
        is_sqrt(b, n),
    ensures
        a == b,
{
    if a < b {
        assert(b * b > n) by (nonlinear_arith)
            requires
                0 <= a,
                a + 1 <= b,
                n < (a + 1) * (a + 1),
        ;
    }
    if b < a {
        assert(a * a > n) by (nonlinear_arith)
            requires
                0 <= b,
                b + 1 <= a,
                n < (b + 1) * (b + 1),
        ;
    }
}

pub proof fn lemma_sqrt_is(n: int)
    requires
        n >= 0,
    ensures
        is_sqrt(sqrt_spec(n), n),
{
    lemma_sqrt_exists(n);
}

/// The integer square root of a perfect square is its root.
pub proof fn lemma_sqrt_square(a: int)
    requires
        a >= 0,
    ensures
        sqrt_spec(a * a) == a,
{
    assert(a * a < (a + 1) * (a + 1)) by (nonlinear_arith)
        requires
            a >= 0,
    ;
    assert(is_sqrt(a, a * a));
    lemma_sqrt_exists(a * a);
    lemma_sqrt_unique(a, sqrt_spec(a * a), a * a);
}

/// A square that fits under `n` has its root bounded by `sqrt_spec(n)`.
pub proof fn lemma_sqrt_dominates(c: int, n: int)
    requires
        n >= 0,
        c * c <= n,
        c >= 0,
    ensures
        c <= sqrt_spec(n),
{
    lemma_sqrt_is(n);
    let s = sqrt_spec(n);
    if c > s {
        assert(c * c > n) by (nonlinear_arith)
            requires
                0 <= s,
                s + 1 <= c,
                n < (s + 1) * (s + 1),
        ;
    }
}

/// Integer square root by bisection.
pub fn isqrt(n: u64) -> (r: u64)
    requires
        n < 4611686018427387904u64,
    ensures
        r == sqrt_spec(n as int),
        is_sqrt(r as int, n as int),
        r < 2147483648u64,
{
    let mut lo: u64 = 0;
    let mut hi: u64 = 2147483648u64;
    assert(2147483648u64 * 2147483648u64 == 4611686018427387904u64) by (nonlinear_arith);
    while lo + 1 < hi
        invariant
            lo < hi <= 2147483648u64,
            lo * lo <= n,
            n < hi * hi,
        decreases hi - lo,
    {
        let mid = lo + (hi - lo) / 2;
        assert(lo < mid < hi);
        proof {
            assert(mid * mid < 4611686018427387904u64) by (nonlinear_arith)
                requires
                    mid < 2147483648u64,
            ;
        }
        if mid * mid <= n {
            lo = mid;
        } else {
            hi = mid;
        }
    }
    proof {
        lemma_sqrt_exists(n as int);
        lemma_sqrt_unique(lo as int, sqrt_spec(n as int), n as int);
    }
    lo
}

/// Magnitude of an `i64` that is not `i64::MIN`, as a `u64`.
pub(crate) fn magnitude(v: i64) -> (m: u64)
    requires
        v != i64::MIN,
    ensures
        m == if v >= 0 { v as int } else { -(v as int) },
{
    if v >= 0 {
        v as u64
    } else {
        (-v) as u64
    }
}

/// Truncating division of `p` by a positive `d`.
pub fn sdiv(p: i64, d: i64) -> (r: i64)
    requires
        d > 0,
        p != i64::MIN,
    ensures
        r == tdiv(p as int, d as int),
{
    let m = magnitude(p);
    let q = m / (d as u64);
    if p >= 0 {
        q as i64
    } else {
        proof {
            assert(q <= m) by (nonlinear_arith)
                requires
                    q == m / (d as u64),
                    d >= 1,
            ;
        }
        -(q as i64)
    }
}

/// `a * b / d` in raw units, with truncating division.
pub fn mul_div(a: i64, b: i64, d: i64) -> (r: i64)
    requires
        d > 0,
        -2147483648i64 <= a <= 2147483648i64,
        -2147483648i64 <= b <= 2147483648i64,
    ensures
        r == muldiv(a as int, b as int, d as int),
{
    proof {
        assert(-4611686018427387904 <= a as int * b as int <= 4611686018427387904) by (nonlinear_arith)
            requires
                -2147483648 <= a as int <= 2147483648,
                -2147483648 <= b as int <= 2147483648,
        ;
    }
    let p = a * b;
    sdiv(p, d)
}

/// `a * b / d` in raw units for a wide first factor and a narrow second.
pub fn mul_div_wide(a: i64, b: i64, d: i64) -> (r: i64)
    requires
        d > 0,
        -1099511627776i64 <= a <= 1099511627776i64,
        -1048576i64 <= b <= 1048576i64,
    ensures
        r == muldiv(a as int, b as int, d as int),
{
    proof {
        assert(-1152921504606846976 <= a as int * b as int <= 1152921504606846976)
            by (nonlinear_arith)
            requires
                -1099511627776 <= a as int <= 1099511627776,
                -1048576 <= b as int <= 1048576,
        ;
    }
    let p = a * b;
    sdiv(p, d)
}

/// Clamp `v` into `[-b, b]`.
pub fn clamp(v: i64, b: i64) -> (r: i64)
    requires
        b >= 0,
    ensures
        r == clamp_spec(v as int, b as int),
        -b <= r <= b,
{
    if v < -b {
        -b
    } else if v > b {
        b
    } else {
        v
    }
}

/// An angle reduced into `[0, TURN)`: the Euclidean remainder.
pub open spec fn ang_red(a: int) -> int {
    a % (TURN as int)
}

/// Reduce an angle into `[0, TURN)`.
pub fn reduce_angle(a: i64) -> (r: i64)
    requires
        a != i64::MIN,
    ensures
        r == ang_red(a as int),
        0 <= r < TURN,
{
    let m = magnitude(a);
    let t = TURN as u64;
    let rem = m % t;
    if a >= 0 {
        rem as i64
    } else {
        if rem == 0 {
            proof {
                let q = m / t;
                vstd::arithmetic::div_mod::lemma_fundamental_div_mod(m as int, t as int);
                vstd::arithmetic::div_mod::lemma_fundamental_div_mod_converse(
                    a as int,
                    TURN as int,
                    -(q as int),
                    0,
                );
            }
            0
        } else {
            proof {
                let q = m / t;
                vstd::arithmetic::div_mod::lemma_fundamental_div_mod(m as int, t as int);
                vstd::arithmetic::div_mod::lemma_fundamental_div_mod_converse(
                    a as int,
                    TURN as int,
                    -(q as int) - 1,
                    TURN - rem,
                );
            }
            TURN - (rem as i64)
        }
    }
}

/// Bhaskara's rational sine approximation
/// numerator over a half turn, in raw units.
pub open spec fn bhask_num(h: int) -> int {
    16 * (h * (32768 - h)) * 65536
}

/// Bhaskara's rational sine approximation denominator over a half turn.
pub open spec fn bhask_den(h: int) -> int {
    5 * 32768 * 32768 - 4 * (h * (32768 - h))
}

/// Bhaskara's rational sine approximation over a half turn, in raw units:
/// `bhask(0) == 0`, and it stays in `[0, SCALE]` throughout `[0, HALF_TURN]`.
pub open spec fn bhask(h: int) -> int {
    bhask_num(h) / bhask_den(h)
}

/// Sine of a binary angle, in raw units.
pub open spec fn sin_spec(a: int) -> int {
    let r = ang_red(a);
    if r < 32768 {
        bhask(r)
    } else {
        -bhask(r - 32768)
    }
}

/// Cosine of a binary angle, in raw units: sine a quarter turn ahead.
pub open spec fn cos_spec(a: int) -> int {
    sin_spec(a + 16384)
}

proof fn lemma_bhask_bounds(h: int)
    requires
        0 <= h <= 32768,
    ensures
        0 <= bhask(h) <= 65536,
{
    let p = h * (32768 - h);
    assert(0 <= p && 4 * p <= 32768 * 32768) by (nonlinear_arith)
        requires
            0 <= h <= 32768,
            p == h * (32768 - h),
    ;
    assert(0 <= 16 * p * 65536) by (nonlinear_arith)
        requires
            0 <= p,
    ;
    assert(16 * p * 65536 <= (5 * 32768 * 32768 - 4 * p) * 65536) by (nonlinear_arith)
        requires
            0 <= p,
            4 * p <= 32768 * 32768,
    ;
    let num = bhask_num(h);
    let den = bhask_den(h);
    assert(num == 16 * p * 65536);
    assert(den == 5 * 32768 * 32768 - 4 * p);
    assert(den >= 4 * 32768 * 32768);
    vstd::arithmetic::div_mod::lemma_div_pos_is_pos(num, den);
    vstd::arithmetic::div_mod::lemma_div_is_ordered(num, den * 65536, den);
    vstd::arithmetic::div_mod::lemma_div_multiples_vanish(65536, den);
    assert(num <= den * 65536) by (nonlinear_arith)
        requires
            num == 16 * p * 65536,
            den == 5 * 32768 * 32768 - 4 * p,
            16 * p * 65536 <= (5 * 32768 * 32768 - 4 * p) * 65536,
    ;
}

/// The sine approximation stays within one world unit of magnitude.
pub proof fn lemma_sin_bounds(a: int)
    ensures
        -65536 <= sin_spec(a) <= 65536,
{
    let r = ang_red(a);
    vstd::arithmetic::div_mod::lemma_mod_bound(a, 65536);
    if r < 32768 {
        lemma_bhask_bounds(r);
    } else {
        lemma_bhask_bounds(r - 32768);
    }
}

/// Sine of a binary angle (`TURN` units per full turn), in raw units.
pub fn sin_fx(a: i64) -> (r: i64)
    requires
        -2199023255552i64 <= a <= 2199023255552i64,
    ensures
        r == sin_spec(a as int),
        -SCALE <= r <= SCALE,
{
    let red = reduce_angle(a);
    let (h, neg): (i64, bool) = if red < HALF_TURN {
        (red, false)
    } else {
        (red - HALF_TURN, true)
    };
    let hu = h as u64;
    proof {
        assert(0 <= hu * (32768 - hu) && 4 * (hu * (32768 - hu)) <= 32768 * 32768)
            by (nonlinear_arith)
            requires
                0 <= hu <= 32768,
        ;
    }
    let prod: u64 = hu * (32768 - hu);
    let num: u64 = 16 * prod * 65536;
    let den: u64 = 5 * 32768 * 32768 - 4 * prod;
    let q = num / den;
    proof {
        lemma_bhask_bounds(h as int);
        assert(prod == (h as int) * (32768 - h as int));
        assert(num == bhask_num(h as int));
        assert(den == bhask_den(h as int));
        assert(q == bhask(h as int));
        lemma_sin_bounds(a as int);
    }
    if neg {
        -(q as i64)
    } else {
        q as i64
    }
}

/// Cosine of a binary angle, in raw units.
pub fn cos_fx(a: i64) -> (r: i64)
    requires
        -1099511627776i64 <= a <= 1099511627776i64,
    ensures
        r == cos_spec(a as int),
        -SCALE <= r <= SCALE,
{
    sin_fx(a + QUARTER_TURN)
}

} // verus!
