//! Fixed-point arithmetic for the simulation.
//!
//! Lengths, positions and speeds are stored as `i32` counts of `1 / SCALE` world units (world
//! units per second for speeds); frame times are counts of microseconds. Intermediate
//! results are computed exactly in 128-bit integers and only the value finally stored is
//! rounded toward zero and saturated to the `i32` range. With a million sub-units to the
//! unit, one rounding costs less than a millionth of a unit, and the plane spans a little
//! over two thousand units to each side of the origin.

use vstd::math::abs;
use vstd::prelude::*;

verus! {

/// Stored sub-units per world unit. A sub-unit is the finest step of the plane, of a
/// speed and of a bounciness; it bounds what one rounding can cost.
pub const SCALE: i32 = 1_000_000;

/// Frame-time ticks per second.
pub const MICROS_PER_SECOND: u64 = 1_000_000;

/// `x` clamped to the range of `i32`.
pub open spec fn saturate(x: int) -> int {
    if x < i32::MIN {
        i32::MIN as int
    } else if x > i32::MAX {
        i32::MAX as int
    } else {
        x
    }
}

/// Quotient of `a` by a positive `b`, rounded toward zero.
pub open spec fn div_trunc(a: int, b: int) -> int {
    if a >= 0 {
        a / b
    } else {
        -((-a) / b)
    }
}

/// `s` is the integer square root of `n`: the largest integer whose square is at most `n`.
pub open spec fn is_sqrt_floor(n: int, s: int) -> bool {
    &&& 0 <= s
    &&& s * s <= n
    &&& n < (s + 1) * (s + 1)
}

/// The integer square root of `n`, for `n >= 0`.
pub closed spec fn sqrt_floor(n: int) -> int {
    choose|s: int| is_sqrt_floor(n, s)
}

/// One component of a vector rescaled to length `|m|`.
///
/// For a vector with component `a` and squared length `q > 0`, the rescaled component is
/// `a * m / sqrt(q)`. This is that value rounded toward zero: its magnitude is
/// `floor(sqrt(a^2 * m^2 / q))`, and its sign is the sign of `a * m`.
pub open spec fn along(a: int, m: int, q: int) -> int {
    let mag = sqrt_floor((a * a * m * m) / q);
    if (a >= 0) == (m >= 0) {
        mag
    } else {
        -mag
    }
}

proof fn lemma_sqrt_floor_exists(n: int)
    requires
        n >= 0,
    ensures
        exists|s: int| is_sqrt_floor(n, s),
    decreases n,
{
    if n == 0 {
        assert(is_sqrt_floor(0, 0));
    } else {
        let k = n - 1;
        lemma_sqrt_floor_exists(k);
        let s = choose|s: int| is_sqrt_floor(k, s);
        if (s + 1) * (s + 1) <= n {
            assert((s + 1) * (s + 1) < (s + 2) * (s + 2)) by (nonlinear_arith)
                requires
                    s >= 0,
            ;
            assert(is_sqrt_floor(n, s + 1));
        } else {
            assert(is_sqrt_floor(n, s));
        }
    }
}

proof fn lemma_sqrt_floor_unique(n: int, s: int, t: int)
    requires
        is_sqrt_floor(n, s),
        is_sqrt_floor(n, t),
    ensures
        s == t,
{
    if s < t {
        assert((s + 1) * (s + 1) <= t * t) by (nonlinear_arith)
            requires
                0 <= s,
                s + 1 <= t,
        ;
    } else if t < s {
        assert((t + 1) * (t + 1) <= s * s) by (nonlinear_arith)
            requires
                0 <= t,
                t + 1 <= s,
        ;
    }
}

/// Every non-negative integer has an integer square root, and `sqrt_floor` is it.
pub proof fn lemma_sqrt_floor(n: int)
    requires
        n >= 0,
    ensures
        is_sqrt_floor(n, sqrt_floor(n)),
{
    lemma_sqrt_floor_exists(n);
}

/// An integer that brackets `n` between its square and the next square is `sqrt_floor(n)`.
pub proof fn lemma_sqrt_floor_is(n: int, s: int)
    requires
        is_sqrt_floor(n, s),
    ensures
        sqrt_floor(n) == s,
{
    lemma_sqrt_floor_unique(n, s, sqrt_floor(n));
}

/// The square root of a perfect square is exact.
pub proof fn lemma_sqrt_floor_square(s: int)
    requires
        s >= 0,
    ensures
        sqrt_floor(s * s) == s,
{
    assert(s * s < (s + 1) * (s + 1)) by (nonlinear_arith)
        requires
            s >= 0,
    ;
    lemma_sqrt_floor_is(s * s, s);
}

/// A rescaled component is the exact component rounded toward zero: its square times `q`
/// does not exceed `a^2 * m^2`, the square of the next larger magnitude does, and it has
/// the sign of `a * m`.
pub proof fn lemma_along_bounds(a: int, m: int, q: int)
    requires
        q > 0,
    ensures
        along(a, m, q) * along(a, m, q) * q <= a * a * m * m,
        a * a * m * m < (abs(along(a, m, q)) + 1) * (abs(along(a, m, q)) + 1) * q,
        (a >= 0) == (m >= 0) ==> along(a, m, q) >= 0,
        (a >= 0) != (m >= 0) ==> along(a, m, q) <= 0,
{
    let n = a * a * m * m;
    assert(n >= 0) by (nonlinear_arith)
        requires
            n == a * a * m * m,
    ;
    let k = n / q;
    let s = sqrt_floor(k);
    assert(0 <= k && k * q <= n < (k + 1) * q) by (nonlinear_arith)
        requires
            q > 0,
            n >= 0,
            k == n / q,
    ;
    lemma_sqrt_floor(k);
    let r = along(a, m, q);
    assert(r == s || r == -s);
    assert(r * r == s * s) by (nonlinear_arith)
        requires
            r == s || r == -s,
    ;
    assert(abs(r) == s);
    assert(s * s * q <= n) by (nonlinear_arith)
        requires
            s * s <= k,
            k * q <= n,
            q > 0,
    ;
    assert(n < (s + 1) * (s + 1) * q) by (nonlinear_arith)
        requires
            k + 1 <= (s + 1) * (s + 1),
            n < (k + 1) * q,
            q > 0,
    ;
}

/// A rescaled component of a vector is no longer than the target length.
pub proof fn lemma_along_le_target(a: int, m: int, q: int)
    requires
        q > 0,
        a * a <= q,
    ensures
        abs(along(a, m, q)) <= abs(m),
{
    lemma_along_bounds(a, m, q);
    let r = abs(along(a, m, q)) as int;
    let t = abs(m) as int;
    assert(r * r == along(a, m, q) * along(a, m, q)) by (nonlinear_arith)
        requires
            r == along(a, m, q) || r == -along(a, m, q),
    ;
    assert(t * t == m * m) by (nonlinear_arith)
        requires
            t == m || t == -m,
    ;
    assert(a * a * m * m == a * a * (m * m)) by (nonlinear_arith);
    if r > t {
        assert(false) by (nonlinear_arith)
            requires
                r >= t + 1,
                t >= 0,
                q > 0,
                a * a <= q,
                r * r * q <= a * a * (t * t),
        ;
    }
}

/// A component that is the whole vector rescales to the target length exactly.
pub proof fn lemma_along_axis(a: int, m: int)
    requires
        a != 0,
    ensures
        along(a, m, a * a) == if a > 0 {
            m
        } else {
            -m
        },
{
    let q = a * a;
    assert(q > 0) by (nonlinear_arith)
        requires
            a != 0,
            q == a * a,
    ;
    let t = abs(m) as int;
    assert(a * a * m * m == (t * t) * q) by (nonlinear_arith)
        requires
            q == a * a,
            t == m || t == -m,
    ;
    assert(((t * t) * q) / q == t * t) by (nonlinear_arith)
        requires
            q > 0,
    ;
    lemma_sqrt_floor_square(t);
}

/// A square is non-negative and bounded by the square of a bound on its root.
pub proof fn lemma_square_bound(x: int, bound: int)
    requires
        -bound <= x <= bound,
    ensures
        0 <= x * x <= bound * bound,
{
    assert(0 <= x * x <= bound * bound) by (nonlinear_arith)
        requires
            -bound <= x <= bound,
    ;
}

/// A product is bounded in magnitude by the product of bounds on its factors.
pub proof fn lemma_product_bound(x: int, y: int, bx: int, by: int)
    requires
        -bx <= x <= bx,
        -by <= y <= by,
    ensures
        -(bx * by) <= x * y <= bx * by,
{
    assert(-(bx * by) <= x * y <= bx * by) by (nonlinear_arith)
        requires
            -bx <= x <= bx,
            -by <= y <= by,
    ;
}

/// Clamps a wide intermediate result to the stored range.
pub fn saturate_i32(x: i128) -> (r: i32)
    ensures
        r == saturate(x as int),
{
    if x < i32::MIN as i128 {
        i32::MIN
    } else if x > i32::MAX as i128 {
        i32::MAX
    } else {
        x as i32
    }
}

/// Integer square root by bisection.
pub fn isqrt(n: u128) -> (r: u64)
    ensures
        r == sqrt_floor(n as int),
{
    let mut lo: u128 = 0;
    let mut hi: u128 = 0x1_0000_0000_0000_0000;
    assert(n < hi * hi) by (nonlinear_arith)
        requires
            hi == 0x1_0000_0000_0000_0000,
            n <= u128::MAX,
    ;
    while hi - lo > 1
        invariant
            lo < hi <= 0x1_0000_0000_0000_0000,
            lo * lo <= n,
            n < hi * hi,
        decreases hi - lo,
    {
        let mid: u128 = lo + (hi - lo) / 2;
        assert(mid * mid <= u128::MAX) by (nonlinear_arith)
            requires
                mid <= 0xffff_ffff_ffff_ffff,
        ;
        if mid * mid <= n {
            lo = mid;
        } else {
            hi = mid;
        }
    }
    proof {
        lemma_sqrt_floor_is(n as int, lo as int);
    }
    lo as u64
}

/// Computes one rescaled component; see [`along`].
pub fn scale_along(a: i64, m: i64, q: u128) -> (r: i64)
    requires
        q > 0,
        a * a <= q,
        -0x1_0000_0000 <= a <= 0x1_0000_0000,
        -0x8000_0000 <= m <= 0x8000_0000,
    ensures
        r == along(a as int, m as int, q as int),
        abs(r as int) <= abs(m as int),
{
    let ua: u128 = if a < 0 {
        (-a) as u128
    } else {
        a as u128
    };
    let um: u128 = if m < 0 {
        (-m) as u128
    } else {
        m as u128
    };
    assert(ua * ua <= 0x1_0000_0000_0000_0000 && ua * ua == a * a) by (nonlinear_arith)
        requires
            ua <= 0x1_0000_0000,
            ua == a || ua == -a,
    ;
    assert(um * um <= 0x4000_0000_0000_0000 && um * um == m * m) by (nonlinear_arith)
        requires
            um <= 0x8000_0000,
            um == m || um == -m,
    ;
    let a2: u128 = ua * ua;
    let m2: u128 = um * um;
    assert(a2 * m2 <= 0x4000_0000_0000_0000_0000_0000_0000_0000) by (nonlinear_arith)
        requires
            a2 <= 0x1_0000_0000_0000_0000,
            m2 <= 0x4000_0000_0000_0000,
    ;
    assert(a2 * m2 == a * a * m * m) by (nonlinear_arith)
        requires
            a2 == a * a,
            m2 == m * m,
    ;
    let s = isqrt(a2 * m2 / q);
    proof {
        lemma_along_le_target(a as int, m as int, q as int);
    }
    if (a >= 0) == (m >= 0) {
        s as i64
    } else {
        -(s as i64)
    }
}

} // verus!
