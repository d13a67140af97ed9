//! Great-circle distance by the haversine formula, in fixed-point
//! integer arithmetic.
//!
//! Angles are carried in nanoradians (radians scaled by 1e9) and
//! trigonometric values scaled by 1e9. Coordinates come in as signed
//! microdegrees; the result is a distance in centimeters on a sphere of
//! radius 6,371,000 meters. The sine uses a degree-7 Taylor polynomial
//! after reflection into the first quadrant, and the final angle
//! `atan2(sqrt(a), sqrt(1 - a))` is evaluated as an arcsine series on
//! whichever of `sqrt(a)`, `sqrt(1 - a)` is at most `sqrt(1/2)`. Every
//! executable function returns exactly the value of its spec mirror.

use vstd::prelude::*;
use vstd::arithmetic::mul::lemma_mul_inequality;
use vstd::arithmetic::div_mod::lemma_div_is_ordered;
use vstd::arithmetic::div_mod::lemma_div_multiples_vanish;

verus! {

/// Scale of trigonometric values and of angles in nanoradians.
pub const SCALE: u128 = 1_000_000_000;

/// Pi in nanoradians.
pub const PI_N: u128 = 3_141_592_653;

/// Pi/2 in nanoradians.
pub const HALF_PI_N: u128 = 1_570_796_327;

/// One, at the scale of the haversine term `a` (1e18).
pub const ONE18: u128 = 1_000_000_000_000_000_000;

/// Half, at the scale of the haversine term `a`.
pub const HALF18: u128 = 500_000_000_000_000_000;

/// Twice the Earth radius, in centimeters: 2 * 6_371_000 m * 100.
pub const TWO_R_CM: u128 = 1_274_200_000;

/// `a * b / d <= a` whenever `b <= d`: the workhorse bound for the
/// scaled multiplications below.
proof fn lemma_mul_div_le(a: int, b: int, d: int)
    requires
        0 <= a,
        0 <= b <= d,
        0 < d,
    ensures
        a * b / d <= a,
{
    lemma_mul_inequality(b, d, a);
    assert(a * b == b * a) by (nonlinear_arith);
    assert(a * d == d * a) by (nonlinear_arith);
    lemma_div_is_ordered(a * b, a * d, d);
    lemma_div_multiples_vanish(a, d);
}


/// `a * b <= bound_a * bound_b` from the two factor bounds.
proof fn lemma_mul_bound(a: int, b: int, ba: int, bb: int)
    requires
        0 <= a <= ba,
        0 <= b <= bb,
    ensures
        a * b <= ba * bb,
{
    lemma_mul_inequality(a, ba, b);
    lemma_mul_inequality(b, bb, ba);
    assert(a * b == b * a) by (nonlinear_arith);
    assert(ba * b == b * ba) by (nonlinear_arith);
}

/// Magnitude of a difference of microdegree coordinates.
pub open spec fn abs_diff(x: int, y: int) -> int {
    if x >= y {
        x - y
    } else {
        y - x
    }
}

/// Half of a microdegree difference `d`, as a nonnegative angle in
/// nanoradians: |d| * pi / (360e6 microdegrees per half-turn-of-two).
pub open spec fn half_angle_spec(d: int) -> int
    recommends
        -360_000_000 <= d <= 360_000_000,
{
    abs_diff(d, 0) * (PI_N as int) / 360_000_000
}

/// A latitude in microdegrees as a nonnegative angle in nanoradians.
pub open spec fn lat_angle_spec(lat: int) -> int
    recommends
        -90_000_000 <= lat <= 90_000_000,
{
    abs_diff(lat, 0) * (PI_N as int) / 180_000_000
}

/// Taylor sine on the first quadrant, after reflecting `x` out of the
/// second: sin(x) scaled by 1e9, clamped into [0, 1e9].
pub open spec fn sin_pos_spec(x: int) -> int
    recommends
        0 <= x <= PI_N,
{
    let y = if x > HALF_PI_N as int {
        PI_N as int - x
    } else {
        x
    };
    let y2 = y * y / (SCALE as int);
    let t1 = y;
    let t2 = t1 * y2 / 6_000_000_000;
    let t3 = t2 * y2 / 20_000_000_000;
    let t4 = t3 * y2 / 42_000_000_000;
    let s = (t1 + t3) - (t2 + t4);
    if s > SCALE as int {
        SCALE as int
    } else {
        s
    }
}

/// Floor of the square root.
pub open spec fn isqrt_spec(n: nat) -> nat
    decreases n,
{
    if n == 0 {
        0
    } else {
        let r = isqrt_spec((n - 1) as nat);
        if (r + 1) * (r + 1) <= n {
            r + 1
        } else {
            r
        }
    }
}

/// `isqrt_spec(n)` is the floor of the square root of `n`.
pub proof fn lemma_isqrt_bounds(n: nat)
    ensures
        isqrt_spec(n) * isqrt_spec(n) <= n,
        n < (isqrt_spec(n) + 1) * (isqrt_spec(n) + 1),
    decreases n,
{
    if n == 0 {
        assert(isqrt_spec(n) == 0);
        assert(n < (isqrt_spec(n) + 1) * (isqrt_spec(n) + 1)) by (nonlinear_arith)
            requires
                n == 0,
                isqrt_spec(n) == 0,
        ;
    } else {
        lemma_isqrt_bounds((n - 1) as nat);
        let r = isqrt_spec((n - 1) as nat);
        if (r + 1) * (r + 1) <= n {
            assert(isqrt_spec(n) == r + 1);
            assert(n <= (r + 1) * (r + 1));
            assert(n < ((r + 1) + 1) * ((r + 1) + 1)) by (nonlinear_arith)
                requires
                    n <= (r + 1) * (r + 1),
            ;
            assert(n < (isqrt_spec(n) + 1) * (isqrt_spec(n) + 1));
        } else {
            assert(isqrt_spec(n) == r);
            assert(n < (isqrt_spec(n) + 1) * (isqrt_spec(n) + 1));
        }
    }
}

/// The floor square root is the only value bracketing `n` by squares.
pub proof fn lemma_isqrt_unique(n: nat, r: nat)
    requires
        r * r <= n,
        n < (r + 1) * (r + 1),
    ensures
        r == isqrt_spec(n),
{
    lemma_isqrt_bounds(n);
    let s = isqrt_spec(n);
    assert(r == s) by (nonlinear_arith)
        requires
            r * r <= n,
            n < (r + 1) * (r + 1),
            s * s <= n,
            n < (s + 1) * (s + 1),
    ;
}

/// Arcsine series on [0, sqrt(1/2)], scaled by 1e9 and clamped to pi/2.
pub open spec fn asin_pos_spec(y: int) -> int
    recommends
        0 <= y <= 707_106_782,
{
    let y2 = y * y / (SCALE as int);
    let u0 = y;
    let u1 = u0 * y2 / 2_000_000_000;
    let u2 = u1 * (y2 * 3) / 4_000_000_000;
    let u3 = u2 * (y2 * 5) / 6_000_000_000;
    let u4 = u3 * (y2 * 7) / 8_000_000_000;
    let u5 = u4 * (y2 * 9) / 10_000_000_000;
    let u6 = u5 * (y2 * 11) / 12_000_000_000;
    let s = u0 + u1 / 3 + u2 / 5 + u3 / 7 + u4 / 9 + u5 / 11 + u6 / 13;
    if s > HALF_PI_N as int {
        HALF_PI_N as int
    } else {
        s
    }
}

/// The haversine term `a`, scaled by 1e18 and clamped into [0, 1e18].
pub open spec fn hav_a_spec(lat1: int, lon1: int, lat2: int, lon2: int) -> int {
    let sp = sin_pos_spec(half_angle_spec(lat2 - lat1));
    let sl = sin_pos_spec(half_angle_spec(lon2 - lon1));
    let c1 = sin_pos_spec(HALF_PI_N as int - lat_angle_spec(lat1));
    let c2 = sin_pos_spec(HALF_PI_N as int - lat_angle_spec(lat2));
    let a = sp * sp + (c1 * c2 / (SCALE as int)) * (sl * sl / (SCALE as int));
    if a > ONE18 as int {
        ONE18 as int
    } else {
        a
    }
}

/// Great-circle distance in centimeters between two points given in
/// microdegrees, as computed by `distance_cm`.
pub open spec fn distance_spec(lat1: int, lon1: int, lat2: int, lon2: int) -> int {
    let a = hav_a_spec(lat1, lon1, lat2, lon2);
    let th = if a <= HALF18 as int {
        asin_pos_spec(isqrt_spec(a as nat) as int)
    } else {
        HALF_PI_N as int - asin_pos_spec(isqrt_spec((ONE18 as int - a) as nat) as int)
    };
    th * (TWO_R_CM as int) / (SCALE as int)
}

/// Half of the microdegree difference `d`, in nanoradians.
fn half_angle(d: i64) -> (r: u128)
    requires
        -360_000_000 <= d <= 360_000_000,
    ensures
        r == half_angle_spec(d as int),
        r <= PI_N,
{
    let m: u128 = if d < 0 {
        (-d) as u128
    } else {
        d as u128
    };
    proof {
        assert(m * PI_N <= 360_000_000 * PI_N) by (nonlinear_arith)
            requires
                m <= 360_000_000,
        ;
        lemma_mul_div_le(PI_N as int, m as int, 360_000_000);
        assert(m * (PI_N as int) == (PI_N as int) * m) by (nonlinear_arith);
    }
    m * PI_N / 360_000_000
}

/// A latitude in microdegrees as a nonnegative angle in nanoradians.
fn lat_angle(lat: i64) -> (r: u128)
    requires
        -90_000_000 <= lat <= 90_000_000,
    ensures
        r == lat_angle_spec(lat as int),
        r <= HALF_PI_N,
{
    let m: u128 = if lat < 0 {
        (-lat) as u128
    } else {
        lat as u128
    };
    proof {
        assert(m * PI_N <= 90_000_000 * PI_N) by (nonlinear_arith)
            requires
                m <= 90_000_000,
        ;
        assert(90_000_000 * PI_N / 180_000_000 == HALF_PI_N - 1);
        lemma_div_is_ordered((m * PI_N) as int, 90_000_000 * (PI_N as int), 180_000_000);
    }
    m * PI_N / 180_000_000
}

/// Taylor sine on [0, pi], scaled by 1e9 and clamped into [0, 1e9].
fn sin_pos(x: u128) -> (r: u128)
    requires
        x <= PI_N,
    ensures
        r == sin_pos_spec(x as int),
        r <= SCALE,
{
    let y: u128 = if x > HALF_PI_N {
        PI_N - x
    } else {
        x
    };
    assert(y <= HALF_PI_N);
    proof {
        lemma_mul_bound(y as int, y as int, HALF_PI_N as int, HALF_PI_N as int);
    }
    let y2: u128 = y * y / SCALE;
    proof {
        lemma_div_is_ordered((y * y) as int, (HALF_PI_N as int) * (HALF_PI_N as int), SCALE as int);
        assert((HALF_PI_N as int) * (HALF_PI_N as int) / (SCALE as int) < 2_467_401_110);
    }
    assert(y2 < 2_467_401_110);
    let t1: u128 = y;
    proof {
        lemma_mul_bound(t1 as int, y2 as int, HALF_PI_N as int, 2_467_401_110);
    }
    let t2: u128 = t1 * y2 / 6_000_000_000;
    proof {
        lemma_mul_div_le(t1 as int, y2 as int, 6_000_000_000);
        lemma_mul_bound(t2 as int, y2 as int, HALF_PI_N as int, 2_467_401_110);
    }
    let t3: u128 = t2 * y2 / 20_000_000_000;
    proof {
        lemma_mul_div_le(t2 as int, y2 as int, 20_000_000_000);
        lemma_mul_bound(t3 as int, y2 as int, HALF_PI_N as int, 2_467_401_110);
    }
    let t4: u128 = t3 * y2 / 42_000_000_000;
    proof {
        lemma_mul_div_le(t3 as int, y2 as int, 42_000_000_000);
    }
    let s: u128 = (t1 + t3) - (t2 + t4);
    if s > SCALE {
        SCALE
    } else {
        s
    }
}

/// Floor square root by bisection.
fn isqrt(n: u128) -> (r: u128)
    requires
        n <= ONE18,
    ensures
        r == isqrt_spec(n as nat),
        r <= 1_000_000_000,
{
    let mut lo: u128 = 0;
    let mut hi: u128 = 1_000_000_001;
    proof {
        assert((1_000_000_001 as u128) * 1_000_000_001 > ONE18);
    }
    while lo + 1 < hi
        invariant
            lo < hi <= 1_000_000_001,
            lo * lo <= n,
            n < hi * hi,
        decreases hi - lo,
    {
        let mid: u128 = lo + (hi - lo) / 2;
        proof {
            assert(mid * mid < u128::MAX) by (nonlinear_arith)
                requires
                    mid <= 1_000_000_001,
            ;
        }
        if mid * mid <= n {
            lo = mid;
        } else {
            hi = mid;
        }
    }
    proof {
        assert(n < (lo + 1) * (lo + 1));
        lemma_isqrt_unique(n as nat, lo as nat);
        assert(lo * lo <= ONE18);
        assert(lo <= 1_000_000_000) by (nonlinear_arith)
            requires
                lo * lo <= ONE18,
        ;
    }
    lo
}

/// Arcsine series on [0, sqrt(1/2)], scaled by 1e9 and clamped to pi/2.
fn asin_pos(y: u128) -> (r: u128)
    requires
        y <= 707_106_782,
    ensures
        r == asin_pos_spec(y as int),
        r <= HALF_PI_N,
{
    proof {
        lemma_mul_bound(y as int, y as int, 707_106_782, 707_106_782);
    }
    let y2: u128 = y * y / SCALE;
    proof {
        lemma_div_is_ordered((y * y) as int, (707_106_782 as int) * 707_106_782, SCALE as int);
        assert((707_106_782 as int) * 707_106_782 / (SCALE as int) < 500_000_002);
    }
    assert(y2 < 500_000_002);
    let u0: u128 = y;
    proof {
        lemma_mul_bound(u0 as int, y2 as int, 707_106_782, 500_000_002);
    }
    let u1: u128 = u0 * y2 / 2_000_000_000;
    proof {
        lemma_mul_div_le(u0 as int, y2 as int, 2_000_000_000);
        lemma_mul_bound(u1 as int, (y2 * 3) as int, 707_106_782, 1_500_000_006);
    }
    let u2: u128 = u1 * (y2 * 3) / 4_000_000_000;
    proof {
        lemma_mul_div_le(u1 as int, (y2 * 3) as int, 4_000_000_000);
        lemma_mul_bound(u2 as int, (y2 * 5) as int, 707_106_782, 2_500_000_010);
    }
    let u3: u128 = u2 * (y2 * 5) / 6_000_000_000;
    proof {
        lemma_mul_div_le(u2 as int, (y2 * 5) as int, 6_000_000_000);
        lemma_mul_bound(u3 as int, (y2 * 7) as int, 707_106_782, 3_500_000_014);
    }
    let u4: u128 = u3 * (y2 * 7) / 8_000_000_000;
    proof {
        lemma_mul_div_le(u3 as int, (y2 * 7) as int, 8_000_000_000);
        lemma_mul_bound(u4 as int, (y2 * 9) as int, 707_106_782, 4_500_000_018);
    }
    let u5: u128 = u4 * (y2 * 9) / 10_000_000_000;
    proof {
        lemma_mul_div_le(u4 as int, (y2 * 9) as int, 10_000_000_000);
        lemma_mul_bound(u5 as int, (y2 * 11) as int, 707_106_782, 5_500_000_022);
    }
    let u6: u128 = u5 * (y2 * 11) / 12_000_000_000;
    proof {
        lemma_mul_div_le(u5 as int, (y2 * 11) as int, 12_000_000_000);
    }
    let s: u128 = u0 + u1 / 3 + u2 / 5 + u3 / 7 + u4 / 9 + u5 / 11 + u6 / 13;
    if s > HALF_PI_N {
        HALF_PI_N
    } else {
        s
    }
}

/// Great-circle distance in centimeters between the reported point
/// (`lat1`, `lon1`) and the reference point (`lat2`, `lon2`), both in
/// microdegrees, on a sphere of radius 6,371,000 meters.
pub fn distance_cm(lat1: i64, lon1: i64, lat2: i64, lon2: i64) -> (r: u64)
    requires
        crate::models::valid_coords(lat1 as int, lon1 as int),
        crate::models::valid_coords(lat2 as int, lon2 as int),
    ensures
        r == distance_spec(lat1 as int, lon1 as int, lat2 as int, lon2 as int),
{
    let sp = sin_pos(half_angle(lat2 - lat1));
    let sl = sin_pos(half_angle(lon2 - lon1));
    let c1 = sin_pos(HALF_PI_N - lat_angle(lat1));
    let c2 = sin_pos(HALF_PI_N - lat_angle(lat2));
    proof {
        assert(sp * sp <= SCALE * SCALE) by (nonlinear_arith)
            requires
                sp <= SCALE,
        ;
        assert(c1 * c2 <= SCALE * SCALE) by (nonlinear_arith)
            requires
                c1 <= SCALE,
                c2 <= SCALE,
        ;
        assert(sl * sl <= SCALE * SCALE) by (nonlinear_arith)
            requires
                sl <= SCALE,
        ;
        lemma_div_is_ordered((c1 * c2) as int, (SCALE * SCALE) as int, SCALE as int);
        lemma_div_is_ordered((sl * sl) as int, (SCALE * SCALE) as int, SCALE as int);
        assert((SCALE as int) * (SCALE as int) / (SCALE as int) == SCALE as int);
        assert(((c1 * c2) as int / (SCALE as int)) * ((sl * sl) as int / (SCALE as int)) <= (
        SCALE as int) * (SCALE as int)) by (nonlinear_arith)
            requires
                (c1 * c2) as int / (SCALE as int) <= SCALE as int,
                (sl * sl) as int / (SCALE as int) <= SCALE as int,
        ;
    }
    let raw_a: u128 = sp * sp + (c1 * c2 / SCALE) * (sl * sl / SCALE);
    let a: u128 = if raw_a > ONE18 {
        ONE18
    } else {
        raw_a
    };
    let th: u128 = if a <= HALF18 {
        let s = isqrt(a);
        proof {
            lemma_isqrt_bounds(a as nat);
            assert(s <= 707_106_781) by (nonlinear_arith)
                requires
                    s * s <= HALF18,
            ;
        }
        asin_pos(s)
    } else {
        let c = isqrt(ONE18 - a);
        proof {
            lemma_isqrt_bounds((ONE18 - a) as nat);
            assert(c <= 707_106_781) by (nonlinear_arith)
                requires
                    c * c < HALF18,
            ;
        }
        HALF_PI_N - asin_pos(c)
    };
    proof {
        assert(th * TWO_R_CM <= HALF_PI_N * TWO_R_CM) by (nonlinear_arith)
            requires
                th <= HALF_PI_N,
        ;
        assert((HALF_PI_N as int) * (TWO_R_CM as int) / (SCALE as int) < 2_100_000_000);
        lemma_div_is_ordered((th * TWO_R_CM) as int, (HALF_PI_N * TWO_R_CM) as int, SCALE as int);
    }
    let d: u128 = th * TWO_R_CM / SCALE;
    d as u64
}

/// The distance from a point to itself is zero.
pub proof fn lemma_distance_self_zero(lat: int, lon: int)
    requires
        crate::models::valid_coords(lat, lon),
    ensures
        distance_spec(lat, lon, lat, lon) == 0,
{
    assert(half_angle_spec(0) == 0);
    assert(0int * 0int / (SCALE as int) == 0);
    assert(0int * 0int / 6_000_000_000int == 0);
    assert(sin_pos_spec(0) == 0);
    let c1 = sin_pos_spec(HALF_PI_N as int - lat_angle_spec(lat));
    assert((c1 * c1 / (SCALE as int)) * (0int / (SCALE as int)) == 0) by (nonlinear_arith);
    assert(hav_a_spec(lat, lon, lat, lon) == 0);
    assert(isqrt_spec(0) == 0);
    assert(asin_pos_spec(0) == 0);
}

/// The distance is symmetric in its two points.
pub proof fn lemma_distance_symmetric(lat1: int, lon1: int, lat2: int, lon2: int)
    requires
        crate::models::valid_coords(lat1, lon1),
        crate::models::valid_coords(lat2, lon2),
    ensures
        distance_spec(lat1, lon1, lat2, lon2) == distance_spec(lat2, lon2, lat1, lon1),
{
    assert(abs_diff(lat2 - lat1, 0) == abs_diff(lat1 - lat2, 0));
    assert(abs_diff(lon2 - lon1, 0) == abs_diff(lon1 - lon2, 0));
    let sp = sin_pos_spec(half_angle_spec(lat2 - lat1));
    let sl = sin_pos_spec(half_angle_spec(lon2 - lon1));
    let c1 = sin_pos_spec(HALF_PI_N as int - lat_angle_spec(lat1));
    let c2 = sin_pos_spec(HALF_PI_N as int - lat_angle_spec(lat2));
    assert(c1 * c2 == c2 * c1) by (nonlinear_arith);
    assert(hav_a_spec(lat1, lon1, lat2, lon2) == hav_a_spec(lat2, lon2, lat1, lon1));
}

} // verus!
