//! Fixed-point scalars.
//!
//! Every scalar of this library is a 64-bit integer that counts thousandths:
//! the raw value `1500` stands for one and a half. Products and quotients are
//! formed in 128 bits. A quotient is rounded toward zero, and a coordinate of
//! a unit vector to the nearest thousandth, a half away from zero: either
//! way negating an input negates the result exactly.

use vstd::prelude::*;

verus! {

/// The raw value that stands for 1.
pub const ONE: i64 = 1_000;

/// Largest magnitude of anything a vehicle holds (a coordinate of its position
/// or velocity, a speed, a radius) and of every duration and distance handed
/// to a behaviour.
pub const STATE_MAX: i64 = 1_000_000_000;

/// Largest magnitude of a coordinate of a free point (a target, a point on a
/// path, a predicted position). It is wide enough for `p + v * t` with `p`,
/// `v` and `t` all within `STATE_MAX`.
pub const POINT_MAX: i64 = 2_000_000_000_000_000;

/// Largest magnitude of a coordinate of a vector whose direction is taken:
/// the squares that decide the rounding then fit in 128 bits.
pub const DIRECTION_MAX: i64 = 2_000_000_000_000_000;

/// Largest argument of [`ceil_sqrt`]: the square of 2^63.
pub const ROOT_ARG_MAX: u128 = 0x4000_0000_0000_0000_0000_0000_0000_0000;

/// `s` is a scalar that a vehicle may hold.
pub open spec fn in_state_range(s: int) -> bool {
    -STATE_MAX <= s <= STATE_MAX
}

/// `s` is a coordinate that a free point may have.
pub open spec fn in_point_range(s: int) -> bool {
    -POINT_MAX <= s <= POINT_MAX
}

/// The quotient `n / d` rounded toward zero, for a positive `d`.
pub open spec fn div_toward_zero(n: int, d: int) -> int
    recommends
        d > 0,
{
    if n >= 0 {
        n / d
    } else {
        -((-n) / d)
    }
}

/// `a * num / den`, rounded toward zero.
pub open spec fn mul_div(a: int, num: int, den: int) -> int
    recommends
        den > 0,
{
    div_toward_zero(a * num, den)
}

/// `r` is the square root of `n` rounded up: the least natural number whose
/// square reaches `n`.
pub open spec fn is_root_up(n: int, r: int) -> bool {
    &&& r >= 0
    &&& r * r >= n
    &&& r > 0 ==> (r - 1) * (r - 1) < n
}

/// The square root of `n` rounded up; 0 for a negative `n`.
pub open spec fn root_up(n: int) -> int {
    choose|r: int| is_root_up(n, r)
}

/// `t` is `a` over the square root of `s`, in thousandths, rounded to the
/// nearest of them, a half upward: `t - 1/2 <= ONE * a / sqrt(s) < t + 1/2`,
/// stated over the squares of the doubled sides. It is meant for a natural
/// number `a` and a positive `s`.
pub open spec fn is_unit_share(a: int, s: int, t: int) -> bool {
    &&& t >= 0
    &&& 4 * ((a * ONE) * (a * ONE)) < ((2 * t + 1) * (2 * t + 1)) * s
    &&& t > 0 ==> ((2 * t - 1) * (2 * t - 1)) * s <= 4 * ((a * ONE) * (a * ONE))
}

/// `a` over the square root of `s`, in thousandths, rounded to the nearest.
pub open spec fn unit_share(a: int, s: int) -> int {
    choose|t: int| is_unit_share(a, s, t)
}

/// `a` over the square root of `s`, in thousandths, rounded to the nearest,
/// a half away from zero: an odd function of `a`.
pub open spec fn unit_coordinate(a: int, s: int) -> int {
    if a >= 0 {
        unit_share(a, s)
    } else {
        -unit_share(-a, s)
    }
}

/// `s` clamped into `[lo, hi]`.
pub open spec fn clamped(s: int, lo: int, hi: int) -> int {
    if s < lo {
        lo
    } else if s > hi {
        hi
    } else {
        s
    }
}

/// The lesser of two numbers.
pub open spec fn min_of(a: int, b: int) -> int {
    if a <= b {
        a
    } else {
        b
    }
}

/// The magnitude of a number.
pub open spec fn abs_of(a: int) -> int {
    if a >= 0 {
        a
    } else {
        -a
    }
}

/// A product is bounded by the product of the bounds of its factors.
pub proof fn lemma_mul_bounded(a: int, b: int, ba: int, bb: int)
    by (nonlinear_arith)
    requires
        -ba <= a <= ba,
        -bb <= b <= bb,
    ensures
        -(ba * bb) <= a * b <= ba * bb,
{
}

/// Squaring keeps the order of natural numbers, strictly.
pub proof fn lemma_square_strictly_monotonic(a: int, b: int)
    by (nonlinear_arith)
    requires
        0 <= a < b,
    ensures
        a * a < b * b,
{
}

/// At most one number is the rounded-up root of `n`.
pub proof fn lemma_root_up_unique(n: int, r: int)
    requires
        is_root_up(n, r),
    ensures
        root_up(n) == r,
{
    let s = root_up(n);
    assert(is_root_up(n, s));
    if s < r {
        // s <= r - 1, so s * s <= (r - 1) * (r - 1) < n
        if s < r - 1 {
            lemma_square_strictly_monotonic(s, r - 1);
        }
    } else if r < s {
        if r < s - 1 {
            lemma_square_strictly_monotonic(r, s - 1);
        }
    }
}

/// Every number has a rounded-up root.
pub proof fn lemma_root_up_exists(n: int)
    ensures
        is_root_up(n, root_up(n)),
    decreases n,
{
    if n <= 0 {
        assert(is_root_up(n, 0));
    } else {
        lemma_root_up_exists(n - 1);
        let r = root_up(n - 1);
        if r * r >= n {
            assert(is_root_up(n, r));
        } else {
            // r * r == n - 1
            assert((r + 1) * (r + 1) >= n) by (nonlinear_arith)
                requires
                    r >= 0,
                    r * r >= n - 1,
            ;
            assert(is_root_up(n, r + 1));
        }
    }
}

/// A bound whose square reaches `n` is not below the rounded-up root of `n`.
pub proof fn lemma_root_up_at_most(n: int, b: int)
    requires
        b >= 0,
        n <= b * b,
    ensures
        0 <= root_up(n) <= b,
{
    lemma_root_up_exists(n);
    let r = root_up(n);
    if r > b {
        if r - 1 > b {
            lemma_square_strictly_monotonic(b, r - 1);
        }
    }
}

/// A natural number whose square stays within `n` is not above the rounded-up
/// root of `n`.
pub proof fn lemma_root_up_at_least(n: int, a: int)
    requires
        a >= 0,
        a * a <= n,
    ensures
        a <= root_up(n),
{
    lemma_root_up_exists(n);
    let r = root_up(n);
    if r < a {
        lemma_square_strictly_monotonic(r, a);
    }
}

/// At most one number is the rounded share of `a` in the root of `s`.
pub proof fn lemma_unit_share_unique(a: int, s: int, t: int)
    requires
        s > 0,
        is_unit_share(a, s, t),
    ensures
        unit_share(a, s) == t,
{
    let u = unit_share(a, s);
    assert(is_unit_share(a, s, u));
    let p = 4 * ((a * ONE) * (a * ONE));
    if u < t {
        assert(((2 * u + 1) * (2 * u + 1)) * s <= ((2 * t - 1) * (2 * t - 1)) * s)
            by (nonlinear_arith)
            requires
                0 <= u < t,
                s > 0,
        ;
    } else if t < u {
        assert(((2 * t + 1) * (2 * t + 1)) * s <= ((2 * u - 1) * (2 * u - 1)) * s)
            by (nonlinear_arith)
            requires
                0 <= t < u,
                s > 0,
        ;
    }
}

/// Below a number that exceeds the exact share by a half or more there is
/// the rounded share.
proof fn lemma_unit_share_below(a: int, s: int, t: int)
    requires
        s > 0,
        t >= 0,
        4 * ((a * ONE) * (a * ONE)) < ((2 * t + 1) * (2 * t + 1)) * s,
    ensures
        is_unit_share(a, s, unit_share(a, s)),
    decreases t,
{
    if t > 0 && 4 * ((a * ONE) * (a * ONE)) < ((2 * t - 1) * (2 * t - 1)) * s {
        assert(2 * (t - 1) + 1 == 2 * t - 1);
        lemma_unit_share_below(a, s, t - 1);
    } else {
        assert(is_unit_share(a, s, t));
    }
}

/// Every natural number has a rounded share in the root of a positive number.
pub proof fn lemma_unit_share_exists(a: int, s: int)
    requires
        a >= 0,
        s > 0,
    ensures
        is_unit_share(a, s, unit_share(a, s)),
{
    let p = a * ONE;
    assert(4 * (p * p) < ((2 * p + 1) * (2 * p + 1)) * s) by (nonlinear_arith)
        requires
            p >= 0,
            s > 0,
    ;
    lemma_unit_share_below(a, s, p);
}

/// Zero has no share in any root.
pub proof fn lemma_unit_share_of_zero(s: int)
    requires
        s > 0,
    ensures
        unit_share(0, s) == 0,
{
    assert(is_unit_share(0, s, 0)) by (nonlinear_arith)
        requires
            s > 0,
    ;
    lemma_unit_share_unique(0, s, 0);
}

/// The rounded share of a number whose square is within `s` is at most one.
pub proof fn lemma_unit_share_at_most_one(a: int, s: int)
    requires
        a >= 0,
        s > 0,
        a * a <= s,
    ensures
        0 <= unit_share(a, s) <= ONE,
{
    lemma_unit_share_exists(a, s);
    let t = unit_share(a, s);
    if t > ONE {
        assert(((2 * t - 1) * (2 * t - 1)) * s > 4 * ((a * ONE) * (a * ONE)))
            by (nonlinear_arith)
            requires
                t > 1000,
                a >= 0,
                s > 0,
                a * a <= s,
        {
            assert((2 * t - 1) * (2 * t - 1) >= 2001 * 2001);
            assert(((2 * t - 1) * (2 * t - 1)) * s >= (2001 * 2001) * s);
            assert((a * 1000) * (a * 1000) == 1000000 * (a * a));
            assert(4 * (1000000 * (a * a)) <= 4000000 * s);
        }
    }
}

/// The rounded-up root of a square is its base.
pub proof fn lemma_root_up_of_square(m: int)
    requires
        m >= 0,
    ensures
        root_up(m * m) == m,
{
    if m > 0 {
        lemma_square_strictly_monotonic(m - 1, m);
    }
    lemma_root_up_unique(m * m, m);
}

/// The quotient rounded toward zero is an odd function of the dividend.
pub proof fn lemma_div_toward_zero_odd(n: int, d: int)
    requires
        d > 0,
    ensures
        div_toward_zero(-n, d) == -div_toward_zero(n, d),
{
    if n == 0 {
        assert(0int / d == 0) by (nonlinear_arith)
            requires
                d > 0,
        ;
    }
}

/// The quotient rounded toward zero lies between zero and the exact quotient:
/// multiplied back it does not pass the dividend, and it misses it by less
/// than the divisor.
pub proof fn lemma_div_toward_zero_bounds(n: int, d: int)
    by (nonlinear_arith)
    requires
        d > 0,
    ensures
        n >= 0 ==> 0 <= div_toward_zero(n, d) * d <= n < div_toward_zero(n, d) * d + d,
        n <= 0 ==> n <= div_toward_zero(n, d) * d <= 0 && div_toward_zero(n, d) * d - d < n,
        abs_of(div_toward_zero(n, d)) <= abs_of(n),
{
    if n >= 0 {
        assert(n == (n / d) * d + n % d && 0 <= n % d < d);
    } else {
        assert(-n == ((-n) / d) * d + (-n) % d && 0 <= (-n) % d < d);
    }
}

/// The quotient of a dividend within `b * d` is within `b`.
pub proof fn lemma_div_toward_zero_capped(n: int, d: int, b: int)
    requires
        d > 0,
        b >= 0,
        -(b * d) <= n <= b * d,
    ensures
        -b <= div_toward_zero(n, d) <= b,
{
    lemma_div_toward_zero_bounds(n, d);
    let q = div_toward_zero(n, d);
    assert(-b <= q <= b) by (nonlinear_arith)
        requires
            d > 0,
            b >= 0,
            -(b * d) <= n <= b * d,
            n >= 0 ==> 0 <= q * d <= n,
            n <= 0 ==> n <= q * d <= 0,
    ;
}

/// An exact quotient: `(q * d) / d` is `q`.
pub proof fn lemma_div_toward_zero_exact(q: int, d: int)
    by (nonlinear_arith)
    requires
        d > 0,
    ensures
        div_toward_zero(q * d, d) == q,
{
    if q >= 0 {
        assert((q * d) / d == q);
    } else {
        assert(-(q * d) == (-q) * d);
        assert(((-q) * d) / d == -q);
    }
}

/// The quotient `n / d` rounded toward zero.
pub fn div_round(n: i128, d: i128) -> (q: i128)
    requires
        d > 0,
        n > i128::MIN,
    ensures
        q == div_toward_zero(n as int, d as int),
{
    proof {
        lemma_div_toward_zero_bounds(n as int, d as int);
    }
    if n >= 0 {
        n / d
    } else {
        let m: i128 = -n;
        let q: i128 = m / d;
        -q
    }
}

/// The product of two scalars in 128 bits, where it always fits.
pub fn wide_mul(a: i64, b: i64) -> (p: i128)
    ensures
        p == (a as int) * (b as int),
        -0x4000_0000_0000_0000_0000_0000_0000_0000 <= p <= 0x4000_0000_0000_0000_0000_0000_0000_0000,
{
    proof {
        lemma_mul_bounded(
            a as int,
            b as int,
            0x8000_0000_0000_0000,
            0x8000_0000_0000_0000,
        );
    }
    (a as i128) * (b as i128)
}

/// The square root of `n`, rounded up.
pub fn ceil_sqrt(n: u128) -> (r: u64)
    requires
        n <= ROOT_ARG_MAX,
    ensures
        r == root_up(n as int),
        is_root_up(n as int, r as int),
{
    if n == 0 {
        proof {
            lemma_root_up_unique(0, 0);
        }
        return 0;
    }
    let mut lo: u128 = 0;
    let mut hi: u128 = 0x8000_0000_0000_0000;
    while hi - lo > 1
        invariant
            0 < n <= ROOT_ARG_MAX,
            lo < hi <= 0x8000_0000_0000_0000,
            lo * lo < n <= hi * hi,
        decreases hi - lo,
    {
        let mid: u128 = lo + (hi - lo) / 2;
        proof {
            lemma_mul_bounded(
                mid as int,
                mid as int,
                0x8000_0000_0000_0000,
                0x8000_0000_0000_0000,
            );
        }
        if mid * mid >= n {
            hi = mid;
        } else {
            lo = mid;
        }
    }
    proof {
        assert(hi == lo + 1);
        lemma_root_up_unique(n as int, hi as int);
    }
    hi as u64
}

/// The coordinate `a` of a vector of squared length `s`, over the length of
/// that vector: a coordinate of the unit vector, rounded to the nearest
/// thousandth. It is found by bisection on the squares, without a root.
pub fn unit_part(a: i64, s: i128) -> (t: i64)
    requires
        -DIRECTION_MAX <= a <= DIRECTION_MAX,
        0 < s <= 3 * (DIRECTION_MAX * DIRECTION_MAX),
        a * a <= s,
    ensures
        t == unit_coordinate(a as int, s as int),
        -ONE <= t <= ONE,
{
    let size: i128 = if a >= 0 {
        a as i128
    } else {
        -(a as i128)
    };
    let scaled: i128 = size * 1000;
    proof {
        lemma_mul_bounded(
            scaled as int,
            scaled as int,
            2_000_000_000_000_000_000,
            2_000_000_000_000_000_000,
        );
        lemma_mul_bounded(
            DIRECTION_MAX as int,
            DIRECTION_MAX as int,
            DIRECTION_MAX as int,
            DIRECTION_MAX as int,
        );
        assert(scaled == size * ONE);
        assert(size * size == a * a) by (nonlinear_arith)
            requires
                size == a || size == -a,
        ;
    }
    let doubled: i128 = 4 * (scaled * scaled);
    let mut lo: i64 = 0;
    let mut hi: i64 = ONE;
    proof {
        assert(4 * ((size * 1000) * (size * 1000)) < ((2 * 1000 + 1) * (2 * 1000 + 1)) * s)
            by (nonlinear_arith)
            requires
                size * size <= s,
                s > 0,
        {
            assert((size * 1000) * (size * 1000) == 1000000 * (size * size));
        }
    }
    while lo < hi
        invariant
            0 <= lo <= hi <= ONE,
            0 < s <= 12_000_000_000_000_000_000_000_000_000_000,
            0 <= doubled <= 16_000_000_000_000_000_000_000_000_000_000_000_000,
            doubled == 4 * ((size * ONE) * (size * ONE)),
            doubled < ((2 * hi + 1) * (2 * hi + 1)) * s,
            lo > 0 ==> ((2 * lo - 1) * (2 * lo - 1)) * s <= doubled,
        decreases hi - lo,
    {
        let mid: i64 = lo + (hi - lo) / 2;
        let width: i128 = 2 * (mid as i128) + 1;
        proof {
            lemma_mul_bounded(width as int, width as int, 2001, 2001);
            lemma_mul_bounded(
                width * width,
                s as int,
                4_004_001,
                12_000_000_000_000_000_000_000_000_000_000,
            );
        }
        if doubled < (width * width) * s {
            hi = mid;
        } else {
            lo = mid + 1;
        }
    }
    proof {
        assert(is_unit_share(size as int, s as int, lo as int));
        lemma_unit_share_unique(size as int, s as int, lo as int);
    }
    if a >= 0 {
        lo
    } else {
        -lo
    }
}

/// `s` clamped into `[lo, hi]`.
pub fn clamp(s: i64, lo: i64, hi: i64) -> (r: i64)
    ensures
        r == clamped(s as int, lo as int, hi as int),
{
    if s < lo {
        lo
    } else if s > hi {
        hi
    } else {
        s
    }
}

} // verus!
