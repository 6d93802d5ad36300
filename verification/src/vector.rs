//! Vectors of three fixed-point scalars, and their mathematical model.

use vstd::prelude::*;
use crate::scalar::{
    abs_of, ceil_sqrt, div_round, div_toward_zero, lemma_div_toward_zero_bounds,
    lemma_div_toward_zero_capped, lemma_div_toward_zero_exact, lemma_div_toward_zero_odd,
    lemma_mul_bounded, lemma_root_up_at_least, lemma_root_up_at_most, lemma_root_up_exists,
    lemma_root_up_of_square, lemma_square_strictly_monotonic, lemma_unit_share_at_most_one,
    lemma_unit_share_exists, lemma_unit_share_of_zero, is_unit_share, mul_div, root_up,
    unit_coordinate, unit_part, wide_mul, DIRECTION_MAX, ONE, STATE_MAX,
};

verus! {

/// Largest magnitude of a coordinate on which products are formed: three
/// squares of it still fit in 128 bits, and their root in 64.
pub const WIDE_MAX: i64 = 4_000_000_000_000_000_000;

/// A vector of three integers without bounds: what a [`Vec3`] stands for.
pub struct Vector {
    pub x: int,
    pub y: int,
    pub z: int,
}

impl Vector {
    pub open spec fn zero() -> Vector {
        Vector { x: 0, y: 0, z: 0 }
    }

    pub open spec fn plus(self, other: Vector) -> Vector {
        Vector { x: self.x + other.x, y: self.y + other.y, z: self.z + other.z }
    }

    pub open spec fn minus(self, other: Vector) -> Vector {
        Vector { x: self.x - other.x, y: self.y - other.y, z: self.z - other.z }
    }

    pub open spec fn negated(self) -> Vector {
        Vector { x: -self.x, y: -self.y, z: -self.z }
    }

    /// The sum of the products of the coordinates. Of two fixed-point vectors
    /// it counts millionths.
    pub open spec fn dot(self, other: Vector) -> int {
        self.x * other.x + self.y * other.y + self.z * other.z
    }

    /// The squared length.
    pub open spec fn sqnorm(self) -> int {
        self.dot(self)
    }

    /// The length, rounded up.
    pub open spec fn norm(self) -> int {
        root_up(self.sqnorm())
    }

    /// Each coordinate times `num / den`, rounded toward zero.
    pub open spec fn scaled(self, num: int, den: int) -> Vector
        recommends
            den > 0,
    {
        Vector {
            x: mul_div(self.x, num, den),
            y: mul_div(self.y, num, den),
            z: mul_div(self.z, num, den),
        }
    }

    /// The unit vector in the same direction, each coordinate rounded to the
    /// nearest thousandth, a half away from zero. The zero vector has no
    /// direction and stays as it is.
    pub open spec fn normalized(self) -> Vector {
        if self.sqnorm() == 0 {
            self
        } else {
            Vector {
                x: unit_coordinate(self.x, self.sqnorm()),
                y: unit_coordinate(self.y, self.sqnorm()),
                z: unit_coordinate(self.z, self.sqnorm()),
            }
        }
    }

    /// Each coordinate halved, toward zero.
    pub open spec fn halved(self) -> Vector {
        Vector {
            x: div_toward_zero(self.x, 2),
            y: div_toward_zero(self.y, 2),
            z: div_toward_zero(self.z, 2),
        }
    }

    /// The vector itself where it fits `DIRECTION_MAX`, else halved until it
    /// does. What is lost of a direction by that is less than one part in a
    /// million millions.
    pub open spec fn reduced(self) -> Vector
        decreases abs_of(self.x) + abs_of(self.y) + abs_of(self.z),
    {
        if self.fits(DIRECTION_MAX as int) {
            self
        } else {
            self.halved().reduced()
        }
    }

    /// The direction of a vector of any size: the unit vector along it, each
    /// coordinate rounded to the nearest thousandth. A vector beyond
    /// `DIRECTION_MAX` is reduced first.
    pub open spec fn direction(self) -> Vector {
        self.reduced().normalized()
    }

    /// No coordinate exceeds `bound` in magnitude.
    pub open spec fn fits(self, bound: int) -> bool {
        &&& -bound <= self.x <= bound
        &&& -bound <= self.y <= bound
        &&& -bound <= self.z <= bound
    }
}

/// `v` cut to the length `m`: unchanged while its squared length is below
/// `m * m`, else rescaled by `m` over its length. The zero vector has no
/// direction to rescale and is returned as it is.
pub open spec fn truncated(v: Vector, m: int) -> Vector {
    if v.sqnorm() < m * m || v.sqnorm() == 0 {
        v
    } else {
        v.scaled(m, v.norm())
    }
}

/// A squared length is not negative, and bounded with the coordinates.
pub proof fn lemma_sqnorm_bounded(v: Vector, b: int)
    by (nonlinear_arith)
    requires
        v.fits(b),
    ensures
        0 <= v.sqnorm() <= 3 * (b * b),
        v.x * v.x <= v.sqnorm(),
        v.y * v.y <= v.sqnorm(),
        v.z * v.z <= v.sqnorm(),
{
}

/// A dot product is bounded with the coordinates of its factors.
pub proof fn lemma_dot_bounded(u: Vector, v: Vector, bu: int, bv: int)
    requires
        u.fits(bu),
        v.fits(bv),
    ensures
        -(3 * (bu * bv)) <= u.dot(v) <= 3 * (bu * bv),
        -(bu * bv) <= u.x * v.x <= bu * bv,
        -(bu * bv) <= u.y * v.y <= bu * bv,
        -(bu * bv) <= u.z * v.z <= bu * bv,
{
    lemma_mul_bounded(u.x, v.x, bu, bv);
    lemma_mul_bounded(u.y, v.y, bu, bv);
    lemma_mul_bounded(u.z, v.z, bu, bv);
}

/// No coordinate is longer than the vector: the rounded-up length bounds each
/// of them, and is zero only for the zero vector.
pub proof fn lemma_norm_dominates(v: Vector)
    ensures
        v.fits(v.norm()),
        v.norm() >= 0,
        v.norm() == 0 <==> v == Vector::zero(),
        v.norm() * v.norm() >= v.sqnorm(),
{
    lemma_sqnorm_bounded(v, abs_of(v.x) + abs_of(v.y) + abs_of(v.z));
    lemma_root_up_exists(v.sqnorm());
    assert(abs_of(v.x) * abs_of(v.x) == v.x * v.x) by (nonlinear_arith);
    assert(abs_of(v.y) * abs_of(v.y) == v.y * v.y) by (nonlinear_arith);
    assert(abs_of(v.z) * abs_of(v.z) == v.z * v.z) by (nonlinear_arith);
    lemma_root_up_at_least(v.sqnorm(), abs_of(v.x));
    lemma_root_up_at_least(v.sqnorm(), abs_of(v.y));
    lemma_root_up_at_least(v.sqnorm(), abs_of(v.z));
    if v.norm() == 0 {
        assert(v == Vector::zero());
    }
    if v == Vector::zero() {
        lemma_root_up_at_most(0, 0);
    }
}

/// A vector no longer than `m` has no coordinate beyond `m`.
pub proof fn lemma_fits_from_sqnorm(v: Vector, m: int)
    requires
        m >= 0,
        v.sqnorm() <= m * m,
    ensures
        v.fits(m),
{
    lemma_norm_dominates(v);
    lemma_root_up_at_most(v.sqnorm(), m);
}

/// Scaling by `num / den` lengthens no coordinate beyond the bound of the
/// coordinates times the bound of `num`.
pub proof fn lemma_scaled_fits(v: Vector, num: int, den: int, bv: int, bn: int)
    requires
        v.fits(bv),
        -bn <= num <= bn,
        den > 0,
    ensures
        v.scaled(num, den).fits(bv * bn),
{
    lemma_mul_bounded(v.x, num, bv, bn);
    lemma_mul_bounded(v.y, num, bv, bn);
    lemma_mul_bounded(v.z, num, bv, bn);
    lemma_div_toward_zero_bounds(v.x * num, den);
    lemma_div_toward_zero_bounds(v.y * num, den);
    lemma_div_toward_zero_bounds(v.z * num, den);
}

/// What a vehicle travels is within a million units: a velocity within
/// `STATE_MAX` over a time within `STATE_MAX`.
pub proof fn lemma_travel_fits(velocity: Vector, time: int)
    requires
        velocity.fits(STATE_MAX as int),
        -STATE_MAX <= time <= STATE_MAX,
    ensures
        velocity.scaled(time, ONE as int).fits(1_000_000_000_000_000),
{
    lemma_mul_bounded(velocity.x, time, STATE_MAX as int, STATE_MAX as int);
    lemma_mul_bounded(velocity.y, time, STATE_MAX as int, STATE_MAX as int);
    lemma_mul_bounded(velocity.z, time, STATE_MAX as int, STATE_MAX as int);
    lemma_div_toward_zero_capped(velocity.x * time, ONE as int, 1_000_000_000_000_000);
    lemma_div_toward_zero_capped(velocity.y * time, ONE as int, 1_000_000_000_000_000);
    lemma_div_toward_zero_capped(velocity.z * time, ONE as int, 1_000_000_000_000_000);
}

/// Scaling a vector by `num` over a denominator that bounds its coordinates
/// leaves no coordinate beyond `num`.
pub proof fn lemma_scaled_capped(v: Vector, num: int, den: int)
    requires
        v.fits(den),
        num >= 0,
        den > 0,
    ensures
        v.scaled(num, den).fits(num),
{
    lemma_mul_div_capped(v.x, num, den);
    lemma_mul_div_capped(v.y, num, den);
    lemma_mul_div_capped(v.z, num, den);
}

/// Scaling by a ratio of at most one shortens every coordinate or keeps it.
pub proof fn lemma_scaled_shrinks(v: Vector, num: int, den: int, b: int)
    requires
        v.fits(b),
        0 <= num <= den,
        den > 0,
    ensures
        v.scaled(num, den).fits(b),
{
    lemma_mul_div_shrinks(v.x, num, den);
    lemma_mul_div_shrinks(v.y, num, den);
    lemma_mul_div_shrinks(v.z, num, den);
}

/// `a * num / den` is no longer than `a` where `num` is at most `den`.
pub proof fn lemma_mul_div_shrinks(a: int, num: int, den: int)
    requires
        0 <= num <= den,
        den > 0,
    ensures
        abs_of(mul_div(a, num, den)) <= abs_of(a),
        a >= 0 ==> mul_div(a, num, den) >= 0,
        a <= 0 ==> mul_div(a, num, den) <= 0,
{
    lemma_div_toward_zero_bounds(a * num, den);
    let q = mul_div(a, num, den);
    assert(abs_of(q) <= abs_of(a)) by (nonlinear_arith)
        requires
            0 <= num <= den,
            den > 0,
            a * num >= 0 ==> 0 <= q * den <= a * num,
            a * num <= 0 ==> a * num <= q * den <= 0,
    ;
    assert(a >= 0 ==> a * num >= 0) by (nonlinear_arith)
        requires
            num >= 0,
    ;
    assert(a <= 0 ==> a * num <= 0) by (nonlinear_arith)
        requires
            num >= 0,
    ;
}

/// `a * num / den` is no longer than `num` where `a` is at most `den` in
/// magnitude.
pub proof fn lemma_mul_div_capped(a: int, num: int, den: int)
    requires
        -den <= a <= den,
        num >= 0,
        den > 0,
    ensures
        abs_of(mul_div(a, num, den)) <= num,
{
    lemma_div_toward_zero_bounds(a * num, den);
    let q = mul_div(a, num, den);
    assert(abs_of(q) <= num) by (nonlinear_arith)
        requires
            -den <= a <= den,
            num >= 0,
            den > 0,
            a * num >= 0 ==> 0 <= q * den <= a * num,
            a * num <= 0 ==> a * num <= q * den <= 0,
    ;
}

/// A vector of three fixed-point scalars.
#[derive(Clone, Copy, Debug, PartialEq, Eq, Structural)]
pub struct Vec3 {
    pub x: i64,
    pub y: i64,
    pub z: i64,
}

impl View for Vec3 {
    type V = Vector;

    open spec fn view(&self) -> Vector {
        Vector { x: self.x as int, y: self.y as int, z: self.z as int }
    }
}

/// The dot product, formed by nalgebra's `Matrix::dot` on the coordinates
/// widened to 128 bits. For two vectors of three rows that function returns
/// the sum of the three products of matching coordinates; the bound on the
/// coordinates keeps each product and the sum within 128 bits.
#[verifier::external_body]
fn dot_wide(a: &Vec3, b: &Vec3) -> (r: i128)
    requires
        a@.fits(WIDE_MAX as int),
        b@.fits(WIDE_MAX as int),
    ensures
        r == a@.dot(b@),
{
    let u = nalgebra::Vector3::<i128>::new(a.x as i128, a.y as i128, a.z as i128);
    let v = nalgebra::Vector3::<i128>::new(b.x as i128, b.y as i128, b.z as i128);
    u.dot(&v)
}

impl Vec3 {
    pub fn new(x: i64, y: i64, z: i64) -> (r: Vec3)
        ensures
            r == (Vec3 { x, y, z }),
    {
        Vec3 { x, y, z }
    }

    pub fn zero() -> (r: Vec3)
        ensures
            r@ == Vector::zero(),
    {
        Vec3 { x: 0, y: 0, z: 0 }
    }

    /// Whether no coordinate exceeds `bound` in magnitude. No vector fits a
    /// negative bound.
    pub fn fits(&self, bound: i64) -> (r: bool)
        requires
            bound > i64::MIN,
        ensures
            r == self@.fits(bound as int),
    {
        -bound <= self.x && self.x <= bound && -bound <= self.y && self.y <= bound && -bound
            <= self.z && self.z <= bound
    }

    pub fn plus(&self, other: &Vec3) -> (r: Vec3)
        requires
            self@.plus(other@).fits(i64::MAX as int),
        ensures
            r@ == self@.plus(other@),
    {
        Vec3 { x: self.x + other.x, y: self.y + other.y, z: self.z + other.z }
    }

    pub fn minus(&self, other: &Vec3) -> (r: Vec3)
        requires
            self@.minus(other@).fits(i64::MAX as int),
        ensures
            r@ == self@.minus(other@),
    {
        Vec3 { x: self.x - other.x, y: self.y - other.y, z: self.z - other.z }
    }

    pub fn negated(&self) -> (r: Vec3)
        requires
            self@.fits(i64::MAX as int),
        ensures
            r@ == self@.negated(),
    {
        Vec3 { x: -self.x, y: -self.y, z: -self.z }
    }

    /// The dot product, in millionths.
    pub fn dot(&self, other: &Vec3) -> (r: i128)
        requires
            self@.fits(WIDE_MAX as int),
            other@.fits(WIDE_MAX as int),
        ensures
            r == self@.dot(other@),
    {
        dot_wide(self, other)
    }

    /// The squared length, in millionths.
    pub fn sqnorm(&self) -> (r: i128)
        requires
            self@.fits(WIDE_MAX as int),
        ensures
            r == self@.sqnorm(),
            r >= 0,
    {
        proof {
            lemma_sqnorm_bounded(self@, WIDE_MAX as int);
        }
        dot_wide(self, self)
    }

    /// The length, rounded up to the next thousandth.
    pub fn norm(&self) -> (r: i64)
        requires
            self@.fits(WIDE_MAX as int),
        ensures
            r == self@.norm(),
            r >= 0,
    {
        proof {
            lemma_sqnorm_bounded(self@, WIDE_MAX as int);
            lemma_root_up_at_most(self@.sqnorm(), 7_000_000_000_000_000_000);
        }
        let sq: i128 = self.sqnorm();
        let root: u64 = ceil_sqrt(sq as u128);
        root as i64
    }

    /// Each coordinate times `num / den`, rounded toward zero.
    pub fn scaled(&self, num: i64, den: i64) -> (r: Vec3)
        requires
            den > 0,
            self@.scaled(num as int, den as int).fits(i64::MAX as int),
        ensures
            r@ == self@.scaled(num as int, den as int),
    {
        let x: i128 = div_round(wide_mul(self.x, num), den as i128);
        let y: i128 = div_round(wide_mul(self.y, num), den as i128);
        let z: i128 = div_round(wide_mul(self.z, num), den as i128);
        Vec3 { x: x as i64, y: y as i64, z: z as i64 }
    }

    /// The unit vector in the same direction, each coordinate rounded to the
    /// nearest thousandth, or the zero vector for the zero vector.
    pub fn normalized(&self) -> (r: Vec3)
        requires
            self@.fits(DIRECTION_MAX as int),
        ensures
            r@ == self@.normalized(),
            r@.fits(ONE as int),
    {
        proof {
            lemma_sqnorm_bounded(self@, DIRECTION_MAX as int);
        }
        let length_sq: i128 = self.sqnorm();
        if length_sq == 0 {
            proof {
                lemma_norm_dominates(self@);
                lemma_root_up_at_most(0, 0);
            }
            *self
        } else {
            Vec3 {
                x: unit_part(self.x, length_sq),
                y: unit_part(self.y, length_sq),
                z: unit_part(self.z, length_sq),
            }
        }
    }
}

/// The direction of the vector of the three given coordinates, which may be
/// sums of any size: see [`Vector::direction`].
pub fn direction_of(sum_x: i128, sum_y: i128, sum_z: i128) -> (r: Vec3)
    requires
        sum_x > i128::MIN,
        sum_y > i128::MIN,
        sum_z > i128::MIN,
    ensures
        r@ == (Vector { x: sum_x as int, y: sum_y as int, z: sum_z as int }).direction(),
        r@.fits(ONE as int),
{
    let mut x: i128 = sum_x;
    let mut y: i128 = sum_y;
    let mut z: i128 = sum_z;
    let bound: i128 = DIRECTION_MAX as i128;
    while !(-bound <= x && x <= bound && -bound <= y && y <= bound && -bound <= z && z <= bound)
        invariant
            bound == DIRECTION_MAX,
            x > i128::MIN,
            y > i128::MIN,
            z > i128::MIN,
            (Vector { x: x as int, y: y as int, z: z as int }).reduced() == (Vector {
                x: sum_x as int,
                y: sum_y as int,
                z: sum_z as int,
            }).reduced(),
        decreases abs_of(x as int) + abs_of(y as int) + abs_of(z as int),
    {
        x = div_round(x, 2);
        y = div_round(y, 2);
        z = div_round(z, 2);
    }
    let reduced: Vec3 = Vec3 { x: x as i64, y: y as i64, z: z as i64 };
    reduced.normalized()
}

/// Rounding toward zero keeps the square of `a * num / den`, taken back to the
/// denominator, within the square of the exact product.
pub proof fn lemma_mul_div_square(a: int, num: int, den: int)
    requires
        num >= 0,
        den > 0,
    ensures
        (mul_div(a, num, den) * mul_div(a, num, den)) * (den * den) <= (a * a) * (num * num),
{
    lemma_div_toward_zero_bounds(a * num, den);
    let q = mul_div(a, num, den);
    let p = a * num;
    assert((q * q) * (den * den) <= (a * a) * (num * num)) by (nonlinear_arith)
        requires
            den > 0,
            p == a * num,
            p >= 0 ==> 0 <= q * den <= p,
            p <= 0 ==> p <= q * den <= 0,
    {
        assert((q * den) * (q * den) <= p * p);
        assert((q * den) * (q * den) == (q * q) * (den * den));
        assert(p * p == (a * a) * (num * num));
    }
}

/// A vector rescaled by `num / den` is no longer than `num / den` times its
/// length: rounding toward zero lengthens nothing.
pub proof fn lemma_scaled_sqnorm(v: Vector, num: int, den: int)
    requires
        num >= 0,
        den > 0,
    ensures
        v.scaled(num, den).sqnorm() * (den * den) <= v.sqnorm() * (num * num),
{
    lemma_mul_div_square(v.x, num, den);
    lemma_mul_div_square(v.y, num, den);
    lemma_mul_div_square(v.z, num, den);
    let t = v.scaled(num, den);
    let a = t.x * t.x;
    let b = t.y * t.y;
    let c = t.z * t.z;
    let d = den * den;
    let n = num * num;
    let vx = v.x * v.x;
    let vy = v.y * v.y;
    let vz = v.z * v.z;
    assert((a + b + c) * d <= (vx + vy + vz) * n) by (nonlinear_arith)
        requires
            a * d <= vx * n,
            b * d <= vy * n,
            c * d <= vz * n,
    ;
}

/// A vector cut to the length `m` is no longer than `m`, and a vector that is
/// no longer than `m` is not changed by the cut.
pub proof fn lemma_truncated_within(v: Vector, m: int)
    requires
        m >= 0,
    ensures
        truncated(v, m).sqnorm() <= m * m,
        v.sqnorm() <= m * m ==> truncated(v, m) == v,
{
    lemma_norm_dominates(v);
    lemma_sqnorm_bounded(v, v.norm());
    assert(m * m >= 0) by (nonlinear_arith);
    if v.sqnorm() < m * m || v.sqnorm() == 0 {
    } else {
        let len = v.norm();
        let t = v.scaled(m, len);
        if v.sqnorm() == m * m {
            lemma_root_up_of_square(m);
            assert(m > 0) by (nonlinear_arith)
                requires
                    m >= 0,
                    m * m > 0,
            ;
            lemma_div_toward_zero_exact(v.x, m);
            lemma_div_toward_zero_exact(v.y, m);
            lemma_div_toward_zero_exact(v.z, m);
            assert(t == v);
        } else {
            lemma_mul_div_square(v.x, m, len);
            lemma_mul_div_square(v.y, m, len);
            lemma_mul_div_square(v.z, m, len);
            let big = len * len;
            let mm = m * m;
            let sq = v.sqnorm();
            let a = t.x * t.x;
            let b = t.y * t.y;
            let c = t.z * t.z;
            let vx = v.x * v.x;
            let vy = v.y * v.y;
            let vz = v.z * v.z;
            assert(a + b + c <= mm) by (nonlinear_arith)
                requires
                    a * big <= vx * mm,
                    b * big <= vy * mm,
                    c * big <= vz * mm,
                    sq == vx + vy + vz,
                    0 < sq <= big,
                    mm >= 0,
            {
                assert((a + b + c) * big <= sq * mm);
                assert(sq * mm <= big * mm);
                assert((a + b + c) * big <= mm * big);
            }
            assert(t.sqnorm() == a + b + c);
        }
    }
}

/// `t` is the quotient of `a * num` by the square root of `s`, taken toward
/// zero and short of it by less than two: it has the sign of `a`, it is not
/// beyond the exact quotient, and two further it would be. The three are
/// stated over squares, where the root is exact.
pub open spec fn is_near_quotient(a: int, num: int, s: int, t: int) -> bool {
    &&& a >= 0 ==> t >= 0
    &&& a <= 0 ==> t <= 0
    &&& (t * t) * s <= (a * num) * (a * num)
    &&& (a * num) * (a * num) < ((abs_of(t) + 2) * (abs_of(t) + 2)) * s
}

/// A natural coordinate `a` of a vector of squared length `s`, rescaled by
/// `num` over the rounded-up length `len`, is short of the exact quotient by
/// less than two where `num` is no more than `len`.
proof fn lemma_near_quotient_of_natural(a: int, num: int, s: int, len: int)
    requires
        len > 0,
        (len - 1) * (len - 1) < s <= len * len,
        0 <= a,
        a * a <= s,
        0 <= num <= len,
    ensures
        is_near_quotient(a, num, s, mul_div(a, num, len)),
{
    let p = a * num;
    let t = mul_div(a, num, len);
    lemma_div_toward_zero_bounds(p, len);
    if a > len {
        lemma_square_strictly_monotonic(len, a);
    }
    assert(0 <= p <= len * len) by (nonlinear_arith)
        requires
            p == a * num,
            0 <= a <= len,
            0 <= num <= len,
    ;
    assert(0 <= t <= len) by (nonlinear_arith)
        requires
            len > 0,
            0 <= t * len <= p,
            p <= len * len,
    ;
    assert(a == 0 ==> t == 0) by (nonlinear_arith)
        requires
            p == a * num,
            len > 0,
            0 <= t * len <= p,
    ;
    assert((t * t) * s <= p * p) by (nonlinear_arith)
        requires
            0 <= t * len <= p,
            0 < s <= len * len,
            t >= 0,
    {
        assert((t * t) * s <= (t * t) * (len * len));
        assert((t * t) * (len * len) == (t * len) * (t * len));
        assert((t * len) * (t * len) <= p * p);
    }
    if t < len {
        let x = t + 1;
        let y = len - 1;
        assert(p * p < ((t + 2) * (t + 2)) * s) by (nonlinear_arith)
            requires
                x == t + 1,
                y == len - 1,
                0 <= t,
                y >= x - 1,
                0 <= p < t * len + len,
                y * y < s,
        {
            assert(p <= x * y + x - 1);
            assert(x * y + x - 1 <= x * y + y);
            assert(p * p <= (x * y + y) * (x * y + y));
            assert((x * y + y) * (x * y + y) == ((x + 1) * (x + 1)) * (y * y));
            assert(((x + 1) * (x + 1)) * (y * y) < ((x + 1) * (x + 1)) * s);
        }
    } else {
        assert(p == len * len && s == len * len) by (nonlinear_arith)
            requires
                t == len,
                len > 0,
                t * len <= p,
                p <= len * len,
                p == a * num,
                0 <= a <= len,
                0 <= num <= len,
                a * a <= s,
                s <= len * len,
        {
            assert(p == len * len);
            assert(a == len);
        }
        assert(p * p < ((t + 2) * (t + 2)) * s) by (nonlinear_arith)
            requires
                t == len,
                len > 0,
                p == len * len,
                s == len * len,
        ;
    }
}

/// A coordinate `a` of a vector of squared length `s`, rescaled by `num` over
/// the rounded-up length `len`, is short of the exact quotient by less than
/// two where `num` is no more than `len`.
proof fn lemma_near_quotient(a: int, num: int, s: int, len: int)
    requires
        len > 0,
        (len - 1) * (len - 1) < s <= len * len,
        a * a <= s,
        0 <= num <= len,
    ensures
        is_near_quotient(a, num, s, mul_div(a, num, len)),
{
    if a >= 0 {
        lemma_near_quotient_of_natural(a, num, s, len);
    } else {
        assert((-a) * (-a) == a * a) by (nonlinear_arith);
        assert(((-a) * num) * ((-a) * num) == (a * num) * (a * num)) by (nonlinear_arith);
        lemma_near_quotient_of_natural(-a, num, s, len);
        lemma_mul_div_odd(-a, num, len);
        let t = mul_div(-a, num, len);
        assert((-t) * (-t) == t * t) by (nonlinear_arith);
    }
}

/// A vector rescaled by `num` over its rounded-up length, with `num` no more
/// than that length, has each coordinate short of the exact one by less than
/// two thousandths: of the vector of length `num` in the same direction
/// where `num` is the length wanted.
pub proof fn lemma_scaled_by_norm_near(v: Vector, num: int)
    requires
        v.sqnorm() > 0,
        0 <= num <= v.norm(),
    ensures
        is_near_quotient(v.x, num, v.sqnorm(), v.scaled(num, v.norm()).x),
        is_near_quotient(v.y, num, v.sqnorm(), v.scaled(num, v.norm()).y),
        is_near_quotient(v.z, num, v.sqnorm(), v.scaled(num, v.norm()).z),
{
    lemma_norm_dominates(v);
    lemma_root_up_exists(v.sqnorm());
    lemma_sqnorm_bounded(v, v.norm());
    lemma_near_quotient(v.x, num, v.sqnorm(), v.norm());
    lemma_near_quotient(v.y, num, v.sqnorm(), v.norm());
    lemma_near_quotient(v.z, num, v.sqnorm(), v.norm());
}

/// A vector of length `m` or more, cut to the length `m`, has each
/// coordinate short by less than two thousandths of that of the vector of
/// length exactly `m` in the same direction.
pub proof fn lemma_truncated_near(v: Vector, m: int)
    requires
        m >= 0,
        v.sqnorm() >= m * m,
        v.sqnorm() > 0,
    ensures
        is_near_quotient(v.x, m, v.sqnorm(), truncated(v, m).x),
        is_near_quotient(v.y, m, v.sqnorm(), truncated(v, m).y),
        is_near_quotient(v.z, m, v.sqnorm(), truncated(v, m).z),
{
    lemma_norm_dominates(v);
    if m > v.norm() {
        lemma_square_strictly_monotonic(v.norm(), m);
    }
    lemma_scaled_by_norm_near(v, m);
}

/// The coordinates of a normalised vector are those of the exact unit
/// vector rounded to the nearest thousandth, with their signs, and none is
/// beyond one.
pub proof fn lemma_normalized_nearest(v: Vector)
    requires
        v.sqnorm() > 0,
    ensures
        is_unit_share(abs_of(v.x), v.sqnorm(), abs_of(v.normalized().x)),
        is_unit_share(abs_of(v.y), v.sqnorm(), abs_of(v.normalized().y)),
        is_unit_share(abs_of(v.z), v.sqnorm(), abs_of(v.normalized().z)),
        v.x >= 0 ==> v.normalized().x >= 0,
        v.x <= 0 ==> v.normalized().x <= 0,
        v.y >= 0 ==> v.normalized().y >= 0,
        v.y <= 0 ==> v.normalized().y <= 0,
        v.z >= 0 ==> v.normalized().z >= 0,
        v.z <= 0 ==> v.normalized().z <= 0,
        v.normalized().fits(ONE as int),
{
    lemma_sqnorm_bounded(v, abs_of(v.x) + abs_of(v.y) + abs_of(v.z));
    assert(abs_of(v.x) * abs_of(v.x) == v.x * v.x) by (nonlinear_arith);
    assert(abs_of(v.y) * abs_of(v.y) == v.y * v.y) by (nonlinear_arith);
    assert(abs_of(v.z) * abs_of(v.z) == v.z * v.z) by (nonlinear_arith);
    lemma_unit_share_at_most_one(abs_of(v.x), v.sqnorm());
    lemma_unit_share_at_most_one(abs_of(v.y), v.sqnorm());
    lemma_unit_share_at_most_one(abs_of(v.z), v.sqnorm());
    lemma_unit_share_exists(abs_of(v.x), v.sqnorm());
    lemma_unit_share_exists(abs_of(v.y), v.sqnorm());
    lemma_unit_share_exists(abs_of(v.z), v.sqnorm());
    lemma_unit_share_of_zero(v.sqnorm());
}

/// Cutting the negated vector gives the negated cut.
pub proof fn lemma_truncated_odd(v: Vector, m: int)
    requires
        m >= 0,
    ensures
        truncated(v.negated(), m) == truncated(v, m).negated(),
{
    let w = v.negated();
    assert(w.sqnorm() == v.sqnorm()) by (nonlinear_arith)
        requires
            w.x == -v.x,
            w.y == -v.y,
            w.z == -v.z,
            w.sqnorm() == w.x * w.x + w.y * w.y + w.z * w.z,
            v.sqnorm() == v.x * v.x + v.y * v.y + v.z * v.z,
    ;
    if v.sqnorm() < m * m || v.sqnorm() == 0 {
    } else {
        lemma_norm_dominates(v);
        let len = v.norm();
        lemma_mul_div_odd(v.x, m, len);
        lemma_mul_div_odd(v.y, m, len);
        lemma_mul_div_odd(v.z, m, len);
    }
}

/// `a * num / den` is an odd function of `a`.
pub proof fn lemma_mul_div_odd(a: int, num: int, den: int)
    requires
        den > 0,
    ensures
        mul_div(-a, num, den) == -mul_div(a, num, den),
{
    assert((-a) * num == -(a * num)) by (nonlinear_arith);
    lemma_div_toward_zero_odd(a * num, den);
}

/// Cutting a vector to a greatest length.
pub trait VectorHelper {
    /// What the value stands for.
    spec fn vector(&self) -> Vector;

    /// The vector itself while it is shorter than `max_length`, else the
    /// vector of that length in the same direction. The square root is taken
    /// only where the vector is rescaled.
    fn truncate_length(&self, max_length: i64) -> (r: Vec3)
        requires
            self.vector().fits(WIDE_MAX as int),
            max_length >= 0,
        ensures
            r@ == truncated(self.vector(), max_length as int),
            r@.sqnorm() <= max_length * max_length,
            self.vector().sqnorm() <= max_length * max_length ==> r@ == self.vector(),
            r@.fits(WIDE_MAX as int),
    ;
}

impl VectorHelper for Vec3 {
    open spec fn vector(&self) -> Vector {
        self@
    }

    fn truncate_length(&self, max_length: i64) -> (r: Vec3) {
        proof {
            lemma_truncated_within(self@, max_length as int);
            lemma_norm_dominates(self@);
        }
        let m_sqr: i128 = wide_mul(max_length, max_length);
        let l_sqr: i128 = self.sqnorm();
        if l_sqr < m_sqr || l_sqr == 0 {
            return *self;
        }
        let len: i64 = self.norm();
        proof {
            if max_length > len {
                lemma_square_strictly_monotonic(len as int, max_length as int);
            }
            lemma_scaled_shrinks(self@, max_length as int, len as int, WIDE_MAX as int);
        }
        self.scaled(max_length, len)
    }
}

} // verus!
