//! Orientation quaternions in fixed point.
//!
//! `Quat` is the mathematical quaternion, with unbounded integer components;
//! `Quaternion` is the machine quaternion, and its view is a `Quat`. An
//! orientation is a quaternion of length one; in fixed point that means a
//! squared norm within `NORM_TOLERANCE` of `UNIT * UNIT`.

use crate::fixed::{
    floor_sqrt, is_floor_sqrt, isqrt, lemma_floor_sqrt_exists, lemma_floor_sqrt_lower,
    lemma_floor_sqrt_unique, lemma_product_bound, lemma_trunc_div_bound, lemma_trunc_div_exact,
    lemma_trunc_div_remainder, magnitude, narrow_quotient, trunc_div, wide_product,
    wide_quotient, LIMIT, OPERAND_MAX, UNIT,
};
use crate::vector::{lemma_ratio_fits, lemma_square_bound, Vec3, Vector3};
use vstd::prelude::*;

verus! {

/// Largest distance of the squared norm of an orientation from `UNIT * UNIT`:
/// eight billionths of the squared norm, and four.
pub const NORM_TOLERANCE: i64 = 8_000_000_004;

/// A quaternion with no component of this magnitude or more is enlarged by this
/// factor before it is normalized, so that the division loses little.
pub const STRETCH: i64 = 0x8000_0000;

/// Largest magnitude of a component of a direction that an orientation predicts.
pub const DIRECTION_MAX: i64 = 5_000_000_000;

/// Largest magnitude of a component of a rate of rotation.
pub const ROTATION_LIMIT: i64 = 1_024_000_000_000_000;

/// A quaternion of four unbounded integers, each counting billionths.
pub struct Quat {
    pub w: int,
    pub x: int,
    pub y: int,
    pub z: int,
}

impl Quat {
    /// The rotation that leaves everything where it is.
    pub open spec fn identity() -> Quat {
        Quat { w: UNIT as int, x: 0, y: 0, z: 0 }
    }

    /// Every component has magnitude at most `bound`.
    pub open spec fn fits(self, bound: int) -> bool {
        magnitude(self.w) <= bound && magnitude(self.x) <= bound && magnitude(self.y) <= bound
            && magnitude(self.z) <= bound
    }

    /// All components are zero.
    pub open spec fn is_zero(self) -> bool {
        self.w == 0 && self.x == 0 && self.y == 0 && self.z == 0
    }

    /// Sum of the squares of the components, not divided by `UNIT`.
    pub open spec fn norm_sq(self) -> int {
        self.w * self.w + self.x * self.x + self.y * self.y + self.z * self.z
    }

    /// The quaternion has length one, up to the rounding of the format.
    pub open spec fn is_unit(self) -> bool {
        magnitude(self.norm_sq() - UNIT * UNIT) <= NORM_TOLERANCE
    }

    /// Each component multiplied by the integer `k`.
    pub open spec fn times(self, k: int) -> Quat {
        Quat { w: self.w * k, x: self.x * k, y: self.y * k, z: self.z * k }
    }

    /// Component-wise sum.
    pub open spec fn plus(self, other: Quat) -> Quat {
        Quat {
            w: self.w + other.w,
            x: self.x + other.x,
            y: self.y + other.y,
            z: self.z + other.z,
        }
    }

    /// The quaternion itself, or enlarged by `STRETCH` if all its components are
    /// smaller than `STRETCH`.
    pub open spec fn stretched(self) -> Quat {
        if self.fits(STRETCH - 1) {
            self.times(STRETCH as int)
        } else {
            self
        }
    }

    /// The quaternion of length one in the same direction; zero becomes the
    /// identity.
    pub open spec fn normalized(self) -> Quat {
        if self.is_zero() {
            Quat::identity()
        } else {
            let s = self.stretched();
            let n = floor_sqrt(s.norm_sq());
            Quat {
                w: trunc_div(s.w * UNIT, n),
                x: trunc_div(s.x * UNIT, n),
                y: trunc_div(s.y * UNIT, n),
                z: trunc_div(s.z * UNIT, n),
            }
        }
    }

    /// Fixed-point product of the quaternion with the pure quaternion `(0, h)`.
    pub open spec fn times_vector(self, h: Vec3) -> Quat {
        Quat {
            w: trunc_div(-(self.x * h.x) - self.y * h.y - self.z * h.z, UNIT as int),
            x: trunc_div(self.w * h.x + self.y * h.z - self.z * h.y, UNIT as int),
            y: trunc_div(self.w * h.y - self.x * h.z + self.z * h.x, UNIT as int),
            z: trunc_div(self.w * h.z + self.x * h.y - self.y * h.x, UNIT as int),
        }
    }

    /// The orientation after turning at the rate `rate`, in radians per second
    /// and in the body's frame, for the time `dt`: one step of first order of
    /// the quaternion's derivative, then normalized.
    pub open spec fn advanced(self, rate: Vec3, dt: int) -> Quat {
        self.plus(self.times_vector(rate.ratio(dt, 2 * UNIT))).normalized()
    }

    /// The upward vertical of the world, as seen from the body.
    pub open spec fn gravity(self) -> Vec3 {
        Vec3 {
            x: trunc_div(2 * (self.x * self.z - self.w * self.y), UNIT as int),
            y: trunc_div(2 * (self.y * self.z + self.w * self.x), UNIT as int),
            z: trunc_div(
                self.w * self.w - self.x * self.x - self.y * self.y + self.z * self.z,
                UNIT as int,
            ),
        }
    }

    /// The west of the world, as seen from the body.
    pub open spec fn west(self) -> Vec3 {
        Vec3 {
            x: trunc_div(2 * (self.x * self.y + self.w * self.z), UNIT as int),
            y: trunc_div(
                self.w * self.w - self.x * self.x + self.y * self.y - self.z * self.z,
                UNIT as int,
            ),
            z: trunc_div(2 * (self.y * self.z - self.w * self.x), UNIT as int),
        }
    }
}

/// A quaternion that is not zero has a positive squared norm.
pub proof fn lemma_quat_norm_sq_positive(q: Quat)
    ensures
        q.norm_sq() >= 0,
        !q.is_zero() ==> q.norm_sq() >= 1,
{
    assert(q.w * q.w >= 0 && (q.w != 0 ==> q.w * q.w >= 1)) by (nonlinear_arith);
    assert(q.x * q.x >= 0 && (q.x != 0 ==> q.x * q.x >= 1)) by (nonlinear_arith);
    assert(q.y * q.y >= 0 && (q.y != 0 ==> q.y * q.y >= 1)) by (nonlinear_arith);
    assert(q.z * q.z >= 0 && (q.z != 0 ==> q.z * q.z >= 1)) by (nonlinear_arith);
}

/// A component is no longer than the quaternion.
pub proof fn lemma_quat_component_below_length(q: Quat, r: int)
    requires
        is_floor_sqrt(q.norm_sq(), r),
    ensures
        q.fits(r),
{
    assert forall|c: int| #![trigger magnitude(c)] c * c >= 0 && magnitude(c) * magnitude(c) == c * c by {
        assert(c * c >= 0 && magnitude(c) * magnitude(c) == c * c) by (nonlinear_arith);
    }
    assert(magnitude(q.w) >= 0 && magnitude(q.x) >= 0 && magnitude(q.y) >= 0 && magnitude(q.z) >= 0);
    lemma_floor_sqrt_lower(q.norm_sq(), r, magnitude(q.w));
    lemma_floor_sqrt_lower(q.norm_sq(), r, magnitude(q.x));
    lemma_floor_sqrt_lower(q.norm_sq(), r, magnitude(q.y));
    lemma_floor_sqrt_lower(q.norm_sq(), r, magnitude(q.z));
}

/// An orientation has no component much beyond one.
pub proof fn lemma_unit_fits(q: Quat)
    requires
        q.is_unit(),
    ensures
        q.fits(UNIT + 4),
{
    assert forall|c: int| #![trigger magnitude(c)] c * c >= 0 && (magnitude(c) > 1_000_000_004 ==> c
        * c > 1_000_000_008_000_000_004) by {
        assert(c * c >= 0 && (magnitude(c) > 1_000_000_004 ==> c * c
            > 1_000_000_008_000_000_004)) by (nonlinear_arith);
    }
    assert(magnitude(q.w) >= 0 && magnitude(q.x) >= 0 && magnitude(q.y) >= 0 && magnitude(q.z) >= 0);
}

/// The length of an orientation, rounded down, is within five billionths of
/// one.
pub proof fn lemma_unit_length(q: Quat)
    requires
        q.is_unit(),
    ensures
        UNIT - 5 <= floor_sqrt(q.norm_sq()) <= UNIT + 4,
{
    let n = q.norm_sq();
    lemma_floor_sqrt_exists(n);
    let r = floor_sqrt(n);
    assert(UNIT * UNIT == 1_000_000_000_000_000_000) by (nonlinear_arith);
    assert((UNIT - 5) * (UNIT - 5) == 999_999_990_000_000_025) by (nonlinear_arith);
    lemma_floor_sqrt_lower(n, r, UNIT - 5);
    if r >= UNIT + 5 {
        assert(r * r >= 1_000_000_010_000_000_025) by (nonlinear_arith)
            requires
                r >= 1_000_000_005,
        ;
    }
}

/// One term of a squared norm after division: with `a == n * p + e`, the square
/// of `a` splits into the square of the quotient and what the remainder adds.
proof fn lemma_square_of_division(a: int, n: int, p: int, e: int)
    by (nonlinear_arith)
    requires
        a == n * p + e,
    ensures
        a * a == (n * n) * (p * p) + (2 * n) * (p * e) + e * e,
{
}

/// The arithmetic at the heart of normalization: given the squared norm `n2`
/// of the dividend, its root `n`, the squared norm `np` of the quotient, and the
/// sums `pe` and `ee` that the four remainders contribute, the squared norm of
/// the quotient is within the tolerance of `UNIT * UNIT`.
proof fn lemma_unit_from_sums(n: int, n2: int, np: int, pe: int, ee: int)
    requires
        n >= 2_000_000_000,
        n * n <= n2 < (n + 1) * (n + 1),
        1_000_000_000_000_000_000 * n2 == (n * n) * np + (2 * n) * pe + ee,
        0 <= pe <= 4_000_000_000 * (n - 1),
        0 <= ee <= 4 * ((n - 1) * (n - 1)),
    ensures
        1_000_000_000_000_000_000 - 8_000_000_004 <= np <= 1_000_000_000_000_000_000
            + 1_000_000_000,
{
    let uu: int = 1_000_000_000_000_000_000;
    let nn = n * n;
    assert(nn > 0) by (nonlinear_arith)
        requires
            nn == n * n,
            n >= 1,
    ;
    assert((n + 1) * (n + 1) == nn + 2 * n + 1) by (nonlinear_arith)
        requires
            nn == n * n,
    ;
    // From above: the remainders only take away.
    assert((2 * n) * pe >= 0) by (nonlinear_arith)
        requires
            n >= 1,
            pe >= 0,
    ;
    assert(nn * np <= uu * nn + uu * (2 * n)) by (nonlinear_arith)
        requires
            nn * np <= uu * n2,
            n2 <= nn + 2 * n,
            uu == 1_000_000_000_000_000_000,
    ;
    if np > uu + 1_000_000_000 {
        assert(nn * np >= nn * (uu + 1_000_000_001)) by (nonlinear_arith)
            requires
                nn > 0,
                np >= uu + 1_000_000_001,
        ;
        assert(nn * (uu + 1_000_000_001) == nn * uu + 1_000_000_001 * nn) by (nonlinear_arith);
        assert(uu * nn == nn * uu) by (nonlinear_arith);
        assert(1_000_000_001 * nn > uu * (2 * n)) by (nonlinear_arith)
            requires
                nn == n * n,
                n >= 2_000_000_000,
                uu == 1_000_000_000_000_000_000,
        ;
        assert(false);
    }
    // From below: each remainder is smaller than the divisor.

    assert((2 * n) * pe <= 8_000_000_000 * nn) by (nonlinear_arith)
        requires
            nn == n * n,
            n >= 1,
            0 <= pe <= 4_000_000_000 * (n - 1),
    ;
    assert(ee <= 4 * nn) by (nonlinear_arith)
        requires
            nn == n * n,
            n >= 1,
            ee <= 4 * ((n - 1) * (n - 1)),
    ;
    assert(nn * np >= uu * nn - 8_000_000_004 * nn) by (nonlinear_arith)
        requires
            uu * n2 == nn * np + (2 * n) * pe + ee,
            n2 >= nn,
            (2 * n) * pe <= 8_000_000_000 * nn,
            ee <= 4 * nn,
            uu == 1_000_000_000_000_000_000,
    ;
    if np < uu - 8_000_000_004 {
        assert(nn * np <= nn * (uu - 8_000_000_005)) by (nonlinear_arith)
            requires
                nn > 0,
                np <= uu - 8_000_000_005,
        ;
        assert(nn * (uu - 8_000_000_005) == uu * nn - 8_000_000_005 * nn) by (nonlinear_arith);
        assert(false);
    }
}

/// What one component contributes to `lemma_unit_from_sums`.
proof fn lemma_component_division(c: int, n: int)
    requires
        n >= 1,
        magnitude(c) <= n,
    ensures
        ({
            let p = trunc_div(c * UNIT, n);
            let e = c * UNIT - n * p;
            &&& magnitude(p) <= UNIT
            &&& 0 <= p * e <= UNIT * (n - 1)
            &&& 0 <= e * e <= (n - 1) * (n - 1)
            &&& 1_000_000_000_000_000_000 * (c * c) == (n * n) * (p * p) + (2 * n) * (p * e) + e
                * e
        }),
{
    let a = c * UNIT;
    let p = trunc_div(a, n);
    let e = a - n * p;
    lemma_trunc_div_remainder(a, n);
    lemma_product_bound(c, UNIT as int, n, UNIT as int);
    assert(n * UNIT == UNIT * n) by (nonlinear_arith);
    lemma_trunc_div_bound(a, n, UNIT as int);
    lemma_product_bound(p, e, UNIT as int, n - 1);
    assert(p * e >= 0) by (nonlinear_arith)
        requires
            (p >= 0 && e >= 0) || (p <= 0 && e <= 0),
    ;
    lemma_square_bound(e, n - 1);
    lemma_square_of_division(a, n, p, e);
    assert(a * a == 1_000_000_000_000_000_000 * (c * c)) by (nonlinear_arith)
        requires
            a == c * 1_000_000_000,
    ;
}

/// Normalizing yields an orientation, whatever the quaternion was.
pub proof fn lemma_normalized_is_unit(q: Quat)
    ensures
        q.normalized().is_unit(),
{
    if q.is_zero() {
        assert(Quat::identity().norm_sq() == UNIT * UNIT) by (nonlinear_arith)
            requires
                Quat::identity().norm_sq() == UNIT * UNIT + 0 * 0 + 0 * 0 + 0 * 0,
        ;
    } else {
        let s = q.stretched();
        lemma_quat_norm_sq_positive(s);
        let n2 = s.norm_sq();
        lemma_floor_sqrt_exists(n2);
        let n = floor_sqrt(n2);
        lemma_quat_component_below_length(s, n);
        // After stretching, some component is at least `STRETCH`.
        assert(!s.fits(STRETCH - 1)) by {
            if q.fits(STRETCH - 1) {
                assert(magnitude(q.w * STRETCH) >= STRETCH || magnitude(q.x * STRETCH) >= STRETCH
                    || magnitude(q.y * STRETCH) >= STRETCH || magnitude(q.z * STRETCH)
                    >= STRETCH);
            }
        }
        assert(n >= STRETCH);
        lemma_component_division(s.w, n);
        lemma_component_division(s.x, n);
        lemma_component_division(s.y, n);
        lemma_component_division(s.z, n);
        let r = q.normalized();
        let pe = r.w * (s.w * UNIT - n * r.w) + r.x * (s.x * UNIT - n * r.x) + r.y * (s.y * UNIT
            - n * r.y) + r.z * (s.z * UNIT - n * r.z);
        let ee = (s.w * UNIT - n * r.w) * (s.w * UNIT - n * r.w) + (s.x * UNIT - n * r.x) * (s.x
            * UNIT - n * r.x) + (s.y * UNIT - n * r.y) * (s.y * UNIT - n * r.y) + (s.z * UNIT - n
            * r.z) * (s.z * UNIT - n * r.z);
        let np = r.norm_sq();
        let nn = n * n;
        let t = 2 * n;
        assert(1_000_000_000_000_000_000 * n2 == nn * np + t * pe + ee) by {
            let uu: int = 1_000_000_000_000_000_000;
            assert(uu * n2 == uu * (s.w * s.w) + uu * (s.x * s.x) + uu * (s.y * s.y) + uu * (s.z
                * s.z)) by (nonlinear_arith)
                requires
                    n2 == s.w * s.w + s.x * s.x + s.y * s.y + s.z * s.z,
            ;
            assert(nn * np == nn * (r.w * r.w) + nn * (r.x * r.x) + nn * (r.y * r.y) + nn * (r.z
                * r.z)) by (nonlinear_arith)
                requires
                    np == r.w * r.w + r.x * r.x + r.y * r.y + r.z * r.z,
            ;
            let pw = r.w * (s.w * UNIT - n * r.w);
            let px = r.x * (s.x * UNIT - n * r.x);
            let py = r.y * (s.y * UNIT - n * r.y);
            let pz = r.z * (s.z * UNIT - n * r.z);
            assert(t * pe == t * pw + t * px + t * py + t * pz) by (nonlinear_arith)
                requires
                    pe == pw + px + py + pz,
            ;
        }
        lemma_unit_from_sums(n, n2, np, pe, ee);
    }
}

/// The identity is normalized already.
pub proof fn lemma_identity_is_normalized()
    ensures
        Quat::identity().normalized() == Quat::identity(),
{
    let s = Quat::identity().stretched();
    let n = UNIT * STRETCH;
    assert(s.w == n && s.x == 0 && s.y == 0 && s.z == 0);
    assert(s.norm_sq() == n * n) by (nonlinear_arith)
        requires
            s.norm_sq() == s.w * s.w + s.x * s.x + s.y * s.y + s.z * s.z,
            s.w == n,
            s.x == 0,
            s.y == 0,
            s.z == 0,
    ;
    assert(is_floor_sqrt(n * n, n)) by (nonlinear_arith)
        requires
            n >= 0,
    ;
    lemma_floor_sqrt_exists(n * n);
    lemma_floor_sqrt_unique(n * n, n, floor_sqrt(n * n));
    lemma_trunc_div_exact(UNIT as int, n);
    lemma_trunc_div_exact(0, n);
    assert(s.w * UNIT == UNIT * n) by (nonlinear_arith)
        requires
            s.w == n,
    ;
    assert(0 * n == 0 && 0int * UNIT == 0);
}

/// At no rate of rotation, and likewise in no time, the identity stays the
/// identity.
pub proof fn lemma_identity_at_rest(rate: Vec3, dt: int)
    requires
        rate.is_zero() || dt == 0,
    ensures
        Quat::identity().advanced(rate, dt) == Quat::identity(),
{
    lemma_identity_is_normalized();
    lemma_trunc_div_exact(0, 2 * UNIT);
    lemma_trunc_div_exact(0, UNIT as int);
    assert(rate.x * dt == 0 && rate.y * dt == 0 && rate.z * dt == 0) by (nonlinear_arith)
        requires
            (rate.x == 0 && rate.y == 0 && rate.z == 0) || dt == 0,
    ;
    assert(0 * (2 * UNIT) == 0 && 0int * UNIT == 0);
    let h = rate.ratio(dt, 2 * UNIT);
    assert(h == Vec3::zero());
    let q = Quat::identity();
    assert(q.w * h.x == 0 && q.w * h.y == 0 && q.w * h.z == 0 && q.x * h.x == 0 && q.x * h.y == 0
        && q.x * h.z == 0 && q.y * h.x == 0 && q.y * h.y == 0 && q.y * h.z == 0 && q.z * h.x == 0
        && q.z * h.y == 0 && q.z * h.z == 0) by (nonlinear_arith)
        requires
            h.x == 0,
            h.y == 0,
            h.z == 0,
    ;
    assert(q.plus(q.times_vector(h)) == q);
}

/// Turning about the third axis keeps an orientation about the third axis:
/// its second and third components stay zero.
pub proof fn lemma_turn_about_third_axis(q: Quat, rate: Vec3, dt: int)
    requires
        q.x == 0,
        q.y == 0,
        rate.x == 0,
        rate.y == 0,
    ensures
        q.advanced(rate, dt).x == 0,
        q.advanced(rate, dt).y == 0,
{
    lemma_trunc_div_exact(0, 2 * UNIT);
    lemma_trunc_div_exact(0, UNIT as int);
    assert(0 * (2 * UNIT) == 0 && 0int * UNIT == 0);
    assert(rate.x * dt == 0 && rate.y * dt == 0) by (nonlinear_arith)
        requires
            rate.x == 0,
            rate.y == 0,
    ;
    let h = rate.ratio(dt, 2 * UNIT);
    assert(h.x == 0 && h.y == 0);
    assert(q.w * h.x == 0 && q.y * h.z == 0 && q.z * h.y == 0 && q.w * h.y == 0 && q.x * h.z == 0
        && q.z * h.x == 0) by (nonlinear_arith)
        requires
            h.x == 0,
            h.y == 0,
            q.x == 0,
            q.y == 0,
    ;
    let sum = q.plus(q.times_vector(h));
    assert(sum.x == 0 && sum.y == 0);
    if !sum.is_zero() {
        let s = sum.stretched();
        assert(s.x == 0 && s.y == 0);
        assert(!s.is_zero()) by {
            if sum.fits(STRETCH - 1) {
                assert(sum.w != 0 || sum.z != 0);
            }
        }
        lemma_quat_norm_sq_positive(s);
        lemma_floor_sqrt_exists(s.norm_sq());
        let n = floor_sqrt(s.norm_sq());
        assert(n > 0) by {
            if n == 0 {
                assert((n + 1) * (n + 1) == 1) by (nonlinear_arith)
                    requires
                        n == 0,
                ;
            }
        }
        lemma_trunc_div_exact(0, n);
        assert(0 * n == 0);
    }
}

/// The turn of one step about the third axis, before the sum is normalized.
/// With `dz * UNIT + r1 == w * h` and `dw * UNIT + r2 == -(z * h)`, the sum
/// `(w + dw, z + dz)` is turned against `(w, z)` by an angle whose tangent is
/// `h / UNIT`, up to what the remainders `r1` and `r2` add.
proof fn lemma_turn_before_normalizing(w: int, z: int, h: int, dw: int, dz: int, r1: int, r2: int)
    requires
        dz * UNIT + r1 == w * h,
        dw * UNIT + r2 == -(z * h),
        magnitude(r1) < UNIT,
        magnitude(r2) < UNIT,
    ensures
        ({
            let a = w + dw;
            let b = z + dz;
            let bound = (UNIT + magnitude(h)) * (magnitude(w) + magnitude(z));
            &&& magnitude(UNIT * (b * w - a * z) - h * (a * w + b * z)) <= bound
            &&& a * a + b * b >= w * w + z * z - 2 * (magnitude(w) + magnitude(z))
        }),
{
    let u: int = 1_000_000_000;
    let a = w + dw;
    let b = z + dz;
    let m = magnitude(w) + magnitude(z);
    let big = u + magnitude(h);
    // The two equations, each multiplied by `w` and by `z`.
    let ww = w * w;
    let zz = z * z;
    let wz = w * z;
    let p1 = dz * w;
    let p2 = dw * z;
    let p3 = dw * w;
    let p4 = dz * z;
    assert(u * p1 + r1 * w == h * ww) by (nonlinear_arith)
        requires
            dz * u + r1 == w * h,
            p1 == dz * w,
            ww == w * w,
    ;
    assert(u * p4 + r1 * z == h * wz) by (nonlinear_arith)
        requires
            dz * u + r1 == w * h,
            p4 == dz * z,
            wz == w * z,
    ;
    assert(u * p2 + r2 * z == -(h * zz)) by (nonlinear_arith)
        requires
            dw * u + r2 == -(z * h),
            p2 == dw * z,
            zz == z * z,
    ;
    assert(u * p3 + r2 * w == -(h * wz)) by (nonlinear_arith)
        requires
            dw * u + r2 == -(z * h),
            p3 == dw * w,
            wz == w * z,
    ;
    // The sine and cosine parts of the turn.
    let sine = b * w - a * z;
    let cosine = a * w + b * z;
    assert(sine == p1 - p2 && cosine == ww + zz + p3 + p4) by (nonlinear_arith)
        requires
            a == w + dw,
            b == z + dz,
            sine == b * w - a * z,
            cosine == a * w + b * z,
            p1 == dz * w,
            p2 == dw * z,
            p3 == dw * w,
            p4 == dz * z,
            ww == w * w,
            zz == z * z,
    ;
    let x0 = u * sine - h * cosine;
    let t1 = h * (r2 * w);
    let t2 = h * (r1 * z);
    assert(u * x0 == u * (r2 * z) - u * (r1 * w) + t1 + t2) by (nonlinear_arith)
        requires
            x0 == u * (p1 - p2) - h * (ww + zz + p3 + p4),
            u * p1 + r1 * w == h * ww,
            u * p4 + r1 * z == h * wz,
            u * p2 + r2 * z == -(h * zz),
            u * p3 + r2 * w == -(h * wz),
            t1 == h * (r2 * w),
            t2 == h * (r1 * z),
            u == 1_000_000_000,
    ;
    lemma_product_bound(r2, z, u, magnitude(z));
    lemma_product_bound(r1, w, u, magnitude(w));
    lemma_product_bound(r2, w, u, magnitude(w));
    lemma_product_bound(r1, z, u, magnitude(z));
    lemma_product_bound(h, r2 * w, magnitude(h), u * magnitude(w));
    lemma_product_bound(h, r1 * z, magnitude(h), u * magnitude(z));
    assert(magnitude(h) * (u * magnitude(w)) + magnitude(h) * (u * magnitude(z)) == u * (magnitude(
        h,
    ) * m)) by (nonlinear_arith)
        requires
            m == magnitude(w) + magnitude(z),
    ;
    assert(big * m == u * m + magnitude(h) * m) by (nonlinear_arith)
        requires
            big == u + magnitude(h),
    ;
    assert(magnitude(u * x0) <= u * (big * m));
    assert(magnitude(x0) <= big * m) by (nonlinear_arith)
        requires
            magnitude(u * x0) <= u * (big * m),
            u > 0,
    ;
    // What the remainders add to the squared norm.
    let y = p3 + p4;
    assert(u * y == -(r2 * w) - r1 * z);
    assert(magnitude(y) <= m) by (nonlinear_arith)
        requires
            magnitude(u * y) <= u * m,
            u > 0,
    ;
    assert(a * a + b * b == ww + zz + 2 * y + dw * dw + dz * dz) by (nonlinear_arith)
        requires
            a == w + dw,
            b == z + dz,
            y == dw * w + dz * z,
            ww == w * w,
            zz == z * z,
    ;
    assert(dw * dw >= 0 && dz * dz >= 0) by (nonlinear_arith);
}

/// The turn of one step about the third axis, after the sum is normalized.
/// With `pw * n + ew == a * UNIT` and `pz * n + ez == b * UNIT`, the quotient
/// `(pw, pz)` is turned against `(w, z)` as the dividend `(a, b)` is, up to
/// what the remainders `ew` and `ez` add.
proof fn lemma_turn_after_normalizing(
    w: int,
    z: int,
    h: int,
    a: int,
    b: int,
    n: int,
    pw: int,
    pz: int,
    ew: int,
    ez: int,
    slack: int,
)
    requires
        pw * n + ew == a * UNIT,
        pz * n + ez == b * UNIT,
        magnitude(ew) < n,
        magnitude(ez) < n,
        slack >= 0,
        UNIT * magnitude(UNIT * (b * w - a * z) - h * (a * w + b * z)) <= n * slack,
    ensures
        magnitude(UNIT * (pz * w - pw * z) - h * (pw * w + pz * z)) <= slack + (UNIT + magnitude(
            h,
        )) * (magnitude(w) + magnitude(z)),
{
    let u: int = 1_000_000_000;
    let m = magnitude(w) + magnitude(z);
    let big = u + magnitude(h);
    let q1 = pw * w;
    let q2 = pw * z;
    let q3 = pz * w;
    let q4 = pz * z;
    let aw = a * w;
    let az = a * z;
    let bw = b * w;
    let bz = b * z;
    assert(n * q1 + ew * w == u * aw) by (nonlinear_arith)
        requires
            pw * n + ew == a * u,
            q1 == pw * w,
            aw == a * w,
    ;
    assert(n * q2 + ew * z == u * az) by (nonlinear_arith)
        requires
            pw * n + ew == a * u,
            q2 == pw * z,
            az == a * z,
    ;
    assert(n * q3 + ez * w == u * bw) by (nonlinear_arith)
        requires
            pz * n + ez == b * u,
            q3 == pz * w,
            bw == b * w,
    ;
    assert(n * q4 + ez * z == u * bz) by (nonlinear_arith)
        requires
            pz * n + ez == b * u,
            q4 == pz * z,
            bz == b * z,
    ;
    let x0 = u * (bw - az) - h * (aw + bz);
    let x = u * (q3 - q2) - h * (q1 + q4);
    let t1 = h * (ew * w);
    let t2 = h * (ez * z);
    assert(n * x == u * x0 + u * (ew * z) - u * (ez * w) + t1 + t2) by (nonlinear_arith)
        requires
            x == u * (q3 - q2) - h * (q1 + q4),
            x0 == u * (bw - az) - h * (aw + bz),
            n * q1 + ew * w == u * aw,
            n * q2 + ew * z == u * az,
            n * q3 + ez * w == u * bw,
            n * q4 + ez * z == u * bz,
            t1 == h * (ew * w),
            t2 == h * (ez * z),
            u == 1_000_000_000,
    ;
    lemma_product_bound(ew, z, n, magnitude(z));
    lemma_product_bound(ez, w, n, magnitude(w));
    lemma_product_bound(ew, w, n, magnitude(w));
    lemma_product_bound(ez, z, n, magnitude(z));
    lemma_product_bound(h, ew * w, magnitude(h), n * magnitude(w));
    lemma_product_bound(h, ez * z, magnitude(h), n * magnitude(z));
    assert(magnitude(h) * (n * magnitude(w)) + magnitude(h) * (n * magnitude(z)) == n * (magnitude(
        h,
    ) * m)) by (nonlinear_arith)
        requires
            m == magnitude(w) + magnitude(z),
    ;
    assert(u * (n * magnitude(z)) + u * (n * magnitude(w)) == n * (u * m)) by (nonlinear_arith)
        requires
            m == magnitude(w) + magnitude(z),
    ;
    assert(big * m == u * m + magnitude(h) * m) by (nonlinear_arith)
        requires
            big == u + magnitude(h),
    ;
    assert(magnitude(u * x0) == u * magnitude(x0));
    assert(n * (slack + big * m) == n * slack + n * (u * m) + n * (magnitude(h) * m))
        by (nonlinear_arith)
        requires
            big * m == u * m + magnitude(h) * m,
    ;
    assert(magnitude(n * x) <= n * (slack + big * m));
    assert(magnitude(x) <= slack + big * m) by (nonlinear_arith)
        requires
            magnitude(n * x) <= n * (slack + big * m),
            n > 0,
    ;
}

/// One step about the third axis turns the orientation by the angle whose half
/// has the tangent `h / UNIT`, where `h` is half the rate times the time step.
/// The orientation `q` and the next, `p`, are about the third axis; the turn
/// from `q` to `p` has the cosine part `p.w * q.w + p.z * q.z` and the sine
/// part `p.z * q.w - p.w * q.z`, and `UNIT` times the sine part differs from
/// `h` times the cosine part by no more than the rounding of the step allows.
pub proof fn lemma_turn_angle_about_third_axis(q: Quat, rate: Vec3, dt: int)
    requires
        q.is_unit(),
        q.x == 0,
        q.y == 0,
        rate.x == 0,
        rate.y == 0,
    ensures
        ({
            let h = trunc_div(rate.z * dt, 2 * UNIT);
            let p = q.advanced(rate, dt);
            magnitude(UNIT * (p.z * q.w - p.w * q.z) - h * (p.w * q.w + p.z * q.z)) <= 6 * ((UNIT
                + magnitude(h)) * (UNIT + 4))
        }),
{
    let u = UNIT as int;
    let h = trunc_div(rate.z * dt, 2 * UNIT);
    let hv = rate.ratio(dt, 2 * UNIT);
    let d = q.times_vector(hv);
    let w = q.w;
    let z = q.z;
    let m = magnitude(w) + magnitude(z);
    let big = u + magnitude(h);
    lemma_unit_fits(q);
    // The change of the step, and what its divisions leave.
    lemma_trunc_div_exact(0, 2 * UNIT);
    lemma_trunc_div_exact(0, u);
    assert(0 * (2 * UNIT) == 0 && 0 * u == 0);
    assert(rate.x * dt == 0 && rate.y * dt == 0) by (nonlinear_arith)
        requires
            rate.x == 0,
            rate.y == 0,
    ;
    assert(hv.x == 0 && hv.y == 0 && hv.z == h);
    assert(q.x * hv.x == 0 && q.y * hv.y == 0 && q.x * hv.y == 0 && q.y * hv.x == 0 && q.w * hv.x
        == 0 && q.w * hv.y == 0 && q.z * hv.x == 0 && q.z * hv.y == 0 && q.x * hv.z == 0 && q.y
        * hv.z == 0) by (nonlinear_arith)
        requires
            q.x == 0,
            q.y == 0,
            hv.x == 0,
            hv.y == 0,
    ;
    assert(d.w == trunc_div(-(z * h), u));
    assert(d.z == trunc_div(w * h, u));
    assert(d.x == 0 && d.y == 0);
    lemma_trunc_div_remainder(-(z * h), u);
    lemma_trunc_div_remainder(w * h, u);
    let r1 = w * h - u * d.z;
    let r2 = -(z * h) - u * d.w;
    assert(d.z * u == u * d.z && d.w * u == u * d.w) by (nonlinear_arith);
    lemma_turn_before_normalizing(w, z, h, d.w, d.z, r1, r2);
    let a = w + d.w;
    let b = z + d.z;
    let x0 = u * (b * w - a * z) - h * (a * w + b * z);
    let sum = q.plus(d);
    assert(sum.w == a && sum.z == b && sum.x == 0 && sum.y == 0);
    // The sum is at least half as long as the orientation.
    let half: int = 500_000_000;
    assert(a * a + b * b >= half * half) by {
        assert(q.norm_sq() == w * w + z * z) by (nonlinear_arith)
            requires
                q.norm_sq() == q.w * q.w + q.x * q.x + q.y * q.y + q.z * q.z,
                q.x == 0,
                q.y == 0,
                w == q.w,
                z == q.z,
        ;
        assert(u * u == 1_000_000_000_000_000_000) by (nonlinear_arith)
            requires
                u == 1_000_000_000,
        ;
        assert(half * half == 250_000_000_000_000_000) by (nonlinear_arith)
            requires
                half == 500_000_000,
        ;
    }
    assert(!sum.is_zero()) by {
        if sum.is_zero() {
            assert(a * a + b * b == 0) by (nonlinear_arith)
                requires
                    a == 0,
                    b == 0,
            ;
        }
    }
    let k: int = if sum.fits(STRETCH - 1) {
        STRETCH as int
    } else {
        1
    };
    let s = sum.stretched();
    assert(s.w == a * k && s.z == b * k && s.x == 0 && s.y == 0);
    let n2 = s.norm_sq();
    assert(n2 == (k * k) * (a * a + b * b)) by (nonlinear_arith)
        requires
            n2 == s.w * s.w + s.x * s.x + s.y * s.y + s.z * s.z,
            s.w == a * k,
            s.z == b * k,
            s.x == 0,
            s.y == 0,
    ;
    assert((k * half) * (k * half) <= n2) by (nonlinear_arith)
        requires
            n2 == (k * k) * (a * a + b * b),
            a * a + b * b >= half * half,
            k > 0,
    ;
    lemma_floor_sqrt_exists(n2);
    let n = floor_sqrt(n2);
    lemma_floor_sqrt_lower(n2, n, k * half);
    assert(k * u <= 2 * n);
    let p = q.advanced(rate, dt);
    assert(p.w == trunc_div(s.w * UNIT, n));
    assert(p.z == trunc_div(s.z * UNIT, n));
    lemma_trunc_div_remainder(s.w * UNIT, n);
    lemma_trunc_div_remainder(s.z * UNIT, n);
    let ka = a * k;
    let kb = b * k;
    let ew = ka * u - p.w * n;
    let ez = kb * u - p.z * n;
    assert(p.w * n == n * p.w && p.z * n == n * p.z) by (nonlinear_arith);
    // The stretched sum is turned as the sum is.
    let kx0 = u * (kb * w - ka * z) - h * (ka * w + kb * z);
    let sine = b * w - a * z;
    let cosine = a * w + b * z;
    assert(kb * w - ka * z == k * sine) by (nonlinear_arith)
        requires
            sine == b * w - a * z,
            ka == a * k,
            kb == b * k,
    ;
    assert(ka * w + kb * z == k * cosine) by (nonlinear_arith)
        requires
            cosine == a * w + b * z,
            ka == a * k,
            kb == b * k,
    ;
    assert(h * (k * cosine) == k * (h * cosine)) by (nonlinear_arith);
    assert(k * (u * sine - h * cosine) == u * (k * sine) - k * (h * cosine)) by (nonlinear_arith)
        requires
            u == 1_000_000_000,
    ;
    assert(kx0 == k * x0);
    let slack = 2 * (big * m);
    assert(big * m >= 0) by (nonlinear_arith)
        requires
            big >= 0,
            m >= 0,
    ;
    assert(u * magnitude(kx0) <= n * slack) by (nonlinear_arith)
        requires
            kx0 == k * x0,
            magnitude(x0) <= big * m,
            k > 0,
            u > 0,
            k * u <= 2 * n,
            slack == 2 * (big * m),
    ;
    lemma_turn_after_normalizing(w, z, h, ka, kb, n, p.w, p.z, ew, ez, slack);
    assert(3 * (big * m) <= 6 * (big * (u + 4))) by (nonlinear_arith)
        requires
            big >= 0,
            0 <= m <= 2 * (u + 4),
    ;
}

/// Bounds of the fixed-point product of a quaternion with a vector.
pub proof fn lemma_times_vector_fits(q: Quat, h: Vec3, bound_q: int, bound_h: int, bound: int)
    requires
        q.fits(bound_q),
        h.fits(bound_h),
        bound >= 0,
        3 * (bound_q * bound_h) <= bound * UNIT,
    ensures
        q.times_vector(h).fits(bound),
{
    lemma_product_bound(q.w, h.x, bound_q, bound_h);
    lemma_product_bound(q.w, h.y, bound_q, bound_h);
    lemma_product_bound(q.w, h.z, bound_q, bound_h);
    lemma_product_bound(q.x, h.x, bound_q, bound_h);
    lemma_product_bound(q.x, h.y, bound_q, bound_h);
    lemma_product_bound(q.x, h.z, bound_q, bound_h);
    lemma_product_bound(q.y, h.x, bound_q, bound_h);
    lemma_product_bound(q.y, h.y, bound_q, bound_h);
    lemma_product_bound(q.y, h.z, bound_q, bound_h);
    lemma_product_bound(q.z, h.x, bound_q, bound_h);
    lemma_product_bound(q.z, h.y, bound_q, bound_h);
    lemma_product_bound(q.z, h.z, bound_q, bound_h);
    lemma_trunc_div_bound(-(q.x * h.x) - q.y * h.y - q.z * h.z, UNIT as int, bound);
    lemma_trunc_div_bound(q.w * h.x + q.y * h.z - q.z * h.y, UNIT as int, bound);
    lemma_trunc_div_bound(q.w * h.y - q.x * h.z + q.z * h.x, UNIT as int, bound);
    lemma_trunc_div_bound(q.w * h.z + q.x * h.y - q.y * h.x, UNIT as int, bound);
}

/// The directions that an orientation predicts have bounded components.
pub proof fn lemma_directions_fit(q: Quat)
    requires
        q.is_unit(),
    ensures
        q.gravity().fits(DIRECTION_MAX as int),
        q.west().fits(DIRECTION_MAX as int),
{
    lemma_unit_fits(q);
    lemma_product_bound(q.w, q.w, 1_000_000_004, 1_000_000_004);
    lemma_product_bound(q.w, q.x, 1_000_000_004, 1_000_000_004);
    lemma_product_bound(q.w, q.y, 1_000_000_004, 1_000_000_004);
    lemma_product_bound(q.w, q.z, 1_000_000_004, 1_000_000_004);
    lemma_product_bound(q.x, q.x, 1_000_000_004, 1_000_000_004);
    lemma_product_bound(q.x, q.y, 1_000_000_004, 1_000_000_004);
    lemma_product_bound(q.x, q.z, 1_000_000_004, 1_000_000_004);
    lemma_product_bound(q.y, q.y, 1_000_000_004, 1_000_000_004);
    lemma_product_bound(q.y, q.z, 1_000_000_004, 1_000_000_004);
    lemma_product_bound(q.z, q.z, 1_000_000_004, 1_000_000_004);
    let d = DIRECTION_MAX as int;
    lemma_trunc_div_bound(2 * (q.x * q.z - q.w * q.y), UNIT as int, d);
    lemma_trunc_div_bound(2 * (q.y * q.z + q.w * q.x), UNIT as int, d);
    lemma_trunc_div_bound(q.w * q.w - q.x * q.x - q.y * q.y + q.z * q.z, UNIT as int, d);
    lemma_trunc_div_bound(2 * (q.x * q.y + q.w * q.z), UNIT as int, d);
    lemma_trunc_div_bound(q.w * q.w - q.x * q.x + q.y * q.y - q.z * q.z, UNIT as int, d);
    lemma_trunc_div_bound(2 * (q.y * q.z - q.w * q.x), UNIT as int, d);
}

/// The sum that `advanced` normalizes has bounded components.
pub proof fn lemma_advance_fits(q: Quat, rate: Vec3, dt: int)
    requires
        q.is_unit(),
        rate.fits(ROTATION_LIMIT as int),
        0 <= dt <= LIMIT,
    ensures
        rate.ratio(dt, 2 * UNIT).fits(512_000_000_000_000_000),
        q.times_vector(rate.ratio(dt, 2 * UNIT)).fits(1_600_000_000_000_000_000),
        q.plus(q.times_vector(rate.ratio(dt, 2 * UNIT))).fits(OPERAND_MAX as int),
{
    lemma_unit_fits(q);
    lemma_ratio_fits(rate, dt, 2 * UNIT, ROTATION_LIMIT as int, 500);
    let h = rate.ratio(dt, 2 * UNIT);
    lemma_times_vector_fits(
        q,
        h,
        1_000_000_004,
        512_000_000_000_000_000,
        1_600_000_000_000_000_000,
    );
}

/// A quaternion of four fixed-point scalars.
#[derive(Clone, Copy, Debug, PartialEq, Eq, Structural)]
pub struct Quaternion {
    pub w: i64,
    pub x: i64,
    pub y: i64,
    pub z: i64,
}

impl View for Quaternion {
    type V = Quat;

    open spec fn view(&self) -> Quat {
        Quat { w: self.w as int, x: self.x as int, y: self.y as int, z: self.z as int }
    }
}

impl Quaternion {
    /// The rotation that leaves everything where it is.
    pub fn identity() -> (r: Quaternion)
        ensures
            r@ == Quat::identity(),
            r@.is_unit(),
    {
        assert(Quat::identity().norm_sq() == UNIT * UNIT) by (nonlinear_arith)
            requires
                Quat::identity().norm_sq() == UNIT * UNIT + 0 * 0 + 0 * 0 + 0 * 0,
        ;
        Quaternion { w: UNIT, x: 0, y: 0, z: 0 }
    }

    /// The quaternion with the given components.
    pub fn new(w: i64, x: i64, y: i64, z: i64) -> (r: Quaternion)
        ensures
            r.w == w,
            r.x == x,
            r.y == y,
            r.z == z,
    {
        Quaternion { w, x, y, z }
    }

    /// The components as an array, in the order w, x, y, z.
    pub fn to_array(self) -> (r: [i64; 4])
        ensures
            r[0] == self.w,
            r[1] == self.x,
            r[2] == self.y,
            r[3] == self.z,
    {
        [self.w, self.x, self.y, self.z]
    }

    /// Whether all components are zero.
    pub fn is_zero(self) -> (r: bool)
        ensures
            r == self@.is_zero(),
    {
        self.w == 0 && self.x == 0 && self.y == 0 && self.z == 0
    }

    /// Sum of the squares of the components, not divided by `UNIT`.
    pub fn norm_sq(self) -> (r: u128)
        requires
            self@.fits(OPERAND_MAX as int),
        ensures
            r == self@.norm_sq(),
    {
        proof {
            lemma_square_bound(self.w as int, 0x4000_0000_0000_0000);
            lemma_square_bound(self.x as int, 0x4000_0000_0000_0000);
            lemma_square_bound(self.y as int, 0x4000_0000_0000_0000);
            lemma_square_bound(self.z as int, 0x4000_0000_0000_0000);
        }
        let ww: u128 = wide_product(self.w, self.w) as u128;
        let xx: u128 = wide_product(self.x, self.x) as u128;
        let yy: u128 = wide_product(self.y, self.y) as u128;
        let zz: u128 = wide_product(self.z, self.z) as u128;
        ww + xx + yy + zz
    }

    /// Whether the quaternion has length one, up to the rounding of the format.
    pub fn is_unit(self) -> (r: bool)
        requires
            self@.fits(OPERAND_MAX as int),
        ensures
            r == self@.is_unit(),
    {
        let n: u128 = self.norm_sq();
        let one: u128 = 1_000_000_000_000_000_000;
        let tolerance: u128 = 8_000_000_004;
        assert(UNIT * UNIT == 1_000_000_000_000_000_000) by (nonlinear_arith);
        one - tolerance <= n && n <= one + tolerance
    }

    /// The quaternion itself, or enlarged by `STRETCH` if all its components are
    /// smaller than `STRETCH`.
    pub fn stretched(self) -> (r: Quaternion)
        ensures
            r@ == self@.stretched(),
            self@.fits(OPERAND_MAX as int) ==> r@.fits(OPERAND_MAX as int),
    {
        if -STRETCH < self.w && self.w < STRETCH && -STRETCH < self.x && self.x < STRETCH
            && -STRETCH < self.y && self.y < STRETCH && -STRETCH < self.z && self.z < STRETCH {
            Quaternion {
                w: self.w * STRETCH,
                x: self.x * STRETCH,
                y: self.y * STRETCH,
                z: self.z * STRETCH,
            }
        } else {
            self
        }
    }

    /// The quaternion of length one in the same direction; zero becomes the
    /// identity.
    pub fn normalized(self) -> (r: Quaternion)
        requires
            self@.fits(OPERAND_MAX as int),
        ensures
            r@ == self@.normalized(),
            r@.is_unit(),
    {
        proof {
            lemma_normalized_is_unit(self@);
        }
        if self.is_zero() {
            return Quaternion::identity();
        }
        let s: Quaternion = self.stretched();
        let n: u64 = isqrt(s.norm_sq());
        proof {
            lemma_quat_norm_sq_positive(s@);
            if n == 0 {
                assert((n + 1) * (n + 1) == 1) by (nonlinear_arith)
                    requires
                        n == 0,
                ;
            }
            lemma_quat_component_below_length(s@, n as int);
            lemma_component_division(s.w as int, n as int);
            lemma_component_division(s.x as int, n as int);
            lemma_component_division(s.y as int, n as int);
            lemma_component_division(s.z as int, n as int);
        }
        Quaternion {
            w: wide_quotient(wide_product(s.w, UNIT), n as i128),
            x: wide_quotient(wide_product(s.x, UNIT), n as i128),
            y: wide_quotient(wide_product(s.y, UNIT), n as i128),
            z: wide_quotient(wide_product(s.z, UNIT), n as i128),
        }
    }

    /// Fixed-point product of the quaternion with the pure quaternion `(0, h)`.
    pub fn times_vector(self, h: Vector3) -> (r: Quaternion)
        requires
            self@.fits(OPERAND_MAX as int),
            h@.fits(OPERAND_MAX as int),
            self@.times_vector(h@).fits(i64::MAX as int),
        ensures
            r@ == self@.times_vector(h@),
    {
        proof {
            let m: int = 0x4000_0000_0000_0000;
            lemma_product_bound(self.w as int, h.x as int, m, m);
            lemma_product_bound(self.w as int, h.y as int, m, m);
            lemma_product_bound(self.w as int, h.z as int, m, m);
            lemma_product_bound(self.x as int, h.x as int, m, m);
            lemma_product_bound(self.x as int, h.y as int, m, m);
            lemma_product_bound(self.x as int, h.z as int, m, m);
            lemma_product_bound(self.y as int, h.x as int, m, m);
            lemma_product_bound(self.y as int, h.y as int, m, m);
            lemma_product_bound(self.y as int, h.z as int, m, m);
            lemma_product_bound(self.z as int, h.x as int, m, m);
            lemma_product_bound(self.z as int, h.y as int, m, m);
            lemma_product_bound(self.z as int, h.z as int, m, m);
            assert(m * m == 0x1000_0000_0000_0000_0000_0000_0000_0000) by (nonlinear_arith)
                requires
                    m == 0x4000_0000_0000_0000,
            ;
        }
        let w: i128 = -wide_product(self.x, h.x) - wide_product(self.y, h.y) - wide_product(
            self.z,
            h.z,
        );
        let x: i128 = wide_product(self.w, h.x) + wide_product(self.y, h.z) - wide_product(
            self.z,
            h.y,
        );
        let y: i128 = wide_product(self.w, h.y) - wide_product(self.x, h.z) + wide_product(
            self.z,
            h.x,
        );
        let z: i128 = wide_product(self.w, h.z) + wide_product(self.x, h.y) - wide_product(
            self.y,
            h.x,
        );
        Quaternion {
            w: narrow_quotient(w, UNIT),
            x: narrow_quotient(x, UNIT),
            y: narrow_quotient(y, UNIT),
            z: narrow_quotient(z, UNIT),
        }
    }

    /// The orientation after turning at the rate `rate`, in radians per second
    /// and in the body's frame, for the time `dt`.
    pub fn advanced(self, rate: Vector3, dt: i64) -> (r: Quaternion)
        requires
            self@.is_unit(),
            rate@.fits(ROTATION_LIMIT as int),
            0 <= dt <= LIMIT,
        ensures
            r@ == self@.advanced(rate@, dt as int),
            r@.is_unit(),
    {
        proof {
            lemma_unit_fits(self@);
            lemma_advance_fits(self@, rate@, dt as int);
        }
        let half_angle: Vector3 = rate.ratio(dt, 2 * UNIT);
        let change: Quaternion = self.times_vector(half_angle);
        let sum = Quaternion {
            w: self.w + change.w,
            x: self.x + change.x,
            y: self.y + change.y,
            z: self.z + change.z,
        };
        sum.normalized()
    }

    /// The upward vertical of the world, as seen from the body.
    pub fn gravity(self) -> (r: Vector3)
        requires
            self@.is_unit(),
        ensures
            r@ == self@.gravity(),
            r@.fits(DIRECTION_MAX as int),
    {
        proof {
            lemma_unit_fits(self@);
            lemma_directions_fit(self@);
            lemma_product_bound(self.w as int, self.w as int, 1_000_000_004, 1_000_000_004);
            lemma_product_bound(self.w as int, self.x as int, 1_000_000_004, 1_000_000_004);
            lemma_product_bound(self.w as int, self.y as int, 1_000_000_004, 1_000_000_004);
            lemma_product_bound(self.x as int, self.x as int, 1_000_000_004, 1_000_000_004);
            lemma_product_bound(self.x as int, self.z as int, 1_000_000_004, 1_000_000_004);
            lemma_product_bound(self.y as int, self.y as int, 1_000_000_004, 1_000_000_004);
            lemma_product_bound(self.y as int, self.z as int, 1_000_000_004, 1_000_000_004);
            lemma_product_bound(self.z as int, self.z as int, 1_000_000_004, 1_000_000_004);
        }
        let x: i128 = 2 * (wide_product(self.x, self.z) - wide_product(self.w, self.y));
        let y: i128 = 2 * (wide_product(self.y, self.z) + wide_product(self.w, self.x));
        let z: i128 = wide_product(self.w, self.w) - wide_product(self.x, self.x) - wide_product(
            self.y,
            self.y,
        ) + wide_product(self.z, self.z);
        Vector3 {
            x: narrow_quotient(x, UNIT),
            y: narrow_quotient(y, UNIT),
            z: narrow_quotient(z, UNIT),
        }
    }

    /// The west of the world, as seen from the body.
    pub fn west(self) -> (r: Vector3)
        requires
            self@.is_unit(),
        ensures
            r@ == self@.west(),
            r@.fits(DIRECTION_MAX as int),
    {
        proof {
            lemma_unit_fits(self@);
            lemma_directions_fit(self@);
            lemma_product_bound(self.w as int, self.w as int, 1_000_000_004, 1_000_000_004);
            lemma_product_bound(self.w as int, self.x as int, 1_000_000_004, 1_000_000_004);
            lemma_product_bound(self.w as int, self.z as int, 1_000_000_004, 1_000_000_004);
            lemma_product_bound(self.x as int, self.x as int, 1_000_000_004, 1_000_000_004);
            lemma_product_bound(self.x as int, self.y as int, 1_000_000_004, 1_000_000_004);
            lemma_product_bound(self.y as int, self.y as int, 1_000_000_004, 1_000_000_004);
            lemma_product_bound(self.y as int, self.z as int, 1_000_000_004, 1_000_000_004);
            lemma_product_bound(self.z as int, self.z as int, 1_000_000_004, 1_000_000_004);
        }
        let x: i128 = 2 * (wide_product(self.x, self.y) + wide_product(self.w, self.z));
        let y: i128 = wide_product(self.w, self.w) - wide_product(self.x, self.x) + wide_product(
            self.y,
            self.y,
        ) - wide_product(self.z, self.z);
        let z: i128 = 2 * (wide_product(self.y, self.z) - wide_product(self.w, self.x));
        Vector3 {
            x: narrow_quotient(x, UNIT),
            y: narrow_quotient(y, UNIT),
            z: narrow_quotient(z, UNIT),
        }
    }
}

} // verus!
