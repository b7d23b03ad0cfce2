//! Three-component vectors in fixed point.
//!
//! `Vec3` is the mathematical vector, with unbounded integer components;
//! `Vector3` is the machine vector, and its view is a `Vec3`. All contracts are
//! stated over `Vec3`.

use crate::fixed::{
    clamp, floor_sqrt, is_floor_sqrt, isqrt, lemma_floor_sqrt_exists, lemma_floor_sqrt_lower,
    lemma_product_bound, lemma_trunc_div_bound, magnitude, mul_div, narrow_quotient, trunc_div,
    wide_product, OPERAND_MAX, UNIT,
};
use vstd::prelude::*;

verus! {

/// A vector of three unbounded integers, each counting billionths.
pub struct Vec3 {
    pub x: int,
    pub y: int,
    pub z: int,
}

impl Vec3 {
    /// Every component has magnitude at most `bound`.
    pub open spec fn fits(self, bound: int) -> bool {
        magnitude(self.x) <= bound && magnitude(self.y) <= bound && magnitude(self.z) <= bound
    }

    /// All components are zero.
    pub open spec fn is_zero(self) -> bool {
        self.x == 0 && self.y == 0 && self.z == 0
    }

    /// The zero vector.
    pub open spec fn zero() -> Vec3 {
        Vec3 { x: 0, y: 0, z: 0 }
    }

    /// Component-wise sum.
    pub open spec fn plus(self, other: Vec3) -> Vec3 {
        Vec3 { x: self.x + other.x, y: self.y + other.y, z: self.z + other.z }
    }

    /// Component-wise difference.
    pub open spec fn minus(self, other: Vec3) -> Vec3 {
        Vec3 { x: self.x - other.x, y: self.y - other.y, z: self.z - other.z }
    }

    /// Each component multiplied by `num / den`, rounded toward zero.
    pub open spec fn ratio(self, num: int, den: int) -> Vec3 {
        Vec3 {
            x: trunc_div(self.x * num, den),
            y: trunc_div(self.y * num, den),
            z: trunc_div(self.z * num, den),
        }
    }

    /// Each component multiplied by the fixed-point scalar `k`.
    pub open spec fn scaled(self, k: int) -> Vec3 {
        self.ratio(k, UNIT as int)
    }

    /// Each component limited to the interval from `-bound` to `bound`.
    pub open spec fn clamped(self, bound: int) -> Vec3 {
        Vec3 {
            x: crate::fixed::clamped(self.x, bound),
            y: crate::fixed::clamped(self.y, bound),
            z: crate::fixed::clamped(self.z, bound),
        }
    }

    /// Sum of the products of the components, not yet divided by `UNIT`.
    pub open spec fn raw_dot(self, other: Vec3) -> int {
        self.x * other.x + self.y * other.y + self.z * other.z
    }

    /// Fixed-point scalar product.
    pub open spec fn dot(self, other: Vec3) -> int {
        trunc_div(self.raw_dot(other), UNIT as int)
    }

    /// Fixed-point vector product.
    pub open spec fn cross(self, other: Vec3) -> Vec3 {
        Vec3 {
            x: trunc_div(self.y * other.z - self.z * other.y, UNIT as int),
            y: trunc_div(self.z * other.x - self.x * other.z, UNIT as int),
            z: trunc_div(self.x * other.y - self.y * other.x, UNIT as int),
        }
    }

    /// Sum of the squares of the components, not divided by `UNIT`.
    pub open spec fn norm_sq(self) -> int {
        self.x * self.x + self.y * self.y + self.z * self.z
    }

    /// Euclidean length, rounded down.
    pub open spec fn length(self) -> int {
        floor_sqrt(self.norm_sq())
    }

    /// The vector of length one in the same direction; zero stays zero.
    pub open spec fn normalized(self) -> Vec3 {
        if self.is_zero() {
            Vec3::zero()
        } else {
            self.ratio(UNIT as int, self.length())
        }
    }
}

/// A vector of three fixed-point scalars.
#[derive(Clone, Copy, Debug, PartialEq, Eq, Structural)]
pub struct Vector3 {
    pub x: i64,
    pub y: i64,
    pub z: i64,
}

impl View for Vector3 {
    type V = Vec3;

    open spec fn view(&self) -> Vec3 {
        Vec3 { x: self.x as int, y: self.y as int, z: self.z as int }
    }
}

/// The square of a bounded integer is bounded, and is not negative.
pub proof fn lemma_square_bound(a: int, bound: int)
    by (nonlinear_arith)
    requires
        magnitude(a) <= bound,
    ensures
        0 <= a * a <= bound * bound,
{
}

/// A component is no longer than the vector.
pub proof fn lemma_component_below_length(v: Vec3, r: int)
    requires
        is_floor_sqrt(v.norm_sq(), r),
    ensures
        v.fits(r),
{
    lemma_square_bound(v.x, magnitude(v.x));
    lemma_square_bound(v.y, magnitude(v.y));
    lemma_square_bound(v.z, magnitude(v.z));
    assert(magnitude(v.x) * magnitude(v.x) == v.x * v.x) by (nonlinear_arith);
    assert(magnitude(v.y) * magnitude(v.y) == v.y * v.y) by (nonlinear_arith);
    assert(magnitude(v.z) * magnitude(v.z) == v.z * v.z) by (nonlinear_arith);
    lemma_floor_sqrt_lower(v.norm_sq(), r, magnitude(v.x));
    lemma_floor_sqrt_lower(v.norm_sq(), r, magnitude(v.y));
    lemma_floor_sqrt_lower(v.norm_sq(), r, magnitude(v.z));
}

/// Bounds of a vector scaled by a ratio whose numerator does not exceed
/// `factor` times the denominator.
pub proof fn lemma_ratio_fits(v: Vec3, num: int, den: int, bound: int, factor: int)
    requires
        den > 0,
        bound >= 0,
        factor >= 0,
        v.fits(bound),
        magnitude(num) <= factor * den,
    ensures
        v.ratio(num, den).fits(bound * factor),
{
    assert forall|c: int| magnitude(c) <= bound implies magnitude(
        #[trigger] trunc_div(c * num, den),
    ) <= bound * factor by {
        lemma_product_bound(c, num, bound, factor * den);
        assert(bound * (factor * den) == (bound * factor) * den) by (nonlinear_arith);
        assert(bound * factor >= 0) by (nonlinear_arith)
            requires
                bound >= 0,
                factor >= 0,
        ;
        lemma_trunc_div_bound(c * num, den, bound * factor);
    }
}

/// Bounds of the raw scalar product of two bounded vectors.
pub proof fn lemma_raw_dot_bound(a: Vec3, b: Vec3, bound_a: int, bound_b: int)
    requires
        a.fits(bound_a),
        b.fits(bound_b),
    ensures
        magnitude(a.raw_dot(b)) <= 3 * (bound_a * bound_b),
{
    lemma_product_bound(a.x, b.x, bound_a, bound_b);
    lemma_product_bound(a.y, b.y, bound_a, bound_b);
    lemma_product_bound(a.z, b.z, bound_a, bound_b);
}

/// Bounds of the fixed-point scalar product of two bounded vectors.
pub proof fn lemma_dot_bound(a: Vec3, b: Vec3, bound_a: int, bound_b: int, bound: int)
    requires
        a.fits(bound_a),
        b.fits(bound_b),
        bound >= 0,
        3 * (bound_a * bound_b) <= bound * UNIT,
    ensures
        magnitude(a.dot(b)) <= bound,
{
    lemma_raw_dot_bound(a, b, bound_a, bound_b);
    lemma_trunc_div_bound(a.raw_dot(b), UNIT as int, bound);
}

/// Bounds of the fixed-point vector product of two bounded vectors.
pub proof fn lemma_cross_bound(a: Vec3, b: Vec3, bound_a: int, bound_b: int, bound: int)
    requires
        a.fits(bound_a),
        b.fits(bound_b),
        bound >= 0,
        2 * (bound_a * bound_b) <= bound * UNIT,
    ensures
        a.cross(b).fits(bound),
{
    lemma_product_bound(a.x, b.y, bound_a, bound_b);
    lemma_product_bound(a.x, b.z, bound_a, bound_b);
    lemma_product_bound(a.y, b.x, bound_a, bound_b);
    lemma_product_bound(a.y, b.z, bound_a, bound_b);
    lemma_product_bound(a.z, b.x, bound_a, bound_b);
    lemma_product_bound(a.z, b.y, bound_a, bound_b);
    lemma_trunc_div_bound(a.y * b.z - a.z * b.y, UNIT as int, bound);
    lemma_trunc_div_bound(a.z * b.x - a.x * b.z, UNIT as int, bound);
    lemma_trunc_div_bound(a.x * b.y - a.y * b.x, UNIT as int, bound);
}

/// A vector is at most twice as long as its largest component.
pub proof fn lemma_length_bound(v: Vec3, bound: int)
    requires
        v.fits(bound),
    ensures
        0 <= v.length() <= 2 * bound,
        is_floor_sqrt(v.norm_sq(), v.length()),
{
    lemma_norm_sq_positive(v);
    lemma_floor_sqrt_exists(v.norm_sq());
    lemma_square_bound(v.x, bound);
    lemma_square_bound(v.y, bound);
    lemma_square_bound(v.z, bound);
    let r = v.length();
    let bb = bound * bound;
    if r > 2 * bound {
        assert(r * r > 3 * bb) by (nonlinear_arith)
            requires
                r >= 2 * bound + 1,
                bound >= 0,
                bb == bound * bound,
        ;
    }
}

/// A vector with smaller components is not longer.
pub proof fn lemma_length_monotone(a: Vec3, b: Vec3)
    requires
        magnitude(a.x) <= magnitude(b.x),
        magnitude(a.y) <= magnitude(b.y),
        magnitude(a.z) <= magnitude(b.z),
    ensures
        a.norm_sq() <= b.norm_sq(),
        a.length() <= b.length(),
{
    assert forall|c: int, d: int| magnitude(c) <= magnitude(d) implies #[trigger] (c * c) <= #[trigger] (d * d) by {
        assert(c * c <= d * d) by (nonlinear_arith)
            requires
                magnitude(c) <= magnitude(d),
        ;
    }
    assert(a.x * a.x <= b.x * b.x);
    assert(a.y * a.y <= b.y * b.y);
    assert(a.z * a.z <= b.z * b.z);
    lemma_norm_sq_positive(a);
    lemma_norm_sq_positive(b);
    lemma_floor_sqrt_exists(a.norm_sq());
    lemma_floor_sqrt_exists(b.norm_sq());
    lemma_floor_sqrt_lower(b.norm_sq(), b.length(), a.length());
}

/// A normalized vector has no component beyond one.
pub proof fn lemma_normalized_fits(v: Vec3)
    ensures
        v.normalized().fits(UNIT as int),
{
    if !v.is_zero() {
        lemma_norm_sq_positive(v);
        lemma_floor_sqrt_exists(v.norm_sq());
        let r = v.length();
        lemma_component_below_length(v, r);
        assert(r > 0) by {
            if r == 0 {
                assert((r + 1) * (r + 1) == 1) by (nonlinear_arith)
                    requires
                        r == 0,
                ;
            }
        }
        assert forall|c: int| magnitude(c) <= r implies magnitude(
            #[trigger] trunc_div(c * UNIT, r),
        ) <= UNIT by {
            lemma_product_bound(UNIT as int, c, UNIT as int, r);
            assert(c * UNIT == UNIT * c) by (nonlinear_arith);
            lemma_trunc_div_bound(c * UNIT, r, UNIT as int);
        }
    }
}

/// A vector that is not zero has a positive squared norm.
pub proof fn lemma_norm_sq_positive(v: Vec3)
    ensures
        v.norm_sq() >= 0,
        !v.is_zero() ==> v.norm_sq() >= 1,
{
    assert(v.x * v.x >= 0 && (v.x != 0 ==> v.x * v.x >= 1)) by (nonlinear_arith);
    assert(v.y * v.y >= 0 && (v.y != 0 ==> v.y * v.y >= 1)) by (nonlinear_arith);
    assert(v.z * v.z >= 0 && (v.z != 0 ==> v.z * v.z >= 1)) by (nonlinear_arith);
}

impl Vector3 {
    /// The vector with the given components.
    pub fn new(x: i64, y: i64, z: i64) -> (r: Vector3)
        ensures
            r.x == x,
            r.y == y,
            r.z == z,
    {
        Vector3 { x, y, z }
    }

    /// The zero vector.
    pub fn zero() -> (r: Vector3)
        ensures
            r@ == Vec3::zero(),
    {
        Vector3 { x: 0, y: 0, z: 0 }
    }

    /// The vector whose components are the elements of `a`, in order.
    pub fn from_array(a: [i64; 3]) -> (r: Vector3)
        ensures
            r.x == a[0],
            r.y == a[1],
            r.z == a[2],
    {
        Vector3 { x: a[0], y: a[1], z: a[2] }
    }

    /// The components as an array, in the order x, y, z.
    pub fn to_array(self) -> (r: [i64; 3])
        ensures
            r[0] == self.x,
            r[1] == self.y,
            r[2] == self.z,
    {
        [self.x, self.y, self.z]
    }

    /// Whether all components are zero.
    pub fn is_zero(self) -> (r: bool)
        ensures
            r == self@.is_zero(),
    {
        self.x == 0 && self.y == 0 && self.z == 0
    }

    /// Whether every component has magnitude at most `bound`.
    pub fn fits(self, bound: i64) -> (r: bool)
        ensures
            r == self@.fits(bound as int),
    {
        bound >= 0 && -bound <= self.x && self.x <= bound && -bound <= self.y && self.y <= bound
            && -bound <= self.z && self.z <= bound
    }

    /// Component-wise sum.
    pub fn plus(self, rhs: Vector3) -> (r: Vector3)
        requires
            self@.plus(rhs@).fits(i64::MAX as int),
        ensures
            r@ == self@.plus(rhs@),
    {
        Vector3 { x: self.x + rhs.x, y: self.y + rhs.y, z: self.z + rhs.z }
    }

    /// Component-wise difference.
    pub fn minus(self, rhs: Vector3) -> (r: Vector3)
        requires
            self@.minus(rhs@).fits(i64::MAX as int),
        ensures
            r@ == self@.minus(rhs@),
    {
        Vector3 { x: self.x - rhs.x, y: self.y - rhs.y, z: self.z - rhs.z }
    }

    /// Each component multiplied by `num / den`, rounded toward zero.
    pub fn ratio(self, num: i64, den: i64) -> (r: Vector3)
        requires
            den > 0,
            self@.ratio(num as int, den as int).fits(i64::MAX as int),
        ensures
            r@ == self@.ratio(num as int, den as int),
    {
        Vector3 {
            x: mul_div(self.x, num, den),
            y: mul_div(self.y, num, den),
            z: mul_div(self.z, num, den),
        }
    }

    /// Each component multiplied by the fixed-point scalar `k`.
    pub fn scaled(self, k: i64) -> (r: Vector3)
        requires
            self@.scaled(k as int).fits(i64::MAX as int),
        ensures
            r@ == self@.scaled(k as int),
    {
        self.ratio(k, UNIT)
    }

    /// Each component limited to the interval from `-bound` to `bound`.
    pub fn clamped(self, bound: i64) -> (r: Vector3)
        requires
            bound >= 0,
        ensures
            r@ == self@.clamped(bound as int),
    {
        Vector3 { x: clamp(self.x, bound), y: clamp(self.y, bound), z: clamp(self.z, bound) }
    }

    /// Sum of the products of the components, not divided by `UNIT`.
    pub fn raw_dot(self, rhs: Vector3) -> (r: i128)
        requires
            self@.fits(OPERAND_MAX as int),
            rhs@.fits(OPERAND_MAX as int),
        ensures
            r == self@.raw_dot(rhs@),
    {
        proof {
            lemma_product_bound(self.x as int, rhs.x as int, 0x4000_0000_0000_0000, 0x4000_0000_0000_0000);
            lemma_product_bound(self.y as int, rhs.y as int, 0x4000_0000_0000_0000, 0x4000_0000_0000_0000);
            lemma_product_bound(self.z as int, rhs.z as int, 0x4000_0000_0000_0000, 0x4000_0000_0000_0000);
        }
        wide_product(self.x, rhs.x) + wide_product(self.y, rhs.y) + wide_product(self.z, rhs.z)
    }

    /// Fixed-point scalar product.
    pub fn dot(self, rhs: Vector3) -> (r: i64)
        requires
            self@.fits(OPERAND_MAX as int),
            rhs@.fits(OPERAND_MAX as int),
            magnitude(self@.dot(rhs@)) <= i64::MAX,
        ensures
            r == self@.dot(rhs@),
    {
        narrow_quotient(self.raw_dot(rhs), UNIT)
    }

    /// Fixed-point vector product.
    pub fn cross(self, rhs: Vector3) -> (r: Vector3)
        requires
            self@.fits(OPERAND_MAX as int),
            rhs@.fits(OPERAND_MAX as int),
            self@.cross(rhs@).fits(i64::MAX as int),
        ensures
            r@ == self@.cross(rhs@),
    {
        proof {
            lemma_product_bound(self.x as int, rhs.y as int, 0x4000_0000_0000_0000, 0x4000_0000_0000_0000);
            lemma_product_bound(self.x as int, rhs.z as int, 0x4000_0000_0000_0000, 0x4000_0000_0000_0000);
            lemma_product_bound(self.y as int, rhs.x as int, 0x4000_0000_0000_0000, 0x4000_0000_0000_0000);
            lemma_product_bound(self.y as int, rhs.z as int, 0x4000_0000_0000_0000, 0x4000_0000_0000_0000);
            lemma_product_bound(self.z as int, rhs.x as int, 0x4000_0000_0000_0000, 0x4000_0000_0000_0000);
            lemma_product_bound(self.z as int, rhs.y as int, 0x4000_0000_0000_0000, 0x4000_0000_0000_0000);
        }
        let x: i128 = wide_product(self.y, rhs.z) - wide_product(self.z, rhs.y);
        let y: i128 = wide_product(self.z, rhs.x) - wide_product(self.x, rhs.z);
        let z: i128 = wide_product(self.x, rhs.y) - wide_product(self.y, rhs.x);
        Vector3 {
            x: narrow_quotient(x, UNIT),
            y: narrow_quotient(y, UNIT),
            z: narrow_quotient(z, UNIT),
        }
    }

    /// Sum of the squares of the components, not divided by `UNIT`.
    pub fn norm_sq(self) -> (r: u128)
        ensures
            r == self@.norm_sq(),
    {
        proof {
            lemma_square_bound(self.x as int, 0x8000_0000_0000_0000);
            lemma_square_bound(self.y as int, 0x8000_0000_0000_0000);
            lemma_square_bound(self.z as int, 0x8000_0000_0000_0000);
        }
        let xx: u128 = wide_product(self.x, self.x) as u128;
        let yy: u128 = wide_product(self.y, self.y) as u128;
        let zz: u128 = wide_product(self.z, self.z) as u128;
        xx + yy + zz
    }

    /// Euclidean length, rounded down.
    pub fn length(self) -> (r: i64)
        requires
            self@.fits(OPERAND_MAX as int),
        ensures
            r == self@.length(),
            is_floor_sqrt(self@.norm_sq(), r as int),
    {
        let root: u64 = isqrt(self.norm_sq());
        proof {
            lemma_square_bound(self.x as int, 0x4000_0000_0000_0000);
            lemma_square_bound(self.y as int, 0x4000_0000_0000_0000);
            lemma_square_bound(self.z as int, 0x4000_0000_0000_0000);
            assert(root < 0x8000_0000_0000_0000) by (nonlinear_arith)
                requires
                    root * root <= 3 * (0x4000_0000_0000_0000int * 0x4000_0000_0000_0000int),
            ;
        }
        root as i64
    }

    /// The vector of length one in the same direction; zero stays zero.
    pub fn normalized(self) -> (r: Vector3)
        requires
            self@.fits(OPERAND_MAX as int),
        ensures
            r@ == self@.normalized(),
            r@.fits(UNIT as int),
    {
        proof {
            lemma_normalized_fits(self@);
        }
        if self.is_zero() {
            Vector3::zero()
        } else {
            let n: i64 = self.length();
            proof {
                lemma_norm_sq_positive(self@);
                if n == 0 {
                    assert((n + 1) * (n + 1) == 1) by (nonlinear_arith)
                        requires
                            n == 0,
                    ;
                }
            }
            self.ratio(UNIT, n)
        }
    }
}

} // verus!
