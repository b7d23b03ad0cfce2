//! Fixed-point scalars.
//!
//! Every physical quantity in this crate is a signed 64-bit integer that counts
//! billionths: the integer `v` stands for the real number `v / UNIT`. Products
//! are formed exactly in 128 bits and brought back to the format by a division
//! that rounds toward zero, so that negating an operand negates the result.

use vstd::prelude::*;

verus! {

/// The integer that stands for the real number one.
pub const UNIT: i64 = 1_000_000_000;

/// Largest magnitude of a sensor reading, a time step or a gain: one thousand.
pub const LIMIT: i64 = 1_000_000_000_000;

/// Largest magnitude of an operand of a product that is summed in 128 bits.
pub const OPERAND_MAX: i64 = 0x4000_0000_0000_0000;

/// Magnitude of an integer.
pub open spec fn magnitude(x: int) -> int {
    if x >= 0 {
        x
    } else {
        -x
    }
}

/// The smaller of two integers.
pub open spec fn lesser(a: int, b: int) -> int {
    if a <= b {
        a
    } else {
        b
    }
}

/// `x` limited to the interval from `-bound` to `bound`.
pub open spec fn clamped(x: int, bound: int) -> int {
    if x > bound {
        bound
    } else if x < -bound {
        -bound
    } else {
        x
    }
}

/// Quotient of `n` by a positive `d`, rounded toward zero.
pub open spec fn trunc_div(n: int, d: int) -> int {
    if n >= 0 {
        n / d
    } else {
        -((-n) / d)
    }
}

/// `r` is the integer part of the square root of `x`.
pub open spec fn is_floor_sqrt(x: int, r: int) -> bool {
    0 <= r && r * r <= x && x < (r + 1) * (r + 1)
}

/// Integer part of the square root of a non-negative `x`.
pub open spec fn floor_sqrt(x: int) -> int {
    choose|r: int| is_floor_sqrt(x, r)
}

/// A product of bounded factors is bounded by the product of the bounds.
pub proof fn lemma_product_bound(a: int, b: int, bound_a: int, bound_b: int)
    by (nonlinear_arith)
    requires
        magnitude(a) <= bound_a,
        magnitude(b) <= bound_b,
    ensures
        magnitude(a * b) <= bound_a * bound_b,
        -(bound_a * bound_b) <= a * b <= bound_a * bound_b,
{
}

/// What rounding toward zero leaves behind: the remainder is smaller than the
/// divisor and has the sign of the dividend, as does the quotient.
pub proof fn lemma_trunc_div_remainder(n: int, d: int)
    requires
        d > 0,
    ensures
        magnitude(n - d * trunc_div(n, d)) < d,
        n >= 0 ==> trunc_div(n, d) >= 0 && n - d * trunc_div(n, d) >= 0,
        n <= 0 ==> trunc_div(n, d) <= 0 && n - d * trunc_div(n, d) <= 0,
        magnitude(trunc_div(n, d)) <= magnitude(n),
{
    let m = magnitude(n);
    vstd::arithmetic::div_mod::lemma_fundamental_div_mod(m, d);
    vstd::arithmetic::div_mod::lemma_mod_bound(m, d);
    vstd::arithmetic::div_mod::lemma_div_pos_is_pos(m, d);
    let q = m / d;
    assert(m == d * q + m % d);
    assert(q <= m) by (nonlinear_arith)
        requires
            d >= 1,
            q >= 0,
            d * q <= m,
    ;
    if n < 0 {
        assert(d * (-q) == -(d * q)) by (nonlinear_arith);
    }
}

/// A quotient is bounded by `bound` when the dividend is bounded by `bound * d`.
pub proof fn lemma_trunc_div_bound(n: int, d: int, bound: int)
    requires
        d > 0,
        bound >= 0,
        magnitude(n) <= bound * d,
    ensures
        magnitude(trunc_div(n, d)) <= bound,
        -bound <= trunc_div(n, d) <= bound,
{
    lemma_trunc_div_remainder(n, d);
    let q = trunc_div(n, d);
    let m = magnitude(q);
    assert(d * m <= magnitude(n)) by (nonlinear_arith)
        requires
            d > 0,
            m == magnitude(q),
            magnitude(n - d * q) < d,
            n >= 0 ==> q >= 0 && n - d * q >= 0,
            n <= 0 ==> q <= 0 && n - d * q <= 0,
    ;
    assert(m <= bound) by (nonlinear_arith)
        requires
            d > 0,
            bound >= 0,
            m >= 0,
            d * m <= bound * d,
    ;
}

/// An exact multiple divides without remainder.
pub proof fn lemma_trunc_div_exact(q: int, d: int)
    requires
        d > 0,
    ensures
        trunc_div(q * d, d) == q,
{
    let m = magnitude(q);
    vstd::arithmetic::div_mod::lemma_div_by_multiple(m, d);
    if q >= 0 {
        assert(q * d >= 0) by (nonlinear_arith)
            requires
                q >= 0,
                d > 0,
        ;
    } else {
        assert(q * d < 0 && -(q * d) == (-q) * d) by (nonlinear_arith)
            requires
                q < 0,
                d > 0,
        ;
    }
}

/// The part `k / w` of a difference lies between zero and the difference.
pub proof fn lemma_part_between(delta: int, k: int, w: int)
    requires
        0 <= k <= w,
        w > 0,
    ensures
        delta >= 0 ==> 0 <= trunc_div(delta * k, w) <= delta,
        delta <= 0 ==> delta <= trunc_div(delta * k, w) <= 0,
{
    lemma_product_bound(delta, k, magnitude(delta), w);
    lemma_trunc_div_bound(delta * k, w, magnitude(delta));
    lemma_trunc_div_remainder(delta * k, w);
    assert(delta >= 0 ==> delta * k >= 0) by (nonlinear_arith)
        requires
            k >= 0,
    ;
    assert(delta <= 0 ==> delta * k <= 0) by (nonlinear_arith)
        requires
            k >= 0,
    ;
}

/// The part `k / w` of a difference is not zero when the difference times `k`
/// reaches `w`.
pub proof fn lemma_part_moves(delta: int, k: int, w: int)
    requires
        0 <= k <= w,
        w > 0,
        magnitude(delta) * k >= w,
    ensures
        trunc_div(delta * k, w) != 0,
{
    lemma_trunc_div_remainder(delta * k, w);
    assert(magnitude(delta * k) == magnitude(delta) * k) by (nonlinear_arith)
        requires
            k >= 0,
    ;
}

/// Only one integer is the integer part of a given square root.
pub proof fn lemma_floor_sqrt_unique(x: int, r: int, s: int)
    requires
        is_floor_sqrt(x, r),
        is_floor_sqrt(x, s),
    ensures
        r == s,
{
    if r < s {
        assert((r + 1) * (r + 1) <= s * s) by (nonlinear_arith)
            requires
                0 <= r,
                r + 1 <= s,
        ;
    }
    if s < r {
        assert((s + 1) * (s + 1) <= r * r) by (nonlinear_arith)
            requires
                0 <= s,
                s + 1 <= r,
        ;
    }
}

/// Every non-negative integer has an integer square root.
pub proof fn lemma_floor_sqrt_exists(x: int)
    requires
        x >= 0,
    ensures
        is_floor_sqrt(x, floor_sqrt(x)),
    decreases x,
{
    if x == 0 {
        assert(is_floor_sqrt(0, 0));
    } else {
        lemma_floor_sqrt_exists(x - 1);
        let r = floor_sqrt(x - 1);
        if x < (r + 1) * (r + 1) {
            assert(is_floor_sqrt(x, r));
        } else {
            assert((r + 1) * (r + 1) < (r + 2) * (r + 2)) by (nonlinear_arith)
                requires
                    r >= 0,
            ;
            assert(is_floor_sqrt(x, r + 1));
        }
    }
}

/// The integer part of a square root is monotone: a number whose square is at
/// most `x` is at most the root of `x`.
pub proof fn lemma_floor_sqrt_lower(x: int, r: int, a: int)
    requires
        is_floor_sqrt(x, r),
        0 <= a,
        a * a <= x,
    ensures
        a <= r,
{
    if a > r {
        assert((r + 1) * (r + 1) <= a * a) by (nonlinear_arith)
            requires
                0 <= r,
                r + 1 <= a,
        ;
    }
}

/// Exact product of two 64-bit integers.
pub fn wide_product(a: i64, b: i64) -> (r: i128)
    ensures
        r == a * b,
{
    assert(-0x4000_0000_0000_0000_0000_0000_0000_0000 <= a * b
        <= 0x4000_0000_0000_0000_0000_0000_0000_0000) by (nonlinear_arith)
        requires
            -0x8000_0000_0000_0000 <= a <= 0x7fff_ffff_ffff_ffff,
            -0x8000_0000_0000_0000 <= b <= 0x7fff_ffff_ffff_ffff,
    ;
    (a as i128) * (b as i128)
}

/// Quotient of two 128-bit integers, the divisor positive, rounded toward zero.
/// The quotient must fit in 64 bits.
pub fn wide_quotient(n: i128, d: i128) -> (r: i64)
    requires
        d > 0,
        magnitude(trunc_div(n as int, d as int)) <= i64::MAX,
    ensures
        r == trunc_div(n as int, d as int),
{
    let q: i128 = n / d;
    q as i64
}

/// Quotient of a 128-bit dividend by a positive divisor, rounded toward zero.
/// The quotient must fit in 64 bits.
pub fn narrow_quotient(n: i128, d: i64) -> (r: i64)
    requires
        d > 0,
        magnitude(trunc_div(n as int, d as int)) <= i64::MAX,
    ensures
        r == trunc_div(n as int, d as int),
{
    wide_quotient(n, d as i128)
}

/// `a * b / d`, rounded toward zero, with the product formed exactly.
pub fn mul_div(a: i64, b: i64, d: i64) -> (r: i64)
    requires
        d > 0,
        magnitude(trunc_div(a * b, d as int)) <= i64::MAX,
    ensures
        r == trunc_div(a * b, d as int),
{
    narrow_quotient(wide_product(a, b), d)
}

/// Integer part of the square root.
pub fn isqrt(x: u128) -> (r: u64)
    ensures
        is_floor_sqrt(x as int, r as int),
        r == floor_sqrt(x as int),
{
    let mut lo: u128 = 0;
    let mut hi: u128 = 0x1_0000_0000_0000_0000;
    assert(0x1_0000_0000_0000_0000int * 0x1_0000_0000_0000_0000int
        == 0x1_0000_0000_0000_0000_0000_0000_0000_0000int) by (nonlinear_arith);
    while hi - lo > 1
        invariant
            lo < hi <= 0x1_0000_0000_0000_0000,
            lo * lo <= x,
            x < hi * hi,
        decreases hi - lo,
    {
        let mid: u128 = lo + (hi - lo) / 2;
        assert(mid * mid <= 0xffff_ffff_ffff_ffff * 0xffff_ffff_ffff_ffff) by (nonlinear_arith)
            requires
                0 <= mid <= 0xffff_ffff_ffff_ffff,
        ;
        let square: u128 = mid * mid;
        if square <= x {
            lo = mid;
        } else {
            hi = mid;
        }
    }
    proof {
        assert(hi == lo + 1);
        let witness = lo as int;
        assert(is_floor_sqrt(x as int, witness));
        lemma_floor_sqrt_unique(x as int, witness, floor_sqrt(x as int));
    }
    lo as u64
}

/// The smaller of two scalars.
pub fn least(a: i64, b: i64) -> (r: i64)
    ensures
        r == lesser(a as int, b as int),
{
    if a <= b {
        a
    } else {
        b
    }
}

/// `x` limited to the interval from `-bound` to `bound`.
pub fn clamp(x: i64, bound: i64) -> (r: i64)
    requires
        bound >= 0,
    ensures
        r == clamped(x as int, bound as int),
{
    if x > bound {
        bound
    } else if x < -bound {
        -bound
    } else {
        x
    }
}

} // verus!
