use fusion_ahrs::fixed::{
    clamp, isqrt, least, mul_div, narrow_quotient, wide_product, wide_quotient, LIMIT,
    OPERAND_MAX, UNIT,
};
use fusion_ahrs::quaternion::{Quaternion, NORM_TOLERANCE, STRETCH};
use fusion_ahrs::vector::Vector3;

fn squared_norm(q: Quaternion) -> i128 {
    let w = q.w as i128;
    let x = q.x as i128;
    let y = q.y as i128;
    let z = q.z as i128;
    w * w + x * x + y * y + z * z
}

fn is_unit(q: Quaternion) -> bool {
    let one = (UNIT as i128) * (UNIT as i128);
    (squared_norm(q) - one).abs() <= NORM_TOLERANCE as i128
}

#[test]
fn constants_are_one_and_one_thousand() {
    assert_eq!(UNIT, 1_000_000_000);
    assert_eq!(LIMIT, 1000 * UNIT);
    assert_eq!(OPERAND_MAX, 1i64 << 62);
    assert_eq!(STRETCH, 1i64 << 31);
    assert_eq!(NORM_TOLERANCE, 8 * UNIT + 4);
}

#[test]
fn wide_product_is_exact_at_the_extremes() {
    assert_eq!(wide_product(i64::MAX, i64::MAX), (i64::MAX as i128) * (i64::MAX as i128));
    assert_eq!(wide_product(i64::MIN, i64::MIN), 1i128 << 126);
    assert_eq!(wide_product(i64::MIN, i64::MAX), (i64::MIN as i128) * (i64::MAX as i128));
    assert_eq!(wide_product(-3, 7), -21);
    assert_eq!(wide_product(0, i64::MIN), 0);
}

#[test]
fn quotients_round_toward_zero() {
    assert_eq!(narrow_quotient(7, 2), 3);
    assert_eq!(narrow_quotient(-7, 2), -3);
    assert_eq!(narrow_quotient(6, 2), 3);
    assert_eq!(narrow_quotient(-6, 2), -3);
    assert_eq!(narrow_quotient(1, 2), 0);
    assert_eq!(narrow_quotient(-1, 2), 0);
    assert_eq!(wide_quotient(-(1i128 << 100), 1i128 << 90), -1024);
    assert_eq!(wide_quotient((1i128 << 100) - 1, 1i128 << 90), 1023);
}

#[test]
fn mul_div_forms_the_product_exactly() {
    assert_eq!(mul_div(i64::MAX, i64::MAX, i64::MAX), i64::MAX);
    assert_eq!(mul_div(3_000_000_000_000, 4_000_000_000_000, 6_000_000_000_000), 2_000_000_000_000);
    assert_eq!(mul_div(-7, 3, 2), -10);
    assert_eq!(mul_div(7, -3, 2), -10);
    assert_eq!(mul_div(-7, -3, 2), 10);
    assert_eq!(mul_div(0, 5, 3), 0);
}

#[test]
fn isqrt_is_the_integer_part_of_the_root() {
    assert_eq!(isqrt(0), 0);
    assert_eq!(isqrt(1), 1);
    assert_eq!(isqrt(2), 1);
    assert_eq!(isqrt(3), 1);
    assert_eq!(isqrt(4), 2);
    assert_eq!(isqrt(15), 3);
    assert_eq!(isqrt(16), 4);
    assert_eq!(isqrt(17), 4);
    assert_eq!(isqrt(1_000_000_000_000_000_000), 1_000_000_000);
    assert_eq!(isqrt(999_999_999_999_999_999), 999_999_999);
    assert_eq!(isqrt(u128::MAX), u64::MAX);
    assert_eq!(isqrt((u64::MAX as u128) * (u64::MAX as u128)), u64::MAX);
    assert_eq!(isqrt((u64::MAX as u128) * (u64::MAX as u128) - 1), u64::MAX - 1);
}

#[test]
fn isqrt_brackets_its_argument() {
    let mut x: u128 = 1;
    for _ in 0..120 {
        x = x * 2 + (x % 7);
        let r = isqrt(x) as u128;
        assert!(r * r <= x);
        assert!(x < (r + 1) * (r + 1));
    }
}

#[test]
fn small_scalar_helpers() {
    assert_eq!(least(3, 5), 3);
    assert_eq!(least(5, 3), 3);
    assert_eq!(least(-5, -3), -5);
    assert_eq!(clamp(7, 5), 5);
    assert_eq!(clamp(-7, 5), -5);
    assert_eq!(clamp(3, 5), 3);
    assert_eq!(clamp(-5, 5), -5);
    assert_eq!(clamp(1, 0), 0);
}

#[test]
fn vector_construction_and_arrays() {
    let v = Vector3::new(1, -2, 3);
    assert_eq!((v.x, v.y, v.z), (1, -2, 3));
    assert_eq!(v.to_array(), [1, -2, 3]);
    assert_eq!(Vector3::from_array([4, 5, -6]), Vector3::new(4, 5, -6));
    assert_eq!(Vector3::zero(), Vector3::new(0, 0, 0));
    assert!(Vector3::zero().is_zero());
    assert!(!Vector3::new(0, 0, 1).is_zero());
}

#[test]
fn vector_sum_difference_and_clamp() {
    let a = Vector3::new(1, 2, 3);
    let b = Vector3::new(10, -20, 30);
    assert_eq!(a.plus(b), Vector3::new(11, -18, 33));
    assert_eq!(a.minus(b), Vector3::new(-9, 22, -27));
    assert_eq!(b.clamped(15), Vector3::new(10, -15, 15));
}

#[test]
fn vector_ratio_and_scale_round_toward_zero() {
    let v = Vector3::new(7, -7, 1);
    assert_eq!(v.ratio(1, 2), Vector3::new(3, -3, 0));
    assert_eq!(v.ratio(-1, 2), Vector3::new(-3, 3, 0));
    let w = Vector3::new(2 * UNIT, -3 * UNIT, UNIT / 2);
    assert_eq!(w.scaled(UNIT / 2), Vector3::new(UNIT, -3 * UNIT / 2, UNIT / 4));
    assert_eq!(w.scaled(0), Vector3::zero());
}

#[test]
fn vector_products() {
    let x = Vector3::new(UNIT, 0, 0);
    let y = Vector3::new(0, UNIT, 0);
    let z = Vector3::new(0, 0, UNIT);
    assert_eq!(x.cross(y), z);
    assert_eq!(y.cross(z), x);
    assert_eq!(z.cross(x), y);
    assert_eq!(y.cross(x), Vector3::new(0, 0, -UNIT));
    assert_eq!(x.dot(y), 0);
    assert_eq!(x.dot(x), UNIT);
    let a = Vector3::new(2 * UNIT, 3 * UNIT, 4 * UNIT);
    let b = Vector3::new(5 * UNIT, 6 * UNIT, 7 * UNIT);
    assert_eq!(a.dot(b), 56 * UNIT);
    assert_eq!(a.raw_dot(b), 56 * (UNIT as i128) * (UNIT as i128));
    assert_eq!(a.cross(b), Vector3::new(-3 * UNIT, 6 * UNIT, -3 * UNIT));
}

#[test]
fn vector_norm_and_length() {
    let v = Vector3::new(3 * UNIT, 4 * UNIT, 0);
    assert_eq!(v.norm_sq(), 25 * (UNIT as u128) * (UNIT as u128));
    assert_eq!(v.length(), 5 * UNIT);
    assert_eq!(Vector3::new(1, 1, 1).length(), 1);
    assert_eq!(Vector3::zero().length(), 0);
    let big = Vector3::new(i64::MIN, i64::MIN, i64::MIN);
    assert_eq!(big.norm_sq(), 3 * (1u128 << 126));
}

#[test]
fn vector_normalization() {
    assert_eq!(Vector3::new(0, 0, 5 * UNIT).normalized(), Vector3::new(0, 0, UNIT));
    assert_eq!(Vector3::new(0, -7, 0).normalized(), Vector3::new(0, -UNIT, 0));
    assert_eq!(
        Vector3::new(3 * UNIT, 4 * UNIT, 0).normalized(),
        Vector3::new(600_000_000, 800_000_000, 0)
    );
    assert_eq!(Vector3::zero().normalized(), Vector3::zero());
    let corner = Vector3::new(OPERAND_MAX, -OPERAND_MAX, OPERAND_MAX).normalized();
    assert_eq!(corner, Vector3::new(577_350_269, -577_350_269, 577_350_269));
}

#[test]
fn quaternion_construction() {
    let q = Quaternion::new(1, 2, 3, 4);
    assert_eq!((q.w, q.x, q.y, q.z), (1, 2, 3, 4));
    assert_eq!(q.to_array(), [1, 2, 3, 4]);
    assert_eq!(Quaternion::identity(), Quaternion::new(UNIT, 0, 0, 0));
    assert!(Quaternion::new(0, 0, 0, 0).is_zero());
    assert!(!q.is_zero());
    assert_eq!(q.norm_sq(), 30);
}

#[test]
fn quaternion_unit_test_agrees_with_the_tolerance() {
    assert!(Quaternion::identity().is_unit());
    assert!(Quaternion::new(0, 0, -UNIT, 0).is_unit());
    assert!(Quaternion::new(UNIT + 4, 0, 0, 0).is_unit() == is_unit(Quaternion::new(UNIT + 4, 0, 0, 0)));
    assert!(!Quaternion::new(UNIT + 5, 0, 0, 0).is_unit());
    assert!(!Quaternion::new(UNIT - 5, 0, 0, 0).is_unit());
    assert!(Quaternion::new(UNIT - 4, 0, 0, 0).is_unit());
    assert!(!Quaternion::new(0, 0, 0, 0).is_unit());
    assert!(!Quaternion::new(2 * UNIT, 0, 0, 0).is_unit());
}

#[test]
fn quaternion_stretch_enlarges_small_quaternions_only() {
    assert_eq!(Quaternion::new(1, -1, 0, 2).stretched(), Quaternion::new(STRETCH, -STRETCH, 0, 2 * STRETCH));
    let edge = Quaternion::new(STRETCH - 1, 0, 0, 0);
    assert_eq!(edge.stretched(), Quaternion::new((STRETCH - 1) * STRETCH, 0, 0, 0));
    let large = Quaternion::new(STRETCH, 1, 2, 3);
    assert_eq!(large.stretched(), large);
    let negative = Quaternion::new(0, -STRETCH, 2, 3);
    assert_eq!(negative.stretched(), negative);
}

#[test]
fn quaternion_normalization_of_axes_is_exact() {
    assert_eq!(Quaternion::new(5, 0, 0, 0).normalized(), Quaternion::identity());
    assert_eq!(Quaternion::new(0, 0, -12345, 0).normalized(), Quaternion::new(0, 0, -UNIT, 0));
    assert_eq!(Quaternion::new(OPERAND_MAX, 0, 0, 0).normalized(), Quaternion::identity());
    assert_eq!(Quaternion::identity().normalized(), Quaternion::identity());
    assert_eq!(Quaternion::new(0, 0, 0, 0).normalized(), Quaternion::identity());
    assert_eq!(
        Quaternion::new(1, 1, 1, 1).normalized(),
        Quaternion::new(UNIT / 2, UNIT / 2, UNIT / 2, UNIT / 2)
    );
    assert_eq!(
        Quaternion::new(OPERAND_MAX, -OPERAND_MAX, OPERAND_MAX, -OPERAND_MAX).normalized(),
        Quaternion::new(UNIT / 2, -UNIT / 2, UNIT / 2, -UNIT / 2)
    );
}

#[test]
fn quaternion_normalization_yields_length_one() {
    let samples = [
        Quaternion::new(1, 2, 3, 4),
        Quaternion::new(-7, 0, 0, 1),
        Quaternion::new(UNIT, UNIT / 3, -UNIT / 7, 12345),
        Quaternion::new(3 * UNIT, -4 * UNIT, 12 * UNIT, 0),
        Quaternion::new(OPERAND_MAX, 1, -1, OPERAND_MAX / 3),
        Quaternion::new(STRETCH - 1, STRETCH - 1, STRETCH - 1, STRETCH - 1),
        Quaternion::new(STRETCH, STRETCH, -STRETCH, STRETCH),
        Quaternion::new(999_999_999, 31_622, 31_622, -31_622),
    ];
    for q in samples {
        let n = q.normalized();
        assert!(is_unit(n));
        assert!(n.is_unit());
    }
}

#[test]
fn quaternion_times_vector_matches_the_product_table() {
    let unit = UNIT;
    let i = Vector3::new(unit, 0, 0);
    let j = Vector3::new(0, unit, 0);
    let k = Vector3::new(0, 0, unit);
    let one = Quaternion::identity();
    assert_eq!(one.times_vector(i), Quaternion::new(0, unit, 0, 0));
    assert_eq!(one.times_vector(j), Quaternion::new(0, 0, unit, 0));
    assert_eq!(one.times_vector(k), Quaternion::new(0, 0, 0, unit));
    let qi = Quaternion::new(0, unit, 0, 0);
    assert_eq!(qi.times_vector(i), Quaternion::new(-unit, 0, 0, 0));
    assert_eq!(qi.times_vector(j), Quaternion::new(0, 0, 0, unit));
    assert_eq!(qi.times_vector(k), Quaternion::new(0, 0, -unit, 0));
    let qj = Quaternion::new(0, 0, unit, 0);
    assert_eq!(qj.times_vector(k), Quaternion::new(0, unit, 0, 0));
    let qk = Quaternion::new(0, 0, 0, unit);
    assert_eq!(qk.times_vector(i), Quaternion::new(0, 0, unit, 0));
}

#[test]
fn directions_at_the_identity() {
    let q = Quaternion::identity();
    assert_eq!(q.gravity(), Vector3::new(0, 0, UNIT));
    assert_eq!(q.west(), Vector3::new(0, UNIT, 0));
}

#[test]
fn directions_after_a_quarter_turn() {
    // A quarter turn about the first axis: the body's third axis points along
    // the world's second.
    let h = 707_106_781;
    let roll = Quaternion::new(h, h, 0, 0);
    let g = roll.gravity();
    assert_eq!(g.x, 0);
    assert!((g.y - UNIT).abs() <= 2);
    assert!(g.z.abs() <= 2);
    // A quarter turn about the third axis: the world's west is the body's
    // first axis.
    let yaw = Quaternion::new(h, 0, 0, h);
    let w = yaw.west();
    assert!((w.x - UNIT).abs() <= 2);
    assert!(w.y.abs() <= 2);
    assert_eq!(w.z, 0);
    assert_eq!(yaw.gravity().x, 0);
    assert_eq!(yaw.gravity().y, 0);
    assert!((yaw.gravity().z - UNIT).abs() <= 2);
}

#[test]
fn advancing_by_no_rate_or_no_time_changes_nothing() {
    let q = Quaternion::new(707_106_781, 0, 707_106_781, 0);
    assert!(q.is_unit());
    let still = q.advanced(Vector3::zero(), 10_000_000);
    assert!((still.w - q.w).abs() <= 1 && (still.y - q.y).abs() <= 1);
    assert_eq!((still.x, still.z), (0, 0));
    let frozen = q.advanced(Vector3::new(UNIT, UNIT, UNIT), 0);
    assert!((frozen.w - q.w).abs() <= 1 && (frozen.y - q.y).abs() <= 1);
    assert_eq!(Quaternion::identity().advanced(Vector3::zero(), LIMIT), Quaternion::identity());
}

#[test]
fn advancing_about_one_axis_turns_about_that_axis() {
    // One radian per second about the third axis for ten milliseconds: the
    // half angle is five thousandths.
    let q = Quaternion::identity().advanced(Vector3::new(0, 0, UNIT), 10_000_000);
    assert_eq!((q.x, q.y), (0, 0));
    let half = 0.005f64;
    let norm = (1.0 + half * half).sqrt();
    let w = (1.0 / norm * 1e9) as i64;
    let z = (half / norm * 1e9) as i64;
    assert!((q.w - w).abs() <= 1);
    assert!((q.z - z).abs() <= 1);
    assert!(is_unit(q));
}

#[test]
fn advancing_at_the_largest_rate_and_step_stays_a_unit() {
    let rate = Vector3::new(1_024_000_000_000_000, -1_024_000_000_000_000, 1_024_000_000_000_000);
    let q = Quaternion::new(UNIT / 2, UNIT / 2, UNIT / 2, UNIT / 2).advanced(rate, LIMIT);
    assert!(is_unit(q));
}

#[test]
fn one_step_about_the_third_axis_turns_by_half_the_rate_times_the_step() {
    // Half a radian about the third axis, then one radian per second for a
    // millisecond: the tangent of half the turn is 0.0005.
    let q = Quaternion::new(877_583_039, 0, 0, 479_424_664);
    let p = q.advanced(Vector3::new(0, 0, UNIT), 1_000_000);
    assert_eq!(p, Quaternion::new(877_343_217, 0, 0, 479_863_395));
    let h: i128 = 500_000;
    let unit = UNIT as i128;
    let sine = (p.z as i128) * (q.w as i128) - (p.w as i128) * (q.z as i128);
    let cosine = (p.w as i128) * (q.w as i128) + (p.z as i128) * (q.z as i128);
    assert!((unit * sine - h * cosine).abs() <= 6 * (unit + h) * (unit + 4));
    let tangent = sine as f64 / cosine as f64;
    assert!((tangent - 0.0005).abs() < 1e-8);
}

#[test]
fn vector_fits_within_a_bound() {
    let v = Vector3::new(3, -4, 0);
    assert!(v.fits(4));
    assert!(!v.fits(3));
    assert!(!v.fits(-1));
    assert!(Vector3::zero().fits(0));
    assert!(!Vector3::new(i64::MIN, 0, 0).fits(i64::MAX));
    assert!(Vector3::new(i64::MAX, -i64::MAX, 0).fits(i64::MAX));
}
