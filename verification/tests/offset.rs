use fusion_ahrs::fixed::UNIT;
use fusion_ahrs::offset::{GyroOffset, MEAN_MAX};
use fusion_ahrs::vector::Vector3;

const THRESHOLD: i64 = 52_359_878;
const SETTLE: i64 = 5 * UNIT;
const WINDOW: i64 = UNIT;
const TIME_CONSTANT: i64 = 7_957_747_155;
const TEN_MS: i64 = 10_000_000;

fn estimator() -> GyroOffset {
    GyroOffset::new(THRESHOLD, SETTLE, WINDOW, TIME_CONSTANT)
}

#[test]
fn new_estimator_has_no_offset() {
    let e = estimator();
    assert_eq!(e.bias(), Vector3::zero());
    assert_eq!(e.mean(), 0);
    assert_eq!(e.still(), 0);
    assert_eq!(MEAN_MAX, 4000 * UNIT);
}

#[test]
fn first_reading_passes_unchanged() {
    let mut e = estimator();
    let raw = Vector3::new(10_000_000, -20_000_000, 5_000_000);
    assert_eq!(e.correct(raw, TEN_MS), raw);
    // The magnitude is 22 912 878; a hundredth of it enters the mean.
    assert_eq!(e.mean(), 229_128);
    assert_eq!(e.still(), TEN_MS);
    assert_eq!(e.bias(), Vector3::zero());
}

#[test]
fn offset_waits_for_the_settle_period() {
    let mut e = estimator();
    let raw = Vector3::new(10_000_000, -20_000_000, 5_000_000);
    for _ in 0..500 {
        e.correct(raw, TEN_MS);
    }
    assert_eq!(e.still(), SETTLE);
    assert_eq!(e.bias(), Vector3::zero());
    // The next reading is the first to move the offset, by dt / time constant.
    assert_eq!(e.correct(raw, TEN_MS), raw);
    assert_eq!(e.bias(), Vector3::new(12_566, -25_132, 6_283));
    assert_eq!(e.correct(raw, TEN_MS), Vector3::new(9_987_434, -19_974_868, 4_993_717));
    assert_eq!(e.bias(), Vector3::new(25_116, -50_233, 12_558));
}

#[test]
fn motion_resets_the_stationary_time() {
    let mut e = estimator();
    let slow = Vector3::new(1_000_000, 0, 0);
    for _ in 0..100 {
        e.correct(slow, TEN_MS);
    }
    assert_eq!(e.still(), 100 * TEN_MS);
    e.correct(Vector3::new(UNIT, 0, 0), TEN_MS);
    assert_eq!(e.still(), 0);
    assert_eq!(e.bias(), Vector3::zero());
}

#[test]
fn a_spike_after_settling_does_not_move_the_offset() {
    let mut e = estimator();
    for _ in 0..600 {
        e.correct(Vector3::zero(), TEN_MS);
    }
    assert_eq!(e.still(), SETTLE);
    let spike = Vector3::new(0, 2 * UNIT, 0);
    assert_eq!(e.correct(spike, TEN_MS), spike);
    assert_eq!(e.bias(), Vector3::zero());
    assert_eq!(e.still(), 0);
    assert_eq!(e.mean(), 20_000_000);
}

#[test]
fn mean_follows_the_magnitude_and_a_long_step_takes_all_of_it() {
    let mut e = estimator();
    e.correct(Vector3::new(3 * UNIT, 4 * UNIT, 0), 2 * WINDOW);
    assert_eq!(e.mean(), 5 * UNIT);
    e.correct(Vector3::new(0, 0, UNIT), WINDOW / 2);
    assert_eq!(e.mean(), 3 * UNIT);
    e.correct(Vector3::zero(), WINDOW / 4);
    assert_eq!(e.mean(), 2_250_000_000);
}

#[test]
fn zero_time_step_changes_nothing() {
    let mut e = estimator();
    let raw = Vector3::new(UNIT, UNIT, UNIT);
    assert_eq!(e.correct(raw, 0), raw);
    assert_eq!(e.mean(), 0);
    assert_eq!(e.still(), 0);
    assert_eq!(e.bias(), Vector3::zero());
}

#[test]
fn offset_stays_within_the_threshold() {
    let mut e = GyroOffset::new(1_000_000, 0, UNIT, 1);
    // No settle period and a time constant of one billionth of a second: the
    // offset takes the whole corrected rate at once, up to the threshold.
    let raw = Vector3::new(900_000, -300_000, 0);
    e.correct(raw, TEN_MS);
    assert_eq!(e.bias(), raw);
    let corrected = e.correct(Vector3::new(1_899_999, -300_000, 0), TEN_MS);
    assert_eq!(corrected, Vector3::new(999_999, 0, 0));
    // The offset would follow to 1 899 999; it stops at the threshold.
    assert_eq!(e.bias(), Vector3::new(1_000_000, -300_000, 0));
    // A corrected rate at the threshold is motion: the offset stays.
    let mut f = GyroOffset::new(1_000_000, 0, UNIT, 1);
    f.correct(Vector3::new(1_000_000, 0, 0), TEN_MS);
    assert_eq!(f.bias(), Vector3::zero());
}

#[test]
fn constant_bias_is_removed_over_time() {
    let mut e = estimator();
    let bias = Vector3::new(10_000_000, -20_000_000, 5_000_000);
    let mut previous = bias;
    let mut corrected = bias;
    for _ in 0..15_000 {
        corrected = e.correct(bias, TEN_MS);
        // The corrected rate never grows.
        assert!(corrected.x.abs() <= previous.x.abs());
        assert!(corrected.y.abs() <= previous.y.abs());
        assert!(corrected.z.abs() <= previous.z.abs());
        previous = corrected;
    }
    // What is left is below the rate whose part dt / time constant rounds to
    // zero: 796 billionths of a radian per second.
    assert!(corrected.x.abs() <= 796);
    assert!(corrected.y.abs() <= 796);
    assert!(corrected.z.abs() <= 796);
    assert_eq!(e.bias(), Vector3::new(9_999_205, -19_999_205, 4_999_205));
}

#[test]
fn large_bias_is_never_taken_for_an_offset() {
    let mut e = estimator();
    let raw = Vector3::new(0, 0, 60_000_000);
    for _ in 0..2_000 {
        assert_eq!(e.correct(raw, TEN_MS), raw);
    }
    assert_eq!(e.bias(), Vector3::zero());
    assert_eq!(e.still(), 0);
}
