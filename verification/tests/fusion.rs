use fusion_ahrs::ahrs::Ahrs;
use fusion_ahrs::fixed::{LIMIT, UNIT};
use fusion_ahrs::fusion::{
    Fusion, DEGREE_LIMIT, HALF_TURN_SCALED, PI_SCALED, RADIAN_LIMIT,
};
use fusion_ahrs::quaternion::NORM_TOLERANCE;
use fusion_ahrs::vector::Vector3;

const GRAVITY: i64 = 9_810_000_000;
const TEN_MS: i64 = 10_000_000;

fn norm_error(q: [i64; 4]) -> i128 {
    let n: i128 = q.iter().map(|&c| (c as i128) * (c as i128)).sum();
    (n - (UNIT as i128) * (UNIT as i128)).abs()
}

#[test]
fn linking() {
    let mut fusion = Fusion::new(9_810_000_000);
    fusion.update_no_magnetometer(10_000_000, [0, 0, 0], [0, 0, 1_000_000_000]);
    let _ = fusion.get_quaternion();
}

#[test]
fn conversion_constants() {
    assert_eq!(PI_SCALED, 3_141_592_653_589_793);
    assert_eq!(HALF_TURN_SCALED, 180 * 1_000_000_000_000_000);
    assert_eq!(DEGREE_LIMIT, 50_000 * UNIT);
    assert_eq!(RADIAN_LIMIT, 800 * UNIT);
}

#[test]
fn new_fusion_is_at_the_identity() {
    let f = Fusion::new(GRAVITY);
    assert_eq!(f.get_quaternion(), [UNIT, 0, 0, 0]);
    assert_eq!(f.get_linear_acceleration(), [0, 0, -UNIT]);
    assert_eq!(f.get_linear_acceleration_ros(), [0, 0, -GRAVITY]);
    assert_eq!(f.gravity(), GRAVITY);
}

#[test]
fn still_and_level_stays_at_the_identity() {
    let mut f = Fusion::new(GRAVITY);
    for _ in 0..100 {
        f.update_no_magnetometer(TEN_MS, [0, 0, 0], [0, 0, UNIT]);
        assert_eq!(f.get_quaternion(), [UNIT, 0, 0, 0]);
        assert_eq!(f.get_linear_acceleration(), [0, 0, 0]);
    }
}

#[test]
fn degrees_are_converted_to_radians() {
    let mut f = Fusion::new(GRAVITY);
    let mut a = Ahrs::standard();
    f.update_no_magnetometer(TEN_MS, [90 * UNIT, -45 * UNIT, UNIT], [0, 0, 5 * UNIT]);
    a.update(
        TEN_MS,
        Vector3::new(1_570_796_326, -785_398_163, 17_453_292),
        Vector3::new(0, 0, 5 * UNIT),
        None,
    );
    assert_eq!(f.get_quaternion(), a.orientation().to_array());
    assert!(f.get_quaternion() != [UNIT, 0, 0, 0]);
}

#[test]
fn a_quarter_turn_per_second_for_ten_milliseconds() {
    let mut f = Fusion::new(GRAVITY);
    f.update_no_magnetometer(TEN_MS, [90 * UNIT, 0, 0], [0, 0, UNIT]);
    assert_eq!(f.get_quaternion(), [999_975_000, 7_070_898, 0, 0]);
    assert_eq!(f.get_linear_acceleration(), [0, -14_141_442, 99_997]);
}

#[test]
fn radians_and_metres_are_converted() {
    let mut ros = Fusion::new(GRAVITY);
    let mut plain = Fusion::new(GRAVITY);
    ros.update_no_magnetometer_ros(
        TEN_MS,
        [100_000_000, -200_000_000, 300_000_000],
        [1_000_000_000, -2_000_000_000, 9_810_000_001],
    );
    plain.update_no_magnetometer(
        TEN_MS,
        [5_729_577_951, -11_459_155_902, 17_188_733_853],
        [101_936_799, -203_873_598, 1_000_000_000],
    );
    assert_eq!(ros.get_quaternion(), plain.get_quaternion());
    assert_eq!(ros.get_quaternion(), [999_936_989, -9_447_857, -5_870_942, 1_512_287]);
    assert_eq!(ros.get_linear_acceleration(), [90_224_231, -184_961_318, 247_461]);
    assert_eq!(ros.get_linear_acceleration_ros(), [885_099_706, -1_814_470_529, 2_427_592]);
}

#[test]
fn gravity_in_metres_is_one_in_multiples_of_gravity() {
    let mut ros = Fusion::new(GRAVITY);
    ros.update_no_magnetometer_ros(
        TEN_MS,
        [100_000_000, -200_000_000, 300_000_000],
        [0, 0, GRAVITY],
    );
    assert_eq!(ros.get_quaternion(), [999_998_368, 450_157, -900_314, 1_499_995]);
    assert_eq!(ros.get_linear_acceleration(), [-1_801_975, -897_611, 2_028]);
    assert_eq!(ros.get_linear_acceleration_ros(), [-17_677_374, -8_805_563, 19_894]);
}

#[test]
fn linear_acceleration_is_the_reading_less_gravity() {
    let mut f = Fusion::new(GRAVITY);
    f.update_no_magnetometer(TEN_MS, [0, 0, 0], [0, 0, 1_200_000_000]);
    assert_eq!(f.get_quaternion(), [UNIT, 0, 0, 0]);
    assert_eq!(f.get_linear_acceleration(), [0, 0, 200_000_000]);
    assert_eq!(f.get_linear_acceleration_ros(), [0, 0, 1_962_000_000]);
}

#[test]
fn quaternion_has_length_one_after_every_update() {
    let mut f = Fusion::new(GRAVITY);
    let mut k: i64 = 1;
    for i in 0..2_000 {
        k = (k * 48_271) % 2_147_483_647;
        let gyro = [k % DEGREE_LIMIT, -(k % 1_000) * UNIT, (i % 7) * UNIT];
        let accel = [(k % 3) * UNIT / 2, (k % 5) * UNIT / 4, UNIT];
        f.update_no_magnetometer(TEN_MS, gyro, accel);
        assert!(norm_error(f.get_quaternion()) <= NORM_TOLERANCE as i128);
    }
}

#[test]
fn largest_readings_are_taken() {
    let mut f = Fusion::new(LIMIT);
    f.update_no_magnetometer(LIMIT, [DEGREE_LIMIT, -DEGREE_LIMIT, DEGREE_LIMIT], [LIMIT, -LIMIT, LIMIT]);
    assert!(norm_error(f.get_quaternion()) <= NORM_TOLERANCE as i128);
    f.update_no_magnetometer_ros(
        LIMIT,
        [RADIAN_LIMIT, -RADIAN_LIMIT, RADIAN_LIMIT],
        [LIMIT, -LIMIT, LIMIT],
    );
    assert!(norm_error(f.get_quaternion()) <= NORM_TOLERANCE as i128);
    assert_eq!(f.get_linear_acceleration()[0], UNIT - Vector3::from_array(gravity_of(&f)).x);
    let mut small = Fusion::new(1);
    small.update_no_magnetometer_ros(TEN_MS, [0, 0, 0], [0, 0, 1_000]);
    assert_eq!(small.get_linear_acceleration(), [0, 0, LIMIT - UNIT]);
    assert_eq!(small.get_linear_acceleration_ros(), [0, 0, 999]);
}

fn gravity_of(f: &Fusion) -> [i64; 3] {
    let q = f.get_quaternion();
    fusion_ahrs::quaternion::Quaternion::new(q[0], q[1], q[2], q[3]).gravity().to_array()
}

#[test]
fn one_fusion_does_not_disturb_the_next() {
    {
        let mut first = Fusion::new(GRAVITY);
        for _ in 0..200 {
            first.update_no_magnetometer(TEN_MS, [100 * UNIT, 50 * UNIT, -30 * UNIT], [0, 0, UNIT]);
        }
        assert!(first.get_quaternion() != [UNIT, 0, 0, 0]);
    }
    let mut second = Fusion::new(GRAVITY);
    assert_eq!(second.get_quaternion(), [UNIT, 0, 0, 0]);
    second.update_no_magnetometer(TEN_MS, [90 * UNIT, 0, 0], [0, 0, UNIT]);
    assert_eq!(second.get_quaternion(), [999_975_000, 7_070_898, 0, 0]);
}

#[test]
fn which_readings_are_taken() {
    assert!(Fusion::takes_gravity(1));
    assert!(Fusion::takes_gravity(LIMIT));
    assert!(!Fusion::takes_gravity(0));
    assert!(!Fusion::takes_gravity(-GRAVITY));
    assert!(!Fusion::takes_gravity(LIMIT + 1));
    let f = Fusion::new(GRAVITY);
    let none = [0, 0, 0];
    assert!(Fusion::takes(0, none, none));
    assert!(Fusion::takes(LIMIT, [DEGREE_LIMIT, -DEGREE_LIMIT, 0], [LIMIT, 0, -LIMIT]));
    assert!(!Fusion::takes(-1, none, none));
    assert!(!Fusion::takes(LIMIT + 1, none, none));
    assert!(!Fusion::takes(0, [0, DEGREE_LIMIT + 1, 0], none));
    assert!(!Fusion::takes(0, none, [0, 0, -LIMIT - 1]));
    assert!(!Fusion::takes(0, [i64::MIN, 0, 0], none));
    assert!(f.takes_ros(0, none, none));
    assert!(f.takes_ros(LIMIT, [RADIAN_LIMIT, 0, -RADIAN_LIMIT], [1000 * GRAVITY, 0, -1000 * GRAVITY]));
    assert!(!f.takes_ros(0, [RADIAN_LIMIT + 1, 0, 0], none));
    assert!(!f.takes_ros(0, none, [0, 1000 * GRAVITY + 1, 0]));
    assert!(!f.takes_ros(-1, none, none));
}
