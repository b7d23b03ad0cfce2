//! A filter for an accelerometer and a gyroscope, with the units of its
//! caller.
//!
//! `Fusion` holds a filter with the standard configuration and the local
//! gravity. It takes rates of rotation in degrees per second with
//! accelerations in multiples of gravity, or rates in radians per second with
//! accelerations in metres per second squared.

use crate::ahrs::{Ahrs, AhrsModel, Reading};
use crate::config::Config;
use crate::fixed::{lemma_product_bound, lemma_trunc_div_bound, LIMIT, UNIT};
use crate::quaternion::{lemma_directions_fit, Quat, DIRECTION_MAX};
use crate::vector::{lemma_ratio_fits, Vec3, Vector3};
use vstd::prelude::*;

verus! {

/// The number pi, in units of ten to the minus fifteen.
pub const PI_SCALED: i64 = 3_141_592_653_589_793;

/// A half turn in degrees, one hundred and eighty, in the same units.
pub const HALF_TURN_SCALED: i64 = 180_000_000_000_000_000;

/// Largest magnitude of a rate of rotation given in degrees per second: fifty
/// thousand.
pub const DEGREE_LIMIT: i64 = 50_000_000_000_000;

/// Largest magnitude of a rate of rotation given in radians per second: eight
/// hundred.
pub const RADIAN_LIMIT: i64 = 800_000_000_000;

/// The vector whose components are the elements of `a`, in order.
pub open spec fn vec_of(a: [i64; 3]) -> Vec3 {
    Vec3 { x: a[0] as int, y: a[1] as int, z: a[2] as int }
}

/// The quaternion whose components are the elements of `a`, in the order w, x,
/// y, z.
pub open spec fn quat_of(a: [i64; 4]) -> Quat {
    Quat { w: a[0] as int, x: a[1] as int, y: a[2] as int, z: a[3] as int }
}

/// A rate in degrees per second, in radians per second.
pub open spec fn to_radians(v: Vec3) -> Vec3 {
    v.ratio(PI_SCALED as int, HALF_TURN_SCALED as int)
}

/// A rate in radians per second, in degrees per second.
pub open spec fn to_degrees(v: Vec3) -> Vec3 {
    v.ratio(HALF_TURN_SCALED as int, PI_SCALED as int)
}

/// An acceleration in metres per second squared, in multiples of `gravity`.
pub open spec fn in_gravities(a: Vec3, gravity: int) -> Vec3 {
    a.ratio(UNIT as int, gravity)
}

/// An acceleration in multiples of `gravity`, in metres per second squared.
pub open spec fn in_metres(a: Vec3, gravity: int) -> Vec3 {
    a.scaled(gravity)
}

/// The state of a `Fusion`, over unbounded integers.
pub struct FusionModel {
    /// The filter.
    pub ahrs: AhrsModel,
    /// The local gravity, in metres per second squared.
    pub gravity: int,
}

impl FusionModel {
    /// A new `Fusion`: the standard filter at the identity orientation.
    pub open spec fn initial(gravity: int) -> FusionModel {
        FusionModel { ahrs: AhrsModel::initial(Config::standard()), gravity }
    }

    /// The filter is well-formed and the gravity is positive and at most
    /// `LIMIT`.
    pub open spec fn wf(self) -> bool {
        self.ahrs.wf() && 0 < self.gravity <= LIMIT
    }

    /// After an update with the rate `gyro` in degrees per second and the
    /// acceleration `accel` in multiples of gravity.
    pub open spec fn updated(self, dt: int, gyro: Vec3, accel: Vec3) -> FusionModel {
        FusionModel {
            ahrs: self.ahrs.step(
                Reading {
                    dt,
                    gyroscope: to_radians(gyro),
                    accelerometer: accel,
                    magnetometer: None,
                },
            ),
            gravity: self.gravity,
        }
    }

    /// After an update with the rate `gyro` in radians per second and the
    /// acceleration `accel` in metres per second squared.
    pub open spec fn updated_ros(self, dt: int, gyro: Vec3, accel: Vec3) -> FusionModel {
        self.updated(dt, to_degrees(gyro), in_gravities(accel, self.gravity))
    }
}

/// A rate within the limit for degrees is within the filter's limit in
/// radians, and a rate within the limit for radians is within the limit for
/// degrees.
pub proof fn lemma_rate_conversions_fit(v: Vec3)
    ensures
        v.fits(DEGREE_LIMIT as int) ==> to_radians(v).fits(LIMIT as int),
        v.fits(RADIAN_LIMIT as int) ==> to_degrees(v).fits(DEGREE_LIMIT as int),
{
    if v.fits(DEGREE_LIMIT as int) {
        lemma_ratio_within(
            v,
            PI_SCALED as int,
            HALF_TURN_SCALED as int,
            DEGREE_LIMIT as int,
            LIMIT as int,
        );
    }
    if v.fits(RADIAN_LIMIT as int) {
        lemma_ratio_within(
            v,
            HALF_TURN_SCALED as int,
            PI_SCALED as int,
            RADIAN_LIMIT as int,
            DEGREE_LIMIT as int,
        );
    }
}

/// An acceleration of at most one thousand times the local gravity is at most
/// `LIMIT` in multiples of gravity.
pub proof fn lemma_metres_fit(a: Vec3, gravity: int)
    requires
        gravity > 0,
        a.fits(1000 * gravity),
    ensures
        in_gravities(a, gravity).fits(LIMIT as int),
{
    lemma_ratio_within(a, UNIT as int, gravity, 1000 * gravity, LIMIT as int);
}

/// Bounds of a vector multiplied by a ratio.
proof fn lemma_ratio_within(v: Vec3, num: int, den: int, bound: int, result: int)
    requires
        v.fits(bound),
        num >= 0,
        den > 0,
        result >= 0,
        bound * num <= result * den,
    ensures
        v.ratio(num, den).fits(result),
{
    lemma_product_bound(v.x, num, bound, num);
    lemma_product_bound(v.y, num, bound, num);
    lemma_product_bound(v.z, num, bound, num);
    lemma_trunc_div_bound(v.x * num, den, result);
    lemma_trunc_div_bound(v.y * num, den, result);
    lemma_trunc_div_bound(v.z * num, den, result);
}

/// An attitude filter for an accelerometer and a gyroscope.
#[derive(Clone, Copy, Debug)]
pub struct Fusion {
    ahrs: Ahrs,
    gravity: i64,
}

impl View for Fusion {
    type V = FusionModel;

    closed spec fn view(&self) -> FusionModel {
        FusionModel { ahrs: self.ahrs@, gravity: self.gravity as int }
    }
}

impl Fusion {
    #[verifier::type_invariant]
    spec fn well_formed(self) -> bool {
        self@.wf()
    }

    /// Whether `new` takes this gravity: it is positive and at most `LIMIT`.
    pub fn takes_gravity(gravity: i64) -> (r: bool)
        ensures
            r == (0 < gravity <= LIMIT),
    {
        0 < gravity && gravity <= LIMIT
    }

    /// Whether `update_no_magnetometer` takes these readings.
    pub fn takes(dt: i64, gyro: [i64; 3], accel: [i64; 3]) -> (r: bool)
        ensures
            r == (0 <= dt <= LIMIT && vec_of(gyro).fits(DEGREE_LIMIT as int) && vec_of(accel).fits(
                LIMIT as int,
            )),
    {
        0 <= dt && dt <= LIMIT && Vector3::from_array(gyro).fits(DEGREE_LIMIT)
            && Vector3::from_array(accel).fits(LIMIT)
    }

    /// Whether `update_no_magnetometer_ros` takes these readings.
    pub fn takes_ros(&self, dt: i64, gyro: [i64; 3], accel: [i64; 3]) -> (r: bool)
        ensures
            r == (0 <= dt <= LIMIT && vec_of(gyro).fits(RADIAN_LIMIT as int) && vec_of(accel).fits(
                1000 * self@.gravity,
            )),
    {
        proof {
            use_type_invariant(self);
        }
        0 <= dt && dt <= LIMIT && Vector3::from_array(gyro).fits(RADIAN_LIMIT)
            && Vector3::from_array(accel).fits(1000 * self.gravity)
    }

    /// A filter at the identity orientation, where the local gravity is
    /// `gravity` metres per second squared: positive, and at most `LIMIT`.
    pub fn new(gravity: i64) -> (r: Fusion)
        requires
            0 < gravity <= LIMIT,
        ensures
            r@ == FusionModel::initial(gravity as int),
            r@.wf(),
    {
        Fusion { ahrs: Ahrs::standard(), gravity }
    }

    /// Takes one set of readings: the time `dt` since the last, in seconds;
    /// the gyroscope's, in degrees per second; the accelerometer's, in
    /// multiples of gravity.
    ///
    /// The time step must not be negative nor exceed `LIMIT`; the rate must not
    /// exceed `DEGREE_LIMIT`, nor the acceleration `LIMIT`.
    pub fn update_no_magnetometer(&mut self, dt: i64, gyro: [i64; 3], accel: [i64; 3])
        requires
            0 <= dt <= LIMIT,
            vec_of(gyro).fits(DEGREE_LIMIT as int),
            vec_of(accel).fits(LIMIT as int),
        ensures
            final(self)@ == old(self)@.updated(dt as int, vec_of(gyro), vec_of(accel)),
            final(self)@.wf(),
    {
        proof {
            use_type_invariant(&*self);
            lemma_rate_conversions_fit(vec_of(gyro));
        }
        let rate: Vector3 = Vector3::from_array(gyro).ratio(PI_SCALED, HALF_TURN_SCALED);
        let mut ahrs: Ahrs = self.ahrs;
        ahrs.update(dt, rate, Vector3::from_array(accel), None);
        *self = Fusion { ahrs, gravity: self.gravity };
    }

    /// Takes one set of readings: the time `dt` since the last, in seconds;
    /// the gyroscope's, in radians per second; the accelerometer's, in metres
    /// per second squared.
    ///
    /// The time step must not be negative nor exceed `LIMIT`; the rate must not
    /// exceed `RADIAN_LIMIT`, nor the acceleration one thousand times the local
    /// gravity.
    pub fn update_no_magnetometer_ros(&mut self, dt: i64, gyro: [i64; 3], accel: [i64; 3])
        requires
            0 <= dt <= LIMIT,
            vec_of(gyro).fits(RADIAN_LIMIT as int),
            vec_of(accel).fits(1000 * old(self)@.gravity),
        ensures
            final(self)@ == old(self)@.updated_ros(dt as int, vec_of(gyro), vec_of(accel)),
            final(self)@.wf(),
    {
        proof {
            use_type_invariant(&*self);
            lemma_rate_conversions_fit(vec_of(gyro));
            lemma_metres_fit(vec_of(accel), self.gravity as int);
        }
        let degrees: Vector3 = Vector3::from_array(gyro).ratio(HALF_TURN_SCALED, PI_SCALED);
        let gravities: Vector3 = Vector3::from_array(accel).ratio(UNIT, self.gravity);
        self.update_no_magnetometer(dt, degrees.to_array(), gravities.to_array());
    }

    /// The orientation of the body in the world, as a quaternion of length one
    /// in the order w, x, y, z.
    pub fn get_quaternion(&self) -> (r: [i64; 4])
        ensures
            quat_of(r) == self@.ahrs.orientation,
            quat_of(r).is_unit(),
    {
        proof {
            use_type_invariant(self);
        }
        self.ahrs.orientation().to_array()
    }

    /// The part of the last measured acceleration that gravity does not
    /// explain, in the body's frame and in multiples of gravity.
    pub fn get_linear_acceleration(&self) -> (r: [i64; 3])
        ensures
            vec_of(r) == self@.ahrs.linear_acceleration(),
    {
        proof {
            use_type_invariant(self);
        }
        self.ahrs.linear_acceleration().to_array()
    }

    /// The part of the last measured acceleration that gravity does not
    /// explain, in the body's frame and in metres per second squared.
    pub fn get_linear_acceleration_ros(&self) -> (r: [i64; 3])
        ensures
            vec_of(r) == in_metres(self@.ahrs.linear_acceleration(), self@.gravity),
    {
        proof {
            use_type_invariant(self);
            lemma_directions_fit(self@.ahrs.orientation);
            lemma_ratio_fits(
                self@.ahrs.linear_acceleration(),
                self.gravity as int,
                UNIT as int,
                LIMIT + DIRECTION_MAX,
                1000,
            );
        }
        let linear: Vector3 = Vector3::from_array(self.get_linear_acceleration());
        linear.scaled(self.gravity).to_array()
    }

    /// The local gravity, in metres per second squared.
    pub fn gravity(&self) -> (r: i64)
        ensures
            r == self@.gravity,
    {
        self.gravity
    }
}

} // verus!
