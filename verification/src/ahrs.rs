//! The attitude and heading filter.
//!
//! Each update takes the gyroscope offset out of the measured rate, turns the
//! orientation by the corrected rate, and then turns it a little further toward
//! agreement with the accelerometer and, where there is one, the magnetometer.
//! A reading whose magnitude is outside its tolerance corrects nothing.

use crate::config::{Config, ConfigError};
use crate::fixed::{
    floor_sqrt, is_floor_sqrt, lemma_floor_sqrt_exists, lemma_floor_sqrt_unique,
    lemma_part_between, lemma_trunc_div_exact, magnitude, mul_div, trunc_div, wide_product, LIMIT,
    OPERAND_MAX, UNIT,
};
use crate::offset::{lemma_offset_step, GyroOffset, OffsetModel};
use crate::quaternion::{
    lemma_directions_fit, lemma_identity_at_rest, lemma_normalized_is_unit,
    lemma_turn_about_third_axis, Quat, Quaternion, DIRECTION_MAX, ROTATION_LIMIT,
};
use crate::vector::{
    lemma_cross_bound, lemma_dot_bound, lemma_length_bound, lemma_normalized_fits,
    lemma_ratio_fits, lemma_square_bound, Vec3, Vector3,
};
use vstd::prelude::*;

verus! {

/// Whether an accelerometer reading is taken for gravity: it is not zero and
/// its magnitude is within `tolerance` of one.
pub open spec fn acceleration_accepted(a: Vec3, tolerance: int) -> bool {
    let low = if tolerance < UNIT {
        UNIT - tolerance
    } else {
        0
    };
    let high = UNIT + tolerance;
    !a.is_zero() && low * low <= a.norm_sq() <= high * high
}

/// Whether a magnetometer reading is taken for the field of the earth: it is
/// not zero and its magnitude is from `low` to `high`.
pub open spec fn field_accepted(m: Vec3, low: int, high: int) -> bool {
    !m.is_zero() && low * low <= m.norm_sq() <= high * high
}

/// The rotation error between a measured direction and the direction that the
/// orientation predicts for it: their vector product, whose length is the sine
/// of the angle between them; beyond a right angle, that product at full
/// length.
pub open spec fn feedback(sensor: Vec3, reference: Vec3) -> Vec3 {
    if sensor.raw_dot(reference) < 0 {
        sensor.cross(reference).normalized()
    } else {
        sensor.cross(reference)
    }
}

/// The rate at which the accelerometer reading `accel` turns the orientation
/// `q`, at the gain `gain`.
pub open spec fn gravity_correction(q: Quat, accel: Vec3, gain: int) -> Vec3 {
    feedback(accel.normalized(), q.gravity()).scaled(gain)
}

/// The rate at which the magnetometer reading `field` turns the orientation
/// `q`, at the gain `gain`. The error between the measured and the predicted
/// west is projected on the predicted vertical, so that the correction turns
/// about the vertical only: it changes the heading and leaves roll and pitch.
pub open spec fn heading_correction(q: Quat, field: Vec3, gain: int) -> Vec3 {
    let up = q.gravity();
    let west = up.cross(field).normalized();
    let error = feedback(west, q.west());
    up.scaled(error.dot(up)).scaled(gain)
}

/// The accelerometer gain during initialization, `elapsed` after
/// construction: it comes down in a straight line from the initial gain to the
/// steady gain over the initialization period.
pub open spec fn ramped_gain(config: Config, elapsed: int) -> int {
    if config.init_period == 0 {
        config.initial_gain as int
    } else {
        config.accel_gain + trunc_div(
            (config.initial_gain - config.accel_gain) * (config.init_period - elapsed),
            config.init_period as int,
        )
    }
}

/// The rotation error is bounded.
pub proof fn lemma_feedback_fits(sensor: Vec3, reference: Vec3)
    requires
        sensor.fits(UNIT as int),
        reference.fits(DIRECTION_MAX as int),
    ensures
        sensor.cross(reference).fits(2 * DIRECTION_MAX),
        feedback(sensor, reference).fits(2 * DIRECTION_MAX),
{
    lemma_cross_bound(sensor, reference, UNIT as int, DIRECTION_MAX as int, 2 * DIRECTION_MAX);
    lemma_normalized_fits(sensor.cross(reference));
}

/// The rate of the accelerometer's correction is bounded.
pub proof fn lemma_gravity_correction_fits(q: Quat, accel: Vec3, gain: int)
    requires
        q.is_unit(),
        0 <= gain <= LIMIT,
    ensures
        gravity_correction(q, accel, gain).fits(ROTATION_LIMIT as int),
{
    lemma_directions_fit(q);
    lemma_normalized_fits(accel);
    lemma_feedback_fits(accel.normalized(), q.gravity());
    lemma_ratio_fits(
        feedback(accel.normalized(), q.gravity()),
        gain,
        UNIT as int,
        2 * DIRECTION_MAX,
        1000,
    );
}

/// The rate of the magnetometer's correction is bounded, and so is every
/// vector on the way to it.
pub proof fn lemma_heading_correction_fits(q: Quat, field: Vec3, gain: int)
    requires
        q.is_unit(),
        field.fits(LIMIT as int),
        0 <= gain <= LIMIT,
    ensures
        q.gravity().cross(field).fits(10 * LIMIT),
        magnitude(
            feedback(q.gravity().cross(field).normalized(), q.west()).dot(q.gravity()),
        ) <= 150 * UNIT,
        q.gravity().scaled(
            feedback(q.gravity().cross(field).normalized(), q.west()).dot(q.gravity()),
        ).fits(750 * UNIT),
        heading_correction(q, field, gain).fits(ROTATION_LIMIT as int),
{
    lemma_directions_fit(q);
    let up = q.gravity();
    lemma_cross_bound(up, field, DIRECTION_MAX as int, LIMIT as int, 10 * LIMIT);
    let west = up.cross(field).normalized();
    lemma_normalized_fits(up.cross(field));
    lemma_feedback_fits(west, q.west());
    let error = feedback(west, q.west());
    lemma_dot_bound(error, up, 2 * DIRECTION_MAX, DIRECTION_MAX as int, 150 * UNIT);
    let s = error.dot(up);
    lemma_ratio_fits(up, s, UNIT as int, DIRECTION_MAX as int, 150);
    lemma_ratio_fits(up.scaled(s), gain, UNIT as int, 750 * UNIT, 1000);
}

/// A direction has no rotation error against itself.
pub proof fn lemma_no_error_against_itself(v: Vec3)
    ensures
        feedback(v, v) == Vec3::zero(),
{
    assert(v.y * v.z - v.z * v.y == 0) by (nonlinear_arith);
    assert(v.z * v.x - v.x * v.z == 0) by (nonlinear_arith);
    assert(v.x * v.y - v.y * v.x == 0) by (nonlinear_arith);
    lemma_trunc_div_exact(0, UNIT as int);
    assert(0int * UNIT == 0);
    assert(v.cross(v) == Vec3::zero());
}

/// Where the accelerometer points along the predicted vertical, it turns the
/// orientation at no rate: an orientation that agrees with the accelerometer
/// is left alone.
pub proof fn lemma_agreement_corrects_nothing(q: Quat, accel: Vec3, gain: int)
    requires
        accel.normalized() == q.gravity(),
    ensures
        gravity_correction(q, accel, gain) == Vec3::zero(),
{
    lemma_no_error_against_itself(q.gravity());
    lemma_trunc_div_exact(0, UNIT as int);
    assert(0int * UNIT == 0);
    assert(0 * gain == 0) by (nonlinear_arith);
}

/// During initialization the gain lies between the steady and the initial
/// gain.
pub proof fn lemma_ramped_gain_between(config: Config, elapsed: int)
    requires
        config.is_valid(),
        0 <= elapsed <= config.init_period,
    ensures
        0 <= ramped_gain(config, elapsed) <= LIMIT,
        config.accel_gain <= config.initial_gain ==> config.accel_gain <= ramped_gain(
            config,
            elapsed,
        ) <= config.initial_gain,
        config.accel_gain >= config.initial_gain ==> config.initial_gain <= ramped_gain(
            config,
            elapsed,
        ) <= config.accel_gain,
{
    if config.init_period != 0 {
        lemma_part_between(
            config.initial_gain - config.accel_gain,
            config.init_period - elapsed,
            config.init_period as int,
        );
    }
}

/// Whether an accelerometer reading is taken for gravity.
pub fn is_acceleration_accepted(a: Vector3, tolerance: i64) -> (r: bool)
    requires
        0 <= tolerance <= LIMIT,
    ensures
        r == acceleration_accepted(a@, tolerance as int),
{
    if a.is_zero() {
        return false;
    }
    let low: i64 = if tolerance < UNIT {
        UNIT - tolerance
    } else {
        0
    };
    let high: i64 = UNIT + tolerance;
    proof {
        lemma_square_bound(low as int, UNIT as int);
        lemma_square_bound(high as int, UNIT + LIMIT);
    }
    let n: u128 = a.norm_sq();
    let low_sq: u128 = wide_product(low, low) as u128;
    let high_sq: u128 = wide_product(high, high) as u128;
    low_sq <= n && n <= high_sq
}

/// Whether a magnetometer reading is taken for the field of the earth.
pub fn is_field_accepted(m: Vector3, low: i64, high: i64) -> (r: bool)
    requires
        0 <= low,
        0 <= high,
    ensures
        r == field_accepted(m@, low as int, high as int),
{
    if m.is_zero() {
        return false;
    }
    proof {
        lemma_square_bound(low as int, i64::MAX as int);
        lemma_square_bound(high as int, i64::MAX as int);
    }
    let n: u128 = m.norm_sq();
    let low_sq: u128 = wide_product(low, low) as u128;
    let high_sq: u128 = wide_product(high, high) as u128;
    low_sq <= n && n <= high_sq
}

/// The rotation error between a measured direction of length one and the
/// direction that the orientation predicts for it.
pub fn rotation_error(sensor: Vector3, reference: Vector3) -> (r: Vector3)
    requires
        sensor@.fits(UNIT as int),
        reference@.fits(DIRECTION_MAX as int),
    ensures
        r@ == feedback(sensor@, reference@),
        r@.fits(2 * DIRECTION_MAX),
{
    proof {
        lemma_feedback_fits(sensor@, reference@);
    }
    let product: Vector3 = sensor.cross(reference);
    if sensor.raw_dot(reference) < 0 {
        product.normalized()
    } else {
        product
    }
}

/// The rate at which an accelerometer reading turns the orientation `q`.
pub fn gravity_rate(q: Quaternion, accel: Vector3, gain: i64) -> (r: Vector3)
    requires
        q@.is_unit(),
        accel@.fits(OPERAND_MAX as int),
        0 <= gain <= LIMIT,
    ensures
        r@ == gravity_correction(q@, accel@, gain as int),
        r@.fits(ROTATION_LIMIT as int),
{
    proof {
        lemma_gravity_correction_fits(q@, accel@, gain as int);
    }
    let error: Vector3 = rotation_error(accel.normalized(), q.gravity());
    error.scaled(gain)
}

/// The rate at which a magnetometer reading turns the orientation `q`.
pub fn heading_rate(q: Quaternion, field: Vector3, gain: i64) -> (r: Vector3)
    requires
        q@.is_unit(),
        field@.fits(LIMIT as int),
        0 <= gain <= LIMIT,
    ensures
        r@ == heading_correction(q@, field@, gain as int),
        r@.fits(ROTATION_LIMIT as int),
{
    proof {
        lemma_heading_correction_fits(q@, field@, gain as int);
    }
    let up: Vector3 = q.gravity();
    let west: Vector3 = up.cross(field).normalized();
    let error: Vector3 = rotation_error(west, q.west());
    let about_vertical: i64 = error.dot(up);
    up.scaled(about_vertical).scaled(gain)
}

/// The accelerometer gain during initialization, `elapsed` after construction.
pub fn initial_gain_at(config: &Config, elapsed: i64) -> (r: i64)
    requires
        config.is_valid(),
        0 <= elapsed <= config.init_period,
    ensures
        r == ramped_gain(*config, elapsed as int),
        0 <= r <= LIMIT,
{
    proof {
        lemma_ramped_gain_between(*config, elapsed as int);
    }
    if config.init_period == 0 {
        config.initial_gain
    } else {
        config.accel_gain + mul_div(
            config.initial_gain - config.accel_gain,
            config.init_period - elapsed,
            config.init_period,
        )
    }
}

/// The two states of a filter.
#[derive(Clone, Copy, Debug, PartialEq, Eq, Structural)]
pub enum Phase {
    /// The initialization period has not passed: the accelerometer corrects at
    /// the ramped gain.
    Initializing,
    /// The initialization period has passed: the accelerometer corrects at the
    /// steady gain.
    Steady,
}

/// One set of sensor readings, over unbounded integers.
pub struct Reading {
    /// Time since the reading before, in seconds.
    pub dt: int,
    /// Rate of rotation, in radians per second.
    pub gyroscope: Vec3,
    /// Acceleration, in multiples of standard gravity.
    pub accelerometer: Vec3,
    /// Magnetic field, where there is a magnetometer.
    pub magnetometer: Option<Vec3>,
}

impl Reading {
    /// The reading is one that a filter takes: the time step is not negative,
    /// and nothing exceeds `LIMIT`.
    pub open spec fn in_range(self) -> bool {
        &&& 0 <= self.dt <= LIMIT
        &&& self.gyroscope.fits(LIMIT as int)
        &&& self.accelerometer.fits(LIMIT as int)
        &&& match self.magnetometer {
            Some(m) => m.fits(LIMIT as int),
            None => true,
        }
    }
}

/// The reading that an update is given.
pub open spec fn reading_of(dt: i64, gyro: Vector3, accel: Vector3, mag: Option<Vector3>) -> Reading {
    Reading {
        dt: dt as int,
        gyroscope: gyro@,
        accelerometer: accel@,
        magnetometer: match mag {
            Some(m) => Some(m@),
            None => None,
        },
    }
}

/// The state of a filter, over unbounded integers.
pub struct AhrsModel {
    /// The parameters, as given at construction.
    pub config: Config,
    /// The gyroscope offset estimator.
    pub offset: OffsetModel,
    /// The orientation of the body in the world.
    pub orientation: Quat,
    /// The accelerometer reading of the last update.
    pub accelerometer: Vec3,
    /// Time since construction; it stops once it has passed the
    /// initialization period.
    pub elapsed: int,
}

impl AhrsModel {
    /// The filter at construction: the identity orientation, no gyroscope
    /// offset, no time elapsed.
    pub open spec fn initial(config: Config) -> AhrsModel {
        AhrsModel {
            config,
            offset: OffsetModel::initial(
                config.stationary_threshold as int,
                config.settle_period as int,
                config.mean_window as int,
                config.offset_time_constant as int,
            ),
            orientation: Quat::identity(),
            accelerometer: Vec3::zero(),
            elapsed: 0,
        }
    }

    /// The configuration is valid, the orientation has length one, and the
    /// rest of the state is within its bounds.
    pub open spec fn wf(self) -> bool {
        &&& self.config.is_valid()
        &&& self.offset.wf()
        &&& self.orientation.is_unit()
        &&& self.accelerometer.fits(LIMIT as int)
        &&& 0 <= self.elapsed <= self.config.init_period + LIMIT
    }

    /// The state of the filter: steady once the time since construction
    /// exceeds the initialization period.
    pub open spec fn phase(self) -> Phase {
        if self.elapsed > self.config.init_period {
            Phase::Steady
        } else {
            Phase::Initializing
        }
    }

    /// Time since construction after a step of `dt`.
    pub open spec fn next_elapsed(self, dt: int) -> int {
        if self.elapsed > self.config.init_period {
            self.elapsed
        } else {
            self.elapsed + dt
        }
    }

    /// The accelerometer gain of an update that comes `dt` after the one
    /// before.
    pub open spec fn gain(self, dt: int) -> int {
        if self.next_elapsed(dt) > self.config.init_period {
            self.config.accel_gain as int
        } else {
            ramped_gain(self.config, self.next_elapsed(dt))
        }
    }

    /// The orientation after the gyroscope's part of an update: turned by the
    /// corrected rate.
    pub open spec fn integrated(self, r: Reading) -> Quat {
        self.orientation.advanced(self.offset.corrected(r.gyroscope), r.dt)
    }

    /// The orientation after the accelerometer's part of an update.
    pub open spec fn leveled(self, r: Reading) -> Quat {
        let q = self.integrated(r);
        if acceleration_accepted(r.accelerometer, self.config.accel_rejection as int) {
            q.advanced(gravity_correction(q, r.accelerometer, self.gain(r.dt)), r.dt)
        } else {
            q
        }
    }

    /// The orientation after the magnetometer's part of an update.
    pub open spec fn headed(self, r: Reading) -> Quat {
        let q = self.leveled(r);
        match r.magnetometer {
            Some(m) => if field_accepted(
                m,
                self.config.mag_min as int,
                self.config.mag_max as int,
            ) {
                q.advanced(heading_correction(q, m, self.config.mag_gain as int), r.dt)
            } else {
                q
            },
            None => q,
        }
    }

    /// The filter after an update with the reading `r`.
    pub open spec fn step(self, r: Reading) -> AhrsModel {
        AhrsModel {
            config: self.config,
            offset: self.offset.next(r.gyroscope, r.dt),
            orientation: self.headed(r),
            accelerometer: r.accelerometer,
            elapsed: self.next_elapsed(r.dt),
        }
    }

    /// The filter after the updates with the readings `rs`, in order.
    pub open spec fn run(self, rs: Seq<Reading>) -> AhrsModel
        decreases rs.len(),
    {
        if rs.len() == 0 {
            self
        } else {
            self.run(rs.drop_last()).step(rs.last())
        }
    }

    /// The part of the measured acceleration that gravity does not explain, in
    /// the body's frame.
    pub open spec fn linear_acceleration(self) -> Vec3 {
        self.accelerometer.minus(self.orientation.gravity())
    }
}

/// An update keeps the filter well-formed: in particular the orientation has
/// length one after it as before.
pub proof fn lemma_step_keeps_wf(s: AhrsModel, r: Reading)
    requires
        s.wf(),
        r.in_range(),
    ensures
        s.step(r).wf(),
        s.integrated(r).is_unit(),
        s.leveled(r).is_unit(),
        s.headed(r).is_unit(),
        0 <= s.gain(r.dt) <= LIMIT,
{
    lemma_offset_step(s.offset, r.gyroscope, r.dt);
    let rate = s.offset.corrected(r.gyroscope);
    let sum = s.orientation.plus(s.orientation.times_vector(rate.ratio(r.dt, 2 * UNIT)));
    lemma_normalized_is_unit(sum);
    let q = s.integrated(r);
    if s.next_elapsed(r.dt) <= s.config.init_period {
        lemma_ramped_gain_between(s.config, s.next_elapsed(r.dt));
    }
    if acceleration_accepted(r.accelerometer, s.config.accel_rejection as int) {
        let c = gravity_correction(q, r.accelerometer, s.gain(r.dt));
        lemma_normalized_is_unit(q.plus(q.times_vector(c.ratio(r.dt, 2 * UNIT))));
    }
    let l = s.leveled(r);
    match r.magnetometer {
        Some(m) => {
            let c = heading_correction(l, m, s.config.mag_gain as int);
            lemma_normalized_is_unit(l.plus(l.times_vector(c.ratio(r.dt, 2 * UNIT))));
        },
        None => {},
    }
}

/// After any sequence of updates the orientation has length one, up to the
/// rounding of the format: its squared norm is within `NORM_TOLERANCE` of
/// `UNIT * UNIT`.
pub proof fn lemma_orientation_stays_unit(s: AhrsModel, rs: Seq<Reading>)
    requires
        s.wf(),
        forall|i: int| 0 <= i < rs.len() ==> (#[trigger] rs[i]).in_range(),
    ensures
        s.run(rs).wf(),
        s.run(rs).orientation.is_unit(),
    decreases rs.len(),
{
    if rs.len() > 0 {
        lemma_orientation_stays_unit(s, rs.drop_last());
        lemma_step_keeps_wf(s.run(rs.drop_last()), rs.last());
    }
}

/// The configuration of a filter never changes.
pub proof fn lemma_configuration_is_kept(s: AhrsModel, rs: Seq<Reading>)
    ensures
        s.run(rs).config == s.config,
    decreases rs.len(),
{
    if rs.len() > 0 {
        lemma_configuration_is_kept(s, rs.drop_last());
    }
}

/// While the same reading is repeated, the offset estimator of the filter sees
/// the same rate held: what is proved of a held rate holds of the rate that
/// the filter integrates.
pub proof fn lemma_offset_sees_held_rate(s: AhrsModel, r: Reading, n: nat)
    ensures
        s.run(Seq::new(n, |i: int| r)).offset == s.offset.held(r.gyroscope, r.dt, n),
    decreases n,
{
    if n > 0 {
        let rs = Seq::new(n, |i: int| r);
        let before = (n - 1) as nat;
        assert(rs.drop_last() =~= Seq::new(before, |i: int| r));
        assert(rs.last() == r);
        lemma_offset_sees_held_rate(s, r, before);
    }
}

/// An accelerometer reading outside the tolerance corrects nothing: without a
/// magnetometer the update leaves the orientation where the gyroscope alone
/// takes it.
pub proof fn lemma_rejected_acceleration_corrects_nothing(s: AhrsModel, r: Reading)
    requires
        !acceleration_accepted(r.accelerometer, s.config.accel_rejection as int),
        r.magnetometer is None,
    ensures
        s.step(r).orientation == s.orientation.advanced(s.offset.corrected(r.gyroscope), r.dt),
{
}

/// A magnetometer reading outside the accepted magnitudes corrects nothing:
/// the update ends as it would without a magnetometer.
pub proof fn lemma_rejected_field_corrects_nothing(s: AhrsModel, r: Reading, m: Vec3)
    requires
        r.magnetometer == Some(m),
        !field_accepted(m, s.config.mag_min as int, s.config.mag_max as int),
    ensures
        s.step(r) == s.step(
            Reading {
                dt: r.dt,
                gyroscope: r.gyroscope,
                accelerometer: r.accelerometer,
                magnetometer: None,
            },
        ),
{
}

/// A reading longer than one plus the tolerance is not taken for gravity.
pub proof fn lemma_strong_acceleration_rejected(a: Vec3, tolerance: int)
    requires
        tolerance >= 0,
        a.norm_sq() > (UNIT + tolerance) * (UNIT + tolerance),
    ensures
        !acceleration_accepted(a, tolerance),
{
}

/// A body at rest and level is a rest point of the filter: at the identity
/// orientation, with no gyroscope offset, a reading of no rotation and of
/// gravity along the third axis leaves the orientation at the identity.
pub proof fn lemma_level_rest_is_stable(s: AhrsModel, dt: int, weight: int)
    requires
        s.orientation == Quat::identity(),
        s.offset.bias == Vec3::zero(),
        weight > 0,
    ensures
        s.step(
            Reading {
                dt,
                gyroscope: Vec3::zero(),
                accelerometer: Vec3 { x: 0, y: 0, z: weight },
                magnetometer: None,
            },
        ).orientation == Quat::identity(),
{
    let accel = Vec3 { x: 0, y: 0, z: weight };
    let r = Reading { dt, gyroscope: Vec3::zero(), accelerometer: accel, magnetometer: None };
    lemma_identity_at_rest(s.offset.corrected(r.gyroscope), dt);
    assert(s.integrated(r) == Quat::identity());
    // The reading normalizes to the third axis, which is the predicted vertical.
    let q = Quat::identity();
    assert(q.gravity() == (Vec3 { x: 0, y: 0, z: UNIT as int })) by {
        lemma_linear_acceleration_at_identity(
            AhrsModel {
                config: s.config,
                offset: s.offset,
                orientation: q,
                accelerometer: Vec3::zero(),
                elapsed: s.elapsed,
            },
        );
    }
    assert(accel.norm_sq() == weight * weight) by (nonlinear_arith)
        requires
            accel.norm_sq() == accel.x * accel.x + accel.y * accel.y + accel.z * accel.z,
            accel.x == 0,
            accel.y == 0,
            accel.z == weight,
    ;
    assert(is_floor_sqrt(weight * weight, weight)) by (nonlinear_arith)
        requires
            weight > 0,
    ;
    lemma_floor_sqrt_exists(weight * weight);
    lemma_floor_sqrt_unique(weight * weight, weight, floor_sqrt(weight * weight));
    lemma_trunc_div_exact(UNIT as int, weight);
    lemma_trunc_div_exact(0, weight);
    assert(weight * UNIT == UNIT * weight) by (nonlinear_arith);
    assert(0 * weight == 0 && 0int * UNIT == 0);
    assert(accel.normalized() == q.gravity());
    lemma_agreement_corrects_nothing(q, accel, s.gain(dt));
    lemma_identity_at_rest(Vec3::zero(), dt);
}

/// A level body that turns about the vertical is followed about the vertical:
/// while the gyroscope reports a rate about the third axis only and the
/// accelerometer points up along it, an orientation about the third axis stays
/// about the third axis, and the offset stays along it.
pub proof fn lemma_level_turn_stays_level(s: AhrsModel, r: Reading)
    requires
        s.wf(),
        s.orientation.x == 0 && s.orientation.y == 0,
        s.offset.bias.x == 0 && s.offset.bias.y == 0,
        r.gyroscope.x == 0 && r.gyroscope.y == 0,
        r.accelerometer.x == 0 && r.accelerometer.y == 0,
        r.magnetometer is None,
    ensures
        s.step(r).orientation.x == 0 && s.step(r).orientation.y == 0,
        s.step(r).offset.bias.x == 0 && s.step(r).offset.bias.y == 0,
{
    let rate = s.offset.corrected(r.gyroscope);
    lemma_turn_about_third_axis(s.orientation, rate, r.dt);
    let q = s.integrated(r);
    // The predicted vertical and the reading are both along the third axis,
    // so their vector product is zero.
    lemma_trunc_div_exact(0, UNIT as int);
    assert(0int * UNIT == 0);
    assert(q.x * q.z == 0 && q.w * q.y == 0 && q.y * q.z == 0 && q.w * q.x == 0)
        by (nonlinear_arith)
        requires
            q.x == 0,
            q.y == 0,
    ;
    let up = q.gravity();
    assert(up.x == 0 && up.y == 0);
    let a = r.accelerometer.normalized();
    assert(a.x == 0 && a.y == 0) by {
        if !r.accelerometer.is_zero() {
            let n = r.accelerometer.length();
            lemma_length_bound(r.accelerometer, magnitude(r.accelerometer.z));
            crate::vector::lemma_norm_sq_positive(r.accelerometer);
            assert(n > 0) by {
                if n == 0 {
                    assert((n + 1) * (n + 1) == 1) by (nonlinear_arith)
                        requires
                            n == 0,
                    ;
                }
            }
            lemma_trunc_div_exact(0, n);
            assert(0 * n == 0 && 0int * UNIT == 0);
        }
    }
    assert(a.y * up.z == 0 && a.z * up.y == 0 && a.z * up.x == 0 && a.x * up.z == 0 && a.x * up.y
        == 0 && a.y * up.x == 0) by (nonlinear_arith)
        requires
            a.x == 0,
            a.y == 0,
            up.x == 0,
            up.y == 0,
    ;
    assert(a.cross(up) == Vec3::zero());
    assert(feedback(a, up) == Vec3::zero());
    let gain = s.gain(r.dt);
    assert(0 * gain == 0) by (nonlinear_arith);
    assert(gravity_correction(q, r.accelerometer, gain) == Vec3::zero());
    lemma_turn_about_third_axis(q, Vec3::zero(), r.dt);
    // The offset moves along the third axis only.
    let k = crate::fixed::lesser(r.dt, s.offset.time_constant);
    assert(rate.x * k == 0 && rate.y * k == 0) by (nonlinear_arith)
        requires
            rate.x == 0,
            rate.y == 0,
    ;
    lemma_trunc_div_exact(0, s.offset.time_constant);
    assert(0 * s.offset.time_constant == 0);
}

/// The filter never leaves the steady state, and it enters it exactly when
/// the time since construction comes to exceed the initialization period.
pub proof fn lemma_phase_is_one_way(s: AhrsModel, r: Reading)
    requires
        s.wf(),
        r.in_range(),
    ensures
        s.phase() == Phase::Steady ==> s.step(r).phase() == Phase::Steady,
        s.phase() == Phase::Initializing ==> (s.step(r).phase() == Phase::Steady <==> s.elapsed
            + r.dt > s.config.init_period),
        s.step(r).elapsed >= s.elapsed,
{
}

/// At the identity orientation the predicted vertical is the third axis, so
/// the linear acceleration is the reading less one along that axis.
pub proof fn lemma_linear_acceleration_at_identity(s: AhrsModel)
    requires
        s.orientation == Quat::identity(),
    ensures
        s.linear_acceleration() == (Vec3 {
            x: s.accelerometer.x,
            y: s.accelerometer.y,
            z: s.accelerometer.z - UNIT,
        }),
{
    lemma_trunc_div_exact(UNIT as int, UNIT as int);
    lemma_trunc_div_exact(0, UNIT as int);
    let q = Quat::identity();
    assert(q.w * q.w == UNIT * UNIT) by (nonlinear_arith)
        requires
            q.w == UNIT,
    ;
    assert(q.x * q.z == 0 && q.w * q.y == 0 && q.y * q.z == 0 && q.w * q.x == 0 && q.x * q.x == 0
        && q.y * q.y == 0 && q.z * q.z == 0) by (nonlinear_arith)
        requires
            q.x == 0,
            q.y == 0,
            q.z == 0,
    ;
    assert(0int * UNIT == 0);
}

/// An attitude and heading filter.
#[derive(Clone, Copy, Debug)]
pub struct Ahrs {
    config: Config,
    offset: GyroOffset,
    orientation: Quaternion,
    accelerometer: Vector3,
    elapsed: i64,
}

impl View for Ahrs {
    type V = AhrsModel;

    closed spec fn view(&self) -> AhrsModel {
        AhrsModel {
            config: self.config,
            offset: self.offset@,
            orientation: self.orientation@,
            accelerometer: self.accelerometer@,
            elapsed: self.elapsed as int,
        }
    }
}

impl Ahrs {
    #[verifier::type_invariant]
    spec fn well_formed(self) -> bool {
        self@.wf()
    }

    /// A filter with the given configuration, at the identity orientation; or
    /// the first fault of the configuration.
    pub fn new(config: Config) -> (r: Result<Ahrs, ConfigError>)
        ensures
            match r {
                Ok(a) => config.fault() is None && a@ == AhrsModel::initial(config) && a@.wf(),
                Err(e) => config.fault() == Some(e),
            },
    {
        match config.check() {
            Err(e) => Err(e),
            Ok(_) => Ok(Ahrs::with_valid(config)),
        }
    }

    /// A filter with the standard configuration, at the identity orientation.
    pub fn standard() -> (r: Ahrs)
        ensures
            r@ == AhrsModel::initial(Config::standard()),
            r@.wf(),
    {
        Ahrs::with_valid(Config::default())
    }

    fn with_valid(config: Config) -> (r: Ahrs)
        requires
            config.is_valid(),
        ensures
            r@ == AhrsModel::initial(config),
            r@.wf(),
    {
        Ahrs {
            config,
            offset: GyroOffset::new(
                config.stationary_threshold,
                config.settle_period,
                config.mean_window,
                config.offset_time_constant,
            ),
            orientation: Quaternion::identity(),
            accelerometer: Vector3::zero(),
            elapsed: 0,
        }
    }

    /// Whether `update` takes these readings: the time step is not negative,
    /// and nothing exceeds `LIMIT`.
    pub fn takes(dt: i64, gyro: Vector3, accel: Vector3, mag: Option<Vector3>) -> (r: bool)
        ensures
            r == reading_of(dt, gyro, accel, mag).in_range(),
    {
        let field_fits: bool = match mag {
            Some(m) => m.fits(LIMIT),
            None => true,
        };
        0 <= dt && dt <= LIMIT && gyro.fits(LIMIT) && accel.fits(LIMIT) && field_fits
    }

    /// Takes one set of readings: the time `dt` since the last, in seconds; the
    /// gyroscope's, in radians per second; the accelerometer's, in multiples
    /// of standard gravity; and the magnetometer's, if there is one.
    ///
    /// The time step must not be negative, and nothing may exceed `LIMIT`.
    pub fn update(&mut self, dt: i64, gyro: Vector3, accel: Vector3, mag: Option<Vector3>)
        requires
            reading_of(dt, gyro, accel, mag).in_range(),
        ensures
            final(self)@ == old(self)@.step(reading_of(dt, gyro, accel, mag)),
            final(self)@.wf(),
    {
        proof {
            use_type_invariant(&*self);
            lemma_step_keeps_wf(self@, reading_of(dt, gyro, accel, mag));
        }
        let mut offset: GyroOffset = self.offset;
        let rate: Vector3 = offset.correct(gyro, dt);
        let elapsed: i64 = if self.elapsed > self.config.init_period {
            self.elapsed
        } else {
            self.elapsed + dt
        };
        let gain: i64 = if elapsed > self.config.init_period {
            self.config.accel_gain
        } else {
            initial_gain_at(&self.config, elapsed)
        };
        let mut q: Quaternion = self.orientation.advanced(rate, dt);
        if is_acceleration_accepted(accel, self.config.accel_rejection) {
            q = q.advanced(gravity_rate(q, accel, gain), dt);
        }
        match mag {
            Some(m) => {
                if is_field_accepted(m, self.config.mag_min, self.config.mag_max) {
                    q = q.advanced(heading_rate(q, m, self.config.mag_gain), dt);
                }
            },
            None => {},
        }
        *self = Ahrs {
            config: self.config,
            offset,
            orientation: q,
            accelerometer: accel,
            elapsed,
        };
    }

    /// The orientation of the body in the world, as a quaternion of length one.
    pub fn orientation(&self) -> (r: Quaternion)
        ensures
            r@ == self@.orientation,
            r@.is_unit(),
    {
        proof {
            use_type_invariant(self);
        }
        self.orientation
    }

    /// The part of the last measured acceleration that gravity does not
    /// explain, in the body's frame and in multiples of standard gravity.
    pub fn linear_acceleration(&self) -> (r: Vector3)
        ensures
            r@ == self@.linear_acceleration(),
            r@.fits(LIMIT + DIRECTION_MAX),
    {
        proof {
            use_type_invariant(self);
            lemma_directions_fit(self.orientation@);
        }
        self.accelerometer.minus(self.orientation.gravity())
    }

    /// The state of the filter.
    pub fn phase(&self) -> (r: Phase)
        ensures
            r == self@.phase(),
    {
        if self.elapsed > self.config.init_period {
            Phase::Steady
        } else {
            Phase::Initializing
        }
    }

    /// The configuration that the filter was made with.
    pub fn config(&self) -> (r: Config)
        ensures
            r == self@.config,
    {
        self.config
    }

    /// The estimated offset of the gyroscope, in radians per second.
    pub fn gyroscope_offset(&self) -> (r: Vector3)
        ensures
            r@ == self@.offset.bias,
    {
        self.offset.bias()
    }

    /// Time since construction, in seconds; it stops once it has passed the
    /// initialization period.
    pub fn elapsed(&self) -> (r: i64)
        ensures
            r == self@.elapsed,
    {
        self.elapsed
    }
}

} // verus!
