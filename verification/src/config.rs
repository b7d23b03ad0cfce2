//! Filter configuration and its validation.

use crate::fixed::LIMIT;
use vstd::prelude::*;

verus! {

/// Why a configuration is refused.
#[derive(Clone, Copy, Debug, PartialEq, Eq, Structural)]
pub enum ConfigError {
    /// A gain is negative.
    NegativeGain,
    /// A tolerance admits nothing: the acceleration tolerance or the
    /// stationary threshold is not positive, or the accepted magnetic field
    /// magnitudes do not form a range.
    EmptyTolerance,
    /// A period is negative, or a time constant is not positive.
    InvalidPeriod,
    /// A value exceeds `LIMIT`.
    OutOfRange,
}

/// The parameters of a filter. All are fixed-point scalars; gains are per
/// second, periods in seconds, rates in radians per second, accelerations in
/// multiples of standard gravity.
#[derive(Clone, Copy, Debug, PartialEq, Eq, Structural)]
pub struct Config {
    /// How strongly the accelerometer corrects the orientation once the filter
    /// is steady.
    pub accel_gain: i64,
    /// How strongly the magnetometer corrects the heading.
    pub mag_gain: i64,
    /// The accelerometer gain at construction, from which the gain comes down
    /// to `accel_gain` during the initialization period.
    pub initial_gain: i64,
    /// Largest accepted distance of the accelerometer's magnitude from one.
    pub accel_rejection: i64,
    /// Smallest accepted magnitude of the magnetic field.
    pub mag_min: i64,
    /// Largest accepted magnitude of the magnetic field.
    pub mag_max: i64,
    /// Length of the initialization period.
    pub init_period: i64,
    /// Mean rate of rotation below which the body counts as stationary.
    pub stationary_threshold: i64,
    /// Time the body must have been stationary before the gyroscope offset is
    /// adjusted.
    pub settle_period: i64,
    /// Time constant of the running mean of the rate of rotation.
    pub mean_window: i64,
    /// Time constant with which the gyroscope offset follows the observed rate.
    pub offset_time_constant: i64,
}

impl Config {
    /// A gain is negative.
    pub open spec fn has_negative_gain(self) -> bool {
        self.accel_gain < 0 || self.mag_gain < 0 || self.initial_gain < 0
    }

    /// A tolerance admits nothing.
    pub open spec fn has_empty_tolerance(self) -> bool {
        self.accel_rejection <= 0 || self.stationary_threshold <= 0 || self.mag_min < 0
            || self.mag_min >= self.mag_max
    }

    /// A period is negative, or a time constant is not positive.
    pub open spec fn has_invalid_period(self) -> bool {
        self.init_period < 0 || self.settle_period < 0 || self.mean_window <= 0
            || self.offset_time_constant <= 0
    }

    /// A value exceeds `LIMIT`.
    pub open spec fn is_out_of_range(self) -> bool {
        self.accel_gain > LIMIT || self.mag_gain > LIMIT || self.initial_gain > LIMIT
            || self.accel_rejection > LIMIT || self.mag_max > LIMIT || self.init_period > LIMIT
            || self.stationary_threshold > LIMIT || self.settle_period > LIMIT || self.mean_window
            > LIMIT || self.offset_time_constant > LIMIT
    }

    /// The first fault of the configuration, if it has one.
    pub open spec fn fault(self) -> Option<ConfigError> {
        if self.has_negative_gain() {
            Some(ConfigError::NegativeGain)
        } else if self.has_empty_tolerance() {
            Some(ConfigError::EmptyTolerance)
        } else if self.has_invalid_period() {
            Some(ConfigError::InvalidPeriod)
        } else if self.is_out_of_range() {
            Some(ConfigError::OutOfRange)
        } else {
            None
        }
    }

    /// The configuration has no fault.
    pub open spec fn is_valid(self) -> bool {
        self.fault() is None
    }

    /// The configuration of a filter that is given none: a steady gain of one
    /// half after three seconds that start at ten, accelerations accepted within
    /// a tenth of standard gravity, every magnetic field accepted, and a
    /// gyroscope offset that follows with a time constant of about eight seconds
    /// once the mean rate has been below three degrees per second for five
    /// seconds.
    pub open spec fn standard() -> Config {
        Config {
            accel_gain: 500_000_000,
            mag_gain: 500_000_000,
            initial_gain: 10_000_000_000,
            accel_rejection: 100_000_000,
            mag_min: 0,
            mag_max: 1_000_000_000_000,
            init_period: 3_000_000_000,
            stationary_threshold: 52_359_878,
            settle_period: 5_000_000_000,
            mean_window: 1_000_000_000,
            offset_time_constant: 7_957_747_155,
        }
    }

    /// Examines the configuration: `Ok` if it has no fault, else its first
    /// fault.
    pub fn check(&self) -> (r: Result<(), ConfigError>)
        ensures
            r == match self.fault() {
                Some(e) => Err::<(), ConfigError>(e),
                None => Ok::<(), ConfigError>(()),
            },
    {
        if self.accel_gain < 0 || self.mag_gain < 0 || self.initial_gain < 0 {
            Err(ConfigError::NegativeGain)
        } else if self.accel_rejection <= 0 || self.stationary_threshold <= 0 || self.mag_min < 0
            || self.mag_min >= self.mag_max {
            Err(ConfigError::EmptyTolerance)
        } else if self.init_period < 0 || self.settle_period < 0 || self.mean_window <= 0
            || self.offset_time_constant <= 0 {
            Err(ConfigError::InvalidPeriod)
        } else if self.accel_gain > LIMIT || self.mag_gain > LIMIT || self.initial_gain > LIMIT
            || self.accel_rejection > LIMIT || self.mag_max > LIMIT || self.init_period > LIMIT
            || self.stationary_threshold > LIMIT || self.settle_period > LIMIT || self.mean_window
            > LIMIT || self.offset_time_constant > LIMIT {
            Err(ConfigError::OutOfRange)
        } else {
            Ok(())
        }
    }
}

impl Default for Config {
    fn default() -> (r: Config)
        ensures
            r == Config::standard(),
            r.is_valid(),
    {
        Config {
            accel_gain: 500_000_000,
            mag_gain: 500_000_000,
            initial_gain: 10_000_000_000,
            accel_rejection: 100_000_000,
            mag_min: 0,
            mag_max: 1_000_000_000_000,
            init_period: 3_000_000_000,
            stationary_threshold: 52_359_878,
            settle_period: 5_000_000_000,
            mean_window: 1_000_000_000,
            offset_time_constant: 7_957_747_155,
        }
    }
}

} // verus!
