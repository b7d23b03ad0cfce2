//! Attitude and heading estimation from inertial sensors, in fixed-point
//! arithmetic.
//!
//! A filter fuses the rate of rotation that a gyroscope measures with the
//! direction of gravity that an accelerometer measures and, where there is a
//! magnetometer, with the direction of the magnetic field, into an estimate
//! of the orientation of a body. Every quantity is a 64-bit integer that
//! counts billionths, so that each result is exact, the same on every
//! machine, and stated by a formula over the integers.
//!
//! - `fixed`: scalars, rounding division and the integer square root.
//! - `vector`, `quaternion`: vectors and orientations.
//! - `config`: the parameters of a filter and their validation.
//! - `offset`: the estimator of the gyroscope's offset.
//! - `ahrs`: the filter.
//! - `fusion`: the filter with the standard parameters, for callers that
//!   measure in degrees per second or in metres per second squared.

pub mod ahrs;
pub mod config;
pub mod fixed;
pub mod fusion;
pub mod offset;
pub mod quaternion;
pub mod vector;
