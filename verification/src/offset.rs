//! The gyroscope offset estimator.
//!
//! A gyroscope at rest reports a small constant rate, its offset. The estimator
//! keeps a running mean of the magnitude of the corrected rate; once that
//! magnitude and its mean have stayed below a threshold for the settle period,
//! the body counts as stationary and the offset follows the observed rate with
//! a slow low-pass. The offset is subtracted from every reading.

use crate::fixed::{
    least, lemma_part_between, lemma_part_moves, lesser, magnitude, mul_div, trunc_div, LIMIT,
};
use crate::vector::{lemma_length_bound, lemma_length_monotone, Vec3, Vector3};
use vstd::prelude::*;

verus! {

/// Largest value of the running mean of the rate's magnitude.
pub const MEAN_MAX: i64 = 4_000_000_000_000;

/// The state of an offset estimator, over unbounded integers.
pub struct OffsetModel {
    /// Mean rate below which the body counts as stationary; also the largest
    /// magnitude of a component of the offset.
    pub threshold: int,
    /// Time the body must have been stationary before the offset is adjusted.
    pub settle_period: int,
    /// Time constant of the running mean.
    pub mean_window: int,
    /// Time constant with which the offset follows the observed rate.
    pub time_constant: int,
    /// The estimated offset.
    pub bias: Vec3,
    /// The running mean of the magnitude of the corrected rate.
    pub mean: int,
    /// For how long the body has been stationary, up to the settle period.
    pub still: int,
}

impl OffsetModel {
    /// The estimator at construction: no offset, not yet stationary.
    pub open spec fn initial(
        threshold: int,
        settle_period: int,
        mean_window: int,
        time_constant: int,
    ) -> OffsetModel {
        OffsetModel {
            threshold,
            settle_period,
            mean_window,
            time_constant,
            bias: Vec3::zero(),
            mean: 0,
            still: 0,
        }
    }

    /// The parameters are in range and the state is within its bounds.
    pub open spec fn wf(self) -> bool {
        &&& 0 < self.threshold <= LIMIT
        &&& 0 <= self.settle_period <= LIMIT
        &&& 0 < self.mean_window <= LIMIT
        &&& 0 < self.time_constant <= LIMIT
        &&& self.bias.fits(self.threshold)
        &&& 0 <= self.mean <= MEAN_MAX
        &&& 0 <= self.still <= self.settle_period
    }

    /// The reading with the offset taken out.
    pub open spec fn corrected(self, raw: Vec3) -> Vec3 {
        raw.minus(self.bias)
    }

    /// The running mean after a reading: it moves toward the magnitude of the
    /// corrected rate by the part `dt / mean_window` of the distance, at most
    /// all of it.
    pub open spec fn next_mean(self, raw: Vec3, dt: int) -> int {
        self.mean + trunc_div(
            (self.corrected(raw).length() - self.mean) * lesser(dt, self.mean_window),
            self.mean_window,
        )
    }

    /// The body counts as stationary at this reading: the magnitude of the
    /// corrected rate and its running mean are both below the threshold.
    pub open spec fn stationary(self, raw: Vec3, dt: int) -> bool {
        self.corrected(raw).length() < self.threshold && self.next_mean(raw, dt) < self.threshold
    }

    /// The offset is adjusted at this reading: the body is stationary and has
    /// been for the settle period.
    pub open spec fn adjusting(self, raw: Vec3, dt: int) -> bool {
        self.stationary(raw, dt) && self.still >= self.settle_period
    }

    /// The offset after a reading: when adjusting, it moves toward the reading
    /// by the part `dt / time_constant` of the corrected rate, at most all of
    /// it, and stays within the threshold.
    pub open spec fn next_bias(self, raw: Vec3, dt: int) -> Vec3 {
        if self.adjusting(raw, dt) {
            self.bias.plus(
                self.corrected(raw).ratio(lesser(dt, self.time_constant), self.time_constant),
            ).clamped(self.threshold)
        } else {
            self.bias
        }
    }

    /// The stationary time after a reading.
    pub open spec fn next_still(self, raw: Vec3, dt: int) -> int {
        if self.stationary(raw, dt) {
            lesser(self.still + dt, self.settle_period)
        } else {
            0
        }
    }

    /// The two estimators have the same parameters.
    pub open spec fn configured_as(self, other: OffsetModel) -> bool {
        &&& self.threshold == other.threshold
        &&& self.settle_period == other.settle_period
        &&& self.mean_window == other.mean_window
        &&& self.time_constant == other.time_constant
    }

    /// The estimator after `n` readings of the same rate `raw`, each taken
    /// `dt` after the one before.
    pub open spec fn held(self, raw: Vec3, dt: int, n: nat) -> OffsetModel
        decreases n,
    {
        if n == 0 {
            self
        } else {
            self.held(raw, dt, (n - 1) as nat).next(raw, dt)
        }
    }

    /// How far the corrected rate is from zero: the sum of the magnitudes of
    /// its components.
    pub open spec fn residual(self, raw: Vec3) -> int {
        magnitude(self.corrected(raw).x) + magnitude(self.corrected(raw).y) + magnitude(
            self.corrected(raw).z,
        )
    }

    /// The estimator takes a body that reports `raw` for stationary: the
    /// magnitude of the corrected rate and the running mean are below the
    /// threshold.
    pub open spec fn calm(self, raw: Vec3) -> bool {
        self.corrected(raw).length() < self.threshold && self.mean < self.threshold
    }

    /// The offset has followed the rate `raw` as far as the format allows:
    /// the part `dt / time_constant` of each component of the corrected rate
    /// is less than one billionth.
    pub open spec fn learned(self, raw: Vec3, dt: int) -> bool {
        let k = lesser(dt, self.time_constant);
        &&& magnitude(self.corrected(raw).x) * k < self.time_constant
        &&& magnitude(self.corrected(raw).y) * k < self.time_constant
        &&& magnitude(self.corrected(raw).z) * k < self.time_constant
    }

    /// The estimator after a reading taken `dt` after the one before.
    pub open spec fn next(self, raw: Vec3, dt: int) -> OffsetModel {
        OffsetModel {
            threshold: self.threshold,
            settle_period: self.settle_period,
            mean_window: self.mean_window,
            time_constant: self.time_constant,
            bias: self.next_bias(raw, dt),
            mean: self.next_mean(raw, dt),
            still: self.next_still(raw, dt),
        }
    }
}

/// A reading keeps the estimator within its bounds, and the corrected rate
/// within twice the limit of a reading.
pub proof fn lemma_offset_step(s: OffsetModel, raw: Vec3, dt: int)
    requires
        s.wf(),
        raw.fits(LIMIT as int),
        0 <= dt <= LIMIT,
    ensures
        s.next(raw, dt).wf(),
        s.corrected(raw).fits(2 * LIMIT),
        0 <= s.corrected(raw).length() <= MEAN_MAX,
        s.corrected(raw).ratio(lesser(dt, s.time_constant), s.time_constant).fits(2 * LIMIT),
{
    let c = s.corrected(raw);
    lemma_length_bound(c, 2 * LIMIT);
    lemma_part_between(c.length() - s.mean, lesser(dt, s.mean_window), s.mean_window);
    let k = lesser(dt, s.time_constant);
    lemma_part_between(c.x, k, s.time_constant);
    lemma_part_between(c.y, k, s.time_constant);
    lemma_part_between(c.z, k, s.time_constant);
}

/// The offset changes slowly: in one reading no component moves by more than
/// the part `dt / time_constant` of the corrected rate, and none leaves the
/// threshold.
pub proof fn lemma_offset_change_bounded(s: OffsetModel, raw: Vec3, dt: int)
    requires
        s.wf(),
        raw.fits(LIMIT as int),
        0 <= dt <= LIMIT,
    ensures
        s.next(raw, dt).bias.fits(s.threshold),
        magnitude(s.next(raw, dt).bias.x - s.bias.x) <= magnitude(
            trunc_div(s.corrected(raw).x * lesser(dt, s.time_constant), s.time_constant),
        ),
        magnitude(s.next(raw, dt).bias.y - s.bias.y) <= magnitude(
            trunc_div(s.corrected(raw).y * lesser(dt, s.time_constant), s.time_constant),
        ),
        magnitude(s.next(raw, dt).bias.z - s.bias.z) <= magnitude(
            trunc_div(s.corrected(raw).z * lesser(dt, s.time_constant), s.time_constant),
        ),
{
    lemma_offset_step(s, raw, dt);
}

/// With the same reading again, the corrected rate does not grow: no component
/// of the offset moves away from the reading.
pub proof fn lemma_offset_does_not_diverge(s: OffsetModel, raw: Vec3, dt: int)
    requires
        s.wf(),
        raw.fits(LIMIT as int),
        0 <= dt <= LIMIT,
    ensures
        magnitude(s.next(raw, dt).corrected(raw).x) <= magnitude(s.corrected(raw).x),
        magnitude(s.next(raw, dt).corrected(raw).y) <= magnitude(s.corrected(raw).y),
        magnitude(s.next(raw, dt).corrected(raw).z) <= magnitude(s.corrected(raw).z),
{
    let c = s.corrected(raw);
    let k = lesser(dt, s.time_constant);
    lemma_part_between(c.x, k, s.time_constant);
    lemma_part_between(c.y, k, s.time_constant);
    lemma_part_between(c.z, k, s.time_constant);
}

/// While the offset is adjusted, a reading within the threshold draws the
/// offset closer: a component of the corrected rate shrinks as long as its
/// part `dt / time_constant` is at least one billionth.
pub proof fn lemma_offset_converges(s: OffsetModel, raw: Vec3, dt: int)
    requires
        s.wf(),
        raw.fits(s.threshold),
        0 <= dt <= LIMIT,
        s.adjusting(raw, dt),
    ensures
        magnitude(s.corrected(raw).x) * lesser(dt, s.time_constant) >= s.time_constant
            ==> magnitude(s.next(raw, dt).corrected(raw).x) < magnitude(s.corrected(raw).x),
        magnitude(s.corrected(raw).y) * lesser(dt, s.time_constant) >= s.time_constant
            ==> magnitude(s.next(raw, dt).corrected(raw).y) < magnitude(s.corrected(raw).y),
        magnitude(s.corrected(raw).z) * lesser(dt, s.time_constant) >= s.time_constant
            ==> magnitude(s.next(raw, dt).corrected(raw).z) < magnitude(s.corrected(raw).z),
{
    let c = s.corrected(raw);
    let k = lesser(dt, s.time_constant);
    lemma_part_between(c.x, k, s.time_constant);
    lemma_part_between(c.y, k, s.time_constant);
    lemma_part_between(c.z, k, s.time_constant);
    if magnitude(c.x) * k >= s.time_constant {
        lemma_part_moves(c.x, k, s.time_constant);
    }
    if magnitude(c.y) * k >= s.time_constant {
        lemma_part_moves(c.y, k, s.time_constant);
    }
    if magnitude(c.z) * k >= s.time_constant {
        lemma_part_moves(c.z, k, s.time_constant);
    }
}

/// One more reading of a rate that the estimator takes for rest: the estimator
/// still takes it for rest, the stationary time grows, and the corrected rate
/// does not grow; once the settle period has passed it shrinks, unless the
/// offset has followed as far as the format allows, and then it stays so.
pub proof fn lemma_calm_step(s: OffsetModel, raw: Vec3, dt: int)
    requires
        s.wf(),
        raw.fits(s.threshold),
        0 <= dt <= LIMIT,
        s.calm(raw),
    ensures
        s.next(raw, dt).wf(),
        s.next(raw, dt).calm(raw),
        s.next(raw, dt).still == lesser(s.still + dt, s.settle_period),
        s.next(raw, dt).residual(raw) <= s.residual(raw),
        s.learned(raw, dt) ==> s.next(raw, dt).learned(raw, dt),
        s.still >= s.settle_period && !s.learned(raw, dt) ==> s.next(raw, dt).residual(raw)
            < s.residual(raw),
{
    lemma_offset_step(s, raw, dt);
    lemma_offset_does_not_diverge(s, raw, dt);
    let c = s.corrected(raw);
    lemma_length_bound(c, 2 * LIMIT);
    lemma_part_between(c.length() - s.mean, lesser(dt, s.mean_window), s.mean_window);
    assert(s.stationary(raw, dt));
    let t = s.next(raw, dt);
    lemma_length_monotone(t.corrected(raw), c);
    let k = lesser(dt, s.time_constant);
    if s.learned(raw, dt) {
        assert(magnitude(t.corrected(raw).x) * k <= magnitude(c.x) * k) by (nonlinear_arith)
            requires
                magnitude(t.corrected(raw).x) <= magnitude(c.x),
                k >= 0,
        ;
        assert(magnitude(t.corrected(raw).y) * k <= magnitude(c.y) * k) by (nonlinear_arith)
            requires
                magnitude(t.corrected(raw).y) <= magnitude(c.y),
                k >= 0,
        ;
        assert(magnitude(t.corrected(raw).z) * k <= magnitude(c.z) * k) by (nonlinear_arith)
            requires
                magnitude(t.corrected(raw).z) <= magnitude(c.z),
                k >= 0,
        ;
    }
    if s.still >= s.settle_period && !s.learned(raw, dt) {
        lemma_offset_converges(s, raw, dt);
    }
}

/// Readings of a rate that the estimator takes for rest bring the settle
/// period to an end: after `m` of them the stationary time is `m * dt` longer,
/// up to the settle period.
pub proof fn lemma_rest_settles(s: OffsetModel, raw: Vec3, dt: int, m: nat)
    requires
        s.wf(),
        raw.fits(s.threshold),
        0 <= dt <= LIMIT,
        s.calm(raw),
    ensures
        s.held(raw, dt, m).wf(),
        s.held(raw, dt, m).configured_as(s),
        s.held(raw, dt, m).calm(raw),
        s.held(raw, dt, m).still == lesser(s.still + m * dt, s.settle_period),
        s.held(raw, dt, m).residual(raw) <= s.residual(raw),
    decreases m,
{
    if m > 0 {
        let before = (m - 1) as nat;
        lemma_rest_settles(s, raw, dt, before);
        lemma_calm_step(s.held(raw, dt, before), raw, dt);
        assert(m * dt == before * dt + dt) by (nonlinear_arith)
            requires
                before == m - 1,
        ;
        assert(before * dt >= 0) by (nonlinear_arith)
            requires
                before >= 0,
                dt >= 0,
        ;
    } else {
        assert(m * dt == 0) by (nonlinear_arith)
            requires
                m == 0,
        ;
    }
}

/// Once the settle period has passed, each reading of a rate that the
/// estimator takes for rest draws the offset closer by a billionth at least,
/// until it has followed as far as the format allows.
pub proof fn lemma_rest_is_learned(s: OffsetModel, raw: Vec3, dt: int, n: nat)
    requires
        s.wf(),
        raw.fits(s.threshold),
        0 <= dt <= LIMIT,
        s.calm(raw),
        s.still >= s.settle_period,
    ensures
        s.held(raw, dt, n).wf(),
        s.held(raw, dt, n).configured_as(s),
        s.held(raw, dt, n).calm(raw),
        s.held(raw, dt, n).still >= s.settle_period,
        s.held(raw, dt, n).residual(raw) <= s.residual(raw),
        s.held(raw, dt, n).learned(raw, dt) || s.held(raw, dt, n).residual(raw) <= s.residual(raw)
            - n,
    decreases n,
{
    if n > 0 {
        let before = (n - 1) as nat;
        lemma_rest_is_learned(s, raw, dt, before);
        lemma_calm_step(s.held(raw, dt, before), raw, dt);
    }
}

/// Holding the same reading for `m` and then for `n` readings is holding it
/// for `m + n`.
pub proof fn lemma_held_in_two_parts(s: OffsetModel, raw: Vec3, dt: int, m: nat, n: nat)
    ensures
        s.held(raw, dt, m + n) == s.held(raw, dt, m).held(raw, dt, n),
    decreases n,
{
    if n > 0 {
        lemma_held_in_two_parts(s, raw, dt, m, (n - 1) as nat);
        assert((m + n - 1) as nat == m + (n - 1) as nat);
    }
}

/// A constant gyroscope offset is removed: if the body rests and the
/// gyroscope reports the constant rate `raw`, no component beyond the
/// threshold, which the estimator takes for rest, then after the settle period
/// and one reading more for each billionth of the corrected rate, the offset
/// has followed as far as the format allows: what is left of each component
/// of the corrected rate is less than `time_constant / dt` billionths.
pub proof fn lemma_constant_offset_is_removed(s: OffsetModel, raw: Vec3, dt: int, m: nat, n: nat)
    requires
        s.wf(),
        raw.fits(s.threshold),
        0 <= dt <= LIMIT,
        s.calm(raw),
        m * dt >= s.settle_period,
        n >= s.residual(raw),
    ensures
        s.held(raw, dt, m + n).learned(raw, dt),
        s.held(raw, dt, m + n).residual(raw) <= s.residual(raw),
{
    lemma_rest_settles(s, raw, dt, m);
    let settled = s.held(raw, dt, m);
    lemma_rest_is_learned(settled, raw, dt, n);
    lemma_held_in_two_parts(s, raw, dt, m, n);
    let last = settled.held(raw, dt, n);
    if !last.learned(raw, dt) {
        // Nothing is left of the corrected rate, so its parts are zero.
        let c = last.corrected(raw);
        assert(c.x == 0 && c.y == 0 && c.z == 0);
        assert(0 * lesser(dt, s.time_constant) == 0) by (nonlinear_arith);
        assert(last.time_constant == s.time_constant);
    }
}

/// A gyroscope offset estimator.
#[derive(Clone, Copy, Debug)]
pub struct GyroOffset {
    threshold: i64,
    settle_period: i64,
    mean_window: i64,
    time_constant: i64,
    bias: Vector3,
    mean: i64,
    still: i64,
}

impl View for GyroOffset {
    type V = OffsetModel;

    closed spec fn view(&self) -> OffsetModel {
        OffsetModel {
            threshold: self.threshold as int,
            settle_period: self.settle_period as int,
            mean_window: self.mean_window as int,
            time_constant: self.time_constant as int,
            bias: self.bias@,
            mean: self.mean as int,
            still: self.still as int,
        }
    }
}

impl GyroOffset {
    #[verifier::type_invariant]
    spec fn well_formed(self) -> bool {
        self@.wf()
    }

    /// An estimator with no offset, for a body not yet known to be stationary.
    pub fn new(threshold: i64, settle_period: i64, mean_window: i64, time_constant: i64) -> (r:
        GyroOffset)
        requires
            0 < threshold <= LIMIT,
            0 <= settle_period <= LIMIT,
            0 < mean_window <= LIMIT,
            0 < time_constant <= LIMIT,
        ensures
            r@ == OffsetModel::initial(
                threshold as int,
                settle_period as int,
                mean_window as int,
                time_constant as int,
            ),
            r@.wf(),
    {
        GyroOffset {
            threshold,
            settle_period,
            mean_window,
            time_constant,
            bias: Vector3::zero(),
            mean: 0,
            still: 0,
        }
    }

    /// Takes the offset out of the reading `raw`, in radians per second, taken
    /// `dt` seconds after the one before, and lets the estimate follow.
    ///
    /// The time step must not be negative, and nothing may exceed `LIMIT`.
    pub fn correct(&mut self, raw: Vector3, dt: i64) -> (r: Vector3)
        requires
            raw@.fits(LIMIT as int),
            0 <= dt <= LIMIT,
        ensures
            r@ == old(self)@.corrected(raw@),
            r@.fits(2 * LIMIT),
            final(self)@ == old(self)@.next(raw@, dt as int),
            final(self)@.wf(),
    {
        proof {
            use_type_invariant(&*self);
            lemma_offset_step(self@, raw@, dt as int);
        }
        let corrected: Vector3 = raw.minus(self.bias);
        let speed: i64 = corrected.length();
        let mean: i64 = self.mean + mul_div(
            speed - self.mean,
            least(dt, self.mean_window),
            self.mean_window,
        );
        let stationary: bool = speed < self.threshold && mean < self.threshold;
        let bias: Vector3 = if stationary && self.still >= self.settle_period {
            let change: Vector3 = corrected.ratio(
                least(dt, self.time_constant),
                self.time_constant,
            );
            self.bias.plus(change).clamped(self.threshold)
        } else {
            self.bias
        };
        let still: i64 = if stationary {
            least(self.still + dt, self.settle_period)
        } else {
            0
        };
        *self = GyroOffset {
            threshold: self.threshold,
            settle_period: self.settle_period,
            mean_window: self.mean_window,
            time_constant: self.time_constant,
            bias,
            mean,
            still,
        };
        corrected
    }

    /// The estimated offset, in radians per second.
    pub fn bias(&self) -> (r: Vector3)
        ensures
            r@ == self@.bias,
    {
        self.bias
    }

    /// The running mean of the magnitude of the corrected rate.
    pub fn mean(&self) -> (r: i64)
        ensures
            r == self@.mean,
    {
        self.mean
    }

    /// For how long the body has been stationary, up to the settle period.
    pub fn still(&self) -> (r: i64)
        ensures
            r == self@.still,
    {
        self.still
    }
}

} // verus!
