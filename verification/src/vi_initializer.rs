//! Visual-inertial bootstrap from a stationary window.
//!
//! The initializer buffers inertial samples and commits once a window of them is
//! statistically consistent with a body at rest. It decides which samples form the window
//! and which gate they fail first; the means, deviations and the attitude come from the
//! functions in [`StationaryNumerics`], which the caller supplies.
use crate::geometry::{Point3, Quaternion};
use crate::scalar::Scalar;
use vstd::prelude::*;

verus! {

/// The smallest positive difference of a number from one.
pub const EPSILON_BITS: u64 = 0x3CB0_0000_0000_0000;

#[derive(Clone, Copy, Debug, PartialEq, Eq, Structural)]
pub struct VisualInertialInitializerConfig {
    /// Gravity in the world frame.
    pub gravity_world: Point3,
    /// Minimum duration of the stationary window, in seconds.
    pub min_stationary_window_seconds: Scalar,
    /// Maximum standard deviation of the angular rate, per axis.
    pub max_gyro_std: Scalar,
    /// Maximum standard deviation of the specific force, per axis.
    pub max_accel_std: Scalar,
    /// Maximum deviation of the mean specific force from gravity, in magnitude.
    pub max_accel_magnitude_error: Scalar,
    /// Minimum number of samples in the window.
    pub min_samples: usize,
    /// Width of the trailing detector window in seconds. Infinite, or not positive, means
    /// the whole buffer.
    pub detector_window_seconds: Scalar,
}

impl Default for VisualInertialInitializerConfig {
    /// Gravity of 9.81 along negative z, 0.5 s, deviations of 0.05 and 0.5, a magnitude
    /// error of 0.5, and the whole buffer.
    fn default() -> (config: Self)
        ensures
            config == (VisualInertialInitializerConfig {
                gravity_world: Point3 {
                    x: Scalar { bits: 0 },
                    y: Scalar { bits: 0 },
                    z: Scalar { bits: 0xC023_9EB8_51EB_851F },
                },
                min_stationary_window_seconds: Scalar { bits: 0x3FE0_0000_0000_0000 },
                max_gyro_std: Scalar { bits: 0x3FA9_9999_9999_999A },
                max_accel_std: Scalar { bits: 0x3FE0_0000_0000_0000 },
                max_accel_magnitude_error: Scalar { bits: 0x3FE0_0000_0000_0000 },
                min_samples: 50,
                detector_window_seconds: Scalar { bits: 0x7FF0_0000_0000_0000 },
            }),
    {
        VisualInertialInitializerConfig {
            gravity_world: Point3 {
                x: Scalar { bits: 0 },
                y: Scalar { bits: 0 },
                z: Scalar { bits: 0xC023_9EB8_51EB_851F },
            },
            min_stationary_window_seconds: Scalar { bits: 0x3FE0_0000_0000_0000 },
            max_gyro_std: Scalar { bits: 0x3FA9_9999_9999_999A },
            max_accel_std: Scalar { bits: 0x3FE0_0000_0000_0000 },
            max_accel_magnitude_error: Scalar { bits: 0x3FE0_0000_0000_0000 },
            min_samples: 50,
            detector_window_seconds: Scalar { bits: 0x7FF0_0000_0000_0000 },
        }
    }
}

/// One inertial sample in the body frame.
#[derive(Clone, Copy, Debug, PartialEq, Eq, Structural)]
pub struct ImuSampleRecord {
    pub gyro: Point3,
    pub accel: Point3,
    pub dt: Scalar,
}

/// Time-weighted statistics of a window.
#[derive(Clone, Copy, Debug, PartialEq, Eq, Structural)]
pub struct WindowStatistics {
    pub gyro_mean: Point3,
    pub accel_mean: Point3,
    pub gyro_std: Point3,
    pub accel_std: Point3,
    pub mean_accel_magnitude: Scalar,
    pub gravity_magnitude: Scalar,
    /// Absolute difference of the two magnitudes.
    pub magnitude_error: Scalar,
}

/// The attitude that aligns the mean specific force with gravity, and what is left of it.
#[derive(Clone, Copy, Debug, PartialEq, Eq, Structural)]
pub struct Attitude {
    pub rotation_body_to_world: Quaternion,
    pub bias_acc: Point3,
}

/// A successful initialization.
#[derive(Clone, Copy, Debug, PartialEq, Eq, Structural)]
pub struct VisualInertialInitializationResult {
    pub gravity_world: Point3,
    /// Rotation from body to world; yaw is not observed and left at zero.
    pub initial_rotation_body_to_world: Quaternion,
    /// Always zero: the window is stationary.
    pub initial_velocity_world: Point3,
    pub bias_gyro: Point3,
    pub bias_acc: Point3,
    pub samples_consumed: usize,
    pub duration_seconds: Scalar,
    pub gyro_std: Point3,
    pub accel_std: Point3,
    pub mean_accel_magnitude: Scalar,
}

/// `residual` is the angle between the up directions that two attitudes imply in the body
/// frame: what `tilt` measures, and zero where gravity, of magnitude `norm`, has no
/// direction.
pub open spec fn is_tilt_residual<T>(
    gravity: Point3,
    norm: Scalar,
    recovered: Quaternion,
    truth: Quaternion,
    tilt: T,
    residual: Scalar,
) -> bool where T: Fn(&Point3, Scalar, &Quaternion, &Quaternion) -> Scalar {
    if !norm.is_finite() || norm.le(Scalar { bits: EPSILON_BITS }) {
        residual == Scalar::zero()
    } else {
        call_ensures(tilt, (&gravity, norm, &recovered, &truth), residual)
    }
}

impl VisualInertialInitializationResult {
    /// The angle in degrees between the up direction of the recovered attitude and that of
    /// a given one, both in the body frame. Yaw, which gravity cannot show, does not enter.
    /// Zero where gravity is the zero vector or not finite.
    ///
    /// `magnitude` is the length of a vector; `tilt` is the angle between the directions
    /// opposite to gravity, of the given length, under two attitudes.
    pub fn gravity_alignment_residual_deg<N, T>(
        &self,
        ground_truth_rotation_body_to_world: &Quaternion,
        magnitude: N,
        tilt: T,
    ) -> (residual: Scalar) where
        N: Fn(&Point3) -> Scalar,
        T: Fn(&Point3, Scalar, &Quaternion, &Quaternion) -> Scalar,

        requires
            forall|value: Point3| call_requires(magnitude, (&value,)),
            forall|value: Point3, norm: Scalar, one: Quaternion, other: Quaternion|
                call_requires(tilt, (&value, norm, &one, &other)),
        ensures
            exists|norm: Scalar|
                #[trigger] call_ensures(magnitude, (&self.gravity_world,), norm)
                    && is_tilt_residual(
                    self.gravity_world,
                    norm,
                    self.initial_rotation_body_to_world,
                    *ground_truth_rotation_body_to_world,
                    tilt,
                    residual,
                ),
    {
        let norm = magnitude(&self.gravity_world);
        if !norm.is_finite() || norm.le(Scalar { bits: EPSILON_BITS }) {
            return Scalar::zero();
        }
        tilt(
            &self.gravity_world,
            norm,
            &self.initial_rotation_body_to_world,
            ground_truth_rotation_body_to_world,
        )
    }
}

/// Why a window is not stationary.
#[allow(inconsistent_fields)]
#[derive(Clone, Copy, Debug, PartialEq, Eq, Structural)]
pub enum StationaryRejectionReason {
    InsufficientSamples { have: usize, need: usize },
    InsufficientDuration { have: Scalar, need: Scalar },
    GyroNoiseTooHigh { observed: Point3, limit: Scalar },
    AccelNoiseTooHigh { observed: Point3, limit: Scalar },
    AccelMagnitudeMismatch { observed: Scalar, expected: Scalar, tolerance: Scalar },
}

/// The arithmetic that the initializer rests on.
pub struct StationaryNumerics<A, T, S, R> {
    /// The sum of two numbers.
    pub plus: A,
    /// The sum of a list of numbers, in order.
    pub total: T,
    /// The statistics of samples that last for a given time, against a given gravity.
    pub statistics: S,
    /// The attitude of a mean specific force against a given gravity.
    pub attitude: R,
}

impl<A, T, S, R> StationaryNumerics<A, T, S, R> where
    A: Fn(Scalar, Scalar) -> Scalar,
    T: Fn(&Vec<Scalar>) -> Scalar,
    S: Fn(&Vec<ImuSampleRecord>, Scalar, &Point3) -> WindowStatistics,
    R: Fn(&Point3, &Point3) -> Attitude,
{
    /// The functions take any argument.
    pub open spec fn callable(self) -> bool {
        &&& forall|a: Scalar, b: Scalar| call_requires(self.plus, (a, b))
        &&& forall|values: Vec<Scalar>| call_requires(self.total, (&values,))
        &&& forall|window: Vec<ImuSampleRecord>, time: Scalar, gravity: Point3|
            call_requires(self.statistics, (&window, time, &gravity))
        &&& forall|accel: Point3, gravity: Point3|
            call_requires(self.attitude, (&accel, &gravity))
    }

    /// `sum` is the sum of these numbers.
    pub open spec fn totals(self, values: Seq<Scalar>, sum: Scalar) -> bool {
        exists|list: Vec<Scalar>| list@ == values && #[trigger]
            call_ensures(self.total, (&list,), sum)
    }

    /// `found` are the statistics of these samples.
    pub open spec fn measures(
        self,
        window: Seq<ImuSampleRecord>,
        time: Scalar,
        gravity: Point3,
        found: WindowStatistics,
    ) -> bool {
        exists|list: Vec<ImuSampleRecord>| list@ == window && #[trigger]
            call_ensures(self.statistics, (&list, time, &gravity), found)
    }
}

/// The durations of some samples.
pub open spec fn durations(samples: Seq<ImuSampleRecord>) -> Seq<Scalar> {
    samples.map_values(|sample: ImuSampleRecord| sample.dt)
}

/// The detector looks at a trailing window rather than at the whole buffer.
pub open spec fn is_windowed(window: Scalar) -> bool {
    window.is_finite() && !window.le(Scalar::zero())
}

/// The trailing window of `count` samples with its duration: counted from the end, the
/// partial sums of durations stay below the width until the last one, unless all samples
/// are in it.
pub open spec fn is_trailing_window<A, T, S, R>(
    samples: Seq<ImuSampleRecord>,
    width: Scalar,
    count: int,
    sums: Seq<Scalar>,
    numerics: StationaryNumerics<A, T, S, R>,
) -> bool where
    A: Fn(Scalar, Scalar) -> Scalar,
    T: Fn(&Vec<Scalar>) -> Scalar,
    S: Fn(&Vec<ImuSampleRecord>, Scalar, &Point3) -> WindowStatistics,
    R: Fn(&Point3, &Point3) -> Attitude,
{
    &&& 0 <= count <= samples.len()
    &&& sums.len() == count + 1
    &&& sums[0] == Scalar::zero()
    &&& forall|j: int|
        #![trigger sums[j]]
        0 <= j < count ==> call_ensures(
            numerics.plus,
            (sums[j], samples[samples.len() - 1 - j].dt),
            sums[j + 1],
        )
    &&& forall|j: int| 0 < j < count ==> !width.le(#[trigger] sums[j])
    &&& count == samples.len() || (count > 0 && width.le(sums[count]))
}

/// The detector window: its samples and its duration.
pub open spec fn is_detector_window<A, T, S, R>(
    samples: Seq<ImuSampleRecord>,
    width: Scalar,
    window: Seq<ImuSampleRecord>,
    duration: Scalar,
    numerics: StationaryNumerics<A, T, S, R>,
) -> bool where
    A: Fn(Scalar, Scalar) -> Scalar,
    T: Fn(&Vec<Scalar>) -> Scalar,
    S: Fn(&Vec<ImuSampleRecord>, Scalar, &Point3) -> WindowStatistics,
    R: Fn(&Point3, &Point3) -> Attitude,
{
    if is_windowed(width) {
        exists|sums: Seq<Scalar>|
            {
                &&& window.len() <= samples.len()
                &&& window == samples.skip(samples.len() - window.len())
                &&& #[trigger] is_trailing_window(
                    samples,
                    width,
                    window.len() as int,
                    sums,
                    numerics,
                )
                &&& duration == sums.last()
            }
    } else {
        window == samples && numerics.totals(durations(samples), duration)
    }
}

/// A deviation is acceptable on every axis: finite and within the limit.
pub open spec fn is_quiet(deviation: Point3, limit: Scalar) -> bool {
    &&& deviation.x.is_finite() && !limit.lt(deviation.x)
    &&& deviation.y.is_finite() && !limit.lt(deviation.y)
    &&& deviation.z.is_finite() && !limit.lt(deviation.z)
}

fn check_quiet(deviation: &Point3, limit: Scalar) -> (b: bool)
    ensures
        b == is_quiet(*deviation, limit),
{
    deviation.x.is_finite() && !limit.lt(deviation.x) && deviation.y.is_finite() && !limit.lt(
        deviation.y,
    ) && deviation.z.is_finite() && !limit.lt(deviation.z)
}

/// The first statistic of a window that is not that of a body at rest.
pub open spec fn motion_of(
    config: VisualInertialInitializerConfig,
    statistics: WindowStatistics,
) -> Option<StationaryRejectionReason> {
    let mismatch = StationaryRejectionReason::AccelMagnitudeMismatch {
        observed: statistics.mean_accel_magnitude,
        expected: statistics.gravity_magnitude,
        tolerance: config.max_accel_magnitude_error,
    };
    if !is_quiet(statistics.gyro_std, config.max_gyro_std) {
        Some(
            StationaryRejectionReason::GyroNoiseTooHigh {
                observed: statistics.gyro_std,
                limit: config.max_gyro_std,
            },
        )
    } else if !is_quiet(statistics.accel_std, config.max_accel_std) {
        Some(
            StationaryRejectionReason::AccelNoiseTooHigh {
                observed: statistics.accel_std,
                limit: config.max_accel_std,
            },
        )
    } else if config.max_accel_magnitude_error.lt(statistics.magnitude_error) {
        Some(mismatch)
    } else if statistics.mean_accel_magnitude.le(Scalar { bits: EPSILON_BITS }) {
        Some(mismatch)
    } else {
        None
    }
}

/// The first statistic of a window that is not that of a body at rest: the noise of the
/// angular rate, the noise of the specific force, or its magnitude.
pub fn check_stationary(config: &VisualInertialInitializerConfig, statistics: &WindowStatistics) -> (reason:
    Option<StationaryRejectionReason>)
    ensures
        reason == motion_of(*config, *statistics),
{
    if !check_quiet(&statistics.gyro_std, config.max_gyro_std) {
        return Some(
            StationaryRejectionReason::GyroNoiseTooHigh {
                observed: statistics.gyro_std,
                limit: config.max_gyro_std,
            },
        );
    }
    if !check_quiet(&statistics.accel_std, config.max_accel_std) {
        return Some(
            StationaryRejectionReason::AccelNoiseTooHigh {
                observed: statistics.accel_std,
                limit: config.max_accel_std,
            },
        );
    }
    if config.max_accel_magnitude_error.lt(statistics.magnitude_error)
        || statistics.mean_accel_magnitude.le(Scalar { bits: EPSILON_BITS }) {
        return Some(
            StationaryRejectionReason::AccelMagnitudeMismatch {
                observed: statistics.mean_accel_magnitude,
                expected: statistics.gravity_magnitude,
                tolerance: config.max_accel_magnitude_error,
            },
        );
    }
    None
}

/// What the detector window leads to: the first gate that it fails, or the bootstrap.
pub open spec fn is_window_verdict<A, T, S, R>(
    config: VisualInertialInitializerConfig,
    window: Seq<ImuSampleRecord>,
    duration: Scalar,
    statistics: WindowStatistics,
    attitude: Attitude,
    numerics: StationaryNumerics<A, T, S, R>,
    result: Result<VisualInertialInitializationResult, StationaryRejectionReason>,
) -> bool where
    A: Fn(Scalar, Scalar) -> Scalar,
    T: Fn(&Vec<Scalar>) -> Scalar,
    S: Fn(&Vec<ImuSampleRecord>, Scalar, &Point3) -> WindowStatistics,
    R: Fn(&Point3, &Point3) -> Attitude,
{
    if window.len() < config.min_samples {
        result == Err::<VisualInertialInitializationResult, _>(
            StationaryRejectionReason::InsufficientSamples {
                have: window.len() as usize,
                need: config.min_samples,
            },
        )
    } else if duration.lt(config.min_stationary_window_seconds) {
        result == Err::<VisualInertialInitializationResult, _>(
            StationaryRejectionReason::InsufficientDuration {
                have: duration,
                need: config.min_stationary_window_seconds,
            },
        )
    } else {
        &&& numerics.measures(window, duration, config.gravity_world, statistics)
        &&& match motion_of(config, statistics) {
            Some(reason) => result == Err::<VisualInertialInitializationResult, _>(reason),
            None => {
                &&& call_ensures(
                    numerics.attitude,
                    (&statistics.accel_mean, &config.gravity_world),
                    attitude,
                )
                &&& result == Ok::<_, StationaryRejectionReason>(
                    VisualInertialInitializationResult {
                        gravity_world: config.gravity_world,
                        initial_rotation_body_to_world: attitude.rotation_body_to_world,
                        initial_velocity_world: Point3 {
                            x: Scalar::zero(),
                            y: Scalar::zero(),
                            z: Scalar::zero(),
                        },
                        bias_gyro: statistics.gyro_mean,
                        bias_acc: attitude.bias_acc,
                        samples_consumed: window.len() as usize,
                        duration_seconds: duration,
                        gyro_std: statistics.gyro_std,
                        accel_std: statistics.accel_std,
                        mean_accel_magnitude: statistics.mean_accel_magnitude,
                    },
                )
            },
        }
    }
}

/// Accumulates samples until a stationary window is found.
#[derive(Clone, Debug, PartialEq, Eq)]
pub struct VisualInertialInitializer {
    config: VisualInertialInitializerConfig,
    samples: Vec<ImuSampleRecord>,
}

/// The state of an initializer.
#[verifier::ext_equal]
pub struct InitializerModel {
    pub config: VisualInertialInitializerConfig,
    pub samples: Seq<ImuSampleRecord>,
}

impl View for VisualInertialInitializer {
    type V = InitializerModel;

    closed spec fn view(&self) -> InitializerModel {
        InitializerModel { config: self.config, samples: self.samples@ }
    }
}

impl InitializerModel {
    /// Every buffered sample lasts for a positive, finite time.
    pub open spec fn wf(self) -> bool {
        forall|k: int|
            0 <= k < self.samples.len() ==> is_usable_duration((#[trigger] self.samples[k]).dt)
    }
}

/// A duration is usable: positive and finite.
pub open spec fn is_usable_duration(dt: Scalar) -> bool {
    Scalar::zero().lt(dt) && dt.is_finite()
}

impl VisualInertialInitializer {
    /// An initializer without samples.
    pub fn new(config: VisualInertialInitializerConfig) -> (initializer: Self)
        ensures
            initializer@ == (InitializerModel { config, samples: Seq::empty() }),
            initializer@.wf(),
    {
        VisualInertialInitializer { config, samples: Vec::new() }
    }

    /// Appends one sample. One whose duration is not positive and finite is dropped, to
    /// keep raw replays robust against duplicated or unordered timestamps.
    pub fn push_sample(&mut self, gyro: Point3, accel: Point3, dt: Scalar)
        requires
            old(self)@.wf(),
        ensures
            final(self)@.wf(),
            final(self)@ == (InitializerModel {
                samples: if is_usable_duration(dt) {
                    old(self)@.samples.push(ImuSampleRecord { gyro, accel, dt })
                } else {
                    old(self)@.samples
                },
                ..old(self)@
            }),
    {
        if dt.le(Scalar::zero()) || !dt.is_finite() {
            return ;
        }
        self.samples.push(ImuSampleRecord { gyro, accel, dt });
        proof {
            assert forall|k: int| 0 <= k < self@.samples.len() implies is_usable_duration(
                (#[trigger] self@.samples[k]).dt,
            ) by {
                if k < old(self)@.samples.len() {
                    assert(self@.samples[k] == old(self)@.samples[k]);
                }
            }
        }
    }

    /// Number of buffered samples.
    pub fn samples_seen(&self) -> (count: usize)
        ensures
            count == self@.samples.len(),
    {
        self.samples.len()
    }

    /// Duration of the buffered samples; `total` sums a list of numbers.
    pub fn buffered_duration_seconds<T>(&self, total: T) -> (duration: Scalar) where
        T: Fn(&Vec<Scalar>) -> Scalar,

        requires
            forall|values: Vec<Scalar>| call_requires(total, (&values,)),
        ensures
            exists|list: Vec<Scalar>|
                list@ == durations(self@.samples) && #[trigger] call_ensures(
                    total,
                    (&list,),
                    duration,
                ),
    {
        let list = self.list_durations();
        total(&list)
    }

    fn list_durations(&self) -> (list: Vec<Scalar>)
        ensures
            list@ == durations(self@.samples),
    {
        let mut list: Vec<Scalar> = Vec::new();
        let mut i: usize = 0;
        while i < self.samples.len()
            invariant
                i <= self.samples.len(),
                list.len() == i,
                forall|k: int| 0 <= k < i ==> #[trigger] list[k] == self.samples[k].dt,
            decreases self.samples.len() - i,
        {
            list.push(self.samples[i].dt);
            i += 1;
        }
        assert(list@ =~= durations(self@.samples));
        list
    }

    /// Drops every sample; the configuration stays.
    pub fn reset(&mut self)
        ensures
            final(self)@ == (InitializerModel { samples: Seq::empty(), ..old(self)@ }),
            final(self)@.wf(),
    {
        self.samples.clear();
    }

    pub fn config(&self) -> (config: &VisualInertialInitializerConfig)
        ensures
            *config == self@.config,
    {
        &self.config
    }

    /// The detector window and its duration.
    fn detector_window_slice<A, T, S, R>(&self, numerics: &StationaryNumerics<A, T, S, R>) -> (found: (
        Vec<ImuSampleRecord>,
        Scalar,
    )) where
    A: Fn(Scalar, Scalar) -> Scalar,
    T: Fn(&Vec<Scalar>) -> Scalar,
    S: Fn(&Vec<ImuSampleRecord>, Scalar, &Point3) -> WindowStatistics,
    R: Fn(&Point3, &Point3) -> Attitude,
        requires
            numerics.callable(),
        ensures
            is_detector_window(
                self@.samples,
                self@.config.detector_window_seconds,
                found.0@,
                found.1,
                *numerics,
            ),
    {
        let width = self.config.detector_window_seconds;
        let count: usize = self.samples.len();
        if !width.is_finite() || width.le(Scalar::zero()) {
            let list = self.list_durations();
            let duration = (numerics.total)(&list);
            assert(numerics.totals(durations(self@.samples), duration));
            let all = copy_from(&self.samples, 0);
            assert(all@ =~= self@.samples);
            return (all, duration);
        }
        let ghost mut sums: Seq<Scalar> = seq![Scalar::zero()];
        let mut time = Scalar::zero();
        let mut taken: usize = 0;
        let mut full: bool = false;
        while taken < count && !full
            invariant
                taken <= count,
                count == self.samples.len(),
                numerics.callable(),
                sums.len() == taken + 1,
                sums[0] == Scalar::zero(),
                time == sums.last(),
                forall|j: int|
                    #![trigger sums[j]]
                    0 <= j < taken ==> call_ensures(
                        numerics.plus,
                        (sums[j], self.samples[count - 1 - j].dt),
                        sums[j + 1],
                    ),
                forall|j: int| 0 < j < taken ==> !width.le(#[trigger] sums[j]),
                taken > 0 ==> full == width.le(sums[taken as int]),
                taken == 0 ==> !full,
            decreases count - taken,
        {
            let dt = self.samples[count - 1 - taken].dt;
            let next = (numerics.plus)(time, dt);
            let ghost before = sums;
            proof {
                sums = sums.push(next);
            }
            time = next;
            taken += 1;
            full = width.le(time);
            proof {
                assert forall|j: int| #![trigger sums[j]] 0 <= j < taken implies call_ensures(
                    numerics.plus,
                    (sums[j], self.samples[count - 1 - j].dt),
                    sums[j + 1],
                ) by {
                    if j < taken - 1 {
                        assert(before[j] == sums[j]);
                    }
                }
                assert forall|j: int| 0 < j < taken implies !width.le(#[trigger] sums[j]) by {
                    assert(before[j] == sums[j]);
                }
            }
        }
        let window = copy_from(&self.samples, count - taken);
        assert(window.len() == taken);
        assert(is_trailing_window(self@.samples, width, taken as int, sums, *numerics));
        (window, time)
    }

    /// Attempts to recover the bootstrap from the buffered samples; otherwise says which
    /// gate the detector window fails first.
    pub fn try_initialize<A, T, S, R>(&self, numerics: &StationaryNumerics<A, T, S, R>) -> (result: Result<
        VisualInertialInitializationResult,
        StationaryRejectionReason,
    >) where
    A: Fn(Scalar, Scalar) -> Scalar,
    T: Fn(&Vec<Scalar>) -> Scalar,
    S: Fn(&Vec<ImuSampleRecord>, Scalar, &Point3) -> WindowStatistics,
    R: Fn(&Point3, &Point3) -> Attitude,
        requires
            numerics.callable(),
        ensures
            exists|
                window: Seq<ImuSampleRecord>,
                duration: Scalar,
                statistics: WindowStatistics,
                attitude: Attitude,
            |
                {
                    &&& #[trigger] is_detector_window(
                        self@.samples,
                        self@.config.detector_window_seconds,
                        window,
                        duration,
                        *numerics,
                    )
                    &&& #[trigger] is_window_verdict(
                        self@.config,
                        window,
                        duration,
                        statistics,
                        attitude,
                        *numerics,
                        result,
                    )
                },
    {
        let config = &self.config;
        let (window, duration) = self.detector_window_slice(numerics);
        let ghost no_point = Point3 { x: duration, y: duration, z: duration };
        let ghost no_statistics = WindowStatistics {
            gyro_mean: no_point,
            accel_mean: no_point,
            gyro_std: no_point,
            accel_std: no_point,
            mean_accel_magnitude: duration,
            gravity_magnitude: duration,
            magnitude_error: duration,
        };
        let ghost no_attitude = Attitude {
            rotation_body_to_world: Quaternion {
                w: duration,
                x: duration,
                y: duration,
                z: duration,
            },
            bias_acc: no_point,
        };
        if window.len() < config.min_samples {
            let reason = StationaryRejectionReason::InsufficientSamples {
                have: window.len(),
                need: config.min_samples,
            };
            assert(is_window_verdict(
                self@.config,
                window@,
                duration,
                no_statistics,
                no_attitude,
                *numerics,
                Err::<VisualInertialInitializationResult, _>(reason),
            ));
            return Err(reason);
        }
        if duration.lt(config.min_stationary_window_seconds) {
            let reason = StationaryRejectionReason::InsufficientDuration {
                have: duration,
                need: config.min_stationary_window_seconds,
            };
            assert(is_window_verdict(
                self@.config,
                window@,
                duration,
                no_statistics,
                no_attitude,
                *numerics,
                Err::<VisualInertialInitializationResult, _>(reason),
            ));
            return Err(reason);
        }
        let statistics = (numerics.statistics)(&window, duration, &config.gravity_world);
        assert(numerics.measures(window@, duration, config.gravity_world, statistics));
        if let Some(reason) = check_stationary(config, &statistics) {
            assert(is_window_verdict(
                self@.config,
                window@,
                duration,
                statistics,
                no_attitude,
                *numerics,
                Err::<VisualInertialInitializationResult, _>(reason),
            ));
            return Err(reason);
        }
        let attitude = (numerics.attitude)(&statistics.accel_mean, &config.gravity_world);
        let result: Result<VisualInertialInitializationResult, StationaryRejectionReason> = Ok(
            VisualInertialInitializationResult {
                gravity_world: config.gravity_world,
                initial_rotation_body_to_world: attitude.rotation_body_to_world,
                initial_velocity_world: Point3 {
                    x: Scalar::zero(),
                    y: Scalar::zero(),
                    z: Scalar::zero(),
                },
                bias_gyro: statistics.gyro_mean,
                bias_acc: attitude.bias_acc,
                samples_consumed: window.len(),
                duration_seconds: duration,
                gyro_std: statistics.gyro_std,
                accel_std: statistics.accel_std,
                mean_accel_magnitude: statistics.mean_accel_magnitude,
            },
        );
        assert(is_window_verdict(
            self@.config,
            window@,
            duration,
            statistics,
            attitude,
            *numerics,
            result,
        ));
        result
    }
}

fn copy_from(samples: &Vec<ImuSampleRecord>, start: usize) -> (copy: Vec<ImuSampleRecord>)
    requires
        start <= samples.len(),
    ensures
        copy@ == samples@.skip(start as int),
{
    let mut copy: Vec<ImuSampleRecord> = Vec::new();
    let mut i: usize = start;
    while i < samples.len()
        invariant
            start <= i <= samples.len(),
            copy@ == samples@.subrange(start as int, i as int),
        decreases samples.len() - i,
    {
        copy.push(samples[i]);
        i += 1;
    }
    assert(samples@.subrange(start as int, samples.len() as int) =~= samples@.skip(start as int));
    copy
}

/// A window that initializes is at rest by every gate: long enough, and with statistics
/// that no gate objects to. The velocity is zero.
pub proof fn initialization_passed_every_gate<A, T, S, R>(
    config: VisualInertialInitializerConfig,
    window: Seq<ImuSampleRecord>,
    duration: Scalar,
    statistics: WindowStatistics,
    attitude: Attitude,
    numerics: StationaryNumerics<A, T, S, R>,
    found: VisualInertialInitializationResult,
) where
    A: Fn(Scalar, Scalar) -> Scalar,
    T: Fn(&Vec<Scalar>) -> Scalar,
    S: Fn(&Vec<ImuSampleRecord>, Scalar, &Point3) -> WindowStatistics,
    R: Fn(&Point3, &Point3) -> Attitude,
    requires
        is_window_verdict(config, window, duration, statistics, attitude, numerics, Ok(found)),
    ensures
        window.len() >= config.min_samples,
        !duration.lt(config.min_stationary_window_seconds),
        is_quiet(found.gyro_std, config.max_gyro_std),
        is_quiet(found.accel_std, config.max_accel_std),
        !config.max_accel_magnitude_error.lt(statistics.magnitude_error),
        found.initial_velocity_world == (Point3 {
            x: Scalar::zero(),
            y: Scalar::zero(),
            z: Scalar::zero(),
        }),
{
}

/// Every component is finite and none is above the limit.
pub open spec fn stays_below(deviation: Point3, limit: Scalar) -> bool {
    &&& deviation.x.is_finite() && deviation.y.is_finite() && deviation.z.is_finite()
    &&& !limit.lt(deviation.x) && !limit.lt(deviation.y) && !limit.lt(deviation.z)
}

/// What a window is told: that it is too small, else too short, else that the rotation
/// rates vary too much, else the accelerations, else that their mean is not that of
/// gravity. It initialises exactly where none of these holds.
pub proof fn windows_are_judged_by_every_gate<A, T, S, R>(
    config: VisualInertialInitializerConfig,
    window: Seq<ImuSampleRecord>,
    duration: Scalar,
    statistics: WindowStatistics,
    attitude: Attitude,
    numerics: StationaryNumerics<A, T, S, R>,
    result: Result<VisualInertialInitializationResult, StationaryRejectionReason>,
) where
    A: Fn(Scalar, Scalar) -> Scalar,
    T: Fn(&Vec<Scalar>) -> Scalar,
    S: Fn(&Vec<ImuSampleRecord>, Scalar, &Point3) -> WindowStatistics,
    R: Fn(&Point3, &Point3) -> Attitude,

    requires
        is_window_verdict(config, window, duration, statistics, attitude, numerics, result),
        window.len() <= usize::MAX,
    ensures
        ({
            let epsilon = Scalar { bits: EPSILON_BITS };
            let large = window.len() >= config.min_samples;
            let long = !duration.lt(config.min_stationary_window_seconds);
            let steady = stays_below(statistics.gyro_std, config.max_gyro_std);
            let still = stays_below(statistics.accel_std, config.max_accel_std);
            let upright = !config.max_accel_magnitude_error.lt(statistics.magnitude_error)
                && !statistics.mean_accel_magnitude.le(epsilon);
            &&& result is Ok <==> large && long && steady && still && upright
            &&& !large ==> result == Err::<VisualInertialInitializationResult, _>(
                StationaryRejectionReason::InsufficientSamples {
                    have: window.len() as usize,
                    need: config.min_samples,
                },
            )
            &&& large && !long ==> result == Err::<VisualInertialInitializationResult, _>(
                StationaryRejectionReason::InsufficientDuration {
                    have: duration,
                    need: config.min_stationary_window_seconds,
                },
            )
            &&& large && long && !steady ==> result == Err::<VisualInertialInitializationResult, _>(
                StationaryRejectionReason::GyroNoiseTooHigh {
                    observed: statistics.gyro_std,
                    limit: config.max_gyro_std,
                },
            )
            &&& large && long && steady && !still ==> result == Err::<
                VisualInertialInitializationResult,
                _,
            >(
                StationaryRejectionReason::AccelNoiseTooHigh {
                    observed: statistics.accel_std,
                    limit: config.max_accel_std,
                },
            )
            &&& large && long && steady && still && !upright ==> result == Err::<
                VisualInertialInitializationResult,
                _,
            >(
                StationaryRejectionReason::AccelMagnitudeMismatch {
                    observed: statistics.mean_accel_magnitude,
                    expected: statistics.gravity_magnitude,
                    tolerance: config.max_accel_magnitude_error,
                },
            )
            &&& large && long ==> numerics.measures(
                window,
                duration,
                config.gravity_world,
                statistics,
            )
            &&& result matches Ok(found) ==> {
                &&& found.gravity_world == config.gravity_world
                &&& found.bias_gyro == statistics.gyro_mean
                &&& found.gyro_std == statistics.gyro_std
                &&& found.accel_std == statistics.accel_std
                &&& found.mean_accel_magnitude == statistics.mean_accel_magnitude
                &&& found.samples_consumed == window.len()
                &&& found.duration_seconds == duration
                &&& found.initial_rotation_body_to_world == attitude.rotation_body_to_world
                &&& found.bias_acc == attitude.bias_acc
                &&& call_ensures(
                    numerics.attitude,
                    (&statistics.accel_mean, &config.gravity_world),
                    attitude,
                )
            }
        }),
{
}

/// The detector looks at the last samples only: with a finite positive width at the fewest
/// that span it, or at all where they do not; without one at all of them.
pub proof fn the_detector_looks_at_the_latest_samples<A, T, S, R>(
    samples: Seq<ImuSampleRecord>,
    width: Scalar,
    window: Seq<ImuSampleRecord>,
    duration: Scalar,
    numerics: StationaryNumerics<A, T, S, R>,
) -> (sums: Seq<Scalar>) where
    A: Fn(Scalar, Scalar) -> Scalar,
    T: Fn(&Vec<Scalar>) -> Scalar,
    S: Fn(&Vec<ImuSampleRecord>, Scalar, &Point3) -> WindowStatistics,
    R: Fn(&Point3, &Point3) -> Attitude,

    requires
        is_detector_window(samples, width, window, duration, numerics),
    ensures
        window.len() <= samples.len(),
        forall|k: int|
            0 <= k < window.len() ==> #[trigger] window[k] == samples[samples.len() - window.len()
                + k],
        !(width.is_finite() && Scalar::zero().lt(width)) ==> window.len() == samples.len(),
        width.is_finite() && Scalar::zero().lt(width) ==> {
            &&& sums.len() == window.len() + 1
            &&& sums[0] == Scalar::zero()
            &&& sums.last() == duration
            &&& forall|j: int|
                #![trigger sums[j]]
                0 <= j < window.len() ==> call_ensures(
                    numerics.plus,
                    (sums[j], window[window.len() - 1 - j].dt),
                    sums[j + 1],
                )
            &&& forall|j: int| 0 < j < window.len() ==> !width.le(#[trigger] sums[j])
            &&& window.len() < samples.len() ==> width.le(duration)
        },
{
    if is_windowed(width) {
        let sums = choose|sums: Seq<Scalar>|
            #[trigger] is_trailing_window(samples, width, window.len() as int, sums, numerics)
                && duration == sums.last();
        assert forall|j: int|
            #![trigger sums[j]]
            0 <= j < window.len() implies call_ensures(
            numerics.plus,
            (sums[j], window[window.len() - 1 - j].dt),
            sums[j + 1],
        ) by {
            assert(window[window.len() - 1 - j] == samples[samples.len() - 1 - j]);
        }
        sums
    } else {
        Seq::empty()
    }
}

/// A sample counts where its duration is finite and positive.
pub proof fn usable_durations_are_positive(dt: Scalar)
    ensures
        is_usable_duration(dt) <==> !dt.is_nan() && !dt.le(Scalar::zero()) && dt.lt(
            Scalar::infinity(),
        ),
{
}

/// The tilt is zero where gravity has no usable direction, and what the caller computes
/// otherwise.
pub proof fn tilt_needs_a_direction<T>(
    gravity: Point3,
    norm: Scalar,
    recovered: Quaternion,
    truth: Quaternion,
    tilt: T,
    residual: Scalar,
) where T: Fn(&Point3, Scalar, &Quaternion, &Quaternion) -> Scalar
    requires
        is_tilt_residual(gravity, norm, recovered, truth, tilt, residual),
    ensures
        norm.is_finite() && (Scalar { bits: EPSILON_BITS }).lt(norm) ==> call_ensures(
            tilt,
            (&gravity, norm, &recovered, &truth),
            residual,
        ),
        !(norm.is_finite() && (Scalar { bits: EPSILON_BITS }).lt(norm)) ==> residual
            == Scalar::zero(),
{
}

/// Statistics are those of the window that is judged, over its duration; a total is that of
/// the durations of all samples. Every sample that is kept has a finite positive duration.
pub proof fn statistics_are_of_the_window<A, T, S, R>(
    numerics: StationaryNumerics<A, T, S, R>,
    window: Seq<ImuSampleRecord>,
    time: Scalar,
    gravity: Point3,
    found: WindowStatistics,
    sum: Scalar,
    model: InitializerModel,
    k: int,
) where
    A: Fn(Scalar, Scalar) -> Scalar,
    T: Fn(&Vec<Scalar>) -> Scalar,
    S: Fn(&Vec<ImuSampleRecord>, Scalar, &Point3) -> WindowStatistics,
    R: Fn(&Point3, &Point3) -> Attitude,

    ensures
        numerics.measures(window, time, gravity, found) <==> exists|list: Vec<ImuSampleRecord>|
            list@ == window && #[trigger] call_ensures(
                numerics.statistics,
                (&list, time, &gravity),
                found,
            ),
        numerics.totals(durations(window), sum) ==> exists|list: Vec<Scalar>|
            {
                &&& #[trigger] call_ensures(numerics.total, (&list,), sum)
                &&& list@.len() == window.len()
                &&& forall|j: int| 0 <= j < window.len() ==> #[trigger] list@[j] == window[j].dt
            },
        model.wf() && 0 <= k < model.samples.len() ==> model.samples[k].dt.is_finite()
            && !model.samples[k].dt.le(Scalar::zero()),
{
    if numerics.totals(durations(window), sum) {
        let list = choose|list: Vec<Scalar>| list@ == durations(window) && #[trigger]
            call_ensures(numerics.total, (&list,), sum);
        assert(call_ensures(numerics.total, (&list,), sum));
    }
}

} // verus!
