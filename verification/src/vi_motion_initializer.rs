//! Visual-inertial initialisation from motion.
//!
//! Keyframes are registered until there are enough of them and they have moved far enough.
//! Then an inertial solve recovers their velocities and biases against fixed poses, after
//! gyroscope bias and gravity have been estimated where that is asked for. A staged
//! schedule may hold the biases first and release them later. Every result passes its gates
//! before it is kept; the poses themselves are never changed.
use crate::bundle::{BaConfig, BaResult, LinearSolver};
use crate::geometry::{Point3, Pose, Quaternion};
use crate::scalar::Scalar;
use crate::sequences::{
    contains_id, is_sorted_set_of, lemma_take_all, sorted_set, sorted_set_of,
    strictly_increasing,
};
use crate::vi_alignment::{
    alignment_window, estimate_gravity_and_velocities, estimate_gyro_bias, find_pose, is_gravity_alignment,
    is_gyro_alignment, pose_of, AlignmentTask, GravityNumerics, GravityVelocityAlignment,
    GyroBiasAlignment, GyroNumerics, GyroStep, ImuFactor, KeyframePoses, RawGravity, TangentStep,
};
use crate::vi_initializer::VisualInertialInitializationResult;
use std::collections::BTreeMap;
use vstd::prelude::*;

verus! {

/// When biases are released to the solver: with so many keyframes and so much motion.
#[derive(Clone, Copy, Debug, PartialEq, Eq, Structural)]
pub struct BiasReleaseSchedule {
    pub min_keyframes: usize,
    pub min_translation_meters: Scalar,
}

/// Settings of the solve that can recover the scale as well.
#[derive(Clone, Copy, Debug, PartialEq, Eq, Structural)]
pub struct Viba2Config {
    pub initial_scale: Scalar,
    pub recover_scale: bool,
    pub max_outer_iterations: usize,
    pub scale_tolerance: Scalar,
}

/// Settings of the initialiser.
#[derive(Clone, Copy, Debug, PartialEq, Eq, Structural)]
pub struct MotionBasedViInitializerConfig {
    pub min_keyframes: usize,
    pub min_translation_meters: Scalar,
    /// Gravity in the world frame; its norm is relied on even where its direction is not.
    pub gravity_world: Point3,
    /// Composed onto each camera pose, gives the pose of the body.
    pub body_to_camera: Pose,
    pub ba_config: BaConfig,
    /// Settings of the solve once biases are free; they say whether it recovers the scale.
    pub viba2: Option<Viba2Config>,
    pub max_velocity_magnitude_mps: Option<Scalar>,
    pub max_gyro_bias_magnitude_rad_s: Option<Scalar>,
    pub max_accel_bias_magnitude_mps2: Option<Scalar>,
    pub max_final_imu_nis_per_dof: Option<Scalar>,
    pub max_final_imu_rotation_residual_rms_rad: Option<Scalar>,
    pub max_final_imu_velocity_residual_rms_mps: Option<Scalar>,
    pub max_final_imu_position_residual_rms_meters: Option<Scalar>,
    pub bias_release: Option<BiasReleaseSchedule>,
    pub estimate_gravity: bool,
    /// How far the norm of the estimated gravity may be off, as a ratio.
    pub max_gravity_norm_deviation_ratio: Scalar,
    pub estimate_gyro_bias: bool,
}

/// The bit pattern of `2.0`.
pub const DEFAULT_TRANSLATION_BITS: u64 = 0x4000_0000_0000_0000;

/// The bit pattern of `9.81`.
pub const STANDARD_GRAVITY_BITS: u64 = 0x4023_9EB8_51EB_851F;

/// The bit pattern of `0.3`.
pub const DEFAULT_DEVIATION_BITS: u64 = 0x3FD3_3333_3333_3333;

impl Default for MotionBasedViInitializerConfig {
    fn default() -> (config: MotionBasedViInitializerConfig)
        ensures
            config == (MotionBasedViInitializerConfig {
                min_keyframes: 10,
                min_translation_meters: Scalar { bits: DEFAULT_TRANSLATION_BITS },
                gravity_world: Point3 {
                    x: Scalar::zero(),
                    y: Scalar { bits: STANDARD_GRAVITY_BITS },
                    z: Scalar::zero(),
                },
                body_to_camera: Pose {
                    rotation: Quaternion {
                        w: Scalar::one(),
                        x: Scalar::zero(),
                        y: Scalar::zero(),
                        z: Scalar::zero(),
                    },
                    translation: Point3::zero(),
                },
                ba_config: BaConfig {
                    max_iterations: Some(10),
                    robust_kernel: None,
                    linear_solver: Some(LinearSolver::Sparse),
                },
                viba2: None,
                max_velocity_magnitude_mps: None,
                max_gyro_bias_magnitude_rad_s: None,
                max_accel_bias_magnitude_mps2: None,
                max_final_imu_nis_per_dof: None,
                max_final_imu_rotation_residual_rms_rad: None,
                max_final_imu_velocity_residual_rms_mps: None,
                max_final_imu_position_residual_rms_meters: None,
                bias_release: None,
                estimate_gravity: false,
                max_gravity_norm_deviation_ratio: Scalar { bits: DEFAULT_DEVIATION_BITS },
                estimate_gyro_bias: false,
            }),
    {
        MotionBasedViInitializerConfig {
            min_keyframes: 10,
            min_translation_meters: Scalar::from_bits(DEFAULT_TRANSLATION_BITS),
            gravity_world: Point3 {
                x: Scalar::zero(),
                y: Scalar::from_bits(STANDARD_GRAVITY_BITS),
                z: Scalar::zero(),
            },
            body_to_camera: Pose {
                rotation: Quaternion {
                    w: Scalar::one(),
                    x: Scalar::zero(),
                    y: Scalar::zero(),
                    z: Scalar::zero(),
                },
                translation: Point3::zero(),
            },
            ba_config: BaConfig {
                max_iterations: Some(10),
                robust_kernel: None,
                linear_solver: Some(LinearSolver::Sparse),
            },
            viba2: None,
            max_velocity_magnitude_mps: None,
            max_gyro_bias_magnitude_rad_s: None,
            max_accel_bias_magnitude_mps2: None,
            max_final_imu_nis_per_dof: None,
            max_final_imu_rotation_residual_rms_rad: None,
            max_final_imu_velocity_residual_rms_mps: None,
            max_final_imu_position_residual_rms_meters: None,
            bias_release: None,
            estimate_gravity: false,
            max_gravity_norm_deviation_ratio: Scalar::from_bits(DEFAULT_DEVIATION_BITS),
            estimate_gyro_bias: false,
        }
    }
}

/// Velocity and biases of a keyframe.
#[derive(Clone, Copy, Debug, PartialEq, Eq, Structural)]
pub struct KeyframeImuState {
    pub velocity_world: Point3,
    pub bias_gyro: Point3,
    pub bias_acc: Point3,
}

/// How the inertial residuals of a solve are made up, where it has any.
#[derive(Clone, Copy, Debug, PartialEq, Eq, Structural)]
pub struct BaCostBreakdown {
    pub imu_rotation_residual_rms_rad: Option<Scalar>,
    pub imu_velocity_residual_rms_mps: Option<Scalar>,
    pub imu_position_residual_rms_meters: Option<Scalar>,
    pub imu_normalized_squared_residual_per_dof: Option<Scalar>,
}

/// A recovered initialisation; `I` is what the solver records of one iteration.
#[derive(Clone, Debug, PartialEq, Eq)]
pub struct MotionBasedViInitializationResult<I> {
    pub keyframe_states: BTreeMap<u64, KeyframeImuState>,
    pub keyframe_ids: Vec<u64>,
    pub imu_factors_used: usize,
    pub scale: Scalar,
    pub scale_history: Vec<Scalar>,
    pub viba2_iterations_run: usize,
    pub trigger_translation_meters: Scalar,
    pub ba_result: BaResult<I>,
    pub initial_cost_breakdown: BaCostBreakdown,
    pub final_cost_breakdown: BaCostBreakdown,
    /// Whether biases were solved for; if not, the result is not final.
    pub bias_released: bool,
    pub estimated_gravity_world: Option<Point3>,
    pub estimated_gyro_bias: Option<Point3>,
}

/// Why an attempt gave no result.
#[allow(inconsistent_fields)]
#[derive(Clone, Copy, Debug, PartialEq, Eq, Structural)]
pub enum MotionBasedViRejectionReason {
    InsufficientKeyframes { have: usize, need: usize },
    InsufficientTranslation { have: Scalar, need: Scalar },
    /// No factor connects two registered keyframes.
    NoUsableImuFactors,
    /// A registered keyframe has no pose.
    MissingKeyframeData,
    SolverFailed,
    /// The fastest keyframe is too fast.
    VelocityOutOfRange { kf_id: u64, magnitude_mps: Scalar, limit_mps: Scalar },
    GyroBiasOutOfRange { kf_id: u64, magnitude_rad_s: Scalar, limit_rad_s: Scalar },
    AccelBiasOutOfRange { kf_id: u64, magnitude_mps2: Scalar, limit_mps2: Scalar },
    ImuNisOutOfRange {
        normalized_nis_per_dof: Scalar,
        rotation_residual_rms_rad: Option<Scalar>,
        velocity_residual_rms_mps: Option<Scalar>,
        position_residual_rms_meters: Option<Scalar>,
        limit: Scalar,
    },
    ImuRawResidualOutOfRange {
        rotation_residual_rms_rad: Option<Scalar>,
        velocity_residual_rms_mps: Option<Scalar>,
        position_residual_rms_meters: Option<Scalar>,
        max_rotation_residual_rms_rad: Option<Scalar>,
        max_velocity_residual_rms_mps: Option<Scalar>,
        max_position_residual_rms_meters: Option<Scalar>,
    },
    /// Biases were held once already, and may not be released yet.
    AwaitingBiasReleaseExcitation {
        have_keyframes: usize,
        need_keyframes: usize,
        have_translation_meters: Scalar,
        need_translation_meters: Scalar,
    },
    GravityEstimateDegenerate,
    GravityEstimateOutOfRange {
        raw_norm_mps2: Scalar,
        expected_mps2: Scalar,
        max_deviation_ratio: Scalar,
    },
    GyroBiasEstimateDegenerate,
}

/// Where the initialiser stands.
#[derive(Clone, Copy, Debug, PartialEq, Eq)]
pub enum MotionBasedViInitializationStatus<'a, I> {
    Waiting {
        keyframes_observed: usize,
        cumulative_translation_meters: Scalar,
        last_rejection: Option<MotionBasedViRejectionReason>,
        velocity_stage_completed: bool,
        last_gravity_alignment: Option<&'a GravityVelocityAlignment>,
        last_gyro_bias_alignment: Option<GyroBiasAlignment>,
    },
    Initialised { result: &'a MotionBasedViInitializationResult<I> },
}

/// What the solver may change besides the velocities.
#[derive(Clone, Copy, Debug, PartialEq, Eq, Structural)]
pub enum InertialMode {
    /// Nothing: the biases are held.
    VelocitiesOnly,
    /// The biases.
    WithBias,
    /// The biases, and the scale where the settings recover it.
    WithScale(Viba2Config),
}

impl InertialMode {
    pub open spec fn spec_recovers_scale(self) -> bool {
        match self {
            InertialMode::WithScale(settings) => settings.recover_scale,
            _ => false,
        }
    }

    /// Whether the scale is recovered.
    #[verifier::when_used_as_spec(spec_recovers_scale)]
    pub fn recovers_scale(self) -> (recovers: bool)
        ensures
            recovers == self.spec_recovers_scale(),
    {
        match self {
            InertialMode::WithScale(settings) => settings.recover_scale,
            _ => false,
        }
    }
}

/// What the inertial solver is asked: the keyframes in the order of registration with the
/// poses of their bodies and first states, and the factors in the order given.
#[derive(Clone, Debug, PartialEq, Eq)]
pub struct InertialTask {
    pub mode: InertialMode,
    pub keyframe_ids: Vec<u64>,
    pub body_poses: Vec<Pose>,
    pub states: Vec<KeyframeImuState>,
    pub factors: Vec<ImuFactor>,
    pub ba_config: BaConfig,
}

/// What the inertial solver found. The scale matters where it is recovered.
#[derive(Clone, Debug, PartialEq, Eq)]
pub struct InertialStats<I> {
    pub keyframe_states: BTreeMap<u64, KeyframeImuState>,
    pub keyframe_ids: Vec<u64>,
    pub imu_factor_count: usize,
    pub scale: Scalar,
    pub scale_history: Vec<Scalar>,
    pub outer_iterations_run: usize,
    pub ba_result: BaResult<I>,
    pub initial_cost_breakdown: BaCostBreakdown,
    pub final_cost_breakdown: BaCostBreakdown,
}

/// A solve that may not change the biases leaves every keyframe those that it began with.
pub open spec fn holds_biases<I>(task: InertialTask, stats: InertialStats<I>) -> bool {
    task.mode is VelocitiesOnly ==> forall|id: u64| #[trigger]
        stats.keyframe_states@.contains_key(id) ==> exists|k: int|
            {
                &&& 0 <= k < task.states.len()
                &&& k < task.keyframe_ids.len()
                &&& task.keyframe_ids[k] == id
                &&& (#[trigger] task.states[k]).bias_gyro == stats.keyframe_states@[id].bias_gyro
                &&& task.states[k].bias_acc == stats.keyframe_states@[id].bias_acc
            }
}

/// The computations that the initialiser needs.
pub struct MotionNumerics<C, V, N, X, S, GR, GN, GT, GS, GE, YR, YT> {
    /// The composition of two poses.
    pub compose: C,
    /// The velocity between two centres over a time.
    pub velocity: V,
    /// The norm of a vector.
    pub norm: N,
    /// How far a norm is off an expected one, as a ratio of it.
    pub deviation: X,
    /// The inertial solver.
    pub solve: S,
    pub gravity: GravityNumerics<GR, GN, GT, GS, GE>,
    pub gyro: GyroNumerics<YR, YT>,
}

/// Every computation can be asked for, and the solver holds the biases that it may not change.
pub open spec fn is_callable<C, V, N, X, S, GR, GN, GT, GS, GE, YR, YT, I>(
    numerics: MotionNumerics<C, V, N, X, S, GR, GN, GT, GS, GE, YR, YT>,
) -> bool where
    C: Fn(&Pose, &Pose) -> Pose,
    V: Fn(&Point3, &Point3, Scalar) -> Point3,
    N: Fn(&Point3) -> Scalar,
    X: Fn(Scalar, Scalar) -> Scalar,
    S: Fn(&InertialTask) -> Option<InertialStats<I>>,
    GR: Fn(&AlignmentTask) -> Option<RawGravity>,
    GN: Fn(&RawGravity) -> Point3,
    GT: Fn(&AlignmentTask, Scalar, &Point3) -> Option<TangentStep>,
    GS: Fn(Scalar, &Point3) -> Point3,
    GE: Fn(&AlignmentTask, &Point3, &Vec<Point3>) -> Scalar,
    YR: Fn(&AlignmentTask, &Point3) -> Scalar,
    YT: Fn(&AlignmentTask, &Point3) -> Option<GyroStep>,
 {
    &&& forall|a: Pose, b: Pose| call_requires(numerics.compose, (&a, &b))
    &&& forall|from: Point3, to: Point3, time: Scalar|
        call_requires(numerics.velocity, (&from, &to, time))
    &&& forall|vector: Point3| call_requires(numerics.norm, (&vector,))
    &&& forall|a: Scalar, b: Scalar| call_requires(numerics.deviation, (a, b))
    &&& forall|task: InertialTask| call_requires(numerics.solve, (&task,))
    &&& forall|task: InertialTask, stats: InertialStats<I>| #[trigger]
        call_ensures(numerics.solve, (&task,), Some(stats)) ==> holds_biases(task, stats)
    &&& numerics.gravity.callable()
    &&& numerics.gyro.callable()
}

/// State machine that recovers velocities and biases once there is enough motion.
#[derive(Clone, Debug, PartialEq, Eq)]
pub struct MotionBasedViInitializer<I> {
    config: MotionBasedViInitializerConfig,
    keyframes: Vec<(u64, Point3)>,
    cumulative_translation: Scalar,
    completed: Option<MotionBasedViInitializationResult<I>>,
    last_rejection: Option<MotionBasedViRejectionReason>,
    velocity_stage: Option<MotionBasedViInitializationResult<I>>,
    last_gravity_alignment: Option<GravityVelocityAlignment>,
    last_gyro_bias_alignment: Option<GyroBiasAlignment>,
}

/// The initialiser in the contracts.
#[verifier::ext_equal]
pub struct MotionModel<I> {
    pub config: MotionBasedViInitializerConfig,
    /// Registered keyframes with their centres.
    pub keyframes: Seq<(u64, Point3)>,
    pub cumulative_translation: Scalar,
    pub completed: Option<MotionBasedViInitializationResult<I>>,
    pub last_rejection: Option<MotionBasedViRejectionReason>,
    pub velocity_stage: Option<MotionBasedViInitializationResult<I>>,
    pub last_gravity_alignment: Option<GravityVelocityAlignment>,
    pub last_gyro_bias_alignment: Option<GyroBiasAlignment>,
}

/// Nothing registered and nothing recovered.
pub open spec fn fresh_model<I>(config: MotionBasedViInitializerConfig) -> MotionModel<I> {
    MotionModel {
        config,
        keyframes: Seq::empty(),
        cumulative_translation: Scalar::zero(),
        completed: None,
        last_rejection: None,
        velocity_stage: None,
        last_gravity_alignment: None,
        last_gyro_bias_alignment: None,
    }
}

impl<I> MotionModel<I> {
    /// No keyframe is registered twice, biases were held only where a schedule asks, and the
    /// result with held biases is kept apart from the final one.
    pub open spec fn wf(self) -> bool {
        &&& forall|i: int, j: int|
            0 <= i < j < self.keyframes.len() ==> (#[trigger] self.keyframes[i]).0 != (
            #[trigger] self.keyframes[j]).0
        &&& self.completed matches Some(result) ==> result.bias_released
        &&& self.velocity_stage matches Some(result) ==> !result.bias_released
            && self.config.bias_release is Some
    }

    /// Ids of the registered keyframes.
    pub open spec fn ids(self) -> Seq<u64> {
        self.keyframes.map_values(|keyframe: (u64, Point3)| keyframe.0)
    }

    /// Whether an attempt is worth making.
    pub open spec fn ready(self) -> bool {
        self.completed is None && self.keyframes.len() >= self.config.min_keyframes
            && self.config.min_translation_meters.le(self.cumulative_translation)
    }

    /// Whether biases may be solved for.
    pub open spec fn bias_free(self) -> bool {
        match self.config.bias_release {
            None => true,
            Some(schedule) => self.keyframes.len() >= schedule.min_keyframes
                && schedule.min_translation_meters.le(self.cumulative_translation),
        }
    }

    /// What the solver may change in the next attempt.
    pub open spec fn mode(self) -> InertialMode {
        if !self.bias_free() {
            InertialMode::VelocitiesOnly
        } else {
            match self.config.viba2 {
                Some(settings) => InertialMode::WithScale(settings),
                None => InertialMode::WithBias,
            }
        }
    }

    /// Why an attempt ends before anything is computed, if it does.
    pub open spec fn early_rejection(self, poses: Map<u64, Option<Pose>>) -> Option<
        MotionBasedViRejectionReason,
    > {
        if self.keyframes.len() < self.config.min_keyframes {
            Some(
                MotionBasedViRejectionReason::InsufficientKeyframes {
                    have: self.keyframes.len() as usize,
                    need: self.config.min_keyframes,
                },
            )
        } else if self.cumulative_translation.lt(self.config.min_translation_meters) {
            Some(
                MotionBasedViRejectionReason::InsufficientTranslation {
                    have: self.cumulative_translation,
                    need: self.config.min_translation_meters,
                },
            )
        } else if !self.bias_free() && self.velocity_stage is Some {
            let schedule = self.config.bias_release->0;
            Some(
                MotionBasedViRejectionReason::AwaitingBiasReleaseExcitation {
                    have_keyframes: self.keyframes.len() as usize,
                    need_keyframes: schedule.min_keyframes,
                    have_translation_meters: self.cumulative_translation,
                    need_translation_meters: schedule.min_translation_meters,
                },
            )
        } else if !(forall|k: int|
            0 <= k < self.keyframes.len() ==> pose_of(poses, (
            #[trigger] self.keyframes[k]).0) is Some) {
            Some(MotionBasedViRejectionReason::MissingKeyframeData)
        } else {
            None
        }
    }

    /// The model after an attempt.
    pub open spec fn after(self, attempt: Attempt<I>) -> MotionModel<I> {
        let base = MotionModel {
            last_gyro_bias_alignment: match attempt.gyro {
                Some(alignment) => alignment,
                None => self.last_gyro_bias_alignment,
            },
            last_gravity_alignment: match attempt.gravity {
                Some(alignment) => alignment,
                None => self.last_gravity_alignment,
            },
            last_rejection: match attempt.verdict {
                Ok(result) => None,
                Err(reason) => Some(reason),
            },
            ..self
        };
        match attempt.verdict {
            Ok(result) => if result.bias_released {
                MotionModel { completed: Some(result), ..base }
            } else {
                MotionModel { velocity_stage: Some(result), ..base }
            },
            Err(reason) => base,
        }
    }
}

impl<I> View for MotionBasedViInitializer<I> {
    type V = MotionModel<I>;

    closed spec fn view(&self) -> MotionModel<I> {
        MotionModel {
            config: self.config,
            keyframes: self.keyframes@,
            cumulative_translation: self.cumulative_translation,
            completed: self.completed,
            last_rejection: self.last_rejection,
            velocity_stage: self.velocity_stage,
            last_gravity_alignment: self.last_gravity_alignment,
            last_gyro_bias_alignment: self.last_gyro_bias_alignment,
        }
    }
}

/// What an attempt came to: the alignments that were tried, where they were, and a result
/// or the reason why there is none.
pub struct Attempt<I> {
    pub gyro: Option<Option<GyroBiasAlignment>>,
    pub gravity: Option<Option<GravityVelocityAlignment>>,
    pub verdict: Result<MotionBasedViInitializationResult<I>, MotionBasedViRejectionReason>,
}

/// The place of the keyframe with an id, if it is registered.
pub open spec fn place_of(keyframes: Seq<(u64, Point3)>, id: u64, k: int) -> Option<int>
    decreases keyframes.len() - k,
{
    if k >= keyframes.len() {
        None
    } else if keyframes[k].0 == id {
        Some(k)
    } else {
        place_of(keyframes, id, k + 1)
    }
}

/// A keyframe was registered with its centre: one that was there only moves its centre, and
/// any other but the first lengthens the chain by the distance from the last centre.
pub open spec fn is_registration<D, I>(
    before: MotionModel<I>,
    keyframe_id: u64,
    center: Point3,
    extend: D,
    after: MotionModel<I>,
) -> bool where D: Fn(Scalar, &Point3, &Point3) -> Scalar {
    match place_of(before.keyframes, keyframe_id, 0) {
        Some(k) => after == (MotionModel {
            keyframes: before.keyframes.update(k, (keyframe_id, center)),
            ..before
        }),
        None => {
            &&& after == (MotionModel {
                keyframes: before.keyframes.push((keyframe_id, center)),
                cumulative_translation: after.cumulative_translation,
                ..before
            })
            &&& if before.keyframes.len() == 0 {
                after.cumulative_translation == before.cumulative_translation
            } else {
                call_ensures(
                    extend,
                    (before.cumulative_translation, &before.keyframes.last().1, &center),
                    after.cumulative_translation,
                )
            }
        },
    }
}

impl<I> MotionBasedViInitializer<I> {
    /// An initialiser with nothing registered.
    pub fn new(config: MotionBasedViInitializerConfig) -> (initializer: Self)
        ensures
            initializer@ == fresh_model::<I>(config),
            initializer@.wf(),
    {
        let initializer = MotionBasedViInitializer {
            config,
            keyframes: Vec::new(),
            cumulative_translation: Scalar::zero(),
            completed: None,
            last_rejection: None,
            velocity_stage: None,
            last_gravity_alignment: None,
            last_gyro_bias_alignment: None,
        };
        assert(initializer@ =~= fresh_model::<I>(config));
        initializer
    }

    /// The settings.
    pub fn config(&self) -> (config: &MotionBasedViInitializerConfig)
        ensures
            *config == self@.config,
    {
        &self.config
    }

    /// Replaces gravity in the settings, and nothing else.
    pub fn set_gravity_world(&mut self, gravity_world: Point3)
        ensures
            final(self)@ == (MotionModel {
                config: MotionBasedViInitializerConfig { gravity_world, ..old(self)@.config },
                ..old(self)@
            }),
            old(self)@.wf() ==> final(self)@.wf(),
    {
        self.config = MotionBasedViInitializerConfig { gravity_world, ..self.config };
    }

    /// Forgets everything but the settings.
    pub fn reset(&mut self)
        ensures
            final(self)@ == fresh_model::<I>(old(self)@.config),
            final(self)@.wf(),
    {
        self.keyframes = Vec::new();
        self.cumulative_translation = Scalar::zero();
        self.completed = None;
        self.last_rejection = None;
        self.velocity_stage = None;
        self.last_gravity_alignment = None;
        self.last_gyro_bias_alignment = None;
        assert(self@ =~= fresh_model::<I>(old(self)@.config));
    }

    /// Number of registered keyframes.
    pub fn keyframes_observed(&self) -> (count: usize)
        ensures
            count == self@.keyframes.len(),
    {
        self.keyframes.len()
    }

    /// Length of the chain of registered centres.
    pub fn cumulative_translation_meters(&self) -> (length: Scalar)
        ensures
            length == self@.cumulative_translation,
    {
        self.cumulative_translation
    }

    /// Registers a keyframe with its centre. A keyframe that is registered already only
    /// moves its centre. Any but the first lengthens the chain; `extend` adds the distance
    /// between two centres to a length.
    pub fn register_keyframe<D>(&mut self, keyframe_id: u64, center: Point3, extend: D) where
        D: Fn(Scalar, &Point3, &Point3) -> Scalar,

        requires
            old(self)@.wf(),
            forall|length: Scalar, from: Point3, to: Point3|
                call_requires(extend, (length, &from, &to)),
        ensures
            final(self)@.wf(),
            is_registration(old(self)@, keyframe_id, center, extend, final(self)@),
    {
        let ghost before = self@;
        let mut k: usize = 0;
        while k < self.keyframes.len()
            invariant
                k <= self.keyframes.len(),
                self@ == before,
                before == old(self)@,
                before.wf(),
                place_of(before.keyframes, keyframe_id, 0) == place_of(
                    before.keyframes,
                    keyframe_id,
                    k as int,
                ),
                forall|j: int| 0 <= j < k ==> (#[trigger] before.keyframes[j]).0 != keyframe_id,
            decreases self.keyframes.len() - k,
        {
            if self.keyframes[k].0 == keyframe_id {
                self.keyframes.set(k, (keyframe_id, center));
                proof {
                    assert(self@ =~= (MotionModel {
                        keyframes: before.keyframes.update(k as int, (keyframe_id, center)),
                        ..before
                    }));
                    assert forall|i: int, j: int|
                        0 <= i < j < self@.keyframes.len() implies (#[trigger] self@.keyframes[i]).0
                        != (#[trigger] self@.keyframes[j]).0 by {
                        assert(before.keyframes[i].0 != before.keyframes[j].0);
                    }
                }
                return ;
            }
            k += 1;
        }
        let count = self.keyframes.len();
        if count > 0 {
            let previous = self.keyframes[count - 1].1;
            self.cumulative_translation =
            extend(self.cumulative_translation, &previous, &center);
        }
        self.keyframes.push((keyframe_id, center));
        proof {
            assert(self@ =~= (MotionModel {
                keyframes: before.keyframes.push((keyframe_id, center)),
                cumulative_translation: self@.cumulative_translation,
                ..before
            }));
            assert forall|i: int, j: int| 0 <= i < j < self@.keyframes.len() implies (
            #[trigger] self@.keyframes[i]).0 != (#[trigger] self@.keyframes[j]).0 by {
                assert(self@.keyframes[i] == before.keyframes[i]);
                if j < before.keyframes.len() {
                    assert(self@.keyframes[j] == before.keyframes[j]);
                }
            }
        }
    }

    /// Whether an attempt is worth making: nothing is recovered yet, and there are enough
    /// keyframes and motion.
    pub fn is_ready(&self) -> (ready: bool)
        ensures
            ready == self@.ready(),
    {
        self.completed.is_none() && self.keyframes.len() >= self.config.min_keyframes
            && self.config.min_translation_meters.le(self.cumulative_translation)
    }

    /// The final result, if there is one.
    pub fn result(&self) -> (result: Option<&MotionBasedViInitializationResult<I>>)
        ensures
            result == (match self@.completed {
                Some(value) => Some(&value),
                None => None,
            }),
    {
        self.completed.as_ref()
    }

    /// The result with held biases, if there is one and no final result has superseded it.
    pub fn velocity_stage_result(&self) -> (result: Option<&MotionBasedViInitializationResult<I>>)
        ensures
            result == (match (self@.completed, self@.velocity_stage) {
                (None, Some(value)) => Some(&value),
                _ => None,
            }),
    {
        if self.completed.is_some() {
            None
        } else {
            self.velocity_stage.as_ref()
        }
    }

    /// The gravity alignment of the last attempt that tried one and found it.
    pub fn last_gravity_alignment(&self) -> (alignment: Option<&GravityVelocityAlignment>)
        ensures
            alignment == (match self@.last_gravity_alignment {
                Some(value) => Some(&value),
                None => None,
            }),
    {
        self.last_gravity_alignment.as_ref()
    }

    /// The bias alignment of the last attempt that tried one and found it.
    pub fn last_gyro_bias_alignment(&self) -> (alignment: Option<&GyroBiasAlignment>)
        ensures
            alignment == (match self@.last_gyro_bias_alignment {
                Some(value) => Some(&value),
                None => None,
            }),
    {
        self.last_gyro_bias_alignment.as_ref()
    }

    /// Where the initialiser stands.
    pub fn status(&self) -> (status: MotionBasedViInitializationStatus<'_, I>)
        ensures
            match self@.completed {
                Some(value) => status == (MotionBasedViInitializationStatus::Initialised {
                    result: &value,
                }),
                None => status == (MotionBasedViInitializationStatus::Waiting::<I> {
                    keyframes_observed: self@.keyframes.len() as usize,
                    cumulative_translation_meters: self@.cumulative_translation,
                    last_rejection: self@.last_rejection,
                    velocity_stage_completed: self@.velocity_stage is Some,
                    last_gravity_alignment: match self@.last_gravity_alignment {
                        Some(value) => Some(&value),
                        None => None,
                    },
                    last_gyro_bias_alignment: self@.last_gyro_bias_alignment,
                }),
            },
    {
        match &self.completed {
            Some(result) => MotionBasedViInitializationStatus::Initialised { result },
            None => MotionBasedViInitializationStatus::Waiting {
                keyframes_observed: self.keyframes.len(),
                cumulative_translation_meters: self.cumulative_translation,
                last_rejection: self.last_rejection,
                velocity_stage_completed: self.velocity_stage.is_some(),
                last_gravity_alignment: self.last_gravity_alignment.as_ref(),
                last_gyro_bias_alignment: self.last_gyro_bias_alignment,
            },
        }
    }
}

/// The body poses of the registered keyframes.
pub open spec fn are_bodies<C>(
    compose: C,
    body_to_camera: Pose,
    poses: Map<u64, Option<Pose>>,
    ids: Seq<u64>,
    bodies: Seq<Pose>,
) -> bool where C: Fn(&Pose, &Pose) -> Pose {
    &&& bodies.len() == ids.len()
    &&& forall|k: int|
        0 <= k < ids.len() ==> call_ensures(
            compose,
            (&body_to_camera, &pose_of(poses, ids[k])->0),
            #[trigger] bodies[k],
        )
}

/// The body poses by keyframe.
pub open spec fn body_map(ids: Seq<u64>, bodies: Seq<Pose>) -> Map<u64, Option<Pose>>
    decreases ids.len(),
{
    if ids.len() == 0 {
        Map::empty()
    } else {
        body_map(ids.drop_last(), bodies).insert(ids.last(), Some(bodies[ids.len() - 1]))
    }
}

/// The integrated time of the first factor, from the `k`-th on, between two keyframes.
pub open spec fn link_time(factors: Seq<ImuFactor>, from: u64, to: u64, k: int) -> Option<Scalar>
    decreases factors.len() - k,
{
    if k >= factors.len() {
        None
    } else if factors[k].keyframe_id_from == from && factors[k].keyframe_id_to == to {
        Some(factors[k].delta_time)
    } else {
        link_time(factors, from, to, k + 1)
    }
}

/// The first velocity of a registered keyframe: from the centre of the one before it, where
/// a factor over some time connects the two.
pub open spec fn is_seed_velocity<V>(
    velocity: V,
    keyframes: Seq<(u64, Point3)>,
    factors: Seq<ImuFactor>,
    k: int,
    seed: Point3,
) -> bool where V: Fn(&Point3, &Point3, Scalar) -> Point3 {
    if k == 0 {
        seed == Point3::zero()
    } else {
        match link_time(factors, keyframes[k - 1].0, keyframes[k].0, 0) {
            Some(time) => if Scalar::zero().lt(time) {
                call_ensures(velocity, (&keyframes[k - 1].1, &keyframes[k].1, time), seed)
            } else {
                seed == Point3::zero()
            },
            None => seed == Point3::zero(),
        }
    }
}

/// The first velocities of the registered keyframes.
pub open spec fn are_seed_velocities<V>(
    velocity: V,
    keyframes: Seq<(u64, Point3)>,
    factors: Seq<ImuFactor>,
    seeds: Seq<Point3>,
) -> bool where V: Fn(&Point3, &Point3, Scalar) -> Point3 {
    &&& seeds.len() == keyframes.len()
    &&& forall|k: int|
        0 <= k < keyframes.len() ==> is_seed_velocity(
            velocity,
            keyframes,
            factors,
            k,
            #[trigger] seeds[k],
        )
}

/// The gyroscope bias to go on with, and whether it was estimated.
#[derive(Clone, Copy, Debug, PartialEq, Eq, Structural)]
pub struct GyroStage {
    pub bias: Point3,
    pub estimated: Option<Point3>,
}

/// The bias stage of an attempt: without an estimate the seed goes on; an estimate that is
/// degenerate or too large rejects.
pub open spec fn is_gyro_stage<N, YR, YT>(
    norm: N,
    gyro: GyroNumerics<YR, YT>,
    config: MotionBasedViInitializerConfig,
    ids: Seq<u64>,
    bodies: Map<u64, Option<Pose>>,
    factors: Seq<ImuFactor>,
    seed: Point3,
    tried: Option<Option<GyroBiasAlignment>>,
    outcome: Result<GyroStage, MotionBasedViRejectionReason>,
) -> bool where
    N: Fn(&Point3) -> Scalar,
    YR: Fn(&AlignmentTask, &Point3) -> Scalar,
    YT: Fn(&AlignmentTask, &Point3) -> Option<GyroStep>,
 {
    if !config.estimate_gyro_bias {
        tried is None && outcome == Ok::<_, MotionBasedViRejectionReason>(
            GyroStage { bias: seed, estimated: None },
        )
    } else {
        &&& tried matches Some(alignment)
        &&& is_gyro_alignment(gyro, bodies, ids, factors, seed, alignment)
        &&& match alignment {
            None => outcome == Err::<GyroStage, _>(
                MotionBasedViRejectionReason::GyroBiasEstimateDegenerate,
            ),
            Some(found) => exists|magnitude: Scalar| #[trigger]
                call_ensures(norm, (&found.bias_gyro,), magnitude) && outcome == gyro_verdict(
                    config.max_gyro_bias_magnitude_rad_s,
                    ids[0],
                    found.bias_gyro,
                    magnitude,
                ),
        }
    }
}

/// Whether an estimated bias is small enough.
pub open spec fn gyro_verdict(
    limit: Option<Scalar>,
    first_id: u64,
    bias: Point3,
    magnitude: Scalar,
) -> Result<GyroStage, MotionBasedViRejectionReason> {
    match limit {
        Some(most) => if most.lt(magnitude) {
            Err(
                MotionBasedViRejectionReason::GyroBiasOutOfRange {
                    kf_id: first_id,
                    magnitude_rad_s: magnitude,
                    limit_rad_s: most,
                },
            )
        } else {
            Ok(GyroStage { bias, estimated: Some(bias) })
        },
        None => Ok(GyroStage { bias, estimated: Some(bias) }),
    }
}

/// How far the norm of gravity is off: infinitely where nothing positive is expected.
pub open spec fn is_deviation<X>(
    deviation: X,
    raw_norm: Scalar,
    expected: Scalar,
    ratio: Scalar,
) -> bool where X: Fn(Scalar, Scalar) -> Scalar {
    if Scalar::zero().lt(expected) {
        call_ensures(deviation, (raw_norm, expected), ratio)
    } else {
        ratio == Scalar::infinity()
    }
}

/// The gravity stage of an attempt: without an estimate nothing changes; an estimate that is
/// degenerate or whose norm is too far off rejects.
pub open spec fn is_gravity_stage<N, X, GR, GN, GT, GS, GE>(
    norm: N,
    deviation: X,
    gravity: GravityNumerics<GR, GN, GT, GS, GE>,
    config: MotionBasedViInitializerConfig,
    ids: Seq<u64>,
    bodies: Map<u64, Option<Pose>>,
    factors: Seq<ImuFactor>,
    bias_gyro: Point3,
    bias_acc: Point3,
    tried: Option<Option<GravityVelocityAlignment>>,
    outcome: Result<Option<GravityVelocityAlignment>, MotionBasedViRejectionReason>,
) -> bool where
    N: Fn(&Point3) -> Scalar,
    X: Fn(Scalar, Scalar) -> Scalar,
    GR: Fn(&AlignmentTask) -> Option<RawGravity>,
    GN: Fn(&RawGravity) -> Point3,
    GT: Fn(&AlignmentTask, Scalar, &Point3) -> Option<TangentStep>,
    GS: Fn(Scalar, &Point3) -> Point3,
    GE: Fn(&AlignmentTask, &Point3, &Vec<Point3>) -> Scalar,
 {
    if !config.estimate_gravity {
        tried is None && outcome == Ok::<_, MotionBasedViRejectionReason>(
            None::<GravityVelocityAlignment>,
        )
    } else {
        exists|expected: Scalar|
            {
                &&& #[trigger] call_ensures(norm, (&config.gravity_world,), expected)
                &&& tried matches Some(alignment)
                &&& is_gravity_alignment(
                    gravity,
                    bodies,
                    ids,
                    factors,
                    bias_gyro,
                    bias_acc,
                    expected,
                    alignment,
                )
                &&& match alignment {
                    None => outcome == Err::<Option<GravityVelocityAlignment>, _>(
                        MotionBasedViRejectionReason::GravityEstimateDegenerate,
                    ),
                    Some(found) => exists|ratio: Scalar| #[trigger]
                        is_deviation(deviation, found.raw_gravity_norm, expected, ratio)
                            && outcome == (if !ratio.is_finite()
                            || config.max_gravity_norm_deviation_ratio.lt(ratio) {
                            Err(
                                MotionBasedViRejectionReason::GravityEstimateOutOfRange {
                                    raw_norm_mps2: found.raw_gravity_norm,
                                    expected_mps2: expected,
                                    max_deviation_ratio: config.max_gravity_norm_deviation_ratio,
                                },
                            )
                        } else {
                            Ok(Some(found))
                        }),
                }
            }
    }
}

/// The states that the solver starts from: velocities of the gravity alignment where it has
/// them, else the first ones; biases as estimated or given.
pub open spec fn initial_states(
    ids: Seq<u64>,
    seeds: Seq<Point3>,
    aligned: Option<GravityVelocityAlignment>,
    bias_gyro: Point3,
    bias_acc: Point3,
) -> Seq<KeyframeImuState> {
    Seq::new(
        ids.len(),
        |k: int|
            KeyframeImuState {
                velocity_world: match aligned {
                    Some(found) => if found.velocities@.contains_key(ids[k]) {
                        found.velocities@[ids[k]]
                    } else {
                        seeds[k]
                    },
                    None => seeds[k],
                },
                bias_gyro,
                bias_acc,
            },
    )
}

/// The factors that the solver gets: with the estimated gravity, where there is one.
pub open spec fn solve_factors(
    factors: Seq<ImuFactor>,
    aligned: Option<GravityVelocityAlignment>,
) -> Seq<ImuFactor> {
    match aligned {
        Some(found) => factors.map_values(
            |factor: ImuFactor| ImuFactor { gravity_world: found.gravity_world, ..factor },
        ),
        None => factors,
    }
}

/// Some factor connects two of the keyframes.
pub open spec fn any_in_window(factors: Seq<ImuFactor>, ids: Seq<u64>) -> bool {
    exists|k: int|
        0 <= k < factors.len() && ids.contains((#[trigger] factors[k]).keyframe_id_from)
            && ids.contains(factors[k].keyframe_id_to)
}

/// The result that a solve amounts to.
pub open spec fn is_packed_result<I>(
    model: MotionModel<I>,
    stats: InertialStats<I>,
    gravity: Option<Point3>,
    gyro: Option<Point3>,
    result: MotionBasedViInitializationResult<I>,
) -> bool {
    &&& result.keyframe_states == stats.keyframe_states
    &&& result.keyframe_ids == stats.keyframe_ids
    &&& result.imu_factors_used == stats.imu_factor_count
    &&& if model.mode().recovers_scale() {
        &&& result.scale == stats.scale
        &&& result.scale_history == stats.scale_history
        &&& result.viba2_iterations_run == stats.outer_iterations_run
    } else {
        &&& result.scale == Scalar::one()
        &&& result.scale_history@ == Seq::<Scalar>::empty()
        &&& result.viba2_iterations_run == 0
    }
    &&& result.trigger_translation_meters == model.cumulative_translation
    &&& result.ba_result == stats.ba_result
    &&& result.initial_cost_breakdown == stats.initial_cost_breakdown
    &&& result.final_cost_breakdown == stats.final_cost_breakdown
    &&& result.bias_released == model.bias_free()
    &&& result.estimated_gravity_world == gravity
    &&& result.estimated_gyro_bias == gyro
}

/// Whether a residual that must not exceed a limit is missing, not finite, or too large.
pub open spec fn exceeds(limit: Option<Scalar>, value: Option<Scalar>) -> bool {
    match limit {
        Some(most) => match value {
            Some(residual) => !residual.is_finite() || most.lt(residual),
            None => true,
        },
        None => false,
    }
}

/// What the residuals of a solve are rejected for, if they are.
pub open spec fn residual_rejection(
    config: MotionBasedViInitializerConfig,
    cost: BaCostBreakdown,
) -> Option<MotionBasedViRejectionReason> {
    if exceeds(
        config.max_final_imu_rotation_residual_rms_rad,
        cost.imu_rotation_residual_rms_rad,
    ) || exceeds(
        config.max_final_imu_velocity_residual_rms_mps,
        cost.imu_velocity_residual_rms_mps,
    ) || exceeds(
        config.max_final_imu_position_residual_rms_meters,
        cost.imu_position_residual_rms_meters,
    ) {
        Some(
            MotionBasedViRejectionReason::ImuRawResidualOutOfRange {
                rotation_residual_rms_rad: cost.imu_rotation_residual_rms_rad,
                velocity_residual_rms_mps: cost.imu_velocity_residual_rms_mps,
                position_residual_rms_meters: cost.imu_position_residual_rms_meters,
                max_rotation_residual_rms_rad: config.max_final_imu_rotation_residual_rms_rad,
                max_velocity_residual_rms_mps: config.max_final_imu_velocity_residual_rms_mps,
                max_position_residual_rms_meters:
                    config.max_final_imu_position_residual_rms_meters,
            },
        )
    } else {
        match (
            config.max_final_imu_nis_per_dof,
            cost.imu_normalized_squared_residual_per_dof,
        ) {
            (Some(limit), Some(nis)) => if !nis.is_finite() || limit.lt(nis) {
                Some(
                    MotionBasedViRejectionReason::ImuNisOutOfRange {
                        normalized_nis_per_dof: nis,
                        rotation_residual_rms_rad: cost.imu_rotation_residual_rms_rad,
                        velocity_residual_rms_mps: cost.imu_velocity_residual_rms_mps,
                        position_residual_rms_meters: cost.imu_position_residual_rms_meters,
                        limit,
                    },
                )
            } else {
                None
            },
            _ => None,
        }
    }
}

/// Which vector of a state is looked at.
#[derive(Clone, Copy, Debug, PartialEq, Eq, Structural)]
pub enum StateVector {
    Velocity,
    GyroBias,
    AccelBias,
}

impl StateVector {
    pub open spec fn spec_of(self, state: KeyframeImuState) -> Point3 {
        match self {
            StateVector::Velocity => state.velocity_world,
            StateVector::GyroBias => state.bias_gyro,
            StateVector::AccelBias => state.bias_acc,
        }
    }

    /// The vector of a state.
    #[verifier::when_used_as_spec(spec_of)]
    pub fn of(self, state: KeyframeImuState) -> (vector: Point3)
        ensures
            vector == self.spec_of(state),
    {
        match self {
            StateVector::Velocity => state.velocity_world,
            StateVector::GyroBias => state.bias_gyro,
            StateVector::AccelBias => state.bias_acc,
        }
    }
}

/// The norms of one vector of every state.
pub open spec fn are_norms<N>(
    norm: N,
    states: Map<u64, KeyframeImuState>,
    vector: StateVector,
    norms: Map<u64, Scalar>,
) -> bool where N: Fn(&Point3) -> Scalar {
    &&& norms.dom() == states.dom()
    &&& forall|id: u64|
        states.contains_key(id) ==> call_ensures(
            norm,
            (&vector.of(states[id]),),
            #[trigger] norms[id],
        )
}

/// Whether one norm is worse than another. Of velocities, one that is larger is, and of
/// equal ones that of the smaller id; of biases, in the total order, that of the larger id.
pub open spec fn is_worse(
    vector: StateVector,
    id: u64,
    norm: Scalar,
    other_id: u64,
    other: Scalar,
) -> bool {
    match vector {
        StateVector::Velocity => other.rank() < norm.rank() || (other.rank() == norm.rank() && id
            < other_id),
        _ => other.total_rank() < norm.total_rank() || (other.total_rank() == norm.total_rank()
            && other_id < id),
    }
}

/// `worst` is the worst of the norms above the limit, if any is.
pub open spec fn is_worst(
    vector: StateVector,
    norms: Map<u64, Scalar>,
    limit: Scalar,
    worst: Option<(u64, Scalar)>,
) -> bool {
    match worst {
        None => forall|id: u64| norms.contains_key(id) ==> !limit.lt(#[trigger] norms[id]),
        Some((id, magnitude)) => {
            &&& norms.contains_key(id)
            &&& magnitude == norms[id]
            &&& limit.lt(magnitude)
            &&& forall|other: u64|
                norms.contains_key(other) && limit.lt(#[trigger] norms[other]) && other != id
                    ==> is_worse(vector, id, magnitude, other, norms[other])
        },
    }
}

/// What a norm above the limit is rejected as.
pub open spec fn norm_rejection(
    vector: StateVector,
    id: u64,
    magnitude: Scalar,
    limit: Scalar,
) -> MotionBasedViRejectionReason {
    match vector {
        StateVector::Velocity => MotionBasedViRejectionReason::VelocityOutOfRange {
            kf_id: id,
            magnitude_mps: magnitude,
            limit_mps: limit,
        },
        StateVector::GyroBias => MotionBasedViRejectionReason::GyroBiasOutOfRange {
            kf_id: id,
            magnitude_rad_s: magnitude,
            limit_rad_s: limit,
        },
        StateVector::AccelBias => MotionBasedViRejectionReason::AccelBiasOutOfRange {
            kf_id: id,
            magnitude_mps2: magnitude,
            limit_mps2: limit,
        },
    }
}

/// What the states are rejected for by one limit, if they are: the worst norm above it.
pub open spec fn is_norm_gate<N>(
    norm: N,
    limit: Option<Scalar>,
    states: Map<u64, KeyframeImuState>,
    vector: StateVector,
    reason: Option<MotionBasedViRejectionReason>,
) -> bool where N: Fn(&Point3) -> Scalar {
    match limit {
        None => reason is None,
        Some(most) => exists|norms: Map<u64, Scalar>, worst: Option<(u64, Scalar)>|
            #![trigger are_norms(norm, states, vector, norms), is_worst(vector, norms, most, worst)]
            are_norms(norm, states, vector, norms) && is_worst(vector, norms, most, worst)
                && reason == (match worst {
                Some((id, magnitude)) => Some(norm_rejection(vector, id, magnitude, most)),
                None => None,
            }),
    }
}

/// What a result is rejected for, if it is: residuals first, then velocities, then biases.
pub open spec fn is_judgement<N, I>(
    norm: N,
    config: MotionBasedViInitializerConfig,
    result: MotionBasedViInitializationResult<I>,
    reason: Option<MotionBasedViRejectionReason>,
) -> bool where N: Fn(&Point3) -> Scalar {
    match residual_rejection(config, result.final_cost_breakdown) {
        Some(rejection) => reason == Some(rejection),
        None => {
            let states = result.keyframe_states@;
            exists|
                velocity: Option<MotionBasedViRejectionReason>,
                gyro: Option<MotionBasedViRejectionReason>,
            |
                {
                    &&& #[trigger] is_norm_gate(
                        norm,
                        config.max_velocity_magnitude_mps,
                        states,
                        StateVector::Velocity,
                        velocity,
                    )
                    &&& velocity is Some ==> reason == velocity
                    &&& velocity is None ==> {
                        &&& #[trigger] is_norm_gate(
                            norm,
                            config.max_gyro_bias_magnitude_rad_s,
                            states,
                            StateVector::GyroBias,
                            gyro,
                        )
                        &&& gyro is Some ==> reason == gyro
                        &&& gyro is None ==> is_norm_gate(
                            norm,
                            config.max_accel_bias_magnitude_mps2,
                            states,
                            StateVector::AccelBias,
                            reason,
                        )
                    }
                }
        },
    }
}

/// The task of the solver.
pub open spec fn is_inertial_task<I>(
    model: MotionModel<I>,
    bodies: Seq<Pose>,
    seeds: Seq<Point3>,
    factors: Seq<ImuFactor>,
    stage: GyroStage,
    bias_acc: Point3,
    aligned: Option<GravityVelocityAlignment>,
    task: InertialTask,
) -> bool {
    &&& task.mode == model.mode()
    &&& task.keyframe_ids@ == model.ids()
    &&& task.body_poses@ == bodies
    &&& task.states@ == initial_states(model.ids(), seeds, aligned, stage.bias, bias_acc)
    &&& task.factors@ == solve_factors(factors, aligned)
    &&& task.ba_config == model.config.ba_config
}

/// The gravity of an alignment, where there is one.
pub open spec fn gravity_of(aligned: Option<GravityVelocityAlignment>) -> Option<Point3> {
    match aligned {
        Some(found) => Some(found.gravity_world),
        None => None,
    }
}

/// The solve of an attempt: without an answer it is rejected, else its result is judged.
pub open spec fn is_solve_stage<S, N, I>(
    solve: S,
    norm: N,
    model: MotionModel<I>,
    bodies: Seq<Pose>,
    seeds: Seq<Point3>,
    factors: Seq<ImuFactor>,
    stage: GyroStage,
    bias_acc: Point3,
    aligned: Option<GravityVelocityAlignment>,
    verdict: Result<MotionBasedViInitializationResult<I>, MotionBasedViRejectionReason>,
) -> bool where
    S: Fn(&InertialTask) -> Option<InertialStats<I>>,
    N: Fn(&Point3) -> Scalar,
 {
    exists|task: InertialTask, answer: Option<InertialStats<I>>|
        {
            &&& is_inertial_task(model, bodies, seeds, factors, stage, bias_acc, aligned, task)
            &&& #[trigger] call_ensures(solve, (&task,), answer)
            &&& match answer {
                None => verdict == Err::<MotionBasedViInitializationResult<I>, _>(
                    if any_in_window(factors, model.ids()) {
                        MotionBasedViRejectionReason::SolverFailed
                    } else {
                        MotionBasedViRejectionReason::NoUsableImuFactors
                    },
                ),
                Some(stats) => is_result_verdict(
                    norm,
                    model,
                    stats,
                    gravity_of(aligned),
                    stage.estimated,
                    verdict,
                ),
            }
        }
}

/// The verdict on what the solver found.
pub open spec fn is_result_verdict<N, I>(
    norm: N,
    model: MotionModel<I>,
    stats: InertialStats<I>,
    gravity: Option<Point3>,
    gyro: Option<Point3>,
    verdict: Result<MotionBasedViInitializationResult<I>, MotionBasedViRejectionReason>,
) -> bool where N: Fn(&Point3) -> Scalar {
    exists|
        result: MotionBasedViInitializationResult<I>,
        reason: Option<MotionBasedViRejectionReason>,
    |
        {
            &&& is_packed_result(model, stats, gravity, gyro, result)
            &&& #[trigger] is_judgement(norm, model.config, result, reason)
            &&& verdict == (match reason {
                Some(rejection) => Err(rejection),
                None => Ok(result),
            })
        }
}

/// The attempt of an initialiser with enough keyframes, motion and poses.
pub open spec fn is_attempt<C, V, N, X, S, GR, GN, GT, GS, GE, YR, YT, I>(
    numerics: MotionNumerics<C, V, N, X, S, GR, GN, GT, GS, GE, YR, YT>,
    model: MotionModel<I>,
    poses: Map<u64, Option<Pose>>,
    factors: Seq<ImuFactor>,
    bias_gyro_seed: Point3,
    bias_acc_seed: Point3,
    attempt: Attempt<I>,
) -> bool where
    C: Fn(&Pose, &Pose) -> Pose,
    V: Fn(&Point3, &Point3, Scalar) -> Point3,
    N: Fn(&Point3) -> Scalar,
    X: Fn(Scalar, Scalar) -> Scalar,
    S: Fn(&InertialTask) -> Option<InertialStats<I>>,
    GR: Fn(&AlignmentTask) -> Option<RawGravity>,
    GN: Fn(&RawGravity) -> Point3,
    GT: Fn(&AlignmentTask, Scalar, &Point3) -> Option<TangentStep>,
    GS: Fn(Scalar, &Point3) -> Point3,
    GE: Fn(&AlignmentTask, &Point3, &Vec<Point3>) -> Scalar,
    YR: Fn(&AlignmentTask, &Point3) -> Scalar,
    YT: Fn(&AlignmentTask, &Point3) -> Option<GyroStep>,
 {
    exists|bodies: Seq<Pose>, seeds: Seq<Point3>|
        {
            &&& #[trigger] are_bodies(
                numerics.compose,
                model.config.body_to_camera,
                poses,
                model.ids(),
                bodies,
            )
            &&& #[trigger] are_seed_velocities(numerics.velocity, model.keyframes, factors, seeds)
            &&& is_staged(
                numerics,
                model,
                bodies,
                seeds,
                factors,
                bias_gyro_seed,
                bias_acc_seed,
                attempt,
            )
        }
}

/// The stages of an attempt, one after the other; the first that rejects ends it.
pub open spec fn is_staged<C, V, N, X, S, GR, GN, GT, GS, GE, YR, YT, I>(
    numerics: MotionNumerics<C, V, N, X, S, GR, GN, GT, GS, GE, YR, YT>,
    model: MotionModel<I>,
    bodies: Seq<Pose>,
    seeds: Seq<Point3>,
    factors: Seq<ImuFactor>,
    bias_gyro_seed: Point3,
    bias_acc_seed: Point3,
    attempt: Attempt<I>,
) -> bool where
    C: Fn(&Pose, &Pose) -> Pose,
    V: Fn(&Point3, &Point3, Scalar) -> Point3,
    N: Fn(&Point3) -> Scalar,
    X: Fn(Scalar, Scalar) -> Scalar,
    S: Fn(&InertialTask) -> Option<InertialStats<I>>,
    GR: Fn(&AlignmentTask) -> Option<RawGravity>,
    GN: Fn(&RawGravity) -> Point3,
    GT: Fn(&AlignmentTask, Scalar, &Point3) -> Option<TangentStep>,
    GS: Fn(Scalar, &Point3) -> Point3,
    GE: Fn(&AlignmentTask, &Point3, &Vec<Point3>) -> Scalar,
    YR: Fn(&AlignmentTask, &Point3) -> Scalar,
    YT: Fn(&AlignmentTask, &Point3) -> Option<GyroStep>,
 {
    let map = body_map(model.ids(), bodies);
    exists|first: Result<GyroStage, MotionBasedViRejectionReason>| #[trigger]
        is_gyro_stage(
            numerics.norm,
            numerics.gyro,
            model.config,
            model.ids(),
            map,
            factors,
            bias_gyro_seed,
            attempt.gyro,
            first,
        ) && (match first {
            Err(reason) => attempt.gravity is None && attempt.verdict == Err::<
                MotionBasedViInitializationResult<I>,
                _,
            >(reason),
            Ok(stage) => exists|
                second: Result<Option<GravityVelocityAlignment>, MotionBasedViRejectionReason>,
            | #[trigger]
                is_gravity_stage(
                    numerics.norm,
                    numerics.deviation,
                    numerics.gravity,
                    model.config,
                    model.ids(),
                    map,
                    factors,
                    stage.bias,
                    bias_acc_seed,
                    attempt.gravity,
                    second,
                ) && (match second {
                    Err(reason) => attempt.verdict == Err::<
                        MotionBasedViInitializationResult<I>,
                        _,
                    >(reason),
                    Ok(aligned) => is_solve_stage(
                        numerics.solve,
                        numerics.norm,
                        model,
                        bodies,
                        seeds,
                        factors,
                        stage,
                        bias_acc_seed,
                        aligned,
                        attempt.verdict,
                    ),
                }),
        })
}

fn find_link(factors: &[ImuFactor], from: u64, to: u64) -> (time: Option<Scalar>)
    ensures
        time == link_time(factors@, from, to, 0),
{
    let mut k: usize = 0;
    while k < factors.len()
        invariant
            k <= factors@.len(),
            link_time(factors@, from, to, 0) == link_time(factors@, from, to, k as int),
        decreases factors@.len() - k,
    {
        if factors[k].keyframe_id_from == from && factors[k].keyframe_id_to == to {
            return Some(factors[k].delta_time);
        }
        k += 1;
    }
    None
}

fn seed_velocities<V>(keyframes: &Vec<(u64, Point3)>, factors: &[ImuFactor], velocity: &V) -> (seeds:
    Vec<Point3>) where V: Fn(&Point3, &Point3, Scalar) -> Point3
    requires
        forall|from: Point3, to: Point3, time: Scalar|
            call_requires(*velocity, (&from, &to, time)),
    ensures
        are_seed_velocities(*velocity, keyframes@, factors@, seeds@),
{
    let mut seeds: Vec<Point3> = Vec::new();
    let mut k: usize = 0;
    while k < keyframes.len()
        invariant
            k <= keyframes.len(),
            forall|from: Point3, to: Point3, time: Scalar|
                call_requires(*velocity, (&from, &to, time)),
            seeds.len() == k,
            forall|j: int|
                0 <= j < k ==> is_seed_velocity(
                    *velocity,
                    keyframes@,
                    factors@,
                    j,
                    #[trigger] seeds@[j],
                ),
        decreases keyframes.len() - k,
    {
        let ghost before = seeds@;
        let mut seed = Point3::zero();
        if k > 0 {
            if let Some(time) = find_link(factors, keyframes[k - 1].0, keyframes[k].0) {
                if Scalar::zero().lt(time) {
                    seed = velocity(&keyframes[k - 1].1, &keyframes[k].1, time);
                }
            }
        }
        seeds.push(seed);
        proof {
            assert forall|j: int| 0 <= j < k + 1 implies is_seed_velocity(
                *velocity,
                keyframes@,
                factors@,
                j,
                #[trigger] seeds@[j],
            ) by {
                if j < k {
                    assert(seeds@[j] == before[j]);
                }
            }
        }
        k += 1;
    }
    seeds
}

fn collect_keyframe_ids(keyframes: &Vec<(u64, Point3)>) -> (ids: Vec<u64>)
    ensures
        ids@ == keyframes@.map_values(|keyframe: (u64, Point3)| keyframe.0),
{
    let mut ids: Vec<u64> = Vec::new();
    let mut k: usize = 0;
    while k < keyframes.len()
        invariant
            k <= keyframes.len(),
            ids@ == keyframes@.take(k as int).map_values(|keyframe: (u64, Point3)| keyframe.0),
        decreases keyframes.len() - k,
    {
        ids.push(keyframes[k].0);
        assert(ids@ =~= keyframes@.take(k + 1).map_values(|keyframe: (u64, Point3)| keyframe.0));
        k += 1;
    }
    proof {
        lemma_take_all(keyframes@);
    }
    ids
}

fn place_bodies<C>(
    ids: &Vec<u64>,
    poses: &KeyframePoses,
    body_to_camera: &Pose,
    compose: &C,
) -> (bodies: Option<Vec<Pose>>) where C: Fn(&Pose, &Pose) -> Pose
    requires
        forall|a: Pose, b: Pose| call_requires(*compose, (&a, &b)),
    ensures
        bodies is Some <==> forall|k: int|
            0 <= k < ids.len() ==> pose_of(poses@, #[trigger] ids@[k]) is Some,
        bodies matches Some(placed) ==> are_bodies(
            *compose,
            *body_to_camera,
            poses@,
            ids@,
            placed@,
        ),
{
    let mut bodies: Vec<Pose> = Vec::new();
    let mut k: usize = 0;
    while k < ids.len()
        invariant
            k <= ids.len(),
            forall|a: Pose, b: Pose| call_requires(*compose, (&a, &b)),
            bodies.len() == k,
            forall|j: int| 0 <= j < k ==> pose_of(poses@, #[trigger] ids@[j]) is Some,
            forall|j: int|
                0 <= j < k ==> call_ensures(
                    *compose,
                    (body_to_camera, &pose_of(poses@, ids@[j])->0),
                    #[trigger] bodies@[j],
                ),
        decreases ids.len() - k,
    {
        match find_pose(poses, ids[k]) {
            None => {
                assert(pose_of(poses@, ids@[k as int]) is None);
                return None;
            },
            Some(pose) => {
                let ghost before = bodies@;
                let body = compose(body_to_camera, &pose);
                bodies.push(body);
                assert forall|j: int| 0 <= j < k + 1 implies call_ensures(
                    *compose,
                    (body_to_camera, &pose_of(poses@, ids@[j])->0),
                    #[trigger] bodies@[j],
                ) by {
                    if j < k {
                        assert(bodies@[j] == before[j]);
                    }
                }
            },
        }
        k += 1;
    }
    Some(bodies)
}

fn map_bodies(ids: &Vec<u64>, bodies: &Vec<Pose>) -> (map: KeyframePoses)
    requires
        ids.len() == bodies.len(),
    ensures
        map@ == body_map(ids@, bodies@),
{
    broadcast use vstd::std_specs::btree::group_btree_axioms;

    let mut map: KeyframePoses = BTreeMap::new();
    let mut k: usize = 0;
    while k < ids.len()
        invariant
            k <= ids.len(),
            ids.len() == bodies.len(),
            map@ == body_map(ids@.take(k as int), bodies@),
        decreases ids.len() - k,
    {
        broadcast use vstd::std_specs::btree::group_btree_axioms;

        assert(ids@.take(k + 1).drop_last() =~= ids@.take(k as int));
        map.insert(ids[k], Some(bodies[k]));
        k += 1;
    }
    proof {
        lemma_take_all(ids@);
    }
    map
}

proof fn lemma_aligned_has_ids(ids: Seq<u64>)
    requires
        alignment_window(ids).len() > 0,
    ensures
        ids.len() > 0,
{
    if ids.len() == 0 {
        assert(is_sorted_set_of(Seq::empty(), ids));
        let sorted = sorted_set_of(ids);
        assert(is_sorted_set_of(sorted, ids));
        if sorted.len() > 0 {
            assert(sorted.contains(sorted[0]));
        }
    }
}

fn run_gyro_stage<N, YR, YT>(
    config: &MotionBasedViInitializerConfig,
    ids: &Vec<u64>,
    bodies: &KeyframePoses,
    factors: &[ImuFactor],
    seed: Point3,
    norm: &N,
    gyro: &GyroNumerics<YR, YT>,
) -> (out: (Option<Option<GyroBiasAlignment>>, Result<GyroStage, MotionBasedViRejectionReason>))
    where
    N: Fn(&Point3) -> Scalar,
    YR: Fn(&AlignmentTask, &Point3) -> Scalar,
    YT: Fn(&AlignmentTask, &Point3) -> Option<GyroStep>,

    requires
        forall|vector: Point3| call_requires(*norm, (&vector,)),
        gyro.callable(),
    ensures
        is_gyro_stage(*norm, *gyro, *config, ids@, bodies@, factors@, seed, out.0, out.1),
{
    if !config.estimate_gyro_bias {
        return (None, Ok(GyroStage { bias: seed, estimated: None }));
    }
    let alignment = estimate_gyro_bias(bodies, ids.as_slice(), factors, seed, gyro);
    match alignment {
        None => (
            Some(alignment),
            Err(MotionBasedViRejectionReason::GyroBiasEstimateDegenerate),
        ),
        Some(found) => {
            proof {
                lemma_aligned_has_ids(ids@);
            }
            let magnitude = norm(&found.bias_gyro);
            if let Some(limit) = config.max_gyro_bias_magnitude_rad_s {
                if limit.lt(magnitude) {
                    return (
                        Some(alignment),
                        Err(
                            MotionBasedViRejectionReason::GyroBiasOutOfRange {
                                kf_id: ids[0],
                                magnitude_rad_s: magnitude,
                                limit_rad_s: limit,
                            },
                        ),
                    );
                }
            }
            (
                Some(alignment),
                Ok(GyroStage { bias: found.bias_gyro, estimated: Some(found.bias_gyro) }),
            )
        },
    }
}

fn run_gravity_stage<N, X, GR, GN, GT, GS, GE>(
    config: &MotionBasedViInitializerConfig,
    ids: &Vec<u64>,
    bodies: &KeyframePoses,
    factors: &[ImuFactor],
    bias_gyro: Point3,
    bias_acc: Point3,
    norm: &N,
    deviation: &X,
    gravity: &GravityNumerics<GR, GN, GT, GS, GE>,
) -> (out: (Option<Option<GravityVelocityAlignment>>, Option<MotionBasedViRejectionReason>)) where
    N: Fn(&Point3) -> Scalar,
    X: Fn(Scalar, Scalar) -> Scalar,
    GR: Fn(&AlignmentTask) -> Option<RawGravity>,
    GN: Fn(&RawGravity) -> Point3,
    GT: Fn(&AlignmentTask, Scalar, &Point3) -> Option<TangentStep>,
    GS: Fn(Scalar, &Point3) -> Point3,
    GE: Fn(&AlignmentTask, &Point3, &Vec<Point3>) -> Scalar,

    requires
        forall|vector: Point3| call_requires(*norm, (&vector,)),
        forall|a: Scalar, b: Scalar| call_requires(*deviation, (a, b)),
        gravity.callable(),
    ensures
        is_gravity_stage(
            *norm,
            *deviation,
            *gravity,
            *config,
            ids@,
            bodies@,
            factors@,
            bias_gyro,
            bias_acc,
            out.0,
            gravity_outcome(out.0, out.1),
        ),
{
    if !config.estimate_gravity {
        return (None, None);
    }
    let expected = norm(&config.gravity_world);
    let alignment = estimate_gravity_and_velocities(
        bodies,
        ids.as_slice(),
        factors,
        bias_gyro,
        bias_acc,
        expected,
        gravity,
    );
    let raw_norm = match &alignment {
        None => {
            return (
                Some(alignment),
                Some(MotionBasedViRejectionReason::GravityEstimateDegenerate),
            );
        },
        Some(found) => found.raw_gravity_norm,
    };
    let ratio = if Scalar::zero().lt(expected) {
        deviation(raw_norm, expected)
    } else {
        Scalar::infinity()
    };
    assert(is_deviation(*deviation, raw_norm, expected, ratio));
    let reason = if !ratio.is_finite() || config.max_gravity_norm_deviation_ratio.lt(ratio) {
        Some(
            MotionBasedViRejectionReason::GravityEstimateOutOfRange {
                raw_norm_mps2: raw_norm,
                expected_mps2: expected,
                max_deviation_ratio: config.max_gravity_norm_deviation_ratio,
            },
        )
    } else {
        None
    };
    (Some(alignment), reason)
}

/// The outcome of the gravity stage: its alignment, unless it is rejected.
pub open spec fn gravity_outcome(
    tried: Option<Option<GravityVelocityAlignment>>,
    reason: Option<MotionBasedViRejectionReason>,
) -> Result<Option<GravityVelocityAlignment>, MotionBasedViRejectionReason> {
    match reason {
        Some(rejection) => Err(rejection),
        None => Ok(
            match tried {
                Some(alignment) => alignment,
                None => None,
            },
        ),
    }
}

fn prepare_states(
    ids: &Vec<u64>,
    seeds: &Vec<Point3>,
    aligned: Option<&GravityVelocityAlignment>,
    bias_gyro: Point3,
    bias_acc: Point3,
) -> (states: Vec<KeyframeImuState>)
    requires
        ids.len() == seeds.len(),
    ensures
        states@ == initial_states(ids@, seeds@, dereferenced(aligned), bias_gyro, bias_acc),
{
    broadcast use vstd::std_specs::btree::group_btree_axioms;

    let ghost all = initial_states(ids@, seeds@, dereferenced(aligned), bias_gyro, bias_acc);
    let mut states: Vec<KeyframeImuState> = Vec::new();
    let mut k: usize = 0;
    while k < ids.len()
        invariant
            k <= ids.len(),
            ids.len() == seeds.len(),
            all == initial_states(ids@, seeds@, dereferenced(aligned), bias_gyro, bias_acc),
            states@ == all.take(k as int),
        decreases ids.len() - k,
    {
        broadcast use vstd::std_specs::btree::group_btree_axioms;

        let velocity_world = match aligned {
            Some(found) => match found.velocities.get(&ids[k]) {
                Some(velocity) => *velocity,
                None => seeds[k],
            },
            None => seeds[k],
        };
        states.push(KeyframeImuState { velocity_world, bias_gyro, bias_acc });
        assert(states@ =~= all.take(k + 1));
        k += 1;
    }
    assert(all.take(ids.len() as int) =~= all);
    states
}

/// The value that is referred to.
pub open spec fn dereferenced<T>(reference: Option<&T>) -> Option<T> {
    match reference {
        Some(value) => Some(*value),
        None => None,
    }
}

fn prepare_factors(factors: &[ImuFactor], aligned: Option<&GravityVelocityAlignment>) -> (adjusted:
    Vec<ImuFactor>)
    ensures
        adjusted@ == solve_factors(factors@, dereferenced(aligned)),
{
    let ghost all = solve_factors(factors@, dereferenced(aligned));
    let mut adjusted: Vec<ImuFactor> = Vec::new();
    let mut k: usize = 0;
    while k < factors.len()
        invariant
            k <= factors@.len(),
            all == solve_factors(factors@, dereferenced(aligned)),
            adjusted@ == all.take(k as int),
        decreases factors@.len() - k,
    {
        let factor = match aligned {
            Some(found) => ImuFactor { gravity_world: found.gravity_world, ..factors[k] },
            None => factors[k],
        };
        adjusted.push(factor);
        assert(adjusted@ =~= all.take(k + 1));
        k += 1;
    }
    assert(all.take(factors@.len() as int) =~= all);
    adjusted
}

fn connects_any(factors: &[ImuFactor], ids: &Vec<u64>) -> (connected: bool)
    ensures
        connected == any_in_window(factors@, ids@),
{
    let mut k: usize = 0;
    while k < factors.len()
        invariant
            k <= factors@.len(),
            forall|j: int|
                0 <= j < k ==> !(ids@.contains((#[trigger] factors@[j]).keyframe_id_from)
                    && ids@.contains(factors@[j].keyframe_id_to)),
        decreases factors@.len() - k,
    {
        if contains_id(ids.as_slice(), factors[k].keyframe_id_from) && contains_id(
            ids.as_slice(),
            factors[k].keyframe_id_to,
        ) {
            return true;
        }
        k += 1;
    }
    false
}

fn check_exceeds(limit: Option<Scalar>, value: Option<Scalar>) -> (b: bool)
    ensures
        b == exceeds(limit, value),
{
    match limit {
        Some(most) => match value {
            Some(residual) => !residual.is_finite() || most.lt(residual),
            None => true,
        },
        None => false,
    }
}

fn judge_residuals(config: &MotionBasedViInitializerConfig, cost: &BaCostBreakdown) -> (reason:
    Option<MotionBasedViRejectionReason>)
    ensures
        reason == residual_rejection(*config, *cost),
{
    if check_exceeds(
        config.max_final_imu_rotation_residual_rms_rad,
        cost.imu_rotation_residual_rms_rad,
    ) || check_exceeds(
        config.max_final_imu_velocity_residual_rms_mps,
        cost.imu_velocity_residual_rms_mps,
    ) || check_exceeds(
        config.max_final_imu_position_residual_rms_meters,
        cost.imu_position_residual_rms_meters,
    ) {
        return Some(
            MotionBasedViRejectionReason::ImuRawResidualOutOfRange {
                rotation_residual_rms_rad: cost.imu_rotation_residual_rms_rad,
                velocity_residual_rms_mps: cost.imu_velocity_residual_rms_mps,
                position_residual_rms_meters: cost.imu_position_residual_rms_meters,
                max_rotation_residual_rms_rad: config.max_final_imu_rotation_residual_rms_rad,
                max_velocity_residual_rms_mps: config.max_final_imu_velocity_residual_rms_mps,
                max_position_residual_rms_meters:
                    config.max_final_imu_position_residual_rms_meters,
            },
        );
    }
    if let Some(limit) = config.max_final_imu_nis_per_dof {
        if let Some(nis) = cost.imu_normalized_squared_residual_per_dof {
            if !nis.is_finite() || limit.lt(nis) {
                return Some(
                    MotionBasedViRejectionReason::ImuNisOutOfRange {
                        normalized_nis_per_dof: nis,
                        rotation_residual_rms_rad: cost.imu_rotation_residual_rms_rad,
                        velocity_residual_rms_mps: cost.imu_velocity_residual_rms_mps,
                        position_residual_rms_meters: cost.imu_position_residual_rms_meters,
                        limit,
                    },
                );
            }
        }
    }
    None
}

/// The ids of the states, in increasing order.
fn list_states(states: &BTreeMap<u64, KeyframeImuState>) -> (ids: Vec<u64>)
    ensures
        strictly_increasing(ids@),
        forall|id: u64| ids@.contains(id) <==> states@.contains_key(id),
{
    broadcast use vstd::std_specs::btree::group_btree_axioms;

    let mut listed: Vec<u64> = Vec::new();
    let ghost all: Seq<u64> = vstd::std_specs::iter::IteratorSpec::remaining(
        &states.keys(),
    ).unref();
    for id in it: states.keys()
        invariant
            all == it.seq().unref(),
            all.to_set() == states@.dom(),
            listed@ == all.take(it.index()),
    {
        listed.push(*id);
        assert(listed@ =~= all.take(it.index() + 1));
    }
    assert(all.take(all.len() as int) =~= all);
    assert forall|id: u64| listed@.contains(id) <==> states@.contains_key(id) by {
        assert(all.to_set().contains(id) <==> all.contains(id));
    }
    sorted_set(listed.as_slice())
}

fn check_worse(
    vector: StateVector,
    id: u64,
    norm: Scalar,
    other_id: u64,
    other: Scalar,
) -> (worse: bool)
    ensures
        worse == is_worse(vector, id, norm, other_id, other),
{
    match vector {
        StateVector::Velocity => {
            let mine: i128 = norm.numeric_rank();
            let theirs: i128 = other.numeric_rank();
            theirs < mine || (theirs == mine && id < other_id)
        },
        _ => {
            let mine: i128 = norm.total_rank();
            let theirs: i128 = other.total_rank();
            theirs < mine || (theirs == mine && other_id < id)
        },
    }
}

/// The worst norm above a limit.
fn find_worst<N>(
    states: &BTreeMap<u64, KeyframeImuState>,
    vector: StateVector,
    limit: Scalar,
    norm: &N,
) -> (out: (Option<(u64, Scalar)>, Ghost<Map<u64, Scalar>>)) where N: Fn(&Point3) -> Scalar
    requires
        forall|v: Point3| call_requires(*norm, (&v,)),
    ensures
        are_norms(*norm, states@, vector, out.1@),
        is_worst(vector, out.1@, limit, out.0),
{
    broadcast use vstd::std_specs::btree::group_btree_axioms;

    let ids = list_states(states);
    let ghost mut norms: Map<u64, Scalar> = Map::empty();
    let mut worst: Option<(u64, Scalar)> = None;
    let mut k: usize = 0;
    while k < ids.len()
        invariant
            k <= ids.len(),
            forall|v: Point3| call_requires(*norm, (&v,)),
            strictly_increasing(ids@),
            forall|id: u64| ids@.contains(id) <==> states@.contains_key(id),
            forall|id: u64| norms.contains_key(id) <==> ids@.take(k as int).contains(id),
            forall|id: u64|
                norms.contains_key(id) ==> call_ensures(
                    *norm,
                    (&vector.of(states@[id]),),
                    #[trigger] norms[id],
                ),
            is_worst(vector, norms, limit, worst),
        decreases ids.len() - k,
    {
        broadcast use vstd::std_specs::btree::group_btree_axioms;

        let id: u64 = ids[k];
        assert(ids@.contains(ids@[k as int]));
        let ghost before = norms;
        let ghost shorter = ids@.take(k as int);
        let ghost longer = ids@.take(k + 1);
        let state = match states.get(&id) {
            Some(value) => *value,
            None => {
                assert(false);
                return (None, Ghost(norms));
            },
        };
        let magnitude = norm(&vector.of(state));
        let ghost earlier = worst;
        proof {
            norms = norms.insert(id, magnitude);
            assert(longer =~= shorter.push(id));
            assert forall|x: u64| norms.contains_key(x) <==> longer.contains(x) by {
                if shorter.contains(x) {
                    let i = shorter.index_of(x);
                    assert(longer[i] == x);
                }
                assert(longer[k as int] == id);
                if longer.contains(x) {
                    let i = longer.index_of(x);
                    if i < k {
                        assert(shorter[i] == x);
                    }
                }
            }
            assert(!before.contains_key(id)) by {
                if shorter.contains(id) {
                    let i = shorter.index_of(id);
                    assert(ids@[i] < ids@[k as int]);
                }
            }
        }
        if limit.lt(magnitude) {
            let replaces = match worst {
                None => true,
                Some((worst_id, most)) => check_worse(vector, id, magnitude, worst_id, most),
            };
            if replaces {
                worst = Some((id, magnitude));
            }
        }
        proof {
            lemma_worst_grows(vector, before, limit, earlier, id, magnitude, worst);
        }
        k += 1;
    }
    proof {
        lemma_take_all(ids@);
        assert(norms.dom() =~= states@.dom());
    }
    (worst, Ghost(norms))
}

proof fn lemma_worst_grows(
    vector: StateVector,
    norms: Map<u64, Scalar>,
    limit: Scalar,
    before: Option<(u64, Scalar)>,
    id: u64,
    magnitude: Scalar,
    after: Option<(u64, Scalar)>,
)
    requires
        is_worst(vector, norms, limit, before),
        !norms.contains_key(id),
        after == (if limit.lt(magnitude) && (match before {
            None => true,
            Some((worst_id, most)) => is_worse(vector, id, magnitude, worst_id, most),
        }) {
            Some((id, magnitude))
        } else {
            before
        }),
    ensures
        is_worst(vector, norms.insert(id, magnitude), limit, after),
{
    let grown = norms.insert(id, magnitude);
    match after {
        None => {
            assert forall|x: u64| grown.contains_key(x) implies !limit.lt(#[trigger] grown[x]) by {
                if x != id {
                    assert(norms.contains_key(x));
                    assert(!limit.lt(norms[x]));
                }
            }
        },
        Some((worst_id, most)) => {
            assert forall|other: u64|
                grown.contains_key(other) && limit.lt(#[trigger] grown[other]) && other
                    != worst_id implies is_worse(
                vector,
                worst_id,
                most,
                other,
                grown[other],
            ) by {
                if other != id {
                    assert(norms.contains_key(other));
                    assert(limit.lt(norms[other]));
                }
            }
        },
    }
}

fn judge_norms<N>(
    limit: Option<Scalar>,
    states: &BTreeMap<u64, KeyframeImuState>,
    vector: StateVector,
    norm: &N,
) -> (reason: Option<MotionBasedViRejectionReason>) where N: Fn(&Point3) -> Scalar
    requires
        forall|v: Point3| call_requires(*norm, (&v,)),
    ensures
        is_norm_gate(*norm, limit, states@, vector, reason),
{
    match limit {
        None => None,
        Some(most) => {
            let (worst, norms) = find_worst(states, vector, most, norm);
            assert(are_norms(*norm, states@, vector, norms@));
            assert(is_worst(vector, norms@, most, worst));
            match worst {
                None => None,
                Some((id, magnitude)) => Some(
                    match vector {
                        StateVector::Velocity => MotionBasedViRejectionReason::VelocityOutOfRange {
                            kf_id: id,
                            magnitude_mps: magnitude,
                            limit_mps: most,
                        },
                        StateVector::GyroBias => MotionBasedViRejectionReason::GyroBiasOutOfRange {
                            kf_id: id,
                            magnitude_rad_s: magnitude,
                            limit_rad_s: most,
                        },
                        StateVector::AccelBias =>
                            MotionBasedViRejectionReason::AccelBiasOutOfRange {
                            kf_id: id,
                            magnitude_mps2: magnitude,
                            limit_mps2: most,
                        },
                    },
                ),
            }
        },
    }
}

/// What a result is rejected for, if it is.
pub fn judge_result<N, I>(
    config: &MotionBasedViInitializerConfig,
    result: &MotionBasedViInitializationResult<I>,
    norm: &N,
) -> (reason: Option<MotionBasedViRejectionReason>) where N: Fn(&Point3) -> Scalar
    requires
        forall|v: Point3| call_requires(*norm, (&v,)),
    ensures
        is_judgement(*norm, *config, *result, reason),
{
    let residuals = judge_residuals(config, &result.final_cost_breakdown);
    if residuals.is_some() {
        return residuals;
    }
    let ghost states = result.keyframe_states@;
    let velocity = judge_norms(
        config.max_velocity_magnitude_mps,
        &result.keyframe_states,
        StateVector::Velocity,
        norm,
    );
    let gyro = judge_norms(
        config.max_gyro_bias_magnitude_rad_s,
        &result.keyframe_states,
        StateVector::GyroBias,
        norm,
    );
    assert(is_norm_gate(
        *norm,
        config.max_velocity_magnitude_mps,
        states,
        StateVector::Velocity,
        velocity,
    ));
    assert(is_norm_gate(
        *norm,
        config.max_gyro_bias_magnitude_rad_s,
        states,
        StateVector::GyroBias,
        gyro,
    ));
    if velocity.is_some() {
        return velocity;
    }
    if gyro.is_some() {
        return gyro;
    }
    judge_norms(
        config.max_accel_bias_magnitude_mps2,
        &result.keyframe_states,
        StateVector::AccelBias,
        norm,
    )
}

impl<I> MotionBasedViInitializer<I> {
    fn choose_mode(&self) -> (mode: InertialMode)
        ensures
            mode == self@.mode(),
    {
        if !self.may_release_bias() {
            InertialMode::VelocitiesOnly
        } else {
            match self.config.viba2 {
                Some(settings) => InertialMode::WithScale(settings),
                None => InertialMode::WithBias,
            }
        }
    }

    fn may_release_bias(&self) -> (free: bool)
        ensures
            free == self@.bias_free(),
    {
        match self.config.bias_release {
            None => true,
            Some(schedule) => self.keyframes.len() >= schedule.min_keyframes
                && schedule.min_translation_meters.le(self.cumulative_translation),
        }
    }

    fn pack_result(
        &self,
        stats: InertialStats<I>,
        gravity: Option<Point3>,
        gyro: Option<Point3>,
    ) -> (result: MotionBasedViInitializationResult<I>)
        ensures
            is_packed_result(self@, stats, gravity, gyro, result),
    {
        let with_scale = self.choose_mode().recovers_scale();
        let bias_released = self.may_release_bias();
        let scale = if with_scale {
            stats.scale
        } else {
            Scalar::one()
        };
        let scale_history: Vec<Scalar> = if with_scale {
            stats.scale_history
        } else {
            Vec::new()
        };
        let viba2_iterations_run: usize = if with_scale {
            stats.outer_iterations_run
        } else {
            0
        };
        MotionBasedViInitializationResult {
            keyframe_states: stats.keyframe_states,
            keyframe_ids: stats.keyframe_ids,
            imu_factors_used: stats.imu_factor_count,
            scale,
            scale_history,
            viba2_iterations_run,
            trigger_translation_meters: self.cumulative_translation,
            ba_result: stats.ba_result,
            initial_cost_breakdown: stats.initial_cost_breakdown,
            final_cost_breakdown: stats.final_cost_breakdown,
            bias_released,
            estimated_gravity_world: gravity,
            estimated_gyro_bias: gyro,
        }
    }

    fn run_solve_stage<S, N>(
        &self,
        ids: &Vec<u64>,
        bodies: Vec<Pose>,
        seeds: &Vec<Point3>,
        factors: &[ImuFactor],
        stage: GyroStage,
        bias_acc: Point3,
        aligned: Option<&GravityVelocityAlignment>,
        solve: &S,
        norm: &N,
    ) -> (verdict: Result<
        MotionBasedViInitializationResult<I>,
        MotionBasedViRejectionReason,
    >) where S: Fn(&InertialTask) -> Option<InertialStats<I>>, N: Fn(&Point3) -> Scalar
        requires
            ids@ == self@.ids(),
            seeds.len() == ids.len(),
            forall|task: InertialTask| call_requires(*solve, (&task,)),
            forall|v: Point3| call_requires(*norm, (&v,)),
        ensures
            is_solve_stage(
                *solve,
                *norm,
                self@,
                bodies@,
                seeds@,
                factors@,
                stage,
                bias_acc,
                dereferenced(aligned),
                verdict,
            ),
    {
        let states = prepare_states(ids, seeds, aligned, stage.bias, bias_acc);
        let adjusted = prepare_factors(factors, aligned);
        let mut keyframe_ids: Vec<u64> = Vec::new();
        let mut k: usize = 0;
        while k < ids.len()
            invariant
                k <= ids.len(),
                keyframe_ids@ == ids@.take(k as int),
            decreases ids.len() - k,
        {
            keyframe_ids.push(ids[k]);
            k += 1;
        }
        proof {
            lemma_take_all(ids@);
        }
        let task = InertialTask {
            mode: self.choose_mode(),
            keyframe_ids,
            body_poses: bodies,
            states,
            factors: adjusted,
            ba_config: self.config.ba_config,
        };
        let gravity: Option<Point3> = match aligned {
            Some(found) => Some(found.gravity_world),
            None => None,
        };
        let answer = solve(&task);
        assert(is_inertial_task(
            self@,
            bodies@,
            seeds@,
            factors@,
            stage,
            bias_acc,
            dereferenced(aligned),
            task,
        ));
        assert(call_ensures(*solve, (&task,), answer));
        match answer {
            None => {
                if connects_any(factors, ids) {
                    Err(MotionBasedViRejectionReason::SolverFailed)
                } else {
                    Err(MotionBasedViRejectionReason::NoUsableImuFactors)
                }
            },
            Some(stats) => {
                let result = self.pack_result(stats, gravity, stage.estimated);
                let reason = judge_result(&self.config, &result, norm);
                assert(is_judgement(*norm, self@.config, result, reason));
                match reason {
                    Some(rejection) => Err(rejection),
                    None => Ok(result),
                }
            },
        }
    }

    fn reject_early(&self) -> (reason: Option<MotionBasedViRejectionReason>)
        requires
            self@.wf(),
        ensures
            reason is Some ==> forall|poses: Map<u64, Option<Pose>>|
                self@.early_rejection(poses) == reason,
            reason is None ==> forall|poses: Map<u64, Option<Pose>>|
                self@.early_rejection(poses) == (if forall|k: int|
                    0 <= k < self@.keyframes.len() ==> pose_of(poses, (
                    #[trigger] self@.keyframes[k]).0) is Some {
                    None
                } else {
                    Some(MotionBasedViRejectionReason::MissingKeyframeData)
                }),
    {
        let observed = self.keyframes.len();
        if observed < self.config.min_keyframes {
            return Some(
                MotionBasedViRejectionReason::InsufficientKeyframes {
                    have: observed,
                    need: self.config.min_keyframes,
                },
            );
        }
        if self.cumulative_translation.lt(self.config.min_translation_meters) {
            return Some(
                MotionBasedViRejectionReason::InsufficientTranslation {
                    have: self.cumulative_translation,
                    need: self.config.min_translation_meters,
                },
            );
        }
        if !self.may_release_bias() && self.velocity_stage.is_some() {
            if let Some(schedule) = self.config.bias_release {
                return Some(
                    MotionBasedViRejectionReason::AwaitingBiasReleaseExcitation {
                        have_keyframes: observed,
                        need_keyframes: schedule.min_keyframes,
                        have_translation_meters: self.cumulative_translation,
                        need_translation_meters: schedule.min_translation_meters,
                    },
                );
            }
        }
        None
    }

    fn keep_rejection(&mut self, reason: MotionBasedViRejectionReason)
        ensures
            final(self)@ == (MotionModel { last_rejection: Some(reason), ..old(self)@ }),
    {
        self.last_rejection = Some(reason);
    }

    /// One attempt, without regard to an earlier result.
    fn attempt<C, V, N, X, S, GR, GN, GT, GS, GE, YR, YT>(
        &mut self,
        poses: &KeyframePoses,
        factors: &[ImuFactor],
        bias_gyro_seed: Point3,
        bias_acc_seed: Point3,
        numerics: &MotionNumerics<C, V, N, X, S, GR, GN, GT, GS, GE, YR, YT>,
    ) -> (rejection: Option<MotionBasedViRejectionReason>) where
    C: Fn(&Pose, &Pose) -> Pose,
    V: Fn(&Point3, &Point3, Scalar) -> Point3,
    N: Fn(&Point3) -> Scalar,
    X: Fn(Scalar, Scalar) -> Scalar,
    S: Fn(&InertialTask) -> Option<InertialStats<I>>,
    GR: Fn(&AlignmentTask) -> Option<RawGravity>,
    GN: Fn(&RawGravity) -> Point3,
    GT: Fn(&AlignmentTask, Scalar, &Point3) -> Option<TangentStep>,
    GS: Fn(Scalar, &Point3) -> Point3,
    GE: Fn(&AlignmentTask, &Point3, &Vec<Point3>) -> Scalar,
    YR: Fn(&AlignmentTask, &Point3) -> Scalar,
    YT: Fn(&AlignmentTask, &Point3) -> Option<GyroStep>,

        requires
            old(self)@.wf(),
            is_callable(*numerics),
        ensures
            final(self)@.wf(),
            match old(self)@.early_rejection(poses@) {
                Some(reason) => rejection == Some(reason) && final(self)@ == (MotionModel {
                    last_rejection: Some(reason),
                    ..old(self)@
                }),
                None => exists|attempt: Attempt<I>| #[trigger]
                    is_attempt(
                        *numerics,
                        old(self)@,
                        poses@,
                        factors@,
                        bias_gyro_seed,
                        bias_acc_seed,
                        attempt,
                    ) && final(self)@ == old(self)@.after(attempt) && rejection == (
                    match attempt.verdict {
                        Ok(result) => None,
                        Err(reason) => Some(reason),
                    }),
            },
    {
        let ghost model = self@;
        let early = self.reject_early();
        if let Some(reason) = early {
            self.keep_rejection(reason);
            return early;
        }
        let ids = collect_keyframe_ids(&self.keyframes);
        assert(ids@ == model.ids());
        let seeds = seed_velocities(&self.keyframes, factors, &numerics.velocity);
        let placed = place_bodies(&ids, poses, &self.config.body_to_camera, &numerics.compose);
        assert(forall|k: int| 0 <= k < ids.len() ==> #[trigger] ids@[k] == model.keyframes[k].0);
        let bodies = match placed {
            Some(found) => {
                assert forall|k: int| 0 <= k < model.keyframes.len() implies pose_of(
                    poses@,
                    (#[trigger] model.keyframes[k]).0,
                ) is Some by {
                    assert(pose_of(poses@, ids@[k]) is Some);
                }
                found
            },
            None => {
                proof {
                    let k = choose|k: int|
                        0 <= k < ids.len() && pose_of(poses@, #[trigger] ids@[k]) is None;
                    assert(pose_of(poses@, model.keyframes[k].0) is None);
                }
                self.keep_rejection(MotionBasedViRejectionReason::MissingKeyframeData);
                return Some(MotionBasedViRejectionReason::MissingKeyframeData);
            },
        };
        let map = map_bodies(&ids, &bodies);
        let ghost placed_bodies = bodies@;
        let (tried_gyro, first) = run_gyro_stage(
            &self.config,
            &ids,
            &map,
            factors,
            bias_gyro_seed,
            &numerics.norm,
            &numerics.gyro,
        );
        if let Some(alignment) = tried_gyro {
            self.last_gyro_bias_alignment = alignment;
        }
        let ghost mut attempt: Attempt<I> = Attempt {
            gyro: tried_gyro,
            gravity: None,
            verdict: Err(MotionBasedViRejectionReason::SolverFailed),
        };
        let stage = match first {
            Ok(stage) => stage,
            Err(reason) => {
                self.keep_rejection(reason);
                proof {
                    attempt = Attempt { verdict: Err(reason), ..attempt };
                    assert(is_staged(
                        *numerics,
                        model,
                        placed_bodies,
                        seeds@,
                        factors@,
                        bias_gyro_seed,
                        bias_acc_seed,
                        attempt,
                    ));
                    assert(is_attempt(
                        *numerics,
                        model,
                        poses@,
                        factors@,
                        bias_gyro_seed,
                        bias_acc_seed,
                        attempt,
                    ));
                    assert(self@ =~= model.after(attempt));
                }
                return Some(reason);
            },
        };
        let (tried_gravity, second) = run_gravity_stage(
            &self.config,
            &ids,
            &map,
            factors,
            stage.bias,
            bias_acc_seed,
            &numerics.norm,
            &numerics.deviation,
            &numerics.gravity,
        );
        let ghost aligned = gravity_outcome(tried_gravity, second);
        proof {
            attempt = Attempt { gravity: tried_gravity, ..attempt };
        }
        if let Some(reason) = second {
            if let Some(alignment) = tried_gravity {
                self.last_gravity_alignment = alignment;
            }
            self.keep_rejection(reason);
            proof {
                attempt = Attempt { verdict: Err(reason), ..attempt };
                assert(is_staged(
                    *numerics,
                    model,
                    placed_bodies,
                    seeds@,
                    factors@,
                    bias_gyro_seed,
                    bias_acc_seed,
                    attempt,
                ));
                assert(is_attempt(
                    *numerics,
                    model,
                    poses@,
                    factors@,
                    bias_gyro_seed,
                    bias_acc_seed,
                    attempt,
                ));
                assert(self@ =~= model.after(attempt));
            }
            return second;
        }
        let verdict = {
            let reference: Option<&GravityVelocityAlignment> = match &tried_gravity {
                Some(alignment) => alignment.as_ref(),
                None => None,
            };
            self.run_solve_stage(
                &ids,
                bodies,
                &seeds,
                factors,
                stage,
                bias_acc_seed,
                reference,
                &numerics.solve,
                &numerics.norm,
            )
        };
        let ghost solved = self@;
        proof {
            attempt = Attempt { verdict, ..attempt };
            lemma_same_solve_stage(
                numerics.solve,
                numerics.norm,
                solved,
                model,
                placed_bodies,
                seeds@,
                factors@,
                stage,
                bias_acc_seed,
                aligned->Ok_0,
                verdict,
            );
            assert(is_staged(
                *numerics,
                model,
                placed_bodies,
                seeds@,
                factors@,
                bias_gyro_seed,
                bias_acc_seed,
                attempt,
            ));
            assert(is_attempt(
                *numerics,
                model,
                poses@,
                factors@,
                bias_gyro_seed,
                bias_acc_seed,
                attempt,
            ));
        }
        if let Some(alignment) = tried_gravity {
            self.last_gravity_alignment = alignment;
        }
        match verdict {
            Ok(result) => {
                self.last_rejection = None;
                if result.bias_released {
                    self.completed = Some(result);
                } else {
                    self.velocity_stage = Some(result);
                }
                assert(self@ =~= model.after(attempt));
                None
            },
            Err(reason) => {
                self.last_rejection = Some(reason);
                assert(self@ =~= model.after(attempt));
                Some(reason)
            },
        }
    }
}

proof fn lemma_same_solve_stage<S, N, I>(
    solve: S,
    norm: N,
    model: MotionModel<I>,
    other: MotionModel<I>,
    bodies: Seq<Pose>,
    seeds: Seq<Point3>,
    factors: Seq<ImuFactor>,
    stage: GyroStage,
    bias_acc: Point3,
    aligned: Option<GravityVelocityAlignment>,
    verdict: Result<MotionBasedViInitializationResult<I>, MotionBasedViRejectionReason>,
) where
    S: Fn(&InertialTask) -> Option<InertialStats<I>>,
    N: Fn(&Point3) -> Scalar,

    requires
        is_solve_stage(
            solve,
            norm,
            model,
            bodies,
            seeds,
            factors,
            stage,
            bias_acc,
            aligned,
            verdict,
        ),
        model.config == other.config,
        model.keyframes == other.keyframes,
        model.cumulative_translation == other.cumulative_translation,
    ensures
        is_solve_stage(
            solve,
            norm,
            other,
            bodies,
            seeds,
            factors,
            stage,
            bias_acc,
            aligned,
            verdict,
        ),
        verdict matches Ok(result) ==> result.bias_released == other.bias_free(),
{
    let (task, answer) = choose|task: InertialTask, answer: Option<InertialStats<I>>|
        {
            &&& is_inertial_task(model, bodies, seeds, factors, stage, bias_acc, aligned, task)
            &&& #[trigger] call_ensures(solve, (&task,), answer)
            &&& match answer {
                None => verdict == Err::<MotionBasedViInitializationResult<I>, _>(
                    if any_in_window(factors, model.ids()) {
                        MotionBasedViRejectionReason::SolverFailed
                    } else {
                        MotionBasedViRejectionReason::NoUsableImuFactors
                    },
                ),
                Some(stats) => is_result_verdict(
                    norm,
                    model,
                    stats,
                    gravity_of(aligned),
                    stage.estimated,
                    verdict,
                ),
            }
        };
    assert(is_inertial_task(other, bodies, seeds, factors, stage, bias_acc, aligned, task));
    if let Some(stats) = answer {
        let (result, reason) = choose|
            result: MotionBasedViInitializationResult<I>,
            reason: Option<MotionBasedViRejectionReason>,
        |
            {
                &&& is_packed_result(model, stats, gravity_of(aligned), stage.estimated, result)
                &&& #[trigger] is_judgement(norm, model.config, result, reason)
                &&& verdict == (match reason {
                    Some(rejection) => Err(rejection),
                    None => Ok(result),
                })
            };
        assert(is_packed_result(other, stats, gravity_of(aligned), stage.estimated, result));
        assert(is_judgement(norm, other.config, result, reason));
    }
}

/// What a call that attempts to initialise does: with a final result nothing but return it;
/// else it is rejected early, or the attempt decides.
pub open spec fn is_initialization<C, V, N, X, S, GR, GN, GT, GS, GE, YR, YT, I>(
    numerics: MotionNumerics<C, V, N, X, S, GR, GN, GT, GS, GE, YR, YT>,
    before: MotionModel<I>,
    poses: Map<u64, Option<Pose>>,
    factors: Seq<ImuFactor>,
    bias_gyro_seed: Point3,
    bias_acc_seed: Point3,
    after: MotionModel<I>,
    outcome: Result<MotionBasedViInitializationResult<I>, MotionBasedViRejectionReason>,
) -> bool where
    C: Fn(&Pose, &Pose) -> Pose,
    V: Fn(&Point3, &Point3, Scalar) -> Point3,
    N: Fn(&Point3) -> Scalar,
    X: Fn(Scalar, Scalar) -> Scalar,
    S: Fn(&InertialTask) -> Option<InertialStats<I>>,
    GR: Fn(&AlignmentTask) -> Option<RawGravity>,
    GN: Fn(&RawGravity) -> Point3,
    GT: Fn(&AlignmentTask, Scalar, &Point3) -> Option<TangentStep>,
    GS: Fn(Scalar, &Point3) -> Point3,
    GE: Fn(&AlignmentTask, &Point3, &Vec<Point3>) -> Scalar,
    YR: Fn(&AlignmentTask, &Point3) -> Scalar,
    YT: Fn(&AlignmentTask, &Point3) -> Option<GyroStep>,
 {
    match before.completed {
        Some(result) => after == before && outcome == Ok::<_, MotionBasedViRejectionReason>(
            result,
        ),
        None => match before.early_rejection(poses) {
            Some(reason) => after == (MotionModel { last_rejection: Some(reason), ..before })
                && outcome == Err::<MotionBasedViInitializationResult<I>, _>(reason),
            None => exists|attempt: Attempt<I>| #[trigger]
                is_attempt(
                    numerics,
                    before,
                    poses,
                    factors,
                    bias_gyro_seed,
                    bias_acc_seed,
                    attempt,
                ) && after == before.after(attempt) && outcome == attempt.verdict,
        },
    }
}

/// The result by value.
pub open spec fn by_value<I>(
    outcome: Result<&MotionBasedViInitializationResult<I>, MotionBasedViRejectionReason>,
) -> Result<MotionBasedViInitializationResult<I>, MotionBasedViRejectionReason> {
    match outcome {
        Ok(result) => Ok(*result),
        Err(reason) => Err(reason),
    }
}

impl<I> MotionBasedViInitializer<I> {
    /// Attempts to initialise from the biases of a stationary start.
    pub fn try_initialize<C, V, N, X, S, GR, GN, GT, GS, GE, YR, YT>(
        &mut self,
        poses: &KeyframePoses,
        preintegration_factors: &[ImuFactor],
        static_seed: &VisualInertialInitializationResult,
        numerics: &MotionNumerics<C, V, N, X, S, GR, GN, GT, GS, GE, YR, YT>,
    ) -> (outcome: Result<
        &MotionBasedViInitializationResult<I>,
        MotionBasedViRejectionReason,
    >) where
        C: Fn(&Pose, &Pose) -> Pose,
        V: Fn(&Point3, &Point3, Scalar) -> Point3,
        N: Fn(&Point3) -> Scalar,
        X: Fn(Scalar, Scalar) -> Scalar,
        S: Fn(&InertialTask) -> Option<InertialStats<I>>,
        GR: Fn(&AlignmentTask) -> Option<RawGravity>,
        GN: Fn(&RawGravity) -> Point3,
        GT: Fn(&AlignmentTask, Scalar, &Point3) -> Option<TangentStep>,
        GS: Fn(Scalar, &Point3) -> Point3,
        GE: Fn(&AlignmentTask, &Point3, &Vec<Point3>) -> Scalar,
        YR: Fn(&AlignmentTask, &Point3) -> Scalar,
        YT: Fn(&AlignmentTask, &Point3) -> Option<GyroStep>,

        requires
            old(self)@.wf(),
            is_callable(*numerics),
        ensures
            final(self)@.wf(),
            is_initialization(
                *numerics,
                old(self)@,
                poses@,
                preintegration_factors@,
                static_seed.bias_gyro,
                static_seed.bias_acc,
                final(self)@,
                by_value(outcome),
            ),
    {
        self.try_initialize_with_bias_seed(
            poses,
            preintegration_factors,
            static_seed.bias_gyro,
            static_seed.bias_acc,
            numerics,
        )
    }

    /// Attempts to initialise from the given biases. A final result is kept and returned by
    /// every later call. While biases are held, the result is returned but is not final.
    pub fn try_initialize_with_bias_seed<C, V, N, X, S, GR, GN, GT, GS, GE, YR, YT>(
        &mut self,
        poses: &KeyframePoses,
        preintegration_factors: &[ImuFactor],
        bias_gyro_seed: Point3,
        bias_acc_seed: Point3,
        numerics: &MotionNumerics<C, V, N, X, S, GR, GN, GT, GS, GE, YR, YT>,
    ) -> (outcome: Result<
        &MotionBasedViInitializationResult<I>,
        MotionBasedViRejectionReason,
    >) where
        C: Fn(&Pose, &Pose) -> Pose,
        V: Fn(&Point3, &Point3, Scalar) -> Point3,
        N: Fn(&Point3) -> Scalar,
        X: Fn(Scalar, Scalar) -> Scalar,
        S: Fn(&InertialTask) -> Option<InertialStats<I>>,
        GR: Fn(&AlignmentTask) -> Option<RawGravity>,
        GN: Fn(&RawGravity) -> Point3,
        GT: Fn(&AlignmentTask, Scalar, &Point3) -> Option<TangentStep>,
        GS: Fn(Scalar, &Point3) -> Point3,
        GE: Fn(&AlignmentTask, &Point3, &Vec<Point3>) -> Scalar,
        YR: Fn(&AlignmentTask, &Point3) -> Scalar,
        YT: Fn(&AlignmentTask, &Point3) -> Option<GyroStep>,

        requires
            old(self)@.wf(),
            is_callable(*numerics),
        ensures
            final(self)@.wf(),
            is_initialization(
                *numerics,
                old(self)@,
                poses@,
                preintegration_factors@,
                bias_gyro_seed,
                bias_acc_seed,
                final(self)@,
                by_value(outcome),
            ),
    {
        if self.completed.is_none() {
            let rejection = self.attempt(
                poses,
                preintegration_factors,
                bias_gyro_seed,
                bias_acc_seed,
                numerics,
            );
            if let Some(reason) = rejection {
                return Err(reason);
            }
        }
        match &self.completed {
            Some(result) => Ok(result),
            None => match &self.velocity_stage {
                Some(result) => Ok(result),
                None => Err(MotionBasedViRejectionReason::SolverFailed),
            },
        }
    }
}

/// The result of a solve stage is final exactly when biases were free, and no residual of it
/// is out of range.
proof fn lemma_verdict_passed<S, N, I>(
    solve: S,
    norm: N,
    model: MotionModel<I>,
    bodies: Seq<Pose>,
    seeds: Seq<Point3>,
    factors: Seq<ImuFactor>,
    stage: GyroStage,
    bias_acc: Point3,
    aligned: Option<GravityVelocityAlignment>,
    result: MotionBasedViInitializationResult<I>,
) where
    S: Fn(&InertialTask) -> Option<InertialStats<I>>,
    N: Fn(&Point3) -> Scalar,

    requires
        is_solve_stage(
            solve,
            norm,
            model,
            bodies,
            seeds,
            factors,
            stage,
            bias_acc,
            aligned,
            Ok::<_, MotionBasedViRejectionReason>(result),
        ),
    ensures
        result.bias_released == model.bias_free(),
        result.trigger_translation_meters == model.cumulative_translation,
        result.estimated_gravity_world == gravity_of(aligned),
        is_judgement(norm, model.config, result, None),
{
}

/// The stages that an attempt with a result went through.
proof fn lemma_attempt_solved<C, V, N, X, S, GR, GN, GT, GS, GE, YR, YT, I>(
    numerics: MotionNumerics<C, V, N, X, S, GR, GN, GT, GS, GE, YR, YT>,
    model: MotionModel<I>,
    poses: Map<u64, Option<Pose>>,
    factors: Seq<ImuFactor>,
    bias_gyro_seed: Point3,
    bias_acc_seed: Point3,
    attempt: Attempt<I>,
    result: MotionBasedViInitializationResult<I>,
) -> (stages: (Seq<Pose>, Seq<Point3>, GyroStage, Option<GravityVelocityAlignment>)) where
    C: Fn(&Pose, &Pose) -> Pose,
    V: Fn(&Point3, &Point3, Scalar) -> Point3,
    N: Fn(&Point3) -> Scalar,
    X: Fn(Scalar, Scalar) -> Scalar,
    S: Fn(&InertialTask) -> Option<InertialStats<I>>,
    GR: Fn(&AlignmentTask) -> Option<RawGravity>,
    GN: Fn(&RawGravity) -> Point3,
    GT: Fn(&AlignmentTask, Scalar, &Point3) -> Option<TangentStep>,
    GS: Fn(Scalar, &Point3) -> Point3,
    GE: Fn(&AlignmentTask, &Point3, &Vec<Point3>) -> Scalar,
    YR: Fn(&AlignmentTask, &Point3) -> Scalar,
    YT: Fn(&AlignmentTask, &Point3) -> Option<GyroStep>,

    requires
        is_attempt(
            numerics,
            model,
            poses,
            factors,
            bias_gyro_seed,
            bias_acc_seed,
            attempt,
        ),
        attempt.verdict == Ok::<_, MotionBasedViRejectionReason>(result),
    ensures
        is_gyro_stage(
            numerics.norm,
            numerics.gyro,
            model.config,
            model.ids(),
            body_map(model.ids(), stages.0),
            factors,
            bias_gyro_seed,
            attempt.gyro,
            Ok::<_, MotionBasedViRejectionReason>(stages.2),
        ),
        is_gravity_stage(
            numerics.norm,
            numerics.deviation,
            numerics.gravity,
            model.config,
            model.ids(),
            body_map(model.ids(), stages.0),
            factors,
            stages.2.bias,
            bias_acc_seed,
            attempt.gravity,
            Ok::<_, MotionBasedViRejectionReason>(stages.3),
        ),
        is_solve_stage(
            numerics.solve,
            numerics.norm,
            model,
            stages.0,
            stages.1,
            factors,
            stages.2,
            bias_acc_seed,
            stages.3,
            attempt.verdict,
        ),
{
    let (bodies, seeds) = choose|bodies: Seq<Pose>, seeds: Seq<Point3>|
        {
            &&& #[trigger] are_bodies(
                numerics.compose,
                model.config.body_to_camera,
                poses,
                model.ids(),
                bodies,
            )
            &&& #[trigger] are_seed_velocities(numerics.velocity, model.keyframes, factors, seeds)
            &&& is_staged(
                numerics,
                model,
                bodies,
                seeds,
                factors,
                bias_gyro_seed,
                bias_acc_seed,
                attempt,
            )
        };
    let map = body_map(model.ids(), bodies);
    let first = choose|first: Result<GyroStage, MotionBasedViRejectionReason>| #[trigger]
        is_gyro_stage(
            numerics.norm,
            numerics.gyro,
            model.config,
            model.ids(),
            map,
            factors,
            bias_gyro_seed,
            attempt.gyro,
            first,
        ) && (match first {
            Err(reason) => attempt.gravity is None && attempt.verdict == Err::<
                MotionBasedViInitializationResult<I>,
                _,
            >(reason),
            Ok(stage) => exists|
                second: Result<Option<GravityVelocityAlignment>, MotionBasedViRejectionReason>,
            | #[trigger]
                is_gravity_stage(
                    numerics.norm,
                    numerics.deviation,
                    numerics.gravity,
                    model.config,
                    model.ids(),
                    map,
                    factors,
                    stage.bias,
                    bias_acc_seed,
                    attempt.gravity,
                    second,
                ) && (match second {
                    Err(reason) => attempt.verdict == Err::<
                        MotionBasedViInitializationResult<I>,
                        _,
                    >(reason),
                    Ok(aligned) => is_solve_stage(
                        numerics.solve,
                        numerics.norm,
                        model,
                        bodies,
                        seeds,
                        factors,
                        stage,
                        bias_acc_seed,
                        aligned,
                        attempt.verdict,
                    ),
                }),
        });
    let stage = first->Ok_0;
    let second = choose|
        second: Result<Option<GravityVelocityAlignment>, MotionBasedViRejectionReason>,
    | #[trigger]
        is_gravity_stage(
            numerics.norm,
            numerics.deviation,
            numerics.gravity,
            model.config,
            model.ids(),
            map,
            factors,
            stage.bias,
            bias_acc_seed,
            attempt.gravity,
            second,
        ) && (match second {
            Err(reason) => attempt.verdict == Err::<MotionBasedViInitializationResult<I>, _>(
                reason,
            ),
            Ok(aligned) => is_solve_stage(
                numerics.solve,
                numerics.norm,
                model,
                bodies,
                seeds,
                factors,
                stage,
                bias_acc_seed,
                aligned,
                attempt.verdict,
            ),
        });
    (bodies, seeds, stage, second->Ok_0)
}

/// A result that an attempt keeps has passed every gate, is final exactly when biases were
/// free, and names an estimate exactly where one was asked for.
pub proof fn kept_results_passed_every_gate<C, V, N, X, S, GR, GN, GT, GS, GE, YR, YT, I>(
    numerics: MotionNumerics<C, V, N, X, S, GR, GN, GT, GS, GE, YR, YT>,
    model: MotionModel<I>,
    poses: Map<u64, Option<Pose>>,
    factors: Seq<ImuFactor>,
    bias_gyro_seed: Point3,
    bias_acc_seed: Point3,
    attempt: Attempt<I>,
    result: MotionBasedViInitializationResult<I>,
) where
    C: Fn(&Pose, &Pose) -> Pose,
    V: Fn(&Point3, &Point3, Scalar) -> Point3,
    N: Fn(&Point3) -> Scalar,
    X: Fn(Scalar, Scalar) -> Scalar,
    S: Fn(&InertialTask) -> Option<InertialStats<I>>,
    GR: Fn(&AlignmentTask) -> Option<RawGravity>,
    GN: Fn(&RawGravity) -> Point3,
    GT: Fn(&AlignmentTask, Scalar, &Point3) -> Option<TangentStep>,
    GS: Fn(Scalar, &Point3) -> Point3,
    GE: Fn(&AlignmentTask, &Point3, &Vec<Point3>) -> Scalar,
    YR: Fn(&AlignmentTask, &Point3) -> Scalar,
    YT: Fn(&AlignmentTask, &Point3) -> Option<GyroStep>,

    requires
        is_attempt(
            numerics,
            model,
            poses,
            factors,
            bias_gyro_seed,
            bias_acc_seed,
            attempt,
        ),
        attempt.verdict == Ok::<_, MotionBasedViRejectionReason>(result),
    ensures
        result.bias_released == model.bias_free(),
        result.estimated_gyro_bias is Some <==> model.config.estimate_gyro_bias,
        result.estimated_gravity_world is Some <==> model.config.estimate_gravity,
        residual_rejection(model.config, result.final_cost_breakdown) is None,
        is_norm_gate(
            numerics.norm,
            model.config.max_velocity_magnitude_mps,
            result.keyframe_states@,
            StateVector::Velocity,
            None,
        ),
        is_norm_gate(
            numerics.norm,
            model.config.max_gyro_bias_magnitude_rad_s,
            result.keyframe_states@,
            StateVector::GyroBias,
            None,
        ),
        is_norm_gate(
            numerics.norm,
            model.config.max_accel_bias_magnitude_mps2,
            result.keyframe_states@,
            StateVector::AccelBias,
            None,
        ),
{
    let (bodies, seeds, stage, aligned) = lemma_attempt_solved(
        numerics,
        model,
        poses,
        factors,
        bias_gyro_seed,
        bias_acc_seed,
        attempt,
        result,
    );
    lemma_verdict_passed(
        numerics.solve,
        numerics.norm,
        model,
        bodies,
        seeds,
        factors,
        stage,
        bias_acc_seed,
        aligned,
        result,
    );
}

/// A result with held biases has, of every keyframe, the acceleration bias that was given,
/// and the rotation bias that was estimated or, without an estimate, given.
pub proof fn held_biases_stay<C, V, N, X, S, GR, GN, GT, GS, GE, YR, YT, I>(
    numerics: MotionNumerics<C, V, N, X, S, GR, GN, GT, GS, GE, YR, YT>,
    model: MotionModel<I>,
    poses: Map<u64, Option<Pose>>,
    factors: Seq<ImuFactor>,
    bias_gyro_seed: Point3,
    bias_acc_seed: Point3,
    attempt: Attempt<I>,
    result: MotionBasedViInitializationResult<I>,
) where
    C: Fn(&Pose, &Pose) -> Pose,
    V: Fn(&Point3, &Point3, Scalar) -> Point3,
    N: Fn(&Point3) -> Scalar,
    X: Fn(Scalar, Scalar) -> Scalar,
    S: Fn(&InertialTask) -> Option<InertialStats<I>>,
    GR: Fn(&AlignmentTask) -> Option<RawGravity>,
    GN: Fn(&RawGravity) -> Point3,
    GT: Fn(&AlignmentTask, Scalar, &Point3) -> Option<TangentStep>,
    GS: Fn(Scalar, &Point3) -> Point3,
    GE: Fn(&AlignmentTask, &Point3, &Vec<Point3>) -> Scalar,
    YR: Fn(&AlignmentTask, &Point3) -> Scalar,
    YT: Fn(&AlignmentTask, &Point3) -> Option<GyroStep>,

    requires
        is_callable(numerics),
        is_attempt(
            numerics,
            model,
            poses,
            factors,
            bias_gyro_seed,
            bias_acc_seed,
            attempt,
        ),
        attempt.verdict == Ok::<_, MotionBasedViRejectionReason>(result),
        !result.bias_released,
    ensures
        forall|id: u64| #[trigger]
            result.keyframe_states@.contains_key(id) ==> {
                let state = result.keyframe_states@[id];
                &&& state.bias_acc == bias_acc_seed
                &&& state.bias_gyro == (match result.estimated_gyro_bias {
                    Some(bias) => bias,
                    None => bias_gyro_seed,
                })
            },
{
    let (bodies, seeds, stage, aligned) = lemma_attempt_solved(
        numerics,
        model,
        poses,
        factors,
        bias_gyro_seed,
        bias_acc_seed,
        attempt,
        result,
    );
    let (task, answer) = choose|task: InertialTask, answer: Option<InertialStats<I>>|
        {
            &&& is_inertial_task(
                model,
                bodies,
                seeds,
                factors,
                stage,
                bias_acc_seed,
                aligned,
                task,
            )
            &&& #[trigger] call_ensures(numerics.solve, (&task,), answer)
            &&& match answer {
                None => attempt.verdict == Err::<MotionBasedViInitializationResult<I>, _>(
                    if any_in_window(factors, model.ids()) {
                        MotionBasedViRejectionReason::SolverFailed
                    } else {
                        MotionBasedViRejectionReason::NoUsableImuFactors
                    },
                ),
                Some(stats) => is_result_verdict(
                    numerics.norm,
                    model,
                    stats,
                    gravity_of(aligned),
                    stage.estimated,
                    attempt.verdict,
                ),
            }
        };
    assert(holds_biases(task, answer->0));
    assert(task.mode is VelocitiesOnly);
}

/// A rejected call keeps registered keyframes, motion, settings and every earlier result,
/// and remembers why it was rejected.
pub proof fn rejections_keep_earlier_results<C, V, N, X, S, GR, GN, GT, GS, GE, YR, YT, I>(
    numerics: MotionNumerics<C, V, N, X, S, GR, GN, GT, GS, GE, YR, YT>,
    before: MotionModel<I>,
    poses: Map<u64, Option<Pose>>,
    factors: Seq<ImuFactor>,
    bias_gyro_seed: Point3,
    bias_acc_seed: Point3,
    after: MotionModel<I>,
    reason: MotionBasedViRejectionReason,
) where
    C: Fn(&Pose, &Pose) -> Pose,
    V: Fn(&Point3, &Point3, Scalar) -> Point3,
    N: Fn(&Point3) -> Scalar,
    X: Fn(Scalar, Scalar) -> Scalar,
    S: Fn(&InertialTask) -> Option<InertialStats<I>>,
    GR: Fn(&AlignmentTask) -> Option<RawGravity>,
    GN: Fn(&RawGravity) -> Point3,
    GT: Fn(&AlignmentTask, Scalar, &Point3) -> Option<TangentStep>,
    GS: Fn(Scalar, &Point3) -> Point3,
    GE: Fn(&AlignmentTask, &Point3, &Vec<Point3>) -> Scalar,
    YR: Fn(&AlignmentTask, &Point3) -> Scalar,
    YT: Fn(&AlignmentTask, &Point3) -> Option<GyroStep>,

    requires
        is_initialization(
            numerics,
            before,
            poses,
            factors,
            bias_gyro_seed,
            bias_acc_seed,
            after,
            Err::<MotionBasedViInitializationResult<I>, _>(reason),
        ),
    ensures
        after.config == before.config,
        after.keyframes == before.keyframes,
        after.cumulative_translation == before.cumulative_translation,
        after.completed == before.completed,
        after.velocity_stage == before.velocity_stage,
        after.last_rejection == Some(reason),
{
}

/// A length is another lengthened by a distance: no smaller, or no number at all.
pub open spec fn has_grown(before: Scalar, after: Scalar) -> bool {
    before.le(after) || after.is_nan()
}

/// What any operation but a reset leaves of a model: settings but for gravity, the number
/// of keyframes and the translation no smaller, a final result, and a result with held
/// biases for as long as they may not be released.
pub open spec fn follows<I>(before: MotionModel<I>, after: MotionModel<I>) -> bool {
    &&& after.config == (MotionBasedViInitializerConfig {
        gravity_world: after.config.gravity_world,
        ..before.config
    })
    &&& before.keyframes.len() <= after.keyframes.len()
    &&& has_grown(before.cumulative_translation, after.cumulative_translation)
    &&& before.completed is Some ==> after.completed == before.completed
    &&& before.completed is None && before.velocity_stage is Some && !before.bias_free()
        ==> after.completed is None && after.velocity_stage == before.velocity_stage
}

/// Models that follow one from the other.
pub open spec fn is_lifetime<I>(states: Seq<MotionModel<I>>) -> bool {
    &&& states.len() > 0
    &&& forall|i: int, j: int|
        0 <= i && j == i + 1 < states.len() ==> follows(
            #[trigger] states[i],
            #[trigger] states[j],
        )
}

proof fn lemma_place_of(keyframes: Seq<(u64, Point3)>, id: u64, k: int)
    requires
        0 <= k,
    ensures
        place_of(keyframes, id, k) matches Some(place) ==> k <= place < keyframes.len(),
    decreases keyframes.len() - k,
{
    if k < keyframes.len() {
        lemma_place_of(keyframes, id, k + 1);
    }
}

/// Registering a keyframe, with distances that do not shrink a length, leaves the model as
/// any operation does; so does replacing gravity.
pub proof fn registrations_follow<D, I>(
    before: MotionModel<I>,
    keyframe_id: u64,
    center: Point3,
    extend: D,
    after: MotionModel<I>,
    gravity_world: Point3,
) where D: Fn(Scalar, &Point3, &Point3) -> Scalar
    requires
        is_registration(before, keyframe_id, center, extend, after),
        forall|length: Scalar, from: Point3, to: Point3, sum: Scalar| #[trigger]
            call_ensures(extend, (length, &from, &to), sum) ==> has_grown(length, sum),
    ensures
        follows(before, after),
        follows(
            before,
            MotionModel {
                config: MotionBasedViInitializerConfig { gravity_world, ..before.config },
                ..before
            },
        ),
{
    lemma_place_of(before.keyframes, keyframe_id, 0);
}

/// Attempting to initialise, with any arguments, leaves the model as any operation does.
pub proof fn initializations_follow<C, V, N, X, S, GR, GN, GT, GS, GE, YR, YT, I>(
    numerics: MotionNumerics<C, V, N, X, S, GR, GN, GT, GS, GE, YR, YT>,
    before: MotionModel<I>,
    poses: Map<u64, Option<Pose>>,
    factors: Seq<ImuFactor>,
    bias_gyro_seed: Point3,
    bias_acc_seed: Point3,
    after: MotionModel<I>,
    outcome: Result<MotionBasedViInitializationResult<I>, MotionBasedViRejectionReason>,
) where
    C: Fn(&Pose, &Pose) -> Pose,
    V: Fn(&Point3, &Point3, Scalar) -> Point3,
    N: Fn(&Point3) -> Scalar,
    X: Fn(Scalar, Scalar) -> Scalar,
    S: Fn(&InertialTask) -> Option<InertialStats<I>>,
    GR: Fn(&AlignmentTask) -> Option<RawGravity>,
    GN: Fn(&RawGravity) -> Point3,
    GT: Fn(&AlignmentTask, Scalar, &Point3) -> Option<TangentStep>,
    GS: Fn(Scalar, &Point3) -> Point3,
    GE: Fn(&AlignmentTask, &Point3, &Vec<Point3>) -> Scalar,
    YR: Fn(&AlignmentTask, &Point3) -> Scalar,
    YT: Fn(&AlignmentTask, &Point3) -> Option<GyroStep>,

    requires
        is_initialization(
            numerics,
            before,
            poses,
            factors,
            bias_gyro_seed,
            bias_acc_seed,
            after,
            outcome,
        ),
    ensures
        follows(before, after),
{
}

proof fn lemma_lifetime<I>(states: Seq<MotionModel<I>>, k: int)
    requires
        is_lifetime(states),
        0 <= k < states.len(),
    ensures
        states[0].completed is Some ==> states[k].completed == states[0].completed,
        states[0].completed is None && states[0].velocity_stage is Some && (forall|j: int|
            0 <= j < k ==> !(#[trigger] states[j]).bias_free()) ==> states[k].completed is None
            && states[k].velocity_stage == states[0].velocity_stage,
        states[0].keyframes.len() <= states[k].keyframes.len(),
        !states[0].cumulative_translation.lt(states[0].config.min_translation_meters)
            ==> !states[k].cumulative_translation.lt(states[k].config.min_translation_meters),
        states[k].config == (MotionBasedViInitializerConfig {
            gravity_world: states[k].config.gravity_world,
            ..states[0].config
        }),
    decreases k,
{
    if k > 0 {
        lemma_lifetime(states, k - 1);
        assert(follows(states[k - 1], states[k]));
    }
}

/// The first result lasts. Let a call return a result, let any operations but a reset follow,
/// and then a call with any arguments. Where the first result is final, the second call
/// returns it and changes nothing. Where biases were held, a schedule asked for it, the
/// result is kept apart from a final one, and until its schedule is met the second call is
/// told to await the release and only records that.
pub proof fn first_results_last<C, V, N, X, S, GR, GN, GT, GS, GE, YR, YT, C2, V2, N2, X2, S2, GR2, GN2, GT2, GS2, GE2, YR2, YT2, I>(
    numerics: MotionNumerics<C, V, N, X, S, GR, GN, GT, GS, GE, YR, YT>,
    before: MotionModel<I>,
    poses: Map<u64, Option<Pose>>,
    factors: Seq<ImuFactor>,
    bias_gyro_seed: Point3,
    bias_acc_seed: Point3,
    result: MotionBasedViInitializationResult<I>,
    states: Seq<MotionModel<I>>,
    later_numerics: MotionNumerics<C2, V2, N2, X2, S2, GR2, GN2, GT2, GS2, GE2, YR2, YT2>,
    later_poses: Map<u64, Option<Pose>>,
    later_factors: Seq<ImuFactor>,
    later_bias_gyro: Point3,
    later_bias_acc: Point3,
    after: MotionModel<I>,
    later: Result<MotionBasedViInitializationResult<I>, MotionBasedViRejectionReason>,
) where
    C: Fn(&Pose, &Pose) -> Pose,
    V: Fn(&Point3, &Point3, Scalar) -> Point3,
    N: Fn(&Point3) -> Scalar,
    X: Fn(Scalar, Scalar) -> Scalar,
    S: Fn(&InertialTask) -> Option<InertialStats<I>>,
    GR: Fn(&AlignmentTask) -> Option<RawGravity>,
    GN: Fn(&RawGravity) -> Point3,
    GT: Fn(&AlignmentTask, Scalar, &Point3) -> Option<TangentStep>,
    GS: Fn(Scalar, &Point3) -> Point3,
    GE: Fn(&AlignmentTask, &Point3, &Vec<Point3>) -> Scalar,
    YR: Fn(&AlignmentTask, &Point3) -> Scalar,
    YT: Fn(&AlignmentTask, &Point3) -> Option<GyroStep>,
    C2: Fn(&Pose, &Pose) -> Pose,
    V2: Fn(&Point3, &Point3, Scalar) -> Point3,
    N2: Fn(&Point3) -> Scalar,
    X2: Fn(Scalar, Scalar) -> Scalar,
    S2: Fn(&InertialTask) -> Option<InertialStats<I>>,
    GR2: Fn(&AlignmentTask) -> Option<RawGravity>,
    GN2: Fn(&RawGravity) -> Point3,
    GT2: Fn(&AlignmentTask, Scalar, &Point3) -> Option<TangentStep>,
    GS2: Fn(Scalar, &Point3) -> Point3,
    GE2: Fn(&AlignmentTask, &Point3, &Vec<Point3>) -> Scalar,
    YR2: Fn(&AlignmentTask, &Point3) -> Scalar,
    YT2: Fn(&AlignmentTask, &Point3) -> Option<GyroStep>,

    requires
        before.wf(),
        is_lifetime(states),
        is_initialization(
            numerics,
            before,
            poses,
            factors,
            bias_gyro_seed,
            bias_acc_seed,
            states[0],
            Ok::<_, MotionBasedViRejectionReason>(result),
        ),
        is_initialization(
            later_numerics,
            states.last(),
            later_poses,
            later_factors,
            later_bias_gyro,
            later_bias_acc,
            after,
            later,
        ),
    ensures
        result.bias_released ==> {
            &&& states.last().completed == Some(result)
            &&& later == Ok::<_, MotionBasedViRejectionReason>(result)
            &&& after == states.last()
        },
        !result.bias_released ==> {
            &&& before.config.bias_release is Some
            &&& states[0].completed is None
            &&& states[0].velocity_stage == Some(result)
        },
        !result.bias_released && (forall|k: int|
            0 <= k < states.len() ==> !(#[trigger] states[k]).bias_free()) ==> {
            let last = states.last();
            let schedule = before.config.bias_release->0;
            let reason = MotionBasedViRejectionReason::AwaitingBiasReleaseExcitation {
                have_keyframes: last.keyframes.len() as usize,
                need_keyframes: schedule.min_keyframes,
                have_translation_meters: last.cumulative_translation,
                need_translation_meters: schedule.min_translation_meters,
            };
            &&& last.completed is None
            &&& last.velocity_stage == Some(result)
            &&& later == Err::<MotionBasedViInitializationResult<I>, _>(reason)
            &&& after == (MotionModel { last_rejection: Some(reason), ..last })
        },
{
    let last = states.len() - 1;
    lemma_lifetime(states, last);
    assert(states.last() == states[last]);
    if before.completed is None {
        let attempt = choose|attempt: Attempt<I>| #[trigger]
            is_attempt(
                numerics,
                before,
                poses,
                factors,
                bias_gyro_seed,
                bias_acc_seed,
                attempt,
            ) && states[0] == before.after(attempt) && attempt.verdict == Ok::<
                _,
                MotionBasedViRejectionReason,
            >(result);
        kept_results_passed_every_gate(
            numerics,
            before,
            poses,
            factors,
            bias_gyro_seed,
            bias_acc_seed,
            attempt,
            result,
        );
    }
}

/// A value that a limit is set for is there, finite and not above the limit.
pub open spec fn stays_within(limit: Option<Scalar>, value: Option<Scalar>) -> bool {
    limit matches Some(most) ==> (value matches Some(residual) && residual.is_finite() && !most.lt(
        residual,
    ))
}

/// The three final residuals stay within the limits that are set for them.
pub open spec fn residuals_stay_within(
    config: MotionBasedViInitializerConfig,
    cost: BaCostBreakdown,
) -> bool {
    &&& stays_within(
        config.max_final_imu_rotation_residual_rms_rad,
        cost.imu_rotation_residual_rms_rad,
    )
    &&& stays_within(
        config.max_final_imu_velocity_residual_rms_mps,
        cost.imu_velocity_residual_rms_mps,
    )
    &&& stays_within(
        config.max_final_imu_position_residual_rms_meters,
        cost.imu_position_residual_rms_meters,
    )
}

/// Where a limit is set, the vector of every keyframe has a norm that is not above it.
pub open spec fn norms_stay_within<N>(
    norm: N,
    limit: Option<Scalar>,
    states: Map<u64, KeyframeImuState>,
    vector_of: spec_fn(KeyframeImuState) -> Point3,
) -> bool where N: Fn(&Point3) -> Scalar {
    limit matches Some(most) ==> forall|id: u64| #[trigger]
        states.contains_key(id) ==> exists|length: Scalar|
            !most.lt(length) && #[trigger] call_ensures(norm, (&vector_of(states[id]),), length)
}

/// A judgement that refuses nothing has found every final residual within its limit, and
/// the velocity and biases of every keyframe within theirs. Nothing else is accepted.
pub proof fn accepted_results_stay_within_the_limits<N, I>(
    norm: N,
    config: MotionBasedViInitializerConfig,
    result: MotionBasedViInitializationResult<I>,
) where N: Fn(&Point3) -> Scalar
    requires
        is_judgement(norm, config, result, None),
    ensures
        residuals_stay_within(config, result.final_cost_breakdown),
        config.max_final_imu_nis_per_dof matches Some(limit) ==> (
        result.final_cost_breakdown.imu_normalized_squared_residual_per_dof matches Some(nis)
            ==> nis.is_finite() && !limit.lt(nis)),
        norms_stay_within(
            norm,
            config.max_velocity_magnitude_mps,
            result.keyframe_states@,
            |state: KeyframeImuState| state.velocity_world,
        ),
        norms_stay_within(
            norm,
            config.max_gyro_bias_magnitude_rad_s,
            result.keyframe_states@,
            |state: KeyframeImuState| state.bias_gyro,
        ),
        norms_stay_within(
            norm,
            config.max_accel_bias_magnitude_mps2,
            result.keyframe_states@,
            |state: KeyframeImuState| state.bias_acc,
        ),
{
    let states = result.keyframe_states@;
    lemma_gate_passed(
        norm,
        config.max_velocity_magnitude_mps,
        states,
        StateVector::Velocity,
        |state: KeyframeImuState| state.velocity_world,
    );
    lemma_gate_passed(
        norm,
        config.max_gyro_bias_magnitude_rad_s,
        states,
        StateVector::GyroBias,
        |state: KeyframeImuState| state.bias_gyro,
    );
    lemma_gate_passed(
        norm,
        config.max_accel_bias_magnitude_mps2,
        states,
        StateVector::AccelBias,
        |state: KeyframeImuState| state.bias_acc,
    );
}

proof fn lemma_gate_passed<N>(
    norm: N,
    limit: Option<Scalar>,
    states: Map<u64, KeyframeImuState>,
    vector: StateVector,
    vector_of: spec_fn(KeyframeImuState) -> Point3,
) where N: Fn(&Point3) -> Scalar
    requires
        is_norm_gate(norm, limit, states, vector, None),
        forall|state: KeyframeImuState| #[trigger] vector_of(state) == vector.of(state),
    ensures
        norms_stay_within(norm, limit, states, vector_of),
{
    if let Some(most) = limit {
        let (norms, worst) = choose|norms: Map<u64, Scalar>, worst: Option<(u64, Scalar)>|
            #![trigger are_norms(norm, states, vector, norms), is_worst(vector, norms, most, worst)]
            are_norms(norm, states, vector, norms) && is_worst(vector, norms, most, worst) && worst
                is None;
        assert forall|id: u64| #[trigger] states.contains_key(id) implies exists|length: Scalar|
            !most.lt(length) && #[trigger] call_ensures(
                norm,
                (&vector_of(states[id]),),
                length,
            ) by {
            assert(states.dom().contains(id));
            assert(norms.contains_key(id));
            let length = norms[id];
            assert(vector_of(states[id]) == vector.of(states[id]));
            assert(!most.lt(length) && call_ensures(norm, (&vector_of(states[id]),), length));
        }
    }
}

/// A result one of whose final residuals is missing, not finite or above its limit is
/// refused, and the refusal shows the residuals and the limits as they are.
pub proof fn excessive_residuals_are_refused<N, I>(
    norm: N,
    config: MotionBasedViInitializerConfig,
    result: MotionBasedViInitializationResult<I>,
    reason: Option<MotionBasedViRejectionReason>,
) where N: Fn(&Point3) -> Scalar
    requires
        is_judgement(norm, config, result, reason),
    ensures
        ({
            let cost = result.final_cost_breakdown;
            let raw = MotionBasedViRejectionReason::ImuRawResidualOutOfRange {
                rotation_residual_rms_rad: cost.imu_rotation_residual_rms_rad,
                velocity_residual_rms_mps: cost.imu_velocity_residual_rms_mps,
                position_residual_rms_meters: cost.imu_position_residual_rms_meters,
                max_rotation_residual_rms_rad: config.max_final_imu_rotation_residual_rms_rad,
                max_velocity_residual_rms_mps: config.max_final_imu_velocity_residual_rms_mps,
                max_position_residual_rms_meters:
                    config.max_final_imu_position_residual_rms_meters,
            };
            &&& !residuals_stay_within(config, cost) <==> reason == Some(raw)
            &&& reason matches Some(MotionBasedViRejectionReason::ImuRawResidualOutOfRange {
                ..
            }) ==> reason == Some(raw)
            &&& reason matches Some(MotionBasedViRejectionReason::ImuNisOutOfRange {
                normalized_nis_per_dof,
                limit,
                ..
            }) ==> config.max_final_imu_nis_per_dof == Some(limit)
                && cost.imu_normalized_squared_residual_per_dof == Some(normalized_nis_per_dof) && (
            !normalized_nis_per_dof.is_finite() || limit.lt(normalized_nis_per_dof))
            &&& residuals_stay_within(config, cost) ==> (
            config.max_final_imu_nis_per_dof matches Some(limit) ==> (
            cost.imu_normalized_squared_residual_per_dof matches Some(nis) ==> (!nis.is_finite()
                || limit.lt(nis) ==> reason matches Some(
                MotionBasedViRejectionReason::ImuNisOutOfRange { .. },
            ))))
        }),
{
}

/// A refusal for a velocity or a bias names a keyframe whose vector is above the limit, and
/// none of the others is longer.
pub proof fn refusals_name_the_worst_keyframe<N, I>(
    norm: N,
    config: MotionBasedViInitializerConfig,
    result: MotionBasedViInitializationResult<I>,
    reason: MotionBasedViRejectionReason,
) where N: Fn(&Point3) -> Scalar
    requires
        is_judgement(norm, config, result, Some(reason)),
    ensures
        reason matches MotionBasedViRejectionReason::VelocityOutOfRange {
            kf_id,
            magnitude_mps,
            limit_mps,
        } ==> config.max_velocity_magnitude_mps == Some(limit_mps) && names_the_worst(
            norm,
            result.keyframe_states@,
            |state: KeyframeImuState| state.velocity_world,
            limit_mps,
            kf_id,
            magnitude_mps,
        ),
        reason matches MotionBasedViRejectionReason::GyroBiasOutOfRange {
            kf_id,
            magnitude_rad_s,
            limit_rad_s,
        } ==> config.max_gyro_bias_magnitude_rad_s == Some(limit_rad_s) && names_the_worst(
            norm,
            result.keyframe_states@,
            |state: KeyframeImuState| state.bias_gyro,
            limit_rad_s,
            kf_id,
            magnitude_rad_s,
        ),
        reason matches MotionBasedViRejectionReason::AccelBiasOutOfRange {
            kf_id,
            magnitude_mps2,
            limit_mps2,
        } ==> config.max_accel_bias_magnitude_mps2 == Some(limit_mps2) && names_the_worst(
            norm,
            result.keyframe_states@,
            |state: KeyframeImuState| state.bias_acc,
            limit_mps2,
            kf_id,
            magnitude_mps2,
        ),
{
    let states = result.keyframe_states@;
    if residual_rejection(config, result.final_cost_breakdown) is None {
        if is_norm_gate(
            norm,
            config.max_velocity_magnitude_mps,
            states,
            StateVector::Velocity,
            Some(reason),
        ) {
            lemma_gate_refused(
                norm,
                config.max_velocity_magnitude_mps,
                states,
                StateVector::Velocity,
                |state: KeyframeImuState| state.velocity_world,
                reason,
            );
        } else if is_norm_gate(
            norm,
            config.max_gyro_bias_magnitude_rad_s,
            states,
            StateVector::GyroBias,
            Some(reason),
        ) {
            lemma_gate_refused(
                norm,
                config.max_gyro_bias_magnitude_rad_s,
                states,
                StateVector::GyroBias,
                |state: KeyframeImuState| state.bias_gyro,
                reason,
            );
        } else {
            lemma_gate_refused(
                norm,
                config.max_accel_bias_magnitude_mps2,
                states,
                StateVector::AccelBias,
                |state: KeyframeImuState| state.bias_acc,
                reason,
            );
        }
    }
}

/// The keyframe's vector has the given length, which is above the limit, and no other
/// keyframe's vector has been found longer.
pub open spec fn names_the_worst<N>(
    norm: N,
    states: Map<u64, KeyframeImuState>,
    vector_of: spec_fn(KeyframeImuState) -> Point3,
    limit: Scalar,
    id: u64,
    length: Scalar,
) -> bool where N: Fn(&Point3) -> Scalar {
    &&& states.contains_key(id)
    &&& limit.lt(length)
    &&& call_ensures(norm, (&vector_of(states[id]),), length)
    &&& forall|other: u64| #[trigger]
        states.contains_key(other) ==> exists|found: Scalar|
            !length.lt(found) && #[trigger] call_ensures(norm, (&vector_of(states[other]),), found)
}

proof fn lemma_gate_refused<N>(
    norm: N,
    limit: Option<Scalar>,
    states: Map<u64, KeyframeImuState>,
    vector: StateVector,
    vector_of: spec_fn(KeyframeImuState) -> Point3,
    reason: MotionBasedViRejectionReason,
) -> (at: (u64, Scalar))
    where N: Fn(&Point3) -> Scalar
    requires
        is_norm_gate(norm, limit, states, vector, Some(reason)),
        forall|state: KeyframeImuState| #[trigger] vector_of(state) == vector.of(state),
    ensures
        limit is Some,
        reason == norm_rejection(vector, at.0, at.1, limit->0),
        names_the_worst(norm, states, vector_of, limit->0, at.0, at.1),
{
    let most = limit->0;
    let (norms, worst) = choose|norms: Map<u64, Scalar>, worst: Option<(u64, Scalar)>|
        #![trigger are_norms(norm, states, vector, norms), is_worst(vector, norms, most, worst)]
        are_norms(norm, states, vector, norms) && is_worst(vector, norms, most, worst) && worst
            is Some && reason == norm_rejection(vector, (worst->0).0, (worst->0).1, most);
    let (id, length) = worst->0;
    assert(states.dom().contains(id));
    assert(vector_of(states[id]) == vector.of(states[id]));
    assert(call_ensures(norm, (&vector_of(states[id]),), norms[id]));
    assert forall|other: u64| #[trigger] states.contains_key(other) implies exists|found: Scalar|
        !length.lt(found) && #[trigger] call_ensures(
            norm,
            (&vector_of(states[other]),),
            found,
        ) by {
        assert(states.dom().contains(other));
        assert(norms.contains_key(other));
        assert(vector_of(states[other]) == vector.of(states[other]));
        let found = norms[other];
        assert(call_ensures(norm, (&vector_of(states[other]),), found));
        crate::scalar::total_order_laws(length, found);
        if length.lt(found) {
            assert(most.lt(found));
            assert(is_worse(vector, id, length, other, found));
        }
    }
    (id, length)
}

/// A call that returns a result it did not have before has enough keyframes, all of which
/// have a pose, and enough motion; its final residuals, and the velocity and biases of every
/// keyframe, are within the limits that are set. The result is the final one exactly where
/// no schedule holds the biases back.
pub proof fn initializations_meet_every_limit<C, V, N, X, S, GR, GN, GT, GS, GE, YR, YT, I>(
    numerics: MotionNumerics<C, V, N, X, S, GR, GN, GT, GS, GE, YR, YT>,
    before: MotionModel<I>,
    poses: Map<u64, Option<Pose>>,
    factors: Seq<ImuFactor>,
    bias_gyro_seed: Point3,
    bias_acc_seed: Point3,
    after: MotionModel<I>,
    result: MotionBasedViInitializationResult<I>,
) where
    C: Fn(&Pose, &Pose) -> Pose,
    V: Fn(&Point3, &Point3, Scalar) -> Point3,
    N: Fn(&Point3) -> Scalar,
    X: Fn(Scalar, Scalar) -> Scalar,
    S: Fn(&InertialTask) -> Option<InertialStats<I>>,
    GR: Fn(&AlignmentTask) -> Option<RawGravity>,
    GN: Fn(&RawGravity) -> Point3,
    GT: Fn(&AlignmentTask, Scalar, &Point3) -> Option<TangentStep>,
    GS: Fn(Scalar, &Point3) -> Point3,
    GE: Fn(&AlignmentTask, &Point3, &Vec<Point3>) -> Scalar,
    YR: Fn(&AlignmentTask, &Point3) -> Scalar,
    YT: Fn(&AlignmentTask, &Point3) -> Option<GyroStep>,

    requires
        before.completed is None,
        is_initialization(
            numerics,
            before,
            poses,
            factors,
            bias_gyro_seed,
            bias_acc_seed,
            after,
            Ok::<_, MotionBasedViRejectionReason>(result),
        ),
    ensures
        before.keyframes.len() >= before.config.min_keyframes,
        !before.cumulative_translation.lt(before.config.min_translation_meters),
        forall|k: int|
            0 <= k < before.keyframes.len() ==> poses.contains_key((#[trigger] before.keyframes[k]).0)
                && poses[before.keyframes[k].0] is Some,
        residuals_stay_within(before.config, result.final_cost_breakdown),
        before.config.max_final_imu_nis_per_dof matches Some(limit) ==> (
        result.final_cost_breakdown.imu_normalized_squared_residual_per_dof matches Some(nis)
            ==> nis.is_finite() && !limit.lt(nis)),
        norms_stay_within(
            numerics.norm,
            before.config.max_velocity_magnitude_mps,
            result.keyframe_states@,
            |state: KeyframeImuState| state.velocity_world,
        ),
        norms_stay_within(
            numerics.norm,
            before.config.max_gyro_bias_magnitude_rad_s,
            result.keyframe_states@,
            |state: KeyframeImuState| state.bias_gyro,
        ),
        norms_stay_within(
            numerics.norm,
            before.config.max_accel_bias_magnitude_mps2,
            result.keyframe_states@,
            |state: KeyframeImuState| state.bias_acc,
        ),
        result.bias_released <==> (before.config.bias_release matches Some(schedule)
            ==> before.keyframes.len() >= schedule.min_keyframes
            && schedule.min_translation_meters.le(before.cumulative_translation)),
        result.bias_released ==> after.completed == Some(result),
        !result.bias_released ==> after.completed is None && after.velocity_stage == Some(result),
        after.last_rejection is None,
        result.trigger_translation_meters == before.cumulative_translation,
{
    let attempt = choose|attempt: Attempt<I>| #[trigger]
        is_attempt(
            numerics,
            before,
            poses,
            factors,
            bias_gyro_seed,
            bias_acc_seed,
            attempt,
        ) && after == before.after(attempt) && attempt.verdict == Ok::<
            _,
            MotionBasedViRejectionReason,
        >(result);
    let (bodies, seeds, stage, aligned) = lemma_attempt_solved(
        numerics,
        before,
        poses,
        factors,
        bias_gyro_seed,
        bias_acc_seed,
        attempt,
        result,
    );
    lemma_verdict_passed(
        numerics.solve,
        numerics.norm,
        before,
        bodies,
        seeds,
        factors,
        stage,
        bias_acc_seed,
        aligned,
        result,
    );
    accepted_results_stay_within_the_limits(numerics.norm, before.config, result);
    assert forall|k: int| 0 <= k < before.keyframes.len() implies poses.contains_key(
        (#[trigger] before.keyframes[k]).0,
    ) && poses[before.keyframes[k].0] is Some by {
        assert(pose_of(poses, before.keyframes[k].0) is Some);
    }
}

/// What a call without a result is told before anything is solved: that keyframes are
/// missing, else that motion is, else that the biases are still held, else that a pose is.
/// A final result is returned whatever else is asked.
pub proof fn calls_are_refused_early<C, V, N, X, S, GR, GN, GT, GS, GE, YR, YT, I>(
    numerics: MotionNumerics<C, V, N, X, S, GR, GN, GT, GS, GE, YR, YT>,
    before: MotionModel<I>,
    poses: Map<u64, Option<Pose>>,
    factors: Seq<ImuFactor>,
    bias_gyro_seed: Point3,
    bias_acc_seed: Point3,
    after: MotionModel<I>,
    outcome: Result<MotionBasedViInitializationResult<I>, MotionBasedViRejectionReason>,
) where
    C: Fn(&Pose, &Pose) -> Pose,
    V: Fn(&Point3, &Point3, Scalar) -> Point3,
    N: Fn(&Point3) -> Scalar,
    X: Fn(Scalar, Scalar) -> Scalar,
    S: Fn(&InertialTask) -> Option<InertialStats<I>>,
    GR: Fn(&AlignmentTask) -> Option<RawGravity>,
    GN: Fn(&RawGravity) -> Point3,
    GT: Fn(&AlignmentTask, Scalar, &Point3) -> Option<TangentStep>,
    GS: Fn(Scalar, &Point3) -> Point3,
    GE: Fn(&AlignmentTask, &Point3, &Vec<Point3>) -> Scalar,
    YR: Fn(&AlignmentTask, &Point3) -> Scalar,
    YT: Fn(&AlignmentTask, &Point3) -> Option<GyroStep>,

    requires
        is_initialization(
            numerics,
            before,
            poses,
            factors,
            bias_gyro_seed,
            bias_acc_seed,
            after,
            outcome,
        ),
        before.keyframes.len() <= usize::MAX,
    ensures
        before.completed matches Some(result) ==> outcome == Ok::<_, MotionBasedViRejectionReason>(
            result,
        ) && after == before,
        before.completed is None && before.keyframes.len() < before.config.min_keyframes
            ==> outcome == Err::<MotionBasedViInitializationResult<I>, _>(
            MotionBasedViRejectionReason::InsufficientKeyframes {
                have: before.keyframes.len() as usize,
                need: before.config.min_keyframes,
            },
        ),
        before.completed is None && before.keyframes.len() >= before.config.min_keyframes
            && before.cumulative_translation.lt(before.config.min_translation_meters) ==> outcome
            == Err::<MotionBasedViInitializationResult<I>, _>(
            MotionBasedViRejectionReason::InsufficientTranslation {
                have: before.cumulative_translation,
                need: before.config.min_translation_meters,
            },
        ),
        before.completed is None && before.keyframes.len() >= before.config.min_keyframes
            && !before.cumulative_translation.lt(before.config.min_translation_meters) && (
        before.config.bias_release matches Some(schedule) && (before.keyframes.len()
            < schedule.min_keyframes || !schedule.min_translation_meters.le(
            before.cumulative_translation,
        ))) && before.velocity_stage is Some ==> outcome == Err::<
            MotionBasedViInitializationResult<I>,
            _,
        >(
            MotionBasedViRejectionReason::AwaitingBiasReleaseExcitation {
                have_keyframes: before.keyframes.len() as usize,
                need_keyframes: before.config.bias_release->0.min_keyframes,
                have_translation_meters: before.cumulative_translation,
                need_translation_meters: before.config.bias_release->0.min_translation_meters,
            },
        ),
        before.completed is None && (exists|k: int|
            0 <= k < before.keyframes.len() && !(poses.contains_key(
                (#[trigger] before.keyframes[k]).0,
            ) && poses[before.keyframes[k].0] is Some)) ==> outcome is Err,
        before.ready() <==> before.completed is None && before.keyframes.len()
            >= before.config.min_keyframes && before.config.min_translation_meters.le(
            before.cumulative_translation,
        ),
{
    if before.completed is None && (exists|k: int|
        0 <= k < before.keyframes.len() && !(poses.contains_key((#[trigger] before.keyframes[k]).0)
            && poses[before.keyframes[k].0] is Some)) {
        let k = choose|k: int|
            0 <= k < before.keyframes.len() && !(poses.contains_key(
                (#[trigger] before.keyframes[k]).0,
            ) && poses[before.keyframes[k].0] is Some);
        assert(pose_of(poses, before.keyframes[k].0) is None);
    }
}

/// What the solver may change: only velocities while a schedule holds the biases back; else
/// the biases too, and the scale where that is set up. A result reports the solver's scale
/// where it was recovered and one otherwise.
pub proof fn biases_are_free_when_scheduled<I>(
    model: MotionModel<I>,
    stats: InertialStats<I>,
    gravity: Option<Point3>,
    gyro: Option<Point3>,
    result: MotionBasedViInitializationResult<I>,
)
    requires
        is_packed_result(model, stats, gravity, gyro, result),
    ensures
        model.mode() == InertialMode::VelocitiesOnly <==> (
        model.config.bias_release matches Some(schedule) && (model.keyframes.len()
            < schedule.min_keyframes || !schedule.min_translation_meters.le(
            model.cumulative_translation,
        ))),
        model.mode() != InertialMode::VelocitiesOnly ==> model.mode() == (match model.config.viba2 {
            Some(settings) => InertialMode::WithScale(settings),
            None => InertialMode::WithBias,
        }),
        (model.mode() matches InertialMode::WithScale(settings) && settings.recover_scale)
            ==> result.scale == stats.scale && result.scale_history == stats.scale_history
            && result.viba2_iterations_run == stats.outer_iterations_run,
        !(model.mode() matches InertialMode::WithScale(settings) && settings.recover_scale)
            ==> result.scale == Scalar::one() && result.scale_history@.len() == 0
            && result.viba2_iterations_run == 0,
        result.bias_released <==> model.mode() != InertialMode::VelocitiesOnly,
        result.final_cost_breakdown == stats.final_cost_breakdown,
        result.keyframe_states == stats.keyframe_states,
{
}

/// The velocity that a keyframe starts from is zero for the first; for any other it is that
/// between the two centres over the time of the first factor that links them, where that
/// time is positive, and zero otherwise.
pub proof fn seeds_follow_the_first_link<V>(
    velocity: V,
    keyframes: Seq<(u64, Point3)>,
    factors: Seq<ImuFactor>,
    seeds: Seq<Point3>,
    k: int,
    f: int,
) where V: Fn(&Point3, &Point3, Scalar) -> Point3
    requires
        are_seed_velocities(velocity, keyframes, factors, seeds),
        0 <= k < keyframes.len(),
    ensures
        seeds.len() == keyframes.len(),
        k == 0 ==> seeds[k] == Point3::zero(),
        k > 0 && 0 <= f < factors.len() && factors[f].keyframe_id_from == keyframes[k - 1].0
            && factors[f].keyframe_id_to == keyframes[k].0 && (forall|g: int|
            0 <= g < f ==> (#[trigger] factors[g]).keyframe_id_from != keyframes[k - 1].0
                || factors[g].keyframe_id_to != keyframes[k].0) ==> if Scalar::zero().lt(
            factors[f].delta_time,
        ) {
            call_ensures(
                velocity,
                (&keyframes[k - 1].1, &keyframes[k].1, factors[f].delta_time),
                seeds[k],
            )
        } else {
            seeds[k] == Point3::zero()
        },
        k > 0 && (forall|g: int|
            0 <= g < factors.len() ==> (#[trigger] factors[g]).keyframe_id_from != keyframes[k
                - 1].0 || factors[g].keyframe_id_to != keyframes[k].0) ==> seeds[k]
            == Point3::zero(),
{
    let seed = seeds[k];
    if k > 0 {
        lemma_link_time(factors, keyframes[k - 1].0, keyframes[k].0, 0, f);
    }
}

proof fn lemma_link_time(factors: Seq<ImuFactor>, from: u64, to: u64, start: int, f: int)
    requires
        0 <= start <= factors.len(),
    ensures
        start <= f < factors.len() && factors[f].keyframe_id_from == from
            && factors[f].keyframe_id_to == to && (forall|g: int|
            start <= g < f ==> (#[trigger] factors[g]).keyframe_id_from != from
                || factors[g].keyframe_id_to != to) ==> link_time(factors, from, to, start)
            == Some(factors[f].delta_time),
        (forall|g: int|
            start <= g < factors.len() ==> (#[trigger] factors[g]).keyframe_id_from != from
                || factors[g].keyframe_id_to != to) ==> link_time(factors, from, to, start) is None,
    decreases factors.len() - start,
{
    if start < factors.len() {
        lemma_link_time(factors, from, to, start + 1, f);
        assert(factors[start] == factors[start]);
    }
}

/// A call that returns a result, where gravity is estimated, has an estimate whose raw norm
/// deviates from the expected one by a finite ratio that is not above the limit.
pub proof fn kept_gravity_deviates_little<C, V, N, X, S, GR, GN, GT, GS, GE, YR, YT, I>(
    numerics: MotionNumerics<C, V, N, X, S, GR, GN, GT, GS, GE, YR, YT>,
    model: MotionModel<I>,
    poses: Map<u64, Option<Pose>>,
    factors: Seq<ImuFactor>,
    bias_gyro_seed: Point3,
    bias_acc_seed: Point3,
    attempt: Attempt<I>,
    result: MotionBasedViInitializationResult<I>,
) -> (found: (GravityVelocityAlignment, Scalar, Scalar))
    where
    C: Fn(&Pose, &Pose) -> Pose,
    V: Fn(&Point3, &Point3, Scalar) -> Point3,
    N: Fn(&Point3) -> Scalar,
    X: Fn(Scalar, Scalar) -> Scalar,
    S: Fn(&InertialTask) -> Option<InertialStats<I>>,
    GR: Fn(&AlignmentTask) -> Option<RawGravity>,
    GN: Fn(&RawGravity) -> Point3,
    GT: Fn(&AlignmentTask, Scalar, &Point3) -> Option<TangentStep>,
    GS: Fn(Scalar, &Point3) -> Point3,
    GE: Fn(&AlignmentTask, &Point3, &Vec<Point3>) -> Scalar,
    YR: Fn(&AlignmentTask, &Point3) -> Scalar,
    YT: Fn(&AlignmentTask, &Point3) -> Option<GyroStep>,

    requires
        is_attempt(numerics, model, poses, factors, bias_gyro_seed, bias_acc_seed, attempt),
        attempt.verdict == Ok::<_, MotionBasedViRejectionReason>(result),
        model.config.estimate_gravity,
    ensures
        ({
            let (alignment, expected, ratio) = found;
            &&& attempt.gravity == Some(Some(alignment))
            &&& result.estimated_gravity_world == Some(alignment.gravity_world)
            &&& call_ensures(numerics.norm, (&model.config.gravity_world,), expected)
            &&& Scalar::zero().lt(expected) ==> call_ensures(
                numerics.deviation,
                (alignment.raw_gravity_norm, expected),
                ratio,
            )
            &&& Scalar::zero().lt(expected)
            &&& ratio.is_finite()
            &&& !model.config.max_gravity_norm_deviation_ratio.lt(ratio)
        }),
{
    let (bodies, seeds, stage, aligned) = lemma_attempt_solved(
        numerics,
        model,
        poses,
        factors,
        bias_gyro_seed,
        bias_acc_seed,
        attempt,
        result,
    );
    lemma_verdict_passed(
        numerics.solve,
        numerics.norm,
        model,
        bodies,
        seeds,
        factors,
        stage,
        bias_acc_seed,
        aligned,
        result,
    );
    let map = body_map(model.ids(), bodies);
    let alignment = attempt.gravity->0->0;
    let expected = choose|expected: Scalar|
        {
            &&& #[trigger] call_ensures(numerics.norm, (&model.config.gravity_world,), expected)
            &&& exists|ratio: Scalar| #[trigger]
                is_deviation(numerics.deviation, alignment.raw_gravity_norm, expected, ratio)
                    && ratio.is_finite() && !model.config.max_gravity_norm_deviation_ratio.lt(ratio)
        };
    let ratio = choose|ratio: Scalar| #[trigger]
        is_deviation(numerics.deviation, alignment.raw_gravity_norm, expected, ratio)
            && ratio.is_finite() && !model.config.max_gravity_norm_deviation_ratio.lt(ratio);
    (alignment, expected, ratio)
}

/// A solve that gives nothing is a failure of the solver where some factor links two
/// registered keyframes, and otherwise a want of usable factors. A solve that gives
/// something is never reported as either.
pub proof fn failed_solves_tell_why<S, N, I>(
    solve: S,
    norm: N,
    model: MotionModel<I>,
    bodies: Seq<Pose>,
    seeds: Seq<Point3>,
    factors: Seq<ImuFactor>,
    stage: GyroStage,
    bias_acc: Point3,
    aligned: Option<GravityVelocityAlignment>,
    verdict: Result<MotionBasedViInitializationResult<I>, MotionBasedViRejectionReason>,
) -> (answer: Option<InertialStats<I>>) where
    S: Fn(&InertialTask) -> Option<InertialStats<I>>,
    N: Fn(&Point3) -> Scalar,

    requires
        is_solve_stage(
            solve,
            norm,
            model,
            bodies,
            seeds,
            factors,
            stage,
            bias_acc,
            aligned,
            verdict,
        ),
    ensures
        ({
            let linked = exists|f: int, i: int, j: int|
                #![trigger factors[f], model.keyframes[i], model.keyframes[j]]
                0 <= f < factors.len() && 0 <= i < model.keyframes.len() && 0 <= j
                    < model.keyframes.len() && factors[f].keyframe_id_from == model.keyframes[i].0
                    && factors[f].keyframe_id_to == model.keyframes[j].0;
            &&& answer is None && linked ==> verdict == Err::<
                MotionBasedViInitializationResult<I>,
                _,
            >(MotionBasedViRejectionReason::SolverFailed)
            &&& answer is None && !linked ==> verdict == Err::<
                MotionBasedViInitializationResult<I>,
                _,
            >(MotionBasedViRejectionReason::NoUsableImuFactors)
            &&& answer matches Some(stats) ==> (verdict matches Ok(result) ==> {
                &&& result.keyframe_states == stats.keyframe_states
                &&& result.final_cost_breakdown == stats.final_cost_breakdown
                &&& result.imu_factors_used == stats.imu_factor_count
            })
            &&& exists|task: InertialTask|
                {
                    &&& #[trigger] call_ensures(solve, (&task,), answer)
                    &&& task.body_poses@ == bodies
                    &&& task.keyframe_ids@.len() == model.keyframes.len()
                    &&& task.factors@.len() == factors.len()
                    &&& task.states@.len() == model.keyframes.len()
                    &&& task.ba_config == model.config.ba_config
                    &&& forall|k: int|
                        0 <= k < task.states@.len() ==> (#[trigger] task.states@[k]).bias_gyro
                            == stage.bias && task.states@[k].bias_acc == bias_acc
                }
        }),
{
    let (task, answer) = choose|task: InertialTask, answer: Option<InertialStats<I>>|
        {
            &&& is_inertial_task(model, bodies, seeds, factors, stage, bias_acc, aligned, task)
            &&& #[trigger] call_ensures(solve, (&task,), answer)
            &&& match answer {
                None => verdict == Err::<MotionBasedViInitializationResult<I>, _>(
                    if any_in_window(factors, model.ids()) {
                        MotionBasedViRejectionReason::SolverFailed
                    } else {
                        MotionBasedViRejectionReason::NoUsableImuFactors
                    },
                ),
                Some(stats) => is_result_verdict(
                    norm,
                    model,
                    stats,
                    gravity_of(aligned),
                    stage.estimated,
                    verdict,
                ),
            }
        };
    let ids = model.ids();
    if any_in_window(factors, ids) {
        let f = choose|f: int|
            0 <= f < factors.len() && ids.contains((#[trigger] factors[f]).keyframe_id_from)
                && ids.contains(factors[f].keyframe_id_to);
        let i = ids.index_of(factors[f].keyframe_id_from);
        let j = ids.index_of(factors[f].keyframe_id_to);
        assert(model.keyframes[i].0 == ids[i] && model.keyframes[j].0 == ids[j]);
    }
    if exists|f: int, i: int, j: int|
        #![trigger factors[f], model.keyframes[i], model.keyframes[j]]
        0 <= f < factors.len() && 0 <= i < model.keyframes.len() && 0 <= j < model.keyframes.len()
            && factors[f].keyframe_id_from == model.keyframes[i].0 && factors[f].keyframe_id_to
            == model.keyframes[j].0 {
        let (f, i, j) = choose|f: int, i: int, j: int|
            #![trigger factors[f], model.keyframes[i], model.keyframes[j]]
            0 <= f < factors.len() && 0 <= i < model.keyframes.len() && 0 <= j
                < model.keyframes.len() && factors[f].keyframe_id_from == model.keyframes[i].0
                && factors[f].keyframe_id_to == model.keyframes[j].0;
        assert(ids[i] == model.keyframes[i].0 && ids[j] == model.keyframes[j].0);
        assert(ids.contains(factors[f].keyframe_id_from));
        assert(ids.contains(factors[f].keyframe_id_to));
    }
    assert(call_ensures(solve, (&task,), answer));
    answer
}

/// An estimated bias is refused exactly where a limit is set and it is longer; the refusal
/// names the first keyframe, the length and the limit.
pub proof fn long_estimated_biases_are_refused(
    limit: Option<Scalar>,
    first_id: u64,
    bias: Point3,
    magnitude: Scalar,
)
    ensures
        ({
            let found = gyro_verdict(limit, first_id, bias, magnitude);
            &&& found is Err <==> (limit matches Some(most) && most.lt(magnitude))
            &&& found matches Ok(stage) ==> stage.bias == bias && stage.estimated == Some(bias)
            &&& found matches Err(reason) ==> reason == (
            MotionBasedViRejectionReason::GyroBiasOutOfRange {
                kf_id: first_id,
                magnitude_rad_s: magnitude,
                limit_rad_s: limit->0,
            })
        }),
{
}

/// Registering a keyframe again moves it and adds no motion; a new one comes last, and adds
/// its distance from the one before it, where there is one.
pub proof fn registering_again_adds_no_motion<D, I>(
    before: MotionModel<I>,
    keyframe_id: u64,
    center: Point3,
    extend: D,
    after: MotionModel<I>,
    k: int,
) where D: Fn(Scalar, &Point3, &Point3) -> Scalar
    requires
        before.wf(),
        is_registration(before, keyframe_id, center, extend, after),
    ensures
        0 <= k < before.keyframes.len() && before.keyframes[k].0 == keyframe_id ==> {
            &&& after.keyframes == before.keyframes.update(k, (keyframe_id, center))
            &&& after.cumulative_translation == before.cumulative_translation
        },
        (forall|j: int|
            0 <= j < before.keyframes.len() ==> (#[trigger] before.keyframes[j]).0 != keyframe_id)
            ==> {
            &&& after.keyframes == before.keyframes.push((keyframe_id, center))
            &&& before.keyframes.len() == 0 ==> after.cumulative_translation
                == before.cumulative_translation
            &&& before.keyframes.len() > 0 ==> call_ensures(
                extend,
                (before.cumulative_translation, &before.keyframes.last().1, &center),
                after.cumulative_translation,
            )
        },
        after.completed == before.completed,
        after.config == before.config,
{
    lemma_place_found(before.keyframes, keyframe_id, 0);
    if 0 <= k < before.keyframes.len() && before.keyframes[k].0 == keyframe_id {
        let j = place_of(before.keyframes, keyframe_id, 0)->0;
        if j < k {
            assert(before.keyframes[j].0 != before.keyframes[k].0);
        } else if k < j {
            assert(before.keyframes[k].0 != before.keyframes[j].0);
        }
    }
}

proof fn lemma_place_found(keyframes: Seq<(u64, Point3)>, id: u64, start: int)
    requires
        0 <= start <= keyframes.len(),
    ensures
        place_of(keyframes, id, start) matches Some(k) ==> start <= k < keyframes.len()
            && keyframes[k].0 == id,
        place_of(keyframes, id, start) is None ==> forall|k: int|
            start <= k < keyframes.len() ==> (#[trigger] keyframes[k]).0 != id,
    decreases keyframes.len() - start,
{
    if start < keyframes.len() {
        lemma_place_found(keyframes, id, start + 1);
    }
}

} // verus!
