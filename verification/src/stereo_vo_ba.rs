//! Bundle adjustment of a stereo visual-odometry trajectory.
//!
//! Feature tracks that pass their gates become landmarks, and a solver refines them
//! together with the poses. The trajectory is refined as a whole or in overlapping windows.
//! The solver and all geometry are the caller's; which problem is solved, in which order,
//! and what is made of the solution is decided here.
use crate::bundle::{BaConfig, BaResult, LinearSolver, RobustKernel};
use crate::feature_tracks::{
    build_forward_tracks, forward_tracks, is_linked, lists, naturals, tracks_follow_matches,
    TemporalMatch,
};
use crate::geometry::{Point3, Pose};
use crate::imu_windows::StereoVoBaImuSample;
use crate::scalar::Scalar;
use crate::sequences::{
    lemma_filter_positions, lemma_filter_take, lemma_take_all, lists_kept,
};
use crate::stereo_imu::{
    entry, entry_or, get_entry, is_imu_plan, is_imu_refinement, plan_imu, read_imu_refinement,
    ImuBias, ImuPlan, StereoVoBaImuInput, StereoVoBaImuRefinement, WindowVelocity,
};
use crate::stereo_landmarks::{
    accepted, all_observations, are_numbered, choose_landmarks, is_landmark_choice, keypoints,
    landmark_models, DltSolution, FeatureSet, LandmarkInit, LandmarkModel, LandmarkNumerics,
    LandmarkSeed, Pixel, PosedView, Scene, StereoFeature, StereoObservation, StereoRig,
    StereoSequence, TrackGates, TrackView, ViewResidual,
};
use crate::text::{decimal, decimal_text};
use vstd::prelude::*;
use vstd::slice::slice_subrange;

verus! {

/// Gravity as every camera should see it.
#[derive(Clone, Copy, Debug, PartialEq, Eq, Structural)]
pub struct GravityPrior {
    pub g_world: Point3,
    pub g_camera_observed: Point3,
    pub weight: Scalar,
}

/// Where the camera of a keyframe should be, with a weight per axis.
#[derive(Clone, Copy, Debug, PartialEq, Eq, Structural)]
pub struct PositionObservation {
    pub keyframe_id: u64,
    pub center: Point3,
    pub weights: Point3,
}

/// Camera positions that are known from elsewhere.
#[derive(Clone, Debug, PartialEq, Eq)]
pub struct PositionPrior {
    pub observations: Vec<PositionObservation>,
}

/// Gravity as the camera of one keyframe sees it.
#[derive(Clone, Copy, Debug, PartialEq, Eq, Structural)]
pub struct PerPoseGravityObservation {
    pub keyframe_id: u64,
    pub g_camera_observed: Point3,
    pub weight: Scalar,
}

/// Gravity as the cameras of some keyframes see it.
#[derive(Clone, Debug, PartialEq, Eq)]
pub struct PerPoseGravityPrior {
    pub g_world: Point3,
    pub weight: Scalar,
    pub observations: Vec<PerPoseGravityObservation>,
}

/// Whether a position is observed in one of the frames from `start` to before `end`.
pub open spec fn position_in_window(start: usize, end: usize) -> spec_fn(
    PositionObservation,
) -> bool {
    |observed: PositionObservation|
        (observed.keyframe_id as usize) >= start && (observed.keyframe_id as usize) < end
}

/// Whether gravity is observed in one of the frames from `start` to before `end`.
pub open spec fn gravity_in_window(start: usize, end: usize) -> spec_fn(
    PerPoseGravityObservation,
) -> bool {
    |observed: PerPoseGravityObservation|
        (observed.keyframe_id as usize) >= start && (observed.keyframe_id as usize) < end
}

/// The positions observed in a window, with ids counted from its start.
pub open spec fn local_positions(
    observations: Seq<PositionObservation>,
    start: usize,
    end: usize,
) -> Seq<PositionObservation> {
    observations.filter(position_in_window(start, end)).map_values(
        |observed: PositionObservation|
            PositionObservation {
                keyframe_id: ((observed.keyframe_id as usize) - start) as u64,
                ..observed
            },
    )
}

/// The gravity observed in a window, with ids counted from its start.
pub open spec fn local_gravity(
    observations: Seq<PerPoseGravityObservation>,
    start: usize,
    end: usize,
) -> Seq<PerPoseGravityObservation> {
    observations.filter(gravity_in_window(start, end)).map_values(
        |observed: PerPoseGravityObservation|
            PerPoseGravityObservation {
                keyframe_id: ((observed.keyframe_id as usize) - start) as u64,
                ..observed
            },
    )
}

/// The part of a prior that concerns a window, with ids counted from its start.
pub fn slice_position_prior_for_window(prior: &PositionPrior, start: usize, end: usize) -> (sliced:
    PositionPrior)
    ensures
        sliced.observations@ == local_positions(prior.observations@, start, end),
{
    let ghost all = prior.observations@;
    let mut observations: Vec<PositionObservation> = Vec::new();
    let mut i: usize = 0;
    assert(observations@ =~= local_positions(all.take(0), start, end)) by {
        reveal(Seq::filter);
    }
    while i < prior.observations.len()
        invariant
            i <= prior.observations.len(),
            all == prior.observations@,
            observations@ == local_positions(all.take(i as int), start, end),
        decreases prior.observations.len() - i,
    {
        let observed = prior.observations[i];
        let frame: usize = observed.keyframe_id as usize;
        let ghost before = observations@;
        proof {
            lemma_filter_take(all, i as int, position_in_window(start, end));
        }
        if frame >= start && frame < end {
            observations.push(
                PositionObservation { keyframe_id: (frame - start) as u64, ..observed },
            );
        }
        assert(observations@ =~= local_positions(all.take(i + 1), start, end));
        i += 1;
    }
    proof {
        lemma_take_all(all);
    }
    PositionPrior { observations }
}

/// The part of a prior that concerns a window, with ids counted from its start.
pub fn slice_per_pose_gravity_prior_for_window(
    prior: &PerPoseGravityPrior,
    start: usize,
    end: usize,
) -> (sliced: PerPoseGravityPrior)
    ensures
        sliced.g_world == prior.g_world,
        sliced.weight == prior.weight,
        sliced.observations@ == local_gravity(prior.observations@, start, end),
{
    let ghost all = prior.observations@;
    let mut observations: Vec<PerPoseGravityObservation> = Vec::new();
    let mut i: usize = 0;
    assert(observations@ =~= local_gravity(all.take(0), start, end)) by {
        reveal(Seq::filter);
    }
    while i < prior.observations.len()
        invariant
            i <= prior.observations.len(),
            all == prior.observations@,
            observations@ == local_gravity(all.take(i as int), start, end),
        decreases prior.observations.len() - i,
    {
        let observed = prior.observations[i];
        let frame: usize = observed.keyframe_id as usize;
        proof {
            lemma_filter_take(all, i as int, gravity_in_window(start, end));
        }
        if frame >= start && frame < end {
            observations.push(
                PerPoseGravityObservation { keyframe_id: (frame - start) as u64, ..observed },
            );
        }
        assert(observations@ =~= local_gravity(all.take(i + 1), start, end));
        i += 1;
    }
    proof {
        lemma_take_all(all);
    }
    PerPoseGravityPrior { g_world: prior.g_world, weight: prior.weight, observations }
}

/// Settings of the refinement.
#[derive(Clone, Debug, PartialEq, Eq)]
pub struct StereoVoBaConfig {
    /// Frames that a track must span, and stereo views that a landmark must have.
    pub min_track_length: usize,
    /// Largest depth at which a landmark may start, in metres.
    pub max_initial_depth_m: Scalar,
    /// Only tracks that start in this upper fraction of the image become landmarks.
    pub max_seed_row_fraction: Option<Scalar>,
    /// Largest stereo residual of any view before the solve, in pixels.
    pub max_init_residual_px: Option<Scalar>,
    /// Least confidence of a temporal match that is chained.
    pub min_temporal_confidence: Option<Scalar>,
    /// Least number of landmarks to solve with.
    pub min_track_count: Option<usize>,
    pub landmark_init: LandmarkInit,
    /// Refine overlapping windows of so many frames instead of the whole trajectory.
    pub window_size: Option<usize>,
    pub gravity_prior: Option<GravityPrior>,
    pub position_prior: Option<PositionPrior>,
    pub per_pose_gravity_prior: Option<PerPoseGravityPrior>,
    pub imu_input: Option<StereoVoBaImuInput>,
    /// Number of leading poses that are held.
    pub fix_pose_prefix: usize,
    pub ba_config: BaConfig,
}

/// The bit pattern of `60.0`.
pub const DEFAULT_DEPTH_BITS: u64 = 0x404E_0000_0000_0000;

/// The bit pattern of `3.0`.
pub const DEFAULT_DELTA_BITS: u64 = 0x4008_0000_0000_0000;

impl Default for StereoVoBaConfig {
    fn default() -> (config: StereoVoBaConfig)
        ensures
            config.min_track_length == 3,
            config.max_initial_depth_m.bits == DEFAULT_DEPTH_BITS,
            config.max_seed_row_fraction is None,
            config.max_init_residual_px is None,
            config.min_temporal_confidence is None,
            config.min_track_count is None,
            config.landmark_init == LandmarkInit::StereoSingleFrame,
            config.window_size is None,
            config.gravity_prior is None,
            config.position_prior is None,
            config.per_pose_gravity_prior is None,
            config.imu_input is None,
            config.fix_pose_prefix == 1,
            config.ba_config == (BaConfig {
                max_iterations: Some(12),
                robust_kernel: Some(
                    RobustKernel::Huber { delta: Scalar { bits: DEFAULT_DELTA_BITS } },
                ),
                linear_solver: Some(LinearSolver::Sparse),
            }),
    {
        StereoVoBaConfig {
            min_track_length: 3,
            max_initial_depth_m: Scalar::from_bits(DEFAULT_DEPTH_BITS),
            max_seed_row_fraction: None,
            max_init_residual_px: None,
            min_temporal_confidence: None,
            min_track_count: None,
            landmark_init: LandmarkInit::StereoSingleFrame,
            window_size: None,
            gravity_prior: None,
            position_prior: None,
            per_pose_gravity_prior: None,
            imu_input: None,
            fix_pose_prefix: 1,
            ba_config: BaConfig {
                max_iterations: Some(12),
                robust_kernel: Some(
                    RobustKernel::Huber { delta: Scalar::from_bits(DEFAULT_DELTA_BITS) },
                ),
                linear_solver: Some(LinearSolver::Sparse),
            },
        }
    }
}

impl StereoVoBaConfig {
    pub open spec fn spec_gates(&self) -> TrackGates {
        TrackGates {
            min_track_length: self.min_track_length,
            max_initial_depth_m: self.max_initial_depth_m,
            max_init_residual_px: self.max_init_residual_px,
            landmark_init: self.landmark_init,
        }
    }

    /// What a track must pass.
    #[verifier::when_used_as_spec(spec_gates)]
    pub fn gates(&self) -> (gates: TrackGates)
        ensures
            gates == self.spec_gates(),
    {
        TrackGates {
            min_track_length: self.min_track_length,
            max_initial_depth_m: self.max_initial_depth_m,
            max_init_residual_px: self.max_init_residual_px,
            landmark_init: self.landmark_init,
        }
    }
}

/// What is wrong with the inertial input.
#[derive(Clone, Copy, Debug, PartialEq, Eq, Structural)]
pub enum ImuInputProblem {
    /// There is not one window between every two consecutive frames.
    WindowCount { windows: usize, expected: usize },
    /// Inertial input is not available for windowed refinement.
    SlidingWindow,
    /// A sample spans no positive, finite time.
    BadDuration { window: usize, sample: usize, dt: Scalar },
}

/// Why a trajectory was not refined; `E` is the solver's own error.
#[derive(Clone, Copy, Debug, PartialEq, Eq)]
pub enum StereoVoBaError<E> {
    /// There are fewer frames than a track must span, or than two.
    TooFewFrames(usize),
    /// The inputs do not have one entry per frame, or per pair of frames.
    InputLengthMismatch,
    /// No track became a landmark.
    NoLongTracks,
    /// Fewer tracks than required became landmarks.
    InsufficientTracks { count: usize, required: usize },
    InvalidImuInput { reason: ImuInputProblem },
    Ba(E),
}

impl<E> StereoVoBaError<E> {
    /// A description for people; `shown` is the solver's error or the bad time step as text.
    pub fn message(&self, shown: &str) -> (text: String)
        ensures
            text@ == "stereo VO BA: "@ + (match *self {
                StereoVoBaError::TooFewFrames(n) => "only "@ + decimal(n as nat)
                    + " frames, need at least min_track_length"@,
                StereoVoBaError::InputLengthMismatch =>
                    "per-frame input slices have inconsistent lengths"@,
                StereoVoBaError::NoLongTracks =>
                    "no tracks of sufficient length built from temporal matches"@,
                StereoVoBaError::InsufficientTracks { count, required } => "only "@ + decimal(
                    count as nat,
                ) + " tracks survived filters, below min_track_count="@ + decimal(required as nat),
                StereoVoBaError::InvalidImuInput { reason } => "invalid imu_input — "@ + (
                match reason {
                    ImuInputProblem::WindowCount { windows, expected } =>
                        "imu_input.windows.len()="@ + decimal(windows as nat)
                        + " must equal initial_poses.len()-1="@ + decimal(expected as nat),
                    ImuInputProblem::SlidingWindow =>
                        "sliding-window BA (`window_size`) is not yet wired through the IMU factor stack"@,
                    ImuInputProblem::BadDuration { window, sample, dt } => "window["@ + decimal(
                        window as nat,
                    ) + "] sample["@ + decimal(sample as nat) + "] has non-positive dt="@ + shown@,
                }),
                StereoVoBaError::Ba(error) => shown@,
            }),
    {
        let tail = match self {
            StereoVoBaError::TooFewFrames(n) => String::from_str("only ").concat(
                decimal_text(*n as u128).as_str(),
            ).concat(" frames, need at least min_track_length"),
            StereoVoBaError::InputLengthMismatch => String::from_str(
                "per-frame input slices have inconsistent lengths",
            ),
            StereoVoBaError::NoLongTracks => String::from_str(
                "no tracks of sufficient length built from temporal matches",
            ),
            StereoVoBaError::InsufficientTracks { count, required } => String::from_str(
                "only ",
            ).concat(decimal_text(*count as u128).as_str()).concat(
                " tracks survived filters, below min_track_count=",
            ).concat(decimal_text(*required as u128).as_str()),
            StereoVoBaError::InvalidImuInput { reason } => {
                let why = match reason {
                    ImuInputProblem::WindowCount { windows, expected } => String::from_str(
                        "imu_input.windows.len()=",
                    ).concat(decimal_text(*windows as u128).as_str()).concat(
                        " must equal initial_poses.len()-1=",
                    ).concat(decimal_text(*expected as u128).as_str()),
                    ImuInputProblem::SlidingWindow => String::from_str(
                        "sliding-window BA (`window_size`) is not yet wired through the IMU factor stack",
                    ),
                    ImuInputProblem::BadDuration { window, sample, dt } => String::from_str(
                        "window[",
                    ).concat(decimal_text(*window as u128).as_str()).concat("] sample[").concat(
                        decimal_text(*sample as u128).as_str(),
                    ).concat("] has non-positive dt=").concat(shown),
                };
                String::from_str("invalid imu_input — ").concat(why.as_str())
            },
            StereoVoBaError::Ba(error) => String::from_str(shown),
        };
        String::from_str("stereo VO BA: ").concat(tail.as_str())
    }
}

/// A refined trajectory; `I` is what the solver records of one iteration.
#[derive(Clone, Debug, PartialEq, Eq)]
pub struct StereoVoBaRefinement<I> {
    pub refined_poses: Vec<Pose>,
    pub ba_result: BaResult<I>,
    /// Landmarks solved with; over several windows their sum.
    pub track_count: u128,
    /// Stereo measurements solved with; over several windows their sum.
    pub observation_count: u128,
    pub imu_refinement: Option<StereoVoBaImuRefinement>,
}

/// One point of a sparse reconstruction, with every left view of it.
#[derive(Clone, Debug, PartialEq, Eq)]
pub struct ReconstructedLandmark {
    pub position: Point3,
    pub observations: Vec<(usize, usize, Pixel)>,
}

/// A sparse reconstruction: refined poses and the points that several frames see.
#[derive(Clone, Debug, PartialEq, Eq)]
pub struct StereoVoReconstruction<I> {
    pub refined_poses: Vec<Pose>,
    pub landmarks: Vec<ReconstructedLandmark>,
    pub ba_result: BaResult<I>,
    pub observation_count: usize,
    /// Mean left reprojection error before the solve, in pixels.
    pub mean_reproj_before_px: Scalar,
    /// Mean left reprojection error after the solve, in pixels.
    pub mean_reproj_after_px: Scalar,
}

/// Inertial input and what it adds to the problem.
pub struct ImuProblem<'a> {
    pub input: &'a StereoVoBaImuInput,
    pub plan: &'a ImuPlan,
}

/// The problem handed to the solver: poses by frame, of which a prefix is held, landmarks
/// by id, and what constrains them.
pub struct StereoBaProblem<'a> {
    pub rig: &'a StereoRig,
    pub poses: &'a Vec<Pose>,
    pub fixed_prefix: usize,
    pub landmarks: &'a Vec<LandmarkSeed>,
    pub observations: &'a Vec<StereoObservation>,
    pub gravity_prior: Option<GravityPrior>,
    pub position_prior: Option<&'a PositionPrior>,
    pub per_pose_gravity_prior: Option<&'a PerPoseGravityPrior>,
    pub imu: Option<ImuProblem<'a>>,
    pub ba_config: BaConfig,
}

/// What the solver found: poses, velocities and biases by frame, landmarks by id.
#[derive(Clone, Debug, PartialEq, Eq)]
pub struct BaSolution<I> {
    pub poses: Vec<Option<Pose>>,
    pub landmarks: Vec<Option<Point3>>,
    pub velocities: Vec<Option<Point3>>,
    pub biases: Vec<Option<ImuBias>>,
    pub result: BaResult<I>,
}

/// The computations that refinement needs.
pub struct BaNumerics<L, W, T, D, R, V, S, P> {
    pub landmarks: LandmarkNumerics<L, W, T, D, R>,
    /// The displacement of a window of samples per unit of time.
    pub velocity: V,
    /// The solver.
    pub solve: S,
    /// The sum of two numbers.
    pub plus: P,
}

/// Gravity seen by some keyframes, in the contracts.
#[verifier::ext_equal]
pub struct GravityModel {
    pub g_world: Point3,
    pub weight: Scalar,
    pub observations: Seq<PerPoseGravityObservation>,
}

/// What constrains a problem besides its landmarks, in the contracts.
#[verifier::ext_equal]
pub struct Constraints {
    pub fix_pose_prefix: usize,
    pub gravity: Option<GravityPrior>,
    pub positions: Option<Seq<PositionObservation>>,
    pub per_pose_gravity: Option<GravityModel>,
    pub imu: Option<StereoVoBaImuInput>,
}

pub open spec fn position_model(prior: Option<PositionPrior>) -> Option<Seq<PositionObservation>> {
    match prior {
        Some(known) => Some(known.observations@),
        None => None,
    }
}

pub open spec fn gravity_model(prior: Option<PerPoseGravityPrior>) -> Option<GravityModel> {
    match prior {
        Some(known) => Some(
            GravityModel {
                g_world: known.g_world,
                weight: known.weight,
                observations: known.observations@,
            },
        ),
        None => None,
    }
}

pub open spec fn referred<T>(reference: Option<&T>) -> Option<T> {
    match reference {
        Some(value) => Some(*value),
        None => None,
    }
}

/// The constraints that the settings ask for.
pub open spec fn full_constraints(config: StereoVoBaConfig) -> Constraints {
    Constraints {
        fix_pose_prefix: config.fix_pose_prefix,
        gravity: config.gravity_prior,
        positions: position_model(config.position_prior),
        per_pose_gravity: gravity_model(config.per_pose_gravity_prior),
        imu: config.imu_input,
    }
}

/// The constraints in the window from `start` to before `end`.
pub open spec fn window_constraints(
    config: StereoVoBaConfig,
    start: usize,
    end: usize,
) -> Constraints {
    let full = full_constraints(config);
    Constraints {
        positions: match full.positions {
            Some(observed) => Some(local_positions(observed, start, end)),
            None => None,
        },
        per_pose_gravity: match full.per_pose_gravity {
            Some(prior) => Some(
                GravityModel {
                    observations: local_gravity(prior.observations, start, end),
                    ..prior
                },
            ),
            None => None,
        },
        imu: None,
        ..full
    }
}

/// Only the first pose is held.
pub open spec fn visual_constraints() -> Constraints {
    Constraints {
        fix_pose_prefix: 1,
        gravity: None,
        positions: None,
        per_pose_gravity: None,
        imu: None,
    }
}

/// The number of poses held: at least one, and fewer than all where there are several.
pub open spec fn held_poses(prefix: usize, frames: int) -> int {
    let most: int = if frames > 1 {
        frames - 1
    } else {
        1
    };
    if prefix < 1 {
        1
    } else if prefix > most {
        most
    } else {
        prefix as int
    }
}

/// The problem is made of the scene, the landmarks, and the constraints.
pub open spec fn is_problem<V>(
    velocity: V,
    scene: Scene,
    ba_config: BaConfig,
    constraints: Constraints,
    landmarks: Seq<LandmarkModel>,
    problem: StereoBaProblem,
) -> bool where V: Fn(&Pose, &Pose, &Vec<StereoVoBaImuSample>) -> WindowVelocity {
    &&& problem.rig == scene.rig
    &&& problem.poses@ == scene.poses
    &&& problem.fixed_prefix == held_poses(constraints.fix_pose_prefix, scene.poses.len() as int)
    &&& landmark_models(problem.landmarks@) == landmarks
    &&& are_numbered(problem.landmarks@)
    &&& problem.observations@ == all_observations(landmarks)
    &&& problem.gravity_prior == constraints.gravity
    &&& position_model(referred(problem.position_prior)) == constraints.positions
    &&& gravity_model(referred(problem.per_pose_gravity_prior)) == constraints.per_pose_gravity
    &&& match constraints.imu {
        None => problem.imu is None,
        Some(input) => problem.imu matches Some(imu) && *imu.input == input && is_imu_plan(
            velocity,
            input,
            scene.poses,
            *imu.plan,
        ),
    }
    &&& problem.ba_config == ba_config
}

/// The tracks of a scene.
pub open spec fn scene_tracks(scene: Scene, config: StereoVoBaConfig) -> Seq<
    Seq<(usize, usize)>,
> {
    forward_tracks(
        scene.temporal,
        config.min_temporal_confidence,
        scene.counts(),
        config.min_track_length,
    )
}

impl<L, W, T, D, R, V, S, P> BaNumerics<L, W, T, D, R, V, S, P> where
    L: Fn(&StereoRig, Scalar) -> Scalar,
    W: Fn(&Pose, &Point3) -> Point3,
    T: Fn(&StereoRig, &Vec<PosedView>) -> Option<DltSolution>,
    D: Fn(&Pose, &Point3) -> Scalar,
    R: Fn(&StereoRig, &PosedView, &Point3) -> ViewResidual,
    V: Fn(&Pose, &Pose, &Vec<StereoVoBaImuSample>) -> WindowVelocity,
    P: Fn(Scalar, Scalar) -> Scalar,
 {
    /// Every computation besides the solver can be asked for.
    pub open spec fn callable(self) -> bool {
        &&& self.landmarks.callable()
        &&& forall|from: Pose, to: Pose, samples: Vec<StereoVoBaImuSample>|
            call_requires(self.velocity, (&from, &to, &samples))
        &&& forall|a: Scalar, b: Scalar| call_requires(self.plus, (a, b))
    }

    /// The landmarks are those that the tracks of the scene give.
    pub open spec fn is_choice(
        self,
        scene: Scene,
        config: StereoVoBaConfig,
        landmarks: Seq<LandmarkModel>,
    ) -> bool {
        is_landmark_choice(
            self.landmarks,
            scene,
            config.gates(),
            config.max_seed_row_fraction,
            scene_tracks(scene, config),
            landmarks,
        )
    }
}

/// The solver can be asked for every problem.
pub open spec fn is_solver<S, I, E>(solve: S) -> bool where
    S: Fn(&StereoBaProblem) -> Result<BaSolution<I>, E>,
 {
    forall|problem: StereoBaProblem| call_requires(solve, (&problem,))
}

/// Why the landmarks do not suffice, if they do not.
pub open spec fn too_few<E>(landmarks: nat, required: Option<usize>) -> Option<StereoVoBaError<E>> {
    if landmarks == 0 {
        Some(StereoVoBaError::NoLongTracks)
    } else {
        match required {
            Some(least) => if landmarks < least {
                Some(
                    StereoVoBaError::InsufficientTracks {
                        count: landmarks as usize,
                        required: least,
                    },
                )
            } else {
                None
            },
            None => None,
        }
    }
}

/// `outcome` is what solving a scene gives: the landmarks that were solved with and the
/// solution, or the error. Without tracks, or with too few landmarks, nothing is solved.
pub open spec fn is_solved<L, W, T, D, R, V, S, P, I, E>(
    numerics: BaNumerics<L, W, T, D, R, V, S, P>,
    scene: Scene,
    config: StereoVoBaConfig,
    constraints: Constraints,
    outcome: Result<(Seq<LandmarkModel>, BaSolution<I>), StereoVoBaError<E>>,
) -> bool where
    L: Fn(&StereoRig, Scalar) -> Scalar,
    W: Fn(&Pose, &Point3) -> Point3,
    T: Fn(&StereoRig, &Vec<PosedView>) -> Option<DltSolution>,
    D: Fn(&Pose, &Point3) -> Scalar,
    R: Fn(&StereoRig, &PosedView, &Point3) -> ViewResidual,
    V: Fn(&Pose, &Pose, &Vec<StereoVoBaImuSample>) -> WindowVelocity,
    S: Fn(&StereoBaProblem) -> Result<BaSolution<I>, E>,
    P: Fn(Scalar, Scalar) -> Scalar,
 {
    exists|landmarks: Seq<LandmarkModel>| #[trigger]
        numerics.is_choice(scene, config, landmarks) && (match too_few::<E>(
            landmarks.len(),
            config.min_track_count,
        ) {
            Some(error) => outcome == Err::<(Seq<LandmarkModel>, BaSolution<I>), _>(error),
            None => exists|problem: StereoBaProblem, answer: Result<BaSolution<I>, E>|
                is_problem(
                    numerics.velocity,
                    scene,
                    config.ba_config,
                    constraints,
                    landmarks,
                    problem,
                ) && #[trigger] call_ensures(numerics.solve, (&problem,), answer) && outcome == (
                match answer {
                    Ok(solution) => Ok::<_, StereoVoBaError<E>>((landmarks, solution)),
                    Err(error) => Err::<(Seq<LandmarkModel>, BaSolution<I>), _>(
                        StereoVoBaError::Ba(error),
                    ),
                }),
        })
}

/// The poses as solved. The held ones stay as they were, and so does one that the solver
/// does not report.
pub open spec fn refined(held: int, initial: Seq<Pose>, solved: Seq<Option<Pose>>) -> Seq<Pose> {
    Seq::new(
        initial.len(),
        |i: int|
            if i < held {
                initial[i]
            } else {
                entry_or(solved, i, initial[i])
            },
    )
}

/// The refinement that a solution amounts to.
pub open spec fn is_packed<I>(
    scene: Scene,
    held: int,
    imu: Option<StereoVoBaImuInput>,
    landmarks: Seq<LandmarkModel>,
    solution: BaSolution<I>,
    refinement: StereoVoBaRefinement<I>,
) -> bool {
    &&& refinement.refined_poses@ == refined(held, scene.poses, solution.poses@)
    &&& refinement.ba_result == solution.result
    &&& refinement.track_count == landmarks.len()
    &&& refinement.observation_count == all_observations(landmarks).len()
    &&& match imu {
        None => refinement.imu_refinement is None,
        Some(input) => refinement.imu_refinement matches Some(read) && is_imu_refinement(
            input,
            scene.poses.len(),
            solution.velocities@,
            solution.biases@,
            read,
        ),
    }
}

/// `result` is the refinement of a scene in one solve.
pub open spec fn is_refinement<L, W, T, D, R, V, S, P, I, E>(
    numerics: BaNumerics<L, W, T, D, R, V, S, P>,
    scene: Scene,
    config: StereoVoBaConfig,
    constraints: Constraints,
    result: Result<StereoVoBaRefinement<I>, StereoVoBaError<E>>,
) -> bool where
    L: Fn(&StereoRig, Scalar) -> Scalar,
    W: Fn(&Pose, &Point3) -> Point3,
    T: Fn(&StereoRig, &Vec<PosedView>) -> Option<DltSolution>,
    D: Fn(&Pose, &Point3) -> Scalar,
    R: Fn(&StereoRig, &PosedView, &Point3) -> ViewResidual,
    V: Fn(&Pose, &Pose, &Vec<StereoVoBaImuSample>) -> WindowVelocity,
    S: Fn(&StereoBaProblem) -> Result<BaSolution<I>, E>,
    P: Fn(Scalar, Scalar) -> Scalar,
 {
    exists|outcome: Result<(Seq<LandmarkModel>, BaSolution<I>), StereoVoBaError<E>>| #[trigger]
        is_solved(numerics, scene, config, constraints, outcome) && (match outcome {
            Ok((landmarks, solution)) => result matches Ok(refinement) && is_packed(
                scene,
                held_poses(constraints.fix_pose_prefix, scene.poses.len() as int),
                constraints.imu,
                landmarks,
                solution,
                refinement,
            ),
            Err(error) => result == Err::<StereoVoBaRefinement<I>, _>(error),
        })
}

/// What was solved with, and the solution.
pub struct Solved<I> {
    pub landmarks: Vec<LandmarkSeed>,
    pub observations: Vec<StereoObservation>,
    pub solution: BaSolution<I>,
}

pub open spec fn solved_model<I, E>(
    outcome: Result<Solved<I>, StereoVoBaError<E>>,
) -> Result<(Seq<LandmarkModel>, BaSolution<I>), StereoVoBaError<E>> {
    match outcome {
        Ok(solved) => Ok((landmark_models(solved.landmarks@), solved.solution)),
        Err(error) => Err(error),
    }
}

fn count_keypoints(left: &[FeatureSet]) -> (counts: Vec<usize>)
    ensures
        naturals(counts@) == keypoints(left@).map_values(|pixels: Seq<Pixel>| pixels.len()),
        counts.len() == left@.len(),
{
    let mut counts: Vec<usize> = Vec::new();
    let mut f: usize = 0;
    while f < left.len()
        invariant
            f <= left@.len(),
            counts.len() == f,
            forall|k: int| 0 <= k < f ==> #[trigger] counts[k] == left@[k].keypoints@.len(),
        decreases left@.len() - f,
    {
        counts.push(left[f].keypoints.len());
        f += 1;
    }
    assert(naturals(counts@) =~= keypoints(left@).map_values(|pixels: Seq<Pixel>| pixels.len()));
    counts
}

/// The constraints of a problem by reference.
struct GivenConstraints<'a> {
    fix_pose_prefix: usize,
    gravity: Option<GravityPrior>,
    positions: Option<&'a PositionPrior>,
    per_pose_gravity: Option<&'a PerPoseGravityPrior>,
    imu: Option<&'a StereoVoBaImuInput>,
}

impl<'a> GivenConstraints<'a> {
    spec fn model(self) -> Constraints {
        Constraints {
            fix_pose_prefix: self.fix_pose_prefix,
            gravity: self.gravity,
            positions: position_model(referred(self.positions)),
            per_pose_gravity: gravity_model(referred(self.per_pose_gravity)),
            imu: referred(self.imu),
        }
    }
}

fn clamp_prefix(prefix: usize, frames: usize) -> (held: usize)
    ensures
        held == held_poses(prefix, frames as int),
{
    let most: usize = if frames > 1 {
        frames - 1
    } else {
        1
    };
    if prefix < 1 {
        1
    } else if prefix > most {
        most
    } else {
        prefix
    }
}

/// Chooses landmarks, poses the problem, and solves it.
fn solve_sequence<L, W, T, D, R, V, S, P, I, E>(
    sequence: &StereoSequence,
    config: &StereoVoBaConfig,
    constraints: &GivenConstraints,
    numerics: &BaNumerics<L, W, T, D, R, V, S, P>,
) -> (outcome: Result<Solved<I>, StereoVoBaError<E>>) where
    L: Fn(&StereoRig, Scalar) -> Scalar,
    W: Fn(&Pose, &Point3) -> Point3,
    T: Fn(&StereoRig, &Vec<PosedView>) -> Option<DltSolution>,
    D: Fn(&Pose, &Point3) -> Scalar,
    R: Fn(&StereoRig, &PosedView, &Point3) -> ViewResidual,
    V: Fn(&Pose, &Pose, &Vec<StereoVoBaImuSample>) -> WindowVelocity,
    S: Fn(&StereoBaProblem) -> Result<BaSolution<I>, E>,
    P: Fn(Scalar, Scalar) -> Scalar,

    requires
        sequence@.is_complete(),
        constraints.imu matches Some(input) ==> input.windows.len() + 1 == sequence.poses.len(),
        numerics.callable(),
        is_solver(numerics.solve),
    ensures
        is_solved(*numerics, sequence@, *config, constraints.model(), solved_model(outcome)),
        outcome matches Ok(solved) ==> are_numbered(solved.landmarks@)
            && solved.observations@ == all_observations(landmark_models(solved.landmarks@)),
{
    let ghost scene = sequence@;
    let counts = count_keypoints(sequence.left);
    let tracks = build_forward_tracks(
        &counts,
        sequence.temporal,
        config.min_temporal_confidence,
        config.min_track_length,
    );
    let gates = config.gates();
    proof {
        let all = scene_tracks(scene, *config);
        assert(naturals(counts@) == scene.counts());
        assert(lists(tracks@) == all);
        assert forall|t: int| 0 <= t < tracks.len() implies (#[trigger] tracks[t]).len() > 0
            && crate::feature_tracks::is_within(tracks[t]@, sequence.poses@.len()) by {
            assert forall|f: int| 0 <= f < scene.counts().len() implies #[trigger] scene.counts()[f]
                <= usize::MAX by {
                assert(scene.counts()[f] == counts@[f] as nat) by {
                    assert(naturals(counts@)[f] == counts@[f] as nat);
                }
            }
            tracks_follow_matches(
                scene.temporal,
                config.min_temporal_confidence,
                scene.counts(),
                config.min_track_length,
                t,
            );
            assert(all[t] == tracks[t]@);
        }
    }
    let (landmarks, observations) = choose_landmarks(
        sequence,
        &gates,
        config.max_seed_row_fraction,
        &tracks,
        &numerics.landmarks,
    );
    let ghost models = landmark_models(landmarks@);
    assert(numerics.is_choice(scene, *config, models));
    if landmarks.len() == 0 {
        return Err(StereoVoBaError::NoLongTracks);
    }
    if let Some(required) = config.min_track_count {
        if landmarks.len() < required {
            return Err(StereoVoBaError::InsufficientTracks { count: landmarks.len(), required });
        }
    }
    let plan: Option<ImuPlan> = match constraints.imu {
        Some(input) => Some(plan_imu(input, sequence.poses, &numerics.velocity)),
        None => None,
    };
    let imu: Option<ImuProblem> = match constraints.imu {
        Some(input) => match &plan {
            Some(made) => Some(ImuProblem { input, plan: made }),
            None => None,
        },
        None => None,
    };
    let answer = {
        let problem = StereoBaProblem {
            rig: sequence.rig,
            poses: sequence.poses,
            fixed_prefix: clamp_prefix(constraints.fix_pose_prefix, sequence.poses.len()),
            landmarks: &landmarks,
            observations: &observations,
            gravity_prior: constraints.gravity,
            position_prior: constraints.positions,
            per_pose_gravity_prior: constraints.per_pose_gravity,
            imu,
            ba_config: config.ba_config,
        };
        let answer = (numerics.solve)(&problem);
        assert(is_problem(
            numerics.velocity,
            scene,
            config.ba_config,
            constraints.model(),
            models,
            problem,
        ));
        assert(call_ensures(numerics.solve, (&problem,), answer));
        answer
    };
    match answer {
        Ok(solution) => Ok(Solved { landmarks, observations, solution }),
        Err(error) => Err(StereoVoBaError::Ba(error)),
    }
}

fn read_poses(held: usize, initial: &Vec<Pose>, solved: &Vec<Option<Pose>>) -> (poses: Vec<Pose>)
    ensures
        poses@ == refined(held as int, initial@, solved@),
{
    let mut poses: Vec<Pose> = Vec::new();
    let mut i: usize = 0;
    while i < initial.len()
        invariant
            i <= initial.len(),
            poses@ == refined(held as int, initial@, solved@).take(i as int),
        decreases initial.len() - i,
    {
        let pose = if i < held {
            initial[i]
        } else {
            match get_entry(solved, i) {
                Some(value) => value,
                None => initial[i],
            }
        };
        poses.push(pose);
        assert(poses@ =~= refined(held as int, initial@, solved@).take(i + 1));
        i += 1;
    }
    assert(refined(held as int, initial@, solved@).take(initial.len() as int) =~= refined(
        held as int,
        initial@,
        solved@,
    ));
    poses
}

/// Refines a sequence in one solve.
fn refine_sequence<L, W, T, D, R, V, S, P, I, E>(
    sequence: &StereoSequence,
    config: &StereoVoBaConfig,
    constraints: &GivenConstraints,
    numerics: &BaNumerics<L, W, T, D, R, V, S, P>,
) -> (result: Result<StereoVoBaRefinement<I>, StereoVoBaError<E>>) where
    L: Fn(&StereoRig, Scalar) -> Scalar,
    W: Fn(&Pose, &Point3) -> Point3,
    T: Fn(&StereoRig, &Vec<PosedView>) -> Option<DltSolution>,
    D: Fn(&Pose, &Point3) -> Scalar,
    R: Fn(&StereoRig, &PosedView, &Point3) -> ViewResidual,
    V: Fn(&Pose, &Pose, &Vec<StereoVoBaImuSample>) -> WindowVelocity,
    S: Fn(&StereoBaProblem) -> Result<BaSolution<I>, E>,
    P: Fn(Scalar, Scalar) -> Scalar,

    requires
        sequence@.is_complete(),
        constraints.imu matches Some(input) ==> input.windows.len() + 1 == sequence.poses.len(),
        numerics.callable(),
        is_solver(numerics.solve),
    ensures
        is_refinement(*numerics, sequence@, *config, constraints.model(), result),
        result matches Ok(refinement) ==> {
            &&& refinement.refined_poses@.len() == sequence.poses@.len()
            &&& refinement.track_count <= usize::MAX
            &&& refinement.observation_count <= usize::MAX
        },
{
    let outcome = solve_sequence(sequence, config, constraints, numerics);
    let ghost model = solved_model(outcome);
    assert(is_solved(*numerics, sequence@, *config, constraints.model(), model));
    match outcome {
        Err(error) => Err(error),
        Ok(solved) => {
            let held: usize = clamp_prefix(constraints.fix_pose_prefix, sequence.poses.len());
            let refined_poses = read_poses(held, sequence.poses, &solved.solution.poses);
            let imu_refinement = match constraints.imu {
                Some(input) => Some(
                    read_imu_refinement(
                        input,
                        sequence.poses.len(),
                        &solved.solution.velocities,
                        &solved.solution.biases,
                    ),
                ),
                None => None,
            };
            Ok(
                StereoVoBaRefinement {
                    refined_poses,
                    ba_result: solved.solution.result,
                    track_count: solved.landmarks.len() as u128,
                    observation_count: solved.observations.len() as u128,
                    imu_refinement,
                },
            )
        },
    }
}

/// Where a window that starts at `start` ends: `size` frames on, or with the last frame.
pub open spec fn window_end(start: int, size: int, frames: int) -> int {
    if start + size <= frames {
        start + size
    } else {
        frames
    }
}

/// One window of a windowed refinement: the poses before it, what refining it gave, unless
/// it was too short, and the costs summed over it and all windows before.
pub struct WindowRun<I, E> {
    pub start: int,
    pub end: int,
    pub before: Seq<Pose>,
    pub outcome: Option<Result<StereoVoBaRefinement<I>, StereoVoBaError<E>>>,
    pub initial_cost: Scalar,
    pub final_cost: Scalar,
}

/// `poses` with those from `start` on replaced.
pub open spec fn overwritten(poses: Seq<Pose>, start: int, replaced: Seq<Pose>) -> Seq<Pose> {
    Seq::new(
        poses.len(),
        |i: int|
            if start <= i < start + replaced.len() {
                replaced[i - start]
            } else {
                poses[i]
            },
    )
}

impl<I, E> WindowRun<I, E> {
    /// The window's refinement, if it has one.
    pub open spec fn success(self) -> Option<StereoVoBaRefinement<I>> {
        match self.outcome {
            Some(Ok(refinement)) => Some(refinement),
            _ => None,
        }
    }

    /// The error that ends the whole refinement: any but a lack of tracks.
    pub open spec fn failure(self) -> Option<StereoVoBaError<E>> {
        match self.outcome {
            Some(Err(error)) => match error {
                StereoVoBaError::InsufficientTracks { count, required } => None,
                StereoVoBaError::NoLongTracks => None,
                _ => Some(error),
            },
            _ => None,
        }
    }

    /// The poses after the window.
    pub open spec fn after(self) -> Seq<Pose> {
        match self.success() {
            Some(refinement) => overwritten(
                self.before,
                self.start,
                refinement.refined_poses@,
            ),
            None => self.before,
        }
    }
}

/// The frames of a scene from `start` to before `end`, with the given poses.
pub open spec fn cut(scene: Scene, poses: Seq<Pose>, start: int, end: int) -> Scene {
    Scene {
        rig: scene.rig,
        poses: poses.subrange(start, end),
        left: scene.left.subrange(start, end),
        right: scene.right.subrange(start, end),
        stereo: scene.stereo.subrange(start, end),
        temporal: scene.temporal.subrange(start, end - 1),
    }
}

/// `run` is a window of the refinement; `initial_cost` and `final_cost` are the sums over
/// the windows before it.
#[verifier::opaque]
pub open spec fn is_run<L, W, T, D, R, V, S, P, I, E>(
    numerics: BaNumerics<L, W, T, D, R, V, S, P>,
    scene: Scene,
    config: StereoVoBaConfig,
    size: int,
    initial_cost: Scalar,
    final_cost: Scalar,
    run: WindowRun<I, E>,
) -> bool where
    L: Fn(&StereoRig, Scalar) -> Scalar,
    W: Fn(&Pose, &Point3) -> Point3,
    T: Fn(&StereoRig, &Vec<PosedView>) -> Option<DltSolution>,
    D: Fn(&Pose, &Point3) -> Scalar,
    R: Fn(&StereoRig, &PosedView, &Point3) -> ViewResidual,
    V: Fn(&Pose, &Pose, &Vec<StereoVoBaImuSample>) -> WindowVelocity,
    S: Fn(&StereoBaProblem) -> Result<BaSolution<I>, E>,
    P: Fn(Scalar, Scalar) -> Scalar,
 {
    &&& run.end == window_end(run.start, size, scene.poses.len() as int)
    &&& if run.end - run.start < config.min_track_length {
        run.outcome is None
    } else {
        run.outcome matches Some(result) && is_refinement(
            numerics,
            cut(scene, run.before, run.start, run.end),
            config,
            window_constraints(config, run.start as usize, run.end as usize),
            result,
        )
    }
    &&& match run.success() {
        Some(refinement) => {
            &&& call_ensures(
                numerics.plus,
                (initial_cost, refinement.ba_result.initial_cost),
                run.initial_cost,
            )
            &&& call_ensures(
                numerics.plus,
                (final_cost, refinement.ba_result.final_cost),
                run.final_cost,
            )
        },
        None => run.initial_cost == initial_cost && run.final_cost == final_cost,
    }
}

/// The windows of a refinement so far: they start with the first frame, each begins with
/// the last frame of the one before and takes over its poses, and none but possibly the
/// last ended the refinement or reached the last frame.
pub open spec fn are_runs<L, W, T, D, R, V, S, P, I, E>(
    numerics: BaNumerics<L, W, T, D, R, V, S, P>,
    scene: Scene,
    config: StereoVoBaConfig,
    size: int,
    runs: Seq<WindowRun<I, E>>,
) -> bool where
    L: Fn(&StereoRig, Scalar) -> Scalar,
    W: Fn(&Pose, &Point3) -> Point3,
    T: Fn(&StereoRig, &Vec<PosedView>) -> Option<DltSolution>,
    D: Fn(&Pose, &Point3) -> Scalar,
    R: Fn(&StereoRig, &PosedView, &Point3) -> ViewResidual,
    V: Fn(&Pose, &Pose, &Vec<StereoVoBaImuSample>) -> WindowVelocity,
    S: Fn(&StereoBaProblem) -> Result<BaSolution<I>, E>,
    P: Fn(Scalar, Scalar) -> Scalar,
 {
    forall|k: int|
        0 <= k < runs.len() ==> follows(
            numerics,
            scene,
            config,
            size,
            runs.take(k),
            #[trigger] runs[k],
        )
}

/// `run` is the window after `earlier`.
pub open spec fn follows<L, W, T, D, R, V, S, P, I, E>(
    numerics: BaNumerics<L, W, T, D, R, V, S, P>,
    scene: Scene,
    config: StereoVoBaConfig,
    size: int,
    earlier: Seq<WindowRun<I, E>>,
    run: WindowRun<I, E>,
) -> bool where
    L: Fn(&StereoRig, Scalar) -> Scalar,
    W: Fn(&Pose, &Point3) -> Point3,
    T: Fn(&StereoRig, &Vec<PosedView>) -> Option<DltSolution>,
    D: Fn(&Pose, &Point3) -> Scalar,
    R: Fn(&StereoRig, &PosedView, &Point3) -> ViewResidual,
    V: Fn(&Pose, &Pose, &Vec<StereoVoBaImuSample>) -> WindowVelocity,
    S: Fn(&StereoBaProblem) -> Result<BaSolution<I>, E>,
    P: Fn(Scalar, Scalar) -> Scalar,
 {
    if earlier.len() == 0 {
        &&& run.start == 0
        &&& run.before == scene.poses
        &&& is_run(numerics, scene, config, size, Scalar::zero(), Scalar::zero(), run)
    } else {
        let last = earlier.last();
        &&& last.failure() is None
        &&& last.end < scene.poses.len()
        &&& run.start == last.end - 1
        &&& run.before == last.after()
        &&& is_run(numerics, scene, config, size, last.initial_cost, last.final_cost, run)
    }
}

/// Landmarks solved with, over all windows.
pub open spec fn total_tracks<I, E>(runs: Seq<WindowRun<I, E>>) -> int
    decreases runs.len(),
{
    if runs.len() == 0 {
        0
    } else {
        total_tracks(runs.drop_last()) + match runs.last().success() {
            Some(refinement) => refinement.track_count as int,
            None => 0,
        }
    }
}

/// Measurements solved with, over all windows.
pub open spec fn total_observations<I, E>(runs: Seq<WindowRun<I, E>>) -> int
    decreases runs.len(),
{
    if runs.len() == 0 {
        0
    } else {
        total_observations(runs.drop_last()) + match runs.last().success() {
            Some(refinement) => refinement.observation_count as int,
            None => 0,
        }
    }
}

/// The iterations of all windows, in order.
pub open spec fn all_iterations<I, E>(runs: Seq<WindowRun<I, E>>) -> Seq<I>
    decreases runs.len(),
{
    if runs.len() == 0 {
        Seq::empty()
    } else {
        match runs.last().success() {
            Some(refinement) => all_iterations(runs.drop_last()) + refinement.ba_result.iterations@,
            None => all_iterations(runs.drop_last()),
        }
    }
}

/// Whether every window that was solved converged.
pub open spec fn all_converged<I, E>(runs: Seq<WindowRun<I, E>>) -> bool
    decreases runs.len(),
{
    if runs.len() == 0 {
        true
    } else {
        all_converged(runs.drop_last()) && match runs.last().success() {
            Some(refinement) => refinement.ba_result.converged,
            None => true,
        }
    }
}

/// What a windowed refinement gives once it has ended.
pub open spec fn is_windowed_verdict<I, E>(
    frames: int,
    runs: Seq<WindowRun<I, E>>,
    result: Result<StereoVoBaRefinement<I>, StereoVoBaError<E>>,
) -> bool {
    &&& runs.len() > 0
    &&& match runs.last().failure() {
        Some(error) => result == Err::<StereoVoBaRefinement<I>, _>(error),
        None => {
            &&& runs.last().end == frames
            &&& if total_tracks(runs) == 0 {
                result == Err::<StereoVoBaRefinement<I>, _>(StereoVoBaError::<E>::NoLongTracks)
            } else {
                &&& result matches Ok(refinement)
                &&& refinement.refined_poses@ == runs.last().after()
                &&& refinement.ba_result.initial_cost == runs.last().initial_cost
                &&& refinement.ba_result.final_cost == runs.last().final_cost
                &&& refinement.ba_result.iterations@ == all_iterations(runs)
                &&& refinement.ba_result.converged == all_converged(runs)
                &&& refinement.track_count == total_tracks(runs)
                &&& refinement.observation_count == total_observations(runs)
                &&& refinement.imu_refinement is None
            }
        },
    }
}

proof fn lemma_runs_grow<L, W, T, D, R, V, S, P, I, E>(
    numerics: BaNumerics<L, W, T, D, R, V, S, P>,
    scene: Scene,
    config: StereoVoBaConfig,
    size: int,
    runs: Seq<WindowRun<I, E>>,
    run: WindowRun<I, E>,
) where
    L: Fn(&StereoRig, Scalar) -> Scalar,
    W: Fn(&Pose, &Point3) -> Point3,
    T: Fn(&StereoRig, &Vec<PosedView>) -> Option<DltSolution>,
    D: Fn(&Pose, &Point3) -> Scalar,
    R: Fn(&StereoRig, &PosedView, &Point3) -> ViewResidual,
    V: Fn(&Pose, &Pose, &Vec<StereoVoBaImuSample>) -> WindowVelocity,
    S: Fn(&StereoBaProblem) -> Result<BaSolution<I>, E>,
    P: Fn(Scalar, Scalar) -> Scalar,

    requires
        are_runs(numerics, scene, config, size, runs),
        follows(numerics, scene, config, size, runs, run),
    ensures
        are_runs(numerics, scene, config, size, runs.push(run)),
{
    let longer = runs.push(run);
    assert forall|k: int| 0 <= k < longer.len() implies follows(
        numerics,
        scene,
        config,
        size,
        longer.take(k),
        #[trigger] longer[k],
    ) by {
        assert(longer.take(k) =~= runs.take(k));
        if k < runs.len() {
            assert(longer[k] == runs[k]);
        } else {
            assert(runs.take(k) =~= runs);
        }
    }
}

fn copy_poses(poses: &Vec<Pose>, start: usize, end: usize) -> (part: Vec<Pose>)
    requires
        start <= end <= poses.len(),
    ensures
        part@ == poses@.subrange(start as int, end as int),
{
    let mut part: Vec<Pose> = Vec::new();
    let mut i: usize = start;
    while i < end
        invariant
            start <= i <= end <= poses.len(),
            part@ == poses@.subrange(start as int, i as int),
        decreases end - i,
    {
        part.push(poses[i]);
        assert(part@ =~= poses@.subrange(start as int, i + 1));
        i += 1;
    }
    part
}

fn overwrite_poses(poses: &mut Vec<Pose>, start: usize, replaced: &Vec<Pose>)
    requires
        start + replaced.len() <= old(poses).len(),
    ensures
        final(poses)@ == overwritten(old(poses)@, start as int, replaced@),
{
    let ghost before = poses@;
    let mut k: usize = 0;
    while k < replaced.len()
        invariant
            k <= replaced.len(),
            start + replaced.len() <= before.len(),
            poses.len() == before.len(),
            poses@ == overwritten(before, start as int, replaced@.take(k as int)),
        decreases replaced.len() - k,
    {
        poses.set(start + k, replaced[k]);
        assert(poses@ =~= overwritten(before, start as int, replaced@.take(k + 1)));
        k += 1;
    }
    proof {
        lemma_take_all(replaced@);
    }
}

proof fn lemma_cut_views(sequence: StereoSequence, poses: Vec<Pose>, part: StereoSequence, start: int, end: int)
    requires
        sequence@.is_complete(),
        poses.len() == sequence.poses.len(),
        0 <= start < end <= poses.len(),
        *part.rig == *sequence.rig,
        part.poses@ == poses@.subrange(start, end),
        part.left@ == sequence.left@.subrange(start, end),
        part.right@ == sequence.right@.subrange(start, end),
        part.stereo@ == sequence.stereo@.subrange(start, end),
        part.temporal@ == sequence.temporal@.subrange(start, end - 1),
    ensures
        part@ == cut(sequence@, poses@, start, end),
        part@.is_complete(),
{
    assert(part@ =~= cut(sequence@, poses@, start, end));
}

/// Refines one window of the sequence, with the given poses.
fn refine_window<L, W, T, D, R, V, S, P, I, E>(
    sequence: &StereoSequence,
    poses: &Vec<Pose>,
    start: usize,
    end: usize,
    config: &StereoVoBaConfig,
    numerics: &BaNumerics<L, W, T, D, R, V, S, P>,
) -> (result: Result<StereoVoBaRefinement<I>, StereoVoBaError<E>>) where
    L: Fn(&StereoRig, Scalar) -> Scalar,
    W: Fn(&Pose, &Point3) -> Point3,
    T: Fn(&StereoRig, &Vec<PosedView>) -> Option<DltSolution>,
    D: Fn(&Pose, &Point3) -> Scalar,
    R: Fn(&StereoRig, &PosedView, &Point3) -> ViewResidual,
    V: Fn(&Pose, &Pose, &Vec<StereoVoBaImuSample>) -> WindowVelocity,
    S: Fn(&StereoBaProblem) -> Result<BaSolution<I>, E>,
    P: Fn(Scalar, Scalar) -> Scalar,

    requires
        sequence@.is_complete(),
        poses.len() == sequence.poses.len(),
        start < end <= poses.len(),
        numerics.callable(),
        is_solver(numerics.solve),
    ensures
        is_refinement(
            *numerics,
            cut(sequence@, poses@, start as int, end as int),
            *config,
            window_constraints(*config, start, end),
            result,
        ),
        result matches Ok(refinement) ==> {
            &&& refinement.refined_poses@.len() == end - start
            &&& refinement.track_count <= usize::MAX
            &&& refinement.observation_count <= usize::MAX
        },
{
    let part_poses = copy_poses(poses, start, end);
    let part = StereoSequence {
        rig: sequence.rig,
        poses: &part_poses,
        left: slice_subrange(sequence.left, start, end),
        right: slice_subrange(sequence.right, start, end),
        stereo: slice_subrange(sequence.stereo, start, end),
        temporal: slice_subrange(sequence.temporal, start, end - 1),
    };
    proof {
        lemma_cut_views(*sequence, *poses, part, start as int, end as int);
    }
    let positions: Option<PositionPrior> = match &config.position_prior {
        Some(prior) => Some(slice_position_prior_for_window(prior, start, end)),
        None => None,
    };
    let gravity: Option<PerPoseGravityPrior> = match &config.per_pose_gravity_prior {
        Some(prior) => Some(slice_per_pose_gravity_prior_for_window(prior, start, end)),
        None => None,
    };
    let given = GivenConstraints {
        fix_pose_prefix: config.fix_pose_prefix,
        gravity: config.gravity_prior,
        positions: positions.as_ref(),
        per_pose_gravity: gravity.as_ref(),
        imu: None,
    };
    assert(given.model() =~= window_constraints(*config, start, end));
    refine_sequence(&part, config, &given, numerics)
}

/// Poses and sums over the windows refined so far.
struct Tally<I> {
    poses: Vec<Pose>,
    track_count: u128,
    observation_count: u128,
    initial_cost: Scalar,
    final_cost: Scalar,
    iterations: Vec<I>,
    converged: bool,
}

impl<I> Tally<I> {
    spec fn counts<E>(self, runs: Seq<WindowRun<I, E>>) -> bool {
        &&& self.track_count == total_tracks(runs)
        &&& self.observation_count == total_observations(runs)
        &&& self.track_count <= runs.len() * usize::MAX
        &&& self.observation_count <= runs.len() * usize::MAX
        &&& self.iterations@ == all_iterations(runs)
        &&& self.converged == all_converged(runs)
    }

    spec fn stands_after<E>(self, run: WindowRun<I, E>) -> bool {
        &&& self.poses@ == run.after()
        &&& self.initial_cost == run.initial_cost
        &&& self.final_cost == run.final_cost
    }
}

/// Refines the next window and counts it in. Gives the error that ends the refinement, if
/// there is one.
fn take_window<L, W, T, D, R, V, S, P, I, E>(
    sequence: &StereoSequence,
    tally: &mut Tally<I>,
    start: usize,
    end: usize,
    config: &StereoVoBaConfig,
    numerics: &BaNumerics<L, W, T, D, R, V, S, P>,
    Ghost(size): Ghost<int>,
    Ghost(runs): Ghost<Seq<WindowRun<I, E>>>,
) -> (out: (Option<StereoVoBaError<E>>, Ghost<WindowRun<I, E>>)) where
    L: Fn(&StereoRig, Scalar) -> Scalar,
    W: Fn(&Pose, &Point3) -> Point3,
    T: Fn(&StereoRig, &Vec<PosedView>) -> Option<DltSolution>,
    D: Fn(&Pose, &Point3) -> Scalar,
    R: Fn(&StereoRig, &PosedView, &Point3) -> ViewResidual,
    V: Fn(&Pose, &Pose, &Vec<StereoVoBaImuSample>) -> WindowVelocity,
    S: Fn(&StereoBaProblem) -> Result<BaSolution<I>, E>,
    P: Fn(Scalar, Scalar) -> Scalar,

    requires
        sequence@.is_complete(),
        old(tally).poses.len() == sequence.poses.len(),
        start < end <= sequence.poses.len(),
        end == window_end(start as int, size, sequence.poses.len() as int),
        old(tally).counts(runs),
        runs.len() < usize::MAX,
        numerics.callable(),
        is_solver(numerics.solve),
    ensures
        out.1@.start == start,
        out.1@.end == end,
        out.1@.before == old(tally).poses@,
        out.0 == out.1@.failure(),
        is_run(
            *numerics,
            sequence@,
            *config,
            size,
            old(tally).initial_cost,
            old(tally).final_cost,
            out.1@,
        ),
        final(tally).stands_after(out.1@),
        final(tally).poses.len() == old(tally).poses.len(),
        final(tally).counts(runs.push(out.1@)),
{
    let ghost mut run: WindowRun<I, E> = WindowRun {
        start: start as int,
        end: end as int,
        before: tally.poses@,
        outcome: None,
        initial_cost: tally.initial_cost,
        final_cost: tally.final_cost,
    };
    let ghost longer = runs.push(run);
    proof {
        reveal(is_run);
        assert((runs.len() + 1) * usize::MAX == runs.len() * usize::MAX + usize::MAX)
            by (nonlinear_arith);
        assert(runs.len() * usize::MAX + usize::MAX <= u128::MAX) by (nonlinear_arith)
            requires
                runs.len() < usize::MAX,
                usize::MAX <= u64::MAX,
        ;
        assert(longer.drop_last() =~= runs);
    }
    if end - start < config.min_track_length {
        return (None, Ghost(run));
    }
    let outcome = refine_window(sequence, &tally.poses, start, end, config, numerics);
    proof {
        run = WindowRun { outcome: Some(outcome), ..run };
        assert(runs.push(run).drop_last() =~= runs);
    }
    match outcome {
        Ok(refinement) => {
            let ghost kept = refinement;
            overwrite_poses(&mut tally.poses, start, &refinement.refined_poses);
            tally.track_count = tally.track_count + refinement.track_count;
            tally.observation_count = tally.observation_count + refinement.observation_count;
            tally.initial_cost =
            (numerics.plus)(tally.initial_cost, refinement.ba_result.initial_cost);
            tally.final_cost = (numerics.plus)(tally.final_cost, refinement.ba_result.final_cost);
            tally.converged = tally.converged && refinement.ba_result.converged;
            let mut more = refinement.ba_result.iterations;
            tally.iterations.append(&mut more);
            proof {
                run =
                WindowRun {
                    initial_cost: tally.initial_cost,
                    final_cost: tally.final_cost,
                    ..run
                };
                assert(run.success() == Some(kept));
                assert(runs.push(run).drop_last() =~= runs);
            }
            (None, Ghost(run))
        },
        Err(error) => match error {
            StereoVoBaError::InsufficientTracks { count, required } => (None, Ghost(run)),
            StereoVoBaError::NoLongTracks => (None, Ghost(run)),
            _ => (Some(error), Ghost(run)),
        },
    }
}

/// Refines overlapping windows one after the other.
fn refine_windows<L, W, T, D, R, V, S, P, I, E>(
    sequence: &StereoSequence,
    size: usize,
    config: &StereoVoBaConfig,
    numerics: &BaNumerics<L, W, T, D, R, V, S, P>,
) -> (result: Result<StereoVoBaRefinement<I>, StereoVoBaError<E>>) where
    L: Fn(&StereoRig, Scalar) -> Scalar,
    W: Fn(&Pose, &Point3) -> Point3,
    T: Fn(&StereoRig, &Vec<PosedView>) -> Option<DltSolution>,
    D: Fn(&Pose, &Point3) -> Scalar,
    R: Fn(&StereoRig, &PosedView, &Point3) -> ViewResidual,
    V: Fn(&Pose, &Pose, &Vec<StereoVoBaImuSample>) -> WindowVelocity,
    S: Fn(&StereoBaProblem) -> Result<BaSolution<I>, E>,
    P: Fn(Scalar, Scalar) -> Scalar,

    requires
        sequence@.is_complete(),
        sequence.poses.len() >= 2,
        size >= 2,
        numerics.callable(),
        is_solver(numerics.solve),
    ensures
        exists|runs: Seq<WindowRun<I, E>>| #[trigger]
            are_runs(*numerics, sequence@, *config, size as int, runs) && is_windowed_verdict(
                sequence.poses.len() as int,
                runs,
                result,
            ),
{
    let ghost scene = sequence@;
    let frames = sequence.poses.len();
    let mut tally: Tally<I> = Tally {
        poses: copy_poses(sequence.poses, 0, frames),
        track_count: 0,
        observation_count: 0,
        initial_cost: Scalar::zero(),
        final_cost: Scalar::zero(),
        iterations: Vec::new(),
        converged: true,
    };
    assert(sequence.poses@.subrange(0, frames as int) =~= scene.poses);
    let mut start: usize = 0;
    let ghost mut runs: Seq<WindowRun<I, E>> = Seq::empty();
    assert(tally.counts(runs));
    loop
        invariant_except_break
            start + 1 < frames,
            runs.len() <= start,
            runs.len() == 0 ==> start == 0 && tally.poses@ == scene.poses && tally.initial_cost
                == Scalar::zero() && tally.final_cost == Scalar::zero(),
            runs.len() > 0 ==> {
                &&& runs.last().failure() is None
                &&& runs.last().end < frames
                &&& start == runs.last().end - 1
                &&& tally.stands_after(runs.last())
            },
        invariant
            frames == sequence.poses.len(),
            scene == sequence@,
            sequence@.is_complete(),
            size >= 2,
            numerics.callable(),
            is_solver(numerics.solve),
            tally.poses.len() == frames,
            are_runs(*numerics, scene, *config, size as int, runs),
            tally.counts(runs),
        ensures
            runs.len() > 0,
            runs.last().failure() is None,
            runs.last().end == frames,
            tally.stands_after(runs.last()),
        decreases frames - start,
    {
        let end: usize = if frames - start <= size {
            frames
        } else {
            start + size
        };
        let (failure, run) = take_window(
            sequence,
            &mut tally,
            start,
            end,
            config,
            numerics,
            Ghost(size as int),
            Ghost(runs),
        );
        proof {
            assert(follows(*numerics, scene, *config, size as int, runs, run@));
            lemma_runs_grow(*numerics, scene, *config, size as int, runs, run@);
            runs = runs.push(run@);
            assert(runs.last() == run@);
        }
        if let Some(error) = failure {
            let result: Result<StereoVoBaRefinement<I>, StereoVoBaError<E>> = Err(error);
            assert(is_windowed_verdict(frames as int, runs, result));
            return result;
        }
        if end == frames {
            break;
        }
        start = end - 1;
    }
    let result: Result<StereoVoBaRefinement<I>, StereoVoBaError<E>> = if tally.track_count == 0 {
        Err(StereoVoBaError::NoLongTracks)
    } else {
        Ok(
            StereoVoBaRefinement {
                refined_poses: tally.poses,
                ba_result: BaResult {
                    initial_cost: tally.initial_cost,
                    final_cost: tally.final_cost,
                    iterations: tally.iterations,
                    converged: tally.converged,
                },
                track_count: tally.track_count,
                observation_count: tally.observation_count,
                imu_refinement: None,
            },
        )
    };
    assert(is_windowed_verdict(frames as int, runs, result));
    result
}

/// Whether a sample spans a positive, finite time.
pub open spec fn spans_time(sample: StereoVoBaImuSample) -> bool {
    sample.dt.is_finite() && Scalar::zero().lt(sample.dt)
}

/// The first sample of a window, from the `k`-th on, that spans no time.
pub open spec fn first_bad_sample(samples: Seq<StereoVoBaImuSample>, k: int) -> Option<int>
    decreases samples.len() - k,
{
    if k >= samples.len() {
        None
    } else if !spans_time(samples[k]) {
        Some(k)
    } else {
        first_bad_sample(samples, k + 1)
    }
}

/// The first sample of all windows, from the `w`-th on, that spans no time.
pub open spec fn first_bad_window(windows: Seq<Vec<StereoVoBaImuSample>>, w: int) -> Option<
    ImuInputProblem,
>
    decreases windows.len() - w,
{
    if w >= windows.len() {
        None
    } else {
        match first_bad_sample(windows[w]@, 0) {
            Some(k) => Some(
                ImuInputProblem::BadDuration {
                    window: w as usize,
                    sample: k as usize,
                    dt: windows[w]@[k].dt,
                },
            ),
            None => first_bad_window(windows, w + 1),
        }
    }
}

/// What is wrong with inertial input for so many frames, if anything is.
pub open spec fn imu_problem(
    input: StereoVoBaImuInput,
    frames: int,
    window_size: Option<usize>,
) -> Option<ImuInputProblem> {
    if input.windows.len() != frames - 1 {
        Some(
            ImuInputProblem::WindowCount {
                windows: input.windows.len(),
                expected: (frames - 1) as usize,
            },
        )
    } else if window_size is Some {
        Some(ImuInputProblem::SlidingWindow)
    } else {
        first_bad_window(input.windows@, 0)
    }
}

/// What is wrong with the numbers of frames and entries, if anything is.
pub open spec fn length_problem<E>(scene: Scene, min_track_length: usize) -> Option<
    StereoVoBaError<E>,
> {
    let frames = scene.poses.len();
    if frames < min_track_length || frames < 2 {
        Some(StereoVoBaError::TooFewFrames(frames as usize))
    } else if !scene.is_complete() {
        Some(StereoVoBaError::InputLengthMismatch)
    } else {
        None
    }
}

/// Why a trajectory is not refined at all, if it is not.
pub open spec fn input_problem<E>(scene: Scene, config: StereoVoBaConfig) -> Option<
    StereoVoBaError<E>,
> {
    match length_problem(scene, config.min_track_length) {
        Some(error) => Some(error),
        None => {
            let bad_imu = match config.imu_input {
                Some(input) => imu_problem(input, scene.poses.len() as int, config.window_size),
                None => None,
            };
            match bad_imu {
                Some(reason) => Some(StereoVoBaError::InvalidImuInput { reason }),
                None => match config.window_size {
                    Some(size) => if size < config.min_track_length || size < 2 {
                        Some(StereoVoBaError::TooFewFrames(size))
                    } else {
                        None
                    },
                    None => None,
                },
            }
        },
    }
}

fn find_bad_window(windows: &Vec<Vec<StereoVoBaImuSample>>) -> (problem: Option<ImuInputProblem>)
    ensures
        problem == first_bad_window(windows@, 0),
{
    let mut w: usize = 0;
    while w < windows.len()
        invariant
            w <= windows.len(),
            first_bad_window(windows@, 0) == first_bad_window(windows@, w as int),
        decreases windows.len() - w,
    {
        let samples = &windows[w];
        let mut k: usize = 0;
        while k < samples.len()
            invariant
                w < windows.len(),
                samples@ == windows@[w as int]@,
                k <= samples.len(),
                first_bad_window(windows@, 0) == first_bad_window(windows@, w as int),
                first_bad_sample(samples@, 0) == first_bad_sample(samples@, k as int),
            decreases samples.len() - k,
        {
            let dt = samples[k].dt;
            if !(dt.is_finite() && Scalar::zero().lt(dt)) {
                return Some(ImuInputProblem::BadDuration { window: w, sample: k, dt });
            }
            k += 1;
        }
        w += 1;
    }
    None
}

fn check_lengths<E>(sequence: &StereoSequence, min_track_length: usize) -> (problem: Option<
    StereoVoBaError<E>,
>)
    ensures
        problem == length_problem::<E>(sequence@, min_track_length),
{
    let frames = sequence.poses.len();
    if frames < min_track_length || frames < 2 {
        return Some(StereoVoBaError::TooFewFrames(frames));
    }
    if sequence.left.len() != frames || sequence.right.len() != frames || sequence.stereo.len()
        != frames || sequence.temporal.len() != frames - 1 {
        return Some(StereoVoBaError::InputLengthMismatch);
    }
    None
}

fn check_inputs<E>(sequence: &StereoSequence, config: &StereoVoBaConfig) -> (problem: Option<
    StereoVoBaError<E>,
>)
    ensures
        problem == input_problem::<E>(sequence@, *config),
{
    let lengths = check_lengths(sequence, config.min_track_length);
    if lengths.is_some() {
        return lengths;
    }
    let frames = sequence.poses.len();
    if let Some(input) = &config.imu_input {
        if input.windows.len() != frames - 1 {
            return Some(
                StereoVoBaError::InvalidImuInput {
                    reason: ImuInputProblem::WindowCount {
                        windows: input.windows.len(),
                        expected: frames - 1,
                    },
                },
            );
        }
        if config.window_size.is_some() {
            return Some(
                StereoVoBaError::InvalidImuInput { reason: ImuInputProblem::SlidingWindow },
            );
        }
        if let Some(reason) = find_bad_window(&input.windows) {
            return Some(StereoVoBaError::InvalidImuInput { reason });
        }
    }
    if let Some(size) = config.window_size {
        if size < config.min_track_length || size < 2 {
            return Some(StereoVoBaError::TooFewFrames(size));
        }
    }
    None
}

/// The inputs as a scene.
pub open spec fn scene_of(
    rig: StereoRig,
    initial_poses: Seq<Pose>,
    left_features: Seq<FeatureSet>,
    right_features: Seq<FeatureSet>,
    stereo_per_frame: Seq<Vec<StereoFeature>>,
    temporal_matches: Seq<Vec<TemporalMatch>>,
) -> Scene {
    Scene {
        rig,
        poses: initial_poses,
        left: keypoints(left_features),
        right: keypoints(right_features),
        stereo: lists(stereo_per_frame),
        temporal: lists(temporal_matches),
    }
}

fn collect_poses(poses: &[Pose]) -> (copied: Vec<Pose>)
    ensures
        copied@ == poses@,
{
    let mut copied: Vec<Pose> = Vec::new();
    let mut i: usize = 0;
    while i < poses.len()
        invariant
            i <= poses@.len(),
            copied@ == poses@.take(i as int),
        decreases poses@.len() - i,
    {
        copied.push(poses[i]);
        i += 1;
    }
    proof {
        lemma_take_all(poses@);
    }
    copied
}

/// `result` is the refinement of a scene: an error for bad inputs, else one solve over all
/// frames, or one after the other over overlapping windows.
pub open spec fn is_full_refinement<L, W, T, D, R, V, S, P, I, E>(
    numerics: BaNumerics<L, W, T, D, R, V, S, P>,
    scene: Scene,
    config: StereoVoBaConfig,
    result: Result<StereoVoBaRefinement<I>, StereoVoBaError<E>>,
) -> bool where
    L: Fn(&StereoRig, Scalar) -> Scalar,
    W: Fn(&Pose, &Point3) -> Point3,
    T: Fn(&StereoRig, &Vec<PosedView>) -> Option<DltSolution>,
    D: Fn(&Pose, &Point3) -> Scalar,
    R: Fn(&StereoRig, &PosedView, &Point3) -> ViewResidual,
    V: Fn(&Pose, &Pose, &Vec<StereoVoBaImuSample>) -> WindowVelocity,
    S: Fn(&StereoBaProblem) -> Result<BaSolution<I>, E>,
    P: Fn(Scalar, Scalar) -> Scalar,
 {
    match input_problem::<E>(scene, config) {
        Some(error) => result == Err::<StereoVoBaRefinement<I>, _>(error),
        None => match config.window_size {
            None => is_refinement(numerics, scene, config, full_constraints(config), result),
            Some(size) => exists|runs: Seq<WindowRun<I, E>>| #[trigger]
                are_runs(numerics, scene, config, size as int, runs) && is_windowed_verdict(
                    scene.poses.len() as int,
                    runs,
                    result,
                ),
        },
    }
}

/// Refines a stereo trajectory by bundle adjustment over its feature tracks.
pub fn refine_stereo_vo_with_ba<L, W, T, D, R, V, S, P, I, E>(
    rig: &StereoRig,
    initial_poses: &[Pose],
    left_features: &[FeatureSet],
    right_features: &[FeatureSet],
    stereo_per_frame: &[Vec<StereoFeature>],
    temporal_matches: &[Vec<TemporalMatch>],
    config: &StereoVoBaConfig,
    numerics: &BaNumerics<L, W, T, D, R, V, S, P>,
) -> (result: Result<StereoVoBaRefinement<I>, StereoVoBaError<E>>) where
    L: Fn(&StereoRig, Scalar) -> Scalar,
    W: Fn(&Pose, &Point3) -> Point3,
    T: Fn(&StereoRig, &Vec<PosedView>) -> Option<DltSolution>,
    D: Fn(&Pose, &Point3) -> Scalar,
    R: Fn(&StereoRig, &PosedView, &Point3) -> ViewResidual,
    V: Fn(&Pose, &Pose, &Vec<StereoVoBaImuSample>) -> WindowVelocity,
    S: Fn(&StereoBaProblem) -> Result<BaSolution<I>, E>,
    P: Fn(Scalar, Scalar) -> Scalar,

    requires
        numerics.callable(),
        is_solver(numerics.solve),
    ensures
        is_full_refinement(
            *numerics,
            scene_of(
                *rig,
                initial_poses@,
                left_features@,
                right_features@,
                stereo_per_frame@,
                temporal_matches@,
            ),
            *config,
            result,
        ),
{
    let poses = collect_poses(initial_poses);
    let sequence = StereoSequence {
        rig,
        poses: &poses,
        left: left_features,
        right: right_features,
        stereo: stereo_per_frame,
        temporal: temporal_matches,
    };
    if let Some(error) = check_inputs(&sequence, config) {
        return Err(error);
    }
    match config.window_size {
        Some(size) => refine_windows(&sequence, size, config, numerics),
        None => {
            let given = GivenConstraints {
                fix_pose_prefix: config.fix_pose_prefix,
                gravity: config.gravity_prior,
                positions: config.position_prior.as_ref(),
                per_pose_gravity: config.per_pose_gravity_prior.as_ref(),
                imu: config.imu_input.as_ref(),
            };
            assert(given.model() =~= full_constraints(*config));
            refine_sequence(&sequence, config, &given, numerics)
        },
    }
}

/// How a point projects into the left image: its depth, and the distance to where it was
/// observed.
#[derive(Clone, Copy, Debug, PartialEq, Eq, Structural)]
pub struct PixelError {
    pub depth: Scalar,
    pub error: Scalar,
}

/// The bit pattern of a NaN.
pub const NAN_BITS: u64 = 0x7FF8_0000_0000_0000;

/// What one measurement contributes to the mean: nothing where its frame or its landmark
/// has no estimate or the landmark does not lie in front of the camera.
pub open spec fn is_contribution<X>(
    pixel_error: X,
    rig: StereoRig,
    poses: Seq<Option<Pose>>,
    landmarks: Seq<Option<Point3>>,
    observed: StereoObservation,
    contribution: Option<Scalar>,
) -> bool where X: Fn(&StereoRig, &Pose, &Point3, &StereoObservation) -> PixelError {
    match (
        entry(poses, observed.keyframe_id as usize as int),
        entry(landmarks, observed.landmark_id as usize as int),
    ) {
        (Some(pose), Some(point)) => exists|projected: PixelError| #[trigger]
            call_ensures(pixel_error, (&rig, &pose, &point, &observed), projected)
                && contribution == (if projected.depth.le(Scalar::zero()) {
                None
            } else {
                Some(projected.error)
            }),
        _ => contribution is None,
    }
}

/// The contributions of the measurements, one for each.
pub open spec fn are_contributions<X>(
    pixel_error: X,
    rig: StereoRig,
    poses: Seq<Option<Pose>>,
    landmarks: Seq<Option<Point3>>,
    observations: Seq<StereoObservation>,
    contributions: Seq<Option<Scalar>>,
) -> bool where X: Fn(&StereoRig, &Pose, &Point3, &StereoObservation) -> PixelError {
    &&& contributions.len() == observations.len()
    &&& forall|k: int|
        0 <= k < observations.len() ==> is_contribution(
            pixel_error,
            rig,
            poses,
            landmarks,
            observations[k],
            #[trigger] contributions[k],
        )
}

/// The values among some options.
pub open spec fn values<T>(options: Seq<Option<T>>) -> Seq<T>
    decreases options.len(),
{
    if options.len() == 0 {
        Seq::empty()
    } else {
        match options.last() {
            Some(value) => values(options.drop_last()).push(value),
            None => values(options.drop_last()),
        }
    }
}

/// `mean_px` is the mean left reprojection error of the estimates: not a number without
/// intrinsics or without any contribution.
pub open spec fn is_mean_reprojection<X, M>(
    pixel_error: X,
    mean: M,
    rig: StereoRig,
    poses: Seq<Option<Pose>>,
    landmarks: Seq<Option<Point3>>,
    observations: Seq<StereoObservation>,
    mean_px: Scalar,
) -> bool where
    X: Fn(&StereoRig, &Pose, &Point3, &StereoObservation) -> PixelError,
    M: Fn(&Vec<Scalar>) -> Scalar,
 {
    if rig.intrinsics is None {
        mean_px.bits == NAN_BITS
    } else {
        exists|contributions: Seq<Option<Scalar>>| #[trigger]
            are_contributions(pixel_error, rig, poses, landmarks, observations, contributions)
                && (if values(contributions).len() == 0 {
                mean_px.bits == NAN_BITS
            } else {
                exists|list: Vec<Scalar>|
                    list@ == values(contributions) && #[trigger] call_ensures(
                        mean,
                        (&list,),
                        mean_px,
                    )
            })
    }
}

/// The mean left reprojection error over all measurements, in pixels.
pub fn mean_left_reprojection_px<X, M>(
    rig: &StereoRig,
    poses: &Vec<Option<Pose>>,
    landmarks: &Vec<Option<Point3>>,
    observations: &Vec<StereoObservation>,
    pixel_error: &X,
    mean: &M,
) -> (mean_px: Scalar) where
    X: Fn(&StereoRig, &Pose, &Point3, &StereoObservation) -> PixelError,
    M: Fn(&Vec<Scalar>) -> Scalar,

    requires
        forall|pose: Pose, point: Point3, observed: StereoObservation|
            call_requires(*pixel_error, (rig, &pose, &point, &observed)),
        forall|list: Vec<Scalar>| call_requires(*mean, (&list,)),
    ensures
        is_mean_reprojection(
            *pixel_error,
            *mean,
            *rig,
            poses@,
            landmarks@,
            observations@,
            mean_px,
        ),
{
    if rig.intrinsics.is_none() {
        return Scalar::from_bits(NAN_BITS);
    }
    let ghost mut contributions: Seq<Option<Scalar>> = Seq::empty();
    let mut errors: Vec<Scalar> = Vec::new();
    let mut k: usize = 0;
    while k < observations.len()
        invariant
            k <= observations.len(),
            forall|pose: Pose, point: Point3, observed: StereoObservation|
                call_requires(*pixel_error, (rig, &pose, &point, &observed)),
            contributions.len() == k,
            forall|j: int|
                0 <= j < k ==> is_contribution(
                    *pixel_error,
                    *rig,
                    poses@,
                    landmarks@,
                    observations@[j],
                    #[trigger] contributions[j],
                ),
            errors@ == values(contributions),
        decreases observations.len() - k,
    {
        let observed = observations[k];
        let mut contribution: Option<Scalar> = None;
        let pose = get_entry(poses, observed.keyframe_id as usize);
        let point = get_entry(landmarks, observed.landmark_id as usize);
        if let (Some(camera), Some(world)) = (pose, point) {
            let projected = pixel_error(rig, &camera, &world, &observed);
            if !projected.depth.le(Scalar::zero()) {
                contribution = Some(projected.error);
                errors.push(projected.error);
            }
        }
        let ghost before = contributions;
        proof {
            contributions = contributions.push(contribution);
            assert(contributions.drop_last() =~= before);
            assert forall|j: int| 0 <= j < k + 1 implies is_contribution(
                *pixel_error,
                *rig,
                poses@,
                landmarks@,
                observations@[j],
                #[trigger] contributions[j],
            ) by {
                if j < k {
                    assert(before[j] == contributions[j]);
                }
            }
        }
        k += 1;
    }
    assert(are_contributions(
        *pixel_error,
        *rig,
        poses@,
        landmarks@,
        observations@,
        contributions,
    ));
    if errors.len() == 0 {
        return Scalar::from_bits(NAN_BITS);
    }
    mean(&errors)
}

/// The left views of a landmark.
pub open spec fn left_views(views: Seq<TrackView>) -> Seq<(usize, usize, Pixel)> {
    views.map_values(|view: TrackView| (view.frame, view.left_index, view.left))
}

/// A reconstructed landmark in the contracts.
#[verifier::ext_equal]
pub struct ReconstructedModel {
    pub position: Point3,
    pub observations: Seq<(usize, usize, Pixel)>,
}

impl View for ReconstructedLandmark {
    type V = ReconstructedModel;

    open spec fn view(&self) -> ReconstructedModel {
        ReconstructedModel { position: self.position, observations: self.observations@ }
    }
}

/// The landmarks that the solver reports a position for, with their views.
pub open spec fn reconstructed(
    landmarks: Seq<LandmarkModel>,
    solved: Seq<Option<Point3>>,
) -> Seq<ReconstructedModel>
    decreases landmarks.len(),
{
    if landmarks.len() == 0 {
        Seq::empty()
    } else {
        let rest = reconstructed(landmarks.drop_last(), solved);
        match entry(solved, landmarks.len() - 1) {
            Some(position) => rest.push(
                ReconstructedModel {
                    position,
                    observations: left_views(landmarks.last().views),
                },
            ),
            None => rest,
        }
    }
}

/// Estimates that are all known.
pub open spec fn known<T>(estimates: Seq<T>) -> Seq<Option<T>> {
    estimates.map_values(|value: T| Some(value))
}

/// The positions that the landmarks start at.
pub open spec fn starts(landmarks: Seq<LandmarkModel>) -> Seq<Point3> {
    landmarks.map_values(|landmark: LandmarkModel| landmark.position)
}

/// The computations that reconstruction needs.
pub struct ReconstructionNumerics<L, W, T, D, R, V, S, P, X, M> {
    pub refine: BaNumerics<L, W, T, D, R, V, S, P>,
    /// The left reprojection of a world point.
    pub pixel_error: X,
    /// The mean of some numbers.
    pub mean: M,
}

/// `result` is the reconstruction of a scene.
pub open spec fn is_reconstruction<L, W, T, D, R, V, S, P, X, M, I, E>(
    numerics: ReconstructionNumerics<L, W, T, D, R, V, S, P, X, M>,
    scene: Scene,
    config: StereoVoBaConfig,
    result: Result<StereoVoReconstruction<I>, StereoVoBaError<E>>,
) -> bool where
    L: Fn(&StereoRig, Scalar) -> Scalar,
    W: Fn(&Pose, &Point3) -> Point3,
    T: Fn(&StereoRig, &Vec<PosedView>) -> Option<DltSolution>,
    D: Fn(&Pose, &Point3) -> Scalar,
    R: Fn(&StereoRig, &PosedView, &Point3) -> ViewResidual,
    V: Fn(&Pose, &Pose, &Vec<StereoVoBaImuSample>) -> WindowVelocity,
    S: Fn(&StereoBaProblem) -> Result<BaSolution<I>, E>,
    P: Fn(Scalar, Scalar) -> Scalar,
    X: Fn(&StereoRig, &Pose, &Point3, &StereoObservation) -> PixelError,
    M: Fn(&Vec<Scalar>) -> Scalar,
 {
    match length_problem::<E>(scene, config.min_track_length) {
        Some(error) => result == Err::<StereoVoReconstruction<I>, _>(error),
        None => exists|
            outcome: Result<(Seq<LandmarkModel>, BaSolution<I>), StereoVoBaError<E>>,
        | #[trigger]
            is_solved(numerics.refine, scene, config, visual_constraints(), outcome) && (
            match outcome {
                Err(error) => result == Err::<StereoVoReconstruction<I>, _>(error),
                Ok((landmarks, solution)) => {
                    &&& result matches Ok(reconstruction)
                    &&& reconstruction.refined_poses@ == refined(1, scene.poses, solution.poses@)
                    &&& reconstruction.landmarks@.map_values(
                        |landmark: ReconstructedLandmark| landmark@,
                    ) == reconstructed(landmarks, solution.landmarks@)
                    &&& reconstruction.ba_result == solution.result
                    &&& reconstruction.observation_count == all_observations(landmarks).len()
                    &&& is_mean_reprojection(
                        numerics.pixel_error,
                        numerics.mean,
                        scene.rig,
                        known(scene.poses),
                        known(starts(landmarks)),
                        all_observations(landmarks),
                        reconstruction.mean_reproj_before_px,
                    )
                    &&& is_mean_reprojection(
                        numerics.pixel_error,
                        numerics.mean,
                        scene.rig,
                        solution.poses@,
                        solution.landmarks@,
                        all_observations(landmarks),
                        reconstruction.mean_reproj_after_px,
                    )
                },
            }),
    }
}

fn known_poses(poses: &Vec<Pose>) -> (estimates: Vec<Option<Pose>>)
    ensures
        estimates@ == known(poses@),
{
    let mut estimates: Vec<Option<Pose>> = Vec::new();
    let mut i: usize = 0;
    while i < poses.len()
        invariant
            i <= poses.len(),
            estimates@ == known(poses@.take(i as int)),
        decreases poses.len() - i,
    {
        estimates.push(Some(poses[i]));
        assert(estimates@ =~= known(poses@.take(i + 1)));
        i += 1;
    }
    proof {
        lemma_take_all(poses@);
    }
    estimates
}

fn known_starts(landmarks: &Vec<LandmarkSeed>) -> (estimates: Vec<Option<Point3>>)
    ensures
        estimates@ == known(starts(landmark_models(landmarks@))),
{
    let mut estimates: Vec<Option<Point3>> = Vec::new();
    let mut i: usize = 0;
    while i < landmarks.len()
        invariant
            i <= landmarks.len(),
            estimates@ == known(starts(landmark_models(landmarks@.take(i as int)))),
        decreases landmarks.len() - i,
    {
        estimates.push(Some(landmarks[i].position));
        assert(estimates@ =~= known(starts(landmark_models(landmarks@.take(i + 1)))));
        i += 1;
    }
    proof {
        lemma_take_all(landmarks@);
    }
    estimates
}

fn copy_left_views(views: &Vec<TrackView>) -> (copied: Vec<(usize, usize, Pixel)>)
    ensures
        copied@ == left_views(views@),
{
    let mut copied: Vec<(usize, usize, Pixel)> = Vec::new();
    let mut k: usize = 0;
    while k < views.len()
        invariant
            k <= views.len(),
            copied@ == left_views(views@.take(k as int)),
        decreases views.len() - k,
    {
        copied.push((views[k].frame, views[k].left_index, views[k].left));
        assert(copied@ =~= left_views(views@.take(k + 1)));
        k += 1;
    }
    proof {
        lemma_take_all(views@);
    }
    copied
}

fn read_landmarks(seeds: &Vec<LandmarkSeed>, solved: &Vec<Option<Point3>>) -> (landmarks: Vec<
    ReconstructedLandmark,
>)
    ensures
        landmarks@.map_values(|landmark: ReconstructedLandmark| landmark@) == reconstructed(
            landmark_models(seeds@),
            solved@,
        ),
{
    let mut landmarks: Vec<ReconstructedLandmark> = Vec::new();
    let mut k: usize = 0;
    assert(landmarks@.map_values(|landmark: ReconstructedLandmark| landmark@) =~= Seq::empty());
    while k < seeds.len()
        invariant
            k <= seeds.len(),
            landmarks@.map_values(|landmark: ReconstructedLandmark| landmark@) == reconstructed(
                landmark_models(seeds@.take(k as int)),
                solved@,
            ),
        decreases seeds.len() - k,
    {
        let ghost before = landmarks@;
        let ghost models = landmark_models(seeds@.take(k + 1));
        assert(models.drop_last() =~= landmark_models(seeds@.take(k as int)));
        assert(models.last() == seeds@[k as int]@);
        if let Some(position) = get_entry(solved, k) {
            let observations = copy_left_views(&seeds[k].views);
            landmarks.push(ReconstructedLandmark { position, observations });
            assert(landmarks@.map_values(|landmark: ReconstructedLandmark| landmark@)
                =~= before.map_values(|landmark: ReconstructedLandmark| landmark@).push(
                landmarks@.last()@,
            ));
        }
        k += 1;
    }
    proof {
        lemma_take_all(seeds@);
    }
    landmarks
}

/// Builds a sparse reconstruction from a stereo trajectory: one solve over all frames with
/// only the first pose held.
pub fn reconstruct_stereo_vo_with_ba<L, W, T, D, R, V, S, P, X, M, I, E>(
    rig: &StereoRig,
    initial_poses: &[Pose],
    left_features: &[FeatureSet],
    right_features: &[FeatureSet],
    stereo_per_frame: &[Vec<StereoFeature>],
    temporal_matches: &[Vec<TemporalMatch>],
    config: &StereoVoBaConfig,
    numerics: &ReconstructionNumerics<L, W, T, D, R, V, S, P, X, M>,
) -> (result: Result<StereoVoReconstruction<I>, StereoVoBaError<E>>) where
    L: Fn(&StereoRig, Scalar) -> Scalar,
    W: Fn(&Pose, &Point3) -> Point3,
    T: Fn(&StereoRig, &Vec<PosedView>) -> Option<DltSolution>,
    D: Fn(&Pose, &Point3) -> Scalar,
    R: Fn(&StereoRig, &PosedView, &Point3) -> ViewResidual,
    V: Fn(&Pose, &Pose, &Vec<StereoVoBaImuSample>) -> WindowVelocity,
    S: Fn(&StereoBaProblem) -> Result<BaSolution<I>, E>,
    P: Fn(Scalar, Scalar) -> Scalar,
    X: Fn(&StereoRig, &Pose, &Point3, &StereoObservation) -> PixelError,
    M: Fn(&Vec<Scalar>) -> Scalar,

    requires
        numerics.refine.callable(),
        is_solver(numerics.refine.solve),
        forall|pose: Pose, point: Point3, observed: StereoObservation|
            call_requires(numerics.pixel_error, (rig, &pose, &point, &observed)),
        forall|list: Vec<Scalar>| call_requires(numerics.mean, (&list,)),
    ensures
        is_reconstruction(
            *numerics,
            scene_of(
                *rig,
                initial_poses@,
                left_features@,
                right_features@,
                stereo_per_frame@,
                temporal_matches@,
            ),
            *config,
            result,
        ),
{
    let poses = collect_poses(initial_poses);
    let sequence = StereoSequence {
        rig,
        poses: &poses,
        left: left_features,
        right: right_features,
        stereo: stereo_per_frame,
        temporal: temporal_matches,
    };
    if let Some(error) = check_lengths(&sequence, config.min_track_length) {
        return Err(error);
    }
    let given = GivenConstraints {
        fix_pose_prefix: 1,
        gravity: None,
        positions: None,
        per_pose_gravity: None,
        imu: None,
    };
    assert(given.model() =~= visual_constraints());
    let outcome = solve_sequence(&sequence, config, &given, &numerics.refine);
    let ghost model = solved_model(outcome);
    assert(is_solved(numerics.refine, sequence@, *config, visual_constraints(), model));
    match outcome {
        Err(error) => Err(error),
        Ok(solved) => {
            let first_poses = known_poses(&poses);
            let first_points = known_starts(&solved.landmarks);
            let mean_reproj_before_px = mean_left_reprojection_px(
                rig,
                &first_poses,
                &first_points,
                &solved.observations,
                &numerics.pixel_error,
                &numerics.mean,
            );
            let mean_reproj_after_px = mean_left_reprojection_px(
                rig,
                &solved.solution.poses,
                &solved.solution.landmarks,
                &solved.observations,
                &numerics.pixel_error,
                &numerics.mean,
            );
            let refined_poses = read_poses(1, &poses, &solved.solution.poses);
            let landmarks = read_landmarks(&solved.landmarks, &solved.solution.landmarks);
            Ok(
                StereoVoReconstruction {
                    refined_poses,
                    landmarks,
                    ba_result: solved.solution.result,
                    observation_count: solved.observations.len(),
                    mean_reproj_before_px,
                    mean_reproj_after_px,
                },
            )
        },
    }
}

proof fn lemma_run_keeps_length<L, W, T, D, R, V, S, P, I, E>(
    numerics: BaNumerics<L, W, T, D, R, V, S, P>,
    scene: Scene,
    config: StereoVoBaConfig,
    size: int,
    runs: Seq<WindowRun<I, E>>,
    k: int,
) where
    L: Fn(&StereoRig, Scalar) -> Scalar,
    W: Fn(&Pose, &Point3) -> Point3,
    T: Fn(&StereoRig, &Vec<PosedView>) -> Option<DltSolution>,
    D: Fn(&Pose, &Point3) -> Scalar,
    R: Fn(&StereoRig, &PosedView, &Point3) -> ViewResidual,
    V: Fn(&Pose, &Pose, &Vec<StereoVoBaImuSample>) -> WindowVelocity,
    S: Fn(&StereoBaProblem) -> Result<BaSolution<I>, E>,
    P: Fn(Scalar, Scalar) -> Scalar,

    requires
        are_runs(numerics, scene, config, size, runs),
        0 <= k < runs.len(),
    ensures
        runs[k].before.len() == scene.poses.len(),
        runs[k].after().len() == scene.poses.len(),
    decreases k,
{
    assert(follows(numerics, scene, config, size, runs.take(k), runs[k]));
    if k > 0 {
        lemma_run_keeps_length(numerics, scene, config, size, runs, k - 1);
        assert(runs.take(k).last() == runs[k - 1]);
    }
}

/// A refinement has one pose for every frame.
pub proof fn refinement_covers_every_frame<L, W, T, D, R, V, S, P, I, E>(
    numerics: BaNumerics<L, W, T, D, R, V, S, P>,
    scene: Scene,
    config: StereoVoBaConfig,
    refinement: StereoVoBaRefinement<I>,
) where
    L: Fn(&StereoRig, Scalar) -> Scalar,
    W: Fn(&Pose, &Point3) -> Point3,
    T: Fn(&StereoRig, &Vec<PosedView>) -> Option<DltSolution>,
    D: Fn(&Pose, &Point3) -> Scalar,
    R: Fn(&StereoRig, &PosedView, &Point3) -> ViewResidual,
    V: Fn(&Pose, &Pose, &Vec<StereoVoBaImuSample>) -> WindowVelocity,
    S: Fn(&StereoBaProblem) -> Result<BaSolution<I>, E>,
    P: Fn(Scalar, Scalar) -> Scalar,

    requires
        is_full_refinement(numerics, scene, config, Ok::<_, StereoVoBaError<E>>(refinement)),
    ensures
        refinement.refined_poses@.len() == scene.poses.len(),
{
    if let Some(size) = config.window_size {
        let runs = choose|runs: Seq<WindowRun<I, E>>| #[trigger]
            are_runs(numerics, scene, config, size as int, runs) && is_windowed_verdict(
                scene.poses.len() as int,
                runs,
                Ok::<_, StereoVoBaError<E>>(refinement),
            );
        lemma_run_keeps_length(numerics, scene, config, size as int, runs, runs.len() - 1);
    }
}

proof fn lemma_run_keeps_first_pose<L, W, T, D, R, V, S, P, I, E>(
    numerics: BaNumerics<L, W, T, D, R, V, S, P>,
    scene: Scene,
    config: StereoVoBaConfig,
    size: int,
    runs: Seq<WindowRun<I, E>>,
    k: int,
) where
    L: Fn(&StereoRig, Scalar) -> Scalar,
    W: Fn(&Pose, &Point3) -> Point3,
    T: Fn(&StereoRig, &Vec<PosedView>) -> Option<DltSolution>,
    D: Fn(&Pose, &Point3) -> Scalar,
    R: Fn(&StereoRig, &PosedView, &Point3) -> ViewResidual,
    V: Fn(&Pose, &Pose, &Vec<StereoVoBaImuSample>) -> WindowVelocity,
    S: Fn(&StereoBaProblem) -> Result<BaSolution<I>, E>,
    P: Fn(Scalar, Scalar) -> Scalar,

    requires
        are_runs(numerics, scene, config, size, runs),
        scene.poses.len() > 0,
        size > 0,
        0 <= k < runs.len(),
    ensures
        runs[k].start >= 0,
        runs[k].before[0] == scene.poses[0],
        runs[k].after()[0] == scene.poses[0],
    decreases k,
{
    reveal(is_run);
    assert(follows(numerics, scene, config, size, runs.take(k), runs[k]));
    lemma_run_keeps_length(numerics, scene, config, size, runs, k);
    if k > 0 {
        lemma_run_keeps_first_pose(numerics, scene, config, size, runs, k - 1);
        assert(runs.take(k).last() == runs[k - 1]);
        assert(follows(numerics, scene, config, size, runs.take(k - 1), runs[k - 1]));
    }
    let run = runs[k];
    if run.success() is Some && run.start == 0 {
        let refinement = run.success()->0;
        let local = cut(scene, run.before, run.start, run.end);
        let constraints = window_constraints(config, run.start as usize, run.end as usize);
        assert(is_refinement(
            numerics,
            local,
            config,
            constraints,
            Ok::<_, StereoVoBaError<E>>(refinement),
        ));
        held_poses_stay(numerics, local, config, constraints, refinement, 0);
    }
}

/// The poses that a solve holds come out as they went in, whatever the solver reports.
pub proof fn held_poses_stay<L, W, T, D, R, V, S, P, I, E>(
    numerics: BaNumerics<L, W, T, D, R, V, S, P>,
    scene: Scene,
    config: StereoVoBaConfig,
    constraints: Constraints,
    refinement: StereoVoBaRefinement<I>,
    i: int,
) where
    L: Fn(&StereoRig, Scalar) -> Scalar,
    W: Fn(&Pose, &Point3) -> Point3,
    T: Fn(&StereoRig, &Vec<PosedView>) -> Option<DltSolution>,
    D: Fn(&Pose, &Point3) -> Scalar,
    R: Fn(&StereoRig, &PosedView, &Point3) -> ViewResidual,
    V: Fn(&Pose, &Pose, &Vec<StereoVoBaImuSample>) -> WindowVelocity,
    S: Fn(&StereoBaProblem) -> Result<BaSolution<I>, E>,
    P: Fn(Scalar, Scalar) -> Scalar,

    requires
        is_refinement(
            numerics,
            scene,
            config,
            constraints,
            Ok::<_, StereoVoBaError<E>>(refinement),
        ),
        0 <= i < held_poses(constraints.fix_pose_prefix, scene.poses.len() as int),
    ensures
        refinement.refined_poses@.len() == scene.poses.len(),
        i < scene.poses.len() ==> refinement.refined_poses@[i] == scene.poses[i],
{
}

/// The first pose of a trajectory is its anchor: it comes out of a refinement as it went in,
/// in one solve or in windows.
pub proof fn refinement_keeps_the_first_pose<L, W, T, D, R, V, S, P, I, E>(
    numerics: BaNumerics<L, W, T, D, R, V, S, P>,
    scene: Scene,
    config: StereoVoBaConfig,
    refinement: StereoVoBaRefinement<I>,
) where
    L: Fn(&StereoRig, Scalar) -> Scalar,
    W: Fn(&Pose, &Point3) -> Point3,
    T: Fn(&StereoRig, &Vec<PosedView>) -> Option<DltSolution>,
    D: Fn(&Pose, &Point3) -> Scalar,
    R: Fn(&StereoRig, &PosedView, &Point3) -> ViewResidual,
    V: Fn(&Pose, &Pose, &Vec<StereoVoBaImuSample>) -> WindowVelocity,
    S: Fn(&StereoBaProblem) -> Result<BaSolution<I>, E>,
    P: Fn(Scalar, Scalar) -> Scalar,

    requires
        scene.poses.len() > 0,
        is_full_refinement(numerics, scene, config, Ok::<_, StereoVoBaError<E>>(refinement)),
    ensures
        refinement.refined_poses@.len() > 0,
        refinement.refined_poses@[0] == scene.poses[0],
{
    match config.window_size {
        None => {
            held_poses_stay::<L, W, T, D, R, V, S, P, I, E>(
                numerics,
                scene,
                config,
                full_constraints(config),
                refinement,
                0,
            );
        },
        Some(size) => {
            let runs = choose|runs: Seq<WindowRun<I, E>>| #[trigger]
                are_runs(numerics, scene, config, size as int, runs) && is_windowed_verdict(
                    scene.poses.len() as int,
                    runs,
                    Ok::<_, StereoVoBaError<E>>(refinement),
                );
            lemma_run_keeps_length(numerics, scene, config, size as int, runs, runs.len() - 1);
            lemma_run_keeps_first_pose(numerics, scene, config, size as int, runs, runs.len() - 1);
        },
    }
}

/// The windows of a refinement cover the trajectory from its first frame on, and two
/// neighbours share exactly one frame.
pub proof fn windows_share_one_frame<L, W, T, D, R, V, S, P, I, E>(
    numerics: BaNumerics<L, W, T, D, R, V, S, P>,
    scene: Scene,
    config: StereoVoBaConfig,
    size: int,
    runs: Seq<WindowRun<I, E>>,
    k: int,
) where
    L: Fn(&StereoRig, Scalar) -> Scalar,
    W: Fn(&Pose, &Point3) -> Point3,
    T: Fn(&StereoRig, &Vec<PosedView>) -> Option<DltSolution>,
    D: Fn(&Pose, &Point3) -> Scalar,
    R: Fn(&StereoRig, &PosedView, &Point3) -> ViewResidual,
    V: Fn(&Pose, &Pose, &Vec<StereoVoBaImuSample>) -> WindowVelocity,
    S: Fn(&StereoBaProblem) -> Result<BaSolution<I>, E>,
    P: Fn(Scalar, Scalar) -> Scalar,

    requires
        are_runs(numerics, scene, config, size, runs),
        0 <= k < runs.len(),
    ensures
        runs[0].start == 0,
        k > 0 ==> runs[k].start == runs[k - 1].end - 1,
        runs[k].end == window_end(runs[k].start, size, scene.poses.len() as int),
{
    reveal(is_run);
    assert(follows(numerics, scene, config, size, runs.take(0), runs[0]));
    assert(follows(numerics, scene, config, size, runs.take(k), runs[k]));
    if k > 0 {
        assert(runs.take(k).last() == runs[k - 1]);
    }
}

proof fn lemma_accepted_source(verdicts: Seq<Option<LandmarkModel>>, k: int) -> (t: int)
    requires
        0 <= k < accepted(verdicts).len(),
    ensures
        0 <= t < verdicts.len(),
        verdicts[t] == Some(accepted(verdicts)[k]),
    decreases verdicts.len(),
{
    let rest = accepted(verdicts.drop_last());
    if k < rest.len() {
        let t = lemma_accepted_source(verdicts.drop_last(), k);
        assert(verdicts.drop_last()[t] == verdicts[t]);
        t
    } else {
        verdicts.len() - 1
    }
}

proof fn lemma_views_increase(scene: Scene, track: Seq<(usize, usize)>, m: int)
    requires
        0 <= m <= track.len(),
        forall|i: int, j: int|
            0 <= i < j < track.len() ==> (#[trigger] track[i]).0 < (#[trigger] track[j]).0,
    ensures
        forall|i: int, j: int|
            0 <= i < j < scene.track_views(track.take(m)).len() ==> (#[trigger] scene.track_views(
                track.take(m),
            )[i]).frame < (#[trigger] scene.track_views(track.take(m))[j]).frame,
        forall|i: int|
            0 <= i < scene.track_views(track.take(m)).len() ==> exists|s: int|
                0 <= s < m && (#[trigger] track[s]).0 == (#[trigger] scene.track_views(
                    track.take(m),
                )[i]).frame,
    decreases m,
{
    if m > 0 {
        lemma_views_increase(scene, track, m - 1);
        let before = scene.track_views(track.take(m - 1));
        let after = scene.track_views(track.take(m));
        assert(track.take(m).drop_last() =~= track.take(m - 1));
        assert(track.take(m).last() == track[m - 1]);
        assert forall|i: int, j: int| 0 <= i < j < after.len() implies (
        #[trigger] after[i]).frame < (#[trigger] after[j]).frame by {
            assert(after[i] == before[i]);
            if j < before.len() {
                assert(after[j] == before[j]);
            } else {
                let s = choose|s: int| 0 <= s < m - 1 && (#[trigger] track[s]).0 == before[i].frame;
                assert(track[s].0 < track[m - 1].0);
            }
        }
        assert forall|i: int| 0 <= i < after.len() implies exists|s: int|
            0 <= s < m && (#[trigger] track[s]).0 == (#[trigger] after[i]).frame by {
            if i < before.len() {
                assert(after[i] == before[i]);
                let s = choose|s: int| 0 <= s < m - 1 && (#[trigger] track[s]).0 == before[i].frame;
                assert(track[s].0 == after[i].frame);
            } else {
                assert(track[m - 1].0 == after[i].frame);
            }
        }
    }
}

proof fn lemma_linked_frames(
    temporal: Seq<Seq<TemporalMatch>>,
    floor: Option<Scalar>,
    track: Seq<(usize, usize)>,
    i: int,
    j: int,
)
    requires
        is_linked(temporal, floor, track),
        0 <= i <= j < track.len(),
    ensures
        track[j].0 == track[i].0 + (j - i),
    decreases j - i,
{
    if i < j {
        lemma_linked_frames(temporal, floor, track, i, j - 1);
        assert(track[j - 1 + 1].0 == track[j - 1].0 + 1);
    }
}

/// Every landmark is seen in at least as many frames as a track must span, and its views
/// come in the order of their frames, no frame twice.
pub proof fn landmarks_are_seen_in_order<L, W, T, D, R, V, S, P>(
    numerics: BaNumerics<L, W, T, D, R, V, S, P>,
    scene: Scene,
    config: StereoVoBaConfig,
    landmarks: Seq<LandmarkModel>,
    k: int,
) where
    L: Fn(&StereoRig, Scalar) -> Scalar,
    W: Fn(&Pose, &Point3) -> Point3,
    T: Fn(&StereoRig, &Vec<PosedView>) -> Option<DltSolution>,
    D: Fn(&Pose, &Point3) -> Scalar,
    R: Fn(&StereoRig, &PosedView, &Point3) -> ViewResidual,
    V: Fn(&Pose, &Pose, &Vec<StereoVoBaImuSample>) -> WindowVelocity,
    P: Fn(Scalar, Scalar) -> Scalar,

    requires
        scene.left.len() <= usize::MAX,
        forall|f: int| 0 <= f < scene.left.len() ==> (#[trigger] scene.left[f]).len() <= usize::MAX,
        numerics.is_choice(scene, config, landmarks),
        0 <= k < landmarks.len(),
    ensures
        landmarks[k].views.len() >= config.min_track_length,
        forall|i: int, j: int|
            0 <= i < j < landmarks[k].views.len() ==> (#[trigger] landmarks[k].views[i]).frame < (
            #[trigger] landmarks[k].views[j]).frame,
{
    let tracks = scene_tracks(scene, config);
    let (limit, verdicts) = choose|limit: Option<Scalar>, verdicts: Seq<Option<LandmarkModel>>|
        numerics.landmarks.is_row_limit(scene.rig, config.max_seed_row_fraction, limit)
            && #[trigger] numerics.landmarks.are_verdicts(
            scene,
            config.gates(),
            limit,
            tracks,
            verdicts,
        ) && landmarks == accepted(verdicts);
    let t = lemma_accepted_source(verdicts, k);
    assert(numerics.landmarks.is_verdict(scene, config.gates(), limit, tracks[t], verdicts[t]));
    let track = tracks[t];
    assert(landmarks[k].views == scene.track_views(track));
    assert forall|f: int| 0 <= f < scene.counts().len() implies #[trigger] scene.counts()[f]
        <= usize::MAX by {
        assert(scene.counts()[f] == scene.left[f].len());
    }
    tracks_follow_matches(
        scene.temporal,
        config.min_temporal_confidence,
        scene.counts(),
        config.min_track_length,
        t,
    );
    assert forall|i: int, j: int| 0 <= i < j < track.len() implies (#[trigger] track[i]).0 < (
    #[trigger] track[j]).0 by {
        lemma_linked_frames(scene.temporal, config.min_temporal_confidence, track, i, j);
    }
    lemma_views_increase(scene, track, track.len() as int);
    assert(track.take(track.len() as int) =~= track);
}

/// A window's priors are those of its keyframes, in order, with the keyframes counted from
/// its start and everything else as it was.
pub proof fn windows_keep_their_priors(
    positions: Seq<PositionObservation>,
    gravity: Seq<PerPoseGravityObservation>,
    start: usize,
    end: usize,
) -> (at: (Seq<int>, Seq<int>))
    requires
        forall|k: int|
            0 <= k < positions.len() ==> (#[trigger] positions[k]).keyframe_id <= usize::MAX,
        forall|k: int| 0 <= k < gravity.len() ==> (#[trigger] gravity[k]).keyframe_id <= usize::MAX,
    ensures
        lists_kept(
            at.0,
            positions.len(),
            |k: int| start <= positions[k].keyframe_id < end,
        ),
        local_positions(positions, start, end).len() == at.0.len(),
        forall|k: int|
            0 <= k < at.0.len() ==> ({
                let found = local_positions(positions, start, end)[k];
                let observed = positions[#[trigger] at.0[k]];
                &&& found.keyframe_id + start == observed.keyframe_id
                &&& found == (PositionObservation { keyframe_id: found.keyframe_id, ..observed })
            }),
        lists_kept(at.1, gravity.len(), |k: int| start <= gravity[k].keyframe_id < end),
        local_gravity(gravity, start, end).len() == at.1.len(),
        forall|k: int|
            0 <= k < at.1.len() ==> ({
                let found = local_gravity(gravity, start, end)[k];
                let observed = gravity[#[trigger] at.1[k]];
                &&& found.keyframe_id + start == observed.keyframe_id
                &&& found == (PerPoseGravityObservation {
                    keyframe_id: found.keyframe_id,
                    ..observed
                })
            }),
{
    let p = position_in_window(start, end);
    let q = gravity_in_window(start, end);
    let first = lemma_filter_positions(positions, p);
    let second = lemma_filter_positions(gravity, q);
    let kept_first = |k: int| start <= positions[k].keyframe_id < end;
    let kept_second = |k: int| start <= gravity[k].keyframe_id < end;
    assert forall|k: int| 0 <= k < positions.len() implies #[trigger] kept_first(k) == p(
        positions[k],
    ) by {}
    assert forall|k: int| 0 <= k < gravity.len() implies #[trigger] kept_second(k) == q(
        gravity[k],
    ) by {}
    assert forall|k: int| 0 <= k < first.len() implies ({
        let found = local_positions(positions, start, end)[k];
        let observed = positions[#[trigger] first[k]];
        &&& found.keyframe_id + start == observed.keyframe_id
        &&& found == (PositionObservation { keyframe_id: found.keyframe_id, ..observed })
    }) by {
        assert(p(positions[first[k]]));
    }
    assert forall|k: int| 0 <= k < second.len() implies ({
        let found = local_gravity(gravity, start, end)[k];
        let observed = gravity[#[trigger] second[k]];
        &&& found.keyframe_id + start == observed.keyframe_id
        &&& found == (PerPoseGravityObservation { keyframe_id: found.keyframe_id, ..observed })
    }) by {
        assert(q(gravity[second[k]]));
    }
    (first, second)
}

/// How many poses a solve holds: as many as asked for, but at least the first, and never the
/// last one where there is another.
pub proof fn some_pose_is_held_and_some_is_free(prefix: usize, frames: int)
    requires
        frames >= 1,
    ensures
        held_poses(prefix, frames) >= 1,
        frames >= 2 ==> held_poses(prefix, frames) < frames,
        1 <= prefix < frames ==> held_poses(prefix, frames) == prefix,
        prefix >= frames >= 2 ==> held_poses(prefix, frames) == frames - 1,
        prefix == 0 ==> held_poses(prefix, frames) == 1,
{
}

/// A refinement rests on at least one landmark, and on as many as are asked for; every
/// landmark and every view of it counts. A pose that is not held comes from the solver, and
/// stays as it was where the solver gives none.
pub proof fn refinements_rest_on_enough_landmarks<L, W, T, D, R, V, S, P, I, E>(
    numerics: BaNumerics<L, W, T, D, R, V, S, P>,
    scene: Scene,
    config: StereoVoBaConfig,
    constraints: Constraints,
    refinement: StereoVoBaRefinement<I>,
) -> (found: (Seq<LandmarkModel>, BaSolution<I>)) where
    L: Fn(&StereoRig, Scalar) -> Scalar,
    W: Fn(&Pose, &Point3) -> Point3,
    T: Fn(&StereoRig, &Vec<PosedView>) -> Option<DltSolution>,
    D: Fn(&Pose, &Point3) -> Scalar,
    R: Fn(&StereoRig, &PosedView, &Point3) -> ViewResidual,
    V: Fn(&Pose, &Pose, &Vec<StereoVoBaImuSample>) -> WindowVelocity,
    S: Fn(&StereoBaProblem) -> Result<BaSolution<I>, E>,
    P: Fn(Scalar, Scalar) -> Scalar,

    requires
        is_refinement(
            numerics,
            scene,
            config,
            constraints,
            Ok::<_, StereoVoBaError<E>>(refinement),
        ),
    ensures
        ({
            let (landmarks, solution) = found;
            &&& numerics.is_choice(scene, config, landmarks)
            &&& refinement.track_count == landmarks.len()
            &&& refinement.observation_count == all_observations(landmarks).len()
            &&& landmarks.len() > 0
            &&& config.min_track_count matches Some(least) ==> landmarks.len() >= least
            &&& refinement.ba_result == solution.result
            &&& refinement.imu_refinement is Some <==> constraints.imu is Some
            &&& exists|problem: StereoBaProblem|
                {
                    &&& #[trigger] call_ensures(numerics.solve, (&problem,), Ok::<_, E>(solution))
                    &&& problem.rig == scene.rig
                    &&& problem.poses@ == scene.poses
                    &&& problem.fixed_prefix == held_poses(
                        constraints.fix_pose_prefix,
                        scene.poses.len() as int,
                    )
                    &&& problem.landmarks@.len() == landmarks.len()
                    &&& problem.observations@ == all_observations(landmarks)
                    &&& problem.gravity_prior == constraints.gravity
                    &&& problem.imu is Some <==> constraints.imu is Some
                    &&& problem.ba_config == config.ba_config
                }
            &&& forall|i: int|
                held_poses(constraints.fix_pose_prefix, scene.poses.len() as int) <= i
                    < scene.poses.len() ==> {
                    let pose = #[trigger] refinement.refined_poses@[i];
                    &&& i < solution.poses@.len() && solution.poses@[i] is Some
                        ==> solution.poses@[i] == Some(pose)
                    &&& i >= solution.poses@.len() || solution.poses@[i] is None ==> pose
                        == scene.poses[i]
                }
        }),
{
    let outcome = choose|
        outcome: Result<(Seq<LandmarkModel>, BaSolution<I>), StereoVoBaError<E>>,
    | #[trigger]
        is_solved(numerics, scene, config, constraints, outcome) && (match outcome {
            Ok((landmarks, solution)) => is_packed(
                scene,
                held_poses(constraints.fix_pose_prefix, scene.poses.len() as int),
                constraints.imu,
                landmarks,
                solution,
                refinement,
            ),
            Err(error) => false,
        });
    let (landmarks, solution) = outcome->Ok_0;
    let chosen = choose|chosen: Seq<LandmarkModel>| #[trigger]
        numerics.is_choice(scene, config, chosen) && (match too_few::<E>(
            chosen.len(),
            config.min_track_count,
        ) {
            Some(error) => outcome == Err::<(Seq<LandmarkModel>, BaSolution<I>), _>(error),
            None => exists|problem: StereoBaProblem, answer: Result<BaSolution<I>, E>|
                is_problem(
                    numerics.velocity,
                    scene,
                    config.ba_config,
                    constraints,
                    chosen,
                    problem,
                ) && #[trigger] call_ensures(numerics.solve, (&problem,), answer) && outcome == (
                match answer {
                    Ok(solution) => Ok::<_, StereoVoBaError<E>>((chosen, solution)),
                    Err(error) => Err::<(Seq<LandmarkModel>, BaSolution<I>), _>(
                        StereoVoBaError::Ba(error),
                    ),
                }),
        });
    let (problem, answer) = choose|problem: StereoBaProblem, answer: Result<BaSolution<I>, E>|
        is_problem(
            numerics.velocity,
            scene,
            config.ba_config,
            constraints,
            chosen,
            problem,
        ) && #[trigger] call_ensures(numerics.solve, (&problem,), answer) && outcome == (
        match answer {
            Ok(solution) => Ok::<_, StereoVoBaError<E>>((chosen, solution)),
            Err(error) => Err::<(Seq<LandmarkModel>, BaSolution<I>), _>(
                StereoVoBaError::Ba(error),
            ),
        });
    assert(landmark_models(problem.landmarks@).len() == problem.landmarks@.len());
    assert(call_ensures(numerics.solve, (&problem,), Ok::<_, E>(solution)));
    (landmarks, solution)
}

/// A refinement is refused for its landmarks exactly where there is none, or fewer than
/// asked for; the refusal then gives the two numbers.
pub proof fn too_few_landmarks_are_refused<L, W, T, D, R, V, S, P, I, E>(
    numerics: BaNumerics<L, W, T, D, R, V, S, P>,
    scene: Scene,
    config: StereoVoBaConfig,
    constraints: Constraints,
    outcome: Result<(Seq<LandmarkModel>, BaSolution<I>), StereoVoBaError<E>>,
) -> (landmarks: Seq<LandmarkModel>) where
    L: Fn(&StereoRig, Scalar) -> Scalar,
    W: Fn(&Pose, &Point3) -> Point3,
    T: Fn(&StereoRig, &Vec<PosedView>) -> Option<DltSolution>,
    D: Fn(&Pose, &Point3) -> Scalar,
    R: Fn(&StereoRig, &PosedView, &Point3) -> ViewResidual,
    V: Fn(&Pose, &Pose, &Vec<StereoVoBaImuSample>) -> WindowVelocity,
    S: Fn(&StereoBaProblem) -> Result<BaSolution<I>, E>,
    P: Fn(Scalar, Scalar) -> Scalar,

    requires
        is_solved(numerics, scene, config, constraints, outcome),
    ensures
        numerics.is_choice(scene, config, landmarks),
        landmarks.len() == 0 <==> outcome == Err::<(Seq<LandmarkModel>, BaSolution<I>), _>(
            StereoVoBaError::<E>::NoLongTracks,
        ),
        (outcome matches Err(StereoVoBaError::InsufficientTracks { count, required }) ==> {
            &&& config.min_track_count == Some(required)
            &&& landmarks.len() < required
            &&& count == landmarks.len() as usize
        }),
        landmarks.len() > 0 && (config.min_track_count matches Some(least) && landmarks.len()
            < least) ==> outcome matches Err(StereoVoBaError::InsufficientTracks { .. }),
{
    choose|landmarks: Seq<LandmarkModel>| #[trigger]
        numerics.is_choice(scene, config, landmarks) && (match too_few::<E>(
            landmarks.len(),
            config.min_track_count,
        ) {
            Some(error) => outcome == Err::<(Seq<LandmarkModel>, BaSolution<I>), _>(error),
            None => exists|problem: StereoBaProblem, answer: Result<BaSolution<I>, E>|
                is_problem(
                    numerics.velocity,
                    scene,
                    config.ba_config,
                    constraints,
                    landmarks,
                    problem,
                ) && #[trigger] call_ensures(numerics.solve, (&problem,), answer) && outcome == (
                match answer {
                    Ok(solution) => Ok::<_, StereoVoBaError<E>>((landmarks, solution)),
                    Err(error) => Err::<(Seq<LandmarkModel>, BaSolution<I>), _>(
                        StereoVoBaError::Ba(error),
                    ),
                }),
        })
}

/// What a window does: it spans as many frames as the size says, or as are left; one that is
/// too short for a track is passed over; one that is refined replaces exactly its own poses;
/// one that finds too few tracks changes nothing; and only another failure ends the run. The
/// costs add up over the windows that were refined.
pub proof fn windows_replace_their_own_poses<L, W, T, D, R, V, S, P, I, E>(
    numerics: BaNumerics<L, W, T, D, R, V, S, P>,
    scene: Scene,
    config: StereoVoBaConfig,
    size: int,
    initial_cost: Scalar,
    final_cost: Scalar,
    run: WindowRun<I, E>,
    i: int,
) where
    L: Fn(&StereoRig, Scalar) -> Scalar,
    W: Fn(&Pose, &Point3) -> Point3,
    T: Fn(&StereoRig, &Vec<PosedView>) -> Option<DltSolution>,
    D: Fn(&Pose, &Point3) -> Scalar,
    R: Fn(&StereoRig, &PosedView, &Point3) -> ViewResidual,
    V: Fn(&Pose, &Pose, &Vec<StereoVoBaImuSample>) -> WindowVelocity,
    S: Fn(&StereoBaProblem) -> Result<BaSolution<I>, E>,
    P: Fn(Scalar, Scalar) -> Scalar,

    requires
        is_run(numerics, scene, config, size, initial_cost, final_cost, run),
        run.before.len() == scene.poses.len(),
        0 <= run.start,
        0 <= i < scene.poses.len(),
    ensures
        run.end <= run.start + size,
        run.end <= scene.poses.len(),
        run.end == run.start + size || run.end == scene.poses.len(),
        run.outcome is None <==> run.end - run.start < config.min_track_length,
        run.after().len() == scene.poses.len(),
        (run.outcome matches Some(Ok(refinement)) ==> {
            &&& run.start <= i < run.start + refinement.refined_poses@.len() ==> run.after()[i]
                == refinement.refined_poses@[i - run.start]
            &&& i < run.start || i >= run.start + refinement.refined_poses@.len()
                ==> run.after()[i] == run.before[i]
            &&& call_ensures(
                numerics.plus,
                (initial_cost, refinement.ba_result.initial_cost),
                run.initial_cost,
            )
            &&& call_ensures(
                numerics.plus,
                (final_cost, refinement.ba_result.final_cost),
                run.final_cost,
            )
        }),
        !(run.outcome matches Some(Ok(refinement))) ==> run.after()[i] == run.before[i]
            && run.initial_cost == initial_cost && run.final_cost == final_cost,
        run.failure() is Some <==> (run.outcome matches Some(Err(error)) && !(
        error is InsufficientTracks) && !(error is NoLongTracks)),
        run.failure() matches Some(error) ==> run.outcome matches Some(Err(reported)) && reported
            == error,
{
    reveal(is_run);
}

/// The windows' counts add up: those that were refined contribute their tracks, their
/// observations and their iterations, in order; and all of them must have converged.
pub proof fn windows_add_up<I, E>(runs: Seq<WindowRun<I, E>>, run: WindowRun<I, E>)
    ensures
        total_tracks(Seq::<WindowRun<I, E>>::empty()) == 0,
        total_observations(Seq::<WindowRun<I, E>>::empty()) == 0,
        all_iterations(Seq::<WindowRun<I, E>>::empty()).len() == 0,
        all_converged(Seq::<WindowRun<I, E>>::empty()),
        (run.outcome matches Some(Ok(refinement)) ==> {
            &&& total_tracks(runs.push(run)) == total_tracks(runs) + refinement.track_count
            &&& total_observations(runs.push(run)) == total_observations(runs)
                + refinement.observation_count
            &&& all_iterations(runs.push(run)) == all_iterations(runs)
                + refinement.ba_result.iterations@
            &&& all_converged(runs.push(run)) == (all_converged(runs)
                && refinement.ba_result.converged)
        }),
        !(run.outcome matches Some(Ok(refinement))) ==> {
            &&& total_tracks(runs.push(run)) == total_tracks(runs)
            &&& total_observations(runs.push(run)) == total_observations(runs)
            &&& all_iterations(runs.push(run)) == all_iterations(runs)
            &&& all_converged(runs.push(run)) == all_converged(runs)
        },
{
    assert(runs.push(run).drop_last() =~= runs);
}

/// A windowed refinement reaches the last frame, has a track, and sums its windows up; it
/// fails as the window that failed, and without any track as a whole.
pub proof fn windowed_refinements_reach_the_end<I, E>(
    frames: int,
    runs: Seq<WindowRun<I, E>>,
    result: Result<StereoVoBaRefinement<I>, StereoVoBaError<E>>,
)
    requires
        is_windowed_verdict(frames, runs, result),
    ensures
        runs.len() > 0,
        (result matches Ok(refinement) ==> {
            &&& runs.last().failure() is None
            &&& runs.last().end == frames
            &&& refinement.track_count == total_tracks(runs)
            &&& refinement.track_count > 0 || total_tracks(runs) < 0
            &&& refinement.observation_count == total_observations(runs)
            &&& refinement.refined_poses@ == runs.last().after()
            &&& refinement.ba_result.initial_cost == runs.last().initial_cost
            &&& refinement.ba_result.final_cost == runs.last().final_cost
            &&& refinement.ba_result.iterations@ == all_iterations(runs)
            &&& refinement.ba_result.converged == all_converged(runs)
            &&& refinement.imu_refinement is None
        }),
        (result matches Err(error) ==> {
            ||| runs.last().outcome matches Some(Err(reported)) && reported == error
            ||| error is NoLongTracks && total_tracks(runs) == 0 && runs.last().end == frames
        }),
{
}

/// What a window is solved under: the priors of its own keyframes and what holds for all of
/// them, but no inertial measurements. A reconstruction is solved under none of these.
pub proof fn windows_are_solved_without_inertia(config: StereoVoBaConfig, start: usize, end: usize)
    ensures
        ({
            let found = window_constraints(config, start, end);
            &&& found.imu is None
            &&& found.fix_pose_prefix == config.fix_pose_prefix
            &&& found.gravity == config.gravity_prior
            &&& found.positions == match config.position_prior {
                Some(prior) => Some(local_positions(prior.observations@, start, end)),
                None => None,
            }
            &&& found.per_pose_gravity == match config.per_pose_gravity_prior {
                Some(prior) => Some(
                    GravityModel {
                        g_world: prior.g_world,
                        weight: prior.weight,
                        observations: local_gravity(prior.observations@, start, end),
                    },
                ),
                None => None,
            }
        }),
        full_constraints(config).imu == config.imu_input,
        full_constraints(config).fix_pose_prefix == config.fix_pose_prefix,
        full_constraints(config).gravity == config.gravity_prior,
        visual_constraints().fix_pose_prefix == 1,
        visual_constraints().imu is None && visual_constraints().gravity is None
            && visual_constraints().positions is None
            && visual_constraints().per_pose_gravity is None,
{
}

/// The part of a scene that a window sees: its frames, and the matches between them.
pub proof fn windows_see_their_own_frames(
    scene: Scene,
    poses: Seq<Pose>,
    start: int,
    end: int,
    i: int,
)
    requires
        scene.is_complete(),
        poses.len() == scene.poses.len(),
        0 <= start < end <= poses.len(),
        0 <= i < end - start,
    ensures
        cut(scene, poses, start, end).is_complete(),
        cut(scene, poses, start, end).rig == scene.rig,
        cut(scene, poses, start, end).poses.len() == end - start,
        cut(scene, poses, start, end).poses[i] == poses[start + i],
        cut(scene, poses, start, end).left[i] == scene.left[start + i],
        cut(scene, poses, start, end).right[i] == scene.right[start + i],
        cut(scene, poses, start, end).stereo[i] == scene.stereo[start + i],
        i < end - start - 1 ==> cut(scene, poses, start, end).temporal[i] == scene.temporal[start
            + i],
{
}

/// What is refused before anything is refined: too few frames for a track, or for a pair;
/// lists of different lengths; inertial measurements that do not fit; and windows that are
/// too short. Nothing else is.
pub proof fn inputs_are_refused_for_a_reason<E>(scene: Scene, config: StereoVoBaConfig)
    ensures
        ({
            let frames = scene.poses.len();
            let enough = frames >= 2 && frames >= config.min_track_length;
            let complete = scene.left.len() == frames && scene.right.len() == frames
                && scene.stereo.len() == frames && scene.temporal.len() == frames - 1;
            let imu_fits = config.imu_input matches Some(input) ==> {
                &&& input.windows@.len() == frames - 1
                &&& config.window_size is None
                &&& forall|w: int, k: int|
                    #![trigger input.windows@[w]@[k]]
                    0 <= w < input.windows@.len() && 0 <= k < input.windows@[w]@.len()
                        ==> input.windows@[w]@[k].dt.is_finite() && Scalar::zero().lt(
                        input.windows@[w]@[k].dt,
                    )
            };
            let windows_fit = config.window_size matches Some(size) ==> size >= 2 && size
                >= config.min_track_length;
            &&& input_problem::<E>(scene, config) is None <==> enough && complete && imu_fits
                && windows_fit
            &&& !enough ==> input_problem::<E>(scene, config) == Some(
                StereoVoBaError::<E>::TooFewFrames(frames as usize),
            )
            &&& enough && !complete ==> input_problem::<E>(scene, config) == Some(
                StereoVoBaError::<E>::InputLengthMismatch,
            )
            &&& enough && complete && !imu_fits ==> (input_problem::<E>(
                scene,
                config,
            ) matches Some(StereoVoBaError::InvalidImuInput { .. }))
            &&& enough && complete && imu_fits && !windows_fit ==> input_problem::<E>(scene, config)
                == Some(StereoVoBaError::<E>::TooFewFrames(config.window_size->0))
        }),
{
    if let Some(input) = config.imu_input {
        lemma_first_bad_window(input.windows@, 0);
        assert(input.windows.len() == input.windows@.len());
    }
}

proof fn lemma_first_bad_window(windows: Seq<Vec<StereoVoBaImuSample>>, start: int)
    requires
        0 <= start <= windows.len(),
    ensures
        first_bad_window(windows, start) is None <==> forall|w: int, k: int|
            #![trigger windows[w]@[k]]
            start <= w < windows.len() && 0 <= k < windows[w]@.len()
                ==> windows[w]@[k].dt.is_finite() && Scalar::zero().lt(windows[w]@[k].dt),
    decreases windows.len() - start,
{
    if start < windows.len() {
        lemma_first_bad_window(windows, start + 1);
        lemma_first_bad_sample(windows[start]@, 0);
        if first_bad_sample(windows[start]@, 0) is None {
            assert forall|k: int| 0 <= k < windows[start]@.len() implies (
            #[trigger] windows[start]@[k]).dt.is_finite() && Scalar::zero().lt(
                windows[start]@[k].dt,
            ) by {}
        }
    }
}

proof fn lemma_first_bad_sample(samples: Seq<StereoVoBaImuSample>, start: int)
    requires
        0 <= start <= samples.len(),
    ensures
        first_bad_sample(samples, start) matches Some(k) ==> start <= k < samples.len() && !(
        samples[k].dt.is_finite() && Scalar::zero().lt(samples[k].dt)) && forall|j: int|
            start <= j < k ==> (#[trigger] samples[j]).dt.is_finite() && Scalar::zero().lt(
                samples[j].dt,
            ),
        first_bad_sample(samples, start) is None ==> forall|j: int|
            start <= j < samples.len() ==> (#[trigger] samples[j]).dt.is_finite()
                && Scalar::zero().lt(samples[j].dt),
    decreases samples.len() - start,
{
    if start < samples.len() {
        lemma_first_bad_sample(samples, start + 1);
    }
}

/// An inertial problem names what is wrong: the number of windows, a sliding window, or the
/// first sample whose duration is not finite and positive.
pub proof fn imu_problems_name_the_first_bad_sample(
    input: StereoVoBaImuInput,
    frames: int,
    window_size: Option<usize>,
    problem: ImuInputProblem,
)
    requires
        imu_problem(input, frames, window_size) == Some(problem),
        1 <= frames <= usize::MAX,
    ensures
        (problem matches ImuInputProblem::WindowCount { windows, expected } ==> windows
            == input.windows@.len() && expected == frames - 1 && windows != expected),
        problem is SlidingWindow ==> window_size is Some && input.windows@.len() == frames - 1,
        (problem matches ImuInputProblem::BadDuration { window, sample, dt } ==> {
            &&& window < input.windows@.len()
            &&& sample < input.windows@[window as int]@.len()
            &&& dt == input.windows@[window as int]@[sample as int].dt
            &&& !(dt.is_finite() && Scalar::zero().lt(dt))
        }),
{
    if input.windows.len() == frames - 1 && window_size is None {
        lemma_bad_window_names(input.windows@, 0);
        assert(input.windows.len() == input.windows@.len());
    }
}

proof fn lemma_bad_window_names(windows: Seq<Vec<StereoVoBaImuSample>>, start: int)
    requires
        0 <= start <= windows.len() <= usize::MAX,
    ensures
        first_bad_window(windows, start) matches Some(problem) ==> (
        problem matches ImuInputProblem::BadDuration { window, sample, dt } && {
            &&& start <= window < windows.len()
            &&& sample < windows[window as int]@.len()
            &&& dt == windows[window as int]@[sample as int].dt
            &&& !(dt.is_finite() && Scalar::zero().lt(dt))
        }),
    decreases windows.len() - start,
{
    if start < windows.len() {
        lemma_bad_window_names(windows, start + 1);
        lemma_first_bad_sample(windows[start]@, 0);
        assert(windows[start].len() == windows[start]@.len());
    }
}

/// The values that are there, in order.
pub proof fn values_skip_what_is_missing<A>(options: Seq<Option<A>>) -> (at: Seq<int>)
    ensures
        lists_kept(at, options.len(), |k: int| options[k] is Some),
        values(options).len() == at.len(),
        forall|k: int| 0 <= k < at.len() ==> options[#[trigger] at[k]] == Some(values(options)[k]),
    decreases options.len(),
{
    let kept = |k: int| options[k] is Some;
    if options.len() == 0 {
        Seq::empty()
    } else {
        let rest = options.drop_last();
        let n = rest.len() as int;
        let before = values_skip_what_is_missing(rest);
        let kept_before = |k: int| rest[k] is Some;
        assert forall|k: int| 0 <= k < n implies #[trigger] kept(k) == kept_before(k) by {}
        assert(lists_kept(before, rest.len(), kept));
        crate::sequences::lemma_lists_one_more(before, rest.len(), kept);
        assert forall|k: int| 0 <= k < before.len() implies rest[#[trigger] before[k]]
            == options[before[k]] by {}
        if options[n] is Some {
            assert(kept(n));
            let at = before.push(n);
            assert(at.last() == n);
            at
        } else {
            before
        }
    }
}

/// An observation contributes its pixel error exactly where its pose and its point are known
/// and the point is not behind the camera.
pub proof fn points_behind_the_camera_contribute_nothing<X>(
    pixel_error: X,
    rig: StereoRig,
    poses: Seq<Option<Pose>>,
    landmarks: Seq<Option<Point3>>,
    observed: StereoObservation,
    contribution: Option<Scalar>,
) where X: Fn(&StereoRig, &Pose, &Point3, &StereoObservation) -> PixelError
    requires
        is_contribution(pixel_error, rig, poses, landmarks, observed, contribution),
        observed.keyframe_id < poses.len() <= usize::MAX,
        observed.landmark_id < landmarks.len() <= usize::MAX,
    ensures
        poses[observed.keyframe_id as int] is None || landmarks[observed.landmark_id as int] is None
            ==> contribution is None,
        poses[observed.keyframe_id as int] matches Some(pose) ==> (
        landmarks[observed.landmark_id as int] matches Some(point) ==> exists|projected: PixelError|
            {
                &&& #[trigger] call_ensures(
                    pixel_error,
                    (&rig, &pose, &point, &observed),
                    projected,
                )
                &&& projected.depth.le(Scalar::zero()) ==> contribution is None
                &&& !projected.depth.le(Scalar::zero()) ==> contribution == Some(projected.error)
            }),
{
}

/// A mean over no contribution is not a number.
pub proof fn empty_means_are_not_numbers<X, M>(
    pixel_error: X,
    mean: M,
    rig: StereoRig,
    poses: Seq<Option<Pose>>,
    landmarks: Seq<Option<Point3>>,
    observations: Seq<StereoObservation>,
    mean_px: Scalar,
) where
    X: Fn(&StereoRig, &Pose, &Point3, &StereoObservation) -> PixelError,
    M: Fn(&Vec<Scalar>) -> Scalar,

    requires
        is_mean_reprojection(pixel_error, mean, rig, poses, landmarks, observations, mean_px),
    ensures
        rig.intrinsics is None || observations.len() == 0 ==> mean_px.is_nan(),
        !mean_px.is_nan() ==> exists|list: Vec<Scalar>|
            0 < list@.len() <= observations.len() && #[trigger] call_ensures(
                mean,
                (&list,),
                mean_px,
            ),
{
    if rig.intrinsics is Some {
        let contributions = choose|contributions: Seq<Option<Scalar>>| #[trigger]
            are_contributions(pixel_error, rig, poses, landmarks, observations, contributions)
                && (if values(contributions).len() == 0 {
                mean_px.bits == NAN_BITS
            } else {
                exists|list: Vec<Scalar>|
                    list@ == values(contributions) && #[trigger] call_ensures(
                        mean,
                        (&list,),
                        mean_px,
                    )
            });
        lemma_values_bound(contributions);
    }
}

proof fn lemma_values_bound<A>(options: Seq<Option<A>>)
    ensures
        values(options).len() <= options.len(),
    decreases options.len(),
{
    if options.len() > 0 {
        lemma_values_bound(options.drop_last());
    }
}

/// The reconstructed landmarks are those whose position was solved, in order, each with the
/// keypoints of its left views.
pub proof fn solved_landmarks_are_reconstructed(
    landmarks: Seq<LandmarkModel>,
    solved: Seq<Option<Point3>>,
) -> (at: Seq<int>)
    ensures
        lists_kept(at, landmarks.len(), |l: int| l < solved.len() && solved[l] is Some),
        reconstructed(landmarks, solved).len() == at.len(),
        forall|k: int|
            0 <= k < at.len() ==> ({
                let found = reconstructed(landmarks, solved)[k];
                let l = #[trigger] at[k];
                &&& solved[l] == Some(found.position)
                &&& found.observations.len() == landmarks[l].views.len()
                &&& forall|v: int|
                    0 <= v < landmarks[l].views.len() ==> #[trigger] found.observations[v] == (
                        landmarks[l].views[v].frame,
                        landmarks[l].views[v].left_index,
                        landmarks[l].views[v].left,
                    )
            }),
    decreases landmarks.len(),
{
    let kept = |l: int| l < solved.len() && solved[l] is Some;
    if landmarks.len() == 0 {
        Seq::empty()
    } else {
        let rest = landmarks.drop_last();
        let n = rest.len() as int;
        let before = solved_landmarks_are_reconstructed(rest, solved);
        assert(lists_kept(before, rest.len(), kept));
        crate::sequences::lemma_lists_one_more(before, rest.len(), kept);
        assert forall|k: int| 0 <= k < before.len() implies rest[#[trigger] before[k]]
            == landmarks[before[k]] by {}
        if kept(n) {
            let at = before.push(n);
            assert(at.last() == n);
            at
        } else {
            before
        }
    }
}

/// The first window starts from the poses that were given, and each other one from those
/// that the window before it left, at the last frame of that window.
pub proof fn windows_continue_where_the_last_one_ended<L, W, T, D, R, V, S, P, I, E>(
    numerics: BaNumerics<L, W, T, D, R, V, S, P>,
    scene: Scene,
    config: StereoVoBaConfig,
    size: int,
    runs: Seq<WindowRun<I, E>>,
    k: int,
) where
    L: Fn(&StereoRig, Scalar) -> Scalar,
    W: Fn(&Pose, &Point3) -> Point3,
    T: Fn(&StereoRig, &Vec<PosedView>) -> Option<DltSolution>,
    D: Fn(&Pose, &Point3) -> Scalar,
    R: Fn(&StereoRig, &PosedView, &Point3) -> ViewResidual,
    V: Fn(&Pose, &Pose, &Vec<StereoVoBaImuSample>) -> WindowVelocity,
    S: Fn(&StereoBaProblem) -> Result<BaSolution<I>, E>,
    P: Fn(Scalar, Scalar) -> Scalar,

    requires
        are_runs(numerics, scene, config, size, runs),
        0 <= k < runs.len(),
    ensures
        k == 0 ==> runs[k].before == scene.poses && runs[k].start == 0,
        k > 0 ==> runs[k].before == runs[k - 1].after() && runs[k].start + 1 == runs[k - 1].end
            && runs[k - 1].failure() is None && runs[k - 1].end < scene.poses.len(),
        is_run(
            numerics,
            scene,
            config,
            size,
            if k == 0 {
                Scalar::zero()
            } else {
                runs[k - 1].initial_cost
            },
            if k == 0 {
                Scalar::zero()
            } else {
                runs[k - 1].final_cost
            },
            runs[k],
        ),
{
    assert(follows(numerics, scene, config, size, runs.take(k), runs[k]));
    if k > 0 {
        assert(runs.take(k).last() == runs[k - 1]);
    }
}

} // verus!
