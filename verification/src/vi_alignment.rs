//! Alignment of inertial measurements with fixed visual poses: the direction of gravity
//! with the keyframe velocities, and the gyroscope bias.
//!
//! Which keyframes and factors take part, when an estimate is degenerate, and when an
//! iteration stops is decided here. The linear systems are the caller's.
use crate::geometry::{Point3, Pose};
use crate::scalar::Scalar;
use crate::sequences::{
    contains_id, indices_where, last_ids, last_n, lemma_filter_take, lemma_indices_where,
    lemma_sorted_set_of, lemma_take_all, sorted_set, sorted_set_of, strictly_increasing,
};
use std::collections::BTreeMap;
use vstd::prelude::*;

verus! {

/// A preintegrated measurement between two keyframes, as far as it is decided upon: its
/// place in the caller's list stands for the rest.
#[derive(Clone, Copy, Debug, PartialEq, Eq, Structural)]
pub struct ImuFactor {
    pub keyframe_id_from: u64,
    pub keyframe_id_to: u64,
    /// Integrated time in seconds.
    pub delta_time: Scalar,
    pub gravity_world: Point3,
}

/// The most recent keyframes that take part in an alignment.
pub const MAX_ALIGNMENT_WINDOW: usize = 10;

/// Iterations of the refinement on the sphere of gravity vectors.
pub const REFINEMENT_ITERATIONS: usize = 4;

/// Most iterations for the gyroscope bias.
pub const MAX_GYRO_ITERATIONS: usize = 5;

/// The least norm of a gravity estimate: `1e-6`.
pub const MIN_GRAVITY_BITS: u64 = 0x3EB0_C6F7_A0B5_ED8D;

/// The least norm of a refined direction before it is normalised: `1e-9`.
pub const MIN_DIRECTION_BITS: u64 = 0x3E11_2E0B_E826_D695;

/// A bias step below this norm ends the iteration: `1e-10`.
pub const CONVERGED_STEP_BITS: u64 = 0x3DDB_7CDF_D9D7_BDBB;

/// The poses of the keyframes by id; a keyframe may be known without a pose.
pub type KeyframePoses = BTreeMap<u64, Option<Pose>>;

/// The pose of a keyframe, if it is known and has one.
pub open spec fn pose_of(poses: Map<u64, Option<Pose>>, id: u64) -> Option<Pose> {
    if poses.contains_key(id) {
        poses[id]
    } else {
        None
    }
}

/// The pose of a keyframe, if it is known and has one.
pub fn find_pose(poses: &KeyframePoses, id: u64) -> (pose: Option<Pose>)
    ensures
        pose == pose_of(poses@, id),
{
    broadcast use vstd::std_specs::btree::group_btree_axioms;

    match poses.get(&id) {
        Some(known) => *known,
        None => None,
    }
}

/// The keyframes that take part: the most recent ones by id, each once.
pub open spec fn alignment_window(keyframe_ids: Seq<u64>) -> Seq<u64> {
    last_n(sorted_set_of(keyframe_ids), MAX_ALIGNMENT_WINDOW as int)
}

/// Whether a factor connects two of the keyframes.
pub open spec fn connects(factor: ImuFactor, window: Seq<u64>) -> bool {
    window.contains(factor.keyframe_id_from) && window.contains(factor.keyframe_id_to)
}

/// Whether a factor connects two of the keyframes over a positive time.
pub open spec fn is_timed(factors: Seq<ImuFactor>, window: Seq<u64>) -> spec_fn(int) -> bool {
    |k: int| connects(factors[k], window) && Scalar::zero().lt(factors[k].delta_time)
}

/// The factors that take part in a gravity alignment, by their places.
pub open spec fn timed_factors(factors: Seq<ImuFactor>, window: Seq<u64>) -> Seq<usize> {
    indices_where(factors.len(), is_timed(factors, window))
}

/// Whether a factor connects two of the keyframes, and not over zero or negative time.
pub open spec fn is_turning(factors: Seq<ImuFactor>, window: Seq<u64>) -> spec_fn(int) -> bool {
    |k: int| connects(factors[k], window) && !factors[k].delta_time.le(Scalar::zero())
}

/// The factors that take part in a rotation alignment, by their places.
pub open spec fn turning_factors(factors: Seq<ImuFactor>, window: Seq<u64>) -> Seq<usize> {
    indices_where(factors.len(), is_turning(factors, window))
}

/// What an alignment is computed from: keyframes with their world-to-body poses, the
/// factors by their places, and the biases to correct them with.
#[derive(Clone, Debug, PartialEq, Eq)]
pub struct AlignmentTask {
    pub keyframe_ids: Vec<u64>,
    pub poses: Vec<Pose>,
    pub factors: Vec<usize>,
    pub bias_gyro: Point3,
    pub bias_acc: Point3,
}

/// Every keyframe of the window has a pose.
pub open spec fn all_posed(poses: Map<u64, Option<Pose>>, window: Seq<u64>) -> bool {
    forall|k: int| 0 <= k < window.len() ==> pose_of(poses, #[trigger] window[k]) is Some
}

/// Whether there is enough to align: two keyframes, all with poses, and two factors over
/// positive times.
pub open spec fn can_align(
    poses: Map<u64, Option<Pose>>,
    keyframe_ids: Seq<u64>,
    factors: Seq<ImuFactor>,
) -> bool {
    let window = alignment_window(keyframe_ids);
    window.len() >= 2 && all_posed(poses, window) && timed_factors(factors, window).len() >= 2
}

/// The task of an alignment.
pub open spec fn is_alignment_task(
    poses: Map<u64, Option<Pose>>,
    keyframe_ids: Seq<u64>,
    factors: Seq<ImuFactor>,
    bias_gyro: Point3,
    bias_acc: Point3,
    task: AlignmentTask,
) -> bool {
    let window = alignment_window(keyframe_ids);
    &&& task.keyframe_ids@ == window
    &&& task.poses@ == window.map_values(|id: u64| pose_of(poses, id)->0)
    &&& task.factors@ == timed_factors(factors, window)
    &&& task.bias_gyro == bias_gyro
    &&& task.bias_acc == bias_acc
}

fn does_connect(factor: &ImuFactor, window: &Vec<u64>) -> (inside: bool)
    ensures
        inside == connects(*factor, window@),
{
    contains_id(window.as_slice(), factor.keyframe_id_from) && contains_id(
        window.as_slice(),
        factor.keyframe_id_to,
    )
}

fn select_timed(factors: &[ImuFactor], window: &Vec<u64>) -> (used: Vec<usize>)
    ensures
        used@ == timed_factors(factors@, window@),
{
    let mut used: Vec<usize> = Vec::new();
    let mut f: usize = 0;
    while f < factors.len()
        invariant
            f <= factors@.len(),
            used@ == indices_where(f as nat, is_timed(factors@, window@)),
        decreases factors@.len() - f,
    {
        if does_connect(&factors[f], window) && Scalar::zero().lt(factors[f].delta_time) {
            used.push(f);
        }
        f += 1;
    }
    used
}

fn select_turning(factors: &[ImuFactor], window: &Vec<u64>) -> (used: Vec<usize>)
    ensures
        used@ == turning_factors(factors@, window@),
{
    let mut used: Vec<usize> = Vec::new();
    let mut f: usize = 0;
    while f < factors.len()
        invariant
            f <= factors@.len(),
            used@ == indices_where(f as nat, is_turning(factors@, window@)),
        decreases factors@.len() - f,
    {
        if does_connect(&factors[f], window) && !factors[f].delta_time.le(Scalar::zero()) {
            used.push(f);
        }
        f += 1;
    }
    used
}

/// Prepares an alignment; nothing where there is not enough to align.
pub fn prepare_alignment(
    poses: &KeyframePoses,
    keyframe_ids: &[u64],
    factors: &[ImuFactor],
    bias_gyro: Point3,
    bias_acc: Point3,
) -> (task: Option<AlignmentTask>)
    ensures
        task is Some <==> can_align(poses@, keyframe_ids@, factors@),
        task matches Some(made) ==> is_alignment_task(
            poses@,
            keyframe_ids@,
            factors@,
            bias_gyro,
            bias_acc,
            made,
        ),
{
    let sorted = sorted_set(keyframe_ids);
    let window = last_ids(sorted.as_slice(), MAX_ALIGNMENT_WINDOW);
    assert(window@ == alignment_window(keyframe_ids@));
    if window.len() < 2 {
        return None;
    }
    let mut window_poses: Vec<Pose> = Vec::new();
    let mut k: usize = 0;
    while k < window.len()
        invariant
            k <= window.len(),
            window@ == alignment_window(keyframe_ids@),
            window_poses.len() == k,
            forall|j: int|
                0 <= j < k ==> pose_of(poses@, #[trigger] window@[j]) == Some(window_poses@[j]),
        decreases window.len() - k,
    {
        match find_pose(poses, window[k]) {
            Some(pose) => {
                window_poses.push(pose);
            },
            None => {
                assert(!all_posed(poses@, window@));
                return None;
            },
        }
        k += 1;
    }
    let used = select_timed(factors, &window);
    assert(window_poses@ =~= window@.map_values(|id: u64| pose_of(poses@, id)->0));
    assert(all_posed(poses@, window@));
    if used.len() < 2 {
        return None;
    }
    Some(
        AlignmentTask {
            keyframe_ids: window,
            poses: window_poses,
            factors: used,
            bias_gyro,
            bias_acc,
        },
    )
}

/// The keyframes of the window that have a pose.
pub open spec fn posed_window(poses: Map<u64, Option<Pose>>, keyframe_ids: Seq<u64>) -> Seq<u64> {
    alignment_window(keyframe_ids).filter(|id: u64| pose_of(poses, id) is Some)
}

/// Whether there is enough to align rotations: two keyframes, and two factors whose
/// keyframes have poses.
pub open spec fn can_align_rotations(
    poses: Map<u64, Option<Pose>>,
    keyframe_ids: Seq<u64>,
    factors: Seq<ImuFactor>,
) -> bool {
    alignment_window(keyframe_ids).len() >= 2 && turning_factors(
        factors,
        posed_window(poses, keyframe_ids),
    ).len() >= 2
}

/// The task of a rotation alignment.
pub open spec fn is_rotation_task(
    poses: Map<u64, Option<Pose>>,
    keyframe_ids: Seq<u64>,
    factors: Seq<ImuFactor>,
    bias_gyro: Point3,
    task: AlignmentTask,
) -> bool {
    let posed = posed_window(poses, keyframe_ids);
    &&& task.keyframe_ids@ == posed
    &&& task.poses@ == posed.map_values(|id: u64| pose_of(poses, id)->0)
    &&& task.factors@ == turning_factors(factors, posed)
    &&& task.bias_gyro == bias_gyro
    &&& task.bias_acc == Point3::zero()
}

/// Prepares a rotation alignment; nothing where there is not enough to align. A keyframe
/// without a pose takes no part, and neither do the factors that touch it.
pub fn prepare_rotation_alignment(
    poses: &KeyframePoses,
    keyframe_ids: &[u64],
    factors: &[ImuFactor],
    bias_gyro: Point3,
) -> (task: Option<AlignmentTask>)
    ensures
        task is Some <==> can_align_rotations(poses@, keyframe_ids@, factors@),
        task matches Some(made) ==> is_rotation_task(
            poses@,
            keyframe_ids@,
            factors@,
            bias_gyro,
            made,
        ),
{
    let sorted = sorted_set(keyframe_ids);
    let window = last_ids(sorted.as_slice(), MAX_ALIGNMENT_WINDOW);
    assert(window@ == alignment_window(keyframe_ids@));
    if window.len() < 2 {
        return None;
    }
    let ghost has_pose = |id: u64| pose_of(poses@, id) is Some;
    let mut posed: Vec<u64> = Vec::new();
    let mut posed_poses: Vec<Pose> = Vec::new();
    let mut k: usize = 0;
    while k < window.len()
        invariant
            k <= window.len(),
            has_pose == (|id: u64| pose_of(poses@, id) is Some),
            posed@ == window@.take(k as int).filter(has_pose),
            posed_poses.len() == posed.len(),
            forall|j: int|
                0 <= j < posed.len() ==> pose_of(poses@, #[trigger] posed@[j]) == Some(
                    posed_poses@[j],
                ),
        decreases window.len() - k,
    {
        proof {
            lemma_filter_take(window@, k as int, has_pose);
        }
        if let Some(pose) = find_pose(poses, window[k]) {
            posed.push(window[k]);
            posed_poses.push(pose);
        }
        k += 1;
    }
    proof {
        lemma_take_all(window@);
    }
    let used = select_turning(factors, &posed);
    assert(posed_poses@ =~= posed@.map_values(|id: u64| pose_of(poses@, id)->0));
    if used.len() < 2 {
        return None;
    }
    Some(
        AlignmentTask {
            keyframe_ids: posed,
            poses: posed_poses,
            factors: used,
            bias_gyro,
            bias_acc: Point3::zero(),
        },
    )
}

/// Gravity and velocities without a constraint on the norm of gravity.
#[derive(Clone, Debug, PartialEq, Eq)]
pub struct RawGravity {
    pub gravity: Point3,
    pub norm: Scalar,
    pub velocities: Vec<Point3>,
}

/// One step on the sphere of gravity vectors: the two tangent coordinates, the norm of the
/// moved direction, that direction normalised, and the velocities.
#[derive(Clone, Debug, PartialEq, Eq)]
pub struct TangentStep {
    pub w1: Scalar,
    pub w2: Scalar,
    pub norm: Scalar,
    pub direction: Point3,
    pub velocities: Vec<Point3>,
}

/// Gravity and velocities that a window of measurements agrees with.
#[derive(Clone, Debug, PartialEq, Eq)]
pub struct GravityVelocityAlignment {
    /// Gravity with the expected norm.
    pub gravity_world: Point3,
    /// The norm of gravity before it was constrained.
    pub raw_gravity_norm: Scalar,
    /// The velocities of the window's keyframes.
    pub velocities: BTreeMap<u64, Point3>,
    pub mean_residual_after: Scalar,
    pub window_keyframes: usize,
}

/// The computations that gravity alignment needs.
pub struct GravityNumerics<R, N, T, S, E> {
    /// The unconstrained least-squares solve.
    pub raw: R,
    /// The direction of the unconstrained gravity.
    pub direction: N,
    /// One constrained solve around a direction, for a norm.
    pub refine: T,
    /// A direction scaled to a norm.
    pub scale: S,
    /// The residual of gravity and velocities.
    pub residual: E,
}

/// Whether the unconstrained gravity can be trusted to have a direction.
pub open spec fn has_direction(raw: RawGravity) -> bool {
    raw.norm.is_finite() && !raw.norm.lt(Scalar { bits: MIN_GRAVITY_BITS })
}

/// Whether a step may be taken.
pub open spec fn is_sound_step(step: TangentStep) -> bool {
    step.w1.is_finite() && step.w2.is_finite() && step.norm.is_finite() && !step.norm.lt(
        Scalar { bits: MIN_DIRECTION_BITS },
    )
}

/// The direction before the `k`-th step.
pub open spec fn direction_before(start: Point3, steps: Seq<TangentStep>, k: int) -> Point3 {
    if k == 0 {
        start
    } else {
        steps[k - 1].direction
    }
}

impl<R, N, T, S, E> GravityNumerics<R, N, T, S, E> where
    R: Fn(&AlignmentTask) -> Option<RawGravity>,
    N: Fn(&RawGravity) -> Point3,
    T: Fn(&AlignmentTask, Scalar, &Point3) -> Option<TangentStep>,
    S: Fn(Scalar, &Point3) -> Point3,
    E: Fn(&AlignmentTask, &Point3, &Vec<Point3>) -> Scalar,
 {
    /// Every computation can be asked for, and a solve gives one velocity for each keyframe.
    pub open spec fn callable(self) -> bool {
        &&& forall|task: AlignmentTask| call_requires(self.raw, (&task,))
        &&& forall|task: AlignmentTask, raw: RawGravity| #[trigger]
            call_ensures(self.raw, (&task,), Some(raw)) ==> raw.velocities.len()
                == task.keyframe_ids.len()
        &&& forall|task: AlignmentTask, norm: Scalar, direction: Point3, step: TangentStep|
            #[trigger]
            call_ensures(self.refine, (&task, norm, &direction), Some(step))
                ==> step.velocities.len() == task.keyframe_ids.len()
        &&& forall|raw: RawGravity| call_requires(self.direction, (&raw,))
        &&& forall|task: AlignmentTask, norm: Scalar, direction: Point3|
            call_requires(self.refine, (&task, norm, &direction))
        &&& forall|norm: Scalar, direction: Point3| call_requires(self.scale, (norm, &direction))
        &&& forall|task: AlignmentTask, gravity: Point3, velocities: Vec<Point3>|
            call_requires(self.residual, (&task, &gravity, &velocities))
    }

    /// The steps were taken one after the other.
    pub open spec fn are_steps(
        self,
        task: AlignmentTask,
        norm: Scalar,
        start: Point3,
        steps: Seq<TangentStep>,
    ) -> bool {
        &&& steps.len() <= REFINEMENT_ITERATIONS
        &&& forall|k: int|
            0 <= k < steps.len() ==> is_sound_step(#[trigger] steps[k]) && call_ensures(
                self.refine,
                (&task, norm, &direction_before(start, steps, k)),
                Some(steps[k]),
            )
    }

    /// The refinement failed at the step after these.
    pub open spec fn fails_after(
        self,
        task: AlignmentTask,
        norm: Scalar,
        start: Point3,
        steps: Seq<TangentStep>,
    ) -> bool {
        exists|answer: Option<TangentStep>|
            #[trigger] call_ensures(
                self.refine,
                (&task, norm, &direction_before(start, steps, steps.len() as int)),
                answer,
            ) && (answer matches Some(step) ==> !is_sound_step(step))
    }

    /// `direction` and `velocities` are refined from the unconstrained solve: those of the
    /// last step where every step could be taken, else those of the unconstrained solve.
    pub open spec fn is_refined(
        self,
        task: AlignmentTask,
        norm: Scalar,
        raw: RawGravity,
        start: Point3,
        direction: Point3,
        velocities: Seq<Point3>,
    ) -> bool {
        exists|steps: Seq<TangentStep>| #[trigger]
            self.are_steps(task, norm, start, steps) && (if steps.len() == REFINEMENT_ITERATIONS {
                direction == steps.last().direction && velocities == steps.last().velocities@
            } else {
                self.fails_after(task, norm, start, steps) && direction == start && velocities
                    == raw.velocities@
            })
    }

    /// `alignment` is what the task gives: nothing where the unconstrained solve fails or
    /// its gravity has no direction.
    pub open spec fn is_aligned(
        self,
        task: AlignmentTask,
        norm: Scalar,
        alignment: Option<GravityVelocityAlignment>,
    ) -> bool {
        exists|answer: Option<RawGravity>| #[trigger]
            call_ensures(self.raw, (&task,), answer) && (match answer {
                None => alignment is None,
                Some(raw) => if !has_direction(raw) {
                    alignment is None
                } else {
                    alignment matches Some(found) && self.is_finished(task, norm, raw, found)
                },
            })
    }

    /// `found` is the alignment that an unconstrained solve is refined to.
    pub open spec fn is_finished(
        self,
        task: AlignmentTask,
        norm: Scalar,
        raw: RawGravity,
        found: GravityVelocityAlignment,
    ) -> bool {
        exists|start: Point3, direction: Point3, velocities: Vec<Point3>|
            {
                &&& call_ensures(self.direction, (&raw,), start)
                &&& #[trigger] self.is_refined(task, norm, raw, start, direction, velocities@)
                &&& call_ensures(self.scale, (norm, &direction), found.gravity_world)
                &&& found.raw_gravity_norm == raw.norm
                &&& found.velocities@ == paired(task.keyframe_ids@, velocities@)
                &&& call_ensures(
                    self.residual,
                    (&task, &found.gravity_world, &velocities),
                    found.mean_residual_after,
                )
                &&& found.window_keyframes == task.keyframe_ids@.len()
            }
    }
}

/// The velocities by keyframe.
pub open spec fn paired(ids: Seq<u64>, velocities: Seq<Point3>) -> Map<u64, Point3>
    decreases ids.len(),
{
    if ids.len() == 0 {
        Map::empty()
    } else {
        let rest = paired(ids.drop_last(), velocities);
        if ids.len() <= velocities.len() {
            rest.insert(ids.last(), velocities[ids.len() - 1])
        } else {
            rest
        }
    }
}

fn pair_velocities(ids: &Vec<u64>, velocities: &Vec<Point3>) -> (pairs: BTreeMap<u64, Point3>)
    ensures
        pairs@ == paired(ids@, velocities@),
{
    broadcast use vstd::std_specs::btree::group_btree_axioms;

    let mut pairs: BTreeMap<u64, Point3> = BTreeMap::new();
    let mut k: usize = 0;
    while k < ids.len()
        invariant
            k <= ids.len(),
            pairs@ == paired(ids@.take(k as int), velocities@),
        decreases ids.len() - k,
    {
        broadcast use vstd::std_specs::btree::group_btree_axioms;

        assert(ids@.take(k + 1).drop_last() =~= ids@.take(k as int));
        if k < velocities.len() {
            pairs.insert(ids[k], velocities[k]);
        }
        k += 1;
    }
    assert(ids@.take(ids.len() as int) =~= ids@);
    pairs
}

fn refine_direction<R, N, T, S, E>(
    task: &AlignmentTask,
    norm: Scalar,
    raw: &RawGravity,
    start: Point3,
    numerics: &GravityNumerics<R, N, T, S, E>,
) -> (refined: Option<TangentStep>) where
    R: Fn(&AlignmentTask) -> Option<RawGravity>,
    N: Fn(&RawGravity) -> Point3,
    T: Fn(&AlignmentTask, Scalar, &Point3) -> Option<TangentStep>,
    S: Fn(Scalar, &Point3) -> Point3,
    E: Fn(&AlignmentTask, &Point3, &Vec<Point3>) -> Scalar,

    requires
        numerics.callable(),
    ensures
        match refined {
            Some(last) => numerics.is_refined(
                *task,
                norm,
                *raw,
                start,
                last.direction,
                last.velocities@,
            ),
            None => numerics.is_refined(*task, norm, *raw, start, start, raw.velocities@),
        },
{
    let ghost mut steps: Seq<TangentStep> = Seq::empty();
    let mut last: Option<TangentStep> = None;
    let mut direction = start;
    let mut k: usize = 0;
    while k < REFINEMENT_ITERATIONS
        invariant
            k <= REFINEMENT_ITERATIONS,
            numerics.callable(),
            steps.len() == k,
            numerics.are_steps(*task, norm, start, steps),
            direction == direction_before(start, steps, k as int),
            last == (if k == 0 {
                None
            } else {
                Some(steps[k - 1])
            }),
        decreases REFINEMENT_ITERATIONS - k,
    {
        let answer = (numerics.refine)(task, norm, &direction);
        let ghost given = answer;
        match answer {
            None => {
                assert(numerics.fails_after(*task, norm, start, steps));
                return None;
            },
            Some(step) => {
                if !step.w1.is_finite() || !step.w2.is_finite() || !step.norm.is_finite()
                    || step.norm.lt(Scalar::from_bits(MIN_DIRECTION_BITS)) {
                    assert(call_ensures(numerics.refine, (task, norm, &direction), given));
                    assert(numerics.fails_after(*task, norm, start, steps));
                    return None;
                }
                let ghost before = steps;
                proof {
                    steps = steps.push(step);
                    assert forall|j: int| 0 <= j < steps.len() implies is_sound_step(
                        #[trigger] steps[j],
                    ) && call_ensures(
                        numerics.refine,
                        (task, norm, &direction_before(start, steps, j)),
                        Some(steps[j]),
                    ) by {
                        assert(direction_before(start, steps, j) == direction_before(
                            start,
                            before,
                            j,
                        ));
                        if j < k {
                            assert(steps[j] == before[j]);
                        }
                    }
                }
                direction = step.direction;
                last = Some(step);
            },
        }
        k += 1;
    }
    last
}

/// Recovers gravity and velocities from a window of factors and the poses of its
/// keyframes. `norm` is the expected norm of gravity.
pub fn estimate_gravity_and_velocities<R, N, T, S, E>(
    poses: &KeyframePoses,
    keyframe_ids: &[u64],
    factors: &[ImuFactor],
    bias_gyro_seed: Point3,
    bias_acc_seed: Point3,
    norm: Scalar,
    numerics: &GravityNumerics<R, N, T, S, E>,
) -> (alignment: Option<GravityVelocityAlignment>) where
    R: Fn(&AlignmentTask) -> Option<RawGravity>,
    N: Fn(&RawGravity) -> Point3,
    T: Fn(&AlignmentTask, Scalar, &Point3) -> Option<TangentStep>,
    S: Fn(Scalar, &Point3) -> Point3,
    E: Fn(&AlignmentTask, &Point3, &Vec<Point3>) -> Scalar,

    requires
        numerics.callable(),
    ensures
        is_gravity_alignment(
            *numerics,
            poses@,
            keyframe_ids@,
            factors@,
            bias_gyro_seed,
            bias_acc_seed,
            norm,
            alignment,
        ),
{
    if !norm.is_finite() || norm.le(Scalar::zero()) {
        return None;
    }
    match prepare_alignment(poses, keyframe_ids, factors, bias_gyro_seed, bias_acc_seed) {
        None => None,
        Some(task) => {
            let answer = (numerics.raw)(&task);
            let alignment = match answer {
                None => None,
                Some(raw) => finish_alignment(&task, norm, &raw, numerics),
            };
            assert(numerics.is_aligned(task, norm, alignment));
            alignment
        },
    }
}

fn finish_alignment<R, N, T, S, E>(
    task: &AlignmentTask,
    norm: Scalar,
    raw: &RawGravity,
    numerics: &GravityNumerics<R, N, T, S, E>,
) -> (alignment: Option<GravityVelocityAlignment>) where
    R: Fn(&AlignmentTask) -> Option<RawGravity>,
    N: Fn(&RawGravity) -> Point3,
    T: Fn(&AlignmentTask, Scalar, &Point3) -> Option<TangentStep>,
    S: Fn(Scalar, &Point3) -> Point3,
    E: Fn(&AlignmentTask, &Point3, &Vec<Point3>) -> Scalar,

    requires
        numerics.callable(),
    ensures
        alignment is Some <==> has_direction(*raw),
        alignment matches Some(found) ==> numerics.is_finished(*task, norm, *raw, found),
{
    if !raw.norm.is_finite() || raw.norm.lt(Scalar::from_bits(MIN_GRAVITY_BITS)) {
        return None;
    }
    let start = (numerics.direction)(raw);
    match refine_direction(task, norm, raw, start, numerics) {
        Some(step) => Some(
            pack_alignment(task, norm, raw, start, step.direction, &step.velocities, numerics),
        ),
        None => Some(pack_alignment(task, norm, raw, start, start, &raw.velocities, numerics)),
    }
}

fn pack_alignment<R, N, T, S, E>(
    task: &AlignmentTask,
    norm: Scalar,
    raw: &RawGravity,
    start: Point3,
    direction: Point3,
    velocities: &Vec<Point3>,
    numerics: &GravityNumerics<R, N, T, S, E>,
) -> (found: GravityVelocityAlignment) where
    R: Fn(&AlignmentTask) -> Option<RawGravity>,
    N: Fn(&RawGravity) -> Point3,
    T: Fn(&AlignmentTask, Scalar, &Point3) -> Option<TangentStep>,
    S: Fn(Scalar, &Point3) -> Point3,
    E: Fn(&AlignmentTask, &Point3, &Vec<Point3>) -> Scalar,

    requires
        numerics.callable(),
        call_ensures(numerics.direction, (raw,), start),
        numerics.is_refined(*task, norm, *raw, start, direction, velocities@),
    ensures
        numerics.is_finished(*task, norm, *raw, found),
{
    let gravity_world = (numerics.scale)(norm, &direction);
    let mean_residual_after = (numerics.residual)(task, &gravity_world, velocities);
    GravityVelocityAlignment {
        gravity_world,
        raw_gravity_norm: raw.norm,
        velocities: pair_velocities(&task.keyframe_ids, velocities),
        mean_residual_after,
        window_keyframes: task.keyframe_ids.len(),
    }
}

/// `alignment` is the gravity alignment of a window: nothing without a positive norm to
/// expect or without enough to align.
pub open spec fn is_gravity_alignment<R, N, T, S, E>(
    numerics: GravityNumerics<R, N, T, S, E>,
    poses: Map<u64, Option<Pose>>,
    keyframe_ids: Seq<u64>,
    factors: Seq<ImuFactor>,
    bias_gyro: Point3,
    bias_acc: Point3,
    norm: Scalar,
    alignment: Option<GravityVelocityAlignment>,
) -> bool where
    R: Fn(&AlignmentTask) -> Option<RawGravity>,
    N: Fn(&RawGravity) -> Point3,
    T: Fn(&AlignmentTask, Scalar, &Point3) -> Option<TangentStep>,
    S: Fn(Scalar, &Point3) -> Point3,
    E: Fn(&AlignmentTask, &Point3, &Vec<Point3>) -> Scalar,
 {
    if !norm.is_finite() || norm.le(Scalar::zero()) || !can_align(poses, keyframe_ids, factors) {
        alignment is None
    } else {
        exists|task: AlignmentTask|
            is_alignment_task(poses, keyframe_ids, factors, bias_gyro, bias_acc, task)
                && #[trigger] numerics.is_aligned(task, norm, alignment)
    }
}

/// One step of the bias iteration: the step, its norm, and the bias after it.
#[derive(Clone, Copy, Debug, PartialEq, Eq, Structural)]
pub struct GyroStep {
    pub step: Point3,
    pub norm: Scalar,
    pub bias: Point3,
}

/// The gyroscope bias that a window of measurements agrees with.
#[derive(Clone, Copy, Debug, PartialEq, Eq, Structural)]
pub struct GyroBiasAlignment {
    pub bias_gyro: Point3,
    pub iterations: usize,
    pub rotation_residual_rms_before: Scalar,
    pub rotation_residual_rms_after: Scalar,
}

/// The computations that bias alignment needs.
pub struct GyroNumerics<R, T> {
    /// The root mean square of the rotation residuals at a bias.
    pub rms: R,
    /// The normal-equation step at a bias, unless the equations are singular.
    pub step: T,
}

/// The bias before the `k`-th step.
pub open spec fn bias_before(seed: Point3, steps: Seq<GyroStep>, k: int) -> Point3 {
    if k == 0 {
        seed
    } else {
        steps[k - 1].bias
    }
}

/// Whether a step is so small that the iteration ends.
pub open spec fn is_converged(step: GyroStep) -> bool {
    step.norm.lt(Scalar { bits: CONVERGED_STEP_BITS })
}

impl<R, T> GyroNumerics<R, T> where
    R: Fn(&AlignmentTask, &Point3) -> Scalar,
    T: Fn(&AlignmentTask, &Point3) -> Option<GyroStep>,
 {
    /// Every computation can be asked for.
    pub open spec fn callable(self) -> bool {
        &&& forall|task: AlignmentTask, bias: Point3| call_requires(self.rms, (&task, &bias))
        &&& forall|task: AlignmentTask, bias: Point3| call_requires(self.step, (&task, &bias))
    }

    /// The steps were taken one after the other, and none but the last ended the iteration.
    pub open spec fn are_steps(
        self,
        task: AlignmentTask,
        seed: Point3,
        steps: Seq<GyroStep>,
    ) -> bool {
        &&& steps.len() <= MAX_GYRO_ITERATIONS
        &&& forall|k: int|
            0 <= k < steps.len() ==> (#[trigger] steps[k]).step.finite() && call_ensures(
                self.step,
                (&task, &bias_before(seed, steps, k)),
                Some(steps[k]),
            )
        &&& forall|k: int| 0 <= k < steps.len() - 1 ==> !is_converged(#[trigger] steps[k])
    }

    /// No step could be taken after these.
    pub open spec fn fails_after(
        self,
        task: AlignmentTask,
        seed: Point3,
        steps: Seq<GyroStep>,
    ) -> bool {
        exists|answer: Option<GyroStep>|
            #[trigger] call_ensures(
                self.step,
                (&task, &bias_before(seed, steps, steps.len() as int)),
                answer,
            ) && (answer matches Some(step) ==> !step.step.finite())
    }

    /// The iteration ended after these steps: converged, used up, or stuck.
    pub open spec fn is_iteration(
        self,
        task: AlignmentTask,
        seed: Point3,
        steps: Seq<GyroStep>,
    ) -> bool {
        &&& self.are_steps(task, seed, steps)
        &&& {
            ||| steps.len() == MAX_GYRO_ITERATIONS
            ||| steps.len() > 0 && is_converged(steps.last())
            ||| (steps.len() > 0 ==> !is_converged(steps.last())) && self.fails_after(
                task,
                seed,
                steps,
            )
        }
    }

    /// `alignment` is what the task gives: nothing where not one step could be taken.
    pub open spec fn is_aligned(
        self,
        task: AlignmentTask,
        seed: Point3,
        alignment: Option<GyroBiasAlignment>,
    ) -> bool {
        exists|steps: Seq<GyroStep>| #[trigger]
            self.is_iteration(task, seed, steps) && (if steps.len() == 0 {
                alignment is None
            } else {
                &&& alignment matches Some(found)
                &&& found.bias_gyro == steps.last().bias
                &&& found.iterations == steps.len()
                &&& call_ensures(self.rms, (&task, &seed), found.rotation_residual_rms_before)
                &&& call_ensures(
                    self.rms,
                    (&task, &found.bias_gyro),
                    found.rotation_residual_rms_after,
                )
            })
    }
}

/// `alignment` is the bias alignment of a window: nothing without enough to align.
pub open spec fn is_gyro_alignment<R, T>(
    numerics: GyroNumerics<R, T>,
    poses: Map<u64, Option<Pose>>,
    keyframe_ids: Seq<u64>,
    factors: Seq<ImuFactor>,
    bias_gyro_seed: Point3,
    alignment: Option<GyroBiasAlignment>,
) -> bool where
    R: Fn(&AlignmentTask, &Point3) -> Scalar,
    T: Fn(&AlignmentTask, &Point3) -> Option<GyroStep>,
 {
    if !can_align_rotations(poses, keyframe_ids, factors) {
        alignment is None
    } else {
        exists|task: AlignmentTask|
            is_rotation_task(poses, keyframe_ids, factors, bias_gyro_seed, task)
                && #[trigger] numerics.is_aligned(task, bias_gyro_seed, alignment)
    }
}

/// Recovers the gyroscope bias from the rotations of a window of factors and the poses of
/// its keyframes. A factor that touches a keyframe without a pose is left out.
pub fn estimate_gyro_bias<R, T>(
    poses: &KeyframePoses,
    keyframe_ids: &[u64],
    factors: &[ImuFactor],
    bias_gyro_seed: Point3,
    numerics: &GyroNumerics<R, T>,
) -> (alignment: Option<GyroBiasAlignment>) where
    R: Fn(&AlignmentTask, &Point3) -> Scalar,
    T: Fn(&AlignmentTask, &Point3) -> Option<GyroStep>,

    requires
        numerics.callable(),
    ensures
        is_gyro_alignment(
            *numerics,
            poses@,
            keyframe_ids@,
            factors@,
            bias_gyro_seed,
            alignment,
        ),
{
    match prepare_rotation_alignment(poses, keyframe_ids, factors, bias_gyro_seed) {
        None => None,
        Some(task) => {
            let alignment = iterate_gyro_bias(&task, bias_gyro_seed, numerics);
            assert(numerics.is_aligned(task, bias_gyro_seed, alignment));
            alignment
        },
    }
}

fn iterate_gyro_bias<R, T>(
    task: &AlignmentTask,
    seed: Point3,
    numerics: &GyroNumerics<R, T>,
) -> (alignment: Option<GyroBiasAlignment>) where
    R: Fn(&AlignmentTask, &Point3) -> Scalar,
    T: Fn(&AlignmentTask, &Point3) -> Option<GyroStep>,

    requires
        numerics.callable(),
    ensures
        numerics.is_aligned(*task, seed, alignment),
{
    let rotation_residual_rms_before = (numerics.rms)(task, &seed);
    let ghost mut steps: Seq<GyroStep> = Seq::empty();
    let mut bias_gyro = seed;
    let mut iterations: usize = 0;
    let mut running = true;
    while running && iterations < MAX_GYRO_ITERATIONS
        invariant
            numerics.callable(),
            iterations <= MAX_GYRO_ITERATIONS,
            steps.len() == iterations,
            numerics.are_steps(*task, seed, steps),
            bias_gyro == bias_before(seed, steps, iterations as int),
            running ==> (steps.len() > 0 ==> !is_converged(steps.last())),
            !running ==> numerics.is_iteration(*task, seed, steps) && steps.len() > 0,
        decreases MAX_GYRO_ITERATIONS - iterations, (if running { 1int } else { 0int }),
    {
        let answer = (numerics.step)(task, &bias_gyro);
        let usable: Option<GyroStep> = match answer {
            Some(step) => if step.step.is_finite() {
                Some(step)
            } else {
                None
            },
            None => None,
        };
        match usable {
            None => {
                assert(numerics.fails_after(*task, seed, steps));
                assert(numerics.is_iteration(*task, seed, steps));
                if iterations == 0 {
                    return None;
                }
                running = false;
            },
            Some(step) => {
                let ghost before = steps;
                proof {
                    steps = steps.push(step);
                    assert forall|j: int| 0 <= j < steps.len() implies (
                    #[trigger] steps[j]).step.finite() && call_ensures(
                        numerics.step,
                        (task, &bias_before(seed, steps, j)),
                        Some(steps[j]),
                    ) by {
                        assert(bias_before(seed, steps, j) == bias_before(seed, before, j));
                        if j < before.len() {
                            assert(steps[j] == before[j]);
                        }
                    }
                    assert forall|j: int| 0 <= j < steps.len() - 1 implies !is_converged(
                        #[trigger] steps[j],
                    ) by {
                        assert(steps[j] == before[j]);
                    }
                }
                bias_gyro = step.bias;
                iterations += 1;
                if step.norm.lt(Scalar::from_bits(CONVERGED_STEP_BITS)) {
                    running = false;
                    assert(numerics.is_iteration(*task, seed, steps));
                }
            },
        }
    }
    assert(numerics.is_iteration(*task, seed, steps));
    let rotation_residual_rms_after = (numerics.rms)(task, &bias_gyro);
    Some(
        GyroBiasAlignment {
            bias_gyro,
            iterations,
            rotation_residual_rms_before,
            rotation_residual_rms_after,
        },
    )
}

proof fn lemma_paired_keys(ids: Seq<u64>, velocities: Seq<Point3>)
    requires
        ids.len() <= velocities.len(),
    ensures
        forall|id: u64| #[trigger] paired(ids, velocities).contains_key(id) <==> ids.contains(id),
    decreases ids.len(),
{
    if ids.len() > 0 {
        let rest = ids.drop_last();
        lemma_paired_keys(rest, velocities);
        assert forall|id: u64| #[trigger]
            paired(ids, velocities).contains_key(id) <==> ids.contains(id) by {
            if ids.contains(id) {
                let k = choose|k: int| 0 <= k < ids.len() && ids[k] == id;
                if k < rest.len() {
                    assert(rest[k] == id);
                }
            }
            if rest.contains(id) {
                let k = choose|k: int| 0 <= k < rest.len() && rest[k] == id;
                assert(ids[k] == id);
            }
            assert(paired(rest, velocities).contains_key(id) <==> rest.contains(id));
            assert(ids[ids.len() - 1] == ids.last());
        }
    }
}

/// A gravity alignment that is found rests on two to ten keyframes, all with poses, and on
/// two factors over positive times or more. It gives a velocity to each of these keyframes
/// and to no other, and the norm before the constraint is finite and no less than `1e-6`.
pub proof fn gravity_alignments_are_bounded<R, N, T, S, E>(
    gravity: GravityNumerics<R, N, T, S, E>,
    poses: Map<u64, Option<Pose>>,
    keyframe_ids: Seq<u64>,
    factors: Seq<ImuFactor>,
    bias_gyro: Point3,
    bias_acc: Point3,
    norm: Scalar,
    aligned: GravityVelocityAlignment,
) where
    R: Fn(&AlignmentTask) -> Option<RawGravity>,
    N: Fn(&RawGravity) -> Point3,
    T: Fn(&AlignmentTask, Scalar, &Point3) -> Option<TangentStep>,
    S: Fn(Scalar, &Point3) -> Point3,
    E: Fn(&AlignmentTask, &Point3, &Vec<Point3>) -> Scalar,

    requires
        gravity.callable(),
        is_gravity_alignment(
            gravity,
            poses,
            keyframe_ids,
            factors,
            bias_gyro,
            bias_acc,
            norm,
            Some(aligned),
        ),
    ensures
        norm.is_finite() && !norm.le(Scalar::zero()),
        2 <= aligned.window_keyframes <= MAX_ALIGNMENT_WINDOW,
        aligned.window_keyframes == alignment_window(keyframe_ids).len(),
        all_posed(poses, alignment_window(keyframe_ids)),
        timed_factors(factors, alignment_window(keyframe_ids)).len() >= 2,
        forall|id: u64| #[trigger]
            aligned.velocities@.contains_key(id) <==> alignment_window(keyframe_ids).contains(id),
        aligned.raw_gravity_norm.is_finite(),
        !aligned.raw_gravity_norm.lt(Scalar { bits: MIN_GRAVITY_BITS }),
{
    let task = choose|task: AlignmentTask|
        is_alignment_task(poses, keyframe_ids, factors, bias_gyro, bias_acc, task)
            && #[trigger] gravity.is_aligned(task, norm, Some(aligned));
    let answer = choose|answer: Option<RawGravity>| #[trigger]
        call_ensures(gravity.raw, (&task,), answer) && (match answer {
            None => false,
            Some(raw) => has_direction(raw) && gravity.is_finished(task, norm, raw, aligned),
        });
    let raw = answer->0;
    let (start, direction, velocities) = choose|
        start: Point3,
        direction: Point3,
        velocities: Vec<Point3>,
    |
        {
            &&& call_ensures(gravity.direction, (&raw,), start)
            &&& #[trigger] gravity.is_refined(task, norm, raw, start, direction, velocities@)
            &&& aligned.velocities@ == paired(task.keyframe_ids@, velocities@)
        };
    let steps = choose|steps: Seq<TangentStep>| #[trigger]
        gravity.are_steps(task, norm, start, steps) && (if steps.len() == REFINEMENT_ITERATIONS {
            direction == steps.last().direction && velocities@ == steps.last().velocities@
        } else {
            velocities@ == raw.velocities@
        });
    assert(call_ensures(gravity.raw, (&task,), Some(raw)));
    if steps.len() == REFINEMENT_ITERATIONS {
        assert(is_sound_step(steps[steps.len() - 1]));
    }
    lemma_paired_keys(task.keyframe_ids@, velocities@);
}

/// A bias alignment that is found rests on two keyframes and on two factors or more whose
/// keyframes have poses, and took one to five steps.
pub proof fn bias_alignments_are_bounded<R, T>(
    gyro: GyroNumerics<R, T>,
    poses: Map<u64, Option<Pose>>,
    keyframe_ids: Seq<u64>,
    factors: Seq<ImuFactor>,
    bias_gyro: Point3,
    biased: GyroBiasAlignment,
) where
    R: Fn(&AlignmentTask, &Point3) -> Scalar,
    T: Fn(&AlignmentTask, &Point3) -> Option<GyroStep>,

    requires
        is_gyro_alignment(gyro, poses, keyframe_ids, factors, bias_gyro, Some(biased)),
    ensures
        2 <= alignment_window(keyframe_ids).len() <= MAX_ALIGNMENT_WINDOW,
        turning_factors(factors, posed_window(poses, keyframe_ids)).len() >= 2,
        1 <= biased.iterations <= MAX_GYRO_ITERATIONS,
{
}

/// The window of an alignment holds the latest of the keyframes: ten of them, or all where
/// there are fewer, each once and in increasing order; and with one of them every later one.
pub proof fn alignment_windows_hold_the_latest(keyframe_ids: Seq<u64>)
    ensures
        ({
            let window = alignment_window(keyframe_ids);
            &&& strictly_increasing(window)
            &&& window.len() <= 10
            &&& forall|id: u64| window.contains(id) ==> #[trigger] keyframe_ids.contains(id)
            &&& forall|id: u64, other: u64|
                window.contains(id) && #[trigger] keyframe_ids.contains(id)
                    && #[trigger] keyframe_ids.contains(other) && id < other ==> window.contains(
                    other,
                )
            &&& window.len() < 10 ==> forall|id: u64| #[trigger]
                keyframe_ids.contains(id) ==> window.contains(id)
        }),
{
    lemma_sorted_set_of(keyframe_ids);
    let sorted = sorted_set_of(keyframe_ids);
    let window = alignment_window(keyframe_ids);
    let skipped = sorted.len() - window.len();
    assert forall|i: int| 0 <= i < window.len() implies #[trigger] window[i] == sorted[skipped
        + i] by {}
    assert forall|i: int, j: int| 0 <= i < j < window.len() implies window[i] < window[j] by {
        assert(sorted[skipped + i] < sorted[skipped + j]);
    }
    assert forall|id: u64| window.contains(id) implies #[trigger] keyframe_ids.contains(id) by {
        let i = window.index_of(id);
        assert(sorted[skipped + i] == id);
        assert(sorted.contains(id));
    }
    assert forall|id: u64, other: u64|
        window.contains(id) && #[trigger] keyframe_ids.contains(id)
            && #[trigger] keyframe_ids.contains(other) && id < other implies window.contains(
        other,
    ) by {
        let i = window.index_of(id);
        assert(sorted.contains(other));
        let j = sorted.index_of(other);
        if j < skipped + i {
            assert(sorted[j] < sorted[skipped + i]);
        }
        assert(window[j - skipped] == other);
    }
}

/// The factors that take part lead from one keyframe of the window to another. For gravity
/// they last longer than nothing; for rotations they do not last for nothing or less.
pub proof fn aligned_factors_lie_in_the_window(
    factors: Seq<ImuFactor>,
    window: Seq<u64>,
    k: usize,
)
    requires
        factors.len() <= usize::MAX,
    ensures
        timed_factors(factors, window).contains(k) <==> k < factors.len() && window.contains(
            factors[k as int].keyframe_id_from,
        ) && window.contains(factors[k as int].keyframe_id_to) && Scalar::zero().lt(
            factors[k as int].delta_time,
        ),
        turning_factors(factors, window).contains(k) <==> k < factors.len() && window.contains(
            factors[k as int].keyframe_id_from,
        ) && window.contains(factors[k as int].keyframe_id_to) && !factors[k as int].delta_time.le(
            Scalar::zero(),
        ),
        forall|i: int, j: int|
            0 <= i < j < timed_factors(factors, window).len() ==> (#[trigger] timed_factors(
                factors,
                window,
            )[i]) < #[trigger] timed_factors(factors, window)[j],
        forall|i: int, j: int|
            0 <= i < j < turning_factors(factors, window).len() ==> (#[trigger] turning_factors(
                factors,
                window,
            )[i]) < #[trigger] turning_factors(factors, window)[j],
{
    let p = is_timed(factors, window);
    let q = is_turning(factors, window);
    lemma_indices_where(factors.len(), p);
    lemma_indices_where(factors.len(), q);
    let timed = timed_factors(factors, window);
    let turning = turning_factors(factors, window);
    if timed.contains(k) {
        let i = timed.index_of(k);
        assert(p(timed[i] as int));
    }
    if turning.contains(k) {
        let i = turning.index_of(k);
        assert(q(turning[i] as int));
    }
    if k < factors.len() {
        assert(p(k as int) ==> timed.contains(k));
        assert(q(k as int) ==> turning.contains(k));
    }
}

/// Gravity is only aligned where its norm is finite and positive, at least two keyframes
/// take part, all of them have poses, and at least two factors do. Where that holds and no
/// alignment is found, the solve without a constraint gave none or one without a direction.
pub proof fn gravity_is_given_up_for_a_reason<R, N, T, S, E>(
    gravity: GravityNumerics<R, N, T, S, E>,
    poses: Map<u64, Option<Pose>>,
    keyframe_ids: Seq<u64>,
    factors: Seq<ImuFactor>,
    bias_gyro: Point3,
    bias_acc: Point3,
    norm: Scalar,
) where
    R: Fn(&AlignmentTask) -> Option<RawGravity>,
    N: Fn(&RawGravity) -> Point3,
    T: Fn(&AlignmentTask, Scalar, &Point3) -> Option<TangentStep>,
    S: Fn(Scalar, &Point3) -> Point3,
    E: Fn(&AlignmentTask, &Point3, &Vec<Point3>) -> Scalar,

    requires
        is_gravity_alignment(
            gravity,
            poses,
            keyframe_ids,
            factors,
            bias_gyro,
            bias_acc,
            norm,
            None,
        ),
        norm.is_finite(),
        Scalar::zero().lt(norm),
        alignment_window(keyframe_ids).len() >= 2,
        forall|k: int|
            0 <= k < alignment_window(keyframe_ids).len() ==> poses.contains_key(
                #[trigger] alignment_window(keyframe_ids)[k],
            ) && poses[alignment_window(keyframe_ids)[k]] is Some,
        timed_factors(factors, alignment_window(keyframe_ids)).len() >= 2,
    ensures
        exists|task: AlignmentTask, answer: Option<RawGravity>|
            {
                &&& task.keyframe_ids@ == alignment_window(keyframe_ids)
                &&& task.factors@ == timed_factors(factors, alignment_window(keyframe_ids))
                &&& #[trigger] call_ensures(gravity.raw, (&task,), answer)
                &&& answer matches Some(raw) ==> !raw.norm.is_finite() || raw.norm.lt(
                    Scalar { bits: 0x3EB0_C6F7_A0B5_ED8D },
                )
            },
{
    assert(can_align(poses, keyframe_ids, factors));
    let task = choose|task: AlignmentTask|
        is_alignment_task(poses, keyframe_ids, factors, bias_gyro, bias_acc, task)
            && #[trigger] gravity.is_aligned(task, norm, None);
    let answer = choose|answer: Option<RawGravity>| #[trigger]
        call_ensures(gravity.raw, (&task,), answer) && (match answer {
            None => true,
            Some(raw) => !has_direction(raw),
        });
    assert(call_ensures(gravity.raw, (&task,), answer));
}

/// The direction of gravity is refined in four steps, each of which starts from the one
/// before and is finite with a norm of at least `1e-9`; where one step is not, the direction
/// and velocities of the unconstrained solve stand.
pub proof fn refinements_are_whole_or_void<R, N, T, S, E>(
    gravity: GravityNumerics<R, N, T, S, E>,
    task: AlignmentTask,
    norm: Scalar,
    raw: RawGravity,
    start: Point3,
    direction: Point3,
    velocities: Seq<Point3>,
) -> (steps: Seq<TangentStep>) where
    R: Fn(&AlignmentTask) -> Option<RawGravity>,
    N: Fn(&RawGravity) -> Point3,
    T: Fn(&AlignmentTask, Scalar, &Point3) -> Option<TangentStep>,
    S: Fn(Scalar, &Point3) -> Point3,
    E: Fn(&AlignmentTask, &Point3, &Vec<Point3>) -> Scalar,

    requires
        gravity.is_refined(task, norm, raw, start, direction, velocities),
    ensures
        steps.len() <= 4,
        forall|k: int|
            0 <= k < steps.len() ==> {
                let step = #[trigger] steps[k];
                &&& step.w1.is_finite()
                &&& step.w2.is_finite()
                &&& step.norm.is_finite()
                &&& !step.norm.lt(Scalar { bits: 0x3E11_2E0B_E826_D695 })
                &&& call_ensures(
                    gravity.refine,
                    (
                        &task,
                        norm,
                        &(if k == 0 {
                            start
                        } else {
                            steps[k - 1].direction
                        }),
                    ),
                    Some(step),
                )
            },
        steps.len() == 4 ==> direction == steps[3].direction && velocities
            == steps[3].velocities@,
        steps.len() < 4 ==> direction == start && velocities == raw.velocities@,
{
    let steps = choose|steps: Seq<TangentStep>| #[trigger]
        gravity.are_steps(task, norm, start, steps) && (if steps.len() == REFINEMENT_ITERATIONS {
            direction == steps.last().direction && velocities == steps.last().velocities@
        } else {
            gravity.fails_after(task, norm, start, steps) && direction == start && velocities
                == raw.velocities@
        });
    assert forall|k: int| 0 <= k < steps.len() implies is_sound_step(#[trigger] steps[k])
        && call_ensures(
        gravity.refine,
        (
            &task,
            norm,
            &(if k == 0 {
                start
            } else {
                steps[k - 1].direction
            }),
        ),
        Some(steps[k]),
    ) by {
        assert(direction_before(start, steps, k) == if k == 0 {
            start
        } else {
            steps[k - 1].direction
        });
    }
    steps
}

/// From this bias the solve gives no step, or one that is not finite.
pub open spec fn has_no_step<R, T>(gyro: GyroNumerics<R, T>, task: AlignmentTask, bias: Point3) -> bool where
    R: Fn(&AlignmentTask, &Point3) -> Scalar,
    T: Fn(&AlignmentTask, &Point3) -> Option<GyroStep>,
 {
    exists|answer: Option<GyroStep>|
        #[trigger] call_ensures(gyro.step, (&task, &bias), answer) && (answer matches Some(step)
            ==> !(step.step.x.is_finite() && step.step.y.is_finite() && step.step.z.is_finite()))
}

/// A bias is iterated in finite steps, each from the one before, and at most five. It stops
/// where a step is shorter than `1e-10`, and only there, at the fifth, or where the solve
/// gives no finite step; a bias is found wherever a first step was.
pub proof fn bias_steps_run_until_they_converge<R, T>(
    gyro: GyroNumerics<R, T>,
    task: AlignmentTask,
    seed: Point3,
    alignment: Option<GyroBiasAlignment>,
) -> (steps: Seq<GyroStep>) where
    R: Fn(&AlignmentTask, &Point3) -> Scalar,
    T: Fn(&AlignmentTask, &Point3) -> Option<GyroStep>,

    requires
        gyro.is_aligned(task, seed, alignment),
    ensures
        ({
            let least = Scalar { bits: 0x3DDB_7CDF_D9D7_BDBB };
            &&& steps.len() <= 5
            &&& alignment is Some <==> steps.len() > 0
            &&& alignment matches Some(found) ==> found.bias_gyro == steps.last().bias
                && found.iterations == steps.len()
            &&& forall|k: int|
                0 <= k < steps.len() ==> {
                    let step = #[trigger] steps[k];
                    &&& step.step.x.is_finite() && step.step.y.is_finite()
                        && step.step.z.is_finite()
                    &&& k < steps.len() - 1 ==> !step.norm.lt(least)
                }
            &&& {
                ||| steps.len() == 5
                ||| steps.len() > 0 && steps.last().norm.lt(least)
                ||| steps.len() == 0 && has_no_step(gyro, task, seed)
                ||| steps.len() > 0 && has_no_step(gyro, task, steps.last().bias)
            }
        }),
{
    let steps = choose|steps: Seq<GyroStep>| #[trigger]
        gyro.is_iteration(task, seed, steps) && (if steps.len() == 0 {
            alignment is None
        } else {
            &&& alignment matches Some(found)
            &&& found.bias_gyro == steps.last().bias
            &&& found.iterations == steps.len()
        });
    if steps.len() < 5 && !(steps.len() > 0 && is_converged(steps.last())) {
        let before = bias_before(seed, steps, steps.len() as int);
        assert(before == if steps.len() == 0 {
            seed
        } else {
            steps.last().bias
        });
        let answer = choose|answer: Option<GyroStep>|
            #[trigger] call_ensures(gyro.step, (&task, &before), answer) && (
            answer matches Some(step) ==> !step.step.finite());
        assert(call_ensures(gyro.step, (&task, &before), answer));
    }
    assert forall|k: int| 0 <= k < steps.len() implies (#[trigger] steps[k]).step.finite() && (k
        < steps.len() - 1 ==> !is_converged(steps[k])) by {}
    steps
}

/// Each keyframe of the window gets the velocity at its place.
pub proof fn velocities_are_paired_by_place(ids: Seq<u64>, velocities: Seq<Point3>, k: int)
    requires
        ids.no_duplicates(),
        velocities.len() == ids.len(),
        0 <= k < ids.len(),
    ensures
        paired(ids, velocities).contains_key(ids[k]),
        paired(ids, velocities)[ids[k]] == velocities[k],
{
    lemma_paired(ids, velocities, k);
}

proof fn lemma_paired(ids: Seq<u64>, velocities: Seq<Point3>, k: int)
    requires
        ids.no_duplicates(),
        ids.len() <= velocities.len(),
        0 <= k < ids.len(),
    ensures
        paired(ids, velocities).contains_key(ids[k]),
        paired(ids, velocities)[ids[k]] == velocities[k],
    decreases ids.len(),
{
    let rest = ids.drop_last();
    if k < rest.len() {
        lemma_paired(rest, velocities, k);
        assert(rest[k] == ids[k]);
        assert(ids[k] != ids[ids.len() - 1]);
    }
}

/// The keyframes that a rotation alignment uses are those of its window that have a pose, in
/// order. It is given up before any step exactly where the window has fewer than two
/// keyframes or fewer than two factors take part.
pub proof fn rotations_align_keyframes_with_poses<R, T>(
    gyro: GyroNumerics<R, T>,
    poses: Map<u64, Option<Pose>>,
    keyframe_ids: Seq<u64>,
    factors: Seq<ImuFactor>,
    bias_gyro: Point3,
    alignment: Option<GyroBiasAlignment>,
    id: u64,
) where
    R: Fn(&AlignmentTask, &Point3) -> Scalar,
    T: Fn(&AlignmentTask, &Point3) -> Option<GyroStep>,

    requires
        is_gyro_alignment(gyro, poses, keyframe_ids, factors, bias_gyro, alignment),
    ensures
        ({
            let window = alignment_window(keyframe_ids);
            let used = posed_window(poses, keyframe_ids);
            let enough = window.len() >= 2 && turning_factors(factors, used).len() >= 2;
            &&& used.contains(id) <==> window.contains(id) && poses.contains_key(id)
                && poses[id] is Some
            &&& !enough ==> alignment is None
            &&& enough ==> exists|task: AlignmentTask|
                {
                    &&& #[trigger] gyro.is_aligned(task, bias_gyro, alignment)
                    &&& task.keyframe_ids@ == used
                    &&& task.factors@ == turning_factors(factors, used)
                    &&& task.bias_gyro == bias_gyro
                    &&& task.poses@.len() == used.len()
                    &&& forall|k: int|
                        0 <= k < used.len() ==> Some(#[trigger] task.poses@[k]) == poses[used[k]]
                }
        }),
{
    let window = alignment_window(keyframe_ids);
    let used = posed_window(poses, keyframe_ids);
    let p = |id: u64| pose_of(poses, id) is Some;
    crate::sequences::lemma_filter_holds(window, p, id);
    let at = crate::sequences::lemma_filter_positions(window, p);
    if can_align_rotations(poses, keyframe_ids, factors) {
        let task = choose|task: AlignmentTask|
            is_rotation_task(poses, keyframe_ids, factors, bias_gyro, task)
                && #[trigger] gyro.is_aligned(task, bias_gyro, alignment);
        assert forall|k: int| 0 <= k < used.len() implies Some(#[trigger] task.poses@[k])
            == poses[used[k]] by {
            assert(p(window[at[k]]));
        }
        assert(gyro.is_aligned(task, bias_gyro, alignment));
    }
}

/// What a gravity alignment is asked about: the keyframes of the window with their poses, the
/// factors that take part, and the biases as given.
pub proof fn gravity_tasks_hold_the_window(
    poses: Map<u64, Option<Pose>>,
    keyframe_ids: Seq<u64>,
    factors: Seq<ImuFactor>,
    bias_gyro: Point3,
    bias_acc: Point3,
    task: AlignmentTask,
    k: int,
)
    requires
        can_align(poses, keyframe_ids, factors),
        is_alignment_task(poses, keyframe_ids, factors, bias_gyro, bias_acc, task),
        0 <= k < alignment_window(keyframe_ids).len(),
    ensures
        task.keyframe_ids@ == alignment_window(keyframe_ids),
        task.poses@.len() == alignment_window(keyframe_ids).len(),
        poses.contains_key(alignment_window(keyframe_ids)[k]),
        poses[alignment_window(keyframe_ids)[k]] == Some(task.poses@[k]),
        task.factors@ == timed_factors(factors, alignment_window(keyframe_ids)),
        task.bias_gyro == bias_gyro,
        task.bias_acc == bias_acc,
{
    assert(pose_of(poses, alignment_window(keyframe_ids)[k]) is Some);
}

} // verus!
