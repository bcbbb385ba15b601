//! Inertial input of stereo bundle adjustment: which factors, velocity and bias states it
//! brings into the problem, and what is read back.
use crate::geometry::{Point3, Pose};
use crate::imu_windows::StereoVoBaImuSample;
use crate::scalar::Scalar;
use crate::sequences::{indices_where, lemma_indices_where};
use vstd::prelude::*;

verus! {

/// Inertial samples between consecutive keyframes, and how they weigh. `windows[i]` covers
/// the interval from keyframe `i` to keyframe `i + 1`; an empty one brings no factor.
#[derive(Clone, Debug, PartialEq, Eq)]
pub struct StereoVoBaImuInput {
    pub windows: Vec<Vec<StereoVoBaImuSample>>,
    pub gravity_world: Point3,
    pub bias_gyro_init: Point3,
    pub bias_acc_init: Point3,
    pub weight_position: Scalar,
    pub weight_velocity: Scalar,
    pub weight_rotation: Scalar,
    /// With a weight, consecutive biases are tied together.
    pub bias_random_walk_weight: Option<Scalar>,
    /// Hold the bias of the first active keyframe.
    pub fix_first_bias: bool,
    /// Hold the velocity of the first active keyframe.
    pub fix_first_velocity: bool,
}

impl StereoVoBaImuInput {
    /// Zero biases, no tie between them, the first bias held, the first velocity free.
    pub fn new(
        windows: Vec<Vec<StereoVoBaImuSample>>,
        gravity_world: Point3,
        weight_position: Scalar,
        weight_velocity: Scalar,
        weight_rotation: Scalar,
    ) -> (input: StereoVoBaImuInput)
        ensures
            input == (StereoVoBaImuInput {
                windows,
                gravity_world,
                bias_gyro_init: Point3::zero(),
                bias_acc_init: Point3::zero(),
                weight_position,
                weight_velocity,
                weight_rotation,
                bias_random_walk_weight: None,
                fix_first_bias: true,
                fix_first_velocity: false,
            }),
    {
        StereoVoBaImuInput {
            windows,
            gravity_world,
            bias_gyro_init: Point3::zero(),
            bias_acc_init: Point3::zero(),
            weight_position,
            weight_velocity,
            weight_rotation,
            bias_random_walk_weight: None,
            fix_first_bias: true,
            fix_first_velocity: false,
        }
    }
}

/// Refined velocities and biases, one per keyframe.
#[derive(Clone, Debug, PartialEq, Eq)]
pub struct StereoVoBaImuRefinement {
    pub refined_velocities: Vec<Point3>,
    pub refined_bias_gyro: Vec<Point3>,
    pub refined_bias_acc: Vec<Point3>,
}

/// Gyroscope and accelerometer bias of a keyframe.
#[derive(Clone, Copy, Debug, PartialEq, Eq, Structural)]
pub struct ImuBias {
    pub gyro: Point3,
    pub acc: Point3,
}

/// The integrated time of a window, and the displacement over it per unit of time.
#[derive(Clone, Copy, Debug, PartialEq, Eq, Structural)]
pub struct WindowVelocity {
    pub duration: Scalar,
    pub velocity: Point3,
}

/// What the inertial input adds to the problem.
#[derive(Clone, Debug, PartialEq, Eq)]
pub struct ImuPlan {
    /// The windows that become factors.
    pub factor_windows: Vec<usize>,
    /// First velocity of each keyframe that takes part.
    pub velocity_seeds: Vec<Option<Point3>>,
    /// Each of these keyframes has its bias tied to the next one's.
    pub random_walk_from: Vec<usize>,
    pub fixed_bias: Option<usize>,
    pub fixed_velocity: Option<usize>,
}

/// The first velocity that a window suggests: none where it spans no time.
pub open spec fn seed_velocity(window: WindowVelocity) -> Point3 {
    if Scalar::zero().lt(window.duration) {
        window.velocity
    } else {
        Point3::zero()
    }
}

/// The velocities that the windows suggest; an empty window suggests none.
pub open spec fn are_window_velocities<V>(
    velocity: V,
    windows: Seq<Vec<StereoVoBaImuSample>>,
    poses: Seq<Pose>,
    suggested: Seq<Option<Point3>>,
) -> bool where V: Fn(&Pose, &Pose, &Vec<StereoVoBaImuSample>) -> WindowVelocity {
    &&& suggested.len() == windows.len()
    &&& forall|w: int|
        0 <= w < windows.len() ==> is_window_velocity(
            velocity,
            windows[w],
            poses[w],
            poses[w + 1],
            #[trigger] suggested[w],
        )
}

/// What one window suggests.
pub open spec fn is_window_velocity<V>(
    velocity: V,
    samples: Vec<StereoVoBaImuSample>,
    from: Pose,
    to: Pose,
    suggested: Option<Point3>,
) -> bool where V: Fn(&Pose, &Pose, &Vec<StereoVoBaImuSample>) -> WindowVelocity {
    if samples.len() == 0 {
        suggested is None
    } else {
        exists|window: WindowVelocity| #[trigger]
            call_ensures(velocity, (&from, &to, &samples), window) && suggested == Some(
                seed_velocity(window),
            )
    }
}

/// The first velocity of each keyframe: from the window before it, else from the one after.
pub open spec fn keyframe_velocities(suggested: Seq<Option<Point3>>) -> Seq<Option<Point3>> {
    Seq::new(
        (suggested.len() + 1) as nat,
        |i: int|
            if i > 0 && suggested[i - 1] is Some {
                suggested[i - 1]
            } else if i < suggested.len() {
                suggested[i]
            } else {
                None
            },
    )
}

/// The windows with samples.
pub open spec fn has_samples(windows: Seq<Vec<StereoVoBaImuSample>>) -> spec_fn(int) -> bool {
    |w: int| windows[w].len() > 0
}

/// The keyframes that take part and whose successor does too.
pub open spec fn is_tied(seeds: Seq<Option<Point3>>) -> spec_fn(int) -> bool {
    |i: int| seeds[i] is Some && seeds[i + 1] is Some
}

/// The first keyframe, from the `i`-th on, that takes part.
pub open spec fn first_active(seeds: Seq<Option<Point3>>, i: int) -> Option<usize>
    decreases seeds.len() - i,
{
    if i >= seeds.len() {
        None
    } else if seeds[i] is Some {
        Some(i as usize)
    } else {
        first_active(seeds, i + 1)
    }
}

/// The plan follows from the input and the velocities that the windows suggest.
pub open spec fn is_imu_plan<V>(
    velocity: V,
    input: StereoVoBaImuInput,
    poses: Seq<Pose>,
    plan: ImuPlan,
) -> bool where V: Fn(&Pose, &Pose, &Vec<StereoVoBaImuSample>) -> WindowVelocity {
    exists|suggested: Seq<Option<Point3>>|
        {
            let seeds = keyframe_velocities(suggested);
            let first = first_active(seeds, 0);
            &&& #[trigger] are_window_velocities(velocity, input.windows@, poses, suggested)
            &&& plan.factor_windows@ == indices_where(
                input.windows@.len(),
                has_samples(input.windows@),
            )
            &&& plan.velocity_seeds@ == seeds
            &&& plan.random_walk_from@ == (if input.bias_random_walk_weight is Some {
                indices_where(suggested.len(), is_tied(seeds))
            } else {
                Seq::empty()
            })
            &&& plan.fixed_bias == (if input.fix_first_bias {
                first
            } else {
                None
            })
            &&& plan.fixed_velocity == (if input.fix_first_velocity {
                first
            } else {
                None
            })
        }
}

fn find_first_active(seeds: &Vec<Option<Point3>>) -> (first: Option<usize>)
    ensures
        first == first_active(seeds@, 0),
{
    let mut i: usize = 0;
    while i < seeds.len()
        invariant
            i <= seeds.len(),
            first_active(seeds@, 0) == first_active(seeds@, i as int),
        decreases seeds.len() - i,
    {
        if seeds[i].is_some() {
            return Some(i);
        }
        i += 1;
    }
    None
}

/// Plans factors and states for inertial input that has one window between every two
/// consecutive poses. `velocity` computes the displacement of a window per unit of time.
pub fn plan_imu<V>(input: &StereoVoBaImuInput, poses: &Vec<Pose>, velocity: &V) -> (plan:
    ImuPlan) where V: Fn(&Pose, &Pose, &Vec<StereoVoBaImuSample>) -> WindowVelocity
    requires
        input.windows.len() + 1 == poses.len(),
        forall|from: Pose, to: Pose, samples: Vec<StereoVoBaImuSample>|
            call_requires(*velocity, (&from, &to, &samples)),
    ensures
        is_imu_plan(*velocity, *input, poses@, plan),
{
    let ghost windows = input.windows@;
    let mut factor_windows: Vec<usize> = Vec::new();
    let mut suggested: Vec<Option<Point3>> = Vec::new();
    let mut w: usize = 0;
    while w < input.windows.len()
        invariant
            w <= input.windows.len(),
            windows == input.windows@,
            input.windows.len() + 1 == poses.len(),
            forall|from: Pose, to: Pose, samples: Vec<StereoVoBaImuSample>|
                call_requires(*velocity, (&from, &to, &samples)),
            suggested.len() == w,
            forall|k: int|
                0 <= k < w ==> is_window_velocity(
                    *velocity,
                    windows[k],
                    poses@[k],
                    poses@[k + 1],
                    #[trigger] suggested@[k],
                ),
            factor_windows@ == indices_where(w as nat, has_samples(windows)),
        decreases input.windows.len() - w,
    {
        let samples = &input.windows[w];
        let ghost before = suggested@;
        if samples.len() == 0 {
            suggested.push(None);
        } else {
            factor_windows.push(w);
            let window = velocity(&poses[w], &poses[w + 1], samples);
            let seed = if Scalar::zero().lt(window.duration) {
                window.velocity
            } else {
                Point3::zero()
            };
            suggested.push(Some(seed));
        }
        proof {
            assert forall|k: int| 0 <= k < w + 1 implies is_window_velocity(
                *velocity,
                windows[k],
                poses@[k],
                poses@[k + 1],
                #[trigger] suggested@[k],
            ) by {
                if k < w {
                    assert(suggested@[k] == before[k]);
                }
            }
        }
        w += 1;
    }
    let frames = poses.len();
    let mut seeds: Vec<Option<Point3>> = Vec::new();
    let ghost all = keyframe_velocities(suggested@);
    let mut i: usize = 0;
    while i < frames
        invariant
            i <= frames,
            frames == suggested.len() + 1,
            all == keyframe_velocities(suggested@),
            seeds@ == all.take(i as int),
        decreases frames - i,
    {
        let seed = if i > 0 && suggested[i - 1].is_some() {
            suggested[i - 1]
        } else if i < suggested.len() {
            suggested[i]
        } else {
            None
        };
        seeds.push(seed);
        assert(seeds@ =~= all.take(i + 1));
        i += 1;
    }
    assert(all.take(frames as int) =~= all);
    let mut random_walk_from: Vec<usize> = Vec::new();
    if input.bias_random_walk_weight.is_some() {
        let mut k: usize = 0;
        while k < suggested.len()
            invariant
                k <= suggested.len(),
                seeds.len() == suggested.len() + 1,
                random_walk_from@ == indices_where(k as nat, is_tied(seeds@)),
            decreases suggested.len() - k,
        {
            if seeds[k].is_some() && seeds[k + 1].is_some() {
                random_walk_from.push(k);
            }
            k += 1;
        }
    }
    let first = find_first_active(&seeds);
    let plan = ImuPlan {
        factor_windows,
        velocity_seeds: seeds,
        random_walk_from,
        fixed_bias: if input.fix_first_bias {
            first
        } else {
            None
        },
        fixed_velocity: if input.fix_first_velocity {
            first
        } else {
            None
        },
    };
    assert(are_window_velocities(*velocity, windows, poses@, suggested@));
    plan
}

/// The entry at an index, if there is one.
pub open spec fn entry<T>(entries: Seq<Option<T>>, i: int) -> Option<T> {
    if 0 <= i < entries.len() {
        entries[i]
    } else {
        None
    }
}

/// The entry at an index, or a value in its place.
pub open spec fn entry_or<T>(entries: Seq<Option<T>>, i: int, other: T) -> T {
    match entry(entries, i) {
        Some(value) => value,
        None => other,
    }
}

/// The entry at an index, if there is one.
pub fn get_entry<T: Copy>(entries: &Vec<Option<T>>, i: usize) -> (value: Option<T>)
    ensures
        value == entry(entries@, i as int),
{
    if i < entries.len() {
        entries[i]
    } else {
        None
    }
}

/// Velocities and biases per keyframe: as solved, or the first ones where a keyframe took
/// no part.
pub open spec fn is_imu_refinement(
    input: StereoVoBaImuInput,
    frames: nat,
    velocities: Seq<Option<Point3>>,
    biases: Seq<Option<ImuBias>>,
    refinement: StereoVoBaImuRefinement,
) -> bool {
    let start = ImuBias { gyro: input.bias_gyro_init, acc: input.bias_acc_init };
    &&& refinement.refined_velocities@ == Seq::new(
        frames,
        |i: int| entry_or(velocities, i, Point3::zero()),
    )
    &&& refinement.refined_bias_gyro@ == Seq::new(
        frames,
        |i: int| entry_or(biases, i, start).gyro,
    )
    &&& refinement.refined_bias_acc@ == Seq::new(frames, |i: int| entry_or(biases, i, start).acc)
}

/// Reads back the refined velocities and biases.
pub fn read_imu_refinement(
    input: &StereoVoBaImuInput,
    frames: usize,
    velocities: &Vec<Option<Point3>>,
    biases: &Vec<Option<ImuBias>>,
) -> (refinement: StereoVoBaImuRefinement)
    ensures
        is_imu_refinement(*input, frames as nat, velocities@, biases@, refinement),
{
    let start = ImuBias { gyro: input.bias_gyro_init, acc: input.bias_acc_init };
    let mut refined_velocities: Vec<Point3> = Vec::new();
    let mut refined_bias_gyro: Vec<Point3> = Vec::new();
    let mut refined_bias_acc: Vec<Point3> = Vec::new();
    let mut i: usize = 0;
    while i < frames
        invariant
            i <= frames,
            start == (ImuBias { gyro: input.bias_gyro_init, acc: input.bias_acc_init }),
            refined_velocities@ == Seq::new(
                i as nat,
                |k: int| entry_or(velocities@, k, Point3::zero()),
            ),
            refined_bias_gyro@ == Seq::new(i as nat, |k: int| entry_or(biases@, k, start).gyro),
            refined_bias_acc@ == Seq::new(i as nat, |k: int| entry_or(biases@, k, start).acc),
        decreases frames - i,
    {
        let velocity = match get_entry(velocities, i) {
            Some(value) => value,
            None => Point3::zero(),
        };
        let bias = match get_entry(biases, i) {
            Some(value) => value,
            None => start,
        };
        refined_velocities.push(velocity);
        refined_bias_gyro.push(bias.gyro);
        refined_bias_acc.push(bias.acc);
        i += 1;
        assert(refined_velocities@ =~= Seq::new(
            i as nat,
            |k: int| entry_or(velocities@, k, Point3::zero()),
        ));
        assert(refined_bias_gyro@ =~= Seq::new(
            i as nat,
            |k: int| entry_or(biases@, k, start).gyro,
        ));
        assert(refined_bias_acc@ =~= Seq::new(i as nat, |k: int| entry_or(biases@, k, start).acc));
    }
    StereoVoBaImuRefinement { refined_velocities, refined_bias_gyro, refined_bias_acc }
}

/// A keyframe takes part exactly when a window on one of its sides has samples.
pub proof fn keyframes_beside_samples_take_part<V>(
    velocity: V,
    windows: Seq<Vec<StereoVoBaImuSample>>,
    poses: Seq<Pose>,
    suggested: Seq<Option<Point3>>,
    i: int,
) where V: Fn(&Pose, &Pose, &Vec<StereoVoBaImuSample>) -> WindowVelocity
    requires
        are_window_velocities(velocity, windows, poses, suggested),
        0 <= i <= windows.len(),
    ensures
        keyframe_velocities(suggested)[i] is Some <==> (i > 0 && windows[i - 1].len() > 0) || (i
            < windows.len() && windows[i].len() > 0),
{
    if i > 0 {
        assert(is_window_velocity(
            velocity,
            windows[i - 1],
            poses[i - 1],
            poses[i - 1 + 1],
            suggested[i - 1],
        ));
    }
    if i < windows.len() {
        assert(is_window_velocity(velocity, windows[i], poses[i], poses[i + 1], suggested[i]));
    }
}

/// What a plan ties together. A window has a factor exactly where it has samples. The
/// velocity of a keyframe starts from the window before it where that has samples, else from
/// the window after it; a window's velocity counts where it lasts longer than nothing. Biases
/// walk between neighbours that both take part, where a weight is given; and the first
/// keyframe that takes part is held as asked.
pub proof fn plans_follow_the_samples<V>(
    velocity: V,
    input: StereoVoBaImuInput,
    poses: Seq<Pose>,
    plan: ImuPlan,
) -> (suggested: Seq<Option<Point3>>) where
    V: Fn(&Pose, &Pose, &Vec<StereoVoBaImuSample>) -> WindowVelocity,

    requires
        is_imu_plan(velocity, input, poses, plan),
        input.windows@.len() < usize::MAX,
    ensures
        suggested.len() == input.windows@.len(),
        forall|w: int|
            0 <= w < input.windows@.len() ==> {
                &&& (#[trigger] suggested[w]) is Some <==> input.windows@[w]@.len() > 0
                &&& suggested[w] matches Some(start) ==> exists|window: WindowVelocity|
                    {
                        &&& #[trigger] call_ensures(
                            velocity,
                            (&poses[w], &poses[w + 1], &input.windows@[w]),
                            window,
                        )
                        &&& Scalar::zero().lt(window.duration) ==> start == window.velocity
                        &&& !Scalar::zero().lt(window.duration) ==> start == Point3::zero()
                    }
            },
        forall|w: usize|
            plan.factor_windows@.contains(w) <==> w < input.windows@.len()
                && #[trigger] input.windows@[w as int]@.len() > 0,
        plan.velocity_seeds@.len() == input.windows@.len() + 1,
        forall|i: int|
            0 <= i <= input.windows@.len() ==> {
                let seed = #[trigger] plan.velocity_seeds@[i];
                &&& i > 0 && suggested[i - 1] is Some ==> seed == suggested[i - 1]
                &&& !(i > 0 && suggested[i - 1] is Some) && i < suggested.len() ==> seed
                    == suggested[i]
                &&& !(i > 0 && suggested[i - 1] is Some) && i == suggested.len() ==> seed is None
            },
        input.bias_random_walk_weight is None ==> plan.random_walk_from@.len() == 0,
        input.bias_random_walk_weight is Some ==> forall|i: usize|
            #[trigger] plan.random_walk_from@.contains(i) <==> i < input.windows@.len()
                && plan.velocity_seeds@[i as int] is Some && plan.velocity_seeds@[i + 1] is Some,
        !input.fix_first_bias ==> plan.fixed_bias is None,
        !input.fix_first_velocity ==> plan.fixed_velocity is None,
        input.fix_first_bias ==> is_first_active(plan.velocity_seeds@, plan.fixed_bias),
        input.fix_first_velocity ==> is_first_active(plan.velocity_seeds@, plan.fixed_velocity),
{
    let suggested = choose|suggested: Seq<Option<Point3>>|
        {
            let seeds = keyframe_velocities(suggested);
            let first = first_active(seeds, 0);
            &&& #[trigger] are_window_velocities(velocity, input.windows@, poses, suggested)
            &&& plan.factor_windows@ == indices_where(
                input.windows@.len(),
                has_samples(input.windows@),
            )
            &&& plan.velocity_seeds@ == seeds
            &&& plan.random_walk_from@ == (if input.bias_random_walk_weight is Some {
                indices_where(suggested.len(), is_tied(seeds))
            } else {
                Seq::empty()
            })
            &&& plan.fixed_bias == (if input.fix_first_bias {
                first
            } else {
                None
            })
            &&& plan.fixed_velocity == (if input.fix_first_velocity {
                first
            } else {
                None
            })
        };
    let windows = input.windows@;
    let seeds = keyframe_velocities(suggested);
    let p = has_samples(windows);
    let q = is_tied(seeds);
    lemma_indices_where(windows.len(), p);
    lemma_indices_where(suggested.len(), q);
    lemma_first_active(seeds, 0);
    assert forall|w: int| 0 <= w < windows.len() implies ({
        &&& (#[trigger] suggested[w]) is Some <==> windows[w]@.len() > 0
        &&& suggested[w] matches Some(start) ==> exists|window: WindowVelocity|
            {
                &&& #[trigger] call_ensures(
                    velocity,
                    (&poses[w], &poses[w + 1], &windows[w]),
                    window,
                )
                &&& Scalar::zero().lt(window.duration) ==> start == window.velocity
                &&& !Scalar::zero().lt(window.duration) ==> start == Point3::zero()
            }
    }) by {
        assert(is_window_velocity(velocity, windows[w], poses[w], poses[w + 1], suggested[w]));
        assert(windows[w].len() == windows[w]@.len());
    }
    assert forall|w: usize|
        plan.factor_windows@.contains(w) <==> w < windows.len()
            && #[trigger] windows[w as int]@.len() > 0 by {
        if plan.factor_windows@.contains(w) {
            let k = plan.factor_windows@.index_of(w);
            assert(p(plan.factor_windows@[k] as int));
        }
        if w < windows.len() && windows[w as int]@.len() > 0 {
            assert(p(w as int));
        }
    }
    if input.bias_random_walk_weight is Some {
        let from = plan.random_walk_from@;
        assert forall|i: usize| #[trigger]
            from.contains(i) <==> i < windows.len() && seeds[i as int] is Some && seeds[i
                + 1] is Some by {
            if from.contains(i) {
                assert(q(from[from.index_of(i)] as int));
            }
            if i < windows.len() && q(i as int) {
                assert(from.contains(i));
            }
        }
    }
    suggested
}

/// The first keyframe that takes part, if any does.
pub open spec fn is_first_active(seeds: Seq<Option<Point3>>, found: Option<usize>) -> bool {
    match found {
        Some(k) => k < seeds.len() && seeds[k as int] is Some && forall|i: int|
            0 <= i < k ==> (#[trigger] seeds[i]) is None,
        None => forall|i: int| 0 <= i < seeds.len() ==> (#[trigger] seeds[i]) is None,
    }
}

proof fn lemma_first_active(seeds: Seq<Option<Point3>>, start: int)
    requires
        0 <= start <= seeds.len() <= usize::MAX,
        forall|i: int| 0 <= i < start ==> (#[trigger] seeds[i]) is None,
    ensures
        is_first_active(seeds, first_active(seeds, start)),
    decreases seeds.len() - start,
{
    if start < seeds.len() && seeds[start] is None {
        lemma_first_active(seeds, start + 1);
    }
}

/// What is read back for a frame: its solved velocity and biases, and where there are none
/// zero and the biases that the solve started from.
pub proof fn unsolved_frames_keep_their_start(
    input: StereoVoBaImuInput,
    frames: nat,
    velocities: Seq<Option<Point3>>,
    biases: Seq<Option<ImuBias>>,
    refinement: StereoVoBaImuRefinement,
    i: int,
)
    requires
        is_imu_refinement(input, frames, velocities, biases, refinement),
        0 <= i < frames,
    ensures
        refinement.refined_velocities@.len() == frames,
        refinement.refined_bias_gyro@.len() == frames,
        refinement.refined_bias_acc@.len() == frames,
        i < velocities.len() && velocities[i] is Some ==> velocities[i] == Some(
            refinement.refined_velocities@[i],
        ),
        i >= velocities.len() || velocities[i] is None ==> refinement.refined_velocities@[i]
            == Point3::zero(),
        i < biases.len() && biases[i] is Some ==> biases[i] == Some(
            ImuBias {
                gyro: refinement.refined_bias_gyro@[i],
                acc: refinement.refined_bias_acc@[i],
            },
        ),
        i >= biases.len() || biases[i] is None ==> refinement.refined_bias_gyro@[i]
            == input.bias_gyro_init && refinement.refined_bias_acc@[i] == input.bias_acc_init,
{
}

} // verus!
