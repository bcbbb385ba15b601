use nalgebra::{DMatrix, DVector, Matrix3, UnitQuaternion, Vector3};
use visloc_slam::bundle::BaResult;
use visloc_slam::geometry::{Point3, Pose, Quaternion};
use visloc_slam::scalar::Scalar;
use visloc_slam::vi_alignment::{
    estimate_gravity_and_velocities, estimate_gyro_bias, prepare_alignment, AlignmentTask,
    GravityNumerics, GravityVelocityAlignment, GyroBiasAlignment, GyroNumerics, GyroStep,
    ImuFactor, KeyframePoses, RawGravity, TangentStep,
};
use visloc_slam::vi_initializer::VisualInertialInitializationResult;
use visloc_slam::vi_motion_initializer::{
    judge_result, BaCostBreakdown, BiasReleaseSchedule, InertialMode, InertialStats, InertialTask,
    KeyframeImuState, MotionBasedViInitializationResult, MotionBasedViInitializationStatus,
    MotionBasedViInitializer, MotionBasedViInitializerConfig, MotionBasedViRejectionReason,
    MotionNumerics, Viba2Config,
};

fn scalar(value: f64) -> Scalar {
    Scalar::from_bits(value.to_bits())
}

fn float(value: Scalar) -> f64 {
    f64::from_bits(value.to_bits())
}

fn point(value: &nalgebra::Vector3<f64>) -> Point3 {
    Point3 { x: scalar(value.x), y: scalar(value.y), z: scalar(value.z) }
}

fn vector(value: &Point3) -> nalgebra::Vector3<f64> {
    nalgebra::Vector3::new(float(value.x), float(value.y), float(value.z))
}

fn quaternion(value: &nalgebra::UnitQuaternion<f64>) -> Quaternion {
    Quaternion {
        w: scalar(value.w),
        x: scalar(value.i),
        y: scalar(value.j),
        z: scalar(value.k),
    }
}

fn rotation(value: &Quaternion) -> nalgebra::UnitQuaternion<f64> {
    nalgebra::UnitQuaternion::new_unchecked(nalgebra::Quaternion::new(
        float(value.w),
        float(value.x),
        float(value.y),
        float(value.z),
    ))
}

fn camera_center(pose: &Pose) -> nalgebra::Vector3<f64> {
    -(rotation(&pose.rotation).inverse() * vector(&pose.translation))
}

/// First `other`, then `pose`.
fn compose_poses(pose: &Pose, other: &Pose) -> Pose {
    let turn = rotation(&pose.rotation);
    Pose {
        rotation: quaternion(&(turn * rotation(&other.rotation))),
        translation: point(&(turn * vector(&other.translation) + vector(&pose.translation))),
    }
}

fn norm_of(value: &Point3) -> Scalar {
    scalar(vector(value).norm())
}

/// Inertial samples between two keyframes, integrated, with derivatives by the biases at
/// which they were integrated.
#[derive(Clone, Debug)]
struct ImuDelta {
    rotation: nalgebra::UnitQuaternion<f64>,
    velocity: nalgebra::Vector3<f64>,
    position: nalgebra::Vector3<f64>,
    time: f64,
    bias_gyro: nalgebra::Vector3<f64>,
    bias_acc: nalgebra::Vector3<f64>,
    j_rotation_bg: nalgebra::Matrix3<f64>,
    j_velocity_bg: nalgebra::Matrix3<f64>,
    j_velocity_ba: nalgebra::Matrix3<f64>,
    j_position_bg: nalgebra::Matrix3<f64>,
    j_position_ba: nalgebra::Matrix3<f64>,
}

impl ImuDelta {
    fn identity() -> ImuDelta {
        ImuDelta {
            rotation: nalgebra::UnitQuaternion::identity(),
            velocity: nalgebra::Vector3::zeros(),
            position: nalgebra::Vector3::zeros(),
            time: 0.0,
            bias_gyro: nalgebra::Vector3::zeros(),
            bias_acc: nalgebra::Vector3::zeros(),
            j_rotation_bg: nalgebra::Matrix3::zeros(),
            j_velocity_bg: nalgebra::Matrix3::zeros(),
            j_velocity_ba: nalgebra::Matrix3::zeros(),
            j_position_bg: nalgebra::Matrix3::zeros(),
            j_position_ba: nalgebra::Matrix3::zeros(),
        }
    }

    /// Rotation, velocity and displacement at other biases, to first order.
    fn corrected(
        &self,
        bias_gyro: &nalgebra::Vector3<f64>,
        bias_acc: &nalgebra::Vector3<f64>,
    ) -> (nalgebra::UnitQuaternion<f64>, nalgebra::Vector3<f64>, nalgebra::Vector3<f64>) {
        let gyro = bias_gyro - self.bias_gyro;
        let acc = bias_acc - self.bias_acc;
        (
            self.rotation
                * nalgebra::UnitQuaternion::from_scaled_axis(self.j_rotation_bg * gyro),
            self.velocity + self.j_velocity_bg * gyro + self.j_velocity_ba * acc,
            self.position + self.j_position_bg * gyro + self.j_position_ba * acc,
        )
    }
}

/// An integrated stretch of samples between two keyframes.
#[derive(Clone, Debug)]
struct ImuPreintegrationFactor {
    keyframe_id_from: u64,
    keyframe_id_to: u64,
    delta: ImuDelta,
    gravity_world: nalgebra::Vector3<f64>,
}

/// What the initialiser reads of the factors, out of their floating point fields.
fn plain_factors(factors: &[ImuPreintegrationFactor]) -> Vec<ImuFactor> {
    factors
        .iter()
        .map(|factor| ImuFactor {
            keyframe_id_from: factor.keyframe_id_from,
            keyframe_id_to: factor.keyframe_id_to,
            delta_time: scalar(factor.delta.time),
            gravity_world: point(&factor.gravity_world),
        })
        .collect()
}

/// What one factor says of two velocities and gravity.
struct AlignmentRow {
    from: usize,
    to: usize,
    time: f64,
    position: nalgebra::Vector3<f64>,
    velocity: nalgebra::Vector3<f64>,
}

fn slot_of(task: &AlignmentTask, id: u64) -> Option<usize> {
    task.keyframe_ids.iter().position(|other| *other == id)
}

fn alignment_rows(
    task: &AlignmentTask,
    factors: &[ImuPreintegrationFactor],
) -> Vec<AlignmentRow> {
    let mut rows = Vec::new();
    for index in &task.factors {
        let factor = &factors[*index];
        let ends = (slot_of(task, factor.keyframe_id_from), slot_of(task, factor.keyframe_id_to));
        if let (Some(from), Some(to)) = ends {
            let body = rotation(&task.poses[from].rotation).inverse();
            let moved = camera_center(&task.poses[to]) - camera_center(&task.poses[from]);
            let (_, velocity, position) =
                factor.delta.corrected(&vector(&task.bias_gyro), &vector(&task.bias_acc));
            rows.push(AlignmentRow {
                from,
                to,
                time: factor.delta.time,
                position: moved - body * position,
                velocity: body * velocity,
            });
        }
    }
    rows
}

/// Least squares for velocities and for the coordinates of gravity along some directions,
/// around a given gravity.
fn solve_alignment(
    rows: &[AlignmentRow],
    keyframes: usize,
    directions: &[nalgebra::Vector3<f64>],
    around: &nalgebra::Vector3<f64>,
) -> Option<nalgebra::DVector<f64>> {
    let unknowns = 3 * keyframes + directions.len();
    let mut system = nalgebra::DMatrix::<f64>::zeros(6 * rows.len(), unknowns);
    let mut target = nalgebra::DVector::<f64>::zeros(6 * rows.len());
    for (r, row) in rows.iter().enumerate() {
        let half = 0.5 * row.time * row.time;
        for k in 0..3 {
            let (at, below) = (6 * r + k, 6 * r + 3 + k);
            system[(at, 3 * row.from + k)] = row.time;
            system[(below, 3 * row.from + k)] = -1.0;
            system[(below, 3 * row.to + k)] = 1.0;
            for (d, direction) in directions.iter().enumerate() {
                system[(at, 3 * keyframes + d)] = half * direction[k];
                system[(below, 3 * keyframes + d)] = -row.time * direction[k];
            }
            target[at] = row.position[k] - half * around[k];
            target[below] = row.velocity[k] + row.time * around[k];
        }
    }
    system.svd(true, true).solve(&target, 1.0e-9).ok()
}

fn velocities_in(solution: &nalgebra::DVector<f64>, keyframes: usize) -> Vec<Point3> {
    (0..keyframes).map(|k| point(&solution.fixed_rows::<3>(3 * k).into_owned())).collect()
}

fn raw_gravity(task: &AlignmentTask, factors: &[ImuPreintegrationFactor]) -> Option<RawGravity> {
    let rows = alignment_rows(task, factors);
    let count = task.keyframe_ids.len();
    let axes = [nalgebra::Vector3::x(), nalgebra::Vector3::y(), nalgebra::Vector3::z()];
    let solution = solve_alignment(&rows, count, &axes, &nalgebra::Vector3::zeros())?;
    let gravity = solution.fixed_rows::<3>(3 * count).into_owned();
    Some(RawGravity {
        gravity: point(&gravity),
        norm: scalar(gravity.norm()),
        velocities: velocities_in(&solution, count),
    })
}

fn gravity_direction(raw: &RawGravity) -> Point3 {
    point(&(vector(&raw.gravity) / float(raw.norm)))
}

/// Two directions at right angles to a direction and to each other.
fn tangent_basis(
    direction: &nalgebra::Vector3<f64>,
) -> (nalgebra::Vector3<f64>, nalgebra::Vector3<f64>) {
    let reference = if direction.x.abs() < 0.9 {
        nalgebra::Vector3::x()
    } else {
        nalgebra::Vector3::y()
    };
    let first = direction.cross(&reference).normalize();
    let second = direction.cross(&first).normalize();
    (first, second)
}

/// One solve with gravity held to a norm, along the tangent of its direction.
fn refine_gravity(
    task: &AlignmentTask,
    factors: &[ImuPreintegrationFactor],
    norm: Scalar,
    direction: &Point3,
) -> Option<TangentStep> {
    let rows = alignment_rows(task, factors);
    let count = task.keyframe_ids.len();
    let along = vector(direction);
    let (first, second) = tangent_basis(&along);
    let length = float(norm);
    let basis = [first * length, second * length];
    let solution = solve_alignment(&rows, count, &basis, &(along * length))?;
    let (w1, w2) = (solution[3 * count], solution[3 * count + 1]);
    let moved = along + w1 * first + w2 * second;
    Some(TangentStep {
        w1: scalar(w1),
        w2: scalar(w2),
        norm: scalar(moved.norm()),
        direction: point(&(moved / moved.norm())),
        velocities: velocities_in(&solution, count),
    })
}

fn scale_to_norm(norm: Scalar, direction: &Point3) -> Point3 {
    point(&(vector(direction) * float(norm)))
}

fn gravity_residual(
    task: &AlignmentTask,
    factors: &[ImuPreintegrationFactor],
    gravity: &Point3,
    velocities: &Vec<Point3>,
) -> Scalar {
    let rows = alignment_rows(task, factors);
    let down = vector(gravity);
    let mut sum = 0.0;
    for row in &rows {
        let (from, to) = (vector(&velocities[row.from]), vector(&velocities[row.to]));
        let position =
            from * row.time + 0.5 * row.time * row.time * down - row.position;
        let velocity = to - from - row.time * down - row.velocity;
        sum += position.norm_squared() + velocity.norm_squared();
    }
    scalar((sum / (6.0 * rows.len() as f64)).sqrt())
}

/// The rotation that each factor leaves unexplained at a bias, with its derivative.
fn rotation_residuals(
    task: &AlignmentTask,
    factors: &[ImuPreintegrationFactor],
    bias: &Point3,
) -> Vec<(nalgebra::Vector3<f64>, nalgebra::Matrix3<f64>)> {
    let mut residuals = Vec::new();
    for index in &task.factors {
        let factor = &factors[*index];
        let ends = (slot_of(task, factor.keyframe_id_from), slot_of(task, factor.keyframe_id_to));
        if let (Some(from), Some(to)) = ends {
            let (turn, _, _) = factor.delta.corrected(&vector(bias), &factor.delta.bias_acc);
            let relative = rotation(&task.poses[from].rotation)
                * rotation(&task.poses[to].rotation).inverse();
            residuals.push(((turn.inverse() * relative).scaled_axis(), factor.delta.j_rotation_bg));
        }
    }
    residuals
}

fn gyro_rms(task: &AlignmentTask, factors: &[ImuPreintegrationFactor], bias: &Point3) -> Scalar {
    let residuals = rotation_residuals(task, factors, bias);
    let sum: f64 = residuals.iter().map(|(residual, _)| residual.norm_squared()).sum();
    scalar((sum / (3.0 * residuals.len() as f64)).sqrt())
}

fn gyro_step(
    task: &AlignmentTask,
    factors: &[ImuPreintegrationFactor],
    bias: &Point3,
) -> Option<GyroStep> {
    let mut normal = nalgebra::Matrix3::zeros();
    let mut target = nalgebra::Vector3::zeros();
    for (residual, derivative) in rotation_residuals(task, factors, bias) {
        normal += derivative.transpose() * derivative;
        target += derivative.transpose() * residual;
    }
    let step = normal.try_inverse()? * target;
    Some(GyroStep {
        step: point(&step),
        norm: scalar(step.norm()),
        bias: point(&(vector(bias) + step)),
    })
}

/// How far a norm is off an expected one, as a ratio of it.
fn deviation_ratio(raw: Scalar, expected: Scalar) -> Scalar {
    if float(expected) > 0.0 {
        scalar((float(raw) - float(expected)).abs() / float(expected))
    } else {
        scalar(f64::INFINITY)
    }
}

fn velocity_between(from: &Point3, to: &Point3, time: Scalar) -> Point3 {
    point(&((vector(to) - vector(from)) / float(time)))
}

fn extend_chain(length: Scalar, from: &Point3, to: &Point3) -> Scalar {
    scalar(float(length) + (vector(to) - vector(from)).norm())
}

/// A group of variables: a rotation, if it has one, and numbers that are added to.
#[derive(Clone)]
struct Block {
    rotation: Option<UnitQuaternion<f64>>,
    values: Vec<f64>,
    fixed: bool,
}

impl Block {
    fn freedom(&self) -> usize {
        if self.fixed {
            0
        } else {
            self.values.len() + if self.rotation.is_some() { 3 } else { 0 }
        }
    }

    /// The block after a step; a rotation is turned from the left.
    fn moved(&self, step: &[f64]) -> Block {
        let mut next = self.clone();
        let mut at = 0;
        if let Some(turn) = &self.rotation {
            let axis = Vector3::new(step[0], step[1], step[2]);
            next.rotation = Some(UnitQuaternion::from_scaled_axis(axis) * turn);
            at = 3;
        }
        for (value, change) in next.values.iter_mut().zip(&step[at..]) {
            *value += change;
        }
        next
    }
}

/// A whitened residual over some blocks, with an optional robust radius.
struct Factor<'a> {
    blocks: Vec<usize>,
    huber: Option<f64>,
    residual: Box<dyn Fn(&[&Block]) -> Vec<f64> + 'a>,
}

impl Factor<'_> {
    fn at(&self, blocks: &[Block]) -> Vec<f64> {
        let picked: Vec<&Block> = self.blocks.iter().map(|i| &blocks[*i]).collect();
        (self.residual)(&picked)
    }

    /// Cost of a squared length, and the weight of its residual.
    fn robust(&self, squared: f64) -> (f64, f64) {
        match self.huber {
            Some(radius) if squared > radius * radius => {
                let length = squared.sqrt();
                (2.0 * radius * length - radius * radius, radius / length)
            }
            _ => (squared, 1.0),
        }
    }
}

struct Summary {
    initial_cost: f64,
    final_cost: f64,
    iterations: usize,
    converged: bool,
}

fn total_cost(blocks: &[Block], factors: &[Factor]) -> f64 {
    factors
        .iter()
        .map(|factor| {
            let squared = factor.at(blocks).iter().map(|r| r * r).sum();
            factor.robust(squared).0
        })
        .sum()
}

/// Damped least squares with numeric derivatives.
fn minimize(blocks: &mut Vec<Block>, factors: &[Factor], max_iterations: usize) -> Summary {
    let mut offsets = Vec::new();
    let mut dim = 0;
    for block in blocks.iter() {
        offsets.push(dim);
        dim += block.freedom();
    }
    let initial_cost = total_cost(blocks, factors);
    let mut summary =
        Summary { initial_cost, final_cost: initial_cost, iterations: 0, converged: false };
    let mut lambda = 1e-6;
    while summary.iterations < max_iterations && !summary.converged && dim > 0 {
        let mut hessian = DMatrix::<f64>::zeros(dim, dim);
        let mut gradient = DVector::<f64>::zeros(dim);
        for factor in factors {
            let residual = factor.at(blocks);
            let squared = residual.iter().map(|r| r * r).sum();
            let weight = factor.robust(squared).1;
            let mut columns: Vec<(usize, Vec<f64>)> = Vec::new();
            for (slot, index) in factor.blocks.iter().enumerate() {
                let freedom = blocks[*index].freedom();
                for k in 0..freedom {
                    let mut step = vec![0.0; freedom];
                    step[k] = 1e-6;
                    let ahead = blocks[*index].moved(&step);
                    step[k] = -1e-6;
                    let back = blocks[*index].moved(&step);
                    let mut picked: Vec<&Block> =
                        factor.blocks.iter().map(|i| &blocks[*i]).collect();
                    picked[slot] = &ahead;
                    let plus = (factor.residual)(&picked);
                    picked[slot] = &back;
                    let minus = (factor.residual)(&picked);
                    let column =
                        plus.iter().zip(&minus).map(|(p, m)| (p - m) / 2e-6).collect();
                    columns.push((offsets[*index] + k, column));
                }
            }
            for (i, one) in &columns {
                gradient[*i] +=
                    weight * one.iter().zip(&residual).map(|(a, b)| a * b).sum::<f64>();
                for (j, other) in &columns {
                    hessian[(*i, *j)] +=
                        weight * one.iter().zip(other).map(|(a, b)| a * b).sum::<f64>();
                }
            }
        }
        let mut accepted = false;
        while !accepted && lambda < 1e12 {
            let mut damped = hessian.clone();
            for k in 0..dim {
                damped[(k, k)] += lambda * (1.0 + hessian[(k, k)]);
            }
            if let Some(factorized) = damped.cholesky() {
                let delta = factorized.solve(&(-&gradient));
                let next: Vec<Block> = blocks
                    .iter()
                    .zip(&offsets)
                    .map(|(block, at)| {
                        if block.fixed {
                            block.clone()
                        } else {
                            block.moved(&delta.as_slice()[*at..*at + block.freedom()])
                        }
                    })
                    .collect();
                let cost = total_cost(&next, factors);
                if cost <= summary.final_cost {
                    accepted = true;
                    summary.converged =
                        delta.amax() < 1e-9 || summary.final_cost - cost < 1e-12;
                    summary.final_cost = cost;
                    *blocks = next;
                    lambda = (lambda * 0.1).max(1e-12);
                }
            }
            if !accepted {
                lambda *= 10.0;
            }
        }
        summary.iterations += 1;
        if !accepted {
            summary.converged = true;
        }
    }
    summary
}

type Initializer = MotionBasedViInitializer<usize>;
type InitializerResult = MotionBasedViInitializationResult<usize>;

fn state_block(state: &KeyframeImuState, fixed: bool) -> Block {
    let mut values = Vec::new();
    for part in [&state.velocity_world, &state.bias_gyro, &state.bias_acc] {
        let part = vector(part);
        values.extend([part.x, part.y, part.z]);
    }
    Block { rotation: None, values, fixed }
}

fn part(block: &Block, at: usize) -> Vector3<f64> {
    Vector3::new(block.values[at], block.values[at + 1], block.values[at + 2])
}

/// Rotation, velocity and position residual of one factor between fixed poses.
fn inertial_residual(
    delta: &ImuDelta,
    gravity: &Vector3<f64>,
    poses: (&Pose, &Pose),
    from: &Block,
    to: &Block,
) -> [Vector3<f64>; 3] {
    let (turn, velocity, position) = delta.corrected(&part(from, 3), &part(from, 6));
    let body = rotation(&poses.0.rotation);
    let moved = camera_center(poses.1) - camera_center(poses.0);
    let time = delta.time;
    [
        (turn.inverse() * body * rotation(&poses.1.rotation).inverse()).scaled_axis(),
        body * (part(to, 0) - part(from, 0) - gravity * time) - velocity,
        body * (moved - part(from, 0) * time - 0.5 * gravity * time * time) - position,
    ]
}

fn breakdown(residuals: &[[Vector3<f64>; 3]]) -> BaCostBreakdown {
    let count = residuals.len() as f64;
    let sum = |k: usize| residuals.iter().map(|one| one[k].norm_squared()).sum::<f64>();
    let rms = |k: usize| Some(scalar((sum(k) / (3.0 * count)).sqrt()));
    BaCostBreakdown {
        imu_rotation_residual_rms_rad: rms(0),
        imu_velocity_residual_rms_mps: rms(1),
        imu_position_residual_rms_meters: rms(2),
        imu_normalized_squared_residual_per_dof: Some(scalar(
            (sum(0) + sum(1) + sum(2)) / (9.0 * count),
        )),
    }
}

/// Solves for the states of all keyframes but the first, with the poses held.
fn solve_inertial(
    task: &InertialTask,
    factors: &[ImuPreintegrationFactor],
) -> Option<InertialStats<usize>> {
    let slot = |id: u64| task.keyframe_ids.iter().position(|other| *other == id);
    let mut links = Vec::new();
    for (plain, full) in task.factors.iter().zip(factors) {
        if let (Some(from), Some(to)) = (slot(plain.keyframe_id_from), slot(plain.keyframe_id_to)) {
            links.push((from, to, vector(&plain.gravity_world), &full.delta));
        }
    }
    if links.is_empty() {
        return None;
    }
    let held = matches!(task.mode, InertialMode::VelocitiesOnly);
    let mut blocks: Vec<Block> = Vec::new();
    for (k, state) in task.states.iter().enumerate() {
        blocks.push(state_block(state, k == 0));
    }
    let seeds = blocks.clone();
    let residuals_at = |blocks: &[Block]| -> Vec<[Vector3<f64>; 3]> {
        links
            .iter()
            .map(|(from, to, gravity, delta)| {
                let poses = (&task.body_poses[*from], &task.body_poses[*to]);
                inertial_residual(delta, gravity, poses, &blocks[*from], &blocks[*to])
            })
            .collect()
    };
    let initial = breakdown(&residuals_at(&blocks));
    let keep = &seeds;
    let mut list: Vec<Factor> = Vec::new();
    for (from, to, gravity, delta) in &links {
        let (from, to, gravity) = (*from, *to, *gravity);
        let delta: &ImuDelta = delta;
        let poses = (&task.body_poses[from], &task.body_poses[to]);
        list.push(Factor {
            blocks: vec![from, to],
            huber: None,
            residual: Box::new(move |blocks: &[&Block]| {
                let hold = |block: &Block, seed: &Block| {
                    let mut copy = block.clone();
                    if held {
                        copy.values[3..].copy_from_slice(&seed.values[3..]);
                    }
                    copy
                };
                let (one, other) = (hold(blocks[0], &keep[from]), hold(blocks[1], &keep[to]));
                inertial_residual(delta, &gravity, poses, &one, &other)
                    .iter()
                    .flat_map(|error| error.iter().copied().collect::<Vec<f64>>())
                    .collect()
            }),
        });
    }
    let summary = minimize(&mut blocks, &list, task.ba_config.max_iterations.unwrap_or(30));
    if held {
        for (block, seed) in blocks.iter_mut().zip(&seeds) {
            block.values[3..].copy_from_slice(&seed.values[3..]);
        }
    }
    let (scale_history, outer_iterations_run) = match &task.mode {
        InertialMode::WithScale(config) => (vec![config.initial_scale], 1),
        _ => (Vec::new(), 0),
    };
    Some(InertialStats {
        keyframe_states: task
            .keyframe_ids
            .iter()
            .zip(&blocks)
            .map(|(id, block)| {
                let state = KeyframeImuState {
                    velocity_world: point(&part(block, 0)),
                    bias_gyro: point(&part(block, 3)),
                    bias_acc: point(&part(block, 6)),
                };
                (*id, state)
            })
            .collect(),
        keyframe_ids: task.keyframe_ids.clone(),
        imu_factor_count: links.len(),
        scale: scalar(1.0),
        scale_history,
        outer_iterations_run,
        ba_result: BaResult {
            initial_cost: scalar(summary.initial_cost),
            final_cost: scalar(summary.final_cost),
            iterations: (0..summary.iterations).collect(),
            converged: summary.converged,
        },
        initial_cost_breakdown: initial,
        final_cost_breakdown: breakdown(&residuals_at(&blocks)),
    })
}

fn initialize_from<'a>(
    init: &'a mut Initializer,
    poses: &KeyframePoses,
    factors: &[ImuPreintegrationFactor],
    bias_gyro: Vector3<f64>,
    bias_acc: Vector3<f64>,
) -> Result<&'a InitializerResult, MotionBasedViRejectionReason> {
    let numerics = MotionNumerics {
        compose: compose_poses,
        velocity: velocity_between,
        norm: norm_of,
        deviation: deviation_ratio,
        solve: |task: &InertialTask| solve_inertial(task, factors),
        gravity: GravityNumerics {
            raw: |task: &AlignmentTask| raw_gravity(task, factors),
            direction: gravity_direction,
            refine: |task: &AlignmentTask, norm: Scalar, direction: &Point3| {
                refine_gravity(task, factors, norm, direction)
            },
            scale: scale_to_norm,
            residual: |task: &AlignmentTask, gravity: &Point3, velocities: &Vec<Point3>| {
                gravity_residual(task, factors, gravity, velocities)
            },
        },
        gyro: GyroNumerics {
            rms: |task: &AlignmentTask, bias: &Point3| gyro_rms(task, factors, bias),
            step: |task: &AlignmentTask, bias: &Point3| gyro_step(task, factors, bias),
        },
    };
    init.try_initialize_with_bias_seed(
        poses,
        &plain_factors(factors),
        point(&bias_gyro),
        point(&bias_acc),
        &numerics,
    )
}

fn initialize<'a>(
    init: &'a mut Initializer,
    poses: &KeyframePoses,
    factors: &[ImuPreintegrationFactor],
    seed: &VisualInertialInitializationResult,
) -> Result<&'a InitializerResult, MotionBasedViRejectionReason> {
    initialize_from(init, poses, factors, vector(&seed.bias_gyro), vector(&seed.bias_acc))
}

fn align_gravity(
    poses: &KeyframePoses,
    ids: &[u64],
    factors: &[ImuPreintegrationFactor],
    bias_gyro: Vector3<f64>,
    bias_acc: Vector3<f64>,
    magnitude: f64,
) -> Option<GravityVelocityAlignment> {
    let numerics = GravityNumerics {
        raw: |task: &AlignmentTask| raw_gravity(task, factors),
        direction: gravity_direction,
        refine: |task: &AlignmentTask, norm: Scalar, direction: &Point3| {
            refine_gravity(task, factors, norm, direction)
        },
        scale: scale_to_norm,
        residual: |task: &AlignmentTask, gravity: &Point3, velocities: &Vec<Point3>| {
            gravity_residual(task, factors, gravity, velocities)
        },
    };
    estimate_gravity_and_velocities(
        poses,
        ids,
        &plain_factors(factors),
        point(&bias_gyro),
        point(&bias_acc),
        scalar(magnitude),
        &numerics,
    )
}

fn align_gyro(
    poses: &KeyframePoses,
    ids: &[u64],
    factors: &[ImuPreintegrationFactor],
    seed: Vector3<f64>,
) -> Option<GyroBiasAlignment> {
    let numerics = GyroNumerics {
        rms: |task: &AlignmentTask, bias: &Point3| gyro_rms(task, factors, bias),
        step: |task: &AlignmentTask, bias: &Point3| gyro_step(task, factors, bias),
    };
    estimate_gyro_bias(poses, ids, &plain_factors(factors), point(&seed), &numerics)
}

fn register(init: &mut Initializer, id: u64, center: Vector3<f64>) {
    init.register_keyframe(id, point(&center), extend_chain);
}

fn integrate_once(
    samples: &[(Vector3<f64>, Vector3<f64>, f64)],
    bias_gyro: &Vector3<f64>,
    bias_acc: &Vector3<f64>,
) -> (UnitQuaternion<f64>, Vector3<f64>, Vector3<f64>) {
    let mut turn = UnitQuaternion::identity();
    let mut velocity = Vector3::zeros();
    let mut position = Vector3::zeros();
    for (gyro, accel, dt) in samples {
        let push = turn * (accel - bias_acc);
        position += velocity * *dt + 0.5 * push * *dt * *dt;
        velocity += push * *dt;
        turn *= UnitQuaternion::from_scaled_axis((gyro - bias_gyro) * *dt);
    }
    (turn, velocity, position)
}

/// Integrates samples at zero biases, with numeric derivatives.
fn integrate(samples: &[(Vector3<f64>, Vector3<f64>, f64)]) -> ImuDelta {
    let zero = Vector3::zeros();
    let (rotation, velocity, position) = integrate_once(samples, &zero, &zero);
    let mut delta = ImuDelta { rotation, velocity, position, ..ImuDelta::identity() };
    delta.time = samples.iter().map(|sample| sample.2).sum();
    let step = 1e-5;
    for k in 0..3 {
        let mut bias = Vector3::zeros();
        bias[k] = step;
        let plus = integrate_once(samples, &bias, &zero);
        let minus = integrate_once(samples, &(-bias), &zero);
        let turned = (minus.0.inverse() * plus.0).scaled_axis() / (2.0 * step);
        delta.j_rotation_bg.set_column(k, &turned);
        delta.j_velocity_bg.set_column(k, &((plus.1 - minus.1) / (2.0 * step)));
        delta.j_position_bg.set_column(k, &((plus.2 - minus.2) / (2.0 * step)));
        let plus = integrate_once(samples, &zero, &bias);
        let minus = integrate_once(samples, &zero, &(-bias));
        delta.j_velocity_ba.set_column(k, &((plus.1 - minus.1) / (2.0 * step)));
        delta.j_position_ba.set_column(k, &((plus.2 - minus.2) / (2.0 * step)));
    }
    delta
}

fn pose_at_world_center(c: Vector3<f64>) -> Pose {
    Pose { rotation: quaternion(&UnitQuaternion::identity()), translation: point(&(-c)) }
}

fn synthetic_seed() -> VisualInertialInitializationResult {
    VisualInertialInitializationResult {
        gravity_world: point(&Vector3::new(0.0, 9.81, 0.0)),
        initial_rotation_body_to_world: quaternion(&UnitQuaternion::identity()),
        initial_velocity_world: point(&Vector3::zeros()),
        bias_gyro: point(&Vector3::zeros()),
        bias_acc: point(&Vector3::zeros()),
        samples_consumed: 2000,
        duration_seconds: scalar(1.0),
        gyro_std: point(&Vector3::zeros()),
        accel_std: point(&Vector3::zeros()),
        mean_accel_magnitude: scalar(9.81),
    }
}

fn no_acceleration_factor(
    from_id: u64,
    to_id: u64,
    delta_t: f64,
    gravity: Vector3<f64>,
) -> ImuPreintegrationFactor {
    // Synthetic factor for an identity-oriented body with NO
    // proper acceleration (i.e., stationary or constant-velocity
    // in world frame). The IMU still senses gravity as specific
    // force, so the pre-integrated body-frame deltas are:
    //   delta R = identity
    //   delta v = -g * delta t
    //   delta p = -0.5 * g * delta t^2
    // With these, the residual
    //   r_v = R_b<-w * (v_j - v_i - g*delta t) - delta v
    //       = (v_j - v_i - g*delta t) + g*delta t = v_j - v_i
    // is exactly satisfied for stationary AND for constant-velocity
    // motion (because the IMU integration's gravity term cancels the
    // residual's gravity term), as required for the "no proper
    // acceleration" synthetic scenarios used in these unit tests.
    let mut delta = ImuDelta::identity();
    delta.time = delta_t;
    delta.velocity = -gravity * delta_t;
    delta.position = -0.5 * gravity * delta_t * delta_t;
    ImuPreintegrationFactor {
        keyframe_id_from: from_id,
        keyframe_id_to: to_id,
        delta,
        gravity_world: gravity,
    }
}

/// Like [`no_acceleration_factor`] but decouples the TRUE gravity baked
/// into the synthetic `(delta v, delta p)` from the ASSUMED gravity stamped onto
/// `ImuPreintegrationFactor::gravity_world`. The physical IMU evidence is ground truth
/// (built from `true_gravity`), while the factor's `gravity_world` is
/// whatever the caller's (possibly wrong) config assumes - exactly what
/// the plain (`estimate_gravity: false`) path feeds the solver
/// verbatim, and what the `estimate_gravity: true` path OVERWRITES with
/// its own recovered estimate before solving (see
/// `estimate_gravity_and_velocities`'s call site in
/// `try_initialize_with_bias_seed`).
fn no_acceleration_factor_with_assumed_gravity(
    from_id: u64,
    to_id: u64,
    delta_t: f64,
    true_gravity: Vector3<f64>,
    assumed_gravity: Vector3<f64>,
) -> ImuPreintegrationFactor {
    let mut delta = ImuDelta::identity();
    delta.time = delta_t;
    delta.velocity = -true_gravity * delta_t;
    delta.position = -0.5 * true_gravity * delta_t * delta_t;
    ImuPreintegrationFactor {
        keyframe_id_from: from_id,
        keyframe_id_to: to_id,
        delta,
        gravity_world: assumed_gravity,
    }
}

/// Keyframes `1..` along a straight line at constant velocity.
fn build_map_at_velocity(num_keyframes: usize, dt: f64, velocity: Vector3<f64>) -> KeyframePoses {
    (0..num_keyframes)
        .map(|i| {
            let center = velocity * (i as f64) * dt;
            ((i as u64) + 1, Some(pose_at_world_center(center)))
        })
        .collect()
}

fn build_constant_velocity_map(num_keyframes: usize) -> KeyframePoses {
    build_map_at_velocity(num_keyframes, 1.0, Vector3::new(1.0, 0.0, 0.0))
}

#[test]
fn trigger_blocked_until_keyframe_threshold_is_met() {
    let mut init = Initializer::new(MotionBasedViInitializerConfig {
        min_keyframes: 5,
        min_translation_meters: scalar(0.0),
        ..MotionBasedViInitializerConfig::default()
    });
    for i in 0..4 {
        register(&mut init, (i as u64) + 1, Vector3::new(i as f64, 0.0, 0.0));
    }
    assert!(!init.is_ready(), "fewer keyframes than the threshold");
    let map = build_constant_velocity_map(4);
    let seed = synthetic_seed();
    let err = initialize(&mut init, &map, &[], &seed)
        .expect_err("threshold not met");
    match err {
        MotionBasedViRejectionReason::InsufficientKeyframes { have, need } => {
            assert_eq!(have, 4);
            assert_eq!(need, 5);
        }
        other => panic!("unexpected rejection: {other:?}"),
    }
}

#[test]
fn trigger_blocked_until_translation_threshold_is_met() {
    let mut init = Initializer::new(MotionBasedViInitializerConfig {
        min_keyframes: 3,
        min_translation_meters: scalar(5.0),
        ..MotionBasedViInitializerConfig::default()
    });
    register(&mut init, 1, Vector3::new(0.0, 0.0, 0.0));
    register(&mut init, 2, Vector3::new(1.0, 0.0, 0.0));
    register(&mut init, 3, Vector3::new(2.0, 0.0, 0.0));
    assert_eq!(init.keyframes_observed(), 3);
    assert!(
        (float(init.cumulative_translation_meters()) - 2.0).abs() < 1e-12,
        "cumulative_translation tracks chain length, not endpoint distance"
    );
    assert!(!init.is_ready());
    let map = build_constant_velocity_map(3);
    let seed = synthetic_seed();
    let err = initialize(&mut init, &map, &[], &seed)
        .expect_err("translation threshold not met");
    match err {
        MotionBasedViRejectionReason::InsufficientTranslation { have, need } => {
            assert!((float(have) - 2.0).abs() < 1e-12);
            assert!((float(need) - 5.0).abs() < 1e-12);
        }
        other => panic!("unexpected rejection: {other:?}"),
    }
}

#[test]
fn re_registering_same_keyframe_does_not_double_count_translation() {
    let mut init = Initializer::new(MotionBasedViInitializerConfig::default());
    register(&mut init, 1, Vector3::new(0.0, 0.0, 0.0));
    register(&mut init, 2, Vector3::new(1.0, 0.0, 0.0));
    register(&mut init, 2, Vector3::new(1.5, 0.0, 0.0));
    assert_eq!(init.keyframes_observed(), 2);
    // Only the inter-frame displacement from the FIRST insertion is
    // counted - the re-registration overwrites the centre but does
    // not append to the chain.
    assert!((float(init.cumulative_translation_meters()) - 1.0).abs() < 1e-12);
}

#[test]
fn no_usable_factor_is_reported_distinctly_from_solver_failure() {
    let mut init = Initializer::new(MotionBasedViInitializerConfig {
        min_keyframes: 3,
        min_translation_meters: scalar(1.0),
        ..MotionBasedViInitializerConfig::default()
    });
    for i in 0..3 {
        register(&mut init, (i as u64) + 1, Vector3::new(i as f64, 0.0, 0.0));
    }
    assert!(init.is_ready());
    let map = build_constant_velocity_map(3);
    let seed = synthetic_seed();
    let err = initialize(&mut init, &map, &[], &seed)
        .expect_err("no factors registered");
    match err {
        MotionBasedViRejectionReason::NoUsableImuFactors => {}
        other => panic!("unexpected rejection: {other:?}"),
    }
}

#[test]
fn successful_solve_is_cached_and_reset_re_arms() {
    let mut init = Initializer::new(MotionBasedViInitializerConfig {
        min_keyframes: 3,
        min_translation_meters: scalar(1.0),
        ..MotionBasedViInitializerConfig::default()
    });
    let gravity = vector(&init.config().gravity_world);
    for i in 0..3 {
        register(&mut init, (i as u64) + 1, Vector3::new(i as f64, 0.0, 0.0));
    }
    let map = build_constant_velocity_map(3);
    let map_before = map.clone();
    let seed = synthetic_seed();
    let factors = vec![
        no_acceleration_factor(1, 2, 1.0, gravity),
        no_acceleration_factor(2, 3, 1.0, gravity),
    ];

    let result = initialize(&mut init, &map, &factors, &seed)
        .expect("VIBA1 must succeed on synthetic constant-velocity stream")
        .clone();
    assert_eq!(
        map, map_before,
        "inertial-only initialization must keep the visual trajectory fixed"
    );
    assert_eq!(result.keyframe_ids, vec![1, 2, 3]);
    assert_eq!(result.imu_factors_used, 2);
    assert!((float(result.scale) - 1.0).abs() < 1e-12);
    assert!((float(result.trigger_translation_meters) - 2.0).abs() < 1e-12);
    // Solver populated every registered keyframe with a state slot,
    // preserved the fixed vision-only trajectory, and terminated below
    // the initial cost.
    for kf_id in [1u64, 2, 3] {
        assert!(result.keyframe_states.contains_key(&kf_id));
    }
    assert!(float(result.ba_result.final_cost) <= float(result.ba_result.initial_cost) + 1e-9);
    match init.status() {
        MotionBasedViInitializationStatus::Initialised { .. } => {}
        other => panic!("expected Initialised, got {other:?}"),
    }

    // Re-firing returns the cached result rather than re-running.
    let cached = initialize(&mut init, &map, &factors, &seed).unwrap();
    assert_eq!(cached.keyframe_ids, result.keyframe_ids);

    // After reset, the state machine returns to Waiting and can
    // re-fire on a fresh sequence.
    init.reset();
    assert_eq!(init.keyframes_observed(), 0);
    assert!((float(init.cumulative_translation_meters()) - 0.0).abs() < 1e-12);
    match init.status() {
        MotionBasedViInitializationStatus::Waiting {
            keyframes_observed,
            cumulative_translation_meters,
            ..
        } => {
            assert_eq!(keyframes_observed, 0);
            assert!(float(cumulative_translation_meters).abs() < 1e-12);
        }
        other => panic!("expected Waiting after reset, got {other:?}"),
    }
}

#[test]
fn stereo_stationary_replay_is_identity() {
    // VIBA1 on three coincident keyframes (zero motion) reproduces
    // the static seed: zero velocity, zero biases. The trigger is
    // forced by relaxing `min_keyframes` and `min_translation_meters`
    // so the "no motion" case is still solvable for the no-op check.
    let mut init = Initializer::new(MotionBasedViInitializerConfig {
        min_keyframes: 3,
        min_translation_meters: scalar(0.0),
        ..MotionBasedViInitializerConfig::default()
    });
    let gravity = vector(&init.config().gravity_world);
    for i in 0..3 {
        register(&mut init, (i as u64) + 1, Vector3::new(0.0, 0.0, 0.0));
    }
    let map = build_map_at_velocity(3, 1.0, Vector3::zeros());
    let seed = synthetic_seed();
    let factors = vec![
        no_acceleration_factor(1, 2, 0.1, gravity),
        no_acceleration_factor(2, 3, 0.1, gravity),
    ];
    let result = initialize(&mut init, &map, &factors, &seed)
        .expect("identity replay should succeed");
    for state in result.keyframe_states.values() {
        assert!(
            vector(&state.velocity_world).norm() < 1e-6,
            "vel = {:?}",
            vector(&state.velocity_world)
        );
        assert!(vector(&state.bias_gyro).norm() < 1e-6, "b_g = {:?}", vector(&state.bias_gyro));
        assert!(vector(&state.bias_acc).norm() < 1e-6, "b_a = {:?}", vector(&state.bias_acc));
    }
}

#[test]
fn max_velocity_magnitude_gate_rejects_when_exceeded() {
    // Run a known-converging setup TWICE: once without the limit to
    // record the actual recovered max-velocity magnitude, then once
    // with `max_velocity_magnitude_mps = Some(max / 2.0)` so the
    // post-solve sanity gate must fire. Decoupling the threshold
    // from a hard-coded magnitude keeps the test stable against
    // inner-LM precision drift.
    let mut probe = Initializer::new(MotionBasedViInitializerConfig {
        min_keyframes: 3,
        min_translation_meters: scalar(1.0),
        ..MotionBasedViInitializerConfig::default()
    });
    let gravity = vector(&probe.config().gravity_world);
    for i in 0..3 {
        register(&mut probe, (i as u64) + 1, Vector3::new(i as f64, 0.0, 0.0));
    }
    let probe_map = build_constant_velocity_map(3);
    let seed = synthetic_seed();
    let factors = vec![
        no_acceleration_factor(1, 2, 1.0, gravity),
        no_acceleration_factor(2, 3, 1.0, gravity),
    ];
    let probe_result = initialize(&mut probe, &probe_map, &factors, &seed)
        .expect("probe run must converge")
        .clone();
    let max_mag = probe_result
        .keyframe_states
        .values()
        .map(|s| vector(&s.velocity_world).norm())
        .fold(0.0_f64, f64::max);
    // The inner LM in this setup converges very near v=0 but not
    // exactly zero (small residual from the gravity term); pick the
    // limit threshold below the actual recovered magnitude so the
    // post-solve check has something to reject.
    assert!(
        max_mag > 1.0e-12,
        "probe max |v| too small to test the limit: {max_mag}"
    );

    let mut gated = Initializer::new(MotionBasedViInitializerConfig {
        min_keyframes: 3,
        min_translation_meters: scalar(1.0),
        max_velocity_magnitude_mps: Some(scalar(max_mag / 2.0)),
        ..MotionBasedViInitializerConfig::default()
    });
    for i in 0..3 {
        register(&mut gated, (i as u64) + 1, Vector3::new(i as f64, 0.0, 0.0));
    }
    let gated_map = build_constant_velocity_map(3);
    let gated_map_before = gated_map.clone();
    let err = initialize(&mut gated, &gated_map, &factors, &seed)
        .expect_err("velocity gate must reject the LM result");
    assert_eq!(
        gated_map, gated_map_before,
        "a rejected speculative motion-VI solve must not write poses back"
    );
    match err {
        MotionBasedViRejectionReason::VelocityOutOfRange {
            kf_id,
            magnitude_mps,
            limit_mps,
        } => {
            assert!([1u64, 2, 3].contains(&kf_id), "kf_id = {kf_id}");
            assert!(float(magnitude_mps) > float(limit_mps));
            assert!((float(limit_mps) - max_mag / 2.0).abs() < 1.0e-12);
        }
        other => panic!("expected VelocityOutOfRange, got {other:?}"),
    }
    // The stage stays in `Waiting` after a gate rejection so the
    // caller can re-fire on a future trigger.
    match gated.status() {
        MotionBasedViInitializationStatus::Waiting { last_rejection, .. } => {
            assert!(matches!(
                last_rejection,
                Some(MotionBasedViRejectionReason::VelocityOutOfRange { .. })
            ));
        }
        other => panic!("expected Waiting after gate rejection, got {other:?}"),
    }
}

#[test]
fn normalized_imu_nis_gate_rejects_inconsistent_promotion() {
    let mut probe = Initializer::new(MotionBasedViInitializerConfig {
        min_keyframes: 3,
        min_translation_meters: scalar(1.0),
        ..MotionBasedViInitializerConfig::default()
    });
    let gravity = vector(&probe.config().gravity_world);
    for i in 0..3 {
        register(&mut probe, (i as u64) + 1, Vector3::new(i as f64, 0.0, 0.0));
    }
    let factors = vec![
        no_acceleration_factor(1, 2, 1.0, gravity),
        no_acceleration_factor(2, 3, 1.0, gravity),
    ];
    let seed = synthetic_seed();
    let probe_map = build_constant_velocity_map(3);
    let observed = float(initialize(&mut probe, &probe_map, &factors, &seed)
        .expect("probe solve")
        .final_cost_breakdown
        .imu_normalized_squared_residual_per_dof
        .expect("IMU factors produce a normalized residual"));
    assert!(observed.is_finite() && observed > 0.0);

    let limit = observed * 0.5;
    let mut gated = Initializer::new(MotionBasedViInitializerConfig {
        min_keyframes: 3,
        min_translation_meters: scalar(1.0),
        max_final_imu_nis_per_dof: Some(scalar(limit)),
        ..MotionBasedViInitializerConfig::default()
    });
    for i in 0..3 {
        register(&mut gated, (i as u64) + 1, Vector3::new(i as f64, 0.0, 0.0));
    }
    let gated_map = build_constant_velocity_map(3);
    let map_before = gated_map.clone();
    let error = initialize(&mut gated, &gated_map, &factors, &seed)
        .expect_err("NIS gate must reject the inconsistent promotion");
    assert_eq!(gated_map, map_before);
    assert!(matches!(
        error,
        MotionBasedViRejectionReason::ImuNisOutOfRange {
            normalized_nis_per_dof,
            rotation_residual_rms_rad: _,
            velocity_residual_rms_mps: _,
            position_residual_rms_meters: _,
            limit: rejected_limit,
        } if (float(normalized_nis_per_dof) - observed).abs() < 1.0e-9
            && (float(rejected_limit) - limit).abs() < 1.0e-12
    ));
}

#[test]
fn physical_imu_residual_gate_rejects_inconsistent_promotion() {
    let mut probe = Initializer::new(MotionBasedViInitializerConfig {
        min_keyframes: 3,
        min_translation_meters: scalar(1.0),
        ..MotionBasedViInitializerConfig::default()
    });
    let gravity = vector(&probe.config().gravity_world);
    for i in 0..3 {
        register(&mut probe, (i as u64) + 1, Vector3::new(i as f64, 0.0, 0.0));
    }
    let factors = vec![
        no_acceleration_factor(1, 2, 1.0, gravity),
        no_acceleration_factor(2, 3, 1.0, gravity),
    ];
    let seed = synthetic_seed();
    let probe_map = build_constant_velocity_map(3);
    let observed = float(initialize(&mut probe, &probe_map, &factors, &seed)
        .expect("probe solve")
        .final_cost_breakdown
        .imu_velocity_residual_rms_mps
        .expect("velocity residual"));
    assert!(observed.is_finite() && observed > 0.0);

    let limit = observed * 0.5;
    let mut gated = Initializer::new(MotionBasedViInitializerConfig {
        min_keyframes: 3,
        min_translation_meters: scalar(1.0),
        max_final_imu_velocity_residual_rms_mps: Some(scalar(limit)),
        ..MotionBasedViInitializerConfig::default()
    });
    for i in 0..3 {
        register(&mut gated, (i as u64) + 1, Vector3::new(i as f64, 0.0, 0.0));
    }
    let gated_map = build_constant_velocity_map(3);
    let map_before = gated_map.clone();
    let error = initialize(&mut gated, &gated_map, &factors, &seed)
        .expect_err("physical residual gate must reject promotion");
    assert_eq!(gated_map, map_before);
    assert!(matches!(
        error,
        MotionBasedViRejectionReason::ImuRawResidualOutOfRange {
            velocity_residual_rms_mps: Some(value),
            max_velocity_residual_rms_mps: Some(rejected_limit),
            ..
        } if (float(value) - observed).abs() < 1.0e-9
            && (float(rejected_limit) - limit).abs() < 1.0e-12
    ));
}

#[test]
fn max_velocity_magnitude_gate_passes_when_under_limit() {
    // Same setup but with a generous limit; the inner result is
    // promoted to `completed` as usual.
    let mut init = Initializer::new(MotionBasedViInitializerConfig {
        min_keyframes: 3,
        min_translation_meters: scalar(1.0),
        max_velocity_magnitude_mps: Some(scalar(1.0e6)),
        ..MotionBasedViInitializerConfig::default()
    });
    let gravity = vector(&init.config().gravity_world);
    for i in 0..3 {
        register(&mut init, (i as u64) + 1, Vector3::new(i as f64, 0.0, 0.0));
    }
    let map = build_constant_velocity_map(3);
    let seed = synthetic_seed();
    let factors = vec![
        no_acceleration_factor(1, 2, 1.0, gravity),
        no_acceleration_factor(2, 3, 1.0, gravity),
    ];
    let _ = initialize(&mut init, &map, &factors, &seed)
        .expect("generous limit must accept the LM result");
    match init.status() {
        MotionBasedViInitializationStatus::Initialised { .. } => {}
        other => panic!("expected Initialised, got {other:?}"),
    }
}

#[test]
fn gyro_bias_gate_rejects_transactionally() {
    let mut init = Initializer::new(MotionBasedViInitializerConfig {
        min_keyframes: 3,
        min_translation_meters: scalar(1.0),
        max_gyro_bias_magnitude_rad_s: Some(scalar(0.05)),
        ..MotionBasedViInitializerConfig::default()
    });
    let gravity = vector(&init.config().gravity_world);
    for i in 0..3 {
        register(&mut init, (i as u64) + 1, Vector3::new(i as f64, 0.0, 0.0));
    }
    let map = build_constant_velocity_map(3);
    let map_before = map.clone();
    let factors = vec![
        no_acceleration_factor(1, 2, 1.0, gravity),
        no_acceleration_factor(2, 3, 1.0, gravity),
    ];
    let err = initialize_from(&mut init, &map, &factors,
            Vector3::new(0.1, 0.0, 0.0),
            Vector3::zeros(),
        )
        .expect_err("anchored gyro bias must exceed the configured gate");
    assert_eq!(map, map_before, "rejected solve must not mutate the map");
    assert!(matches!(
        err,
        MotionBasedViRejectionReason::GyroBiasOutOfRange {
            magnitude_rad_s,
            limit_rad_s,
            ..
        } if float(magnitude_rad_s) > float(limit_rad_s) && (float(limit_rad_s) - 0.05).abs() < 1.0e-12
    ));
}

#[test]
fn accel_bias_gate_rejects_transactionally() {
    let mut init = Initializer::new(MotionBasedViInitializerConfig {
        min_keyframes: 3,
        min_translation_meters: scalar(1.0),
        max_accel_bias_magnitude_mps2: Some(scalar(1.0)),
        ..MotionBasedViInitializerConfig::default()
    });
    let gravity = vector(&init.config().gravity_world);
    for i in 0..3 {
        register(&mut init, (i as u64) + 1, Vector3::new(i as f64, 0.0, 0.0));
    }
    let map = build_constant_velocity_map(3);
    let map_before = map.clone();
    let factors = vec![
        no_acceleration_factor(1, 2, 1.0, gravity),
        no_acceleration_factor(2, 3, 1.0, gravity),
    ];
    let err = initialize_from(&mut init, &map, &factors,
            Vector3::zeros(),
            Vector3::new(2.0, 0.0, 0.0),
        )
        .expect_err("anchored accel bias must exceed the configured gate");
    assert_eq!(map, map_before, "rejected solve must not mutate the map");
    assert!(matches!(
        err,
        MotionBasedViRejectionReason::AccelBiasOutOfRange {
            magnitude_mps2,
            limit_mps2,
            ..
        } if float(magnitude_mps2) > float(limit_mps2) && (float(limit_mps2) - 1.0).abs() < 1.0e-12
    ));
}

#[test]
fn viba2_handoff_runs_when_configured_and_reports_scale_history() {
    let mut init = Initializer::new(MotionBasedViInitializerConfig {
        min_keyframes: 3,
        min_translation_meters: scalar(1.0),
        gravity_world: point(&Vector3::zeros()),
        viba2: Some(Viba2Config {
            initial_scale: scalar(1.0),
            recover_scale: true,
            max_outer_iterations: 3,
            scale_tolerance: scalar(1.0e-4),
        }),
        ..MotionBasedViInitializerConfig::default()
    });
    let gravity = vector(&init.config().gravity_world);
    for i in 0..3 {
        register(&mut init, (i as u64) + 1, Vector3::new(i as f64, 0.0, 0.0));
    }
    let map = build_map_at_velocity(3, 1.0, Vector3::new(1.0, 0.0, 0.0));
    let seed = synthetic_seed();
    let factors = vec![
        no_acceleration_factor(1, 2, 1.0, gravity),
        no_acceleration_factor(2, 3, 1.0, gravity),
    ];
    let result = initialize(&mut init, &map, &factors, &seed)
        .expect("VIBA2 path should succeed");
    // VIBA2 ran at least once; scale history starts with the initial
    // scale and may have one more entry per outer iteration. The
    // exact length depends on whether the kinematic denominator was
    // identifiable, which on this zero-gravity-zero-delta p synthetic is
    // degenerate (so the outer loop bails after one inner solve and
    // freezes scale at 1.0).
    assert!(float(result.scale).is_finite());
    assert!(result.viba2_iterations_run >= 1);
    assert!(!result.scale_history.is_empty());
    assert!((float(result.scale_history[0]) - 1.0).abs() < 1e-12);
}

#[test]
fn no_viba2_config_keeps_scale_history_empty() {
    let mut init = Initializer::new(MotionBasedViInitializerConfig {
        min_keyframes: 3,
        min_translation_meters: scalar(1.0),
        ..MotionBasedViInitializerConfig::default()
    });
    let gravity = vector(&init.config().gravity_world);
    for i in 0..3 {
        register(&mut init, (i as u64) + 1, Vector3::new(i as f64, 0.0, 0.0));
    }
    let map = build_map_at_velocity(3, 1.0, Vector3::new(1.0, 0.0, 0.0));
    let seed = synthetic_seed();
    let factors = vec![
        no_acceleration_factor(1, 2, 1.0, gravity),
        no_acceleration_factor(2, 3, 1.0, gravity),
    ];
    let result = initialize(&mut init, &map, &factors, &seed)
        .expect("VIBA1 path should succeed");
    assert!((float(result.scale) - 1.0).abs() < 1e-12);
    assert!(result.scale_history.is_empty());
    assert_eq!(result.viba2_iterations_run, 0);
}


#[test]
fn legacy_path_without_bias_release_schedule_reports_bias_released_true() {
    let mut init = Initializer::new(MotionBasedViInitializerConfig {
        min_keyframes: 3,
        min_translation_meters: scalar(1.0),
        ..MotionBasedViInitializerConfig::default()
    });
    assert!(init.config().bias_release.is_none());
    let gravity = vector(&init.config().gravity_world);
    for i in 0..3 {
        register(&mut init, (i as u64) + 1, Vector3::new(i as f64, 0.0, 0.0));
    }
    let map = build_constant_velocity_map(3);
    let seed = synthetic_seed();
    let factors = vec![
        no_acceleration_factor(1, 2, 1.0, gravity),
        no_acceleration_factor(2, 3, 1.0, gravity),
    ];
    let result = initialize(&mut init, &map, &factors, &seed)
        .expect("plain path must succeed");
    assert!(
        result.bias_released,
        "plain path (bias_release=None) must report bias_released=true"
    );
    assert!(
        init.velocity_stage_result().is_none(),
        "plain path never populates the velocity stage"
    );
    match init.status() {
        MotionBasedViInitializationStatus::Initialised { .. } => {}
        other => panic!("expected terminal Initialised, got {other:?}"),
    }
}

#[test]
fn bias_release_schedule_stage_a_fires_then_awaits_release_gate() {
    // Base gates (min_keyframes=3, min_translation_meters=1.0) are
    // satisfied by 3 keyframes spaced 1 m apart, but the schedule's own
    // release gate (min_keyframes=5, min_translation_meters=3.0) is not.
    let mut init = Initializer::new(MotionBasedViInitializerConfig {
        min_keyframes: 3,
        min_translation_meters: scalar(1.0),
        bias_release: Some(BiasReleaseSchedule {
            min_keyframes: 5,
            min_translation_meters: scalar(3.0),
        }),
        ..MotionBasedViInitializerConfig::default()
    });
    let gravity = vector(&init.config().gravity_world);
    for i in 0..3 {
        register(&mut init, (i as u64) + 1, Vector3::new(i as f64, 0.0, 0.0));
    }
    assert!(init.is_ready(), "base gates must be satisfied");
    let map = build_constant_velocity_map(3);
    let seed = synthetic_seed();
    let factors = vec![
        no_acceleration_factor(1, 2, 1.0, gravity),
        no_acceleration_factor(2, 3, 1.0, gravity),
    ];

    let stage_a = initialize(&mut init, &map, &factors, &seed)
        .expect("Stage A must fire once the base gates are met")
        .clone();
    assert!(!stage_a.bias_released, "Stage A must not release bias");
    for state in stage_a.keyframe_states.values() {
        assert!(
            (vector(&state.bias_gyro) - vector(&seed.bias_gyro)).norm() < 1.0e-12,
            "Stage A must not move gyro bias off the seed"
        );
        assert!(
            (vector(&state.bias_acc) - vector(&seed.bias_acc)).norm() < 1.0e-12,
            "Stage A must not move accel bias off the seed"
        );
    }
    assert!(init.velocity_stage_result().is_some());
    match init.status() {
        MotionBasedViInitializationStatus::Waiting {
            velocity_stage_completed,
            ..
        } => assert!(
            velocity_stage_completed,
            "status() must report the completed velocity stage"
        ),
        other => panic!("expected non-terminal Waiting after Stage A, got {other:?}"),
    }

    // A second call before the release gate is met has nothing new to
    // solve: Stage A already fired and is cached.
    let err = initialize(&mut init, &map, &factors, &seed)
        .expect_err("release gate not yet met");
    match err {
        MotionBasedViRejectionReason::AwaitingBiasReleaseExcitation {
            have_keyframes,
            need_keyframes,
            have_translation_meters,
            need_translation_meters,
        } => {
            assert_eq!(have_keyframes, 3);
            assert_eq!(need_keyframes, 5);
            assert!((float(have_translation_meters) - 2.0).abs() < 1.0e-12);
            assert!((float(need_translation_meters) - 3.0).abs() < 1.0e-12);
        }
        other => panic!("expected AwaitingBiasReleaseExcitation, got {other:?}"),
    }
}

#[test]
fn bias_release_schedule_stage_b_fires_once_gate_is_met() {
    let mut init = Initializer::new(MotionBasedViInitializerConfig {
        min_keyframes: 3,
        min_translation_meters: scalar(1.0),
        bias_release: Some(BiasReleaseSchedule {
            min_keyframes: 5,
            min_translation_meters: scalar(3.0),
        }),
        ..MotionBasedViInitializerConfig::default()
    });
    let gravity = vector(&init.config().gravity_world);
    for i in 0..3 {
        register(&mut init, (i as u64) + 1, Vector3::new(i as f64, 0.0, 0.0));
    }
    let map = build_constant_velocity_map(5);
    let seed = synthetic_seed();
    let factors = vec![
        no_acceleration_factor(1, 2, 1.0, gravity),
        no_acceleration_factor(2, 3, 1.0, gravity),
        no_acceleration_factor(3, 4, 1.0, gravity),
        no_acceleration_factor(4, 5, 1.0, gravity),
    ];

    let stage_a = initialize(&mut init, &map, &factors, &seed)
        .expect("Stage A must fire")
        .clone();
    assert!(!stage_a.bias_released);

    // Register the remaining keyframes to clear the release gate:
    // 5 keyframes total, 4 m cumulative translation.
    register(&mut init, 4, Vector3::new(3.0, 0.0, 0.0));
    register(&mut init, 5, Vector3::new(4.0, 0.0, 0.0));
    assert_eq!(init.keyframes_observed(), 5);
    assert!((float(init.cumulative_translation_meters()) - 4.0).abs() < 1.0e-9);

    let stage_b = initialize(&mut init, &map, &factors, &seed)
        .expect("Stage B must fire once the release gate is met")
        .clone();
    assert!(
        stage_b.bias_released,
        "Stage B must release bias like the plain path"
    );
    match init.status() {
        MotionBasedViInitializationStatus::Initialised { .. } => {}
        other => panic!("expected terminal Initialised after Stage B, got {other:?}"),
    }
}

#[test]
fn reset_clears_velocity_stage() {
    let mut init = Initializer::new(MotionBasedViInitializerConfig {
        min_keyframes: 3,
        min_translation_meters: scalar(1.0),
        bias_release: Some(BiasReleaseSchedule {
            min_keyframes: 5,
            min_translation_meters: scalar(3.0),
        }),
        ..MotionBasedViInitializerConfig::default()
    });
    let gravity = vector(&init.config().gravity_world);
    for i in 0..3 {
        register(&mut init, (i as u64) + 1, Vector3::new(i as f64, 0.0, 0.0));
    }
    let map = build_constant_velocity_map(3);
    let seed = synthetic_seed();
    let factors = vec![
        no_acceleration_factor(1, 2, 1.0, gravity),
        no_acceleration_factor(2, 3, 1.0, gravity),
    ];
    initialize(&mut init, &map, &factors, &seed)
        .expect("Stage A must fire");
    assert!(init.velocity_stage_result().is_some());

    init.reset();
    assert!(
        init.velocity_stage_result().is_none(),
        "reset() must clear the cached velocity stage"
    );
    match init.status() {
        MotionBasedViInitializationStatus::Waiting {
            velocity_stage_completed,
            ..
        } => assert!(!velocity_stage_completed),
        other => panic!("expected Waiting after reset, got {other:?}"),
    }
}



#[test]
fn recovers_off_axis_gravity_and_velocities_from_a_consistent_window() {
    // True gravity is off every coordinate axis (and off the
    // codebase's Y-axis config default) while the body moves at a
    // constant, also off-axis, world velocity. With visual poses
    // held fixed and zero proper acceleration baked into every
    // factor, the linear system is EXACTLY consistent, so the
    // unconstrained solve must recover both quantities to numerical
    // precision.
    let true_gravity = Vector3::new(6.54, -3.27, 6.54); // |g| = 9.81
    let velocity = Vector3::new(1.2, -0.7, 0.3);
    let map = build_map_at_velocity(5, 1.0, velocity);
    let ids: Vec<u64> = (1..=5).collect();
    let factors = vec![
        no_acceleration_factor(1, 2, 1.0, true_gravity),
        no_acceleration_factor(2, 3, 1.0, true_gravity),
        no_acceleration_factor(3, 4, 1.0, true_gravity),
        no_acceleration_factor(4, 5, 1.0, true_gravity),
    ];
    let alignment = align_gravity(
        &map,
        &ids,
        &factors,
        Vector3::zeros(),
        Vector3::zeros(),
        9.81,
    )
    .expect("well-conditioned, exactly-consistent window must align");
    assert!(
        (vector(&alignment.gravity_world) - true_gravity).norm() < 1.0e-6,
        "g_est = {:?}",
        vector(&alignment.gravity_world)
    );
    assert!(
        (float(alignment.raw_gravity_norm) - 9.81).abs() < 1.0e-6,
        "raw_gravity_norm = {}",
        float(alignment.raw_gravity_norm)
    );
    for (kf_id, v) in &alignment.velocities {
        let v = vector(v);
        assert!(
            (v - velocity).norm() < 1.0e-6,
            "kf {kf_id}: v_est = {v:?}, expected {velocity:?}"
        );
    }
}

#[test]
fn degenerate_window_with_a_single_factor_returns_none() {
    // Fewer than 2 usable in-window factors (1 factor = 6 rows <
    // the 6 unknowns already contributed by that one factor's own
    // endpoints, but the function's own documented floor is "< 2
    // factors") is degenerate by construction - distinct from a
    // stationary window, which would instead solve to a near-zero
    // raw gravity norm (also degenerate, via the `< 1e-6` guard).
    let velocity = Vector3::new(1.0, 0.0, 0.0);
    let map = build_map_at_velocity(2, 1.0, velocity);
    let ids: Vec<u64> = vec![1, 2];
    let factors = vec![no_acceleration_factor(
        1,
        2,
        1.0,
        Vector3::new(0.0, 9.81, 0.0),
    )];
    let alignment = align_gravity(
        &map,
        &ids,
        &factors,
        Vector3::zeros(),
        Vector3::zeros(),
        9.81,
    );
    assert!(
        alignment.is_none(),
        "a single-factor window must be reported degenerate"
    );
}

#[test]
fn norm_constrained_refinement_pins_the_magnitude_when_raw_solve_drifts() {
    // Start from the exactly-consistent fixture above, then inject
    // a small measurement inconsistency into one factor's velocity
    // delta (as if that window's IMU evidence were noisy). The
    // unconstrained solve is pulled off the true magnitude by the
    // inconsistency, but the VINS-Mono-style tangent refinement
    // must still land the FINAL `gravity_world` exactly on the
    // caller's expected magnitude.
    let true_gravity = Vector3::new(6.54, -3.27, 6.54); // |g| = 9.81
    let velocity = Vector3::new(1.2, -0.7, 0.3);
    let map = build_map_at_velocity(4, 1.0, velocity);
    let ids: Vec<u64> = (1..=4).collect();
    let mut factors = vec![
        no_acceleration_factor(1, 2, 1.0, true_gravity),
        no_acceleration_factor(2, 3, 1.0, true_gravity),
        no_acceleration_factor(3, 4, 1.0, true_gravity),
    ];
    factors[1].delta.velocity += Vector3::new(0.35, -0.2, 0.15);

    let alignment = align_gravity(
        &map,
        &ids,
        &factors,
        Vector3::zeros(),
        Vector3::zeros(),
        9.81,
    )
    .expect("a mild inconsistency must still be solvable");
    assert!(
        (float(alignment.raw_gravity_norm) - 9.81).abs() > 1.0e-6,
        "fixture must actually perturb the unconstrained solve off the true magnitude, raw = {}",
        float(alignment.raw_gravity_norm)
    );
    assert!(
        (vector(&alignment.gravity_world).norm() - 9.81).abs() < 1.0e-9,
        "the constrained estimate must be pinned to the expected magnitude, got {}",
        vector(&alignment.gravity_world).norm()
    );
    assert!(
        float(alignment.mean_residual_after) > 0.0,
        "an inconsistent window must leave a nonzero residual"
    );
}


#[test]
fn recovers_from_rotated_true_gravity_where_the_legacy_path_rejects() {
    // The specific-force reaction
    // lands on an axis (here Z) 90 degrees away from the config's
    // assumed `gravity_world` (Y), with the body moving along a
    // third axis (X). The plain path trusts the config axis as
    // truth and the raw-residual gate must reject it; enabling
    // `estimate_gravity` recovers the true direction and clears
    // the SAME gate.
    let true_gravity = Vector3::new(0.0, 0.0, 9.81);
    let assumed_gravity = Vector3::new(0.0, 9.81, 0.0);
    let factors = vec![
        no_acceleration_factor_with_assumed_gravity(
            1,
            2,
            1.0,
            true_gravity,
            assumed_gravity,
        ),
        no_acceleration_factor_with_assumed_gravity(
            2,
            3,
            1.0,
            true_gravity,
            assumed_gravity,
        ),
        no_acceleration_factor_with_assumed_gravity(
            3,
            4,
            1.0,
            true_gravity,
            assumed_gravity,
        ),
        no_acceleration_factor_with_assumed_gravity(
            4,
            5,
            1.0,
            true_gravity,
            assumed_gravity,
        ),
    ];
    let seed = synthetic_seed();

    // Probe: plain solve with NO residual gate, just to read the
    // actual velocity-residual RMS the misaligned assumption
    // produces on this fixture (decouples the limit threshold below
    // from a hard-coded magnitude, same technique as
    // `max_velocity_magnitude_gate_rejects_when_exceeded`).
    let mut probe = Initializer::new(MotionBasedViInitializerConfig {
        min_keyframes: 3,
        min_translation_meters: scalar(1.0),
        gravity_world: point(&assumed_gravity),
        ..MotionBasedViInitializerConfig::default()
    });
    for i in 0..5 {
        register(&mut probe, (i as u64) + 1, Vector3::new(i as f64, 0.0, 0.0));
    }
    let probe_map = build_constant_velocity_map(5);
    let probe_residual = float(initialize(&mut probe, &probe_map, &factors, &seed)
        .expect("plain solve still converges; only the limit is missing here")
        .final_cost_breakdown
        .imu_velocity_residual_rms_mps
        .expect("IMU factors produce a velocity residual"));
    assert!(
        probe_residual > 0.5,
        "a 90-degree gravity misalignment should leave a substantial residual, got {probe_residual}"
    );
    let gate = probe_residual * 0.5;

    // A: plain path (estimate_gravity = false) must be rejected
    // by the limit.
    let mut plain = Initializer::new(MotionBasedViInitializerConfig {
        min_keyframes: 3,
        min_translation_meters: scalar(1.0),
        gravity_world: point(&assumed_gravity),
        max_final_imu_velocity_residual_rms_mps: Some(scalar(gate)),
        ..MotionBasedViInitializerConfig::default()
    });
    for i in 0..5 {
        register(&mut plain, (i as u64) + 1, Vector3::new(i as f64, 0.0, 0.0));
    }
    let plain_map = build_constant_velocity_map(5);
    let err = initialize(&mut plain, &plain_map, &factors, &seed)
        .expect_err(
            "misaligned gravity assumption must be rejected by the raw-residual gate",
        );
    assert!(
        matches!(
            err,
            MotionBasedViRejectionReason::ImuRawResidualOutOfRange { .. }
        ),
        "unexpected rejection: {err:?}"
    );

    // B: estimate_gravity = true recovers the true direction and
    // clears the SAME gate.
    let mut estimated = Initializer::new(MotionBasedViInitializerConfig {
        min_keyframes: 3,
        min_translation_meters: scalar(1.0),
        gravity_world: point(&assumed_gravity),
        estimate_gravity: true,
        max_final_imu_velocity_residual_rms_mps: Some(scalar(gate)),
        ..MotionBasedViInitializerConfig::default()
    });
    for i in 0..5 {
        register(&mut estimated, (i as u64) + 1, Vector3::new(i as f64, 0.0, 0.0));
    }
    let estimated_map = build_constant_velocity_map(5);
    let result = initialize(&mut estimated, &estimated_map, &factors, &seed)
        .expect("gravity estimation must recover enough to clear the same gate");
    let g_est = vector(&result
        .estimated_gravity_world
        .expect("estimate_gravity=true must report the recovered vector"));
    assert!(
        (g_est - true_gravity).norm() < 0.05,
        "recovered gravity {g_est:?} should match the true {true_gravity:?}"
    );
}

#[test]
fn norm_gate_rejects_an_implausible_recovered_magnitude() {
    // A well-conditioned window recovers a norm near the TRUE
    // magnitude with no constraint imposed anywhere in the
    // unconstrained solve; deliberately feeding it evidence
    // consistent with a magnitude nowhere near 9.81 must trip the
    // observability gate rather than silently rescaling and
    // promoting.
    let true_gravity = Vector3::new(0.0, 0.0, 3.0);
    let assumed_gravity = Vector3::new(0.0, 9.81, 0.0);
    let mut init = Initializer::new(MotionBasedViInitializerConfig {
        min_keyframes: 3,
        min_translation_meters: scalar(1.0),
        gravity_world: point(&assumed_gravity),
        estimate_gravity: true,
        ..MotionBasedViInitializerConfig::default()
    });
    for i in 0..3 {
        register(&mut init, (i as u64) + 1, Vector3::new(i as f64, 0.0, 0.0));
    }
    let map = build_constant_velocity_map(3);
    let seed = synthetic_seed();
    let factors = vec![
        no_acceleration_factor_with_assumed_gravity(
            1,
            2,
            1.0,
            true_gravity,
            assumed_gravity,
        ),
        no_acceleration_factor_with_assumed_gravity(
            2,
            3,
            1.0,
            true_gravity,
            assumed_gravity,
        ),
    ];
    let err = initialize(&mut init, &map, &factors, &seed)
        .expect_err("implausible recovered magnitude must be rejected");
    match err {
        MotionBasedViRejectionReason::GravityEstimateOutOfRange {
            raw_norm_mps2,
            expected_mps2,
            max_deviation_ratio,
        } => {
            assert!(
                (float(raw_norm_mps2) - 3.0).abs() < 1.0e-6,
                "raw_norm_mps2 = {raw_norm_mps2:?}"
            );
            assert!((float(expected_mps2) - 9.81).abs() < 1.0e-9);
            assert!((float(max_deviation_ratio) - 0.3).abs() < 1.0e-9);
        }
        other => panic!("expected GravityEstimateOutOfRange, got {other:?}"),
    }
}

#[test]
fn degenerate_when_no_factors_connect_the_window() {
    let mut init = Initializer::new(MotionBasedViInitializerConfig {
        min_keyframes: 3,
        min_translation_meters: scalar(1.0),
        estimate_gravity: true,
        ..MotionBasedViInitializerConfig::default()
    });
    for i in 0..3 {
        register(&mut init, (i as u64) + 1, Vector3::new(i as f64, 0.0, 0.0));
    }
    let map = build_constant_velocity_map(3);
    let seed = synthetic_seed();
    let err = initialize(&mut init, &map, &[], &seed)
        .expect_err("no factors means the alignment cannot condition at all");
    assert!(matches!(
        err,
        MotionBasedViRejectionReason::GravityEstimateDegenerate
    ));
}

#[test]
fn composes_with_staged_bias_release_stage_a() {
    // `estimate_gravity` and `BiasReleaseSchedule` are independent
    // knobs; a Stage A ("velocity stage") firing must still report
    // + apply the recovered gravity while leaving biases pinned at
    // the seed, exactly as Stage A does for plain (non-estimated)
    // gravity.
    let true_gravity = Vector3::new(0.0, 0.0, 9.81);
    let assumed_gravity = Vector3::new(0.0, 9.81, 0.0);
    let mut init = Initializer::new(MotionBasedViInitializerConfig {
        min_keyframes: 3,
        min_translation_meters: scalar(1.0),
        gravity_world: point(&assumed_gravity),
        estimate_gravity: true,
        bias_release: Some(BiasReleaseSchedule {
            min_keyframes: 5,
            min_translation_meters: scalar(3.0),
        }),
        ..MotionBasedViInitializerConfig::default()
    });
    for i in 0..3 {
        register(&mut init, (i as u64) + 1, Vector3::new(i as f64, 0.0, 0.0));
    }
    let map = build_constant_velocity_map(3);
    let seed = synthetic_seed();
    let factors = vec![
        no_acceleration_factor_with_assumed_gravity(
            1,
            2,
            1.0,
            true_gravity,
            assumed_gravity,
        ),
        no_acceleration_factor_with_assumed_gravity(
            2,
            3,
            1.0,
            true_gravity,
            assumed_gravity,
        ),
    ];
    let result = initialize(&mut init, &map, &factors, &seed)
        .expect("Stage A must fire even with gravity estimation enabled")
        .clone();
    assert!(!result.bias_released, "Stage A must not release bias");
    let g_est = vector(&result
        .estimated_gravity_world
        .expect("estimate must be reported on a Stage A result too"));
    assert!(
        (g_est - true_gravity).norm() < 0.05,
        "recovered gravity {g_est:?} should match the true {true_gravity:?}"
    );
    for state in result.keyframe_states.values() {
        assert!(
            (vector(&state.bias_gyro) - vector(&seed.bias_gyro)).norm() < 1.0e-9,
            "Stage A must not move gyro bias off the seed even with gravity estimation"
        );
        assert!(
            (vector(&state.bias_acc) - vector(&seed.bias_acc)).norm() < 1.0e-9,
            "Stage A must not move accel bias off the seed even with gravity estimation"
        );
    }
}



/// Build a two-factor window over a translating (`build_constant_velocity_map`),
/// non-rotating body whose raw gyro stream is a known CONSTANT bias
/// (no other angular excitation), integrated through the REAL
/// preintegrator at a zero bias-seed linearisation. The window is
/// short enough (0.02 s at a ~5e-4 rad/s bias) that the total
/// rotation angle stays tiny, keeping the first-order bias-Jacobian
/// correction accurate to well below the tolerance asserted below.
fn real_integrated_factors_with_constant_gyro_bias(
    bias_gyro_true: Vector3<f64>,
    steps: usize,
    dt: f64,
) -> Vec<ImuPreintegrationFactor> {
    [(1u64, 2u64), (2, 3)]
        .into_iter()
        .map(|(from_id, to_id)| {
            let samples = vec![(bias_gyro_true, Vector3::new(0.0, 9.81, 0.0), dt); steps];
            ImuPreintegrationFactor {
                keyframe_id_from: from_id,
                keyframe_id_to: to_id,
                delta: integrate(&samples),
                gravity_world: Vector3::new(0.0, 9.81, 0.0),
            }
        })
        .collect()
}

#[test]
fn recovers_a_known_constant_bias_through_the_real_preintegrator() {
    let bias_gyro_true = Vector3::new(0.0005, -0.0003, 0.0002);
    let factors =
        real_integrated_factors_with_constant_gyro_bias(bias_gyro_true, 20, 0.001);
    let map = build_constant_velocity_map(3);
    let ids: Vec<u64> = vec![1, 2, 3];

    let alignment = align_gyro(&map, &ids, &factors, Vector3::zeros())
        .expect("well-conditioned window must align");
    assert!(
        (vector(&alignment.bias_gyro) - bias_gyro_true).norm() < 1.0e-6,
        "b_g_est = {:?}, b_g_true = {:?}",
        vector(&alignment.bias_gyro),
        bias_gyro_true
    );
    assert!(
        float(alignment.rotation_residual_rms_before) > 0.0,
        "an uncorrected constant bias must leave a nonzero residual"
    );
    assert!(
        float(alignment.rotation_residual_rms_after)
            < float(alignment.rotation_residual_rms_before) * 1.0e-3,
        "rms_before={}, rms_after={}",
        float(alignment.rotation_residual_rms_before),
        float(alignment.rotation_residual_rms_after)
    );
}

#[test]
fn vi_motion_initializer_degenerate_window_with_a_single_factor_returns_none() {
    let factors = real_integrated_factors_with_constant_gyro_bias(
        Vector3::new(0.001, 0.0, 0.0),
        20,
        0.001,
    );
    let single_factor = vec![factors[0].clone()];
    let map = build_constant_velocity_map(2);
    let ids: Vec<u64> = vec![1, 2];
    assert!(
        align_gyro(&map, &ids, &single_factor, Vector3::zeros()).is_none(),
        "a single-factor window must be reported degenerate"
    );
}

#[test]
fn real_preintegrator_regression_gyro_bias_then_gravity_recovery() {
    // Closes the gap noted in the gravity-alignment tests above (all
    // of which use hand-built factors): drive raw IMU samples
    // carrying BOTH a known constant gyro bias AND an off-axis
    // gravity through the REAL preintegrator, run `estimate_gyro_bias`
    // first, then feed its recovered bias into
    // `estimate_gravity_and_velocities` as the (corrected) bias
    // seed - mirroring the exact order
    // `try_initialize_with_bias_seed` runs them in.
    let true_gravity = Vector3::new(6.54, -3.27, 6.54); // |g| = 9.81
    let velocity = Vector3::new(1.2, -0.7, 0.3);
    let bias_gyro_true = Vector3::new(0.0005, -0.0003, 0.0002);
    let dt_step = 0.001;
    let steps = 20;
    let window = (steps as f64) * dt_step;
    let map = build_map_at_velocity(5, window, velocity);
    let ids: Vec<u64> = (1..=5).collect();
    let mut factors = Vec::new();
    for (from_id, to_id) in [(1u64, 2u64), (2, 3), (3, 4), (4, 5)] {
        let samples = vec![(bias_gyro_true, -true_gravity, dt_step); steps];
        factors.push(ImuPreintegrationFactor {
            keyframe_id_from: from_id,
            keyframe_id_to: to_id,
            delta: integrate(&samples),
            gravity_world: true_gravity,
        });
    }

    let gyro_alignment = align_gyro(&map, &ids, &factors, Vector3::zeros())
        .expect("well-conditioned window must align");
    assert!(
        (vector(&gyro_alignment.bias_gyro) - bias_gyro_true).norm() < 1.0e-6,
        "b_g_est = {:?}",
        vector(&gyro_alignment.bias_gyro)
    );

    let gravity_alignment = align_gravity(
        &map,
        &ids,
        &factors,
        vector(&gyro_alignment.bias_gyro),
        Vector3::zeros(),
        9.81,
    )
    .expect("gravity alignment must still condition well after gyro-bias correction");
    assert!(
        (vector(&gravity_alignment.gravity_world) - true_gravity).norm() < 1.0e-4,
        "g_est = {:?}",
        vector(&gravity_alignment.gravity_world)
    );
}


/// Like [`no_acceleration_factor`] but the STORED delta carries an
/// uncompensated gyro bias: the naively-integrated (bias-seed-zero)
/// `delta R` shows a spurious rotation of `Exp(bias_gyro_true *
/// delta_t)`, with an EXACT bias Jacobian
/// `j_rotation_bg = -delta_t*I` (the near-static-window first-order
/// value - see [`estimate_gyro_bias`]'s doc comment). Since
/// `Exp(a) * Exp(-a)` is exactly the identity for any vector `a`,
/// the rotation-only residual at `bias_gyro = bias_gyro_true` is
/// EXACT zero regardless of `bias_gyro_true`'s direction, letting
/// the tests below pin an exactly recovered bias.
fn no_acceleration_factor_with_gyro_bias(
    from_id: u64,
    to_id: u64,
    delta_t: f64,
    gravity: Vector3<f64>,
    bias_gyro_true: Vector3<f64>,
) -> ImuPreintegrationFactor {
    let mut delta = ImuDelta::identity();
    delta.time = delta_t;
    delta.velocity = -gravity * delta_t;
    delta.position = -0.5 * gravity * delta_t * delta_t;
    delta.rotation = UnitQuaternion::from_scaled_axis(bias_gyro_true * delta_t);
    delta.j_rotation_bg = Matrix3::identity() * (-delta_t);
    ImuPreintegrationFactor {
        keyframe_id_from: from_id,
        keyframe_id_to: to_id,
        delta,
        gravity_world: gravity,
    }
}

/// Combines [`no_acceleration_factor_with_gyro_bias`] with
/// [`no_acceleration_factor_with_assumed_gravity`]'s TRUE-vs-ASSUMED
/// gravity decoupling, for the composition test exercising
/// `estimate_gyro_bias` and `estimate_gravity` together.
fn no_acceleration_factor_with_assumed_gravity_and_gyro_bias(
    from_id: u64,
    to_id: u64,
    delta_t: f64,
    true_gravity: Vector3<f64>,
    assumed_gravity: Vector3<f64>,
    bias_gyro_true: Vector3<f64>,
) -> ImuPreintegrationFactor {
    let mut delta = ImuDelta::identity();
    delta.time = delta_t;
    delta.velocity = -true_gravity * delta_t;
    delta.position = -0.5 * true_gravity * delta_t * delta_t;
    delta.rotation = UnitQuaternion::from_scaled_axis(bias_gyro_true * delta_t);
    delta.j_rotation_bg = Matrix3::identity() * (-delta_t);
    ImuPreintegrationFactor {
        keyframe_id_from: from_id,
        keyframe_id_to: to_id,
        delta,
        gravity_world: assumed_gravity,
    }
}

#[test]
fn recovers_from_gyro_bias_where_the_legacy_bias_fixed_path_rejects() {
    // A `BiasReleaseSchedule`
    // Stage A window (bias fixed at the seed) sees a rotation
    // residual driven ENTIRELY by uncompensated gyro bias -
    // independent of velocity, position, or gravity, since bias is
    // not free to move and rotation residual depends only on the
    // (fixed) visual poses and the (bias-fixed) IMU delta.
    let gravity = Vector3::new(0.0, 9.81, 0.0);
    let bias_gyro_true = Vector3::new(0.05, -0.03, 0.02);
    let delta_t = 0.15;
    let factors = vec![
        no_acceleration_factor_with_gyro_bias(1, 2, delta_t, gravity, bias_gyro_true),
        no_acceleration_factor_with_gyro_bias(2, 3, delta_t, gravity, bias_gyro_true),
    ];
    let schedule = BiasReleaseSchedule {
        min_keyframes: 5,
        min_translation_meters: scalar(3.0),
    };
    let seed = synthetic_seed();

    // Probe: bias-fixed Stage A with NO residual gate, just to read
    // the actual rotation-residual RMS this fixture's uncompensated
    // bias leaves (decouples the limit threshold below from a
    // hard-coded magnitude - same technique as
    // `max_velocity_magnitude_gate_rejects_when_exceeded`).
    let mut probe = Initializer::new(MotionBasedViInitializerConfig {
        min_keyframes: 3,
        min_translation_meters: scalar(1.0),
        gravity_world: point(&gravity),
        bias_release: Some(schedule),
        ..MotionBasedViInitializerConfig::default()
    });
    for i in 0..3 {
        register(&mut probe, (i as u64) + 1, Vector3::new(i as f64, 0.0, 0.0));
    }
    let probe_map = build_constant_velocity_map(3);
    let probe_residual = float(initialize(&mut probe, &probe_map, &factors, &seed)
        .expect("bias-fixed Stage A still converges; only the limit is missing here")
        .final_cost_breakdown
        .imu_rotation_residual_rms_rad
        .expect("IMU factors produce a rotation residual"));
    assert!(
        probe_residual > 0.0,
        "an uncompensated gyro bias should leave a nonzero rotation residual, got {probe_residual}"
    );
    let gate = probe_residual * 0.5;

    let mut plain = Initializer::new(MotionBasedViInitializerConfig {
        min_keyframes: 3,
        min_translation_meters: scalar(1.0),
        gravity_world: point(&gravity),
        bias_release: Some(schedule),
        max_final_imu_rotation_residual_rms_rad: Some(scalar(gate)),
        ..MotionBasedViInitializerConfig::default()
    });
    for i in 0..3 {
        register(&mut plain, (i as u64) + 1, Vector3::new(i as f64, 0.0, 0.0));
    }
    let plain_map = build_constant_velocity_map(3);
    let err = initialize(&mut plain, &plain_map, &factors, &seed)
        .expect_err("bias-fixed Stage A must be rejected by the rotation-residual gate");
    assert!(
        matches!(
            err,
            MotionBasedViRejectionReason::ImuRawResidualOutOfRange { .. }
        ),
        "unexpected rejection: {err:?}"
    );

    let mut estimated = Initializer::new(MotionBasedViInitializerConfig {
        min_keyframes: 3,
        min_translation_meters: scalar(1.0),
        gravity_world: point(&gravity),
        bias_release: Some(schedule),
        max_final_imu_rotation_residual_rms_rad: Some(scalar(gate)),
        estimate_gyro_bias: true,
        ..MotionBasedViInitializerConfig::default()
    });
    for i in 0..3 {
        register(&mut estimated, (i as u64) + 1, Vector3::new(i as f64, 0.0, 0.0));
    }
    let estimated_map = build_constant_velocity_map(3);
    let result = initialize(&mut estimated, &estimated_map, &factors, &seed)
        .expect("gyro-bias estimation must clear the same gate")
        .clone();
    assert!(
        !result.bias_released,
        "still Stage A - the schedule's release gate is not met"
    );
    let b_g_est = vector(&result
        .estimated_gyro_bias
        .expect("estimate_gyro_bias=true must report the recovered vector"));
    assert!(
        (b_g_est - bias_gyro_true).norm() < 1.0e-6,
        "recovered bias {b_g_est:?} should match the true {bias_gyro_true:?}"
    );
    for state in result.keyframe_states.values() {
        assert!(
            (vector(&state.bias_gyro) - bias_gyro_true).norm() < 1.0e-9,
            "Stage A must fix gyro bias at the ESTIMATE, not the raw seed"
        );
        assert!(
            (vector(&state.bias_acc) - vector(&seed.bias_acc)).norm() < 1.0e-9,
            "Stage A must leave accel bias at the seed"
        );
    }
}

#[test]
fn vi_motion_initializer_degenerate_when_no_factors_connect_the_window() {
    let mut init = Initializer::new(MotionBasedViInitializerConfig {
        min_keyframes: 3,
        min_translation_meters: scalar(1.0),
        estimate_gyro_bias: true,
        ..MotionBasedViInitializerConfig::default()
    });
    for i in 0..3 {
        register(&mut init, (i as u64) + 1, Vector3::new(i as f64, 0.0, 0.0));
    }
    let map = build_constant_velocity_map(3);
    let seed = synthetic_seed();
    let err = initialize(&mut init, &map, &[], &seed)
        .expect_err("no factors means the alignment cannot condition at all");
    assert!(matches!(
        err,
        MotionBasedViRejectionReason::GyroBiasEstimateDegenerate
    ));
}

#[test]
fn composes_with_gravity_estimation_and_staged_bias_release_stage_a() {
    let true_gravity = Vector3::new(0.0, 0.0, 9.81);
    let assumed_gravity = Vector3::new(0.0, 9.81, 0.0);
    let bias_gyro_true = Vector3::new(0.05, -0.03, 0.02);
    let mut init = Initializer::new(MotionBasedViInitializerConfig {
        min_keyframes: 3,
        min_translation_meters: scalar(1.0),
        gravity_world: point(&assumed_gravity),
        estimate_gravity: true,
        estimate_gyro_bias: true,
        bias_release: Some(BiasReleaseSchedule {
            min_keyframes: 5,
            min_translation_meters: scalar(3.0),
        }),
        ..MotionBasedViInitializerConfig::default()
    });
    for i in 0..3 {
        register(&mut init, (i as u64) + 1, Vector3::new(i as f64, 0.0, 0.0));
    }
    let map = build_constant_velocity_map(3);
    let seed = synthetic_seed();
    let factors = vec![
        no_acceleration_factor_with_assumed_gravity_and_gyro_bias(
            1,
            2,
            0.15,
            true_gravity,
            assumed_gravity,
            bias_gyro_true,
        ),
        no_acceleration_factor_with_assumed_gravity_and_gyro_bias(
            2,
            3,
            0.15,
            true_gravity,
            assumed_gravity,
            bias_gyro_true,
        ),
    ];
    let result = initialize(&mut init, &map, &factors, &seed)
        .expect("Stage A must fire with both estimations enabled")
        .clone();
    assert!(!result.bias_released, "Stage A must not release bias");
    let g_est = vector(&result
        .estimated_gravity_world
        .expect("gravity estimate must be reported alongside the gyro-bias estimate"));
    assert!(
        (g_est - true_gravity).norm() < 0.05,
        "recovered gravity {g_est:?} should match the true {true_gravity:?}"
    );
    let b_g_est = vector(&result
        .estimated_gyro_bias
        .expect("gyro-bias estimate must be reported alongside the gravity estimate"));
    assert!(
        (b_g_est - bias_gyro_true).norm() < 1.0e-6,
        "recovered bias {b_g_est:?} should match the true {bias_gyro_true:?}"
    );
    for state in result.keyframe_states.values() {
        assert!(
            (vector(&state.bias_gyro) - bias_gyro_true).norm() < 1.0e-9,
            "Stage A must fix gyro bias at the ESTIMATE"
        );
    }
}

#[test]
fn kept_results_passed_every_gate() {
    let mut init = Initializer::new(MotionBasedViInitializerConfig {
        min_keyframes: 3,
        min_translation_meters: scalar(1.0),
        max_velocity_magnitude_mps: Some(scalar(10.0)),
        max_final_imu_nis_per_dof: Some(scalar(5.0)),
        ..MotionBasedViInitializerConfig::default()
    });
    let gravity = vector(&init.config().gravity_world);
    for i in 0..3 {
        register(&mut init, (i as u64) + 1, Vector3::new(i as f64, 0.0, 0.0));
    }
    let map = build_constant_velocity_map(3);
    let factors = vec![
        no_acceleration_factor(1, 2, 1.0, gravity),
        no_acceleration_factor(2, 3, 1.0, gravity),
    ];
    let result = initialize(&mut init, &map, &factors, &synthetic_seed()).unwrap().clone();
    assert_eq!(judge_result(init.config(), &result, &norm_of), None);
    for state in result.keyframe_states.values() {
        assert!(vector(&state.velocity_world).norm() <= 10.0);
    }
    assert_eq!(init.result(), Some(&result));
    assert!(!init.is_ready());
}

#[test]
fn a_final_result_supersedes_the_held_one() {
    let mut init = Initializer::new(MotionBasedViInitializerConfig {
        min_keyframes: 3,
        min_translation_meters: scalar(1.0),
        bias_release: Some(BiasReleaseSchedule {
            min_keyframes: 4,
            min_translation_meters: scalar(3.0),
        }),
        ..MotionBasedViInitializerConfig::default()
    });
    let gravity = vector(&init.config().gravity_world);
    for i in 0..3 {
        register(&mut init, (i as u64) + 1, Vector3::new(i as f64, 0.0, 0.0));
    }
    let map = build_constant_velocity_map(4);
    let factors = vec![
        no_acceleration_factor(1, 2, 1.0, gravity),
        no_acceleration_factor(2, 3, 1.0, gravity),
        no_acceleration_factor(3, 4, 1.0, gravity),
    ];
    let seed = synthetic_seed();
    let held = initialize(&mut init, &map, &factors, &seed).unwrap().clone();
    assert!(!held.bias_released);
    for state in held.keyframe_states.values() {
        assert_eq!(state.bias_gyro, seed.bias_gyro);
        assert_eq!(state.bias_acc, seed.bias_acc);
    }
    assert_eq!(init.velocity_stage_result(), Some(&held));
    register(&mut init, 4, Vector3::new(3.0, 0.0, 0.0));
    let last = initialize(&mut init, &map, &factors, &seed).unwrap().clone();
    assert!(last.bias_released);
    assert_eq!(init.result(), Some(&last));
    assert_eq!(init.velocity_stage_result(), None);
}

#[test]
fn a_scale_that_is_not_recovered_is_one() {
    let mut init = Initializer::new(MotionBasedViInitializerConfig {
        min_keyframes: 3,
        min_translation_meters: scalar(1.0),
        viba2: Some(Viba2Config {
            initial_scale: scalar(2.5),
            recover_scale: false,
            max_outer_iterations: 3,
            scale_tolerance: scalar(1.0e-4),
        }),
        ..MotionBasedViInitializerConfig::default()
    });
    let gravity = vector(&init.config().gravity_world);
    for i in 0..3 {
        register(&mut init, (i as u64) + 1, Vector3::new(i as f64, 0.0, 0.0));
    }
    let map = build_constant_velocity_map(3);
    let factors = vec![
        no_acceleration_factor(1, 2, 1.0, gravity),
        no_acceleration_factor(2, 3, 1.0, gravity),
    ];
    let result = initialize(&mut init, &map, &factors, &synthetic_seed()).unwrap().clone();
    assert!(result.bias_released);
    assert_eq!(result.scale, scalar(1.0));
    assert!(result.scale_history.is_empty());
    assert_eq!(result.viba2_iterations_run, 0);
}

#[test]
fn rejections_keep_what_was_recovered() {
    let mut init = Initializer::new(MotionBasedViInitializerConfig {
        min_keyframes: 3,
        min_translation_meters: scalar(1.0),
        bias_release: Some(BiasReleaseSchedule {
            min_keyframes: 9,
            min_translation_meters: scalar(3.0),
        }),
        ..MotionBasedViInitializerConfig::default()
    });
    let gravity = vector(&init.config().gravity_world);
    for i in 0..3 {
        register(&mut init, (i as u64) + 1, Vector3::new(i as f64, 0.0, 0.0));
    }
    let map = build_constant_velocity_map(3);
    let factors = vec![
        no_acceleration_factor(1, 2, 1.0, gravity),
        no_acceleration_factor(2, 3, 1.0, gravity),
    ];
    let first = initialize(&mut init, &map, &factors, &synthetic_seed()).unwrap().clone();
    let refused = initialize(&mut init, &map, &factors, &synthetic_seed()).unwrap_err();
    assert!(matches!(
        refused,
        MotionBasedViRejectionReason::AwaitingBiasReleaseExcitation { .. }
    ));
    assert_eq!(init.velocity_stage_result(), Some(&first));
    assert_eq!(init.result(), None);
}

#[test]
fn gravity_can_be_set_after_construction() {
    let mut init = Initializer::new(MotionBasedViInitializerConfig::default());
    register(&mut init, 1, Vector3::zeros());
    register(&mut init, 2, Vector3::new(3.0, 4.0, 0.0));
    let before = init.config().clone();
    let gravity = point(&Vector3::new(0.1, -0.2, -9.8));
    init.set_gravity_world(gravity);
    assert_eq!(
        init.config(),
        &MotionBasedViInitializerConfig { gravity_world: gravity, ..before }
    );
    assert_eq!(init.keyframes_observed(), 2);
    assert_eq!(float(init.cumulative_translation_meters()), 5.0);
    init.reset();
    assert_eq!(init.keyframes_observed(), 0);
    assert_eq!(float(init.cumulative_translation_meters()), 0.0);
    assert_eq!(init.config().gravity_world, gravity);
}

#[test]
fn keyframes_without_a_pose_are_reported() {
    let mut init = Initializer::new(MotionBasedViInitializerConfig {
        min_keyframes: 2,
        min_translation_meters: scalar(0.5),
        ..MotionBasedViInitializerConfig::default()
    });
    register(&mut init, 1, Vector3::zeros());
    register(&mut init, 2, Vector3::new(1.0, 0.0, 0.0));
    let mut map = build_constant_velocity_map(2);
    map.insert(2, None);
    let error = initialize(&mut init, &map, &[], &synthetic_seed()).unwrap_err();
    assert_eq!(error, MotionBasedViRejectionReason::MissingKeyframeData);
    map.remove(&2);
    let error = initialize(&mut init, &map, &[], &synthetic_seed()).unwrap_err();
    assert_eq!(error, MotionBasedViRejectionReason::MissingKeyframeData);
}

#[test]
fn factors_that_touch_a_missing_pose_are_left_out() {
    let gravity = Vector3::new(0.0, 9.81, 0.0);
    let bias = Vector3::new(0.02, -0.01, 0.015);
    let factors = vec![
        no_acceleration_factor_with_gyro_bias(1, 2, 0.5, gravity, bias),
        no_acceleration_factor_with_gyro_bias(2, 3, 0.5, gravity, bias),
        no_acceleration_factor_with_gyro_bias(3, 4, 0.5, gravity, -bias),
    ];
    let mut map = build_constant_velocity_map(3);
    let ids = [1, 2, 3, 4];
    let alignment = align_gyro(&map, &ids, &factors, Vector3::zeros()).unwrap();
    assert!((vector(&alignment.bias_gyro) - bias).norm() < 1e-9);
    map.insert(4, None);
    assert_eq!(align_gyro(&map, &ids, &factors, Vector3::zeros()), Some(alignment));
    // Gravity wants every pose of its window.
    assert!(align_gravity(&map, &ids, &factors, bias, Vector3::zeros(), 9.81).is_none());
    map.insert(2, None);
    assert!(align_gyro(&map, &ids, &factors, Vector3::zeros()).is_none());
}

#[test]
fn factors_without_a_positive_time_take_no_part_in_gravity() {
    let gravity = Vector3::new(0.0, 9.81, 0.0);
    let map = build_constant_velocity_map(4);
    let ids = [1, 2, 3, 4];
    let good = vec![
        no_acceleration_factor(1, 2, 0.5, gravity),
        no_acceleration_factor(2, 3, 0.5, gravity),
    ];
    let zeros = Vector3::zeros();
    let alignment = align_gravity(&map, &ids, &good, zeros, zeros, 9.81).unwrap();
    for time in [f64::NAN, 0.0, -0.5] {
        let mut stray = no_acceleration_factor(3, 4, 0.5, gravity);
        stray.delta.time = time;
        let mixed = vec![good[0].clone(), stray.clone(), good[1].clone()];
        let task = prepare_alignment(
            &map,
            &ids,
            &plain_factors(&mixed),
            point(&zeros),
            point(&zeros),
        )
        .unwrap();
        assert_eq!(task.factors, vec![0, 2]);
        assert_eq!(
            align_gravity(&map, &ids, &mixed, zeros, zeros, 9.81),
            Some(alignment.clone())
        );
        let lone = vec![good[0].clone(), stray.clone(), stray.clone()];
        assert_eq!(align_gravity(&map, &ids, &lone, zeros, zeros, 9.81), None);
        assert_eq!(align_gravity(&map, &ids, &[stray.clone(), stray], zeros, zeros, 9.81), None);
    }
}

#[test]
fn a_first_result_lasts_whatever_is_asked_later() {
    let mut init = Initializer::new(MotionBasedViInitializerConfig {
        min_keyframes: 3,
        min_translation_meters: scalar(1.0),
        bias_release: Some(BiasReleaseSchedule {
            min_keyframes: 4,
            min_translation_meters: scalar(3.0),
        }),
        ..MotionBasedViInitializerConfig::default()
    });
    let gravity = vector(&init.config().gravity_world);
    for i in 0..3 {
        register(&mut init, (i as u64) + 1, Vector3::new(i as f64, 0.0, 0.0));
    }
    let map = build_constant_velocity_map(5);
    let factors = vec![
        no_acceleration_factor(1, 2, 1.0, gravity),
        no_acceleration_factor(2, 3, 1.0, gravity),
        no_acceleration_factor(3, 4, 1.0, gravity),
    ];
    let seed = synthetic_seed();
    let held = initialize(&mut init, &map, &factors, &seed).unwrap().clone();
    assert!(!held.bias_released);
    // Enough keyframes, but too little motion.
    register(&mut init, 4, Vector3::new(2.5, 0.0, 0.0));
    init.set_gravity_world(point(&Vector3::new(0.0, 0.0, -9.81)));
    let nothing = build_constant_velocity_map(0);
    assert_eq!(
        initialize(&mut init, &nothing, &[], &seed).unwrap_err(),
        MotionBasedViRejectionReason::AwaitingBiasReleaseExcitation {
            have_keyframes: 4,
            need_keyframes: 4,
            have_translation_meters: scalar(2.5),
            need_translation_meters: scalar(3.0),
        }
    );
    assert_eq!(init.velocity_stage_result(), Some(&held));
    register(&mut init, 5, Vector3::new(3.5, 0.0, 0.0));
    let last = initialize(&mut init, &map, &factors, &seed).unwrap().clone();
    assert!(last.bias_released);
    register(&mut init, 6, Vector3::new(9.0, 0.0, 0.0));
    assert_eq!(initialize(&mut init, &nothing, &[], &seed).unwrap(), &last);
    assert_eq!(init.result(), Some(&last));
}

#[test]
fn solver_failures_are_told_from_missing_factors() {
    let mut init = Initializer::new(MotionBasedViInitializerConfig {
        min_keyframes: 2,
        min_translation_meters: scalar(0.5),
        ..MotionBasedViInitializerConfig::default()
    });
    let gravity = vector(&init.config().gravity_world);
    register(&mut init, 1, Vector3::zeros());
    register(&mut init, 2, Vector3::new(1.0, 0.0, 0.0));
    let map = build_constant_velocity_map(2);
    let factors = vec![no_acceleration_factor(1, 2, 1.0, gravity)];
    let numerics = MotionNumerics {
        compose: compose_poses,
        velocity: velocity_between,
        norm: norm_of,
        deviation: deviation_ratio,
        solve: |_: &InertialTask| -> Option<InertialStats<usize>> { None },
        gravity: GravityNumerics {
            raw: |task: &AlignmentTask| raw_gravity(task, &factors),
            direction: gravity_direction,
            refine: |task: &AlignmentTask, norm: Scalar, direction: &Point3| {
                refine_gravity(task, &factors, norm, direction)
            },
            scale: scale_to_norm,
            residual: |task: &AlignmentTask, gravity: &Point3, velocities: &Vec<Point3>| {
                gravity_residual(task, &factors, gravity, velocities)
            },
        },
        gyro: GyroNumerics {
            rms: |task: &AlignmentTask, bias: &Point3| gyro_rms(task, &factors, bias),
            step: |task: &AlignmentTask, bias: &Point3| gyro_step(task, &factors, bias),
        },
    };
    let error = init
        .try_initialize(&map, &plain_factors(&factors), &synthetic_seed(), &numerics)
        .unwrap_err();
    assert_eq!(error, MotionBasedViRejectionReason::SolverFailed);
}

#[test]
fn a_failing_refinement_falls_back_to_the_plain_rescale() {
    let true_gravity = Vector3::new(6.54, -3.27, 6.54);
    let map = build_map_at_velocity(4, 1.0, Vector3::new(1.2, -0.7, 0.3));
    let mut factors = vec![
        no_acceleration_factor(1, 2, 1.0, true_gravity),
        no_acceleration_factor(2, 3, 1.0, true_gravity),
        no_acceleration_factor(3, 4, 1.0, true_gravity),
    ];
    factors[1].delta.velocity += Vector3::new(0.35, -0.2, 0.15);
    let calls = std::cell::Cell::new(0);
    let numerics = GravityNumerics {
        raw: |task: &AlignmentTask| raw_gravity(task, &factors),
        direction: gravity_direction,
        // The third of the four steps fails.
        refine: |task: &AlignmentTask, norm: Scalar, direction: &Point3| {
            calls.set(calls.get() + 1);
            if calls.get() == 3 {
                None
            } else {
                refine_gravity(task, &factors, norm, direction)
            }
        },
        scale: scale_to_norm,
        residual: |task: &AlignmentTask, gravity: &Point3, velocities: &Vec<Point3>| {
            gravity_residual(task, &factors, gravity, velocities)
        },
    };
    let alignment = estimate_gravity_and_velocities(
        &map,
        &[4, 3, 2, 1, 2],
        &plain_factors(&factors),
        Point3::zero(),
        Point3::zero(),
        scalar(9.81),
        &numerics,
    )
    .unwrap();
    assert_eq!(calls.get(), 3);
    assert_eq!(alignment.window_keyframes, 4);
    let task = AlignmentTask {
        keyframe_ids: vec![1, 2, 3, 4],
        poses: map.values().map(|pose| pose.unwrap()).collect(),
        factors: vec![0, 1, 2],
        bias_gyro: Point3::zero(),
        bias_acc: Point3::zero(),
    };
    let raw = raw_gravity(&task, &factors).unwrap();
    assert_eq!(alignment.raw_gravity_norm, raw.norm);
    assert_eq!(
        alignment.gravity_world,
        scale_to_norm(scalar(9.81), &gravity_direction(&raw))
    );
    assert_eq!(alignment.velocities.into_values().collect::<Vec<_>>(), raw.velocities);
}

#[test]
fn alignments_see_the_latest_ten_keyframes() {
    let gravity = Vector3::new(0.0, 9.81, 0.0);
    let map = build_constant_velocity_map(14);
    let ids: Vec<u64> = (1..=14).collect();
    let factors: Vec<ImuPreintegrationFactor> =
        (1..14).map(|id| no_acceleration_factor(id, id + 1, 1.0, gravity)).collect();
    let zero = Vector3::zeros();
    let alignment = align_gravity(&map, &ids, &factors, zero, zero, 9.81).unwrap();
    assert_eq!(alignment.window_keyframes, 10);
    assert_eq!(alignment.velocities.keys().copied().collect::<Vec<u64>>(), ids[4..].to_vec());
    assert!(align_gravity(&map, &ids, &factors, zero, zero, 0.0).is_none());
    assert!(align_gravity(&map, &ids, &factors, zero, zero, f64::NAN).is_none());
}
