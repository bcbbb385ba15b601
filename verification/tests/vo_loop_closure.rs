use nalgebra::{DMatrix, DVector, UnitQuaternion, Vector3};
use visloc_slam::geometry::{Point3, Pose, Quaternion};
use visloc_slam::loop_candidates::{
    detect_loop_candidates, keep_travelled, loop_correspondences, pool_cap, pooled_descriptors,
    verification_order, DescriptorMatch, LoopCandidatePair, LoopCorrespondence, LoopVerification,
};
use visloc_slam::scalar::Scalar;
use visloc_slam::stereo_landmarks::{Pixel, StereoFeature};
use visloc_slam::vo_loop_closure::{
    close_loops_on_vo_trajectory, AppearanceNumerics, GraphNumerics, LoopFeatures, LoopGraph,
    LoopNumerics, LoopSolution, TravelNumerics, VerificationNumerics, VoLoopClosureConfig,
    VoLoopClosureError, VoLoopClosureResult, WorldCorrespondence,
};

fn scalar(value: f64) -> Scalar {
    Scalar::from_bits(value.to_bits())
}

fn float(value: Scalar) -> f64 {
    f64::from_bits(value.to_bits())
}

fn point(value: &nalgebra::Vector3<f64>) -> Point3 {
    Point3 { x: scalar(value.x), y: scalar(value.y), z: scalar(value.z) }
}

fn vector(value: &Point3) -> nalgebra::Vector3<f64> {
    nalgebra::Vector3::new(float(value.x), float(value.y), float(value.z))
}

fn quaternion(value: &nalgebra::UnitQuaternion<f64>) -> Quaternion {
    Quaternion {
        w: scalar(value.w),
        x: scalar(value.i),
        y: scalar(value.j),
        z: scalar(value.k),
    }
}

fn rotation(value: &Quaternion) -> nalgebra::UnitQuaternion<f64> {
    nalgebra::UnitQuaternion::new_unchecked(nalgebra::Quaternion::new(
        float(value.w),
        float(value.x),
        float(value.y),
        float(value.z),
    ))
}

fn plus(a: Scalar, b: Scalar) -> Scalar {
    scalar(float(a) + float(b))
}

fn camera_center(pose: &Pose) -> nalgebra::Vector3<f64> {
    -(rotation(&pose.rotation).inverse() * vector(&pose.translation))
}

fn camera_to_world(pose: &Pose, value: &Point3) -> Point3 {
    let shifted = vector(value) - vector(&pose.translation);
    point(&(rotation(&pose.rotation).inverse() * shifted))
}

fn world_to_camera(pose: &Pose, value: &Point3) -> Point3 {
    point(&(rotation(&pose.rotation) * vector(value) + vector(&pose.translation)))
}

/// First `other`, then `pose`.
fn compose_poses(pose: &Pose, other: &Pose) -> Pose {
    let turn = rotation(&pose.rotation);
    Pose {
        rotation: quaternion(&(turn * rotation(&other.rotation))),
        translation: point(&(turn * vector(&other.translation) + vector(&pose.translation))),
    }
}

fn inverse_pose(pose: &Pose) -> Pose {
    let turn = rotation(&pose.rotation).inverse();
    Pose {
        rotation: quaternion(&turn),
        translation: point(&(-(turn * vector(&pose.translation)))),
    }
}

/// The motion from the first camera to the second.
fn relative_pose(from: &Pose, to: &Pose) -> Pose {
    compose_poses(to, &inverse_pose(from))
}

fn center_distance(one: &Pose, other: &Pose) -> Scalar {
    scalar((camera_center(one) - camera_center(other)).norm())
}

fn minus(a: Scalar, b: Scalar) -> Scalar {
    scalar(float(a) - float(b))
}

/// The position of a sample of an evenly thinned pool.
fn spread_sample(i: usize, len: usize, cap: usize) -> usize {
    let step = len as f64 / cap as f64;
    (i as f64 * step) as usize
}

/// A group of variables: a rotation, if it has one, and numbers that are added to.
#[derive(Clone)]
struct Block {
    rotation: Option<UnitQuaternion<f64>>,
    values: Vec<f64>,
    fixed: bool,
}

impl Block {
    fn freedom(&self) -> usize {
        if self.fixed {
            0
        } else {
            self.values.len() + if self.rotation.is_some() { 3 } else { 0 }
        }
    }

    /// The block after a step; a rotation is turned from the left.
    fn moved(&self, step: &[f64]) -> Block {
        let mut next = self.clone();
        let mut at = 0;
        if let Some(turn) = &self.rotation {
            let axis = Vector3::new(step[0], step[1], step[2]);
            next.rotation = Some(UnitQuaternion::from_scaled_axis(axis) * turn);
            at = 3;
        }
        for (value, change) in next.values.iter_mut().zip(&step[at..]) {
            *value += change;
        }
        next
    }
}

/// A whitened residual over some blocks, with an optional robust radius.
struct Factor<'a> {
    blocks: Vec<usize>,
    huber: Option<f64>,
    residual: Box<dyn Fn(&[&Block]) -> Vec<f64> + 'a>,
}

impl Factor<'_> {
    fn at(&self, blocks: &[Block]) -> Vec<f64> {
        let picked: Vec<&Block> = self.blocks.iter().map(|i| &blocks[*i]).collect();
        (self.residual)(&picked)
    }

    /// Cost of a squared length, and the weight of its residual.
    fn robust(&self, squared: f64) -> (f64, f64) {
        match self.huber {
            Some(radius) if squared > radius * radius => {
                let length = squared.sqrt();
                (2.0 * radius * length - radius * radius, radius / length)
            }
            _ => (squared, 1.0),
        }
    }
}

struct Summary {
    initial_cost: f64,
    final_cost: f64,
    iterations: usize,
    converged: bool,
}

fn total_cost(blocks: &[Block], factors: &[Factor]) -> f64 {
    factors
        .iter()
        .map(|factor| {
            let squared = factor.at(blocks).iter().map(|r| r * r).sum();
            factor.robust(squared).0
        })
        .sum()
}

/// Damped least squares with numeric derivatives.
fn minimize(blocks: &mut Vec<Block>, factors: &[Factor], max_iterations: usize) -> Summary {
    let mut offsets = Vec::new();
    let mut dim = 0;
    for block in blocks.iter() {
        offsets.push(dim);
        dim += block.freedom();
    }
    let initial_cost = total_cost(blocks, factors);
    let mut summary =
        Summary { initial_cost, final_cost: initial_cost, iterations: 0, converged: false };
    let mut lambda = 1e-6;
    while summary.iterations < max_iterations && !summary.converged && dim > 0 {
        let mut hessian = DMatrix::<f64>::zeros(dim, dim);
        let mut gradient = DVector::<f64>::zeros(dim);
        for factor in factors {
            let residual = factor.at(blocks);
            let squared = residual.iter().map(|r| r * r).sum();
            let weight = factor.robust(squared).1;
            let mut columns: Vec<(usize, Vec<f64>)> = Vec::new();
            for (slot, index) in factor.blocks.iter().enumerate() {
                let freedom = blocks[*index].freedom();
                for k in 0..freedom {
                    let mut step = vec![0.0; freedom];
                    step[k] = 1e-6;
                    let ahead = blocks[*index].moved(&step);
                    step[k] = -1e-6;
                    let back = blocks[*index].moved(&step);
                    let mut picked: Vec<&Block> =
                        factor.blocks.iter().map(|i| &blocks[*i]).collect();
                    picked[slot] = &ahead;
                    let plus = (factor.residual)(&picked);
                    picked[slot] = &back;
                    let minus = (factor.residual)(&picked);
                    let column =
                        plus.iter().zip(&minus).map(|(p, m)| (p - m) / 2e-6).collect();
                    columns.push((offsets[*index] + k, column));
                }
            }
            for (i, one) in &columns {
                gradient[*i] +=
                    weight * one.iter().zip(&residual).map(|(a, b)| a * b).sum::<f64>();
                for (j, other) in &columns {
                    hessian[(*i, *j)] +=
                        weight * one.iter().zip(other).map(|(a, b)| a * b).sum::<f64>();
                }
            }
        }
        let mut accepted = false;
        while !accepted && lambda < 1e12 {
            let mut damped = hessian.clone();
            for k in 0..dim {
                damped[(k, k)] += lambda * (1.0 + hessian[(k, k)]);
            }
            if let Some(factorized) = damped.cholesky() {
                let delta = factorized.solve(&(-&gradient));
                let next: Vec<Block> = blocks
                    .iter()
                    .zip(&offsets)
                    .map(|(block, at)| {
                        if block.fixed {
                            block.clone()
                        } else {
                            block.moved(&delta.as_slice()[*at..*at + block.freedom()])
                        }
                    })
                    .collect();
                let cost = total_cost(&next, factors);
                if cost <= summary.final_cost {
                    accepted = true;
                    summary.converged =
                        delta.amax() < 1e-9 || summary.final_cost - cost < 1e-12;
                    summary.final_cost = cost;
                    *blocks = next;
                    lambda = (lambda * 0.1).max(1e-12);
                }
            }
            if !accepted {
                lambda *= 10.0;
            }
        }
        summary.iterations += 1;
        if !accepted {
            summary.converged = true;
        }
    }
    summary
}

fn pose_block(pose: &Pose, fixed: bool) -> Block {
    let shift = vector(&pose.translation);
    Block {
        rotation: Some(rotation(&pose.rotation)),
        values: vec![shift.x, shift.y, shift.z],
        fixed,
    }
}

fn block_parts(block: &Block) -> (UnitQuaternion<f64>, Vector3<f64>) {
    (
        block.rotation.unwrap(),
        Vector3::new(block.values[0], block.values[1], block.values[2]),
    )
}

fn block_pose(block: &Block) -> Pose {
    let (turn, shift) = block_parts(block);
    Pose { rotation: quaternion(&turn), translation: point(&shift) }
}

fn row(descriptor: &[Scalar]) -> Vec<f64> {
    descriptor.iter().map(|value| float(*value)).collect()
}

fn squared_distance(one: &[f64], other: &[f64]) -> f64 {
    one.iter().zip(other).map(|(a, b)| (a - b) * (a - b)).sum()
}

fn nearest(centres: &[Vec<f64>], descriptor: &[f64]) -> usize {
    (0..centres.len())
        .min_by(|a, b| {
            squared_distance(&centres[*a], descriptor)
                .total_cmp(&squared_distance(&centres[*b], descriptor))
        })
        .unwrap()
}

/// Evenly seeded cluster centres.
fn build_vocabulary(
    features: &Vec<LoopFeatures>,
    pool: &Vec<(usize, usize)>,
    words: usize,
    iterations: usize,
    _seed: u64,
) -> Option<Vec<Vec<f64>>> {
    let all: Vec<Vec<f64>> =
        pool.iter().map(|(frame, index)| row(&features[*frame].descriptors[*index])).collect();
    if words == 0 || all.len() < words || all[0].is_empty() {
        return None;
    }
    let mut centres: Vec<Vec<f64>> =
        (0..words).map(|k| all[k * all.len() / words].clone()).collect();
    for _ in 0..iterations {
        let mut sums = vec![vec![0.0; all[0].len()]; words];
        let mut counts = vec![0.0; words];
        for descriptor in &all {
            let word = nearest(&centres, descriptor);
            counts[word] += 1.0;
            for (sum, value) in sums[word].iter_mut().zip(descriptor) {
                *sum += value;
            }
        }
        for (centre, (sum, count)) in centres.iter_mut().zip(sums.iter().zip(&counts)) {
            if *count > 0.0 {
                *centre = sum.iter().map(|value| value / count).collect();
            }
        }
    }
    Some(centres)
}

/// The residuals to the nearest words, stacked and normalized.
fn describe(descriptors: &Vec<Vec<Scalar>>, centres: &Vec<Vec<f64>>) -> Vec<Scalar> {
    let dim = centres[0].len();
    let mut stacked = vec![0.0; dim * centres.len()];
    for descriptor in descriptors {
        let values = row(descriptor);
        let word = nearest(centres, &values);
        for k in 0..dim {
            stacked[word * dim + k] += values[k] - centres[word][k];
        }
    }
    let norm = stacked.iter().map(|value| value * value).sum::<f64>().sqrt();
    stacked.iter().map(|value| scalar(if norm > 0.0 { value / norm } else { 0.0 })).collect()
}

fn cosine(one: &Vec<Scalar>, other: &Vec<Scalar>) -> Scalar {
    scalar(row(one).iter().zip(row(other)).map(|(a, b)| a * b).sum())
}

/// The nearest older descriptor of each newer one, where it is clearly the nearest.
fn brute_force(
    newer: &Vec<Vec<Scalar>>,
    older: &Vec<Vec<Scalar>>,
    ratio: Option<Scalar>,
) -> Vec<DescriptorMatch> {
    let candidates: Vec<Vec<f64>> = older.iter().map(|descriptor| row(descriptor)).collect();
    let mut matches = Vec::new();
    for (query_index, descriptor) in newer.iter().enumerate() {
        let values = row(descriptor);
        let mut ranked: Vec<(f64, usize)> = candidates
            .iter()
            .enumerate()
            .map(|(k, other)| (squared_distance(&values, other).sqrt(), k))
            .collect();
        ranked.sort_by(|a, b| a.0.total_cmp(&b.0));
        let clear = match (ranked.first(), ranked.get(1), ratio) {
            (None, _, _) => false,
            (Some(best), Some(second), Some(limit)) => best.0 < float(limit) * second.0,
            _ => true,
        };
        if clear {
            matches.push(DescriptorMatch {
                query_index,
                train_index: ranked[0].1,
                confidence: scalar(1.0),
            });
        }
    }
    matches
}

fn project(point_cam: &Vector3<f64>) -> (f64, f64) {
    (600.0 * point_cam.x / point_cam.z + 640.0, 600.0 * point_cam.y / point_cam.z + 240.0)
}

fn pixel_factor(correspondence: &WorldCorrespondence) -> Factor<'static> {
    let target = (float(correspondence.pixel.x), float(correspondence.pixel.y));
    let world = vector(&correspondence.point);
    Factor {
        blocks: vec![0],
        huber: Some(2.0),
        residual: Box::new(move |blocks: &[&Block]| {
            let (turn, shift) = block_parts(blocks[0]);
            let seen = turn * world + shift;
            if seen.z < 0.05 {
                return vec![1e3, 1e3];
            }
            let (u, v) = project(&seen);
            vec![u - target.0, v - target.1]
        }),
    }
}

/// Fits a pose to the correspondences from the older pose on and counts what agrees.
fn verify_pose(list: &Vec<WorldCorrespondence>, older: &Pose) -> LoopVerification<Pose> {
    let mut blocks = vec![pose_block(older, false)];
    let factors: Vec<Factor> = list.iter().map(pixel_factor).collect();
    minimize(&mut blocks, &factors, 30);
    let errors: Vec<f64> = factors
        .iter()
        .map(|factor| factor.at(&blocks).iter().map(|r| r * r).sum::<f64>().sqrt())
        .filter(|error| *error < 2.0)
        .collect();
    let ratio = errors.len() as f64 / list.len().max(1) as f64;
    let verified = errors.len() >= 12 && ratio > 0.6;
    LoopVerification {
        verified,
        relative_pose: Some(relative_pose(older, &block_pose(&blocks[0]))),
        inlier_count: errors.len(),
        inlier_ratio: scalar(ratio),
        mean_sampson_error: scalar(errors.iter().sum::<f64>() / errors.len().max(1) as f64),
        score: scalar(ratio),
    }
}

fn edge_factor(from: usize, to: usize, relative: &Pose, huber: Option<f64>) -> Factor<'static> {
    let measured = inverse_pose(relative);
    Factor {
        blocks: vec![from, to],
        huber,
        residual: Box::new(move |blocks: &[&Block]| {
            let motion = relative_pose(&block_pose(blocks[0]), &block_pose(blocks[1]));
            let error = compose_poses(&measured, &motion);
            let turn = rotation(&error.rotation).scaled_axis();
            let shift = vector(&error.translation);
            vec![turn.x, turn.y, turn.z, shift.x, shift.y, shift.z]
        }),
    }
}

#[derive(Debug, Clone, PartialEq)]
struct Report {
    initial_cost: f64,
    final_cost: f64,
}

#[derive(Debug, Clone, PartialEq, Eq)]
struct GraphFailure;

fn solve_graph(graph: &LoopGraph) -> Result<LoopSolution<Report>, GraphFailure> {
    let mut blocks: Vec<Block> =
        graph.poses.iter().enumerate().map(|(k, pose)| pose_block(pose, k == 0)).collect();
    let mut factors = Vec::new();
    for edge in &graph.sequential {
        factors.push(edge_factor(edge.from as usize, edge.to as usize, &edge.relative_pose, None));
    }
    for constraint in &graph.constraints {
        factors.push(edge_factor(
            constraint.from_keyframe_id as usize,
            constraint.to_keyframe_id as usize,
            &constraint.relative_pose,
            Some(0.5),
        ));
    }
    let summary = minimize(&mut blocks, &factors, 8);
    Ok(LoopSolution {
        poses: blocks.iter().map(|block| Some(block_pose(block))).collect(),
        report: Report { initial_cost: summary.initial_cost, final_cost: summary.final_cost },
    })
}

fn close_loops(
    poses: &Vec<Pose>,
    features: &Vec<LoopFeatures>,
    stereo: &Vec<Vec<StereoFeature>>,
    config: &VoLoopClosureConfig,
) -> Result<VoLoopClosureResult<Pose, Report>, VoLoopClosureError<GraphFailure>> {
    let numerics = LoopNumerics {
        appearance: AppearanceNumerics {
            sample: spread_sample,
            vocabulary: build_vocabulary,
            describe,
            similarity: cosine,
        },
        travel: TravelNumerics { distance: center_distance, plus, minus },
        verification: VerificationNumerics {
            to_world: camera_to_world,
            matches: brute_force,
            verify: verify_pose,
        },
        graph: GraphNumerics { relative: relative_pose, solve: solve_graph },
    };
    close_loops_on_vo_trajectory(poses, features, stereo, config, &numerics)
}

/// A landmark's descriptor: a deterministic, *continuous* per-id vector so
/// the same physical point matches across frames, while no k-means centroid
/// sits exactly on it (which would collapse the VLAD residual to zero, an
/// artifact of sparse one-hot synthetic descriptors that real 256-d
/// SuperPoint vectors never exhibit).
fn descriptor_for(id: usize, dim: usize) -> Vec<f32> {
    let mut d = vec![0.0f32; dim];
    let phase = id as f32 * 0.61803398;
    for (j, slot) in d.iter_mut().enumerate() {
        *slot = ((phase + j as f32 * 0.27).sin() * 0.5 + 0.5)
            + ((id * 13 + j * 7) % 5) as f32 * 0.05;
    }
    let norm: f32 = d.iter().map(|x| x * x).sum::<f32>().sqrt();
    if norm > 0.0 {
        for slot in d.iter_mut() {
            *slot /= norm;
        }
    }
    d
}

/// Build a frame's `FeatureSet` + stereo depth by projecting the visible
/// landmarks through the *true* pose, so PnP recovers the true geometry
/// regardless of how drifted the VO estimate is.
fn observe(
    true_pose: &Pose,
    landmarks: &[(usize, Vector3<f64>)],
    desc_dim: usize,
) -> (LoopFeatures, Vec<StereoFeature>) {
    let mut keypoints = Vec::new();
    let mut descriptors = Vec::new();
    let mut stereo = Vec::new();
    for (id, world) in landmarks {
        let point_cam = vector(&world_to_camera(true_pose, &point(world)));
        if point_cam.z <= 0.5 {
            continue;
        }
        let (u, v) = project(&point_cam);
        if u < 0.0 || u >= 1280.0 || v < 0.0 || v >= 480.0 {
            continue;
        }
        let index = keypoints.len();
        keypoints.push(Pixel { x: scalar(u), y: scalar(v) });
        descriptors.push(
            descriptor_for(*id, desc_dim).iter().map(|value| scalar(f64::from(*value))).collect(),
        );
        stereo.push(StereoFeature {
            left_index: index,
            right_index: index,
            disparity: scalar(600.0 * 0.5 / point_cam.z),
            point_cam: point(&point_cam),
        });
    }
    (LoopFeatures { keypoints, descriptors }, stereo)
}

fn pose_at(translation: Vector3<f64>, yaw: f64) -> Pose {
    // world_to_camera: rotate then translate. Build from a camera-center +
    // orientation so the geometry is easy to reason about.
    let rotation = UnitQuaternion::from_axis_angle(&Vector3::y_axis(), yaw);
    let world_to_camera_rot = rotation.inverse();
    let translation = world_to_camera_rot * (-translation);
    Pose { rotation: quaternion(&world_to_camera_rot), translation: point(&translation) }
}

fn ate_rmse(estimate: &[Pose], truth: &[Pose]) -> f64 {
    let sum: f64 = estimate
        .iter()
        .zip(truth)
        .map(|(e, t)| {
            (camera_center(e) - camera_center(t)).norm_squared()
        })
        .sum();
    (sum / estimate.len() as f64).sqrt()
}

#[test]
fn closes_a_synthetic_square_loop() {
    let desc_dim = 16;

    // A circular loop of 41 frames returning to the start; landmarks scattered
    // ahead so each frame sees a stable subset, and frame 0 / frame 40 (same
    // place) re-see the same landmarks for the loop match.
    let n = 41;
    let mut centers = Vec::with_capacity(n);
    let mut angles = Vec::with_capacity(n);
    for i in 0..n {
        let t = i as f64 / (n - 1) as f64; // 0..1 around the loop
        let angle = t * std::f64::consts::TAU;
        let radius = 6.0;
        centers.push(Vector3::new(radius * angle.sin(), 0.0, radius * (1.0 - angle.cos())));
        angles.push(angle);
    }
    let true_poses: Vec<Pose> = centers
        .iter()
        .zip(&angles)
        .map(|(c, &a)| pose_at(*c, a))
        .collect();

    // Landmarks on a ring slightly outside the path so they stay in front of
    // the camera as it goes around.
    let mut landmarks = Vec::new();
    for k in 0..160 {
        let a = k as f64 / 160.0 * std::f64::consts::TAU;
        let r = 9.0;
        landmarks.push((
            k,
            Vector3::new(r * a.sin(), (k % 5) as f64 * 0.3 - 0.6, r * (1.0 - a.cos()) + 3.0),
        ));
    }

    let mut left_features = Vec::with_capacity(n);
    let mut stereo_per_frame = Vec::with_capacity(n);
    for true_pose in &true_poses {
        let (features, stereo) = observe(true_pose, &landmarks, desc_dim);
        left_features.push(features);
        stereo_per_frame.push(stereo);
    }

    // Drifted VO estimate: integrate the *true* frame-to-frame motions with a
    // small systematic per-step error (slight yaw + forward bias) injected
    // into each relative pose. Error accumulates, so the trajectory spirals
    // open and the endpoint no longer coincides with the start — exactly the
    // drift a loop closure removes (a linear position offset would not).
    let mut vo_poses = Vec::with_capacity(n);
    vo_poses.push(true_poses[0].clone());
    let delta = Pose {
        rotation: quaternion(&UnitQuaternion::from_axis_angle(&Vector3::y_axis(), 0.012)),
        translation: point(&Vector3::new(0.0, 0.0, 0.03)),
    };
    for i in 1..n {
        let true_rel = relative_pose(&true_poses[i - 1], &true_poses[i]);
        let drifted_rel = compose_poses(&delta, &true_rel);
        let next = compose_poses(&drifted_rel, &vo_poses[i - 1]);
        vo_poses.push(next);
    }

    let config = VoLoopClosureConfig {
        min_frame_gap: 20,
        min_similarity: scalar(0.1),
        max_candidates_per_frame: 5,
        vocab_k: 24,
        vocab_descriptor_stride: 1,
        ..VoLoopClosureConfig::default()
    };

    let result =
        close_loops(&vo_poses, &left_features, &stereo_per_frame, &config)
            .expect("loop closure runs");

    assert!(
        result.verified_count() >= 1,
        "expected at least one verified loop, got {} (candidates {})",
        result.verified_count(),
        result.candidate_count
    );

    let before = ate_rmse(&vo_poses, &true_poses);
    let after = ate_rmse(&result.refined_poses, &true_poses);
    assert!(
        after < before,
        "PGO should reduce ATE: before {before:.3} m, after {after:.3} m"
    );
}

#[test]
fn no_loop_returns_input_unchanged() {
    let desc_dim = 16;
    let n = 10;
    let mut poses = Vec::new();
    let mut left_features = Vec::new();
    let mut stereo_per_frame = Vec::new();
    let landmarks: Vec<(usize, Vector3<f64>)> = (0..40)
        .map(|k| (k, Vector3::new((k % 7) as f64 - 3.0, (k % 3) as f64 - 1.0, 8.0)))
        .collect();
    for i in 0..n {
        let pose = pose_at(Vector3::new(0.0, 0.0, i as f64 * 2.0), 0.0);
        let (features, stereo) = observe(&pose, &landmarks, desc_dim);
        poses.push(pose);
        left_features.push(features);
        stereo_per_frame.push(stereo);
    }
    // Straight line, no revisits: huge min_gap so nothing is proposed.
    let config = VoLoopClosureConfig {
        min_frame_gap: 8,
        min_similarity: scalar(0.99),
        vocab_k: 12,
        vocab_descriptor_stride: 1,
        ..VoLoopClosureConfig::default()
    };
    let result =
        close_loops(&poses, &left_features, &stereo_per_frame, &config)
            .expect("runs");
    assert_eq!(result.verified_count(), 0);
    assert!(result.gnc.is_none());
    assert_eq!(result.refined_poses.len(), n);
}

#[test]
fn inputs_are_checked_in_order() {
    let pose = pose_at(Vector3::zeros(), 0.0);
    let empty = LoopFeatures { keypoints: vec![], descriptors: vec![] };
    let config = VoLoopClosureConfig::default();
    let error = close_loops(&vec![pose], &vec![], &vec![vec![]], &config).unwrap_err();
    assert_eq!(error, VoLoopClosureError::InputLengthMismatch);
    assert_eq!(
        error.message(""),
        "poses, left_features, and stereo_per_frame must have equal length"
    );
    let error =
        close_loops(&vec![pose], &vec![empty.clone()], &vec![vec![]], &config).unwrap_err();
    assert_eq!(error, VoLoopClosureError::TooFewFrames(1));
    assert_eq!(error.message(""), "need at least 2 frames, got 1");
    let error = close_loops(
        &vec![pose, pose],
        &vec![empty.clone(), empty],
        &vec![vec![], vec![]],
        &config,
    )
    .unwrap_err();
    assert_eq!(error, VoLoopClosureError::VocabularyBuildFailed);
    let failed: VoLoopClosureError<GraphFailure> = VoLoopClosureError::PoseGraph(GraphFailure);
    assert_eq!(failed.message("singular"), "pose-graph optimization failed: singular");
}

#[test]
fn candidates_keep_gap_floor_and_cap() {
    let rows: Vec<Vec<Scalar>> = [
        vec![],
        vec![],
        vec![0.9],
        vec![0.3, 0.95],
        vec![0.5, f64::NAN, 0.5],
    ]
    .iter()
    .map(|row: &Vec<f64>| row.iter().map(|value| scalar(*value)).collect())
    .collect();
    let pair = |older: usize, newer: usize, similarity: f64| LoopCandidatePair {
        older,
        newer,
        similarity: scalar(similarity),
    };
    assert_eq!(
        detect_loop_candidates(&rows, 2, scalar(0.4), 2),
        vec![pair(0, 2, 0.9), pair(1, 3, 0.95), pair(0, 4, 0.5), pair(2, 4, 0.5)]
    );
    assert_eq!(detect_loop_candidates(&rows, 2, scalar(0.4), 1).len(), 3);
    assert!(detect_loop_candidates(&rows, 0, scalar(0.4), 1).is_empty());
    assert!(detect_loop_candidates(&rows, 2, scalar(0.4), 0).is_empty());
}

#[test]
fn verification_spends_its_cap_on_similar_pairs() {
    let pair = |older: usize, similarity: f64| LoopCandidatePair {
        older,
        newer: older + 5,
        similarity: scalar(similarity),
    };
    let list = vec![pair(0, 0.2), pair(1, 0.8), pair(2, 0.5), pair(3, 0.8)];
    let ordered = verification_order(&list, None);
    let ids: Vec<usize> = ordered.iter().map(|candidate| candidate.older).collect();
    assert_eq!(ids, vec![1, 3, 2, 0]);
    assert_eq!(verification_order(&list, Some(2)), ordered[..2].to_vec());
    let far = [scalar(6.0), scalar(4.0), scalar(5.0), scalar(f64::NAN)];
    let kept = keep_travelled(list.clone(), &far, Some(scalar(5.0)));
    assert_eq!(kept, vec![pair(0, 0.2), pair(2, 0.5)]);
    assert_eq!(keep_travelled(list.clone(), &far, Some(scalar(0.0))), list);
    assert_eq!(keep_travelled(list.clone(), &[], None), list);
}

#[test]
fn pools_are_strided_and_capped() {
    assert_eq!(
        pooled_descriptors(&[3, 0, 4], 2),
        vec![(0, 0), (0, 2), (2, 0), (2, 2)]
    );
    assert_eq!(pooled_descriptors(&[2], 0), vec![(0, 0), (0, 1)]);
    assert_eq!(pool_cap(10, Some(4)), Some(4));
    assert_eq!(pool_cap(4, Some(4)), None);
    assert_eq!(pool_cap(4, Some(0)), None);
    assert_eq!(pool_cap(4, None), None);
    assert_eq!(spread_sample(3, 10, 4), 7);
}

#[test]
fn matches_are_lifted_by_the_last_stereo_feature() {
    let link = |query_index: usize, train_index: usize| DescriptorMatch {
        query_index,
        train_index,
        confidence: scalar(0.5),
    };
    let found = loop_correspondences(&[4, 7, 4], &[link(0, 4), link(1, 9), link(6, 7)], 3);
    assert_eq!(
        found,
        Some(vec![LoopCorrespondence {
            keypoint_index: 0,
            stereo_index: 2,
            confidence: scalar(0.5),
        }])
    );
    assert_eq!(loop_correspondences(&[], &[link(0, 4)], 3), None);
}

#[test]
fn closed_loops_span_the_minimum_gap() {
    let landmarks: Vec<(usize, Vector3<f64>)> = (0..60)
        .map(|k| {
            let offset = Vector3::new((k % 9) as f64 - 4.0, (k % 4) as f64 - 1.5, 9.0);
            (k, offset + Vector3::new(0.0, 0.0, (k % 5) as f64))
        })
        .collect();
    // Out and back again along x.
    let shifts = [0.0, 0.5, 1.0, 1.5, 1.0, 0.5, 0.0];
    let mut poses = Vec::new();
    let mut features = Vec::new();
    let mut stereo = Vec::new();
    for shift in shifts {
        let pose = pose_at(Vector3::new(shift, 0.0, 0.0), 0.0);
        let (seen, depth) = observe(&pose, &landmarks, 16);
        poses.push(pose);
        features.push(seen);
        stereo.push(depth);
    }
    let config = VoLoopClosureConfig {
        min_frame_gap: 4,
        min_similarity: scalar(0.1),
        min_path_length: Some(scalar(1.9)),
        max_verifications: Some(2),
        vocab_k: 8,
        vocab_descriptor_stride: 1,
        vocab_max_pool: Some(50),
        ..VoLoopClosureConfig::default()
    };
    let result = close_loops(&poses, &features, &stereo, &config).unwrap();
    assert!(result.verified_count() >= 1);
    assert!(result.verified_count() <= 2);
    assert!(result.verified_count() <= result.candidate_count);
    for constraint in &result.loop_constraints {
        assert!(constraint.from_keyframe_id + 4 <= constraint.to_keyframe_id);
        assert!(constraint.to_keyframe_id < 7);
    }
    assert_eq!(result.refined_poses.len(), 7);
    let report = result.gnc.unwrap();
    assert!(report.final_cost <= report.initial_cost);
}
