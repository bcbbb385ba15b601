use nalgebra::{UnitQuaternion, Vector3};
use visloc_slam::geometry::{Point3, Pose, Quaternion, Sim3};
use visloc_slam::rig_submap_alignment::{
    estimate_fixed_rotation_unit_scale, estimate_rig_submap_camera_centre_constraint,
    estimate_rig_submap_sim3_constraint, rotation_consensus, sample_boundary_frame_ids,
    RigFrame, RigNumerics, RigSubmapAlignmentConfig, RigSubmapBoundarySampling,
    RigSubmapAlignmentMethod, RigSubmapAlignmentRejection, RigSubmapAlignmentRejectionReason,
    RigSubmapAlignmentResult, RigSubmapInputSide, RotationGeometry,
};
use visloc_slam::scalar::Scalar;
use visloc_slam::statistics::{leave_one_out_log_scale_mad, median_pairwise_distance};
use visloc_slam::submap_alignment::{
    AlignmentKind, AlignmentNumerics, AlignmentTask, FitQuality, SceneGeometry, Sim3Fit,
    SubmapPointMatch, SubmapSim3AlignmentConfig, SubmapSim3Constraint, SubmapSim3Rejection,
    SubmapSim3RejectionReason,
};

fn scalar(value: f64) -> Scalar {
    Scalar::from_bits(value.to_bits())
}

fn float(value: Scalar) -> f64 {
    f64::from_bits(value.to_bits())
}

fn point(value: &nalgebra::Vector3<f64>) -> Point3 {
    Point3 { x: scalar(value.x), y: scalar(value.y), z: scalar(value.z) }
}

fn vector(value: &Point3) -> nalgebra::Vector3<f64> {
    nalgebra::Vector3::new(float(value.x), float(value.y), float(value.z))
}

fn quaternion(value: &nalgebra::UnitQuaternion<f64>) -> Quaternion {
    Quaternion {
        w: scalar(value.w),
        x: scalar(value.i),
        y: scalar(value.j),
        z: scalar(value.k),
    }
}

fn rotation(value: &Quaternion) -> nalgebra::UnitQuaternion<f64> {
    nalgebra::UnitQuaternion::new_unchecked(nalgebra::Quaternion::new(
        float(value.w),
        float(value.x),
        float(value.y),
        float(value.z),
    ))
}

#[derive(Clone, Copy)]
struct Similarity {
    rotation: nalgebra::UnitQuaternion<f64>,
    translation: nalgebra::Vector3<f64>,
    scale: f64,
}

impl Similarity {
    fn apply(&self, point: &nalgebra::Vector3<f64>) -> nalgebra::Vector3<f64> {
        self.scale * self.rotation.transform_vector(point) + self.translation
    }
}

/// Least-squares similarity between two point lists.
fn umeyama(
    source: &[nalgebra::Vector3<f64>],
    target: &[nalgebra::Vector3<f64>],
) -> Option<Similarity> {
    if source.len() != target.len() || source.len() < 3 {
        return None;
    }
    let n = source.len() as f64;
    let source_mean = source.iter().fold(nalgebra::Vector3::zeros(), |sum, p| sum + p) / n;
    let target_mean = target.iter().fold(nalgebra::Vector3::zeros(), |sum, p| sum + p) / n;
    let mut covariance = nalgebra::Matrix3::<f64>::zeros();
    let mut variance = 0.0;
    for (s, t) in source.iter().zip(target) {
        covariance += (t - target_mean) * (s - source_mean).transpose();
        variance += (s - source_mean).norm_squared();
    }
    covariance /= n;
    variance /= n;
    if !variance.is_finite() || variance <= 1.0e-12 {
        return None;
    }
    let svd = covariance.svd(true, true);
    let u = svd.u?;
    let v_t = svd.v_t?;
    let mut sign = nalgebra::Matrix3::<f64>::identity();
    if u.determinant() * v_t.determinant() < 0.0 {
        sign[(2, 2)] = -1.0;
    }
    let matrix = u * sign * v_t;
    let trace: f64 = (0..3).map(|i| svd.singular_values[i] * sign[(i, i)]).sum();
    let scale = trace / variance;
    let rotation = nalgebra::UnitQuaternion::from_rotation_matrix(
        &nalgebra::Rotation3::from_matrix_unchecked(matrix),
    );
    let translation = target_mean - scale * rotation.transform_vector(&source_mean);
    Some(Similarity { rotation, translation, scale })
}

fn sim3(value: &Similarity) -> Sim3 {
    Sim3 {
        rotation: quaternion(&value.rotation),
        translation: point(&value.translation),
        scale: scalar(value.scale),
    }
}

fn similarity(value: &Sim3) -> Similarity {
    Similarity {
        rotation: rotation(&value.rotation),
        translation: vector(&value.translation),
        scale: float(value.scale),
    }
}

fn midpoint(a: Scalar, b: Scalar) -> Scalar {
    scalar((float(a) + float(b)) * 0.5)
}

fn log_deviation(scale: Scalar, reference: Scalar) -> Scalar {
    scalar((float(scale) / float(reference)).ln().abs())
}

fn mean_of(values: &Vec<Scalar>) -> Scalar {
    scalar(values.iter().map(|value| float(*value)).sum::<f64>() / values.len() as f64)
}

fn ratio_of(part: usize, whole: usize) -> Scalar {
    scalar(part as f64 / whole as f64)
}

fn singular_ratio(points: &[nalgebra::Vector3<f64>]) -> f64 {
    if points.len() < 3 {
        return 0.0;
    }
    let centre =
        points.iter().fold(nalgebra::Vector3::zeros(), |sum, p| sum + p) / points.len() as f64;
    let scatter = points.iter().fold(nalgebra::Matrix3::zeros(), |sum, p| {
        let delta = p - centre;
        sum + delta * delta.transpose()
    });
    let mut singular = scatter.svd(false, false).singular_values.as_slice().to_vec();
    singular.sort_by(|left: &f64, right: &f64| right.total_cmp(left));
    if singular[0] <= f64::EPSILON {
        0.0
    } else {
        (singular[1] / singular[0]).sqrt()
    }
}

fn points_of(
    task: &AlignmentTask,
    indices: &[usize],
) -> (Vec<nalgebra::Vector3<f64>>, Vec<nalgebra::Vector3<f64>>) {
    (
        indices.iter().map(|i| vector(&task.matches[*i].source_point)).collect(),
        indices.iter().map(|i| vector(&task.matches[*i].target_point)).collect(),
    )
}

fn scene_geometry(task: &AlignmentTask) -> SceneGeometry {
    let all: Vec<usize> = (0..task.matches.len()).collect();
    let (source, target) = points_of(task, &all);
    let scale = median_pairwise_distance(
        target.len(),
        &|i: usize, j: usize| scalar((target[i] - target[j]).norm()),
        &midpoint,
    );
    let threshold = (float(scale) * float(task.config.max_inlier_residual_ratio)).max(1.0e-9);
    SceneGeometry {
        source_singular_ratio: scalar(singular_ratio(&source)),
        target_singular_ratio: scalar(singular_ratio(&target)),
        target_scene_scale: scale,
        inlier_threshold: scalar(threshold),
    }
}

fn fit_points(task: &AlignmentTask, indices: &[usize]) -> Option<Similarity> {
    let (source, target) = points_of(task, indices);
    let fixed = rotation(&task.rotation);
    let n = source.len() as f64;
    match task.kind {
        AlignmentKind::Generic => umeyama(&source, &target),
        AlignmentKind::FixedRotation => {
            if source.len() < 2 {
                return None;
            }
            let source_mean = source.iter().fold(nalgebra::Vector3::zeros(), |sum, p| sum + p) / n;
            let target_mean = target.iter().fold(nalgebra::Vector3::zeros(), |sum, p| sum + p) / n;
            let mut numerator = 0.0;
            let mut denominator = 0.0;
            for (s, t) in source.iter().zip(&target) {
                let turned = fixed * (s - source_mean);
                numerator += turned.dot(&(t - target_mean));
                denominator += turned.norm_squared();
            }
            if !numerator.is_finite() || !denominator.is_finite() || denominator <= 1.0e-12 {
                return None;
            }
            let scale = numerator / denominator;
            let translation = target_mean - scale * (fixed * source_mean);
            (scale.is_finite() && translation.iter().all(|v| v.is_finite()))
                .then_some(Similarity { rotation: fixed, translation, scale })
        }
        AlignmentKind::UnitScale => {
            let translation = source
                .iter()
                .zip(&target)
                .fold(nalgebra::Vector3::zeros(), |sum, (s, t)| {
                    sum + t - fixed.transform_vector(s)
                })
                / source.len().max(1) as f64;
            translation
                .iter()
                .all(|v: &f64| v.is_finite())
                .then_some(Similarity { rotation: fixed, translation, scale: 1.0 })
        }
    }
}

fn fit_matches(task: &AlignmentTask, indices: &Vec<usize>) -> Option<Sim3Fit> {
    let fit = fit_points(task, indices)?;
    let residuals = task
        .matches
        .iter()
        .map(|m| scalar((fit.apply(&vector(&m.source_point)) - vector(&m.target_point)).norm()))
        .collect();
    Some(Sim3Fit { transform: sim3(&fit), residuals })
}

fn fit_quality(
    task: &AlignmentTask,
    fit: &Sim3Fit,
    indices: &Vec<usize>,
    scene_scale: Scalar,
) -> FitQuality {
    let sum: f64 = indices.iter().map(|i| float(fit.residuals[*i])).sum();
    let disagreement = similarity(&fit.transform)
        .rotation
        .rotation_to(&rotation(&task.rotation))
        .angle()
        .to_degrees();
    let spread = leave_one_out_log_scale_mad(
        indices.len(),
        fit.transform.scale,
        &|omitted: usize| {
            let kept: Vec<usize> = indices
                .iter()
                .enumerate()
                .filter_map(|(k, i)| (k != omitted).then_some(*i))
                .collect();
            fit_points(task, &kept).map(|found| scalar(found.scale))
        },
        &log_deviation,
        &midpoint,
    );
    FitQuality {
        mean_residual_ratio: scalar(sum / indices.len() as f64 / float(scene_scale)),
        rotation_disagreement_deg: scalar(disagreement),
        leave_one_out_log_scale_mad: spread,
    }
}

type RigFrames = Vec<RigFrame>;

fn new_similarity(
    rotation: UnitQuaternion<f64>,
    translation: Vector3<f64>,
    scale: f64,
) -> Similarity {
    Similarity { rotation, translation, scale }
}

fn sum_of(values: &Vec<Scalar>) -> Scalar {
    scalar(values.iter().map(|value| float(*value)).sum::<f64>())
}

fn to_degrees(angle: Scalar) -> Scalar {
    scalar(float(angle).to_degrees())
}

/// The rotation of each source frame into the target gauge, and the angles between them.
fn rotation_geometry(
    source: &Vec<RigFrame>,
    target: &Vec<RigFrame>,
    radius_deg: Scalar,
) -> RotationGeometry {
    let turns: Vec<UnitQuaternion<f64>> = source
        .iter()
        .zip(target)
        .map(|(one, other)| rotation(&other.pose.rotation).inverse() * rotation(&one.pose.rotation))
        .collect();
    let count = turns.len();
    let mut distances = vec![vec![scalar(0.0); count]; count];
    for i in 0..count {
        for j in (i + 1)..count {
            let distance = scalar(turns[i].rotation_to(&turns[j]).angle());
            distances[i][j] = distance;
            distances[j][i] = distance;
        }
    }
    RotationGeometry {
        rotations: turns.iter().map(quaternion).collect(),
        distances,
        radius: scalar(float(radius_deg).max(0.0).to_radians()),
    }
}

fn align_rig(
    source_id: u64,
    target_id: u64,
    source: &RigFrames,
    target: &RigFrames,
    config: &RigSubmapAlignmentConfig,
) -> Result<RigSubmapAlignmentResult, RigSubmapAlignmentRejection> {
    let numerics = RigNumerics {
        rotations: rotation_geometry,
        sum: sum_of,
        degrees: to_degrees,
        alignment: AlignmentNumerics {
            scene: scene_geometry,
            fit: fit_matches,
            mean: mean_of,
            fraction: ratio_of,
            quality: fit_quality,
        },
    };
    estimate_rig_submap_camera_centre_constraint(
        source_id,
        target_id,
        source,
        target,
        config,
        &numerics,
    )
}

fn align_unit_scale(
    source_id: u64,
    target_id: u64,
    matches: &Vec<SubmapPointMatch>,
    fixed: &UnitQuaternion<f64>,
    config: &SubmapSim3AlignmentConfig,
) -> Result<SubmapSim3Constraint, SubmapSim3Rejection> {
    let numerics = AlignmentNumerics {
        scene: scene_geometry,
        fit: fit_matches,
        mean: mean_of,
        fraction: ratio_of,
        quality: fit_quality,
    };
    estimate_fixed_rotation_unit_scale(
        source_id,
        target_id,
        matches,
        &quaternion(fixed),
        config,
        &numerics,
    )
}

fn angle_off(result: &RigSubmapAlignmentResult, truth: &Similarity) -> f64 {
    rotation(&result.constraint.target_from_source.rotation)
        .rotation_to(&truth.rotation)
        .angle()
}

fn frame_at(frame_id: u64, attitude: UnitQuaternion<f64>, center: Vector3<f64>) -> RigFrame {
    let translation = -attitude.transform_vector(&center);
    // The centre is read back from the pose, as it is for measured frames.
    let recovered = -attitude.inverse().transform_vector(&translation);
    RigFrame {
        frame_id,
        pose: Pose { rotation: quaternion(&attitude), translation: point(&translation) },
        camera_center: point(&recovered),
    }
}

fn fixture(count: usize) -> (RigFrames, RigFrames, Similarity) {
    let truth = new_similarity(
        UnitQuaternion::from_euler_angles(0.09, -0.13, 0.2),
        Vector3::new(1.3, -0.7, 0.5),
        2.4,
    );
    let mut source = Vec::with_capacity(count);
    let mut target = Vec::with_capacity(count);
    for index in 0..count {
        let frame_id = index as u64;
        let centre = Vector3::new(
            index as f64 * 0.17,
            (index as f64 * 0.31).sin() * 0.7,
            (index as f64 * 0.21).cos() * 0.5,
        );
        let source_rotation = UnitQuaternion::from_euler_angles(
            index as f64 * 0.01,
            index as f64 * -0.007,
            index as f64 * 0.013,
        );
        let target_center = truth.apply(&centre);
        let target_rotation = source_rotation * truth.rotation.inverse();
        source.push(frame_at(frame_id, source_rotation, centre));
        target.push(frame_at(frame_id, target_rotation, target_center));
    }
    // Deliberately scramble input order: the adapter's result must still
    // use the ascending frame-id seam boundary.
    source.reverse();
    target.rotate_left((count / 3).min(count));
    (source, target, truth)
}

fn unit_scale_fixture(count: usize) -> (RigFrames, RigFrames, Similarity) {
    let truth = new_similarity(
        UnitQuaternion::from_euler_angles(0.09, -0.13, 0.2),
        Vector3::new(1.3, -0.7, 0.5),
        1.0,
    );
    let mut source = Vec::with_capacity(count);
    let mut target = Vec::with_capacity(count);
    for index in 0..count {
        let frame_id = index as u64;
        let centre = Vector3::new(
            index as f64 * 0.17,
            (index as f64 * 0.31).sin() * 0.7,
            (index as f64 * 0.21).cos() * 0.5,
        );
        let source_rotation = UnitQuaternion::from_euler_angles(
            index as f64 * 0.01,
            index as f64 * -0.007,
            index as f64 * 0.013,
        );
        let target_center = truth.apply(&centre);
        let target_rotation = source_rotation * truth.rotation.inverse();
        source.push(frame_at(frame_id, source_rotation, centre));
        target.push(frame_at(frame_id, target_rotation, target_center));
    }
    source.reverse();
    target.rotate_left((count / 3).min(count));
    (source, target, truth)
}

fn permissive_config() -> RigSubmapAlignmentConfig {
    RigSubmapAlignmentConfig {
        alignment: SubmapSim3AlignmentConfig {
            min_correspondences: 3,
            min_inliers: 3,
            min_inlier_ratio: scalar(0.5),
            max_inlier_residual_ratio: scalar(0.1),
            max_mean_residual_ratio: scalar(0.1),
            max_rotation_disagreement_deg: scalar(10.0),
            max_leave_one_out_log_scale_mad: scalar(0.1),
            min_second_to_first_singular_ratio: scalar(0.0),
            ransac_iterations: 512,
            ..SubmapSim3AlignmentConfig::default()
        },
        ..RigSubmapAlignmentConfig::default()
    }
}

fn collinear_fixture(count: usize) -> (RigFrames, RigFrames, Similarity) {
    let truth = new_similarity(
        UnitQuaternion::from_euler_angles(0.11, -0.17, 0.23),
        Vector3::new(1.1, -0.6, 0.4),
        2.4,
    );
    let mut source = Vec::with_capacity(count);
    let mut target = Vec::with_capacity(count);
    for index in 0..count {
        let frame_id = index as u64;
        let centre = Vector3::new(index as f64 * 0.4, 0.0, 0.0);
        let source_rotation = UnitQuaternion::from_euler_angles(
            index as f64 * 0.013,
            index as f64 * -0.009,
            index as f64 * 0.007,
        );
        let target_center = truth.apply(&centre);
        let target_rotation = source_rotation * truth.rotation.inverse();
        source.push(frame_at(frame_id, source_rotation, centre));
        target.push(frame_at(frame_id, target_rotation, target_center));
    }
    (source, target, truth)
}

fn fixed_rotation_mismatch_fixture(
    count: usize,
    rotation_offset_deg: f64,
) -> (RigFrames, RigFrames, Similarity) {
    let (source, mut target, truth) = fixture(count);
    let offset =
        UnitQuaternion::from_axis_angle(&Vector3::z_axis(), rotation_offset_deg.to_radians());
    let consensus_rotation = truth.rotation * offset;
    for frame in &mut target {
        let target_center = vector(&frame.camera_center);
        let source_rotation = rotation(
            &source
                .iter()
                .find(|other| other.frame_id == frame.frame_id)
                .expect("fixture source frame id")
                .pose
                .rotation,
        );
        let target_rotation = source_rotation * consensus_rotation.inverse();
        *frame = frame_at(frame.frame_id, target_rotation, target_center);
    }
    (source, target, truth)
}

fn fallback_test_config() -> RigSubmapAlignmentConfig {
    let mut config = permissive_config();
    config.alignment.min_correspondences = 8;
    config.alignment.min_inliers = 8;
    config.alignment.min_second_to_first_singular_ratio = scalar(0.01);
    config.allow_fixed_rotation_fallback = false;
    config
}

#[test]
fn known_sim3_is_recovered_from_rig_camera_centres() {
    let (source, target, truth) = fixture(24);
    let result =
        align_rig(11, 17, &source, &target, &permissive_config())
            .expect("known Sim3 should pass");
    assert_eq!(result.constraint.source_submap_id, 11);
    assert_eq!(result.constraint.target_submap_id, 17);
    assert_eq!(
        result.diagnostics.alignment_method,
        Some(RigSubmapAlignmentMethod::Generic)
    );
    assert!((float(result.constraint.target_from_source.scale) - truth.scale).abs() < 1.0e-9);
    assert!(
        (vector(&result.constraint.target_from_source.translation) - truth.translation).norm() < 1.0e-9
    );
    assert!(
        angle_off(&result, &truth)
            < 1.0e-9
    );
    assert_eq!(
        result.diagnostics.retained_frame_ids,
        (0..24).collect::<Vec<_>>()
    );
}

#[test]
fn centre_and_rotation_outliers_are_rejected_by_the_two_consensus_stages() {
    let (source, mut target, truth) = fixture(30);
    for index in [2_usize, 5, 8] {
        target[index] = frame_at(
            target[index].frame_id,
            UnitQuaternion::from_euler_angles(1.2, -0.4, 0.7),
            Vector3::new(40.0 + index as f64, -30.0, 20.0),
        );
    }
    let result =
        align_rig(0, 1, &source, &target, &permissive_config())
            .expect("minority outliers should be robustly rejected");
    assert!(float(result.diagnostics.rotation_consensus_ratio) > 0.8);
    assert!(float(result.constraint.inlier_ratio) > 0.8);
    assert!((float(result.constraint.target_from_source.scale) - truth.scale).abs() < 1.0e-6);
    assert!(
        (vector(&result.constraint.target_from_source.translation) - truth.translation).norm() < 1.0e-6
    );
}

#[test]
fn duplicate_ids_are_rejected_before_intersection() {
    let (mut source, target, _) = fixture(12);
    source.push(
        source
            .iter()
            .find(|frame| frame.frame_id == 0)
            .unwrap()
            .clone(),
    );
    let error =
        align_rig(0, 1, &source, &target, &permissive_config())
            .unwrap_err();
    assert_eq!(
        error.reason,
        RigSubmapAlignmentRejectionReason::DuplicateFrameId
    );
    assert_eq!(error.offending_side, Some(RigSubmapInputSide::Source));
    assert_eq!(error.offending_frame_id, Some(0));
}

#[test]
fn earliest_boundary_cap_is_sorted_and_deterministic() {
    let (source, target, _) = fixture(20);
    let mut config = permissive_config();
    config.max_boundary_frames = 5;
    assert_eq!(
        config.boundary_sampling,
        RigSubmapBoundarySampling::Earliest
    );
    let first = align_rig(0, 1, &source, &target, &config)
        .expect("five-frame seam should pass");
    let second = align_rig(0, 1, &source, &target, &config)
        .expect("same input should be deterministic");
    assert_eq!(first, second);
    assert_eq!(first.diagnostics.retained_frame_ids, vec![0, 1, 2, 3, 4]);
}

#[test]
fn uniform_boundary_cap_is_endpoint_inclusive_and_deterministic() {
    let (source, target, _) = fixture(20);
    let mut config = permissive_config();
    config.max_boundary_frames = 5;
    config.boundary_sampling = RigSubmapBoundarySampling::UniformAcrossOverlap;
    let first = align_rig(0, 1, &source, &target, &config)
        .expect("uniform five-frame seam should pass");
    let second = align_rig(0, 1, &source, &target, &config)
        .expect("same uniform input should be deterministic");
    assert_eq!(first, second);
    assert_eq!(first.diagnostics.retained_frame_ids, vec![0, 4, 9, 14, 19]);
}

#[test]
fn uniform_boundary_sampling_has_no_duplicates_on_sparse_ids() {
    let common = vec![10, 20, 30, 100, 200, 500, 900];
    assert_eq!(
        sample_boundary_frame_ids(&common, 4, RigSubmapBoundarySampling::UniformAcrossOverlap,),
        vec![10, 30, 200, 900]
    );
    assert_eq!(
        sample_boundary_frame_ids(&common, 1, RigSubmapBoundarySampling::UniformAcrossOverlap,),
        vec![10]
    );
    assert_eq!(
        sample_boundary_frame_ids(&common, 32, RigSubmapBoundarySampling::UniformAcrossOverlap,),
        common
    );
}

#[test]
fn low_rotation_consensus_is_typed() {
    let (source, mut target, _) = fixture(12);
    for (index, frame) in target.iter_mut().enumerate() {
        let centre = vector(&frame.camera_center);
        let attitude = UnitQuaternion::from_euler_angles(0.0, 0.0, (index as f64 + 1.0) * 0.4);
        *frame = frame_at(frame.frame_id, attitude, centre);
    }
    let mut config = permissive_config();
    config.min_rotation_consensus_ratio = scalar(0.9);
    let error =
        align_rig(0, 1, &source, &target, &config).unwrap_err();
    assert_eq!(
        error.reason,
        RigSubmapAlignmentRejectionReason::LowRotationConsensus
    );
}

#[test]
fn invalid_boundary_and_rotation_configurations_fail_closed_at_entry() {
    let (source, target, _) = fixture(3);
    let mut invalid_configs = Vec::new();

    let mut config = permissive_config();
    config.max_boundary_frames = 0;
    invalid_configs.push(config);
    let mut config = permissive_config();
    config.rotation_consensus_deg = scalar(0.0);
    invalid_configs.push(config);
    let mut config = permissive_config();
    config.rotation_consensus_deg = scalar(180.1);
    invalid_configs.push(config);
    let mut config = permissive_config();
    config.rotation_consensus_deg = scalar(f64::NAN);
    invalid_configs.push(config);
    let mut config = permissive_config();
    config.min_rotation_consensus_ratio = scalar(0.0);
    invalid_configs.push(config);
    let mut config = permissive_config();
    config.min_rotation_consensus_ratio = scalar(1.1);
    invalid_configs.push(config);
    let mut config = permissive_config();
    config.min_rotation_consensus_ratio = scalar(f64::NAN);
    invalid_configs.push(config);

    for config in invalid_configs {
        let error = align_rig(0, 1, &source, &target, &config)
            .expect_err("invalid configuration must reject before alignment");
        assert_eq!(
            error.reason,
            RigSubmapAlignmentRejectionReason::InvalidConfiguration
        );
        assert!(error.message("0").contains("invalid"));
    }
}

#[test]
fn fixed_rotation_fallback_is_opt_in_for_collinear_centres() {
    let (source, target, truth) = collinear_fixture(24);
    let config = fallback_test_config();
    let error =
        align_rig(0, 1, &source, &target, &config).unwrap_err();
    assert_eq!(
        error.reason,
        RigSubmapAlignmentRejectionReason::Sim3Rejected
    );
    assert!(!error.diagnostics.fallback_attempted);
    assert_eq!(
        error.diagnostics.alignment_method,
        Some(RigSubmapAlignmentMethod::Generic)
    );
    assert!(!RigSubmapAlignmentConfig::default().allow_fixed_rotation_fallback);
    assert!(!RigSubmapAlignmentConfig::default().prefer_fixed_rotation_alignment);
    assert!(!RigSubmapAlignmentConfig::default().allow_generic_fallback_after_fixed_rotation);
    assert!(!RigSubmapAlignmentConfig::default().force_fixed_rotation_unit_scale);
    assert_eq!(
        error
            .sim3_rejection
            .as_ref()
            .expect("generic rejection is retained")
            .reason,
        SubmapSim3RejectionReason::DegenerateSourceGeometry
    );

    let mut opted_in = config;
    opted_in.allow_fixed_rotation_fallback = true;
    let result = align_rig(0, 1, &source, &target, &opted_in)
        .expect("fixed orientation recovers the collinear gauge");
    assert!(result.diagnostics.fallback_attempted);
    assert!(result.diagnostics.fallback_used);
    assert_eq!(
        result.diagnostics.alignment_method,
        Some(RigSubmapAlignmentMethod::FixedRotationFallback)
    );
    assert!(result.diagnostics.generic_sim3_rejection.is_some());
    assert!((float(result.constraint.target_from_source.scale) - truth.scale).abs() < 1.0e-9);
    assert!(
        (vector(&result.constraint.target_from_source.translation) - truth.translation).norm() < 1.0e-9
    );
    assert!(
        angle_off(&result, &truth)
            < 1.0e-9
    );
}

#[test]
fn fixed_rotation_fallback_rejects_centre_outliers_robustly() {
    let (source, mut target, truth) = collinear_fixture(32);
    for index in [3_usize, 11, 27] {
        let attitude = rotation(&target[index].pose.rotation);
        target[index] =
            frame_at(target[index].frame_id, attitude, Vector3::new(90.0 + index as f64, -70.0, 40.0));
    }
    let mut config = fallback_test_config();
    config.allow_fixed_rotation_fallback = true;
    let result = align_rig(0, 1, &source, &target, &config)
        .expect("a minority of centre outliers should be rejected");
    assert!(result.diagnostics.fallback_used);
    assert!(float(result.constraint.inlier_ratio) > 0.8);
    assert!((float(result.constraint.target_from_source.scale) - truth.scale).abs() < 1.0e-6);
    assert!(
        (vector(&result.constraint.target_from_source.translation) - truth.translation).norm() < 1.0e-6
    );
    assert!(!result.constraint.inlier_match_indices.contains(&3));
    assert!(!result.constraint.inlier_match_indices.contains(&11));
    assert!(!result.constraint.inlier_match_indices.contains(&27));
}

#[test]
fn fixed_rotation_unit_scale_recovers_known_gauge_with_outliers() {
    let (source, mut target, truth) = unit_scale_fixture(32);
    let outlier_frame_ids = [target[3].frame_id, target[11].frame_id, target[27].frame_id];
    for index in [3_usize, 11, 27] {
        let attitude = rotation(&target[index].pose.rotation);
        target[index] =
            frame_at(target[index].frame_id, attitude, Vector3::new(90.0 + index as f64, -70.0, 40.0));
    }
    let mut config = permissive_config();
    config.prefer_fixed_rotation_alignment = true;
    config.force_fixed_rotation_unit_scale = true;
    let first = align_rig(0, 1, &source, &target, &config)
        .expect("unit-scale fixed rotation should reject a minority of outliers");
    let second = align_rig(0, 1, &source, &target, &config)
        .expect("unit-scale fixed rotation should be deterministic");
    assert_eq!(first, second);
    assert_eq!(
        first.diagnostics.alignment_method,
        Some(RigSubmapAlignmentMethod::FixedRotationPrimary)
    );
    assert!(!first.diagnostics.fallback_attempted);
    assert!(!first.diagnostics.fallback_used);
    assert!(float(first.constraint.inlier_ratio) > 0.8);
    assert_eq!(float(first.constraint.target_from_source.scale), 1.0);
    assert!(
        (vector(&first.constraint.target_from_source.translation) - truth.translation).norm() < 1.0e-9
    );
    assert_eq!(float(first.constraint.leave_one_out_log_scale_mad), 0.0);
    for frame_id in outlier_frame_ids {
        let retained_index = first
            .diagnostics
            .retained_frame_ids
            .iter()
            .position(|retained_id| *retained_id == frame_id)
            .expect("outlier frame is retained");
        assert!(!first
            .constraint
            .inlier_match_indices
            .contains(&retained_index));
    }
}

#[test]
fn fixed_rotation_unit_scale_rejects_malformed_degenerate_and_invalid_scale() {
    let rotation = UnitQuaternion::identity();
    let mut config = permissive_config().alignment;
    let malformed = vec![
        SubmapPointMatch {
            source_landmark_id: 0,
            target_landmark_id: 0,
            source_point: point(&Vector3::new(f64::NAN, 0.0, 0.0)),
            target_point: point(&Vector3::zeros()),
        },
        SubmapPointMatch {
            source_landmark_id: 1,
            target_landmark_id: 1,
            source_point: point(&Vector3::new(1.0, 0.0, 0.0)),
            target_point: point(&Vector3::new(1.0, 0.0, 0.0)),
        },
        SubmapPointMatch {
            source_landmark_id: 2,
            target_landmark_id: 2,
            source_point: point(&Vector3::new(2.0, 0.0, 0.0)),
            target_point: point(&Vector3::new(2.0, 0.0, 0.0)),
        },
    ];
    let error = align_unit_scale(0, 1, &malformed, &rotation, &config)
        .expect_err("non-finite points must fail closed");
    assert_eq!(error.reason, SubmapSim3RejectionReason::NonFinitePoint);

    let degenerate = malformed
        .into_iter()
        .enumerate()
        .map(|(index, mut point_match)| {
            point_match.source_point = point(&Vector3::new(index as f64, 0.0, 0.0));
            point_match.target_point = point(&Vector3::zeros());
            point_match
        })
        .collect::<Vec<_>>();
    let error = align_unit_scale(0, 1, &degenerate, &rotation, &config)
        .expect_err("zero target scene scale must fail closed");
    assert_eq!(
        error.reason,
        SubmapSim3RejectionReason::InvalidTargetSceneScale
    );

    config.min_scale = scalar(1.01);
    let (source, target, _) = unit_scale_fixture(12);
    let matches = source
        .iter()
        .zip(target.iter())
        .map(|(one, other)| SubmapPointMatch {
            source_landmark_id: one.frame_id,
            target_landmark_id: one.frame_id,
            source_point: one.camera_center,
            target_point: other.camera_center,
        })
        .collect::<Vec<_>>();
    let error = align_unit_scale(0, 1, &matches, &rotation, &config)
        .expect_err("unit scale outside configured bounds must reject");
    assert_eq!(error.reason, SubmapSim3RejectionReason::ScaleOutOfBounds);
}

#[test]
fn fixed_rotation_unit_scale_switch_is_default_off_and_preserves_default_path() {
    let (source, target, _) = collinear_fixture(24);
    let mut config = fallback_test_config();
    config.allow_fixed_rotation_fallback = true;
    let baseline = align_rig(0, 1, &source, &target, &config)
        .expect("legacy fixed fallback should pass");
    let mut explicit_default = config.clone();
    explicit_default.force_fixed_rotation_unit_scale = false;
    let explicit =
        align_rig(0, 1, &source, &target, &explicit_default)
            .expect("explicit false must retain legacy path");
    assert_eq!(baseline, explicit);
    assert!(!RigSubmapAlignmentConfig::default().force_fixed_rotation_unit_scale);
}

#[test]
fn fixed_rotation_fallback_rejects_invalid_scale_and_unstable_loo() {
    let (source, target, _) = collinear_fixture(24);
    let mut invalid_scale = fallback_test_config();
    invalid_scale.allow_fixed_rotation_fallback = true;
    invalid_scale.alignment.min_scale = scalar(10.0);
    let error = align_rig(0, 1, &source, &target, &invalid_scale)
        .unwrap_err();
    assert!(error.diagnostics.fallback_attempted);
    assert_eq!(
        error
            .diagnostics
            .fallback_rejection
            .as_ref()
            .expect("fallback rejection is retained")
            .reason,
        SubmapSim3RejectionReason::NoRobustFit
    );

    let mut unstable_loo = fallback_test_config();
    unstable_loo.allow_fixed_rotation_fallback = true;
    unstable_loo.alignment.max_leave_one_out_log_scale_mad = scalar(-1.0);
    let error =
        align_rig(0, 1, &source, &target, &unstable_loo).unwrap_err();
    assert_eq!(
        error
            .diagnostics
            .fallback_rejection
            .as_ref()
            .expect("fallback rejection is retained")
            .reason,
        SubmapSim3RejectionReason::UnstableLeaveOneOutScale
    );
    assert!(error
        .diagnostics
        .fallback_rejection
        .as_ref()
        .and_then(|rejection| rejection.leave_one_out_log_scale_mad)
        .is_some());
}

#[test]
fn fixed_rotation_fallback_is_deterministic() {
    let (source, target, _) = collinear_fixture(24);
    let mut config = fallback_test_config();
    config.allow_fixed_rotation_fallback = true;
    config.alignment.random_seed = 73;
    let first = align_rig(0, 1, &source, &target, &config)
        .expect("first deterministic run");
    let second = align_rig(0, 1, &source, &target, &config)
        .expect("second deterministic run");
    assert_eq!(first, second);
}

#[test]
fn malformed_input_never_attempts_fixed_rotation_fallback() {
    let (mut source, target, _) = collinear_fixture(24);
    source[4] = frame_at(
        source[4].frame_id,
        UnitQuaternion::identity(),
        Vector3::new(f64::NAN, 0.0, 0.0),
    );
    let mut config = fallback_test_config();
    config.allow_fixed_rotation_fallback = true;
    let error =
        align_rig(0, 1, &source, &target, &config).unwrap_err();
    assert_eq!(
        error.reason,
        RigSubmapAlignmentRejectionReason::NonFinitePose
    );
    assert!(!error.diagnostics.fallback_attempted);
    assert!(error.sim3_rejection.is_none());
    assert!(error.fallback_rejection.is_none());
}

#[test]
fn fixed_rotation_primary_is_deterministic_and_skips_generic_estimator() {
    let (source, target, truth) = collinear_fixture(24);
    let mut config = fallback_test_config();
    config.prefer_fixed_rotation_alignment = true;
    let first = align_rig(0, 1, &source, &target, &config)
        .expect("fixed-primary should recover the collinear gauge");
    let second = align_rig(0, 1, &source, &target, &config)
        .expect("fixed-primary should be deterministic");
    assert_eq!(first, second);
    assert_eq!(
        first.diagnostics.alignment_method,
        Some(RigSubmapAlignmentMethod::FixedRotationPrimary)
    );
    assert!(!first.diagnostics.fallback_attempted);
    assert!(!first.diagnostics.fallback_used);
    assert!(first.diagnostics.generic_sim3_rejection.is_none());
    assert!((float(first.constraint.target_from_source.scale) - truth.scale).abs() < 1.0e-9);

    let mut rejecting = config;
    rejecting.alignment.min_scale = scalar(10.0);
    let error =
        align_rig(0, 1, &source, &target, &rejecting).unwrap_err();
    assert_eq!(
        error.diagnostics.alignment_method,
        Some(RigSubmapAlignmentMethod::FixedRotationPrimary)
    );
    assert!(!error.diagnostics.fallback_attempted);
    assert!(error.sim3_rejection.is_some());
    assert!(error.diagnostics.fixed_rotation_rejection.is_some());
    assert_eq!(
        error.sim3_rejection.as_ref().unwrap().reason,
        SubmapSim3RejectionReason::NoRobustFit
    );
}

#[test]
fn alignment_method_names_are_stable() {
    assert_eq!(RigSubmapAlignmentMethod::Generic.as_str(), "generic");
    assert_eq!(
        RigSubmapAlignmentMethod::FixedRotationPrimary.as_str(),
        "fixed-primary"
    );
    assert_eq!(
        RigSubmapAlignmentMethod::FixedRotationFallback.as_str(),
        "fixed-fallback"
    );
    assert_eq!(
        RigSubmapAlignmentMethod::GenericFallback.as_str(),
        "generic-fallback"
    );
}

#[test]
fn generic_fallback_after_fixed_primary_is_opt_in_and_deterministic() {
    let (source, target, truth) = fixed_rotation_mismatch_fixture(24, 20.0);
    let mut config = fallback_test_config();
    config.prefer_fixed_rotation_alignment = true;
    config.alignment.max_rotation_disagreement_deg = scalar(60.0);

    let fixed_only = align_rig(0, 1, &source, &target, &config)
        .expect_err("fixed-primary should reject the mismatched rig rotation");
    assert_eq!(
        fixed_only.diagnostics.alignment_method,
        Some(RigSubmapAlignmentMethod::FixedRotationPrimary)
    );
    assert!(!fixed_only.diagnostics.fallback_attempted);
    assert!(fixed_only.diagnostics.fixed_rotation_rejection.is_some());
    assert!(fixed_only.diagnostics.generic_fallback_rejection.is_none());

    config.allow_generic_fallback_after_fixed_rotation = true;
    let first = align_rig(0, 1, &source, &target, &config)
        .expect("generic fallback should recover the centre geometry");
    let second = align_rig(0, 1, &source, &target, &config)
        .expect("generic fallback should be deterministic");
    assert_eq!(first, second);
    assert_eq!(
        first.diagnostics.alignment_method,
        Some(RigSubmapAlignmentMethod::GenericFallback)
    );
    assert!(first.diagnostics.fallback_attempted);
    assert!(first.diagnostics.fallback_used);
    assert!(first.diagnostics.fixed_rotation_rejection.is_some());
    assert!(first.diagnostics.generic_fallback_rejection.is_none());
    assert!(
        angle_off(&first, &truth)
            < 1.0e-9
    );
    assert!((float(first.constraint.target_from_source.scale) - truth.scale).abs() < 1.0e-9);
}

#[test]
fn generic_fallback_after_fixed_primary_retains_both_rejections() {
    let (source, target, _) = fixed_rotation_mismatch_fixture(24, 20.0);
    let mut config = fallback_test_config();
    config.prefer_fixed_rotation_alignment = true;
    config.allow_generic_fallback_after_fixed_rotation = true;
    config.alignment.max_rotation_disagreement_deg = scalar(5.0);
    let error = align_rig(0, 1, &source, &target, &config)
        .expect_err("the strict generic fallback rotation gate should reject");
    assert_eq!(
        error.diagnostics.alignment_method,
        Some(RigSubmapAlignmentMethod::GenericFallback)
    );
    assert!(error.diagnostics.fallback_attempted);
    assert!(!error.diagnostics.fallback_used);
    assert!(error.diagnostics.fixed_rotation_rejection.is_some());
    assert!(error.diagnostics.generic_fallback_rejection.is_some());
    assert_eq!(
        error
            .sim3_rejection
            .as_ref()
            .expect("primary fixed rejection")
            .reason,
        error
            .diagnostics
            .fixed_rotation_rejection
            .as_ref()
            .expect("diagnostic fixed rejection")
            .reason
    );
    assert_eq!(
        error
            .fallback_rejection
            .as_ref()
            .expect("fallback generic rejection")
            .reason,
        error
            .diagnostics
            .generic_fallback_rejection
            .as_ref()
            .expect("diagnostic generic rejection")
            .reason
    );
}

#[test]
fn rejected_seams_describe_themselves() {
    let (source, target, _) = fixture(2);
    let error = align_rig(0, 1, &source, &target, &permissive_config()).unwrap_err();
    assert_eq!(
        error.reason,
        RigSubmapAlignmentRejectionReason::InsufficientCommonFrames
    );
    assert_eq!(error.message("0"), "rig-submap seam has 2 retained common frames");

    let (mut source, target, _) = fixture(12);
    source[2].camera_center.z = scalar(f64::INFINITY);
    let error = align_rig(0, 1, &source, &target, &permissive_config()).unwrap_err();
    assert_eq!(
        error.reason,
        RigSubmapAlignmentRejectionReason::NonFiniteCameraCenter
    );
    assert_eq!(error.offending_side, Some(RigSubmapInputSide::Source));
}

#[test]
fn both_entry_points_agree() {
    let (source, target, _) = fixture(24);
    let numerics = RigNumerics {
        rotations: rotation_geometry,
        sum: sum_of,
        degrees: to_degrees,
        alignment: AlignmentNumerics {
            scene: scene_geometry,
            fit: fit_matches,
            mean: mean_of,
            fraction: ratio_of,
            quality: fit_quality,
        },
    };
    let config = permissive_config();
    let direct =
        estimate_rig_submap_sim3_constraint(11, 17, &source, &target, &config, &numerics);
    assert_eq!(direct, align_rig(11, 17, &source, &target, &config));
}

#[test]
fn the_largest_cluster_gives_the_rotation() {
    // Rotations 0 and 2 agree, rotation 1 stands alone.
    let frames: Vec<RigFrame> = [0.0, 1.0, 0.01]
        .iter()
        .enumerate()
        .map(|(k, angle)| {
            frame_at(
                k as u64,
                UnitQuaternion::from_euler_angles(0.0, 0.0, *angle),
                Vector3::zeros(),
            )
        })
        .collect();
    let still: Vec<RigFrame> = (0..3)
        .map(|k| frame_at(k, UnitQuaternion::identity(), Vector3::zeros()))
        .collect();
    let numerics = RigNumerics {
        rotations: rotation_geometry,
        sum: sum_of,
        degrees: to_degrees,
        alignment: AlignmentNumerics {
            scene: scene_geometry,
            fit: fit_matches,
            mean: mean_of,
            fraction: ratio_of,
            quality: fit_quality,
        },
    };
    let geometry = rotation_geometry(&frames, &still, scalar(5.0));
    let ids = vec![0, 1, 2];
    let (consensus, _) = rotation_consensus(&ids, &geometry, &numerics);
    assert_eq!(consensus.indices, vec![0, 2]);
    assert_eq!(consensus.medoid_frame_id, 0);
    assert!((float(consensus.max_disagreement_deg) - 0.01_f64.to_degrees()).abs() < 1.0e-9);
}

#[test]
fn given_rotation_and_unit_scale_are_kept_exactly() {
    let (mut source, mut target, truth) = unit_scale_fixture(12);
    source.sort_by_key(|frame| frame.frame_id);
    target.sort_by_key(|frame| frame.frame_id);
    let matches: Vec<SubmapPointMatch> = source
        .iter()
        .zip(target.iter())
        .map(|(one, other)| SubmapPointMatch {
            source_landmark_id: one.frame_id,
            target_landmark_id: one.frame_id,
            source_point: one.camera_center,
            target_point: other.camera_center,
        })
        .collect();
    let config = permissive_config().alignment;
    // The fit reports another rotation and scale.
    let numerics = AlignmentNumerics {
        scene: scene_geometry,
        fit: |task: &AlignmentTask, indices: &Vec<usize>| {
            fit_matches(task, indices).map(|mut fit| {
                fit.transform.rotation = quaternion(&UnitQuaternion::identity());
                fit.transform.scale = scalar(3.0);
                fit
            })
        },
        mean: mean_of,
        fraction: ratio_of,
        quality: fit_quality,
    };
    let constraint = estimate_fixed_rotation_unit_scale(
        0,
        1,
        &matches,
        &quaternion(&truth.rotation),
        &config,
        &numerics,
    )
    .unwrap();
    assert_eq!(constraint.target_from_source.rotation, quaternion(&truth.rotation));
    assert_eq!(constraint.target_from_source.scale, scalar(1.0));
    assert_eq!(constraint.rotation_disagreement_deg, scalar(0.0));
    assert_eq!(constraint.leave_one_out_log_scale_mad, scalar(0.0));
    let shift = vector(&constraint.target_from_source.translation);
    assert!((shift - truth.translation).norm() < 1e-9);
}

#[test]
fn reordered_frames_align_alike() {
    let (source, target, _) = fixture(24);
    let mut config = permissive_config();
    config.max_boundary_frames = 12;
    let expected = align_rig(11, 17, &source, &target, &config).unwrap();
    let mut backwards = source.clone();
    backwards.reverse();
    let mut rotated = target.clone();
    rotated.rotate_left(7);
    assert_eq!(align_rig(11, 17, &backwards, &rotated, &config).unwrap(), expected);
}
