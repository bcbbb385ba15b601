use rand::rngs::StdRng;
use rand::{Rng, SeedableRng};
use visloc_slam::geometry::{Point3, Quaternion, Sim3};
use visloc_slam::sampling::{draw_pairs, draw_triples, sample_three, sample_two};
use visloc_slam::scalar::Scalar;
use visloc_slam::statistics::{leave_one_out_log_scale_mad, median, median_pairwise_distance};
use visloc_slam::submap_alignment::{
    estimate_submap_sim3_constraint, AlignmentKind, AlignmentNumerics, AlignmentTask, FitQuality,
    RotationConstraintGeometry, RotationOnlyConstraint, SceneGeometry, Sim3Fit, SubmapPointMatch,
    SubmapSim3AlignmentConfig, SubmapSim3Constraint, SubmapSim3Rejection,
    SubmapSim3RejectionReason, VerifiedSubmapConstraint,
};

fn scalar(value: f64) -> Scalar {
    Scalar::from_bits(value.to_bits())
}

fn float(value: Scalar) -> f64 {
    f64::from_bits(value.to_bits())
}

fn point(value: &nalgebra::Vector3<f64>) -> Point3 {
    Point3 { x: scalar(value.x), y: scalar(value.y), z: scalar(value.z) }
}

fn vector(value: &Point3) -> nalgebra::Vector3<f64> {
    nalgebra::Vector3::new(float(value.x), float(value.y), float(value.z))
}

fn quaternion(value: &nalgebra::UnitQuaternion<f64>) -> Quaternion {
    Quaternion {
        w: scalar(value.w),
        x: scalar(value.i),
        y: scalar(value.j),
        z: scalar(value.k),
    }
}

fn rotation(value: &Quaternion) -> nalgebra::UnitQuaternion<f64> {
    nalgebra::UnitQuaternion::new_unchecked(nalgebra::Quaternion::new(
        float(value.w),
        float(value.x),
        float(value.y),
        float(value.z),
    ))
}

#[derive(Clone, Copy)]
struct Similarity {
    rotation: nalgebra::UnitQuaternion<f64>,
    translation: nalgebra::Vector3<f64>,
    scale: f64,
}

impl Similarity {
    fn apply(&self, point: &nalgebra::Vector3<f64>) -> nalgebra::Vector3<f64> {
        self.scale * self.rotation.transform_vector(point) + self.translation
    }
}

/// Least-squares similarity between two point lists.
fn umeyama(
    source: &[nalgebra::Vector3<f64>],
    target: &[nalgebra::Vector3<f64>],
) -> Option<Similarity> {
    if source.len() != target.len() || source.len() < 3 {
        return None;
    }
    let n = source.len() as f64;
    let source_mean = source.iter().fold(nalgebra::Vector3::zeros(), |sum, p| sum + p) / n;
    let target_mean = target.iter().fold(nalgebra::Vector3::zeros(), |sum, p| sum + p) / n;
    let mut covariance = nalgebra::Matrix3::<f64>::zeros();
    let mut variance = 0.0;
    for (s, t) in source.iter().zip(target) {
        covariance += (t - target_mean) * (s - source_mean).transpose();
        variance += (s - source_mean).norm_squared();
    }
    covariance /= n;
    variance /= n;
    if !variance.is_finite() || variance <= 1.0e-12 {
        return None;
    }
    let svd = covariance.svd(true, true);
    let u = svd.u?;
    let v_t = svd.v_t?;
    let mut sign = nalgebra::Matrix3::<f64>::identity();
    if u.determinant() * v_t.determinant() < 0.0 {
        sign[(2, 2)] = -1.0;
    }
    let matrix = u * sign * v_t;
    let trace: f64 = (0..3).map(|i| svd.singular_values[i] * sign[(i, i)]).sum();
    let scale = trace / variance;
    let rotation = nalgebra::UnitQuaternion::from_rotation_matrix(
        &nalgebra::Rotation3::from_matrix_unchecked(matrix),
    );
    let translation = target_mean - scale * rotation.transform_vector(&source_mean);
    Some(Similarity { rotation, translation, scale })
}

fn sim3(value: &Similarity) -> Sim3 {
    Sim3 {
        rotation: quaternion(&value.rotation),
        translation: point(&value.translation),
        scale: scalar(value.scale),
    }
}

fn similarity(value: &Sim3) -> Similarity {
    Similarity {
        rotation: rotation(&value.rotation),
        translation: vector(&value.translation),
        scale: float(value.scale),
    }
}

fn midpoint(a: Scalar, b: Scalar) -> Scalar {
    scalar((float(a) + float(b)) * 0.5)
}

fn log_deviation(scale: Scalar, reference: Scalar) -> Scalar {
    scalar((float(scale) / float(reference)).ln().abs())
}

fn mean_of(values: &Vec<Scalar>) -> Scalar {
    scalar(values.iter().map(|value| float(*value)).sum::<f64>() / values.len() as f64)
}

fn ratio_of(part: usize, whole: usize) -> Scalar {
    scalar(part as f64 / whole as f64)
}

fn singular_ratio(points: &[nalgebra::Vector3<f64>]) -> f64 {
    if points.len() < 3 {
        return 0.0;
    }
    let centre =
        points.iter().fold(nalgebra::Vector3::zeros(), |sum, p| sum + p) / points.len() as f64;
    let scatter = points.iter().fold(nalgebra::Matrix3::zeros(), |sum, p| {
        let delta = p - centre;
        sum + delta * delta.transpose()
    });
    let mut singular = scatter.svd(false, false).singular_values.as_slice().to_vec();
    singular.sort_by(|left: &f64, right: &f64| right.total_cmp(left));
    if singular[0] <= f64::EPSILON {
        0.0
    } else {
        (singular[1] / singular[0]).sqrt()
    }
}

fn points_of(
    task: &AlignmentTask,
    indices: &[usize],
) -> (Vec<nalgebra::Vector3<f64>>, Vec<nalgebra::Vector3<f64>>) {
    (
        indices.iter().map(|i| vector(&task.matches[*i].source_point)).collect(),
        indices.iter().map(|i| vector(&task.matches[*i].target_point)).collect(),
    )
}

fn scene_geometry(task: &AlignmentTask) -> SceneGeometry {
    let all: Vec<usize> = (0..task.matches.len()).collect();
    let (source, target) = points_of(task, &all);
    let scale = median_pairwise_distance(
        target.len(),
        &|i: usize, j: usize| scalar((target[i] - target[j]).norm()),
        &midpoint,
    );
    let threshold = (float(scale) * float(task.config.max_inlier_residual_ratio)).max(1.0e-9);
    SceneGeometry {
        source_singular_ratio: scalar(singular_ratio(&source)),
        target_singular_ratio: scalar(singular_ratio(&target)),
        target_scene_scale: scale,
        inlier_threshold: scalar(threshold),
    }
}

fn fit_points(task: &AlignmentTask, indices: &[usize]) -> Option<Similarity> {
    let (source, target) = points_of(task, indices);
    let fixed = rotation(&task.rotation);
    let n = source.len() as f64;
    match task.kind {
        AlignmentKind::Generic => umeyama(&source, &target),
        AlignmentKind::FixedRotation => {
            if source.len() < 2 {
                return None;
            }
            let source_mean = source.iter().fold(nalgebra::Vector3::zeros(), |sum, p| sum + p) / n;
            let target_mean = target.iter().fold(nalgebra::Vector3::zeros(), |sum, p| sum + p) / n;
            let mut numerator = 0.0;
            let mut denominator = 0.0;
            for (s, t) in source.iter().zip(&target) {
                let turned = fixed * (s - source_mean);
                numerator += turned.dot(&(t - target_mean));
                denominator += turned.norm_squared();
            }
            if !numerator.is_finite() || !denominator.is_finite() || denominator <= 1.0e-12 {
                return None;
            }
            let scale = numerator / denominator;
            let translation = target_mean - scale * (fixed * source_mean);
            (scale.is_finite() && translation.iter().all(|v| v.is_finite()))
                .then_some(Similarity { rotation: fixed, translation, scale })
        }
        AlignmentKind::UnitScale => {
            let translation = source
                .iter()
                .zip(&target)
                .fold(nalgebra::Vector3::zeros(), |sum, (s, t)| {
                    sum + t - fixed.transform_vector(s)
                })
                / source.len().max(1) as f64;
            translation
                .iter()
                .all(|v: &f64| v.is_finite())
                .then_some(Similarity { rotation: fixed, translation, scale: 1.0 })
        }
    }
}

fn fit_matches(task: &AlignmentTask, indices: &Vec<usize>) -> Option<Sim3Fit> {
    let fit = fit_points(task, indices)?;
    let residuals = task
        .matches
        .iter()
        .map(|m| scalar((fit.apply(&vector(&m.source_point)) - vector(&m.target_point)).norm()))
        .collect();
    Some(Sim3Fit { transform: sim3(&fit), residuals })
}

fn fit_quality(
    task: &AlignmentTask,
    fit: &Sim3Fit,
    indices: &Vec<usize>,
    scene_scale: Scalar,
) -> FitQuality {
    let sum: f64 = indices.iter().map(|i| float(fit.residuals[*i])).sum();
    let disagreement = similarity(&fit.transform)
        .rotation
        .rotation_to(&rotation(&task.rotation))
        .angle()
        .to_degrees();
    let spread = leave_one_out_log_scale_mad(
        indices.len(),
        fit.transform.scale,
        &|omitted: usize| {
            let kept: Vec<usize> = indices
                .iter()
                .enumerate()
                .filter_map(|(k, i)| (k != omitted).then_some(*i))
                .collect();
            fit_points(task, &kept).map(|found| scalar(found.scale))
        },
        &log_deviation,
        &midpoint,
    );
    FitQuality {
        mean_residual_ratio: scalar(sum / indices.len() as f64 / float(scene_scale)),
        rotation_disagreement_deg: scalar(disagreement),
        leave_one_out_log_scale_mad: spread,
    }
}

fn align(
    source_id: u64,
    target_id: u64,
    matches: &Vec<SubmapPointMatch>,
    independent: &nalgebra::UnitQuaternion<f64>,
    config: &SubmapSim3AlignmentConfig,
) -> Result<SubmapSim3Constraint, SubmapSim3Rejection> {
    let numerics = AlignmentNumerics {
        scene: scene_geometry,
        fit: fit_matches,
        mean: mean_of,
        fraction: ratio_of,
        quality: fit_quality,
    };
    estimate_submap_sim3_constraint(
        source_id,
        target_id,
        matches,
        &quaternion(independent),
        config,
        &numerics,
    )
}

fn fixture() -> (Vec<SubmapPointMatch>, Similarity) {
    let truth = Similarity {
        rotation: nalgebra::UnitQuaternion::from_euler_angles(0.08, -0.12, 0.21),
        translation: nalgebra::Vector3::new(1.2, -0.4, 0.8),
        scale: 3.5,
    };
    let mut matches = Vec::new();
    for x in -2..=2 {
        for y in -2..=2 {
            let source = nalgebra::Vector3::new(
                x as f64 * 0.4,
                y as f64 * 0.3,
                ((x + y) % 3) as f64 * 0.2,
            );
            let id = matches.len() as u64;
            matches.push(SubmapPointMatch {
                source_landmark_id: id,
                target_landmark_id: id + 100,
                source_point: point(&source),
                target_point: point(&truth.apply(&source)),
            });
        }
    }
    // Four deterministic outliers exercise the robust fit and index report.
    for index in 0..4 {
        let moved = vector(&matches[index].target_point)
            + nalgebra::Vector3::new(4.0 + index as f64, -3.0, 2.0);
        matches[index].target_point = point(&moved);
    }
    (matches, truth)
}

#[test]
fn robust_independent_geometry_recovers_scale_rotation_and_outliers() {
    let (matches, truth) = fixture();
    let result = align(7, 9, &matches, &truth.rotation, &SubmapSim3AlignmentConfig::default())
        .expect("well-conditioned independent point sets should align");

    assert_eq!(result.source_submap_id, 7);
    assert_eq!(result.target_submap_id, 9);
    assert_eq!(result.inlier_match_indices.len(), matches.len() - 4);
    assert!((float(result.target_from_source.scale) - truth.scale).abs() < 1.0e-9);
    assert!(float(result.rotation_disagreement_deg) < 1.0e-7);
    assert!(float(result.mean_residual_ratio) < 1.0e-10);
    assert!(float(result.leave_one_out_log_scale_mad) < 1.0e-10);
    assert!(result.inlier_match_indices.iter().all(|index| *index >= 4));
}

#[test]
fn correct_3d_fit_cannot_bypass_independent_rotation_consensus() {
    let (matches, truth) = fixture();
    let wrong_rotation =
        nalgebra::UnitQuaternion::from_euler_angles(0.0, 0.0, 1.2) * truth.rotation;
    let error = align(7, 9, &matches, &wrong_rotation, &SubmapSim3AlignmentConfig::default())
        .unwrap_err();
    assert_eq!(error.reason, SubmapSim3RejectionReason::RotationInconsistent);
    assert!(float(error.rotation_disagreement_deg.unwrap()) > 60.0);
}

#[test]
fn collinear_geometry_is_rejected_before_ransac() {
    let matches = (0..20)
        .map(|index| SubmapPointMatch {
            source_landmark_id: index,
            target_landmark_id: index,
            source_point: point(&nalgebra::Vector3::new(index as f64, 0.0, 0.0)),
            target_point: point(&nalgebra::Vector3::new(2.0 * index as f64 + 1.0, 0.0, 0.0)),
        })
        .collect::<Vec<_>>();
    let error = align(
        1,
        2,
        &matches,
        &nalgebra::UnitQuaternion::identity(),
        &SubmapSim3AlignmentConfig::default(),
    )
    .unwrap_err();
    assert_eq!(error.reason, SubmapSim3RejectionReason::DegenerateSourceGeometry);
}

#[test]
fn repeated_landmark_identity_cannot_inflate_consensus() {
    let (mut matches, truth) = fixture();
    matches[1].source_landmark_id = matches[0].source_landmark_id;
    let error =
        align(1, 2, &matches, &truth.rotation, &SubmapSim3AlignmentConfig::default()).unwrap_err();
    assert_eq!(error.reason, SubmapSim3RejectionReason::NonUniqueCorrespondences);
}

#[test]
fn constraint_enum_preserves_rotation_only_observability() {
    let constraint = VerifiedSubmapConstraint::RotationOnly(RotationOnlyConstraint {
        source_submap_id: 1,
        target_submap_id: 2,
        target_from_source_rotation: quaternion(&nalgebra::UnitQuaternion::identity()),
        inlier_count: 80,
        spatial_coverage: scalar(0.6),
        geometry: RotationConstraintGeometry::PureRotation,
    });
    assert!(matches!(
        constraint,
        VerifiedSubmapConstraint::RotationOnly(RotationOnlyConstraint {
            geometry: RotationConstraintGeometry::PureRotation,
            ..
        })
    ));
}

#[test]
fn each_gate_of_the_generic_estimator_has_its_reason() {
    let (matches, truth) = fixture();
    let default = SubmapSim3AlignmentConfig::default();
    let reason = |matches: &Vec<SubmapPointMatch>, config: &SubmapSim3AlignmentConfig| {
        align(7, 9, matches, &truth.rotation, config).unwrap_err().reason
    };

    let few: Vec<SubmapPointMatch> = matches.iter().take(11).copied().collect();
    assert_eq!(reason(&few, &default), SubmapSim3RejectionReason::TooFewCorrespondences);

    let mut broken = matches.clone();
    broken[3].target_point.y = scalar(f64::NAN);
    assert_eq!(reason(&broken, &default), SubmapSim3RejectionReason::NonFinitePoint);

    let mut flat_target = matches.clone();
    for (k, m) in flat_target.iter_mut().enumerate() {
        m.target_point = point(&nalgebra::Vector3::new(k as f64, 0.0, 0.0));
    }
    assert_eq!(
        reason(&flat_target, &default),
        SubmapSim3RejectionReason::DegenerateTargetGeometry
    );

    let lax = SubmapSim3AlignmentConfig {
        min_second_to_first_singular_ratio: scalar(0.0),
        ..default
    };
    let mut one_place = matches.clone();
    for m in one_place.iter_mut() {
        m.target_point = point(&nalgebra::Vector3::zeros());
    }
    assert_eq!(reason(&one_place, &lax), SubmapSim3RejectionReason::InvalidTargetSceneScale);

    let no_scale = SubmapSim3AlignmentConfig { min_scale: scalar(100.0), ..default };
    assert_eq!(reason(&matches, &no_scale), SubmapSim3RejectionReason::NoRobustFit);

    let many = SubmapSim3AlignmentConfig { min_inliers: 22, ..default };
    assert_eq!(reason(&matches, &many), SubmapSim3RejectionReason::TooFewInliers);

    let most = SubmapSim3AlignmentConfig { min_inlier_ratio: scalar(0.9), ..default };
    assert_eq!(reason(&matches, &most), SubmapSim3RejectionReason::LowInlierRatio);

    let exact = SubmapSim3AlignmentConfig { max_mean_residual_ratio: scalar(-1.0), ..default };
    assert_eq!(reason(&matches, &exact), SubmapSim3RejectionReason::HighMeanResidual);

    let steady =
        SubmapSim3AlignmentConfig { max_leave_one_out_log_scale_mad: scalar(-1.0), ..default };
    assert_eq!(reason(&matches, &steady), SubmapSim3RejectionReason::UnstableLeaveOneOutScale);
}

#[test]
fn same_seed_draws_the_same_hypotheses() {
    let (matches, truth) = fixture();
    let config = SubmapSim3AlignmentConfig::default();
    let first = align(7, 9, &matches, &truth.rotation, &config).unwrap();
    let second = align(7, 9, &matches, &truth.rotation, &config).unwrap();
    assert_eq!(first, second);
}

#[test]
fn random_triples_are_distinct_and_in_range() {
    let triples = draw_triples(5, 200, 42);
    assert_eq!(triples.len(), 200);
    for triple in &triples {
        assert_eq!(triple.len(), 3);
        assert!(triple.iter().all(|index| *index < 5));
        assert!(triple[0] != triple[1] && triple[0] != triple[2] && triple[1] != triple[2]);
    }
    // Different seeds give different streams, and a stream is not constant.
    assert!(triples != draw_triples(5, 200, 43));
    assert!(triples.iter().any(|triple| triple != &triples[0]));
    assert!(draw_triples(2, 10, 42).is_empty());
    let pairs = draw_pairs(4, 50, 7);
    assert_eq!(pairs.len(), 50);
    assert!(pairs.iter().all(|pair| pair[0] != pair[1] && pair[0] < 4 && pair[1] < 4));
}

#[test]
fn medians_take_the_middle_or_the_midpoint() {
    let list = |values: &[f64]| values.iter().map(|v| scalar(*v)).collect::<Vec<_>>();
    assert_eq!(median(&list(&[]), &midpoint), None);
    assert_eq!(median(&list(&[3.0, 1.0, 2.0]), &midpoint), Some(scalar(2.0)));
    assert_eq!(median(&list(&[4.0, -1.0, 2.0, 10.0]), &midpoint), Some(scalar(3.0)));
    let line = [0.0, 1.0, 3.0, 3.0];
    let scale = median_pairwise_distance(
        line.len(),
        &|i: usize, j: usize| scalar((line[i] - line[j] as f64).abs()),
        &midpoint,
    );
    // The distances that count are 1, 3, 3, 2, 2.
    assert_eq!(scale, scalar(2.0));
    assert_eq!(
        median_pairwise_distance(1, &|_: usize, _: usize| scalar(1.0), &midpoint),
        scalar(0.0)
    );
}

#[test]
fn leaving_one_out_needs_four_points_and_good_scales() {
    let good = |_: usize| Some(scalar(2.0));
    let spread = |count: usize, reference: f64| {
        leave_one_out_log_scale_mad(count, scalar(reference), &good, &log_deviation, &midpoint)
    };
    assert_eq!(spread(3, 2.0), None);
    assert_eq!(spread(4, 0.0), None);
    assert_eq!(spread(4, 2.0), Some(scalar(0.0)));
    let failing = |k: usize| if k == 2 { None } else { Some(scalar(2.0)) };
    assert_eq!(
        leave_one_out_log_scale_mad(4, scalar(2.0), &failing, &log_deviation, &midpoint),
        None
    );
}

#[test]
fn samples_follow_the_seeded_generator() {
    let mut rng = StdRng::seed_from_u64(42);
    for expected in draw_triples(5, 50, 42) {
        assert_eq!(sample_three(5, &mut rng).map(|triple| triple.to_vec()), Some(expected));
    }
    let mut rng = StdRng::seed_from_u64(7);
    let mut twin = StdRng::seed_from_u64(7);
    for _ in 0..50 {
        let expected = loop {
            let (first, second) = (twin.gen_range(0..3usize), twin.gen_range(0..3usize));
            if first != second {
                break [first, second];
            }
        };
        assert_eq!(sample_two(3, &mut rng), Some(expected));
    }
    assert_eq!(rng, twin);
    assert_eq!(sample_two(1, &mut rng), None);
    assert_eq!(sample_three(2, &mut rng), None);
    assert_eq!(rng, twin);
}

#[test]
fn one_seed_draws_the_same_samples() {
    assert_eq!(draw_triples(9, 20, 7), draw_triples(9, 20, 7));
    assert_eq!(draw_pairs(9, 20, 7), draw_pairs(9, 20, 7));
    assert_ne!(draw_triples(90, 20, 7), draw_triples(90, 20, 8));
}
