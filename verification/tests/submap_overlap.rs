use nalgebra::{UnitQuaternion, Vector3};
use visloc_slam::geometry::{Point3, Pose, Quaternion};
use visloc_slam::scalar::Scalar;
use visloc_slam::submap_overlap::{
    collect_submap_overlap_evidence, seam_step_shape_diagnostic, shared_camera_center_matches,
    shared_landmark_point_matches, LocalSubmap, LocalSubmapFrame, LocalSubmapLandmark,
    LocalSubmapObservation, OverlapNumerics, PairRotationEvidence, RotationChain, SeamDriftSide,
    SeamStepShapeDiagnostic, SubmapOverlapConfig, SubmapOverlapError, SubmapOverlapEvidence,
};

fn scalar(value: f64) -> Scalar {
    Scalar::from_bits(value.to_bits())
}

fn float(value: Scalar) -> f64 {
    f64::from_bits(value.to_bits())
}

fn point(value: &nalgebra::Vector3<f64>) -> Point3 {
    Point3 { x: scalar(value.x), y: scalar(value.y), z: scalar(value.z) }
}

fn vector(value: &Point3) -> nalgebra::Vector3<f64> {
    nalgebra::Vector3::new(float(value.x), float(value.y), float(value.z))
}

fn quaternion(value: &nalgebra::UnitQuaternion<f64>) -> Quaternion {
    Quaternion {
        w: scalar(value.w),
        x: scalar(value.i),
        y: scalar(value.j),
        z: scalar(value.k),
    }
}

fn rotation(value: &Quaternion) -> nalgebra::UnitQuaternion<f64> {
    nalgebra::UnitQuaternion::new_unchecked(nalgebra::Quaternion::new(
        float(value.w),
        float(value.x),
        float(value.y),
        float(value.z),
    ))
}

fn camera_center(pose: &Pose) -> nalgebra::Vector3<f64> {
    -(rotation(&pose.rotation).inverse() * vector(&pose.translation))
}

#[derive(Clone, Copy)]
struct Similarity {
    rotation: nalgebra::UnitQuaternion<f64>,
    translation: nalgebra::Vector3<f64>,
    scale: f64,
}

impl Similarity {
    fn apply(&self, point: &nalgebra::Vector3<f64>) -> nalgebra::Vector3<f64> {
        self.scale * self.rotation.transform_vector(point) + self.translation
    }
}

/// The rotation from the source gauge into the target gauge along a pair of images.
fn chain_rotation(chain: &RotationChain) -> Quaternion {
    let pair = rotation(&chain.pair_rotation);
    let link = if chain.inverted { pair.inverse() } else { pair };
    let target = rotation(&chain.target_pose.rotation).inverse();
    quaternion(&(target * link * rotation(&chain.source_pose.rotation)))
}

fn angle_between(one: &Quaternion, other: &Quaternion) -> Scalar {
    scalar(rotation(one).rotation_to(&rotation(other)).angle())
}

fn weighted_residual(angles: &Vec<Scalar>, weights: &Vec<usize>) -> Scalar {
    scalar(
        angles
            .iter()
            .zip(weights)
            .map(|(angle, weight)| float(*angle) * (*weight).max(1) as f64)
            .sum::<f64>(),
    )
}

fn radius_of(limit_deg: Scalar) -> Scalar {
    scalar(float(limit_deg).max(0.0).to_radians())
}

fn to_degrees(angle: Scalar) -> Scalar {
    scalar(float(angle).to_degrees())
}

fn divide(dividend: Scalar, divisor: Scalar) -> Scalar {
    scalar(float(dividend) / float(divisor))
}

fn step_lengths(path: &[Point3]) -> Vec<f64> {
    path.windows(2).map(|pair| (vector(&pair[1]) - vector(&pair[0])).norm()).collect()
}

fn submap(frames: Vec<LocalSubmapFrame>, landmarks: Vec<LocalSubmapLandmark>) -> LocalSubmap {
    LocalSubmap { frames, landmarks }
}

fn frame(
    source_frame_id: u64,
    turn: UnitQuaternion<f64>,
    shift: Vector3<f64>,
) -> LocalSubmapFrame {
    let pose = Pose { rotation: quaternion(&turn), translation: point(&shift) };
    LocalSubmapFrame { source_frame_id, pose, camera_center: point(&camera_center(&pose)) }
}

fn collect(
    source: &LocalSubmap,
    target: &LocalSubmap,
    pairs: &[PairRotationEvidence],
    config: &SubmapOverlapConfig,
) -> Result<SubmapOverlapEvidence, SubmapOverlapError> {
    let numerics = OverlapNumerics {
        compose: chain_rotation,
        angle: angle_between,
        residual: weighted_residual,
        radius: radius_of,
        degrees: to_degrees,
    };
    collect_submap_overlap_evidence(source, target, &pairs.to_vec(), config, &numerics)
}

/// How much the mean step length varies over equal windows of a path; zero where there are
/// fewer steps than windows.
fn window_drift(path: &Vec<Point3>, windows: usize) -> Scalar {
    let steps = step_lengths(path);
    if windows == 0 || steps.len() < windows {
        return scalar(0.0);
    }
    let means: Vec<f64> = (0..windows)
        .map(|w| {
            let part = &steps[w * steps.len() / windows..(w + 1) * steps.len() / windows];
            part.iter().sum::<f64>() / part.len() as f64
        })
        .collect();
    let largest = means.iter().copied().fold(0.0, f64::max);
    let smallest = means.iter().copied().fold(f64::INFINITY, f64::min);
    scalar(if smallest > 0.0 { largest / smallest } else { 0.0 })
}

fn seam(
    source: &LocalSubmap,
    target: &LocalSubmap,
    window_count: usize,
) -> Option<SeamStepShapeDiagnostic> {
    seam_step_shape_diagnostic(source, target, window_count, window_drift, divide)
}

fn landmark(id: u64, position: Vector3<f64>, frame: u64, keypoint: usize) -> LocalSubmapLandmark {
    LocalSubmapLandmark {
        local_landmark_id: id,
        position: point(&position),
        observations: vec![LocalSubmapObservation {
            source_frame_id: frame,
            keypoint_index: keypoint,
        }],
    }
}

#[test]
fn recovers_shared_points_and_essential_rotation_in_local_gauges() {
    let truth = Similarity {
        rotation: UnitQuaternion::from_euler_angles(0.1, -0.2, 0.3),
        translation: Vector3::new(2.0, -1.0, 0.5),
        scale: 1.7,
    };
    let source_camera_rotation = UnitQuaternion::from_euler_angles(-0.2, 0.1, 0.05);
    let target_camera_rotation = UnitQuaternion::from_euler_angles(0.15, 0.08, -0.12);
    let source = submap(
        vec![frame(100, source_camera_rotation, Vector3::zeros())],
        (0..12)
            .map(|index| {
                landmark(
                    index,
                    Vector3::new(index as f64, (index % 3) as f64, 0.2 * index as f64),
                    150,
                    index as usize,
                )
            })
            .collect(),
    );
    let target = submap(
        vec![frame(200, target_camera_rotation, Vector3::zeros())],
        source
            .landmarks
            .iter()
            .map(|source_landmark| {
                landmark(
                    source_landmark.local_landmark_id + 100,
                    truth.apply(&vector(&source_landmark.position)),
                    150,
                    source_landmark.local_landmark_id as usize,
                )
            })
            .collect(),
    );
    let camera_j_from_i =
        target_camera_rotation * truth.rotation * source_camera_rotation.inverse();
    let overlap = collect(
        &source,
        &target,
        &[PairRotationEvidence {
            image_i: 100,
            image_j: 200,
            image_j_from_i: quaternion(&camera_j_from_i),
            inlier_count: 80,
        }],
        &SubmapOverlapConfig::default(),
    )
    .unwrap();
    assert_eq!(overlap.point_matches.len(), 12);
    assert!(
        rotation(&overlap.target_from_source_rotation).rotation_to(&truth.rotation).angle()
            < 1e-12
    );
    assert_eq!(overlap.rotation_consensus_inlier_support, 80);
}

#[test]
fn mutual_best_filter_keeps_landmark_matches_one_to_one() {
    let source = submap(
        Vec::new(),
        vec![
            landmark(0, Vector3::zeros(), 10, 0),
            landmark(1, Vector3::new(1.0, 0.0, 0.0), 10, 1),
        ],
    );
    let mut target_landmark = landmark(10, Vector3::zeros(), 10, 0);
    target_landmark.observations.push(LocalSubmapObservation {
        source_frame_id: 10,
        keypoint_index: 1,
    });
    let target = submap(Vec::new(), vec![target_landmark]);
    let matches = shared_landmark_point_matches(&source, &target, 1);
    assert_eq!(matches.len(), 1);
    assert_eq!(matches[0].source_landmark_id, 0);
}

#[test]
fn rejects_when_rotation_consensus_requirement_is_not_met() {
    let source = submap(
        vec![frame(1, UnitQuaternion::identity(), Vector3::zeros())],
        Vec::new(),
    );
    let target = submap(
        vec![frame(2, UnitQuaternion::identity(), Vector3::zeros())],
        Vec::new(),
    );
    let error = collect(
        &source,
        &target,
        &[PairRotationEvidence {
            image_i: 1,
            image_j: 2,
            image_j_from_i: quaternion(&UnitQuaternion::identity()),
            inlier_count: 20,
        }],
        &SubmapOverlapConfig {
            min_rotation_consensus_candidates: 2,
            ..SubmapOverlapConfig::default()
        },
    )
    .unwrap_err();
    assert_eq!(
        error,
        SubmapOverlapError::InsufficientRotationConsensus {
            required: 2,
            found: 1
        }
    );
}

#[test]
fn shared_camera_centres_keep_source_frame_identity() {
    let source = submap(
        vec![frame(7, UnitQuaternion::identity(), Vector3::zeros())],
        Vec::new(),
    );
    let target = submap(
        vec![frame(7, UnitQuaternion::identity(), Vector3::new(-1.0, 0.0, 0.0))],
        Vec::new(),
    );
    let matches = shared_camera_center_matches(&source, &target);
    assert_eq!(matches.len(), 1);
    assert_eq!(matches[0].source_landmark_id, 7);
    assert_eq!(vector(&matches[0].source_point), Vector3::zeros());
    assert_eq!(vector(&matches[0].target_point), Vector3::new(1.0, 0.0, 0.0));
}

/// `n + 1` frames sharing ids `0..=n`, with camera centres along `x` at
/// the cumulative sum of `steps` (so `steps.len() == n`), scaled by
/// `gauge_scale` -- an independent reconstruction's absolute gauge is
/// arbitrary, so tests exercise that this cancels out of the comparison.
fn stepped_submap(steps: &[f64], gauge_scale: f64) -> LocalSubmap {
    let mut x = 0.0_f64;
    let mut frames = vec![frame(0, UnitQuaternion::identity(), Vector3::zeros())];
    for (index, step) in steps.iter().enumerate() {
        x += step * gauge_scale;
        frames.push(frame((index + 1) as u64, UnitQuaternion::identity(), Vector3::new(x, 0.0, 0.0)));
    }
    submap(frames, Vec::new())
}

#[test]
fn seam_step_shape_diagnostic_stays_quiet_when_both_sides_agree_on_shape() {
    // Both sides see the same *relative* shape (steps 0.1 for the first
    // half, 1.0 for the second -- a 10x internal change, mimicking a
    // genuinely fast-accelerating shared span) but at unrelated absolute
    // gauges (source: raw; target: 3x). A real, common-mode motion trend
    // must cancel out of the comparison regardless of the two
    // independent reconstructions' arbitrary monocular scales.
    let mut steps = vec![0.1_f64; 6];
    steps.extend(vec![1.0_f64; 6]);
    let source = stepped_submap(&steps, 1.0);
    let target = stepped_submap(&steps, 3.0);
    let diagnostic = seam(&source, &target, 2)
        .expect("12 shared steps is enough for a 2-window split");
    assert_eq!(diagnostic.shared_frames, 13);
    assert!((float(diagnostic.source_change_factor) - 10.0).abs() < 1.0e-9);
    assert!((float(diagnostic.target_change_factor) - 10.0).abs() < 1.0e-9);
    assert!(
        (float(diagnostic.disagreement_ratio) - 1.0).abs() < 1.0e-9,
        "matching shapes at different gauges must not disagree, got {}",
        float(diagnostic.disagreement_ratio)
    );
}

#[test]
fn seam_step_shape_diagnostic_fires_when_one_side_diverges() {
    // Source is flat (no internal drift); target shows the same 10x
    // within-window growth as a defective submap. Only
    // target disagrees with the (shared, real) motion the flat source
    // faithfully reports.
    let flat_steps = vec![0.5_f64; 12];
    let mut drifting_steps = vec![0.1_f64; 6];
    drifting_steps.extend(vec![1.0_f64; 6]);
    let source = stepped_submap(&flat_steps, 1.0);
    let target = stepped_submap(&drifting_steps, 1.0);
    let diagnostic = seam(&source, &target, 2).unwrap();
    assert!((float(diagnostic.source_change_factor) - 1.0).abs() < 1.0e-9);
    assert!((float(diagnostic.target_change_factor) - 10.0).abs() < 1.0e-9);
    assert!((float(diagnostic.disagreement_ratio) - 10.0).abs() < 1.0e-9);
    assert_eq!(diagnostic.defective_side, SeamDriftSide::Target);
}

#[test]
fn seam_step_shape_diagnostic_none_when_too_few_shared_frames() {
    // A single shared step (2 frames) is fewer than the 2 windows
    // requested -- `windowed_camera_center_drift_ratio` reports `0.0`
    // (nothing to compare) on both sides, so the diagnostic itself is
    // `None` rather than a meaningless `1.0`.
    let steps = vec![0.1_f64];
    let source = stepped_submap(&steps, 1.0);
    let target = stepped_submap(&steps, 1.0);
    assert_eq!(seam(&source, &target, 2), None);
}

#[test]
fn seam_step_shape_diagnostic_none_when_no_shared_frames() {
    let source = stepped_submap(&[0.1; 6], 1.0);
    let target = submap(
        vec![frame(900, UnitQuaternion::identity(), Vector3::zeros())],
        Vec::new(),
    );
    assert_eq!(seam(&source, &target, 2), None);
}

#[test]
fn missing_rotation_candidates_are_reported() {
    let empty = submap(Vec::new(), Vec::new());
    let error = collect(&empty, &empty, &[], &SubmapOverlapConfig::default()).unwrap_err();
    assert_eq!(error, SubmapOverlapError::NoRotationCandidates);
    assert_eq!(
        error.message(),
        "no essential pair connects a registered source frame to a registered target frame"
    );
    let few = SubmapOverlapError::InsufficientRotationConsensus { required: 2, found: 1 };
    assert_eq!(few.message(), "essential rotation consensus has 1 candidates; 2 required");
}

#[test]
fn the_best_supported_rotation_wins() {
    let source = submap(
        vec![
            frame(1, UnitQuaternion::identity(), Vector3::zeros()),
            frame(2, UnitQuaternion::identity(), Vector3::zeros()),
        ],
        Vec::new(),
    );
    let target = submap(
        vec![frame(9, UnitQuaternion::identity(), Vector3::zeros())],
        Vec::new(),
    );
    let turn = UnitQuaternion::from_euler_angles(0.0, 0.0, 1.0);
    let pair = |image_i: u64, image_j: u64, angle: UnitQuaternion<f64>, inlier_count: usize| {
        PairRotationEvidence { image_i, image_j, image_j_from_i: quaternion(&angle), inlier_count }
    };
    let pairs = [
        pair(1, 9, UnitQuaternion::identity(), 50),
        pair(2, 9, turn, 40),
        // Read backwards: its inverse agrees with the second one.
        pair(9, 1, turn.inverse(), 30),
        // Within one image nothing is said.
        pair(9, 9, turn, 900),
    ];
    let overlap = collect(&source, &target, &pairs, &SubmapOverlapConfig::default()).unwrap();
    assert_eq!(overlap.rotation_candidate_count, 3);
    assert_eq!(overlap.rotation_consensus_count, 2);
    assert_eq!(overlap.rotation_consensus_inlier_support, 70);
    assert!(rotation(&overlap.target_from_source_rotation).rotation_to(&turn).angle() < 1e-12);
    assert!(float(overlap.max_rotation_disagreement_deg) < 1e-9);
}

#[test]
fn matches_pair_each_landmark_once() {
    let mut seen = Vec::new();
    for id in 0..6u64 {
        let mut one = landmark(id, Vector3::new(id as f64, 0.0, 0.0), 10, id as usize);
        one.observations.push(LocalSubmapObservation {
            source_frame_id: 11,
            keypoint_index: (id / 2) as usize,
        });
        seen.push(one);
    }
    let source = submap(Vec::new(), seen.clone());
    seen.reverse();
    let target = submap(Vec::new(), seen);
    let matches = shared_landmark_point_matches(&source, &target, 1);
    let mut sources: Vec<u64> = matches.iter().map(|m| m.source_landmark_id).collect();
    let mut targets: Vec<u64> = matches.iter().map(|m| m.target_landmark_id).collect();
    assert_eq!(sources, vec![0, 1, 2, 3, 4, 5]);
    assert_eq!(sources, targets);
    sources.dedup();
    targets.sort();
    targets.dedup();
    assert_eq!(sources.len(), 6);
    assert_eq!(targets.len(), 6);
    // Keypoints of frame 11 are shared by two landmarks each and do not vote.
    assert!(shared_landmark_point_matches(&source, &target, 2).is_empty());
}

#[test]
fn ambiguous_observations_of_either_side_do_not_vote() {
    let double = vec![
        landmark(0, Vector3::zeros(), 10, 0),
        landmark(1, Vector3::new(1.0, 0.0, 0.0), 10, 0),
    ];
    let single = vec![landmark(10, Vector3::zeros(), 10, 0)];
    let two = submap(Vec::new(), double);
    let one = submap(Vec::new(), single);
    assert!(shared_landmark_point_matches(&two, &one, 1).is_empty());
    assert!(shared_landmark_point_matches(&one, &two, 1).is_empty());
    assert_eq!(shared_landmark_point_matches(&one, &one, 1).len(), 1);
}
