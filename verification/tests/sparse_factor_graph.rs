use nalgebra::{UnitQuaternion, Vector3};
use visloc_slam::geometry::{Point3, Pose, Quaternion};
use visloc_slam::scalar::Scalar;
use visloc_slam::scored_map::{
    update_from_scored_map, ScoreNumerics, ScoredKeyframe, ScoredMap, ScoredObservation,
    SharedConfidence,
};
use visloc_slam::sparse_factor_graph::{
    SparseFactorGraph, SparseFactorGraphConfig, SparseFactorGraphUpdateStats,
    SparseFactorInactiveReason, SparseFactorKey, SparseFactorKind, SparseFactorMeasurement,
    SparseFactorState,
};

fn scalar(value: f64) -> Scalar {
    Scalar::from_bits(value.to_bits())
}

fn float(value: Scalar) -> f64 {
    f64::from_bits(value.to_bits())
}

fn point(value: &nalgebra::Vector3<f64>) -> Point3 {
    Point3 { x: scalar(value.x), y: scalar(value.y), z: scalar(value.z) }
}

fn vector(value: &Point3) -> nalgebra::Vector3<f64> {
    nalgebra::Vector3::new(float(value.x), float(value.y), float(value.z))
}

fn quaternion(value: &nalgebra::UnitQuaternion<f64>) -> Quaternion {
    Quaternion {
        w: scalar(value.w),
        x: scalar(value.i),
        y: scalar(value.j),
        z: scalar(value.k),
    }
}

fn rotation(value: &Quaternion) -> nalgebra::UnitQuaternion<f64> {
    nalgebra::UnitQuaternion::new_unchecked(nalgebra::Quaternion::new(
        float(value.w),
        float(value.x),
        float(value.y),
        float(value.z),
    ))
}

fn camera_center(pose: &Pose) -> nalgebra::Vector3<f64> {
    -(rotation(&pose.rotation).inverse() * vector(&pose.translation))
}

fn center_distance(one: &Pose, other: &Pose) -> Scalar {
    scalar((camera_center(one) - camera_center(other)).norm())
}

/// The confidence of a support count, in single precision, as an exact wider number.
fn support_confidence(support: usize, mean: f32, saturation: usize) -> Scalar {
    let score = (support as f32 / saturation as f32).clamp(0.0, 1.0);
    scalar(f64::from((score * mean).clamp(0.0, 1.0)))
}

fn pair_confidence(shared: &Vec<SharedConfidence>, saturation: usize) -> Scalar {
    let mut sum = 0.0f32;
    for one in shared {
        sum += (float(one.left) as f32 * float(one.right) as f32).max(0.0).sqrt();
    }
    let mean = if shared.is_empty() { 0.0 } else { sum / shared.len() as f32 };
    support_confidence(shared.len(), mean, saturation)
}

fn stereo_confidence(count: usize, saturation: usize) -> Scalar {
    support_confidence(count, 1.0, saturation)
}

fn single(value: f32) -> Scalar {
    scalar(f64::from(value))
}

fn new_map() -> ScoredMap {
    ScoredMap { keyframes: vec![], stereo_frame_ids: vec![] }
}

fn add_keyframe(map: &mut ScoredMap, id: u64, x: f64, landmarks: &[u64]) {
    map.keyframes.push(ScoredKeyframe {
        id,
        pose: Some(Pose {
            rotation: quaternion(&UnitQuaternion::identity()),
            translation: point(&Vector3::new(-x, 0.0, 0.0)),
        }),
        observations: landmarks
            .iter()
            .map(|landmark_id| ScoredObservation {
                landmark_id: *landmark_id,
                confidence: None,
            })
            .collect(),
    });
}

fn update(graph: &mut SparseFactorGraph, map: &ScoredMap, id: u64) -> SparseFactorGraphUpdateStats {
    let numerics = ScoreNumerics {
        pair: pair_confidence,
        stereo: stereo_confidence,
        distance: center_distance,
    };
    update_from_scored_map(graph, map, id, &numerics)
}

fn config() -> SparseFactorGraphConfig {
    SparseFactorGraphConfig {
        temporal_radius: 1,
        active_window_keyframes: 3,
        proximity_radius_meters: scalar(5.0),
        proximity_min_shared_landmarks: 2,
        max_proximity_neighbors_per_keyframe: 3,
        support_saturation_count: 2,
        minimum_active_confidence: scalar(0.25),
        reactivation_confidence: scalar(0.5),
        low_confidence_patience: 2,
        max_active_factors: 32,
        max_inactive_age_generations: 10,
        protect_temporal_from_confidence_pruning: true,
        geometric_damping: scalar(1.0e-4),
    }
}

#[test]
fn proposes_bidirectional_temporal_proximity_and_stereo_factors() {
    let mut map = new_map();
    add_keyframe(&mut map, 0, 0.0, &[1, 2]);
    add_keyframe(&mut map, 1, 0.1, &[1, 2]);
    add_keyframe(&mut map, 2, 0.2, &[1, 2]);
    map.stereo_frame_ids.push(2);
    let mut graph = SparseFactorGraph::new(config());
    update(&mut graph, &map, 0);
    update(&mut graph, &map, 1);
    let stats = update(&mut graph, &map, 2);
    assert_eq!(stats.active_temporal, 4);
    assert_eq!(stats.active_proximity, 2);
    assert_eq!(stats.active_stereo, 1);
    assert!(graph
        .factor(SparseFactorKey {
            from_keyframe_id: 0,
            to_keyframe_id: 2,
            kind: SparseFactorKind::Proximity,
        })
        .is_some());
}

#[test]
fn retires_old_edges_but_keeps_them_for_broader_recovery() {
    let mut map = new_map();
    let mut graph = SparseFactorGraph::new(SparseFactorGraphConfig {
        active_window_keyframes: 2,
        ..config()
    });
    for id in 0..4 {
        add_keyframe(&mut map, id, id as f64 * 10.0, &[1, 2]);
        update(&mut graph, &map, id);
    }
    let key = SparseFactorKey {
        from_keyframe_id: 0,
        to_keyframe_id: 1,
        kind: SparseFactorKind::Temporal,
    };
    assert_eq!(
        graph.factor(key).unwrap().state,
        SparseFactorState::Inactive
    );
    assert!(graph
        .broader_recovery_candidates(0, 4)
        .iter()
        .any(|f| f.key == key));
}

#[test]
fn low_confidence_proximity_factor_is_inactivated_after_patience() {
    let mut map = new_map();
    add_keyframe(&mut map, 0, 0.0, &[1, 2]);
    add_keyframe(&mut map, 1, 0.1, &[1, 2]);
    add_keyframe(&mut map, 2, 0.2, &[1, 2]);
    let mut graph = SparseFactorGraph::new(config());
    update(&mut graph, &map, 0);
    update(&mut graph, &map, 1);
    update(&mut graph, &map, 2);
    let key = SparseFactorKey {
        from_keyframe_id: 0,
        to_keyframe_id: 2,
        kind: SparseFactorKind::Proximity,
    };
    map.keyframes[0].observations.clear();
    update(&mut graph, &map, 2);
    update(&mut graph, &map, 2);
    assert_eq!(
        graph.factor(key).unwrap().state,
        SparseFactorState::Inactive
    );
}

#[test]
fn measurement_update_is_numeric_and_optimizer_facing() {
    let mut map = new_map();
    add_keyframe(&mut map, 0, 0.0, &[1, 2]);
    add_keyframe(&mut map, 1, 0.1, &[1, 2]);
    let mut graph = SparseFactorGraph::new(config());
    update(&mut graph, &map, 0);
    update(&mut graph, &map, 1);
    let key = SparseFactorKey {
        from_keyframe_id: 0,
        to_keyframe_id: 1,
        kind: SparseFactorKind::Temporal,
    };
    assert!(graph.update_measurement(
        key,
        SparseFactorMeasurement {
            target_correction_px: [single(0.4), single(-0.2)],
            information: [single(0.8), single(0.3)],
            damping: single(0.01),
        }
    ));
    assert_eq!(
        graph.factor(key).unwrap().measurement.information,
        [single(0.8), single(0.3)]
    );
    assert!(!graph.update_measurement(
        key,
        SparseFactorMeasurement {
            target_correction_px: [single(f32::NAN), single(0.0)],
            information: [single(1.0), single(1.0)],
            damping: single(0.0),
        }
    ));
}

#[test]
fn confidence_uses_shared_observation_scores() {
    let mut map = new_map();
    add_keyframe(&mut map, 0, 0.0, &[1, 2]);
    add_keyframe(&mut map, 1, 0.1, &[1, 2]);
    for observation in &mut map.keyframes[1].observations {
        observation.confidence = Some(single(0.25));
    }
    let mut graph = SparseFactorGraph::new(config());
    update(&mut graph, &map, 0);
    update(&mut graph, &map, 1);
    let factor = graph
        .factor(SparseFactorKey {
            from_keyframe_id: 0,
            to_keyframe_id: 1,
            kind: SparseFactorKind::Temporal,
        })
        .unwrap();
    assert!((float(factor.confidence) - 0.5).abs() < 1.0e-6);
}

#[test]
fn budget_retired_factor_does_not_thrash_back_on_ordinary_rescore() {
    let mut map = new_map();
    add_keyframe(&mut map, 0, 0.0, &[1, 2]);
    add_keyframe(&mut map, 1, 0.1, &[1, 2]);
    add_keyframe(&mut map, 2, 0.2, &[1, 2]);
    let mut graph = SparseFactorGraph::new(SparseFactorGraphConfig {
        max_active_factors: 1,
        ..config()
    });
    update(&mut graph, &map, 0);
    update(&mut graph, &map, 1);
    let retired_key = graph
        .inactive_factors()
        .into_iter()
        .find(|factor| factor.inactive_reason == Some(SparseFactorInactiveReason::ActiveBudget))
        .unwrap()
        .key;

    let stats = update(&mut graph, &map, 2);

    assert_eq!(stats.reactivated, 0);
    let retired = graph.factor(retired_key).unwrap();
    assert_eq!(retired.state, SparseFactorState::Inactive);
    assert_eq!(
        retired.inactive_reason,
        Some(SparseFactorInactiveReason::ActiveBudget)
    );
}

#[test]
fn updates_keep_the_budget_and_count_every_factor() {
    let mut map = new_map();
    let mut graph =
        SparseFactorGraph::new(SparseFactorGraphConfig { max_active_factors: 3, ..config() });
    for id in 0..6 {
        add_keyframe(&mut map, id, id as f64 * 0.1, &[1, 2, 3]);
        map.stereo_frame_ids.push(id);
        let stats = update(&mut graph, &map, id);
        let active = graph.active_factors().len();
        assert!(active <= 3);
        assert_eq!(
            stats.active_temporal + stats.active_proximity + stats.active_stereo,
            active
        );
        assert_eq!(stats.inactive, graph.inactive_factors().len());
        assert_eq!(stats.inactive + active, graph.factors().len());
        // Proximity goes before temporal and stereo support.
        if stats.inactivated_budget > 0 {
            assert_eq!(stats.active_proximity, 0);
        }
    }
    assert_eq!(graph.keyframe_order(), &vec![0, 1, 2, 3, 4, 5]);
}

#[test]
fn stale_inactive_factors_are_forgotten() {
    let mut map = new_map();
    let mut graph = SparseFactorGraph::new(SparseFactorGraphConfig {
        active_window_keyframes: 2,
        max_inactive_age_generations: 1,
        ..config()
    });
    let mut pruned = 0;
    for id in 0..6 {
        add_keyframe(&mut map, id, id as f64 * 10.0, &[1, 2]);
        pruned += update(&mut graph, &map, id).pruned;
    }
    assert!(pruned > 0);
    let key = SparseFactorKey {
        from_keyframe_id: 0,
        to_keyframe_id: 1,
        kind: SparseFactorKind::Temporal,
    };
    assert!(graph.factor(key).is_none());
    assert!(!graph.reactivate_factor(key));
}

#[test]
fn protected_temporal_factors_survive_low_confidence() {
    let mut map = new_map();
    add_keyframe(&mut map, 0, 0.0, &[1]);
    add_keyframe(&mut map, 1, 0.1, &[2]);
    add_keyframe(&mut map, 2, 0.2, &[3]);
    let mut graph = SparseFactorGraph::new(config());
    for id in [0, 1, 2, 2, 2] {
        update(&mut graph, &map, id);
    }
    let key = SparseFactorKey {
        from_keyframe_id: 0,
        to_keyframe_id: 1,
        kind: SparseFactorKind::Temporal,
    };
    let factor = graph.factor(key).unwrap();
    assert_eq!(factor.state, SparseFactorState::Active);
    assert_eq!(factor.confidence, single(0.0));
    assert!(factor.low_confidence_streak >= 2);
    assert_eq!(graph.active_neighbor_keyframe_ids(0).into_iter().collect::<Vec<u64>>(), vec![1]);
}

#[test]
fn explicit_reactivation_asks_for_confidence() {
    let mut map = new_map();
    let mut graph = SparseFactorGraph::new(SparseFactorGraphConfig {
        active_window_keyframes: 2,
        ..config()
    });
    for id in 0..4 {
        add_keyframe(&mut map, id, id as f64 * 10.0, &[1, 2]);
        update(&mut graph, &map, id);
    }
    let key = SparseFactorKey {
        from_keyframe_id: 0,
        to_keyframe_id: 1,
        kind: SparseFactorKind::Temporal,
    };
    assert!(graph.reactivate_factor(key));
    assert!(!graph.reactivate_factor(key));
    assert_eq!(graph.factor(key).unwrap().inactive_reason, None);
    // Without observations left, the support is gone.
    map.keyframes[0].observations.clear();
    update(&mut graph, &map, 3);
    assert_eq!(
        graph.factor(key).unwrap().inactive_reason,
        Some(SparseFactorInactiveReason::WindowAge)
    );
    assert!(!graph.reactivate_factor(key));
}

#[test]
fn configurations_are_validated() {
    assert!(SparseFactorGraphConfig::default().is_valid());
    assert!(config().is_valid());
    let crossed = SparseFactorGraphConfig {
        minimum_active_confidence: scalar(0.6),
        ..config()
    };
    assert!(!crossed.is_valid());
    let lost = SparseFactorGraphConfig {
        proximity_radius_meters: scalar(f64::NAN),
        ..config()
    };
    assert!(!lost.is_valid());
    assert!(!SparseFactorGraphConfig { temporal_radius: 0, ..config() }.is_valid());
}

#[test]
fn shared_support_takes_the_last_left_observation() {
    let mut map = new_map();
    add_keyframe(&mut map, 0, 0.0, &[1, 1]);
    add_keyframe(&mut map, 1, 0.1, &[1, 9]);
    map.keyframes[0].observations[0].confidence = Some(single(0.0));
    map.keyframes[0].observations[1].confidence = Some(single(0.25));
    let mut graph = SparseFactorGraph::new(config());
    update(&mut graph, &map, 0);
    update(&mut graph, &map, 1);
    let factor = graph
        .factor(SparseFactorKey {
            from_keyframe_id: 0,
            to_keyframe_id: 1,
            kind: SparseFactorKind::Temporal,
        })
        .unwrap();
    assert_eq!(factor.support_count, 1);
    // Half of the saturating support, at a confidence of one half.
    assert_eq!(factor.confidence, single(0.25));
}
