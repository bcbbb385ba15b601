use nalgebra::{Rotation3, UnitQuaternion, Vector3};
use visloc_slam::geometry::{Point3, Quaternion};
use visloc_slam::scalar::Scalar;
use visloc_slam::vi_initializer::{
    check_stationary, Attitude, ImuSampleRecord, StationaryNumerics, StationaryRejectionReason,
    VisualInertialInitializationResult, VisualInertialInitializer,
    VisualInertialInitializerConfig, WindowStatistics,
};

fn scalar(value: f64) -> Scalar {
    Scalar::from_bits(value.to_bits())
}

fn float(value: Scalar) -> f64 {
    f64::from_bits(value.to_bits())
}

fn point(value: &nalgebra::Vector3<f64>) -> Point3 {
    Point3 { x: scalar(value.x), y: scalar(value.y), z: scalar(value.z) }
}

fn vector(value: &Point3) -> nalgebra::Vector3<f64> {
    nalgebra::Vector3::new(float(value.x), float(value.y), float(value.z))
}

fn quaternion(value: &nalgebra::UnitQuaternion<f64>) -> Quaternion {
    Quaternion {
        w: scalar(value.w),
        x: scalar(value.i),
        y: scalar(value.j),
        z: scalar(value.k),
    }
}

fn rotation(value: &Quaternion) -> nalgebra::UnitQuaternion<f64> {
    nalgebra::UnitQuaternion::new_unchecked(nalgebra::Quaternion::new(
        float(value.w),
        float(value.x),
        float(value.y),
        float(value.z),
    ))
}

fn plus(a: Scalar, b: Scalar) -> Scalar {
    scalar(float(a) + float(b))
}

fn sum_of(values: &Vec<Scalar>) -> Scalar {
    scalar(values.iter().map(|value| float(*value)).sum::<f64>())
}

fn norm_of(value: &Point3) -> Scalar {
    scalar(vector(value).norm())
}

/// Mean and deviation of the samples, each weighted by its duration.
fn window_statistics(
    window: &Vec<ImuSampleRecord>,
    duration: Scalar,
    gravity_world: &Point3,
) -> WindowStatistics {
    let total = float(duration);
    let mut gyro_mean = nalgebra::Vector3::zeros();
    let mut accel_mean = nalgebra::Vector3::zeros();
    for sample in window {
        gyro_mean += vector(&sample.gyro) * float(sample.dt);
        accel_mean += vector(&sample.accel) * float(sample.dt);
    }
    gyro_mean /= total;
    accel_mean /= total;
    let mut gyro_variance = nalgebra::Vector3::zeros();
    let mut accel_variance = nalgebra::Vector3::zeros();
    for sample in window {
        let gyro = vector(&sample.gyro) - gyro_mean;
        let accel = vector(&sample.accel) - accel_mean;
        gyro_variance += gyro.component_mul(&gyro) * float(sample.dt);
        accel_variance += accel.component_mul(&accel) * float(sample.dt);
    }
    gyro_variance /= total;
    accel_variance /= total;
    let gravity = vector(gravity_world).norm();
    let magnitude = accel_mean.norm();
    WindowStatistics {
        gyro_mean: point(&gyro_mean),
        accel_mean: point(&accel_mean),
        gyro_std: point(&gyro_variance.map(f64::sqrt)),
        accel_std: point(&accel_variance.map(f64::sqrt)),
        mean_accel_magnitude: scalar(magnitude),
        gravity_magnitude: scalar(gravity),
        magnitude_error: scalar((magnitude - gravity).abs()),
    }
}

/// The shortest rotation that lifts the mean specific force to the up direction, and the
/// bias that absorbs what is left of it.
fn stationary_attitude(accel_mean: &Point3, gravity_world: &Point3) -> Attitude {
    let accel = vector(accel_mean);
    let up = -vector(gravity_world);
    let turn = nalgebra::UnitQuaternion::rotation_between(&accel, &up)
        .unwrap_or_else(nalgebra::UnitQuaternion::identity);
    Attitude {
        rotation_body_to_world: quaternion(&turn),
        bias_acc: point(&(accel - turn.inverse() * up)),
    }
}

/// The angle in degrees between the up directions of two attitudes in the body frame.
fn tilt_between(
    gravity_world: &Point3,
    norm: Scalar,
    recovered: &Quaternion,
    truth: &Quaternion,
) -> Scalar {
    let up = -vector(gravity_world) / float(norm);
    let one = rotation(recovered).inverse() * up;
    let other = rotation(truth).inverse() * up;
    scalar(one.dot(&other).clamp(-1.0, 1.0).acos().to_degrees())
}

fn euroc_config() -> VisualInertialInitializerConfig {
    VisualInertialInitializerConfig::default()
}

fn push(
    initializer: &mut VisualInertialInitializer,
    gyro: Vector3<f64>,
    accel: Vector3<f64>,
    dt: f64,
) {
    initializer.push_sample(point(&gyro), point(&accel), scalar(dt));
}

fn tilt_residual(
    result: &VisualInertialInitializationResult,
    truth: &UnitQuaternion<f64>,
) -> f64 {
    float(result.gravity_alignment_residual_deg(&quaternion(truth), norm_of, tilt_between))
}

fn initialize(
    initializer: &VisualInertialInitializer,
) -> Result<VisualInertialInitializationResult, StationaryRejectionReason> {
    initializer.try_initialize(&StationaryNumerics {
        plus,
        total: sum_of,
        statistics: window_statistics,
        attitude: stationary_attitude,
    })
}

#[test]
fn default_config_uses_z_up_gravity() {
    let config = VisualInertialInitializerConfig::default();
    assert!((vector(&config.gravity_world) - Vector3::new(0.0, 0.0, -9.81)).norm() < 1.0e-12);
}

#[test]
fn stationary_level_window_recovers_zero_rotation_and_zero_biases() {
    let mut initializer = VisualInertialInitializer::new(euroc_config());
    let dt = 0.005; // 200 Hz
    let target_accel = -Vector3::new(0.0, 0.0, -9.81); // body level → reads up
    for _ in 0..200 {
        push(&mut initializer, Vector3::zeros(), target_accel, dt);
    }
    let result = initialize(&initializer)
        .expect("stationary window should recover bootstrap");
    assert_eq!(result.samples_consumed, 200);
    assert!((float(result.duration_seconds) - 1.0).abs() < 1.0e-9);
    assert!(vector(&result.initial_velocity_world).norm() < 1.0e-12);
    assert!(vector(&result.bias_gyro).norm() < 1.0e-12);
    assert!(vector(&result.bias_acc).norm() < 1.0e-9);
    assert!(rotation(&result.initial_rotation_body_to_world).angle().abs() < 1.0e-9);
    assert!(vector(&result.gyro_std).norm() < 1.0e-12);
    assert!(vector(&result.accel_std).norm() < 1.0e-12);
    assert!((float(result.mean_accel_magnitude) - 9.81).abs() < 1.0e-9);
}

#[test]
fn tilted_stationary_window_recovers_rotation() {
    let mut initializer = VisualInertialInitializer::new(euroc_config());
    let dt = 0.005;
    // Body tilted 30 degrees about x-axis. Then accel measures
    // R_b←w · (-g_w). With g_w = (0, 0, -9.81), -g_w = (0, 0, 9.81)
    // expressed in body frame is R_b←w · (0, 0, 9.81).
    let rotation_w_b = Rotation3::from_axis_angle(&Vector3::x_axis(), 0.5236); // 30 deg
    let world_up = Vector3::new(0.0, 0.0, 9.81);
    let accel_body = rotation_w_b.inverse() * world_up;
    for _ in 0..200 {
        push(&mut initializer, Vector3::zeros(), accel_body, dt);
    }
    let result = initialize(&initializer)
        .expect("tilted stationary should still recover bootstrap");
    // Rotating the measured accel by the recovered rotation should
    // produce the world-frame "up" direction.
    let lifted = rotation(&result.initial_rotation_body_to_world) * accel_body;
    assert!((lifted - world_up).norm() < 1.0e-9);
    assert!(vector(&result.bias_acc).norm() < 1.0e-9);
    // The recovered orientation should match the synthetic rotation
    // (up to yaw, which is unobservable; the synthetic rotation
    // here has no yaw component, so the match is exact).
    let recovered = Rotation3::from(rotation(&result.initial_rotation_body_to_world));
    let delta = rotation_w_b * recovered.inverse();
    assert!(delta.angle().abs() < 1.0e-9);
}

#[test]
fn nonzero_gyro_mean_becomes_bias() {
    let mut initializer = VisualInertialInitializer::new(euroc_config());
    let dt = 0.005;
    let gyro_bias = Vector3::new(0.01, -0.02, 0.005);
    let accel_body = Vector3::new(0.0, 0.0, 9.81);
    for _ in 0..200 {
        push(&mut initializer, gyro_bias, accel_body, dt);
    }
    let result = initialize(&initializer).expect("ok");
    assert!((vector(&result.bias_gyro) - gyro_bias).norm() < 1.0e-12);
}

#[test]
fn rejects_noisy_gyro() {
    let mut initializer = VisualInertialInitializer::new(euroc_config());
    let dt = 0.005;
    let accel_body = Vector3::new(0.0, 0.0, 9.81);
    for i in 0..200 {
        // Alternating ±1.0 rad/s on x-axis → std = 1.0, way above default 0.05.
        let sign = if i % 2 == 0 { 1.0 } else { -1.0 };
        let gyro = Vector3::new(sign, 0.0, 0.0);
        push(&mut initializer, gyro, accel_body, dt);
    }
    match initialize(&initializer).expect_err("should reject") {
        StationaryRejectionReason::GyroNoiseTooHigh { observed, limit } => {
            assert!(float(observed.x) > float(limit));
        }
        other => panic!("expected GyroNoiseTooHigh, got {other:?}"),
    }
}

#[test]
fn rejects_noisy_accel() {
    let mut initializer = VisualInertialInitializer::new(euroc_config());
    let dt = 0.005;
    for i in 0..200 {
        let sign = if i % 2 == 0 { 1.0 } else { -1.0 };
        let accel = Vector3::new(2.0 * sign, 0.0, 9.81);
        push(&mut initializer, Vector3::zeros(), accel, dt);
    }
    match initialize(&initializer).expect_err("should reject") {
        StationaryRejectionReason::AccelNoiseTooHigh { observed, limit } => {
            assert!(float(observed.x) > float(limit));
        }
        other => panic!("expected AccelNoiseTooHigh, got {other:?}"),
    }
}

#[test]
fn rejects_accel_magnitude_mismatch() {
    let mut initializer = VisualInertialInitializer::new(euroc_config());
    let dt = 0.005;
    let accel_body = Vector3::new(0.0, 0.0, 2.0); // way off 9.81
    for _ in 0..200 {
        push(&mut initializer, Vector3::zeros(), accel_body, dt);
    }
    match initialize(&initializer).expect_err("should reject") {
        StationaryRejectionReason::AccelMagnitudeMismatch {
            observed,
            expected,
            tolerance,
        } => {
            assert!((float(observed) - 2.0).abs() < 1.0e-9);
            assert!((float(expected) - 9.81).abs() < 1.0e-9);
            assert!(float(tolerance) > 0.0);
        }
        other => panic!("expected AccelMagnitudeMismatch, got {other:?}"),
    }
}

#[test]
fn rejects_insufficient_samples() {
    let mut initializer = VisualInertialInitializer::new(euroc_config());
    let dt = 0.005;
    let accel_body = Vector3::new(0.0, 0.0, 9.81);
    for _ in 0..10 {
        push(&mut initializer, Vector3::zeros(), accel_body, dt);
    }
    match initialize(&initializer).expect_err("should reject") {
        StationaryRejectionReason::InsufficientSamples { have, need } => {
            assert_eq!(have, 10);
            assert_eq!(need, 50);
        }
        other => panic!("expected InsufficientSamples, got {other:?}"),
    }
}

#[test]
fn rejects_insufficient_duration() {
    let config = VisualInertialInitializerConfig {
        min_samples: 10,
        min_stationary_window_seconds: scalar(1.0),
        ..Default::default()
    };
    let mut initializer = VisualInertialInitializer::new(config);
    let dt = 0.005;
    let accel_body = Vector3::new(0.0, 0.0, 9.81);
    // 50 samples × 5 ms = 0.25 s; below the 1 s threshold.
    for _ in 0..50 {
        push(&mut initializer, Vector3::zeros(), accel_body, dt);
    }
    match initialize(&initializer).expect_err("should reject") {
        StationaryRejectionReason::InsufficientDuration { have, need } => {
            assert!((float(have) - 0.25).abs() < 1.0e-9);
            assert!((float(need) - 1.0).abs() < 1.0e-9);
        }
        other => panic!("expected InsufficientDuration, got {other:?}"),
    }
}

#[test]
fn reset_clears_buffered_samples() {
    let mut initializer = VisualInertialInitializer::new(euroc_config());
    push(&mut initializer, Vector3::zeros(), Vector3::new(0.0, 0.0, 9.81), 0.005);
    assert_eq!(initializer.samples_seen(), 1);
    initializer.reset();
    assert_eq!(initializer.samples_seen(), 0);
    assert!((float(initializer.buffered_duration_seconds(sum_of)) - 0.0).abs() < 1.0e-12);
}

#[test]
fn push_sample_drops_nonpositive_dt() {
    let mut initializer = VisualInertialInitializer::new(euroc_config());
    let accel = Vector3::new(0.0, 0.0, 9.81);
    push(&mut initializer, Vector3::zeros(), accel, 0.0);
    push(&mut initializer, Vector3::zeros(), accel, -0.005);
    push(&mut initializer, Vector3::zeros(), accel, f64::NAN);
    assert_eq!(initializer.samples_seen(), 0);
}

#[test]
fn default_detector_window_seconds_is_infinity() {
    let config = VisualInertialInitializerConfig::default();
    assert!(float(config.detector_window_seconds).is_infinite());
    assert!(float(config.detector_window_seconds) > 0.0);
}

#[test]
fn time_weighted_statistics_match_unweighted_for_uniform_dt() {
    let mut initializer = VisualInertialInitializer::new(euroc_config());
    let dt = 0.005;
    for i in 0..200 {
        // A signal where the mean / std are easy to compute by
        // hand: gyro x alternates +0.001 / -0.001 (mean 0, std
        // 0.001), accel z = 9.81 + (i as f64) * 1e-6 (mean drifts
        // slightly).
        let sign = if i % 2 == 0 { 1.0 } else { -1.0 };
        let gyro = Vector3::new(sign * 0.001, 0.0, 0.0);
        let accel = Vector3::new(0.0, 0.0, 9.81 + (i as f64) * 1.0e-6);
        push(&mut initializer, gyro, accel, dt);
    }
    let result = initialize(&initializer)
        .expect("clean stationary stream");
    // Sample-count weighted mean for `[+0.001, -0.001, ...]` (200
    // samples) is exactly 0; same for the time-weighted form when
    // dt is uniform.
    assert!(vector(&result.bias_gyro).norm() < 1.0e-15);
    // gyro_std on x should equal 0.001 to within fp tolerance.
    assert!((vector(&result.gyro_std).x - 0.001).abs() < 1.0e-12);
}

#[test]
fn time_weighted_statistics_shift_mean_under_nonuniform_dt() {
    // With non-uniform `dt`, the time-weighted mean must weight
    // each sample by its `dt`. Push two samples: one with a tiny
    // dt at value 0, one with a much larger dt at value 1. The
    // sample-count-weighted mean would be 0.5; the time-weighted
    // mean must be much closer to 1.
    let config = VisualInertialInitializerConfig {
        min_samples: 2,
        min_stationary_window_seconds: scalar(0.0),
        max_gyro_std: scalar(f64::INFINITY),
        max_accel_std: scalar(f64::INFINITY),
        max_accel_magnitude_error: scalar(f64::INFINITY),
        ..Default::default()
    };
    let mut initializer = VisualInertialInitializer::new(config);
    // Sample A: dt = 0.001 s, gyro.x = 0.
    push(&mut initializer, Vector3::zeros(), Vector3::new(0.0, 0.0, 9.81), 0.001);
    // Sample B: dt = 0.999 s, gyro.x = 1.0.
    push(
        &mut initializer,
        Vector3::new(1.0, 0.0, 0.0),
        Vector3::new(0.0, 0.0, 9.81),
        0.999,
    );
    let result = initialize(&initializer).expect("predicates relaxed");
    // Time-weighted mean = (0 * 0.001 + 1 * 0.999) / 1.000 = 0.999.
    // Sample-count weighted would be (0 + 1) / 2 = 0.500.
    assert!(
        (vector(&result.bias_gyro).x - 0.999).abs() < 1.0e-12,
        "time-weighted mean expected 0.999, got {}",
        vector(&result.bias_gyro).x
    );
}

#[test]
fn sliding_window_non_stationary_then_stationary_succeeds() {
    // The integrator
    // starts during motion (0.5 s of noisy gyro) and the body
    // settles later (1.5 s of stationary samples). With a 1.0 s
    // sliding window the trailing slice is entirely stationary so
    // initialisation must succeed and `samples_consumed` must
    // reflect only the trailing window, not the polluted leading
    // chunk.
    let config = VisualInertialInitializerConfig {
        min_samples: 50,
        min_stationary_window_seconds: scalar(0.5),
        detector_window_seconds: scalar(1.0),
        ..Default::default()
    };
    let mut initializer = VisualInertialInitializer::new(config);
    let dt = 0.005; // 200 Hz
    let accel_body = Vector3::new(0.0, 0.0, 9.81);
    // Phase 1: 0.5 s of noisy gyro at ±1 rad/s on the x-axis.
    for i in 0..100 {
        let sign = if i % 2 == 0 { 1.0 } else { -1.0 };
        push(&mut initializer, Vector3::new(sign, 0.0, 0.0), accel_body, dt);
    }
    // Phase 2: 1.5 s of stationary samples.
    for _ in 0..300 {
        push(&mut initializer, Vector3::zeros(), accel_body, dt);
    }
    let result = initialize(&initializer)
        .expect("trailing 1.0 s window is clean");
    // Slice walks backwards from the end until cumulative `dt` ≥
    // 1.0 s. With dt = 0.005 that's 200 samples — entirely from
    // phase 2.
    assert_eq!(result.samples_consumed, 200);
    assert!((float(result.duration_seconds) - 1.0).abs() < 1.0e-9);
    // The slice is clean, so the recovered gyro bias is exactly
    // the stationary mean (zero) and the std is zero.
    assert!(vector(&result.bias_gyro).norm() < 1.0e-12);
    assert!(vector(&result.gyro_std).norm() < 1.0e-12);
    // `samples_seen()` still reports the full buffer (400) — the
    // sliding window is an evaluation detail, not a buffer prune.
    assert_eq!(initializer.samples_seen(), 400);
}

#[test]
fn sliding_window_rejects_when_recent_samples_are_noisy() {
    // The reverse of the above: 1.5 s of stationary samples
    // followed by 0.5 s of noisy gyro. With a 0.5 s sliding
    // window the trailing slice is exactly the noisy chunk so
    // initialisation must fail with `GyroNoiseTooHigh`.
    let config = VisualInertialInitializerConfig {
        min_samples: 50,
        min_stationary_window_seconds: scalar(0.4),
        detector_window_seconds: scalar(0.5),
        ..Default::default()
    };
    let mut initializer = VisualInertialInitializer::new(config);
    let dt = 0.005;
    let accel_body = Vector3::new(0.0, 0.0, 9.81);
    for _ in 0..300 {
        push(&mut initializer, Vector3::zeros(), accel_body, dt);
    }
    for i in 0..100 {
        let sign = if i % 2 == 0 { 1.0 } else { -1.0 };
        push(&mut initializer, Vector3::new(sign, 0.0, 0.0), accel_body, dt);
    }
    match initialize(&initializer)
        .expect_err("trailing slice is noisy")
    {
        StationaryRejectionReason::GyroNoiseTooHigh { observed, limit } => {
            assert!(float(observed.x) > float(limit));
        }
        other => panic!("expected GyroNoiseTooHigh, got {other:?}"),
    }
}

#[test]
fn sliding_window_insufficient_when_trailing_slice_too_short() {
    // The sliding-window predicates apply to the SLICE, not the
    // total buffer. A buffer with 2 s of samples but a 0.1 s
    // window where `min_stationary_window_seconds = 0.5` must be
    // rejected as `InsufficientDuration` — the buffer is large
    // but the slice is too small.
    let config = VisualInertialInitializerConfig {
        min_samples: 10,
        min_stationary_window_seconds: scalar(0.5),
        detector_window_seconds: scalar(0.1),
        ..Default::default()
    };
    let mut initializer = VisualInertialInitializer::new(config);
    let dt = 0.005;
    let accel_body = Vector3::new(0.0, 0.0, 9.81);
    for _ in 0..400 {
        push(&mut initializer, Vector3::zeros(), accel_body, dt);
    }
    match initialize(&initializer)
        .expect_err("slice is shorter than required")
    {
        StationaryRejectionReason::InsufficientDuration { have, need } => {
            // Slice walks backwards until cumulative dt >= 0.1 s,
            // so `have` is `~0.1` (slightly over by one sample).
            assert!(float(have) < float(need));
            assert!((float(need) - 0.5).abs() < 1.0e-9);
            assert!(float(have) > 0.0 && float(have) < 0.5);
        }
        other => panic!("expected InsufficientDuration, got {other:?}"),
    }
}

#[test]
fn gravity_alignment_residual_is_invariant_under_world_yaw() {
    // Stationary initialisation
    // observes the gravity direction but not yaw, so the
    // `gravity_alignment_residual_deg` metric must report `~0` for
    // two stationary streams whose ground-truth body→world
    // rotations differ only by a 30° rotation about the world
    // "up" axis. The full quaternion residual against the
    // yaw-rotated GT is NOT zero — that is the precise mistake
    // the metric is designed to avoid. This pins yaw as a gauge
    // in the residual, not a real recovery error.
    let mut config = euroc_config();
    // Use stronger noise gates than the noise level of the
    // synthesised data so the streams pass cleanly.
    config.max_accel_std = scalar(1.0e-6);
    let world_gravity = vector(&config.gravity_world);
    let world_up_axis = nalgebra::Unit::new_normalize(-world_gravity);

    // Tilt about world-x by 30° — perpendicular to the world up
    // (z) axis under EuRoC convention, so the tilt has zero
    // projection onto the yaw axis and the two ground-truth
    // rotations below genuinely differ only by yaw.
    let tilt = UnitQuaternion::from_axis_angle(&Vector3::x_axis(), 30f64.to_radians());
    let yaw = UnitQuaternion::from_axis_angle(&world_up_axis, 30f64.to_radians());

    let gt_a = tilt;
    let gt_b = yaw * tilt;

    // Specific-force measurement in body frame for each
    // orientation: `a_b = R_b←w · (-g_w)`.
    let accel_a = gt_a.inverse() * (-world_gravity);
    let accel_b = gt_b.inverse() * (-world_gravity);

    let dt = 0.005;
    let mut initializer_a = VisualInertialInitializer::new(config.clone());
    let mut initializer_b = VisualInertialInitializer::new(config.clone());
    for _ in 0..200 {
        push(&mut initializer_a, Vector3::zeros(), accel_a, dt);
        push(&mut initializer_b, Vector3::zeros(), accel_b, dt);
    }
    let result_a = initialize(&initializer_a).expect("stream A stationary");
    let result_b = initialize(&initializer_b).expect("stream B stationary");

    // The yaw-gauge-aware metric must report essentially zero for
    // BOTH streams — that is the load-bearing assertion.
    let residual_a = tilt_residual(&result_a, &gt_a);
    let residual_b = tilt_residual(&result_b, &gt_b);
    assert!(residual_a < 1.0e-6, "stream A residual = {residual_a} deg");
    assert!(residual_b < 1.0e-6, "stream B residual = {residual_b} deg");

    // Cross-check: the full quaternion residual against stream B's
    // ground truth should be ~30° (the yaw mismatch the
    // initialiser cannot observe). If this assertion fails the
    // test is degenerate — i.e. the streams do not actually
    // differ in yaw — and the previous two assertions become
    // meaningless.
    let full_residual_b_deg = gt_b
        .rotation_to(&rotation(&result_b.initial_rotation_body_to_world))
        .angle()
        .to_degrees();
    assert!(
        (full_residual_b_deg - 30.0).abs() < 1.0e-4,
        "stream B full residual should be ~30°, got {full_residual_b_deg}"
    );
}

#[test]
fn gravity_alignment_residual_returns_zero_for_zero_gravity_config() {
    // Degenerate config guard: when `gravity_world` is the zero
    // vector the metric has no defined direction; the helper
    // returns 0.0 rather than NaN-poisoning a diagnostic log.
    let mut result_zero_g = VisualInertialInitializationResult {
        gravity_world: Point3::zero(),
        initial_rotation_body_to_world: quaternion(&UnitQuaternion::identity()),
        initial_velocity_world: Point3::zero(),
        bias_gyro: Point3::zero(),
        bias_acc: Point3::zero(),
        samples_consumed: 0,
        duration_seconds: scalar(0.0),
        gyro_std: Point3::zero(),
        accel_std: Point3::zero(),
        mean_accel_magnitude: scalar(0.0),
    };
    let any_gt = UnitQuaternion::from_axis_angle(&Vector3::x_axis(), 0.5);
    assert_eq!(tilt_residual(&result_zero_g, &any_gt), 0.0);
    // Sanity: with the standard EuRoC gravity, a 90° tilt should
    // produce ~90° residual against identity.
    result_zero_g.gravity_world = point(&Vector3::new(0.0, 0.0, -9.81));
    let tilt = UnitQuaternion::from_axis_angle(&Vector3::x_axis(), std::f64::consts::FRAC_PI_2);
    let residual_deg = tilt_residual(&result_zero_g, &tilt);
    assert!(
        (residual_deg - 90.0).abs() < 1.0e-9,
        "identity vs 90° tilt residual = {residual_deg} deg"
    );
}

#[test]
fn accel_magnitude_mismatch_absorbed_by_bias_when_within_tolerance() {
    let mut initializer = VisualInertialInitializer::new(euroc_config());
    let dt = 0.005;
    // Measured magnitude 9.95 vs expected 9.81: 0.14 within
    // tolerance 0.5, but should leak into bias_acc.
    let accel_body = Vector3::new(0.0, 0.0, 9.95);
    for _ in 0..200 {
        push(&mut initializer, Vector3::zeros(), accel_body, dt);
    }
    let result = initialize(&initializer).expect("ok");
    let recovered_world_accel =
        rotation(&result.initial_rotation_body_to_world) * (accel_body - vector(&result.bias_acc));
    let expected_world_accel = -vector(&result.gravity_world);
    assert!((recovered_world_accel - expected_world_accel).norm() < 1.0e-9);
    assert!(vector(&result.bias_acc).norm() > 0.0);
}

#[test]
fn a_window_at_rest_passed_every_gate() {
    let mut initializer = VisualInertialInitializer::new(euroc_config());
    for k in 0..60 {
        let wobble = if k % 2 == 0 { 0.01 } else { -0.01 };
        push(
            &mut initializer,
            Vector3::new(wobble, 0.0, 0.0),
            Vector3::new(0.0, 0.0, 9.81),
            0.01,
        );
    }
    let found = initialize(&initializer).unwrap();
    let config = initializer.config();
    assert!(found.samples_consumed >= config.min_samples);
    assert!(!found.duration_seconds.lt(config.min_stationary_window_seconds));
    assert!(found.gyro_std.x.le(config.max_gyro_std));
    assert!(found.accel_std.z.le(config.max_accel_std));
    assert_eq!(found.initial_velocity_world, Point3::zero());
}

#[test]
fn statistics_are_checked_gate_by_gate() {
    let config = euroc_config();
    let still = WindowStatistics {
        gyro_mean: Point3::zero(),
        accel_mean: Point3::zero(),
        gyro_std: Point3::zero(),
        accel_std: Point3::zero(),
        mean_accel_magnitude: scalar(9.81),
        gravity_magnitude: scalar(9.81),
        magnitude_error: scalar(0.0),
    };
    assert_eq!(check_stationary(&config, &still), None);
    let mut lost = still;
    lost.gyro_std.y = scalar(f64::NAN);
    assert!(matches!(
        check_stationary(&config, &lost),
        Some(StationaryRejectionReason::GyroNoiseTooHigh { .. })
    ));
    let mut weightless = still;
    weightless.mean_accel_magnitude = scalar(f64::EPSILON);
    assert_eq!(
        check_stationary(&config, &weightless),
        Some(StationaryRejectionReason::AccelMagnitudeMismatch {
            observed: scalar(f64::EPSILON),
            expected: scalar(9.81),
            tolerance: scalar(0.5),
        })
    );
}
