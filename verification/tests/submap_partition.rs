use visloc_slam::scalar::Scalar;
use visloc_slam::submap_partition::{
    partition_ordered_submaps, remap_pairs_to_submap, score_seams, seam_support_by_cut,
    validate_config, AdaptiveSubmapPartitionConfig, AdaptiveSubmapPartitionHints,
    PairwiseMatches, SubmapPartitionError, SubmapWindow,
};

fn scalar(value: f64) -> Scalar {
    Scalar::from_bits(value.to_bits())
}

fn weigh(support: usize, quality: Scalar) -> Scalar {
    scalar(support as f64 * f64::from_bits(quality.to_bits()))
}

fn pair(i: usize, j: usize, count: usize) -> PairwiseMatches {
    PairwiseMatches {
        image_i: i,
        image_j: j,
        matches: (0..count).map(|k| (k, k)).collect(),
    }
}

fn config() -> AdaptiveSubmapPartitionConfig {
    AdaptiveSubmapPartitionConfig {
        min_images: 4,
        target_images: 6,
        max_images: 8,
        overlap_images: 2,
        boundary_search_radius: 2,
        ..AdaptiveSubmapPartitionConfig::default()
    }
}

fn partition(
    image_count: usize,
    pairs: &[PairwiseMatches],
    config: &AdaptiveSubmapPartitionConfig,
    hints: &AdaptiveSubmapPartitionHints,
) -> Result<Vec<SubmapWindow>, SubmapPartitionError> {
    partition_ordered_submaps(image_count, pairs, config, hints, weigh)
}

#[test]
fn partitions_cover_sequence_with_exact_overlap_and_no_short_tail() {
    let windows =
        partition(17, &[], &config(), &AdaptiveSubmapPartitionHints::default()).unwrap();
    assert_eq!(
        windows.iter().map(|window| window.image_range.clone()).collect::<Vec<_>>(),
        vec![0..6, 4..10, 8..14, 12..17]
    );
    assert!(windows.iter().all(|window| window.image_count() >= 4));
    for adjacent in windows.windows(2) {
        assert_eq!(adjacent[0].image_range.end - adjacent[1].image_range.start, 2);
    }
}

#[test]
fn boundary_moves_to_the_best_supported_seam() {
    let pairs = vec![pair(3, 7, 100), pair(4, 7, 80), pair(6, 7, 100), pair(0, 1, 500)];
    let windows =
        partition(14, &pairs, &config(), &AdaptiveSubmapPartitionHints::default()).unwrap();
    assert_eq!(windows[0].image_range, 0..7);
    assert_eq!(windows[0].outgoing_seam_support, 280);
}

#[test]
fn motion_quality_hint_can_avoid_an_unsafe_seam() {
    let pairs = vec![pair(2, 6, 50), pair(3, 7, 50)];
    let mut hints = AdaptiveSubmapPartitionHints::default();
    hints.boundary_quality_by_cut = vec![scalar(1.0); 15];
    hints.boundary_quality_by_cut[6] = scalar(0.0);
    hints.boundary_quality_by_cut[7] = scalar(3.0);
    let windows = partition(14, &pairs, &config(), &hints).unwrap();
    assert_eq!(windows[0].image_range, 0..7);
}

#[test]
fn remaps_only_internal_pairs_to_local_indices() {
    let pairs = vec![pair(1, 3, 2), pair(3, 5, 3), pair(5, 7, 4)];
    let local = remap_pairs_to_submap(&pairs, 3..7);
    assert_eq!(local, vec![pair(0, 2, 3)]);
}

#[test]
fn rejects_invalid_configuration_and_pair_index() {
    let mut invalid = config();
    invalid.overlap_images = invalid.min_images;
    assert_eq!(
        partition(10, &[], &invalid, &Default::default()),
        Err(SubmapPartitionError::OverlapTooLarge)
    );
    assert!(matches!(
        partition(5, &[pair(0, 5, 1)], &config(), &Default::default()),
        Err(SubmapPartitionError::PairImageOutOfRange { .. })
    ));
}

#[test]
fn every_configuration_error_is_reported_with_its_text() {
    let zero = AdaptiveSubmapPartitionConfig { min_images: 0, ..config() };
    assert_eq!(validate_config(&zero), Err(SubmapPartitionError::ZeroMinimum));
    let disordered = AdaptiveSubmapPartitionConfig { target_images: 9, ..config() };
    assert_eq!(validate_config(&disordered), Err(SubmapPartitionError::InvalidSizeOrder));
    assert_eq!(validate_config(&config()), Ok(()));
    assert_eq!(
        SubmapPartitionError::ZeroMinimum.message(),
        "submap min_images must be positive"
    );
    let error = partition(5, &[pair(0, 1, 1), pair(2, 7, 1)], &config(), &Default::default())
        .unwrap_err();
    assert_eq!(
        error,
        SubmapPartitionError::PairImageOutOfRange {
            pair_index: 1,
            image_index: 7,
            image_count: 5
        }
    );
    assert_eq!(error.message(), "pair 1 references image 7; image count is 5");
}

#[test]
fn short_and_empty_sequences_need_no_seam() {
    assert_eq!(partition(0, &[], &config(), &Default::default()).unwrap().len(), 0);
    let single = partition(8, &[], &config(), &Default::default()).unwrap();
    assert_eq!(single.len(), 1);
    assert_eq!(single[0].image_range, 0..8);
    assert_eq!(single[0].outgoing_seam_support, 0);
}

#[test]
fn seam_support_counts_the_pairs_that_cross_a_cut() {
    let pairs = vec![pair(0, 2, 3), pair(3, 1, 5)];
    assert_eq!(seam_support_by_cut(4, &pairs), vec![0, 3, 8, 5, 0]);
    let mut hints = AdaptiveSubmapPartitionHints::default();
    hints.boundary_quality_by_cut =
        vec![scalar(1.0), scalar(2.0), scalar(-1.0), scalar(f64::NAN)];
    assert_eq!(
        score_seams(4, &pairs, &hints, &weigh),
        vec![scalar(0.0), scalar(6.0), scalar(8.0), scalar(5.0), scalar(0.0)]
    );
}

#[test]
fn unusable_hints_leave_the_partition_alone() {
    let pairs = vec![pair(3, 7, 100), pair(4, 7, 80), pair(6, 7, 100), pair(0, 1, 500)];
    let plain = partition(17, &pairs, &config(), &Default::default()).unwrap();
    let mut hints = AdaptiveSubmapPartitionHints::default();
    hints.boundary_quality_by_cut =
        vec![scalar(f64::NAN), scalar(-2.0), scalar(f64::INFINITY), scalar(f64::NAN)];
    hints.boundary_quality_by_cut.resize(30, scalar(f64::NEG_INFINITY));
    assert_eq!(partition(17, &pairs, &config(), &hints).unwrap(), plain);
}

#[test]
fn filled_in_hints_give_the_same_partition() {
    let pairs = vec![pair(3, 7, 100), pair(4, 7, 80), pair(6, 7, 100), pair(10, 12, 60)];
    let mut hints = AdaptiveSubmapPartitionHints::default();
    hints.boundary_quality_by_cut = vec![scalar(f64::NAN); 5];
    hints.boundary_quality_by_cut.extend([scalar(0.5), scalar(-1.0), scalar(3.0)]);
    let mut filled = AdaptiveSubmapPartitionHints::default();
    filled.boundary_quality_by_cut = vec![scalar(1.0); 5];
    filled.boundary_quality_by_cut.extend([scalar(0.5), scalar(1.0), scalar(3.0)]);
    filled.boundary_quality_by_cut.resize(40, scalar(1.0));
    assert_eq!(
        partition(17, &pairs, &config(), &filled).unwrap(),
        partition(17, &pairs, &config(), &hints).unwrap()
    );
}
